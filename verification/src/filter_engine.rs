//! The filter engine: filter expressions evaluated against the filter
//! index. A leaf whose answer rests on numbers or locations (a range
//! comparison, a nested equality on a number, a geospatial query) is
//! answered by the caller, which keeps those values, and reaches the engine
//! as its list of documents.

use crate::errors::VectorDbError;
use crate::text::{lemma_seq_less_strict_total_order, seq_less};
use crate::filter_documents::{indexed_as, leaves, Document};
use crate::filter_index::{
    field_at, indexed_hits, number_entries, numbers_of, sub_hits, text_hits, value_hits, values_of, words, FieldIndex,
    FilterIndex,
};
use crate::filtering::{
    and_combine, has_dot, kept, lemma_ascending_lists_of_same_ids_are_equal, nested_index_key, not_combine,
    sorted_unique, strictly_ascending, views, ComparisonOperator, FilterConfig, LogicalOperator, NestedOperator,
    TextSearchOptions,
};
use vstd::prelude::*;

verus! {

/// A value in a filter expression.
#[derive(Debug)]
pub enum FilterValue {
    String(String),
    Boolean(bool),
    Array(Vec<FilterValue>),
    Object(Vec<(String, FilterValue)>),
    Null,
}

/// A filter over the indexed documents.
#[derive(Debug)]
pub enum FilterExpression {
    /// `field operator value`.
    Comparison { field: String, operator: ComparisonOperator, value: FilterValue },
    /// AND, OR or NOT of the operands.
    Logical { operator: LogicalOperator, operands: Vec<FilterExpression> },
    /// A query on a nested field.
    Nested { path: String, operator: NestedOperator, value: FilterValue },
    /// A full-text search of `query` in `fields`.
    TextSearch { fields: Vec<String>, query: String, options: TextSearchOptions },
    /// A leaf the caller answered from the numbers or locations it keeps:
    /// the documents it found.
    Resolved { ids: Vec<String> },
}

/// The text under which a true/false value is indexed.
pub open spec fn bool_key(b: bool) -> Seq<char> {
    if b {
        "true"@
    } else {
        "false"@
    }
}

/// `s` with `x` put in its place by `<`, unless it is there already.
pub open spec fn insert_sorted(s: Seq<Seq<char>>, x: Seq<char>) -> Seq<Seq<char>>
    decreases s.len(),
{
    if s.len() == 0 {
        seq![x]
    } else if s[0] == x {
        s
    } else if seq_less(x, s[0]) {
        seq![x] + s
    } else {
        seq![s[0]] + insert_sorted(s.drop_first(), x)
    }
}

/// The ids of `ids` sorted by `<` on strings, each once.
pub open spec fn sorted_form(ids: Seq<Seq<char>>) -> Seq<Seq<char>>
    decreases ids.len(),
{
    if ids.len() == 0 {
        Seq::empty()
    } else {
        insert_sorted(sorted_form(ids.drop_last()), ids.last())
    }
}

proof fn lemma_insert_sorted(s: Seq<Seq<char>>, x: Seq<char>)
    requires
        strictly_ascending(s),
    ensures
        strictly_ascending(insert_sorted(s, x)),
        forall|y: Seq<char>| #[trigger] insert_sorted(s, x).contains(y) <==> (s.contains(y) || y == x),
    decreases s.len(),
{
    lemma_seq_less_strict_total_order();
    let r = insert_sorted(s, x);
    if s.len() == 0 {
        assert(r[0] == x);
    } else if s[0] == x {
    } else if seq_less(x, s[0]) {
        assert forall|i: int, j: int| 0 <= i < j < r.len() implies seq_less(#[trigger] r[i], #[trigger] r[j]) by {
            if i == 0 {
                assert(r[j] == s[j - 1]);
                if j - 1 > 0 {
                    assert(seq_less(s[0], s[j - 1]));
                }
            } else {
                assert(r[i] == s[i - 1] && r[j] == s[j - 1]);
            }
        }
        assert forall|y: Seq<char>| #[trigger] r.contains(y) <==> (s.contains(y) || y == x) by {
            if r.contains(y) {
                let i = choose|i: int| 0 <= i < r.len() && r[i] == y;
                if i > 0 {
                    assert(s[i - 1] == y);
                }
            }
            if s.contains(y) {
                let i = choose|i: int| 0 <= i < s.len() && s[i] == y;
                assert(r[i + 1] == y);
            }
            if y == x {
                assert(r[0] == y);
            }
        }
    } else {
        let t = s.drop_first();
        assert(seq_less(s[0], x));
        assert forall|i: int, j: int| 0 <= i < j < t.len() implies seq_less(#[trigger] t[i], #[trigger] t[j]) by {
            assert(t[i] == s[i + 1] && t[j] == s[j + 1]);
        }
        lemma_insert_sorted(t, x);
        let u = insert_sorted(t, x);
        assert(r == seq![s[0]] + u);
        assert forall|i: int, j: int| 0 <= i < j < r.len() implies seq_less(#[trigger] r[i], #[trigger] r[j]) by {
            if i == 0 {
                assert(r[j] == u[j - 1]);
                assert(u.contains(u[j - 1]));
                if t.contains(u[j - 1]) {
                    let k = choose|k: int| 0 <= k < t.len() && t[k] == u[j - 1];
                    assert(s[k + 1] == u[j - 1]);
                }
            } else {
                assert(r[i] == u[i - 1] && r[j] == u[j - 1]);
            }
        }
        assert forall|y: Seq<char>| #[trigger] r.contains(y) <==> (s.contains(y) || y == x) by {
            if r.contains(y) {
                let i = choose|i: int| 0 <= i < r.len() && r[i] == y;
                if i > 0 {
                    assert(u[i - 1] == y);
                    assert(u.contains(y));
                    if t.contains(y) {
                        let k = choose|k: int| 0 <= k < t.len() && t[k] == y;
                        assert(s[k + 1] == y);
                    }
                } else {
                    assert(s[0] == y);
                }
            }
            if s.contains(y) {
                let i = choose|i: int| 0 <= i < s.len() && s[i] == y;
                if i == 0 {
                    assert(r[0] == y);
                } else {
                    assert(t[i - 1] == y);
                    assert(t.contains(y));
                    assert(u.contains(y));
                    let k = choose|k: int| 0 <= k < u.len() && u[k] == y;
                    assert(r[k + 1] == y);
                }
            }
            if y == x {
                assert(u.contains(y));
                let k = choose|k: int| 0 <= k < u.len() && u[k] == y;
                assert(r[k + 1] == y);
            }
        }
    }
}

/// The sorted form ascends strictly and holds exactly the ids.
pub proof fn lemma_sorted_form_sorts(ids: Seq<Seq<char>>)
    ensures
        strictly_ascending(sorted_form(ids)),
        forall|x: Seq<char>| #[trigger] sorted_form(ids).contains(x) <==> ids.contains(x),
    decreases ids.len(),
{
    if ids.len() > 0 {
        lemma_sorted_form_sorts(ids.drop_last());
        lemma_insert_sorted(sorted_form(ids.drop_last()), ids.last());
        assert forall|x: Seq<char>| #[trigger] sorted_form(ids).contains(x) <==> ids.contains(x) by {
            if ids.drop_last().contains(x) {
                let i = choose|i: int| 0 <= i < ids.drop_last().len() && ids.drop_last()[i] == x;
                assert(ids[i] == x);
            }
            if ids.contains(x) && x != ids.last() {
                let i = choose|i: int| 0 <= i < ids.len() && ids[i] == x;
                assert(ids.drop_last()[i] == x);
            }
            if x == ids.last() {
                assert(ids[ids.len() - 1] == x);
            }
        }
    }
}

/// A strictly ascending list with the ids of `ids` is their sorted form.
proof fn lemma_sorted_form(r: Seq<Seq<char>>, ids: Seq<Seq<char>>)
    requires
        strictly_ascending(r),
        forall|x: Seq<char>| #[trigger] r.contains(x) <==> ids.contains(x),
    ensures
        r == sorted_form(ids),
{
    lemma_sorted_form_sorts(ids);
    lemma_ascending_lists_of_same_ids_are_equal(r, sorted_form(ids));
}

/// The answer of a comparison on the field `field`: the documents holding
/// exactly the text of an equality; nothing otherwise.
pub open spec fn comparison_hits(
    fs: Seq<(String, FieldIndex)>,
    field: Seq<char>,
    operator: ComparisonOperator,
    value: FilterValue,
) -> Seq<Seq<char>> {
    match operator {
        ComparisonOperator::Equal => match value {
            FilterValue::String(s) => values_of(field_at(fs, field), s@),
            _ => Seq::empty(),
        },
        _ => Seq::empty(),
    }
}

/// The answer of an equality on the nested field `path`: the documents
/// holding exactly the text or true/false value there; nothing for a path
/// without a '.'.
pub open spec fn nested_equal_hits(fs: Seq<(String, FieldIndex)>, path: Seq<char>, value: FilterValue) -> Seq<Seq<char>> {
    if !has_dot(path) {
        Seq::empty()
    } else {
        match value {
            FilterValue::String(s) => values_of(field_at(fs, path), s@),
            FilterValue::Boolean(b) => values_of(field_at(fs, path), bool_key(b)),
            _ => Seq::empty(),
        }
    }
}

/// The answer of a partial match on the nested field `path`: for a text,
/// the sorted documents holding a value that contains it; for another
/// value, the equality.
pub open spec fn nested_contains_hits(fs: Seq<(String, FieldIndex)>, path: Seq<char>, value: FilterValue) -> Seq<Seq<char>> {
    if !has_dot(path) {
        Seq::empty()
    } else {
        match field_at(fs, path) {
            None => Seq::empty(),
            Some(f) => match value {
                FilterValue::String(s) => sorted_form(sub_hits(f.values.entries(), s@)),
                _ => nested_equal_hits(fs, path, value),
            },
        }
    }
}

/// The answer of a nested query: existence gives every document with an
/// indexed value, sorted; equality and partial match as above; the other
/// operators nothing.
pub open spec fn nested_hits(
    fs: Seq<(String, FieldIndex)>,
    path: Seq<char>,
    operator: NestedOperator,
    value: FilterValue,
) -> Seq<Seq<char>> {
    match operator {
        NestedOperator::Exists => sorted_form(value_hits(fs)),
        NestedOperator::Equal => nested_equal_hits(fs, path, value),
        NestedOperator::Contains => nested_contains_hits(fs, path, value),
        _ => Seq::empty(),
    }
}

/// The answer of `e` on the fields `fs`, or `None` where a NOT in it does
/// not have exactly one operand.
pub open spec fn eval(fs: Seq<(String, FieldIndex)>, e: FilterExpression) -> Option<Seq<Seq<char>>>
    decreases e, 0nat,
{
    match e {
        FilterExpression::Comparison { field, operator, value } => Some(comparison_hits(fs, field@, operator, value)),
        FilterExpression::Nested { path, operator, value } => Some(nested_hits(fs, path@, operator, value)),
        FilterExpression::TextSearch { fields, query, options } => Some(
            sorted_form(text_hits(fs, views(fields@), words(query@))),
        ),
        FilterExpression::Resolved { ids } => Some(views(ids@)),
        FilterExpression::Logical { operator, operands } => match operator {
            LogicalOperator::And => match and_fold(fs, operands@, operands@.len()) {
                None => None,
                Some(None) => Some(Seq::empty()),
                Some(Some(s)) => Some(s),
            },
            LogicalOperator::Or => match or_fold(fs, operands@, operands@.len()) {
                None => None,
                Some(s) => Some(sorted_form(s)),
            },
            LogicalOperator::Not => if operands@.len() == 1 {
                match eval(fs, operands@[0]) {
                    None => None,
                    Some(r) => Some(kept(sorted_form(indexed_hits(fs)), r, false)),
                }
            } else {
                None
            },
        },
    }
}

/// AND of the first `n` operands: `Some(None)` before the first, then the
/// first answer filtered by each later one in turn; `None` on an error.
pub open spec fn and_fold(fs: Seq<(String, FieldIndex)>, ops: Seq<FilterExpression>, n: nat) -> Option<
    Option<Seq<Seq<char>>>,
>
    decreases ops, n,
{
    if n == 0 || n > ops.len() {
        Some(None)
    } else {
        match and_fold(fs, ops, (n - 1) as nat) {
            None => None,
            Some(acc) => match eval(fs, ops[n - 1]) {
                None => None,
                Some(r) => Some(
                    Some(
                        match acc {
                            None => r,
                            Some(cur) => kept(cur, r, true),
                        },
                    ),
                ),
            },
        }
    }
}

/// OR of the first `n` operands before sorting: their answers one after
/// another; `None` on an error.
pub open spec fn or_fold(fs: Seq<(String, FieldIndex)>, ops: Seq<FilterExpression>, n: nat) -> Option<Seq<Seq<char>>>
    decreases ops, n,
{
    if n == 0 || n > ops.len() {
        Some(Seq::empty())
    } else {
        match or_fold(fs, ops, (n - 1) as nat) {
            None => None,
            Some(acc) => match eval(fs, ops[n - 1]) {
                None => None,
                Some(r) => Some(acc + r),
            },
        }
    }
}

} // verus!

verus! {

/// The filter engine: the filter index and its settings.
#[derive(Debug)]
pub struct FilterEngine {
    index: FilterIndex,
    config: FilterConfig,
}

impl FilterEngine {
    /// The indexed fields.
    pub closed spec fn fields(&self) -> Seq<(String, FieldIndex)> {
        self.index.fields()
    }

    /// The settings the engine was made with.
    pub closed spec fn config(&self) -> FilterConfig {
        self.config
    }

    /// Whether the index is sound.
    pub closed spec fn wf(&self) -> bool {
        self.index.wf()
    }

    /// An engine with nothing indexed.
    pub fn new(config: FilterConfig) -> (e: Self)
        ensures
            e.wf(),
            e.fields().len() == 0,
            e.config() == config,
    {
        FilterEngine { index: FilterIndex::new(), config }
    }

    /// The settings.
    pub fn get_config(&self) -> (c: &FilterConfig)
        ensures
            *c == self.config(),
    {
        &self.config
    }

    /// Indexes document `id` (see [`FilterIndex::add_document`]).
    pub fn add_document(&mut self, id: &str, document: &Document) -> (r: Result<(), VectorDbError>)
        requires
            old(self).wf(),
        ensures
            final(self).wf(),
            r is Ok,
            final(self).config() == old(self).config(),
            indexed_as(old(self).fields(), final(self).fields(), id@, leaves(*document, Seq::empty())),
    {
        self.index.add_document(id, document)
    }

    /// The number of indexed fields.
    pub fn indexed_fields(&self) -> (n: usize)
        ensures
            n == self.fields().len(),
    {
        self.index.indexed_fields()
    }

    /// The number of documents known to the filter: those with a number, a
    /// word or an exact value indexed.
    pub fn total_documents(&self) -> (n: usize)
        ensures
            n == sorted_form(indexed_hits(self.fields())).len(),
    {
        let all = self.index.all_ids();
        proof {
            lemma_sorted_form(views(all@), indexed_hits(self.fields()));
        }
        all.len()
    }

    /// The number entries of the field at `path`, for the caller to compare
    /// the numbers it keeps.
    pub fn numbers_at(&self, path: &str) -> (r: Vec<(u64, String)>)
        requires
            self.wf(),
        ensures
            number_entries(r@) == numbers_of(field_at(self.fields(), path@)),
    {
        self.index.numbers_at(path)
    }

    /// Whether a field at `path` is indexed.
    pub fn has_field(&self, path: &str) -> (r: bool)
        ensures
            r == field_at(self.fields(), path@) is Some,
    {
        self.index.has_field(path)
    }

    /// Evaluates `expression` (see [`eval`]).
    pub fn execute_filter(&self, expression: &FilterExpression) -> (r: Result<Vec<String>, VectorDbError>)
        requires
            self.wf(),
        ensures
            match eval(self.fields(), *expression) {
                Some(s) => r matches Ok(v) && views(v@) == s,
                None => r matches Err(VectorDbError::Other(m)) && m@ == "NOT operator requires exactly one operand"@,
            },
        decreases expression, 0nat,
    {
        match expression {
            FilterExpression::Comparison { field, operator, value } => Ok(
                self.execute_comparison(field.as_str(), *operator, value),
            ),
            FilterExpression::Logical { operator, operands } => self.execute_logical(*operator, operands),
            FilterExpression::Nested { path, operator, value } => Ok(self.execute_nested(path.as_str(), *operator, value)),
            FilterExpression::TextSearch { fields, query, options } => {
                let r = self.index.text_search(fields, query.as_str());
                proof {
                    lemma_sorted_form(views(r@), text_hits(self.fields(), views(fields@), words(query@)));
                }
                Ok(r)
            },
            FilterExpression::Resolved { ids } => Ok(crate::filter_index::clone_all(ids)),
        }
    }

    fn execute_comparison(&self, field: &str, operator: ComparisonOperator, value: &FilterValue) -> (r: Vec<String>)
        requires
            self.wf(),
        ensures
            views(r@) == comparison_hits(self.fields(), field@, operator, *value),
    {
        match operator {
            ComparisonOperator::Equal => match value {
                FilterValue::String(s) => self.index.equal_ids(field, s.as_str()),
                _ => {
                    let r: Vec<String> = Vec::new();
                    assert(views(r@) =~= Seq::<Seq<char>>::empty());
                    r
                },
            },
            _ => {
                let r: Vec<String> = Vec::new();
                assert(views(r@) =~= Seq::<Seq<char>>::empty());
                r
            },
        }
    }

    fn execute_logical(&self, operator: LogicalOperator, operands: &Vec<FilterExpression>) -> (r: Result<
        Vec<String>,
        VectorDbError,
    >)
        requires
            self.wf(),
        ensures
            match eval(self.fields(), FilterExpression::Logical { operator, operands: *operands }) {
                Some(s) => r matches Ok(v) && views(v@) == s,
                None => r matches Err(VectorDbError::Other(m)) && m@ == "NOT operator requires exactly one operand"@,
            },
        decreases operands, 1nat,
    {
        let ghost fs = self.fields();
        match operator {
            LogicalOperator::And => {
                let mut result: Option<Vec<String>> = None;
                let mut i: usize = 0;
                while i < operands.len()
                    invariant
                        self.wf(),
                        fs == self.fields(),
                        operator == LogicalOperator::And,
                        i <= operands@.len(),
                        and_fold(fs, operands@, i as nat) == Some(
                            match result {
                                None => None,
                                Some(v) => Some(views(v@)),
                            },
                        ),
                    decreases operands.len() - i,
                {
                    match self.execute_filter(&operands[i]) {
                        Err(e) => {
                            proof {
                                assert(eval(fs, operands@[i as int]) is None);
                                assert(and_fold(fs, operands@, (i + 1) as nat) is None);
                                lemma_and_fold_stays_failed(fs, operands@, (i + 1) as nat, operands@.len());
                            }
                            return Err(e);
                        },
                        Ok(v) => {
                            result = and_combine(result, v);
                        },
                    }
                    i = i + 1;
                }
                match result {
                    None => {
                        let r: Vec<String> = Vec::new();
                        assert(views(r@) =~= Seq::<Seq<char>>::empty());
                        Ok(r)
                    },
                    Some(v) => Ok(v),
                }
            },
            LogicalOperator::Or => {
                let mut result: Vec<String> = Vec::new();
                let mut i: usize = 0;
                assert(views(result@) =~= Seq::<Seq<char>>::empty());
                while i < operands.len()
                    invariant
                        self.wf(),
                        fs == self.fields(),
                        operator == LogicalOperator::Or,
                        i <= operands@.len(),
                        or_fold(fs, operands@, i as nat) == Some(views(result@)),
                    decreases operands.len() - i,
                {
                    match self.execute_filter(&operands[i]) {
                        Err(e) => {
                            proof {
                                assert(eval(fs, operands@[i as int]) is None);
                                assert(or_fold(fs, operands@, (i + 1) as nat) is None);
                                lemma_or_fold_stays_failed(fs, operands@, (i + 1) as nat, operands@.len());
                            }
                            return Err(e);
                        },
                        Ok(v) => {
                            let ghost r0 = result@;
                            let ghost v0 = v@;
                            let mut v = v;
                            result.append(&mut v);
                            assert(views(result@) =~= views(r0) + views(v0));
                        },
                    }
                    i = i + 1;
                }
                let ghost all = views(result@);
                let r = sorted_unique(result);
                proof {
                    lemma_sorted_form(views(r@), all);
                }
                Ok(r)
            },
            LogicalOperator::Not => {
                if operands.len() == 1 {
                    match self.execute_filter(&operands[0]) {
                        Err(e) => Err(e),
                        Ok(v) => {
                            let all = self.index.all_ids();
                            proof {
                                lemma_sorted_form(views(all@), indexed_hits(fs));
                            }
                            not_combine(1, &all, &v)
                        },
                    }
                } else {
                    not_combine(operands.len(), &Vec::new(), &Vec::new())
                }
            },
        }
    }

    fn execute_nested(&self, path: &str, operator: NestedOperator, value: &FilterValue) -> (r: Vec<String>)
        requires
            self.wf(),
        ensures
            views(r@) == nested_hits(self.fields(), path@, operator, *value),
    {
        match operator {
            NestedOperator::Exists => {
                let r = self.index.value_ids();
                proof {
                    lemma_sorted_form(views(r@), value_hits(self.fields()));
                }
                r
            },
            NestedOperator::Equal => self.execute_nested_equality(path, value),
            NestedOperator::Contains => self.execute_nested_contains(path, value),
            _ => {
                let r: Vec<String> = Vec::new();
                assert(views(r@) =~= Seq::<Seq<char>>::empty());
                r
            },
        }
    }

    fn execute_nested_equality(&self, path: &str, value: &FilterValue) -> (r: Vec<String>)
        requires
            self.wf(),
        ensures
            views(r@) == nested_equal_hits(self.fields(), path@, *value),
    {
        let none: Vec<String> = Vec::new();
        assert(views(none@) =~= Seq::<Seq<char>>::empty());
        match nested_index_key(path) {
            None => none,
            Some(key) => match value {
                FilterValue::String(s) => self.index.equal_ids(key.as_str(), s.as_str()),
                FilterValue::Boolean(b) => {
                    if *b {
                        self.index.equal_ids(key.as_str(), "true")
                    } else {
                        self.index.equal_ids(key.as_str(), "false")
                    }
                },
                _ => none,
            },
        }
    }

    fn execute_nested_contains(&self, path: &str, value: &FilterValue) -> (r: Vec<String>)
        requires
            self.wf(),
        ensures
            views(r@) == nested_contains_hits(self.fields(), path@, *value),
    {
        let none: Vec<String> = Vec::new();
        assert(views(none@) =~= Seq::<Seq<char>>::empty());
        match nested_index_key(path) {
            None => none,
            Some(key) => {
                if !self.index.has_field(key.as_str()) {
                    return none;
                }
                match value {
                    FilterValue::String(s) => {
                        let r = self.index.contains_ids(key.as_str(), s.as_str());
                        proof {
                            let f = field_at(self.fields(), path@)->Some_0;
                            lemma_sorted_form(views(r@), sub_hits(f.values.entries(), s@));
                        }
                        r
                    },
                    _ => self.execute_nested_equality(path, value),
                }
            },
        }
    }
}

/// Once AND has failed on an operand it stays failed.
proof fn lemma_and_fold_stays_failed(fs: Seq<(String, FieldIndex)>, ops: Seq<FilterExpression>, i: nat, n: nat)
    requires
        and_fold(fs, ops, i) is None,
        i <= n <= ops.len(),
    ensures
        and_fold(fs, ops, n) is None,
    decreases n - i,
{
    if i < n {
        lemma_and_fold_stays_failed(fs, ops, i, (n - 1) as nat);
    }
}

/// Once OR has failed on an operand it stays failed.
proof fn lemma_or_fold_stays_failed(fs: Seq<(String, FieldIndex)>, ops: Seq<FilterExpression>, i: nat, n: nat)
    requires
        or_fold(fs, ops, i) is None,
        i <= n <= ops.len(),
    ensures
        or_fold(fs, ops, n) is None,
    decreases n - i,
{
    if i < n {
        lemma_or_fold_stays_failed(fs, ops, i, (n - 1) as nat);
    }
}

/// The ids `kept` keeps are those of `cur` whose presence in `other` is
/// `wanted`.
proof fn lemma_kept_contains(cur: Seq<Seq<char>>, other: Seq<Seq<char>>, wanted: bool, x: Seq<char>)
    ensures
        kept(cur, other, wanted).contains(x) <==> (cur.contains(x) && other.contains(x) == wanted),
    decreases cur.len(),
{
    if cur.len() > 0 {
        lemma_kept_contains(cur.drop_last(), other, wanted, x);
        let k0 = kept(cur.drop_last(), other, wanted);
        if cur.drop_last().contains(x) {
            let i = choose|i: int| 0 <= i < cur.drop_last().len() && cur.drop_last()[i] == x;
            assert(cur[i] == x);
        }
        if cur.contains(x) && x != cur.last() {
            let i = choose|i: int| 0 <= i < cur.len() && cur[i] == x;
            assert(cur.drop_last()[i] == x);
        }
        if x == cur.last() {
            assert(cur[cur.len() - 1] == x);
        }
        if other.contains(cur.last()) == wanted {
            assert(kept(cur, other, wanted) == k0.push(cur.last()));
            if k0.contains(x) {
                let i = choose|i: int| 0 <= i < k0.len() && k0[i] == x;
                assert(k0.push(cur.last())[i] == x);
            }
            if k0.push(cur.last()).contains(x) && x != cur.last() {
                let i = choose|i: int| 0 <= i < k0.len() + 1 && k0.push(cur.last())[i] == x;
                assert(k0[i] == x);
            }
            if x == cur.last() {
                assert(k0.push(cur.last())[k0.len() as int] == x);
            }
        }
    }
}

/// NOT answers with each known document (one with a number, a word or an
/// exact value indexed) that its operand does not answer with, and with
/// no other.
pub proof fn lemma_not_is_the_complement(
    fs: Seq<(String, FieldIndex)>,
    e: FilterExpression,
    operands: Vec<FilterExpression>,
    x: Seq<char>,
)
    requires
        operands@ == seq![e],
        eval(fs, e) is Some,
    ensures
        eval(fs, FilterExpression::Logical { operator: LogicalOperator::Not, operands }) matches Some(n) && (n.contains(x)
            <==> (indexed_hits(fs).contains(x) && !eval(fs, e)->Some_0.contains(x))),
{
    let r = eval(fs, e)->Some_0;
    assert(operands@[0] == e);
    lemma_sorted_form_sorts(indexed_hits(fs));
    lemma_kept_contains(sorted_form(indexed_hits(fs)), r, false, x);
}

/// AND of a single operand answers as the operand does.
pub proof fn lemma_and_of_one(fs: Seq<(String, FieldIndex)>, e: FilterExpression, operands: Vec<FilterExpression>)
    requires
        operands@ == seq![e],
    ensures
        eval(fs, FilterExpression::Logical { operator: LogicalOperator::And, operands }) == eval(fs, e),
{
    assert(operands@[0] == e);
    assert(and_fold(fs, operands@, 0) == Some(None::<Seq<Seq<char>>>));
    assert(and_fold(fs, operands@, 1) == match eval(fs, e) {
        None => None,
        Some(r) => Some(Some(r)),
    });
}

/// The order of the operands of OR does not change its answer.
pub proof fn lemma_or_is_symmetric(
    fs: Seq<(String, FieldIndex)>,
    a: FilterExpression,
    b: FilterExpression,
    ab: Vec<FilterExpression>,
    ba: Vec<FilterExpression>,
)
    requires
        ab@ == seq![a, b],
        ba@ == seq![b, a],
    ensures
        eval(fs, FilterExpression::Logical { operator: LogicalOperator::Or, operands: ab }) == eval(
            fs,
            FilterExpression::Logical { operator: LogicalOperator::Or, operands: ba },
        ),
{
    assert(ab@[0] == a && ab@[1] == b);
    assert(ba@[0] == b && ba@[1] == a);
    assert(or_fold(fs, ab@, 0) == Some(Seq::<Seq<char>>::empty()));
    assert(or_fold(fs, ba@, 0) == Some(Seq::<Seq<char>>::empty()));
    assert(or_fold(fs, ab@, 1) == match eval(fs, a) {
        None => None,
        Some(r) => Some(Seq::<Seq<char>>::empty() + r),
    });
    assert(or_fold(fs, ba@, 1) == match eval(fs, b) {
        None => None,
        Some(r) => Some(Seq::<Seq<char>>::empty() + r),
    });
    if eval(fs, a) is None || eval(fs, b) is None {
        assert(or_fold(fs, ab@, 2) is None);
        assert(or_fold(fs, ba@, 2) is None);
    } else {
        let ra = eval(fs, a)->Some_0;
        let rb = eval(fs, b)->Some_0;
        assert(Seq::<Seq<char>>::empty() + ra =~= ra);
        assert(Seq::<Seq<char>>::empty() + rb =~= rb);
        assert(or_fold(fs, ab@, 2) == Some(ra + rb));
        assert(or_fold(fs, ba@, 2) == Some(rb + ra));
        let x = ra + rb;
        let y = rb + ra;
        lemma_sorted_form_sorts(x);
        lemma_sorted_form_sorts(y);
        assert forall|z: Seq<char>| #[trigger] x.contains(z) <==> y.contains(z) by {
            if x.contains(z) {
                let i = choose|i: int| 0 <= i < x.len() && x[i] == z;
                if i < ra.len() {
                    assert(y[rb.len() + i] == z);
                } else {
                    assert(y[i - ra.len()] == z);
                }
            }
            if y.contains(z) {
                let i = choose|i: int| 0 <= i < y.len() && y[i] == z;
                if i < rb.len() {
                    assert(x[ra.len() + i] == z);
                } else {
                    assert(x[i - rb.len()] == z);
                }
            }
        }
        assert forall|z: Seq<char>| #[trigger] sorted_form(x).contains(z) <==> sorted_form(y).contains(z) by {
            assert(sorted_form(x).contains(z) <==> x.contains(z));
            assert(sorted_form(y).contains(z) <==> y.contains(z));
        }
        lemma_ascending_lists_of_same_ids_are_equal(sorted_form(x), sorted_form(y));
    }
}


proof fn lemma_and_fold_is_the_intersection(fs: Seq<(String, FieldIndex)>, ops: Seq<FilterExpression>, n: nat, x: Seq<char>)
    requires
        1 <= n <= ops.len(),
        forall|i: int| 0 <= i < ops.len() ==> (#[trigger] eval(fs, ops[i])) is Some,
    ensures
        and_fold(fs, ops, n) matches Some(Some(r)) && (r.contains(x) <==> forall|i: int|
            0 <= i < n ==> (#[trigger] eval(fs, ops[i]))->Some_0.contains(x)),
    decreases n,
{
    assert(eval(fs, ops[n - 1]) is Some);
    if n == 1 {
        assert(and_fold(fs, ops, 0) == Some(None::<Seq<Seq<char>>>));
    } else {
        lemma_and_fold_is_the_intersection(fs, ops, (n - 1) as nat, x);
        let cur = and_fold(fs, ops, (n - 1) as nat)->Some_0->Some_0;
        let r = eval(fs, ops[n - 1])->Some_0;
        lemma_kept_contains(cur, r, true, x);
        if forall|i: int| 0 <= i < n - 1 ==> (#[trigger] eval(fs, ops[i]))->Some_0.contains(x) {
            if r.contains(x) {
                assert forall|i: int| 0 <= i < n implies (#[trigger] eval(fs, ops[i]))->Some_0.contains(x) by {
                    if i == n - 1 {
                    }
                }
            }
        } else {
            let j = choose|j: int| 0 <= j < n - 1 && !(#[trigger] eval(fs, ops[j]))->Some_0.contains(x);
            assert(!eval(fs, ops[j])->Some_0.contains(x));
        }
    }
}

/// AND answers with exactly the documents that every operand answers with:
/// when each of its operands (at least one) has an answer, a document is in
/// the answer of the AND of them if and only if it is in the answer of each.
pub proof fn lemma_and_is_the_intersection(
    fs: Seq<(String, FieldIndex)>,
    operands: Vec<FilterExpression>,
    x: Seq<char>,
)
    requires
        operands@.len() >= 1,
        forall|i: int| 0 <= i < operands@.len() ==> (#[trigger] eval(fs, operands@[i])) is Some,
    ensures
        eval(fs, FilterExpression::Logical { operator: LogicalOperator::And, operands }) matches Some(r) && (r.contains(
            x,
        ) <==> forall|i: int| 0 <= i < operands@.len() ==> (#[trigger] eval(fs, operands@[i]))->Some_0.contains(x)),
{
    lemma_and_fold_is_the_intersection(fs, operands@, operands@.len(), x);
}


proof fn lemma_or_fold_is_the_union(fs: Seq<(String, FieldIndex)>, ops: Seq<FilterExpression>, n: nat, x: Seq<char>)
    requires
        n <= ops.len(),
        forall|i: int| 0 <= i < ops.len() ==> (#[trigger] eval(fs, ops[i])) is Some,
    ensures
        or_fold(fs, ops, n) matches Some(r) && (r.contains(x) <==> exists|i: int|
            0 <= i < n && (#[trigger] eval(fs, ops[i]))->Some_0.contains(x)),
    decreases n,
{
    if n > 0 {
        lemma_or_fold_is_the_union(fs, ops, (n - 1) as nat, x);
        let acc = or_fold(fs, ops, (n - 1) as nat)->Some_0;
        assert(eval(fs, ops[n - 1]) is Some);
        let r = eval(fs, ops[n - 1])->Some_0;
        let u = acc + r;
        if u.contains(x) {
            let k = choose|k: int| 0 <= k < u.len() && u[k] == x;
            if k < acc.len() {
                assert(acc[k] == x);
                let i = choose|i: int| 0 <= i < n - 1 && (#[trigger] eval(fs, ops[i]))->Some_0.contains(x);
                assert(0 <= i < n && eval(fs, ops[i])->Some_0.contains(x));
            } else {
                assert(r[k - acc.len()] == x);
                assert(eval(fs, ops[n - 1])->Some_0.contains(x));
            }
        }
        if exists|i: int| 0 <= i < n && (#[trigger] eval(fs, ops[i]))->Some_0.contains(x) {
            let i = choose|i: int| 0 <= i < n && (#[trigger] eval(fs, ops[i]))->Some_0.contains(x);
            if i < n - 1 {
                let k = choose|k: int| 0 <= k < acc.len() && acc[k] == x;
                assert(u[k] == x);
            } else {
                let k = choose|k: int| 0 <= k < r.len() && r[k] == x;
                assert(u[acc.len() + k] == x);
            }
        }
    }
}

/// OR answers with exactly the documents that some operand answers with:
/// when each of its operands has an answer, a document is in the answer of
/// the OR of them if and only if it is in the answer of at least one.
pub proof fn lemma_or_is_the_union(fs: Seq<(String, FieldIndex)>, operands: Vec<FilterExpression>, x: Seq<char>)
    requires
        forall|i: int| 0 <= i < operands@.len() ==> (#[trigger] eval(fs, operands@[i])) is Some,
    ensures
        eval(fs, FilterExpression::Logical { operator: LogicalOperator::Or, operands }) matches Some(r) && (r.contains(x)
            <==> exists|i: int| 0 <= i < operands@.len() && (#[trigger] eval(fs, operands@[i]))->Some_0.contains(x)),
{
    lemma_or_fold_is_the_union(fs, operands@, operands@.len(), x);
    let s = or_fold(fs, operands@, operands@.len())->Some_0;
    lemma_sorted_form_sorts(s);
}

} // verus!
