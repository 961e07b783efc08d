//! Documents as the filter index reads them, and how a document is
//! indexed: a walk over its tree that names each leaf by its path (keys
//! joined by '.', array positions in brackets) and indexes the leaf in the
//! field of that path.

use crate::errors::VectorDbError;
use crate::filter_engine::{bool_key, eval, FilterExpression, FilterValue};
use crate::filter_index::{
    field_at, lowered, numbers_of, occurrences, repeated, values_of, words, words_of, FieldIndex, FilterIndex,
};
use crate::filtering::{child_path, element_path, ComparisonOperator};
use crate::text::decimal;
use vstd::prelude::*;

verus! {

/// A JSON-like document. Its numbers are kept by the caller; each stands
/// here as the handle under which the caller keeps it.
#[derive(Debug)]
pub enum Document {
    Null,
    Bool(bool),
    Number(u64),
    Text(String),
    Array(Vec<Document>),
    Object(Vec<(String, Document)>),
}

/// The path of the member `key` of the object at `path`.
pub open spec fn child_key(path: Seq<char>, key: Seq<char>) -> Seq<char> {
    if path.len() == 0 {
        key
    } else {
        path + "."@ + key
    }
}

/// The path of element `i` of the array at `path`.
pub open spec fn element_key(path: Seq<char>, i: nat) -> Seq<char> {
    path + "["@ + decimal(i) + "]"@
}

/// The leaves of `d`, found at `path`, each with its path, in document
/// order; a leaf is anything but an array or an object.
pub open spec fn leaves(d: Document, path: Seq<char>) -> Seq<(Seq<char>, Document)>
    decreases d, 0nat,
{
    match d {
        Document::Array(items) => element_leaves(items@, path, items@.len()),
        Document::Object(members) => member_leaves(members@, path, members@.len()),
        _ => seq![(path, d)],
    }
}

/// The leaves of the first `n` elements of the array at `path`.
pub open spec fn element_leaves(items: Seq<Document>, path: Seq<char>, n: nat) -> Seq<(Seq<char>, Document)>
    decreases items, n,
{
    if n == 0 || n > items.len() {
        Seq::empty()
    } else {
        element_leaves(items, path, (n - 1) as nat) + leaves(items[n - 1], element_key(path, (n - 1) as nat))
    }
}

/// The leaves of the first `n` members of the object at `path`.
pub open spec fn member_leaves(members: Seq<(String, Document)>, path: Seq<char>, n: nat) -> Seq<
    (Seq<char>, Document),
>
    decreases members, n,
{
    if n == 0 || n > members.len() {
        Seq::empty()
    } else {
        member_leaves(members, path, (n - 1) as nat) + leaves(
            members[n - 1].1,
            child_key(path, members[n - 1].0@),
        )
    }
}

/// The exact value under which a leaf is indexed: a text itself, a
/// true/false value as "true" or "false"; other leaves have none.
pub open spec fn value_key(d: Document) -> Option<Seq<char>> {
    match d {
        Document::Text(s) => Some(s@),
        Document::Bool(b) => Some(bool_key(b)),
        _ => None,
    }
}

/// How many leaves of `ls` at path `p` have the exact value `k`.
pub open spec fn value_count(ls: Seq<(Seq<char>, Document)>, p: Seq<char>, k: Seq<char>) -> nat
    decreases ls.len(),
{
    if ls.len() == 0 {
        0
    } else {
        value_count(ls.drop_last(), p, k) + if ls.last().0 == p && value_key(ls.last().1) == Some(k) {
            1nat
        } else {
            0nat
        }
    }
}

/// How many times the lower-case word `k` occurs in the texts of `ls` at
/// path `p`.
pub open spec fn word_count(ls: Seq<(Seq<char>, Document)>, p: Seq<char>, k: Seq<char>) -> nat
    decreases ls.len(),
{
    if ls.len() == 0 {
        0
    } else {
        word_count(ls.drop_last(), p, k) + match ls.last().1 {
            Document::Text(s) => if ls.last().0 == p {
                occurrences(lowered(words(s@)), k)
            } else {
                0nat
            },
            _ => 0nat,
        }
    }
}

/// The handles of the numbers of `ls` at path `p`, in order.
pub open spec fn number_handles(ls: Seq<(Seq<char>, Document)>, p: Seq<char>) -> Seq<u64>
    decreases ls.len(),
{
    if ls.len() == 0 {
        Seq::empty()
    } else {
        number_handles(ls.drop_last(), p) + match ls.last().1 {
            Document::Number(h) => if ls.last().0 == p {
                seq![h]
            } else {
                Seq::empty()
            },
            _ => Seq::empty(),
        }
    }
}

/// The handles `hs`, each with the document `id`.
pub open spec fn tagged(hs: Seq<u64>, id: Seq<char>) -> Seq<(u64, Seq<char>)> {
    hs.map_values(|h: u64| (h, id))
}

/// The paths of the leaves `ls`.
pub open spec fn leaf_paths(ls: Seq<(Seq<char>, Document)>) -> Seq<Seq<char>> {
    ls.map_values(|l: (Seq<char>, Document)| l.0)
}

/// Whether the fields `after` are the fields `before` with the leaves `ls`
/// of document `id` indexed: `id` once more under each exact value and each
/// lower-case word of a leaf, each number's handle with `id` after those
/// already at its path, and a field at each leaf's path.
pub open spec fn indexed_as(
    before: Seq<(String, FieldIndex)>,
    after: Seq<(String, FieldIndex)>,
    id: Seq<char>,
    ls: Seq<(Seq<char>, Document)>,
) -> bool {
    &&& forall|p: Seq<char>, k: Seq<char>| #[trigger] values_of(field_at(after, p), k) == values_of(field_at(before, p), k)
        + repeated(id, value_count(ls, p, k))
    &&& forall|p: Seq<char>, k: Seq<char>| #[trigger] words_of(field_at(after, p), k) == words_of(field_at(before, p), k)
        + repeated(id, word_count(ls, p, k))
    &&& forall|p: Seq<char>| #[trigger] numbers_of(field_at(after, p)) == numbers_of(field_at(before, p)) + tagged(
        number_handles(ls, p),
        id,
    )
    &&& forall|p: Seq<char>| (#[trigger] field_at(after, p)) is Some <==> (field_at(before, p) is Some || leaf_paths(
        ls,
    ).contains(p))
}

proof fn lemma_counts_concat(a: Seq<(Seq<char>, Document)>, b: Seq<(Seq<char>, Document)>, p: Seq<char>, k: Seq<char>)
    ensures
        value_count(a + b, p, k) == value_count(a, p, k) + value_count(b, p, k),
        word_count(a + b, p, k) == word_count(a, p, k) + word_count(b, p, k),
        number_handles(a + b, p) == number_handles(a, p) + number_handles(b, p),
    decreases b.len(),
{
    if b.len() == 0 {
        assert(a + b =~= a);
        assert(number_handles(a, p) + number_handles(b, p) =~= number_handles(a, p));
    } else {
        lemma_counts_concat(a, b.drop_last(), p, k);
        assert((a + b).drop_last() =~= a + b.drop_last());
        assert((a + b).last() == b.last());
        assert(number_handles(a + b, p) =~= number_handles(a, p) + number_handles(b, p));
    }
}

proof fn lemma_repeated_concat(id: Seq<char>, n: nat, m: nat)
    ensures
        repeated(id, n) + repeated(id, m) == repeated(id, n + m),
{
    assert(repeated(id, n) + repeated(id, m) =~= repeated(id, n + m));
}

/// Nothing indexed: the fields stay as they are.
proof fn lemma_indexed_as_nothing(s: Seq<(String, FieldIndex)>, id: Seq<char>)
    ensures
        indexed_as(s, s, id, Seq::empty()),
{
    let e = Seq::<(Seq<char>, Document)>::empty();
    assert forall|p: Seq<char>, k: Seq<char>| #[trigger] values_of(field_at(s, p), k) == values_of(field_at(s, p), k)
        + repeated(id, value_count(e, p, k)) by {
        assert(values_of(field_at(s, p), k) + repeated(id, 0) =~= values_of(field_at(s, p), k));
    }
    assert forall|p: Seq<char>, k: Seq<char>| #[trigger] words_of(field_at(s, p), k) == words_of(field_at(s, p), k)
        + repeated(id, word_count(e, p, k)) by {
        assert(words_of(field_at(s, p), k) + repeated(id, 0) =~= words_of(field_at(s, p), k));
    }
    assert forall|p: Seq<char>| #[trigger] numbers_of(field_at(s, p)) == numbers_of(field_at(s, p)) + tagged(
        number_handles(e, p),
        id,
    ) by {
        assert(numbers_of(field_at(s, p)) + tagged(number_handles(e, p), id) =~= numbers_of(field_at(s, p)));
    }
    assert(leaf_paths(e) =~= Seq::<Seq<char>>::empty());
}

/// Indexing `a` and then `b` indexes `a + b`.
proof fn lemma_indexed_as_then(
    s0: Seq<(String, FieldIndex)>,
    s1: Seq<(String, FieldIndex)>,
    s2: Seq<(String, FieldIndex)>,
    id: Seq<char>,
    a: Seq<(Seq<char>, Document)>,
    b: Seq<(Seq<char>, Document)>,
)
    requires
        indexed_as(s0, s1, id, a),
        indexed_as(s1, s2, id, b),
    ensures
        indexed_as(s0, s2, id, a + b),
{
    assert forall|p: Seq<char>, k: Seq<char>| #[trigger] values_of(field_at(s2, p), k) == values_of(field_at(s0, p), k)
        + repeated(id, value_count(a + b, p, k)) by {
        lemma_counts_concat(a, b, p, k);
        lemma_repeated_concat(id, value_count(a, p, k), value_count(b, p, k));
        assert(values_of(field_at(s1, p), k) == values_of(field_at(s0, p), k) + repeated(id, value_count(a, p, k)));
        assert(values_of(field_at(s2, p), k) == values_of(field_at(s1, p), k) + repeated(id, value_count(b, p, k)));
        assert(values_of(field_at(s0, p), k) + repeated(id, value_count(a, p, k)) + repeated(id, value_count(b, p, k))
            =~= values_of(field_at(s0, p), k) + (repeated(id, value_count(a, p, k)) + repeated(id, value_count(b, p, k))));
    }
    assert forall|p: Seq<char>, k: Seq<char>| #[trigger] words_of(field_at(s2, p), k) == words_of(field_at(s0, p), k)
        + repeated(id, word_count(a + b, p, k)) by {
        lemma_counts_concat(a, b, p, k);
        lemma_repeated_concat(id, word_count(a, p, k), word_count(b, p, k));
        assert(words_of(field_at(s1, p), k) == words_of(field_at(s0, p), k) + repeated(id, word_count(a, p, k)));
        assert(words_of(field_at(s2, p), k) == words_of(field_at(s1, p), k) + repeated(id, word_count(b, p, k)));
        assert(words_of(field_at(s0, p), k) + repeated(id, word_count(a, p, k)) + repeated(id, word_count(b, p, k))
            =~= words_of(field_at(s0, p), k) + (repeated(id, word_count(a, p, k)) + repeated(id, word_count(b, p, k))));
    }
    assert forall|p: Seq<char>| #[trigger] numbers_of(field_at(s2, p)) == numbers_of(field_at(s0, p)) + tagged(
        number_handles(a + b, p),
        id,
    ) by {
        lemma_counts_concat(a, b, p, Seq::empty());
        assert(numbers_of(field_at(s1, p)) == numbers_of(field_at(s0, p)) + tagged(number_handles(a, p), id));
        assert(numbers_of(field_at(s2, p)) == numbers_of(field_at(s1, p)) + tagged(number_handles(b, p), id));
        assert(tagged(number_handles(a, p) + number_handles(b, p), id) =~= tagged(number_handles(a, p), id) + tagged(
            number_handles(b, p),
            id,
        ));
        assert(numbers_of(field_at(s0, p)) + tagged(number_handles(a, p), id) + tagged(number_handles(b, p), id)
            =~= numbers_of(field_at(s0, p)) + (tagged(number_handles(a, p), id) + tagged(number_handles(b, p), id)));
    }
    assert(leaf_paths(a + b) =~= leaf_paths(a) + leaf_paths(b));
    assert forall|p: Seq<char>| (#[trigger] field_at(s2, p)) is Some <==> (field_at(s0, p) is Some || leaf_paths(
        a + b,
    ).contains(p)) by {
        assert(field_at(s1, p) is Some <==> (field_at(s0, p) is Some || leaf_paths(a).contains(p)));
        assert(field_at(s2, p) is Some <==> (field_at(s1, p) is Some || leaf_paths(b).contains(p)));
        if leaf_paths(a).contains(p) {
            let i = choose|i: int| 0 <= i < leaf_paths(a).len() && leaf_paths(a)[i] == p;
            assert(leaf_paths(a + b)[i] == p);
        }
        if leaf_paths(b).contains(p) {
            let i = choose|i: int| 0 <= i < leaf_paths(b).len() && leaf_paths(b)[i] == p;
            assert(leaf_paths(a + b)[a.len() + i] == p);
        }
        if leaf_paths(a + b).contains(p) {
            let i = choose|i: int| 0 <= i < leaf_paths(a + b).len() && leaf_paths(a + b)[i] == p;
            if i < a.len() {
                assert(leaf_paths(a)[i] == p);
            } else {
                assert(leaf_paths(b)[i - a.len()] == p);
            }
        }
    }
}

/// What one leaf adds, for the fields of a one-leaf list.
proof fn lemma_one_leaf(path: Seq<char>, d: Document, p: Seq<char>, k: Seq<char>)
    ensures
        value_count(seq![(path, d)], p, k) == if p == path && value_key(d) == Some(k) { 1nat } else { 0nat },
        word_count(seq![(path, d)], p, k) == match d {
            Document::Text(s) => if p == path { occurrences(lowered(words(s@)), k) } else { 0nat },
            _ => 0nat,
        },
        number_handles(seq![(path, d)], p) == match d {
            Document::Number(h) => if p == path { seq![h] } else { Seq::<u64>::empty() },
            _ => Seq::<u64>::empty(),
        },
        leaf_paths(seq![(path, d)]).contains(p) <==> p == path,
{
    let ls = seq![(path, d)];
    let e = Seq::<(Seq<char>, Document)>::empty();
    assert(ls.drop_last() =~= e);
    assert(ls.last() == (path, d));
    assert(value_count(e, p, k) == 0);
    assert(word_count(e, p, k) == 0);
    assert(number_handles(e, p) == Seq::<u64>::empty());
    assert(number_handles(ls, p) =~= Seq::<u64>::empty() + match d {
        Document::Number(h) => if p == path { seq![h] } else { Seq::<u64>::empty() },
        _ => Seq::<u64>::empty(),
    });
    assert(leaf_paths(ls) =~= seq![path]);
    if leaf_paths(ls).contains(p) {
        let i = choose|i: int| 0 <= i < leaf_paths(ls).len() && leaf_paths(ls)[i] == p;
        assert(i == 0);
    }
    if p == path {
        assert(leaf_paths(ls)[0] == p);
    }
}

impl FilterIndex {
    /// Indexes document `id`: each leaf of `document` (see [`leaves`]) in
    /// the field of its path; nothing can fail.
    pub fn add_document(&mut self, id: &str, document: &Document) -> (r: Result<(), VectorDbError>)
        requires
            old(self).wf(),
        ensures
            final(self).wf(),
            r is Ok,
            indexed_as(old(self).fields(), final(self).fields(), id@, leaves(*document, Seq::empty())),
    {
        proof {
            reveal_strlit("");
            assert(""@ =~= Seq::<char>::empty());
        }
        self.index_value_recursive(id, "", document);
        Ok(())
    }

    /// Indexes the leaves of `value`, found at `path`, for document `id`.
    fn index_value_recursive(&mut self, id: &str, path: &str, value: &Document)
        requires
            old(self).wf(),
        ensures
            final(self).wf(),
            indexed_as(old(self).fields(), final(self).fields(), id@, leaves(*value, path@)),
        decreases value,
    {
        let ghost s0 = self.fields();
        match value {
            Document::Object(members) => {
                proof {
                    lemma_indexed_as_nothing(s0, id@);
                }
                let mut i: usize = 0;
                while i < members.len()
                    invariant
                        self.wf(),
                        *value == Document::Object(*members),
                        i <= members@.len(),
                        indexed_as(s0, self.fields(), id@, member_leaves(members@, path@, i as nat)),
                    decreases members.len() - i,
                {
                    let ghost s1 = self.fields();
                    let child = child_path(path, members[i].0.as_str());
                    proof {
                        assert(decreases_to!(*value => (*value)->Object_0));
                        assert(decreases_to!(*members => members@[i as int]));
                        assert(decreases_to!(members@[i as int] => members@[i as int].1));
                        assert(decreases_to!(*value => members@[i as int].1));
                    }
                    self.index_value_recursive(id, child.as_str(), &members[i].1);
                    proof {
                        lemma_indexed_as_then(
                            s0,
                            s1,
                            self.fields(),
                            id@,
                            member_leaves(members@, path@, i as nat),
                            leaves(members@[i as int].1, child_key(path@, members@[i as int].0@)),
                        );
                    }
                    i = i + 1;
                }
            },
            Document::Array(items) => {
                proof {
                    lemma_indexed_as_nothing(s0, id@);
                }
                let mut i: usize = 0;
                while i < items.len()
                    invariant
                        self.wf(),
                        *value == Document::Array(*items),
                        i <= items@.len(),
                        indexed_as(s0, self.fields(), id@, element_leaves(items@, path@, i as nat)),
                    decreases items.len() - i,
                {
                    let ghost s1 = self.fields();
                    let child = element_path(path, i);
                    proof {
                        assert(decreases_to!(*value => (*value)->Array_0));
                        assert(decreases_to!(*items => items@[i as int]));
                        assert(decreases_to!(*value => items@[i as int]));
                    }
                    self.index_value_recursive(id, child.as_str(), &items[i]);
                    proof {
                        lemma_indexed_as_then(
                            s0,
                            s1,
                            self.fields(),
                            id@,
                            element_leaves(items@, path@, i as nat),
                            leaves(items@[i as int], element_key(path@, i as nat)),
                        );
                    }
                    i = i + 1;
                }
            },
            _ => {
                self.index_leaf_value(id, path, value);
            },
        }
    }

    /// Indexes the leaf `value` at `path` for document `id`: a text under
    /// itself and its lower-case words, a true/false value under "true" or
    /// "false", a number by its handle; a null only makes the field exist.
    fn index_leaf_value(&mut self, id: &str, path: &str, value: &Document)
        requires
            old(self).wf(),
            !(value is Array),
            !(value is Object),
        ensures
            final(self).wf(),
            indexed_as(old(self).fields(), final(self).fields(), id@, seq![(path@, *value)]),
    {
        let ghost s0 = self.fields();
        match value {
            Document::Text(s) => self.index_text_leaf(id, path, s.as_str()),
            Document::Bool(b) => self.index_bool_leaf(id, path, *b),
            Document::Number(h) => self.index_number_leaf(id, path, *h),
            _ => self.touch_field(path),
        }
        proof {
            let s1 = self.fields();
            let ls = seq![(path@, *value)];
            assert forall|p: Seq<char>, k: Seq<char>| #[trigger] values_of(field_at(s1, p), k) == values_of(field_at(s0, p), k)
                + repeated(id@, value_count(ls, p, k)) by {
                lemma_one_leaf(path@, *value, p, k);
                if value_count(ls, p, k) == 1 {
                    assert(repeated(id@, 1) =~= seq![id@]);
                } else {
                    assert(values_of(field_at(s0, p), k) + repeated(id@, 0) =~= values_of(field_at(s0, p), k));
                }
            }
            assert forall|p: Seq<char>, k: Seq<char>| #[trigger] words_of(field_at(s1, p), k) == words_of(field_at(s0, p), k)
                + repeated(id@, word_count(ls, p, k)) by {
                lemma_one_leaf(path@, *value, p, k);
                if word_count(ls, p, k) == 0 {
                    assert(words_of(field_at(s0, p), k) + repeated(id@, 0) =~= words_of(field_at(s0, p), k));
                }
            }
            assert forall|p: Seq<char>| #[trigger] numbers_of(field_at(s1, p)) == numbers_of(field_at(s0, p)) + tagged(
                number_handles(ls, p),
                id@,
            ) by {
                lemma_one_leaf(path@, *value, p, Seq::empty());
                if number_handles(ls, p).len() == 0 {
                    assert(numbers_of(field_at(s0, p)) + tagged(number_handles(ls, p), id@) =~= numbers_of(field_at(s0, p)));
                } else {
                    assert(numbers_of(field_at(s0, p)) + tagged(number_handles(ls, p), id@) =~= numbers_of(field_at(s0, p)).push(
                        (value->Number_0, id@),
                    ));
                }
            }
            assert forall|p: Seq<char>| (#[trigger] field_at(s1, p)) is Some <==> (field_at(s0, p) is Some || leaf_paths(
                ls,
            ).contains(p)) by {
                lemma_one_leaf(path@, *value, p, Seq::empty());
            }
        }
    }
}

proof fn lemma_value_count_positive(ls: Seq<(Seq<char>, Document)>, i: int, p: Seq<char>, k: Seq<char>)
    requires
        0 <= i < ls.len(),
        ls[i].0 == p,
        value_key(ls[i].1) == Some(k),
    ensures
        value_count(ls, p, k) > 0,
    decreases ls.len(),
{
    if i < ls.len() - 1 {
        assert(ls.drop_last()[i] == ls[i]);
        lemma_value_count_positive(ls.drop_last(), i, p, k);
    }
}

/// What a read gives back of a write: once document `id` is indexed, an
/// equality on a field finds it wherever one of its leaves at that path
/// holds exactly that text.
pub proof fn lemma_indexed_text_is_found(
    before: Seq<(String, FieldIndex)>,
    after: Seq<(String, FieldIndex)>,
    id: Seq<char>,
    ls: Seq<(Seq<char>, Document)>,
    i: int,
    field: String,
    text: String,
)
    requires
        indexed_as(before, after, id, ls),
        0 <= i < ls.len(),
        ls[i].0 == field@,
        value_key(ls[i].1) == Some(text@),
    ensures
        eval(
            after,
            FilterExpression::Comparison {
                field,
                operator: ComparisonOperator::Equal,
                value: FilterValue::String(text),
            },
        ) matches Some(r) && r.contains(id),
{
    lemma_value_count_positive(ls, i, field@, text@);
    let n = value_count(ls, field@, text@);
    let r = values_of(field_at(after, field@), text@);
    assert(r == values_of(field_at(before, field@), text@) + repeated(id, n));
    assert(r[r.len() - 1] == id);
}

} // verus!
