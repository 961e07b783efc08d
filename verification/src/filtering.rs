//! The filtering system's settings and operators, and its set algebra on
//! document ids: the sorted, duplicate-free lists that OR, text search and
//! the nested queries answer with, the intersection of AND, the
//! complement of NOT, and the keys under which nested fields are indexed.

use crate::errors::VectorDbError;
use crate::text::{concat, lemma_seq_less_strict_total_order, push_decimal, decimal, seq_less, str_equal, str_less};
use vstd::prelude::*;

verus! {

/// Settings of the filtering system.
#[derive(Debug, Clone, Copy)]
pub struct FilterConfig {
    /// Whether SQL-like filters are accepted.
    pub enable_sql_syntax: bool,
    /// Whether geospatial filters are accepted.
    pub enable_geospatial: bool,
    /// Whether nested fields can be filtered on.
    pub enable_nested_fields: bool,
    /// The largest filter complexity accepted.
    pub max_complexity: usize,
}

impl Default for FilterConfig {
    /// Everything enabled, complexity up to 100.
    fn default() -> (c: Self)
        ensures
            c.enable_sql_syntax,
            c.enable_geospatial,
            c.enable_nested_fields,
            c.max_complexity == 100,
    {
        FilterConfig {
            enable_sql_syntax: true,
            enable_geospatial: true,
            enable_nested_fields: true,
            max_complexity: 100,
        }
    }
}

/// How a field is compared with a value.
#[derive(Debug, Clone, Copy, PartialEq, Eq, Structural)]
pub enum ComparisonOperator {
    Equal,
    NotEqual,
    GreaterThan,
    GreaterThanOrEqual,
    LessThan,
    LessThanOrEqual,
    Like,
    NotLike,
    In,
    NotIn,
    IsNull,
    IsNotNull,
}

/// How filters are combined.
#[derive(Debug, Clone, Copy, PartialEq, Eq, Structural)]
pub enum LogicalOperator {
    And,
    Or,
    Not,
}

/// How a location is related to a geometry.
#[derive(Debug, Clone, Copy, PartialEq, Eq, Structural)]
pub enum GeospatialOperator {
    Within,
    Contains,
    Intersects,
    Near,
    WithinDistance,
}

/// How a nested field is tested.
#[derive(Debug, Clone, Copy, PartialEq, Eq, Structural)]
pub enum NestedOperator {
    ArrayContains,
    ArrayLength,
    ObjectHasKey,
    ObjectHasValue,
    JsonPath,
    /// Whether the nested field exists.
    Exists,
    /// Exact equality on the nested field.
    Equal,
    /// Partial match on the nested field.
    Contains,
}

/// Options of a full-text search.
#[derive(Debug, Clone, Copy, PartialEq, Eq, Structural)]
pub struct TextSearchOptions {
    pub case_sensitive: bool,
    pub fuzzy: bool,
    pub max_distance: Option<usize>,
}

impl Default for TextSearchOptions {
    /// Case-insensitive, exact, with no distance.
    fn default() -> (o: Self)
        ensures
            !o.case_sensitive,
            !o.fuzzy,
            o.max_distance is None,
    {
        TextSearchOptions { case_sensitive: false, fuzzy: false, max_distance: None }
    }
}

/// The texts of a list of strings.
pub open spec fn views(v: Seq<String>) -> Seq<Seq<char>> {
    v.map_values(|x: String| x@)
}

/// Whether each text of `s` comes before every later one (so none occurs
/// twice).
pub open spec fn strictly_ascending(s: Seq<Seq<char>>) -> bool {
    forall|i: int, j: int| 0 <= i < j < s.len() ==> seq_less(#[trigger] s[i], #[trigger] s[j])
}

/// The first position of `out` whose text does not come before `id`.
fn insertion_point(out: &Vec<String>, id: &str) -> (j: usize)
    ensures
        j <= out@.len(),
        forall|k: int| 0 <= k < j ==> seq_less((#[trigger] out@[k])@, id@),
        j < out@.len() ==> !seq_less(out@[j as int]@, id@),
{
    let mut j: usize = 0;
    while j < out.len()
        invariant
            j <= out@.len(),
            forall|k: int| 0 <= k < j ==> seq_less((#[trigger] out@[k])@, id@),
        decreases out.len() - j,
    {
        if !str_less(out[j].as_str(), id) {
            return j;
        }
        j = j + 1;
    }
    j
}

/// `ids` sorted by `<` on strings with repeated ids dropped: the texts of
/// the result ascend strictly, and they are exactly the texts of `ids`.
pub fn sorted_unique(ids: Vec<String>) -> (r: Vec<String>)
    ensures
        strictly_ascending(views(r@)),
        forall|x: Seq<char>| views(r@).contains(x) <==> views(ids@).contains(x),
{
    proof {
        lemma_seq_less_strict_total_order();
    }
    let mut out: Vec<String> = Vec::new();
    let mut i: usize = 0;
    while i < ids.len()
        invariant
            i <= ids@.len(),
            strictly_ascending(views(out@)),
            forall|x: Seq<char>| views(out@).contains(x) <==> views(ids@.subrange(0, i as int)).contains(x),
            forall|a: Seq<char>| !#[trigger] seq_less(a, a),
            forall|a: Seq<char>, b: Seq<char>, c: Seq<char>|
                #[trigger] seq_less(a, b) && #[trigger] seq_less(b, c) ==> seq_less(a, c),
            forall|a: Seq<char>, b: Seq<char>| a != b ==> #[trigger] seq_less(a, b) || #[trigger] seq_less(b, a),
        decreases ids.len() - i,
    {
        let id = &ids[i];
        let ghost before = views(out@);
        let ghost seen = views(ids@.subrange(0, i as int));
        let ghost seen_next = views(ids@.subrange(0, i + 1));
        assert(seen_next =~= seen.push(id@));
        let j = insertion_point(&out, id.as_str());
        if j < out.len() && str_equal(out[j].as_str(), id.as_str()) {
            assert forall|x: Seq<char>| before.contains(x) <==> seen_next.contains(x) by {
                if x == id@ {
                    assert(before[j as int] == x);
                }
                if seen_next.contains(x) && x != id@ {
                    let k = choose|k: int| 0 <= k < seen_next.len() && seen_next[k] == x;
                    assert(seen[k] == x);
                }
                if seen.contains(x) {
                    let k = choose|k: int| 0 <= k < seen.len() && seen[k] == x;
                    assert(seen_next[k] == x);
                }
            }
        } else {
            out.insert(j, id.clone());
            let ghost after = views(out@);
            assert(after =~= before.insert(j as int, id@));
            assert forall|a: int, b: int| 0 <= a < b < after.len() implies seq_less(#[trigger] after[a], #[trigger] after[b]) by {
                if j < before.len() {
                    assert(before[j as int] != id@);
                    assert(!seq_less(before[j as int], id@));
                    assert(seq_less(id@, before[j as int]));
                }
                if b < j {
                    assert(after[a] == before[a] && after[b] == before[b]);
                } else if b == j {
                    assert(after[a] == before[a]);
                    assert(seq_less((out@[a])@, id@));
                } else if a == j {
                    assert(after[b] == before[b - 1]);
                    if b - 1 > j {
                        assert(seq_less(before[j as int], before[b - 1]));
                    }
                } else if a < j {
                    assert(after[a] == before[a] && after[b] == before[b - 1]);
                } else {
                    assert(after[a] == before[a - 1] && after[b] == before[b - 1]);
                }
            }
            assert forall|x: Seq<char>| after.contains(x) <==> seen_next.contains(x) by {
                if after.contains(x) {
                    let k = choose|k: int| 0 <= k < after.len() && after[k] == x;
                    if k < j {
                        assert(before[k] == x);
                    } else if k > j {
                        assert(before[k - 1] == x);
                    }
                    if x != id@ {
                        assert(before.contains(x));
                        let m = choose|m: int| 0 <= m < seen.len() && seen[m] == x;
                        assert(seen_next[m] == x);
                    } else {
                        assert(seen_next[i as int] == x);
                    }
                }
                if seen_next.contains(x) {
                    if x == id@ {
                        assert(after[j as int] == x);
                    } else {
                        let k = choose|k: int| 0 <= k < seen_next.len() && seen_next[k] == x;
                        assert(seen[k] == x);
                        assert(before.contains(x));
                        let m = choose|m: int| 0 <= m < before.len() && before[m] == x;
                        if m < j {
                            assert(after[m] == x);
                        } else {
                            assert(after[m + 1] == x);
                        }
                    }
                }
            }
        }
        i = i + 1;
    }
    assert(ids@.subrange(0, ids@.len() as int) =~= ids@);
    out
}

/// The answer of OR, text search and the nested queries depends only on
/// which ids were found, not on their order or repeats: two strictly
/// ascending lists that hold the same ids are the same list.
pub proof fn lemma_ascending_lists_of_same_ids_are_equal(a: Seq<Seq<char>>, b: Seq<Seq<char>>)
    requires
        strictly_ascending(a),
        strictly_ascending(b),
        forall|x: Seq<char>| a.contains(x) <==> b.contains(x),
    ensures
        a == b,
    decreases a.len(),
{
    lemma_seq_less_strict_total_order();
    if a.len() == 0 {
        if b.len() > 0 {
            assert(b.contains(b[0]));
        }
        assert(a =~= b);
    } else if b.len() == 0 {
        assert(a.contains(a[0]));
    } else {
        assert(a.contains(a[0]));
        assert(b.contains(b[0]));
        if a[0] != b[0] {
            let i = choose|i: int| 0 <= i < a.len() && a[i] == b[0];
            let j = choose|j: int| 0 <= j < b.len() && b[j] == a[0];
            assert(i > 0);
            assert(j > 0);
            assert(seq_less(a[0], a[i]));
            assert(seq_less(b[0], b[j]));
            assert(seq_less(a[0], a[0]));
        }
        let a1 = a.drop_first();
        let b1 = b.drop_first();
        assert forall|x: Seq<char>| a1.contains(x) <==> b1.contains(x) by {
            if a1.contains(x) {
                let i = choose|i: int| 0 <= i < a1.len() && a1[i] == x;
                assert(a[i + 1] == x);
                assert(seq_less(a[0], a[i + 1]));
                assert(x != a[0]);
                assert(b.contains(x));
                let j = choose|j: int| 0 <= j < b.len() && b[j] == x;
                assert(j != 0);
                assert(b1[j - 1] == x);
            }
            if b1.contains(x) {
                let j = choose|j: int| 0 <= j < b1.len() && b1[j] == x;
                assert(b[j + 1] == x);
                assert(seq_less(b[0], b[j + 1]));
                assert(x != b[0]);
                assert(a.contains(x));
                let i = choose|i: int| 0 <= i < a.len() && a[i] == x;
                assert(i != 0);
                assert(a1[i - 1] == x);
            }
        }
        assert forall|i: int, j: int| 0 <= i < j < a1.len() implies seq_less(#[trigger] a1[i], #[trigger] a1[j]) by {
            assert(a1[i] == a[i + 1] && a1[j] == a[j + 1]);
        }
        assert forall|i: int, j: int| 0 <= i < j < b1.len() implies seq_less(#[trigger] b1[i], #[trigger] b1[j]) by {
            assert(b1[i] == b[i + 1] && b1[j] == b[j + 1]);
        }
        lemma_ascending_lists_of_same_ids_are_equal(a1, b1);
        assert(a =~= seq![a[0]] + a1);
        assert(b =~= seq![b[0]] + b1);
    }
}

/// The texts of `cur` whose presence in `other` is `wanted`, in order.
pub open spec fn kept(cur: Seq<Seq<char>>, other: Seq<Seq<char>>, wanted: bool) -> Seq<Seq<char>>
    decreases cur.len(),
{
    if cur.len() == 0 {
        cur
    } else if other.contains(cur.last()) == wanted {
        kept(cur.drop_last(), other, wanted).push(cur.last())
    } else {
        kept(cur.drop_last(), other, wanted)
    }
}

/// Whether `id` is among `ids`.
fn contains_id(ids: &Vec<String>, id: &str) -> (r: bool)
    ensures
        r == views(ids@).contains(id@),
{
    let mut i: usize = 0;
    while i < ids.len()
        invariant
            i <= ids@.len(),
            forall|k: int| 0 <= k < i ==> (#[trigger] ids@[k])@ != id@,
        decreases ids.len() - i,
    {
        if str_equal(ids[i].as_str(), id) {
            assert(views(ids@)[i as int] == id@);
            return true;
        }
        i = i + 1;
    }
    assert forall|k: int| 0 <= k < views(ids@).len() implies views(ids@)[k] != id@ by {
        assert(views(ids@)[k] == ids@[k]@);
    }
    false
}

/// The ids of `cur` whose presence in `other` is `wanted`, in order.
fn keep_by_presence(cur: &Vec<String>, other: &Vec<String>, wanted: bool) -> (r: Vec<String>)
    ensures
        views(r@) == kept(views(cur@), views(other@), wanted),
{
    let mut r: Vec<String> = Vec::new();
    let mut i: usize = 0;
    while i < cur.len()
        invariant
            i <= cur@.len(),
            views(r@) == kept(views(cur@.subrange(0, i as int)), views(other@), wanted),
        decreases cur.len() - i,
    {
        let ghost pre = views(cur@.subrange(0, i as int));
        let ghost next = views(cur@.subrange(0, i + 1));
        assert(next.drop_last() =~= pre);
        assert(next.last() == cur@[i as int]@);
        if contains_id(other, cur[i].as_str()) == wanted {
            let ghost old_r = r@;
            r.push(cur[i].clone());
            assert(views(r@) =~= views(old_r).push(cur@[i as int]@));
        }
        i = i + 1;
    }
    assert(cur@.subrange(0, cur@.len() as int) =~= cur@);
    r
}

/// One more operand of AND: the first operand's ids as they are, then at
/// each further operand the ids so far that it also holds, in their order.
pub fn and_combine(acc: Option<Vec<String>>, operand: Vec<String>) -> (r: Option<Vec<String>>)
    ensures
        r matches Some(v) && match acc {
            None => v@ == operand@,
            Some(a) => views(v@) == kept(views(a@), views(operand@), true),
        },
{
    match acc {
        None => Some(operand),
        Some(a) => Some(keep_by_presence(&a, &operand, true)),
    }
}

/// The answer of NOT: of all the ids, in their order, those that the
/// single operand did not answer with; any other number of operands is an
/// error.
pub fn not_combine(operand_count: usize, all_ids: &Vec<String>, operand: &Vec<String>) -> (r: Result<Vec<String>, VectorDbError>)
    ensures
        operand_count == 1 ==> (r matches Ok(v) && views(v@) == kept(views(all_ids@), views(operand@), false)),
        operand_count != 1 ==> (r matches Err(VectorDbError::Other(m)) && m@
            == "NOT operator requires exactly one operand"@),
{
    if operand_count == 1 {
        Ok(keep_by_presence(all_ids, operand, false))
    } else {
        Err(VectorDbError::Other(String::from_str("NOT operator requires exactly one operand")))
    }
}

/// Whether `s` holds a '.'.
pub open spec fn has_dot(s: Seq<char>) -> bool {
    exists|i: int| 0 <= i < s.len() && s[i] == '.'
}

/// The key under which the nested field `path` ("base.rest") is indexed:
/// the base, a '.', and the rest; a path without a '.' names no nested
/// field. That key is the path itself.
pub fn nested_index_key(path: &str) -> (r: Option<String>)
    ensures
        r is Some <==> has_dot(path@),
        r matches Some(k) ==> k@ == path@,
{
    let n = path.unicode_len();
    let mut k: usize = 0;
    while k < n
        invariant
            k <= n,
            n == path@.len(),
            forall|i: int| 0 <= i < k ==> path@[i] != '.',
        decreases n - k,
    {
        if path.get_char(k) == '.' {
            let base = path.substring_char(0, k);
            let rest = path.substring_char(k + 1, n);
            let mut key = concat(base, ".");
            key.append(rest);
            proof {
                reveal_strlit(".");
                assert(key@ =~= path@);
            }
            return Some(key);
        }
        k = k + 1;
    }
    None
}

/// The index path of the field `key` inside the object at `path`: the key
/// itself at the top, else the path, a '.', and the key.
pub fn child_path(path: &str, key: &str) -> (r: String)
    ensures
        path@.len() == 0 ==> r@ == key@,
        path@.len() > 0 ==> r@ == path@ + "."@ + key@,
{
    if path.unicode_len() == 0 {
        String::from_str(key)
    } else {
        let mut r = concat(path, ".");
        r.append(key);
        r
    }
}

/// The index path of element `index` of the array at `path`.
pub fn element_path(path: &str, index: usize) -> (r: String)
    ensures
        r@ == path@ + "["@ + decimal(index as nat) + "]"@,
{
    let mut r = concat(path, "[");
    push_decimal(&mut r, index as u64);
    r.append("]");
    r
}

} // verus!
