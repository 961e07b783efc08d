//! The bookkeeping of the vector indexes: the id of each stored vector,
//! the position it is stored at, and the dimension all vectors share. The
//! vectors themselves, which are floating point, are kept by the caller at
//! the positions given here.

use crate::filtering::{sorted_unique, strictly_ascending, views};
use crate::index::IndexStats;
use crate::text::{decimal, str_equal, with_decimal};
use vstd::prelude::*;

verus! {

/// Why a vector index refused.
#[derive(Debug)]
pub enum VectorIndexError {
    DimensionMismatch { expected: usize, actual: usize },
    IndexNotBuilt,
    IndexError(String),
    Storage(String),
}

/// The position of `id` among `es`, per its first entry.
pub open spec fn position_of(es: Seq<(Seq<char>, usize)>, id: Seq<char>) -> Option<usize>
    decreases es.len(),
{
    if es.len() == 0 {
        None
    } else if es[0].0 == id {
        Some(es[0].1)
    } else {
        position_of(es.drop_first(), id)
    }
}

/// How many of `s` are below `p`.
pub open spec fn count_below(s: Seq<usize>, p: usize) -> nat
    decreases s.len(),
{
    if s.len() == 0 {
        0
    } else {
        count_below(s.drop_last(), p) + if s.last() < p {
            1nat
        } else {
            0nat
        }
    }
}

/// Whether `s` ascends strictly.
pub open spec fn ascending(s: Seq<usize>) -> bool {
    forall|i: int, j: int| 0 <= i < j < s.len() ==> s[i] < s[j]
}

/// The name under which the vector at position `i` is put in an HNSW graph.
pub open spec fn point_label(i: nat) -> Seq<char> {
    "vec_"@ + decimal(i)
}

/// The id and position of the first entry of `es` at position `p`.
pub open spec fn id_at_position(es: Seq<(Seq<char>, usize)>, p: usize) -> Option<Seq<char>>
    decreases es.len(),
{
    if es.len() == 0 {
        None
    } else if es[0].1 == p {
        Some(es[0].0)
    } else {
        id_at_position(es.drop_first(), p)
    }
}

/// The id of the first entry of `es` whose point label is `label`.
pub open spec fn id_of_label(es: Seq<(Seq<char>, usize)>, label: Seq<char>) -> Option<Seq<char>>
    decreases es.len(),
{
    if es.len() == 0 {
        None
    } else if point_label(es[0].1 as nat) == label {
        Some(es[0].0)
    } else {
        id_of_label(es.drop_first(), label)
    }
}

/// The ids of the stored vectors, their positions, and the dimension they
/// share.
#[derive(Debug)]
pub struct VectorSlots {
    ids: Vec<(String, usize)>,
    slots: usize,
    dimension: Option<usize>,
}

impl VectorSlots {
    /// Each id with its position, in the order the ids came.
    pub closed spec fn entries(&self) -> Seq<(Seq<char>, usize)> {
        self.ids@.map_values(|e: (String, usize)| (e.0@, e.1))
    }

    /// How many vectors are stored (some may have lost their id).
    pub closed spec fn slots(&self) -> nat {
        self.slots as nat
    }

    /// The dimension of the vectors, once one was stored.
    pub closed spec fn dimension(&self) -> Option<usize> {
        self.dimension
    }

    /// Whether each id occurs once, at a position below the number of stored
    /// vectors that no other id holds.
    pub closed spec fn wf(&self) -> bool {
        let es = self.entries();
        &&& forall|i: int, j: int| 0 <= i < j < es.len() ==> (#[trigger] es[i]).0 != (#[trigger] es[j]).0
        &&& forall|i: int, j: int| 0 <= i < j < es.len() ==> (#[trigger] es[i]).1 != (#[trigger] es[j]).1
        &&& forall|i: int| 0 <= i < es.len() ==> (#[trigger] es[i]).1 < self.slots
    }

    /// Nothing stored; the dimension is set by the first vector.
    pub fn new() -> (v: Self)
        ensures
            v.wf(),
            v.entries().len() == 0,
            v.slots() == 0,
            v.dimension() is None,
    {
        let v = VectorSlots { ids: Vec::new(), slots: 0, dimension: None };
        assert(v.entries() =~= Seq::<(Seq<char>, usize)>::empty());
        v
    }

    /// Nothing stored; every vector is to have `dimension` numbers.
    pub fn with_dimension(dimension: usize) -> (v: Self)
        ensures
            v.wf(),
            v.entries().len() == 0,
            v.slots() == 0,
            v.dimension() == Some(dimension),
    {
        let v = VectorSlots { ids: Vec::new(), slots: 0, dimension: Some(dimension) };
        assert(v.entries() =~= Seq::<(Seq<char>, usize)>::empty());
        v
    }

    fn find(&self, id: &str) -> (r: Option<usize>)
        ensures
            match r {
                Some(k) => k < self.entries().len() && self.entries()[k as int].0 == id@ && forall|j: int|
                    0 <= j < k ==> (#[trigger] self.entries()[j]).0 != id@,
                None => forall|j: int| 0 <= j < self.entries().len() ==> (#[trigger] self.entries()[j]).0 != id@,
            },
    {
        let mut i: usize = 0;
        while i < self.ids.len()
            invariant
                i <= self.ids@.len(),
                forall|j: int| 0 <= j < i ==> (#[trigger] self.entries()[j]).0 != id@,
            decreases self.ids.len() - i,
        {
            if str_equal(self.ids[i].0.as_str(), id) {
                return Some(i);
            }
            i = i + 1;
        }
        None
    }

    /// Checks a vector of `len` numbers against the dimension: a different
    /// length is refused; the first vector sets the dimension.
    pub fn check_dimension(&mut self, len: usize) -> (r: Result<(), VectorIndexError>)
        requires
            old(self).wf(),
        ensures
            final(self).wf(),
            final(self).entries() == old(self).entries(),
            final(self).slots() == old(self).slots(),
            match old(self).dimension() {
                Some(d) => if d != len {
                    &&& r matches Err(VectorIndexError::DimensionMismatch { expected, actual }) && expected == d
                        && actual == len
                    &&& final(self).dimension() == old(self).dimension()
                } else {
                    r is Ok && final(self).dimension() == old(self).dimension()
                },
                None => r is Ok && final(self).dimension() == Some(len),
            },
    {
        if let Some(d) = self.dimension {
            if d != len {
                return Err(VectorIndexError::DimensionMismatch { expected: d, actual: len });
            }
        } else {
            self.dimension = Some(len);
        }
        assert(self.entries() =~= old(self).entries());
        Ok(())
    }

    /// Stores a vector of `len` numbers under `id` at the next position,
    /// which is returned; an id already present moves to it, leaving its
    /// old vector without an id. A length other than the dimension is
    /// refused; the first vector sets the dimension.
    pub fn add_vector(&mut self, id: String, len: usize) -> (r: Result<usize, VectorIndexError>)
        requires
            old(self).wf(),
            old(self).slots() < usize::MAX,
        ensures
            final(self).wf(),
            match old(self).dimension() {
                Some(d) if d != len => {
                    &&& r matches Err(VectorIndexError::DimensionMismatch { expected, actual }) && expected == d
                        && actual == len
                    &&& final(self).entries() == old(self).entries()
                    &&& final(self).slots() == old(self).slots()
                    &&& final(self).dimension() == old(self).dimension()
                },
                _ => {
                    &&& r == Ok::<usize, VectorIndexError>(old(self).slots() as usize)
                    &&& final(self).slots() == old(self).slots() + 1
                    &&& final(self).dimension() == Some(len)
                    &&& position_of(final(self).entries(), id@) == Some(old(self).slots() as usize)
                    &&& forall|k: Seq<char>| k != id@ ==> #[trigger] position_of(final(self).entries(), k)
                        == position_of(old(self).entries(), k)
                },
            },
    {
        match self.dimension {
            Some(d) => {
                if d != len {
                    return Err(VectorIndexError::DimensionMismatch { expected: d, actual: len });
                }
            },
            None => {
                self.dimension = Some(len);
            },
        }
        let ghost es = self.entries();
        let p = self.slots;
        match self.find(id.as_str()) {
            Some(k) => {
                let name = self.ids[k].0.clone();
                self.ids.set(k, (name, p));
                proof {
                    assert(self.entries() =~= es.update(k as int, (id@, p)));
                    lemma_position_update(es, k as int, p);
                }
            },
            None => {
                self.ids.push((id, p));
                proof {
                    assert(self.entries() =~= es.push(self.entries().last()));
                    lemma_position_push(es, self.entries().last());
                }
            },
        }
        self.slots = p + 1;
        proof {
            let e2 = self.entries();
            assert forall|i: int| 0 <= i < e2.len() implies (#[trigger] e2[i]).1 < self.slots by {
                if i < es.len() && e2[i].0 != id@ {
                    assert(e2[i] == es[i]);
                }
            }
            assert forall|i: int, j: int| 0 <= i < j < e2.len() implies (#[trigger] e2[i]).0 != (#[trigger] e2[j]).0 by {
                if j < es.len() {
                    assert(e2[i].0 == es[i].0 && e2[j].0 == es[j].0);
                }
            }
            assert forall|i: int, j: int| 0 <= i < j < e2.len() implies (#[trigger] e2[i]).1 != (#[trigger] e2[j]).1 by {
                if e2[i].0 != id@ && e2[j].0 != id@ {
                    assert(e2[i] == es[i] && e2[j] == es[j]);
                } else if e2[i].0 == id@ {
                    assert(e2[i].1 == p);
                    if j < es.len() {
                        assert(e2[j] == es[j]);
                    }
                } else {
                    assert(e2[j].1 == p);
                    assert(e2[i] == es[i]);
                }
            }
        }
        Ok(p)
    }
}

proof fn lemma_position_update(es: Seq<(Seq<char>, usize)>, k: int, p: usize)
    requires
        0 <= k < es.len(),
        forall|j: int| 0 <= j < k ==> (#[trigger] es[j]).0 != es[k].0,
    ensures
        position_of(es.update(k, (es[k].0, p)), es[k].0) == Some(p),
        forall|id: Seq<char>| id != es[k].0 ==> #[trigger] position_of(es.update(k, (es[k].0, p)), id) == position_of(es, id),
    decreases k,
{
    let e2 = es.update(k, (es[k].0, p));
    if k == 0 {
        assert(e2.drop_first() =~= es.drop_first());
    } else {
        assert(e2.drop_first() =~= es.drop_first().update(k - 1, (es[k].0, p)));
        assert(es.drop_first()[k - 1] == es[k]);
        assert forall|j: int| 0 <= j < k - 1 implies (#[trigger] es.drop_first()[j]).0 != es.drop_first()[k - 1].0 by {
            assert(es.drop_first()[j] == es[j + 1]);
        }
        lemma_position_update(es.drop_first(), k - 1, p);
        assert(e2[0] == es[0]);
    }
    assert forall|id: Seq<char>| id != es[k].0 implies #[trigger] position_of(e2, id) == position_of(es, id) by {
        if k > 0 {
            assert(position_of(es.drop_first().update(k - 1, (es[k].0, p)), id) == position_of(es.drop_first(), id));
        }
    }
}

proof fn lemma_position_push(es: Seq<(Seq<char>, usize)>, e: (Seq<char>, usize))
    requires
        forall|j: int| 0 <= j < es.len() ==> (#[trigger] es[j]).0 != e.0,
    ensures
        position_of(es.push(e), e.0) == Some(e.1),
        forall|id: Seq<char>| id != e.0 ==> #[trigger] position_of(es.push(e), id) == position_of(es, id),
    decreases es.len(),
{
    if es.len() == 0 {
        assert(es.push(e)[0] == e);
        assert(es.push(e).drop_first() =~= Seq::<(Seq<char>, usize)>::empty());
    } else {
        assert(es.push(e).drop_first() =~= es.drop_first().push(e));
        assert(es.push(e)[0] == es[0]);
        assert forall|j: int| 0 <= j < es.drop_first().len() implies (#[trigger] es.drop_first()[j]).0 != e.0 by {
            assert(es.drop_first()[j] == es[j + 1]);
        }
        lemma_position_push(es.drop_first(), e);
    }
    assert forall|id: Seq<char>| id != e.0 implies #[trigger] position_of(es.push(e), id) == position_of(es, id) by {
        if es.len() == 0 {
            assert(position_of(es.push(e).drop_first(), id) is None);
        } else {
            assert(position_of(es.drop_first().push(e), id) == position_of(es.drop_first(), id));
        }
    }
}

/// How many of `kept` are below `p`.
fn rank(kept: &Vec<usize>, p: usize) -> (r: usize)
    ensures
        r == count_below(kept@, p),
        r <= kept@.len(),
{
    let mut r: usize = 0;
    let mut i: usize = 0;
    while i < kept.len()
        invariant
            i <= kept@.len(),
            r == count_below(kept@.subrange(0, i as int), p),
            r <= i,
        decreases kept.len() - i,
    {
        assert(kept@.subrange(0, i + 1).drop_last() =~= kept@.subrange(0, i as int));
        if kept[i] < p {
            r = r + 1;
        }
        i = i + 1;
    }
    assert(kept@.subrange(0, kept@.len() as int) =~= kept@);
    r
}

/// Below a bound that every element stays under, all elements count.
proof fn lemma_count_below_all(s: Seq<usize>, p: usize)
    requires
        forall|i: int| 0 <= i < s.len() ==> s[i] < p,
    ensures
        count_below(s, p) == s.len(),
    decreases s.len(),
{
    if s.len() > 0 {
        lemma_count_below_all(s.drop_last(), p);
    }
}

/// In an ascending sequence, the count below an element is its index.
proof fn lemma_count_below_index(s: Seq<usize>, j: int)
    requires
        ascending(s),
        0 <= j < s.len(),
    ensures
        count_below(s, s[j]) == j,
    decreases s.len(),
{
    let t = s.drop_last();
    if j == s.len() - 1 {
        assert forall|i: int| 0 <= i < t.len() implies t[i] < s[j] by {
            assert(t[i] == s[i]);
        }
        lemma_count_below_all(t, s[j]);
    } else {
        assert forall|a: int, b: int| 0 <= a < b < t.len() implies t[a] < t[b] by {
            assert(t[a] == s[a] && t[b] == s[b]);
        }
        assert(t[j] == s[j]);
        lemma_count_below_index(t, j);
    }
}

proof fn lemma_position_remove(es: Seq<(Seq<char>, usize)>, k: int)
    requires
        0 <= k < es.len(),
        forall|a: int, b: int| 0 <= a < b < es.len() ==> (#[trigger] es[a]).0 != (#[trigger] es[b]).0,
    ensures
        position_of(es.remove(k), es[k].0) is None,
        forall|id: Seq<char>| id != es[k].0 ==> #[trigger] position_of(es.remove(k), id) == position_of(es, id),
    decreases es.len(),
{
    let r = es.remove(k);
    if k == 0 {
        assert(r =~= es.drop_first());
        lemma_position_absent(es.drop_first(), es[0].0);
    } else {
        let t = es.drop_first();
        assert(r.drop_first() =~= t.remove(k - 1));
        assert(r[0] == es[0]);
        assert(t[k - 1] == es[k]);
        assert forall|a: int, b: int| 0 <= a < b < t.len() implies (#[trigger] t[a]).0 != (#[trigger] t[b]).0 by {
            assert(t[a] == es[a + 1] && t[b] == es[b + 1]);
        }
        lemma_position_remove(t, k - 1);
        assert(es[0].0 != es[k].0);
    }
    assert forall|id: Seq<char>| id != es[k].0 implies #[trigger] position_of(r, id) == position_of(es, id) by {
        if k > 0 {
            assert(position_of(es.drop_first().remove(k - 1), id) == position_of(es.drop_first(), id));
        } else {
            if es[0].0 != id {
                assert(position_of(es, id) == position_of(es.drop_first(), id));
            }
        }
    }
}

proof fn lemma_position_absent(es: Seq<(Seq<char>, usize)>, id: Seq<char>)
    requires
        forall|j: int| 0 <= j < es.len() ==> (#[trigger] es[j]).0 != id,
    ensures
        position_of(es, id) is None,
    decreases es.len(),
{
    if es.len() > 0 {
        assert forall|j: int| 0 <= j < es.drop_first().len() implies (#[trigger] es.drop_first()[j]).0 != id by {
            assert(es.drop_first()[j] == es[j + 1]);
        }
        lemma_position_absent(es.drop_first(), id);
    }
}

/// With each id once, an entry gives the position of its id.
proof fn lemma_position_found(es: Seq<(Seq<char>, usize)>, j: int)
    requires
        0 <= j < es.len(),
        forall|a: int, b: int| 0 <= a < b < es.len() ==> (#[trigger] es[a]).0 != (#[trigger] es[b]).0,
    ensures
        position_of(es, es[j].0) == Some(es[j].1),
    decreases j,
{
    if j > 0 {
        let t = es.drop_first();
        assert(t[j - 1] == es[j]);
        assert forall|a: int, b: int| 0 <= a < b < t.len() implies (#[trigger] t[a]).0 != (#[trigger] t[b]).0 by {
            assert(t[a] == es[a + 1] && t[b] == es[b + 1]);
        }
        lemma_position_found(t, j - 1);
        assert(es[0].0 != es[j].0);
    }
}

/// Moving each position to its rank in `kept` moves the position found.
proof fn lemma_position_ranked(es: Seq<(Seq<char>, usize)>, kept: Seq<usize>, id: Seq<char>)
    ensures
        position_of(es.map_values(|e: (Seq<char>, usize)| (e.0, count_below(kept, e.1) as usize)), id) == match position_of(
            es,
            id,
        ) {
            Some(p) => Some(count_below(kept, p) as usize),
            None => None,
        },
    decreases es.len(),
{
    let m = es.map_values(|e: (Seq<char>, usize)| (e.0, count_below(kept, e.1) as usize));
    if es.len() > 0 {
        assert(m.drop_first() =~= es.drop_first().map_values(|e: (Seq<char>, usize)| (e.0, count_below(kept, e.1) as usize)));
        assert(m[0] == (es[0].0, count_below(kept, es[0].1) as usize));
        lemma_position_ranked(es.drop_first(), kept, id);
    }
}

impl VectorSlots {
    /// Removes `id` and packs the vectors left: returns, ascending, the old
    /// positions of the vectors that keep an id; the vector found at
    /// `kept[i]` is to move to position `i`. Vectors without an id are
    /// dropped. An absent id changes nothing.
    pub fn remove_compacting(&mut self, id: &str) -> (r: Option<Vec<usize>>)
        requires
            old(self).wf(),
        ensures
            final(self).wf(),
            final(self).dimension() == old(self).dimension(),
            position_of(old(self).entries(), id@) is None ==> r is None && final(self).entries() == old(self).entries()
                && final(self).slots() == old(self).slots(),
            position_of(old(self).entries(), id@) is Some ==> (r matches Some(kept) && {
                &&& ascending(kept@)
                &&& forall|p: usize| #[trigger] kept@.contains(p) <==> exists|j: int|
                    0 <= j < old(self).entries().len() && (#[trigger] old(self).entries()[j]).0 != id@
                        && old(self).entries()[j].1 == p
                &&& final(self).slots() == kept@.len()
                &&& position_of(final(self).entries(), id@) is None
                &&& forall|k: Seq<char>| k != id@ ==> #[trigger] position_of(final(self).entries(), k) == match position_of(
                    old(self).entries(),
                    k,
                ) {
                    Some(p) => Some(count_below(kept@, p) as usize),
                    None => None,
                }
            }),
    {
        let ghost es = self.entries();
        let k = match self.find(id) {
            Some(k) => k,
            None => {
                proof {
                    lemma_position_absent(es, id@);
                }
                return None;
            },
        };
        proof {
            lemma_position_found(es, k as int);
            lemma_position_remove(es, k as int);
        }
        self.ids.remove(k);
        let ghost es2 = self.entries();
        assert(es2 =~= es.remove(k as int));
        let mut kept: Vec<usize> = Vec::new();
        let mut i: usize = 0;
        while i < self.slots
            invariant
                es2 == self.entries(),
                es2 == es.remove(k as int),
                i <= self.slots,
                ascending(kept@),
                forall|q: int| 0 <= q < kept@.len() ==> kept@[q] < i,
                forall|p: usize| #[trigger] kept@.contains(p) <==> (p < i && exists|j: int|
                    0 <= j < es2.len() && (#[trigger] es2[j]).1 == p),
            decreases self.slots - i,
        {
            let mut found = false;
            let mut j: usize = 0;
            while j < self.ids.len()
                invariant
                    es2 == self.entries(),
                    j <= es2.len(),
                    found <==> exists|jj: int| 0 <= jj < j && (#[trigger] es2[jj]).1 == i,
                decreases self.ids.len() - j,
            {
                assert(es2[j as int].1 == self.ids@[j as int].1);
                if self.ids[j].1 == i {
                    found = true;
                }
                proof {
                    if !found {
                        assert forall|jj: int| 0 <= jj < j + 1 implies (#[trigger] es2[jj]).1 != i by {
                            if jj == j {
                                assert(es2[jj].1 == self.ids@[jj].1);
                            }
                        }
                    }
                }
                j = j + 1;
            }
            let ghost k0 = kept@;
            if found {
                kept.push(i);
                proof {
                    assert forall|p: usize| #[trigger] kept@.contains(p) <==> (p < i + 1 && exists|jj: int|
                        0 <= jj < es2.len() && (#[trigger] es2[jj]).1 == p) by {
                        if p == i {
                            assert(kept@[k0.len() as int] == p);
                        }
                        if kept@.contains(p) && p != i {
                            let q = choose|q: int| 0 <= q < kept@.len() && kept@[q] == p;
                            assert(k0[q] == p);
                            assert(k0.contains(p));
                        }
                        if k0.contains(p) {
                            let q = choose|q: int| 0 <= q < k0.len() && k0[q] == p;
                            assert(kept@[q] == p);
                        }
                    }
                }
            } else {
                proof {
                    assert forall|p: usize| #[trigger] kept@.contains(p) <==> (p < i + 1 && exists|jj: int|
                        0 <= jj < es2.len() && (#[trigger] es2[jj]).1 == p) by {
                        if kept@.contains(p) {
                            let q = choose|q: int| 0 <= q < kept@.len() && kept@[q] == p;
                            assert(p < i);
                        }
                    }
                }
            }
            i = i + 1;
        }
        let mut ranked: Vec<(String, usize)> = Vec::new();
        let mut j: usize = 0;
        while j < self.ids.len()
            invariant
                es2 == self.entries(),
                j <= es2.len(),
                ranked@.len() == j,
                forall|q: int| 0 <= q < j ==> (#[trigger] ranked@[q]).0@ == es2[q].0 && ranked@[q].1 == count_below(
                    kept@,
                    es2[q].1,
                ),
            decreases self.ids.len() - j,
        {
            let r = rank(&kept, self.ids[j].1);
            ranked.push((self.ids[j].0.clone(), r));
            j = j + 1;
        }
        let ghost e3 = ranked@.map_values(|e: (String, usize)| (e.0@, e.1));
        proof {
            assert(e3 =~= es2.map_values(|e: (Seq<char>, usize)| (e.0, count_below(kept@, e.1) as usize)));
            assert forall|kk: Seq<char>| kk != id@ implies #[trigger] position_of(e3, kk) == match position_of(es, kk) {
                Some(p) => Some(count_below(kept@, p) as usize),
                None => None,
            } by {
                lemma_position_ranked(es2, kept@, kk);
            }
            lemma_position_ranked(es2, kept@, id@);
            // every remaining position is kept, at a distinct rank below the count
            assert forall|q: int| 0 <= q < es2.len() implies exists|t: int| 0 <= t < kept@.len() && kept@[t] == (
            #[trigger] es2[q]).1 by {
                assert(es2[q].1 < self.slots) by {
                    assert(es2[q] == es[if q < k { q } else { q + 1 }]);
                }
                assert(kept@.contains(es2[q].1));
            }
            assert forall|q: int| 0 <= q < e3.len() implies (#[trigger] e3[q]).1 < kept@.len() by {
                let t = choose|t: int| 0 <= t < kept@.len() && kept@[t] == es2[q].1;
                lemma_count_below_index(kept@, t);
            }
            assert forall|a: int, b: int| 0 <= a < b < e3.len() implies (#[trigger] e3[a]).1 != (#[trigger] e3[b]).1 by {
                let ta = choose|t: int| 0 <= t < kept@.len() && kept@[t] == es2[a].1;
                let tb = choose|t: int| 0 <= t < kept@.len() && kept@[t] == es2[b].1;
                lemma_count_below_index(kept@, ta);
                lemma_count_below_index(kept@, tb);
                assert(es2[a] == es[if a < k { a } else { a + 1 }]);
                assert(es2[b] == es[if b < k { b } else { b + 1 }]);
            }
            assert forall|a: int, b: int| 0 <= a < b < e3.len() implies (#[trigger] e3[a]).0 != (#[trigger] e3[b]).0 by {
                assert(es2[a] == es[if a < k { a } else { a + 1 }]);
                assert(es2[b] == es[if b < k { b } else { b + 1 }]);
            }
            assert forall|p: usize| #[trigger] kept@.contains(p) <==> exists|jj: int|
                0 <= jj < es.len() && (#[trigger] es[jj]).0 != id@ && es[jj].1 == p by {
                if kept@.contains(p) {
                    let jj = choose|jj: int| 0 <= jj < es2.len() && (#[trigger] es2[jj]).1 == p;
                    let o = if jj < k { jj } else { jj + 1 };
                    assert(es2[jj] == es[o]);
                    assert(es[o].0 != es[k as int].0);
                }
                if exists|jj: int| 0 <= jj < es.len() && (#[trigger] es[jj]).0 != id@ && es[jj].1 == p {
                    let jj = choose|jj: int| 0 <= jj < es.len() && (#[trigger] es[jj]).0 != id@ && es[jj].1 == p;
                    assert(jj != k);
                    let n = if jj < k { jj } else { jj - 1 };
                    assert(es2[n] == es[jj]);
                    assert(p < self.slots);
                }
            }
        }
        self.ids = ranked;
        self.slots = kept.len();
        Some(kept)
    }
}

/// The name under which the vector at position `i` is put in an HNSW
/// graph: "vec_" and the position.
pub fn point_name(i: usize) -> (r: String)
    ensures
        r@ == point_label(i as nat),
{
    with_decimal("vec_", i as u64)
}

proof fn lemma_position_some_entry(es: Seq<(Seq<char>, usize)>, id: Seq<char>)
    requires
        position_of(es, id) is Some,
    ensures
        exists|j: int| 0 <= j < es.len() && (#[trigger] es[j]).0 == id && es[j].1 == position_of(es, id)->Some_0,
    decreases es.len(),
{
    if es[0].0 == id {
        assert(es[0].0 == id);
    } else {
        lemma_position_some_entry(es.drop_first(), id);
        let j = choose|j: int| 0 <= j < es.drop_first().len() && (#[trigger] es.drop_first()[j]).0 == id
            && es.drop_first()[j].1 == position_of(es.drop_first(), id)->Some_0;
        assert(es[j + 1] == es.drop_first()[j]);
    }
}

impl VectorSlots {
    /// The number of ids.
    pub fn len(&self) -> (n: usize)
        ensures
            n == self.entries().len(),
    {
        self.ids.len()
    }

    /// Whether no id is held.
    pub fn is_empty(&self) -> (r: bool)
        ensures
            r == (self.entries().len() == 0),
    {
        self.ids.len() == 0
    }

    /// How many vectors are stored.
    pub fn slot_count(&self) -> (n: usize)
        ensures
            n == self.slots(),
    {
        self.slots
    }

    /// The dimension, once set.
    pub fn get_dimension(&self) -> (d: Option<usize>)
        ensures
            d == self.dimension(),
    {
        self.dimension
    }

    /// Nothing stored, and no dimension.
    pub fn clear(&mut self)
        ensures
            final(self).wf(),
            final(self).entries().len() == 0,
            final(self).slots() == 0,
            final(self).dimension() is None,
    {
        self.ids = Vec::new();
        self.slots = 0;
        self.dimension = None;
        assert(self.entries() =~= Seq::<(Seq<char>, usize)>::empty());
    }

    /// Forgets `id`, leaving its vector in place without an id; says
    /// whether it was there.
    pub fn remove(&mut self, id: &str) -> (r: bool)
        requires
            old(self).wf(),
        ensures
            final(self).wf(),
            r == position_of(old(self).entries(), id@) is Some,
            position_of(final(self).entries(), id@) is None,
            forall|k: Seq<char>| k != id@ ==> #[trigger] position_of(final(self).entries(), k) == position_of(
                old(self).entries(),
                k,
            ),
            final(self).slots() == old(self).slots(),
            final(self).dimension() == old(self).dimension(),
    {
        let ghost es = self.entries();
        match self.find(id) {
            Some(k) => {
                proof {
                    lemma_position_found(es, k as int);
                    lemma_position_remove(es, k as int);
                }
                self.ids.remove(k);
                proof {
                    let e2 = self.entries();
                    assert(e2 =~= es.remove(k as int));
                    assert forall|a: int, b: int| 0 <= a < b < e2.len() implies (#[trigger] e2[a]).0 != (
                    #[trigger] e2[b]).0 && e2[a].1 != e2[b].1 by {
                        assert(e2[a] == es[if a < k { a } else { a + 1 }]);
                        assert(e2[b] == es[if b < k { b } else { b + 1 }]);
                    }
                    assert forall|a: int| 0 <= a < e2.len() implies (#[trigger] e2[a]).1 < self.slots by {
                        assert(e2[a] == es[if a < k { a } else { a + 1 }]);
                    }
                }
                true
            },
            None => {
                proof {
                    lemma_position_absent(es, id@);
                }
                false
            },
        }
    }

    /// The id of the vector at position `p`, if one names it.
    pub fn id_at(&self, p: usize) -> (r: Option<String>)
        ensures
            match r {
                Some(s) => id_at_position(self.entries(), p) == Some(s@),
                None => id_at_position(self.entries(), p) is None,
            },
    {
        let ghost es = self.entries();
        let mut i: usize = 0;
        assert(es.subrange(0, es.len() as int) =~= es);
        while i < self.ids.len()
            invariant
                es == self.entries(),
                i <= es.len(),
                id_at_position(es, p) == id_at_position(es.subrange(i as int, es.len() as int), p),
            decreases self.ids.len() - i,
        {
            assert(es.subrange(i as int, es.len() as int)[0] == es[i as int]);
            assert(es.subrange(i as int, es.len() as int).drop_first() =~= es.subrange(i + 1, es.len() as int));
            if self.ids[i].1 == p {
                return Some(self.ids[i].0.clone());
            }
            i = i + 1;
        }
        None
    }

    /// The id of the vector put in an HNSW graph under `label` (see
    /// [`point_name`]), if one names it.
    pub fn id_for_point_name(&self, label: &str) -> (r: Option<String>)
        ensures
            match r {
                Some(s) => id_of_label(self.entries(), label@) == Some(s@),
                None => id_of_label(self.entries(), label@) is None,
            },
    {
        let ghost es = self.entries();
        let mut i: usize = 0;
        assert(es.subrange(0, es.len() as int) =~= es);
        while i < self.ids.len()
            invariant
                es == self.entries(),
                i <= es.len(),
                id_of_label(es, label@) == id_of_label(es.subrange(i as int, es.len() as int), label@),
            decreases self.ids.len() - i,
        {
            assert(es.subrange(i as int, es.len() as int)[0] == es[i as int]);
            assert(es.subrange(i as int, es.len() as int).drop_first() =~= es.subrange(i + 1, es.len() as int));
            let name = point_name(self.ids[i].1);
            if str_equal(name.as_str(), label) {
                return Some(self.ids[i].0.clone());
            }
            i = i + 1;
        }
        None
    }

    /// Each id with its position, ordered by id.
    pub fn entries_by_id(&self) -> (r: Vec<(String, usize)>)
        requires
            self.wf(),
        ensures
            strictly_ascending(r@.map_values(|e: (String, usize)| e.0@)),
            forall|q: int| 0 <= q < r@.len() ==> position_of(self.entries(), (#[trigger] r@[q]).0@) == Some(r@[q].1),
            forall|k: Seq<char>| #[trigger] position_of(self.entries(), k) is Some ==> exists|q: int|
                0 <= q < r@.len() && (#[trigger] r@[q]).0@ == k,
    {
        let ghost es = self.entries();
        let mut names: Vec<String> = Vec::new();
        let mut i: usize = 0;
        while i < self.ids.len()
            invariant
                es == self.entries(),
                i <= es.len(),
                views(names@) == es.subrange(0, i as int).map_values(|e: (Seq<char>, usize)| e.0),
            decreases self.ids.len() - i,
        {
            let ghost n0 = names@;
            names.push(self.ids[i].0.clone());
            assert(views(names@) =~= views(n0).push(es[i as int].0));
            assert(es.subrange(0, i + 1).map_values(|e: (Seq<char>, usize)| e.0) =~= es.subrange(0, i as int).map_values(
                |e: (Seq<char>, usize)| e.0,
            ).push(es[i as int].0));
            i = i + 1;
        }
        assert(es.subrange(0, es.len() as int) =~= es);
        let sorted = sorted_unique(names);
        let mut r: Vec<(String, usize)> = Vec::new();
        let mut q: usize = 0;
        while q < sorted.len()
            invariant
                es == self.entries(),
                self.wf(),
                q <= sorted@.len(),
                r@.len() == q,
                strictly_ascending(views(sorted@)),
                forall|x: Seq<char>| views(sorted@).contains(x) <==> es.map_values(|e: (Seq<char>, usize)| e.0).contains(x),
                forall|t: int| 0 <= t < q ==> (#[trigger] r@[t]).0@ == sorted@[t]@ && position_of(es, r@[t].0@) == Some(
                    r@[t].1,
                ),
            decreases sorted.len() - q,
        {
            let ghost x = sorted@[q as int]@;
            assert(views(sorted@)[q as int] == x);
            assert(views(sorted@).contains(x));
            let ghost names_of = es.map_values(|e: (Seq<char>, usize)| e.0);
            let ghost jj = choose|jj: int| 0 <= jj < names_of.len() && names_of[jj] == x;
            proof {
                assert(es[jj].0 == x);
            }
            match self.find(sorted[q].as_str()) {
                Some(k) => {
                    proof {
                        lemma_position_found(es, k as int);
                    }
                    r.push((sorted[q].clone(), self.ids[k].1));
                },
                None => {},
            }
            q = q + 1;
        }
        proof {
            assert(r@.map_values(|e: (String, usize)| e.0@) =~= views(sorted@));
            assert forall|k: Seq<char>| #[trigger] position_of(es, k) is Some implies exists|t: int|
                0 <= t < r@.len() && (#[trigger] r@[t]).0@ == k by {
                lemma_position_some_entry(es, k);
                let j = choose|j: int| 0 <= j < es.len() && (#[trigger] es[j]).0 == k && es[j].1 == position_of(es, k)->Some_0;
                assert(es.map_values(|e: (Seq<char>, usize)| e.0)[j] == k);
                assert(views(sorted@).contains(k));
                let t = choose|t: int| 0 <= t < views(sorted@).len() && views(sorted@)[t] == k;
                assert(r@[t].0@ == k);
            }
        }
        r
    }

    /// The size of an index of type `index_type` with these vectors: the
    /// ids, the dimension (0 before the first vector), and four bytes per
    /// number stored.
    pub fn stats(&self, index_type: String) -> (s: IndexStats)
        requires
            self.slots() * match self.dimension() {
                Some(d) => d as nat,
                None => 0,
            } * 4 <= usize::MAX,
        ensures
            s.vector_count == self.entries().len(),
            s.dimension == match self.dimension() {
                Some(d) => d,
                None => 0,
            },
            s.index_type == index_type,
            s.memory_usage == self.slots() * s.dimension * 4,
    {
        let d: usize = match self.dimension {
            Some(d) => d,
            None => 0,
        };
        proof {
            assert(self.slots * d <= self.slots * d * 4) by (nonlinear_arith);
        }
        IndexStats { vector_count: self.ids.len(), dimension: d, index_type, memory_usage: self.slots * d * 4 }
    }
}

/// The check before k-means over `n` vectors into `k` clusters: there must
/// be more vectors than clusters.
pub fn kmeans_check(k: usize, n: usize) -> (r: Result<(), VectorIndexError>)
    ensures
        k < n ==> r is Ok,
        k >= n ==> (r matches Err(VectorIndexError::IndexError(m)) && m@ == "聚类数("@ + decimal(k as nat)
            + ")不能大于等于向量数("@ + decimal(n as nat) + ")"@),
{
    if k >= n {
        let mut m = with_decimal("聚类数(", k as u64);
        m.append(")不能大于等于向量数(");
        let tail = with_decimal("", n as u64);
        m.append(tail.as_str());
        m.append(")");
        proof {
            reveal_strlit("");
            assert(""@ + decimal(n as nat) =~= decimal(n as nat));
        }
        Err(VectorIndexError::IndexError(m))
    } else {
        Ok(())
    }
}

/// The vectors that start k-means over `n` vectors into `k` clusters:
/// every `n / k`-th one, from the first.
pub fn initial_centers(n: usize, k: usize) -> (r: Vec<usize>)
    requires
        0 < k < n,
    ensures
        r@.len() == k,
        forall|i: int| 0 <= i < k ==> #[trigger] r@[i] == if i * (n / k) < n - 1 { i * (n / k) } else { n - 1 },
{
    let step = n / k;
    let mut r: Vec<usize> = Vec::new();
    let mut i: usize = 0;
    while i < k
        invariant
            0 < k < n,
            step == n / k,
            i <= k,
            r@.len() == i,
            forall|j: int| 0 <= j < i ==> #[trigger] r@[j] == if j * step < n - 1 { j * step } else { n - 1 },
        decreases k - i,
    {
        proof {
            assert(i * step <= k * step) by (nonlinear_arith)
                requires
                    i <= k,
            ;
            assert(k * step <= n) by (nonlinear_arith)
                requires
                    step == n / k,
                    0 < k,
            ;
        }
        let at = i * step;
        let idx = if at < n - 1 { at } else { n - 1 };
        r.push(idx);
        i = i + 1;
    }
    r
}

/// How product quantisation splits vectors of `dimension` numbers into `m`
/// parts with codebooks of `2^nbits` entries: the part length and the
/// codebook size; the parts must divide the dimension evenly.
pub fn pq_split(dimension: usize, m: usize, nbits: usize) -> (r: Result<(usize, usize), VectorIndexError>)
    requires
        m > 0,
        nbits < usize::BITS,
    ensures
        dimension % m == 0 ==> (r matches Ok((sub, size)) && sub == dimension / m && size == 1usize << nbits),
        dimension % m != 0 ==> (r matches Err(VectorIndexError::IndexError(t)) && t@ == "向量维度("@ + decimal(
            dimension as nat,
        ) + ")必须被子向量数("@ + decimal(m as nat) + ")整除"@),
{
    if dimension % m != 0 {
        let mut t = with_decimal("向量维度(", dimension as u64);
        t.append(")必须被子向量数(");
        let tail = with_decimal("", m as u64);
        t.append(tail.as_str());
        t.append(")整除");
        proof {
            reveal_strlit("");
            assert(""@ + decimal(m as nat) =~= decimal(m as nat));
        }
        return Err(VectorIndexError::IndexError(t));
    }
    Ok((dimension / m, 1usize << nbits))
}

} // verus!
