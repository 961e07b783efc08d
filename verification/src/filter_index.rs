//! The filter index over the text and true/false leaves of documents: per
//! field path, the documents holding each exact value and each lower-case
//! word, and the queries answered from it (equality, partial match, full
//! text, existence). Numbers and locations are indexed by the caller.

use crate::filtering::{sorted_unique, strictly_ascending, views};
use crate::text::str_equal;
use vstd::prelude::*;

verus! {

/// Whether `c` has the Unicode White_Space property.
pub open spec fn white_space(c: char) -> bool {
    let n = c as u32;
    (0x09 <= n <= 0x0D) || n == 0x20 || n == 0x85 || n == 0xA0 || n == 0x1680 || (0x2000 <= n <= 0x200A)
        || n == 0x2028 || n == 0x2029 || n == 0x202F || n == 0x205F || n == 0x3000
}

/// Calls `char::is_whitespace`, which holds for exactly the characters
/// with the Unicode White_Space property (the code points listed in
/// [`white_space`]).
#[verifier::external_body]
pub(crate) fn is_whitespace_char(c: char) -> (r: bool)
    ensures
        r == white_space(c),
{
    c.is_whitespace()
}

/// What `str::to_lowercase` makes of `s`.
pub uninterp spec fn lowercase(s: Seq<char>) -> Seq<char>;

/// Calls `str::to_lowercase`; the result is named, not spelled out.
#[verifier::external_body]
fn to_lowercase(s: &str) -> (r: String)
    ensures
        r@ == lowercase(s@),
{
    s.to_lowercase()
}

/// The words of `s` found so far and the word being read, scanning from
/// the left: white space ends a word.
pub open spec fn word_scan(s: Seq<char>) -> (Seq<Seq<char>>, Seq<char>)
    decreases s.len(),
{
    if s.len() == 0 {
        (Seq::empty(), Seq::empty())
    } else {
        let (ws, cur) = word_scan(s.drop_last());
        if white_space(s.last()) {
            if cur.len() > 0 {
                (ws.push(cur), Seq::empty())
            } else {
                (ws, cur)
            }
        } else {
            (ws, cur.push(s.last()))
        }
    }
}

/// The words of `s`, as `str::split_whitespace` cuts them.
pub open spec fn words(s: Seq<char>) -> Seq<Seq<char>> {
    let (ws, cur) = word_scan(s);
    if cur.len() > 0 {
        ws.push(cur)
    } else {
        ws
    }
}

/// The words of `s` (see [`words`]).
pub fn split_words(s: &str) -> (r: Vec<String>)
    ensures
        views(r@) == words(s@),
{
    let n = s.unicode_len();
    let mut ws: Vec<String> = Vec::new();
    let mut cur = String::new();
    let mut i: usize = 0;
    while i < n
        invariant
            i <= n,
            n == s@.len(),
            (views(ws@), cur@) == word_scan(s@.subrange(0, i as int)),
        decreases n - i,
    {
        let c = s.get_char(i);
        assert(s@.subrange(0, i + 1).drop_last() =~= s@.subrange(0, i as int));
        assert(s@.subrange(0, i + 1).last() == c);
        if is_whitespace_char(c) {
            if cur.unicode_len() > 0 {
                let ghost w0 = ws@;
                let word = cur;
                ws.push(word);
                cur = String::new();
                assert(views(ws@) =~= views(w0).push(ws@.last()@));
                assert(cur@ =~= Seq::<char>::empty());
            }
        } else {
            let ghost c0 = cur@;
            cur.append(s.substring_char(i, i + 1));
            assert(cur@ =~= c0.push(c));
        }
        i = i + 1;
    }
    assert(s@.subrange(0, n as int) =~= s@);
    if cur.unicode_len() > 0 {
        let ghost w0 = ws@;
        ws.push(cur);
        assert(views(ws@) =~= views(w0).push(ws@.last()@));
    }
    ws
}

/// The documents listed under `key` in `es`: those of its first entry, or
/// none.
pub open spec fn ids_in(es: Seq<(String, Vec<String>)>, key: Seq<char>) -> Seq<Seq<char>>
    decreases es.len(),
{
    if es.len() == 0 {
        Seq::empty()
    } else if es[0].0@ == key {
        views(es[0].1@)
    } else {
        ids_in(es.drop_first(), key)
    }
}

/// Whether no key of `es` occurs twice.
pub open spec fn keys_unique(es: Seq<(String, Vec<String>)>) -> bool {
    forall|i: int, j: int| 0 <= i < j < es.len() ==> (#[trigger] es[i]).0@ != (#[trigger] es[j]).0@
}

proof fn lemma_ids_in_found(es: Seq<(String, Vec<String>)>, k: int, key: Seq<char>)
    requires
        0 <= k < es.len(),
        es[k].0@ == key,
        forall|j: int| 0 <= j < k ==> (#[trigger] es[j]).0@ != key,
    ensures
        ids_in(es, key) == views(es[k].1@),
    decreases k,
{
    if k > 0 {
        assert forall|j: int| 0 <= j < k - 1 implies (#[trigger] es.drop_first()[j]).0@ != key by {
            assert(es.drop_first()[j] == es[j + 1]);
        }
        lemma_ids_in_found(es.drop_first(), k - 1, key);
    }
}

proof fn lemma_ids_in_none(es: Seq<(String, Vec<String>)>, key: Seq<char>)
    requires
        forall|j: int| 0 <= j < es.len() ==> (#[trigger] es[j]).0@ != key,
    ensures
        ids_in(es, key) == Seq::<Seq<char>>::empty(),
    decreases es.len(),
{
    if es.len() > 0 {
        assert(es[0].0@ != key);
        assert forall|j: int| 0 <= j < es.len() - 1 implies (#[trigger] es.drop_first()[j]).0@ != key by {
            assert(es.drop_first()[j] == es[j + 1]);
        }
        lemma_ids_in_none(es.drop_first(), key);
    }
}

/// Replacing the entry at `k` by one under the same key changes only what
/// that key lists.
proof fn lemma_ids_in_replaced(es: Seq<(String, Vec<String>)>, k: int, e: (String, Vec<String>), other: Seq<char>)
    requires
        0 <= k < es.len(),
        keys_unique(es),
        e.0@ == es[k].0@,
        other != e.0@,
    ensures
        ids_in(es.update(k, e), other) == ids_in(es, other),
{
    let es2 = es.update(k, e);
    if exists|m: int| 0 <= m < es.len() && (#[trigger] es[m]).0@ == other {
        let m = choose|m: int| 0 <= m < es.len() && (#[trigger] es[m]).0@ == other;
        assert(m != k);
        assert forall|j: int| 0 <= j < m implies (#[trigger] es[j]).0@ != other by {
            assert(es[j].0@ != es[m].0@);
        }
        assert forall|j: int| 0 <= j < m implies (#[trigger] es2[j]).0@ != other by {
            if j != k {
                assert(es2[j] == es[j]);
            }
        }
        lemma_ids_in_found(es, m, other);
        lemma_ids_in_found(es2, m, other);
    } else {
        assert forall|j: int| 0 <= j < es2.len() implies (#[trigger] es2[j]).0@ != other by {
            if j != k {
                assert(es2[j] == es[j]);
            }
        }
        lemma_ids_in_none(es, other);
        lemma_ids_in_none(es2, other);
    }
}

/// Documents listed under keys.
#[derive(Debug)]
pub struct IdLists {
    entries: Vec<(String, Vec<String>)>,
}

impl IdLists {
    /// The keys and their documents, in the order the keys came.
    pub closed spec fn entries(&self) -> Seq<(String, Vec<String>)> {
        self.entries@
    }

    /// Whether no key occurs twice.
    pub closed spec fn wf(&self) -> bool {
        keys_unique(self.entries@)
    }

    /// No key.
    pub fn new() -> (t: Self)
        ensures
            t.wf(),
            t.entries().len() == 0,
    {
        IdLists { entries: Vec::new() }
    }

    fn position(&self, key: &str) -> (r: Option<usize>)
        ensures
            match r {
                Some(k) => k < self.entries@.len() && self.entries@[k as int].0@ == key@ && forall|j: int|
                    0 <= j < k ==> (#[trigger] self.entries@[j]).0@ != key@,
                None => forall|j: int| 0 <= j < self.entries@.len() ==> (#[trigger] self.entries@[j]).0@ != key@,
            },
    {
        let mut i: usize = 0;
        while i < self.entries.len()
            invariant
                i <= self.entries@.len(),
                forall|j: int| 0 <= j < i ==> (#[trigger] self.entries@[j]).0@ != key@,
            decreases self.entries.len() - i,
        {
            if str_equal(self.entries[i].0.as_str(), key) {
                return Some(i);
            }
            i = i + 1;
        }
        None
    }

    /// Lists `id` under `key`, after the documents already there.
    pub fn push(&mut self, key: &str, id: &str)
        requires
            old(self).wf(),
        ensures
            final(self).wf(),
            forall|k: Seq<char>| #[trigger] ids_in(final(self).entries(), k) == if k == key@ {
                ids_in(old(self).entries(), k).push(id@)
            } else {
                ids_in(old(self).entries(), k)
            },
    {
        let ghost es = self.entries@;
        match self.position(key) {
            Some(k) => {
                let mut all = Vec::new();
                std::mem::swap(&mut all, &mut self.entries);
                let (name, mut ids) = all.remove(k);
                let ghost old_ids = ids@;
                ids.push(String::from_str(id));
                all.insert(k, (name, ids));
                std::mem::swap(&mut all, &mut self.entries);
                proof {
                    let e = self.entries@[k as int];
                    assert(self.entries@ =~= es.update(k as int, e));
                    assert(e.0@ == es[k as int].0@);
                    assert forall|i: int, j: int|
                        0 <= i < j < self.entries@.len() implies (#[trigger] self.entries@[i]).0@ != (
                    #[trigger] self.entries@[j]).0@ by {
                        assert(self.entries@[i].0@ == es[i].0@);
                        assert(self.entries@[j].0@ == es[j].0@);
                    }
                    assert forall|kk: Seq<char>| #[trigger] ids_in(self.entries@, kk) == if kk == key@ {
                        ids_in(es, kk).push(id@)
                    } else {
                        ids_in(es, kk)
                    } by {
                        if kk == key@ {
                            lemma_ids_in_found(es, k as int, kk);
                            assert forall|j: int| 0 <= j < k implies (#[trigger] self.entries@[j]).0@ != kk by {
                                assert(self.entries@[j] == es[j]);
                            }
                            lemma_ids_in_found(self.entries@, k as int, kk);
                            assert(views(e.1@) =~= views(old_ids).push(id@));
                            assert(old_ids == es[k as int].1@);
                        } else {
                            lemma_ids_in_replaced(es, k as int, e, kk);
                        }
                    }
                }
            },
            None => {
                let mut ids: Vec<String> = Vec::new();
                ids.push(String::from_str(id));
                self.entries.push((String::from_str(key), ids));
                proof {
                    let n = es.len() as int;
                    let e = self.entries@[n];
                    assert forall|i: int, j: int|
                        0 <= i < j < self.entries@.len() implies (#[trigger] self.entries@[i]).0@ != (
                    #[trigger] self.entries@[j]).0@ by {
                        assert(self.entries@[i] == es[i]);
                        if j < n {
                            assert(self.entries@[j] == es[j]);
                        }
                    }
                    assert forall|kk: Seq<char>| #[trigger] ids_in(self.entries@, kk) == if kk == key@ {
                        ids_in(es, kk).push(id@)
                    } else {
                        ids_in(es, kk)
                    } by {
                        if kk == key@ {
                            lemma_ids_in_none(es, kk);
                            assert forall|j: int| 0 <= j < n implies (#[trigger] self.entries@[j]).0@ != kk by {
                                assert(self.entries@[j] == es[j]);
                            }
                            lemma_ids_in_found(self.entries@, n, kk);
                            assert(views(e.1@) =~= seq![id@]);
                            assert(Seq::<Seq<char>>::empty().push(id@) =~= seq![id@]);
                        } else {
                            if exists|m: int| 0 <= m < es.len() && (#[trigger] es[m]).0@ == kk {
                                let m = choose|m: int| 0 <= m < es.len() && (#[trigger] es[m]).0@ == kk;
                                assert forall|j: int| 0 <= j < m implies (#[trigger] es[j]).0@ != kk by {
                                    assert(es[j].0@ != es[m].0@);
                                }
                                assert forall|j: int| 0 <= j < m implies (#[trigger] self.entries@[j]).0@ != kk by {
                                    assert(self.entries@[j] == es[j]);
                                }
                                lemma_ids_in_found(es, m, kk);
                                assert(self.entries@[m] == es[m]);
                                lemma_ids_in_found(self.entries@, m, kk);
                            } else {
                                assert forall|j: int| 0 <= j < self.entries@.len() implies (#[trigger] self.entries@[j]).0@ != kk by {
                                    if j < n {
                                        assert(self.entries@[j] == es[j]);
                                    }
                                }
                                lemma_ids_in_none(es, kk);
                                lemma_ids_in_none(self.entries@, kk);
                            }
                        }
                    }
                }
            },
        }
    }

    /// The documents listed under `key`.
    pub fn get(&self, key: &str) -> (r: Vec<String>)
        requires
            self.wf(),
        ensures
            views(r@) == ids_in(self.entries(), key@),
    {
        match self.position(key) {
            Some(k) => {
                proof {
                    lemma_ids_in_found(self.entries@, k as int, key@);
                }
                clone_all(&self.entries[k].1)
            },
            None => {
                proof {
                    lemma_ids_in_none(self.entries@, key@);
                }
                let r: Vec<String> = Vec::new();
                assert(views(r@) =~= Seq::<Seq<char>>::empty());
                r
            },
        }
    }
}


/// All the documents listed in `es`, key after key.
pub open spec fn entries_ids(es: Seq<(String, Vec<String>)>) -> Seq<Seq<char>>
    decreases es.len(),
{
    if es.len() == 0 {
        Seq::empty()
    } else {
        entries_ids(es.drop_last()) + views(es.last().1@)
    }
}

/// Whether `needle` occurs in `hay` (the empty text occurs everywhere).
pub open spec fn has_substring(hay: Seq<char>, needle: Seq<char>) -> bool {
    exists|i: int| 0 <= i && i + needle.len() <= hay.len() && #[trigger] hay.subrange(i, i + needle.len()) == needle
}

/// The documents listed in `es` under the keys that contain `sub`, key
/// after key.
pub open spec fn sub_hits(es: Seq<(String, Vec<String>)>, sub: Seq<char>) -> Seq<Seq<char>>
    decreases es.len(),
{
    if es.len() == 0 {
        Seq::empty()
    } else {
        sub_hits(es.drop_last(), sub) + if has_substring(es.last().0@, sub) {
            views(es.last().1@)
        } else {
            Seq::empty()
        }
    }
}

/// Whether `needle` occurs in `hay` (see [`has_substring`]).
pub fn contains_text(hay: &str, needle: &str) -> (r: bool)
    ensures
        r == has_substring(hay@, needle@),
{
    let n = hay.unicode_len();
    let m = needle.unicode_len();
    if m > n {
        proof {
            assert forall|i: int| 0 <= i && i + needle@.len() <= hay@.len() implies #[trigger] hay@.subrange(i, i + needle@.len()) != needle@ by {}
        }
        return false;
    }
    let last = n - m;
    let mut i: usize = 0;
    while i < last
        invariant
            m <= n,
            n == hay@.len(),
            m == needle@.len(),
            last == n - m,
            i <= last,
            forall|j: int| 0 <= j < i ==> #[trigger] hay@.subrange(j, j + m) != needle@,
        decreases last - i,
    {
        if str_equal(hay.substring_char(i, i + m), needle) {
            return true;
        }
        i = i + 1;
    }
    if str_equal(hay.substring_char(last, n), needle) {
        assert(hay@.subrange(last as int, last + needle@.len()) == needle@);
        return true;
    }
    proof {
        assert forall|j: int| 0 <= j && j + needle@.len() <= hay@.len() implies #[trigger] hay@.subrange(j, j + needle@.len()) != needle@ by {
            if j == last {
                assert(hay@.subrange(j, j + m) == hay@.subrange(last as int, n as int));
            } else {
                assert(j < i);
            }
        }
    }
    false
}

/// `acc` followed by a copy of `v`.
fn append_copy(acc: &mut Vec<String>, v: &Vec<String>)
    ensures
        views(final(acc)@) == views(old(acc)@) + views(v@),
{
    let mut i: usize = 0;
    while i < v.len()
        invariant
            i <= v@.len(),
            views(acc@) == views(old(acc)@) + views(v@.subrange(0, i as int)),
        decreases v.len() - i,
    {
        let ghost a0 = acc@;
        acc.push(v[i].clone());
        assert(views(acc@) =~= views(a0).push(v@[i as int]@));
        assert(views(v@.subrange(0, i + 1)) =~= views(v@.subrange(0, i as int)).push(v@[i as int]@));
        i = i + 1;
    }
    assert(v@.subrange(0, v@.len() as int) =~= v@);
}

impl IdLists {
    /// Appends to `acc` every document listed, key after key.
    pub fn append_all(&self, acc: &mut Vec<String>)
        ensures
            views(final(acc)@) == views(old(acc)@) + entries_ids(self.entries()),
    {
        let mut i: usize = 0;
        while i < self.entries.len()
            invariant
                i <= self.entries@.len(),
                views(acc@) == views(old(acc)@) + entries_ids(self.entries@.subrange(0, i as int)),
            decreases self.entries.len() - i,
        {
            let ghost a0 = views(acc@);
            append_copy(acc, &self.entries[i].1);
            assert(self.entries@.subrange(0, i + 1).drop_last() =~= self.entries@.subrange(0, i as int));
            assert(views(acc@) =~= views(old(acc)@) + entries_ids(self.entries@.subrange(0, i + 1)));
            i = i + 1;
        }
        assert(self.entries@.subrange(0, self.entries@.len() as int) =~= self.entries@);
    }

    /// Appends to `acc` the documents listed under the keys that contain
    /// `sub`, key after key.
    pub fn append_with_substring(&self, sub: &str, acc: &mut Vec<String>)
        ensures
            views(final(acc)@) == views(old(acc)@) + sub_hits(self.entries(), sub@),
    {
        let mut i: usize = 0;
        while i < self.entries.len()
            invariant
                i <= self.entries@.len(),
                views(acc@) == views(old(acc)@) + sub_hits(self.entries@.subrange(0, i as int), sub@),
            decreases self.entries.len() - i,
        {
            assert(self.entries@.subrange(0, i + 1).drop_last() =~= self.entries@.subrange(0, i as int));
            if contains_text(self.entries[i].0.as_str(), sub) {
                append_copy(acc, &self.entries[i].1);
            }
            assert(views(acc@) =~= views(old(acc)@) + sub_hits(self.entries@.subrange(0, i + 1), sub@));
            i = i + 1;
        }
        assert(self.entries@.subrange(0, self.entries@.len() as int) =~= self.entries@);
    }
}

/// A copy of `v`.
pub fn clone_all(v: &Vec<String>) -> (r: Vec<String>)
    ensures
        views(r@) == views(v@),
{
    let mut r: Vec<String> = Vec::new();
    let mut i: usize = 0;
    while i < v.len()
        invariant
            i <= v@.len(),
            views(r@) == views(v@.subrange(0, i as int)),
        decreases v.len() - i,
    {
        let ghost r0 = r@;
        r.push(v[i].clone());
        assert(views(r@) =~= views(r0).push(v@[i as int]@));
        assert(views(v@.subrange(0, i + 1)) =~= views(v@.subrange(0, i as int)).push(v@[i as int]@));
        i = i + 1;
    }
    assert(v@.subrange(0, v@.len() as int) =~= v@);
    r
}

/// How many times `k` occurs in `ws`.
pub open spec fn occurrences(ws: Seq<Seq<char>>, k: Seq<char>) -> nat
    decreases ws.len(),
{
    if ws.len() == 0 {
        0
    } else {
        occurrences(ws.drop_last(), k) + if ws.last() == k { 1nat } else { 0nat }
    }
}

/// `id` repeated `n` times.
pub open spec fn repeated(id: Seq<char>, n: nat) -> Seq<Seq<char>> {
    Seq::new(n, |i: int| id)
}

/// The lower-case forms of `ws`.
pub open spec fn lowered(ws: Seq<Seq<char>>) -> Seq<Seq<char>> {
    ws.map_values(|w: Seq<char>| lowercase(w))
}

/// The exact values, the lower-case words and the numbers of one field.
/// A number is held by the caller; here each stands as the handle under
/// which the caller keeps it, beside its document.
#[derive(Debug)]
pub struct FieldIndex {
    pub values: IdLists,
    pub words: IdLists,
    pub numbers: Vec<(u64, String)>,
}

/// The handles and document texts of number entries.
pub open spec fn number_entries(ns: Seq<(u64, String)>) -> Seq<(u64, Seq<char>)> {
    ns.map_values(|e: (u64, String)| (e.0, e.1@))
}

/// The documents of number entries, in order.
pub open spec fn number_ids(ns: Seq<(u64, String)>) -> Seq<Seq<char>> {
    ns.map_values(|e: (u64, String)| e.1@)
}

impl FieldIndex {
    /// Whether neither list holds a key twice.
    pub open spec fn wf(&self) -> bool {
        self.values.wf() && self.words.wf()
    }

    /// Nothing indexed.
    pub fn new() -> (f: Self)
        ensures
            f.wf(),
            f.values.entries().len() == 0,
            f.words.entries().len() == 0,
            f.numbers@.len() == 0,
    {
        FieldIndex { values: IdLists::new(), words: IdLists::new(), numbers: Vec::new() }
    }

    /// Indexes document `id` under the text `value`: under the value itself,
    /// and under the lower-case form of each of its words, once per
    /// occurrence.
    pub fn index_text(&mut self, id: &str, value: &str)
        requires
            old(self).wf(),
        ensures
            final(self).wf(),
            forall|k: Seq<char>| #[trigger] ids_in(final(self).values.entries(), k) == if k == value@ {
                ids_in(old(self).values.entries(), k).push(id@)
            } else {
                ids_in(old(self).values.entries(), k)
            },
            forall|k: Seq<char>| #[trigger] ids_in(final(self).words.entries(), k) == ids_in(old(self).words.entries(), k)
                + repeated(id@, occurrences(lowered(words(value@)), k)),
            final(self).numbers == old(self).numbers,
    {
        self.values.push(value, id);
        let ghost v1 = self.values;
        let ws = split_words(value);
        let ghost lw = lowered(words(value@));
        let ghost w0 = self.words;
        let mut i: usize = 0;
        while i < ws.len()
            invariant
                i <= ws@.len(),
                views(ws@) == words(value@),
                lw == lowered(words(value@)),
                self.words.wf(),
                self.values == v1,
                self.numbers == old(self).numbers,
                v1.wf(),
                forall|k: Seq<char>| #[trigger] ids_in(self.words.entries(), k) == ids_in(w0.entries(), k) + repeated(
                    id@,
                    occurrences(lw.subrange(0, i as int), k),
                ),
            decreases ws.len() - i,
        {
            let low = to_lowercase(ws[i].as_str());
            proof {
                assert(lw[i as int] == lowercase(ws@[i as int]@));
            }
            let ghost before = self.words;
            self.words.push(low.as_str(), id);
            proof {
                assert(lw.subrange(0, i + 1).drop_last() =~= lw.subrange(0, i as int));
                assert forall|k: Seq<char>| #[trigger] ids_in(self.words.entries(), k) == ids_in(w0.entries(), k)
                    + repeated(id@, occurrences(lw.subrange(0, i + 1), k)) by {
                    let n0 = occurrences(lw.subrange(0, i as int), k);
                    if k == low@ {
                        assert(repeated(id@, n0).push(id@) =~= repeated(id@, n0 + 1));
                        assert(ids_in(w0.entries(), k) + repeated(id@, n0 + 1) =~= (ids_in(w0.entries(), k) + repeated(id@, n0)).push(id@));
                    }
                }
            }
            i = i + 1;
        }
        proof {
            assert(lw.subrange(0, ws@.len() as int) =~= lw);
        }
    }

    /// Indexes document `id` under the true/false value `b` ("true" or "false").
    pub fn index_bool(&mut self, id: &str, b: bool)
        requires
            old(self).wf(),
        ensures
            final(self).wf(),
            forall|k: Seq<char>| #[trigger] ids_in(final(self).values.entries(), k) == if k == (if b { "true"@ } else { "false"@ }) {
                ids_in(old(self).values.entries(), k).push(id@)
            } else {
                ids_in(old(self).values.entries(), k)
            },
            final(self).words == old(self).words,
            final(self).numbers == old(self).numbers,
    {
        if b {
            self.values.push("true", id);
        } else {
            self.values.push("false", id);
        }
    }

    /// Records that document `id` has the number the caller keeps under
    /// `handle`.
    pub fn index_number(&mut self, id: &str, handle: u64)
        requires
            old(self).wf(),
        ensures
            final(self).wf(),
            final(self).values == old(self).values,
            final(self).words == old(self).words,
            number_entries(final(self).numbers@) == number_entries(old(self).numbers@).push((handle, id@)),
    {
        let ghost n0 = self.numbers@;
        self.numbers.push((handle, String::from_str(id)));
        assert(number_entries(self.numbers@) =~= number_entries(n0).push((handle, id@)));
    }
}

/// The index of the field at `path` in `fs`: the first, if any.
pub open spec fn field_at(fs: Seq<(String, FieldIndex)>, path: Seq<char>) -> Option<FieldIndex>
    decreases fs.len(),
{
    if fs.len() == 0 {
        None
    } else if fs[0].0@ == path {
        Some(fs[0].1)
    } else {
        field_at(fs.drop_first(), path)
    }
}

proof fn lemma_field_found(fs: Seq<(String, FieldIndex)>, k: int, path: Seq<char>)
    requires
        0 <= k < fs.len(),
        fs[k].0@ == path,
        forall|j: int| 0 <= j < k ==> (#[trigger] fs[j]).0@ != path,
    ensures
        field_at(fs, path) == Some(fs[k].1),
    decreases k,
{
    if k > 0 {
        assert forall|j: int| 0 <= j < k - 1 implies (#[trigger] fs.drop_first()[j]).0@ != path by {
            assert(fs.drop_first()[j] == fs[j + 1]);
        }
        lemma_field_found(fs.drop_first(), k - 1, path);
    }
}

proof fn lemma_field_none(fs: Seq<(String, FieldIndex)>, path: Seq<char>)
    requires
        forall|j: int| 0 <= j < fs.len() ==> (#[trigger] fs[j]).0@ != path,
    ensures
        field_at(fs, path) is None,
    decreases fs.len(),
{
    if fs.len() > 0 {
        assert(fs[0].0@ != path);
        assert forall|j: int| 0 <= j < fs.len() - 1 implies (#[trigger] fs.drop_first()[j]).0@ != path by {
            assert(fs.drop_first()[j] == fs[j + 1]);
        }
        lemma_field_none(fs.drop_first(), path);
    }
}

/// Whether each path of `fs` occurs once and each field index is sound.
pub open spec fn fields_wf(fs: Seq<(String, FieldIndex)>) -> bool {
    &&& forall|i: int, j: int| 0 <= i < j < fs.len() ==> (#[trigger] fs[i]).0@ != (#[trigger] fs[j]).0@
    &&& forall|i: int| 0 <= i < fs.len() ==> (#[trigger] fs[i]).1.wf()
}

proof fn lemma_field_replaced(fs: Seq<(String, FieldIndex)>, k: int, e: (String, FieldIndex), other: Seq<char>)
    requires
        0 <= k < fs.len(),
        fields_wf(fs),
        e.0@ == fs[k].0@,
        other != e.0@,
    ensures
        field_at(fs.update(k, e), other) == field_at(fs, other),
{
    let fs2 = fs.update(k, e);
    if exists|m: int| 0 <= m < fs.len() && (#[trigger] fs[m]).0@ == other {
        let m = choose|m: int| 0 <= m < fs.len() && (#[trigger] fs[m]).0@ == other;
        assert(m != k);
        assert forall|j: int| 0 <= j < m implies (#[trigger] fs[j]).0@ != other by {
            assert(fs[j].0@ != fs[m].0@);
        }
        assert forall|j: int| 0 <= j < m implies (#[trigger] fs2[j]).0@ != other by {
            if j != k {
                assert(fs2[j] == fs[j]);
            }
        }
        lemma_field_found(fs, m, other);
        lemma_field_found(fs2, m, other);
    } else {
        assert forall|j: int| 0 <= j < fs2.len() implies (#[trigger] fs2[j]).0@ != other by {
            if j != k {
                assert(fs2[j] == fs[j]);
            }
        }
        lemma_field_none(fs, other);
        lemma_field_none(fs2, other);
    }
}

/// The text and true/false index of the documents, per field path.
#[derive(Debug)]
pub struct FilterIndex {
    fields: Vec<(String, FieldIndex)>,
}

impl FilterIndex {
    /// The indexed fields, in the order they were first seen.
    pub closed spec fn fields(&self) -> Seq<(String, FieldIndex)> {
        self.fields@
    }

    /// Whether each path occurs once and each field index is sound.
    pub closed spec fn wf(&self) -> bool {
        fields_wf(self.fields@)
    }

    /// No field.
    pub fn new() -> (x: Self)
        ensures
            x.wf(),
            x.fields().len() == 0,
    {
        FilterIndex { fields: Vec::new() }
    }

    fn field_position(&self, path: &str) -> (r: Option<usize>)
        ensures
            match r {
                Some(k) => k < self.fields@.len() && self.fields@[k as int].0@ == path@ && forall|j: int|
                    0 <= j < k ==> (#[trigger] self.fields@[j]).0@ != path@,
                None => forall|j: int| 0 <= j < self.fields@.len() ==> (#[trigger] self.fields@[j]).0@ != path@,
            },
    {
        let mut i: usize = 0;
        while i < self.fields.len()
            invariant
                i <= self.fields@.len(),
                forall|j: int| 0 <= j < i ==> (#[trigger] self.fields@[j]).0@ != path@,
            decreases self.fields.len() - i,
        {
            if str_equal(self.fields[i].0.as_str(), path) {
                return Some(i);
            }
            i = i + 1;
        }
        None
    }

    /// The position of the field at `path`, made empty first if it is new;
    /// what it holds is what the index held at `path` (nothing if new).
    fn ensure_field(&mut self, path: &str) -> (k: usize)
        requires
            old(self).wf(),
        ensures
            final(self).wf(),
            k < final(self).fields@.len(),
            final(self).fields@[k as int].0@ == path@,
            forall|j: int| 0 <= j < k ==> (#[trigger] final(self).fields@[j]).0@ != path@,
            field_at(final(self).fields@, path@) == Some(final(self).fields@[k as int].1),
            field_at(old(self).fields@, path@) is Some ==> final(self).fields@ == old(self).fields@,
            field_at(old(self).fields@, path@) is None ==> final(self).fields@[k as int].1.values.entries().len() == 0
                && final(self).fields@[k as int].1.words.entries().len() == 0
                && final(self).fields@[k as int].1.numbers@.len() == 0,
            forall|kk: Seq<char>| #[trigger] values_of(Some(final(self).fields@[k as int].1), kk) == values_of(field_at(old(self).fields@, path@), kk),
            forall|kk: Seq<char>| #[trigger] words_of(Some(final(self).fields@[k as int].1), kk) == words_of(field_at(old(self).fields@, path@), kk),
            numbers_of(Some(final(self).fields@[k as int].1)) == numbers_of(field_at(old(self).fields@, path@)),
            forall|p: Seq<char>| p != path@ ==> #[trigger] field_at(final(self).fields@, p) == field_at(old(self).fields@, p),
    {
        match self.field_position(path) {
            Some(k) => {
                proof {
                    lemma_field_found(self.fields@, k as int, path@);
                }
                k
            },
            None => {
                proof {
                    lemma_field_none(self.fields@, path@);
                }
                let ghost f0 = self.fields@;
                self.fields.push((String::from_str(path), FieldIndex::new()));
                proof {
                    let f1 = self.fields@;
                    assert forall|i: int, j: int| 0 <= i < j < f1.len() implies (#[trigger] f1[i]).0@ != (
                    #[trigger] f1[j]).0@ by {
                        assert(f1[i] == f0[i]);
                        if j < f0.len() {
                            assert(f1[j] == f0[j]);
                        }
                    }
                    assert forall|i: int| 0 <= i < f1.len() implies (#[trigger] f1[i]).1.wf() by {
                        if i < f0.len() {
                            assert(f1[i] == f0[i]);
                        }
                    }
                    assert forall|j: int| 0 <= j < f0.len() implies (#[trigger] f1[j]).0@ != path@ by {
                        assert(f1[j] == f0[j]);
                    }
                    lemma_field_found(f1, f0.len() as int, path@);
                    assert forall|p: Seq<char>| p != path@ implies #[trigger] field_at(f1, p) == field_at(f0, p) by {
                        lemma_field_pushed(f0, f1.last(), p);
                    }
                    let g = f1[f0.len() as int].1;
                    assert forall|kk: Seq<char>| #[trigger] values_of(Some(g), kk) == values_of(field_at(f0, path@), kk) by {
                        lemma_ids_in_none(g.values.entries(), kk);
                    }
                    assert forall|kk: Seq<char>| #[trigger] words_of(Some(g), kk) == words_of(field_at(f0, path@), kk) by {
                        lemma_ids_in_none(g.words.entries(), kk);
                    }
                    assert(number_entries(g.numbers@) =~= Seq::<(u64, Seq<char>)>::empty());
                }
                self.fields.len() - 1
            },
        }
    }

    /// Records that documents have a leaf at `path` that holds nothing to
    /// look up (a null): the field exists from now on.
    pub fn touch_field(&mut self, path: &str)
        requires
            old(self).wf(),
        ensures
            final(self).wf(),
            field_at(old(self).fields(), path@) is Some ==> final(self).fields() == old(self).fields(),
            field_at(old(self).fields(), path@) matches None ==> field_at(final(self).fields(), path@) matches Some(f)
                && f.values.entries().len() == 0 && f.words.entries().len() == 0 && f.numbers@.len() == 0,
            forall|p: Seq<char>| p != path@ ==> #[trigger] field_at(final(self).fields(), p) == field_at(old(self).fields(), p),
    {
        self.ensure_field(path);
    }
}

/// Putting a sound field index back at the position of `path` keeps the
/// fields sound, and changes what is found at `path` only.
proof fn lemma_field_put(f1: Seq<(String, FieldIndex)>, k: int, g: FieldIndex, path: Seq<char>)
    requires
        fields_wf(f1),
        0 <= k < f1.len(),
        f1[k].0@ == path,
        forall|j: int| 0 <= j < k ==> (#[trigger] f1[j]).0@ != path,
        g.wf(),
    ensures
        fields_wf(f1.update(k, (f1[k].0, g))),
        field_at(f1.update(k, (f1[k].0, g)), path) == Some(g),
        forall|p: Seq<char>| p != path ==> #[trigger] field_at(f1.update(k, (f1[k].0, g)), p) == field_at(f1, p),
{
    let f2 = f1.update(k, (f1[k].0, g));
    assert forall|i: int, j: int| 0 <= i < j < f2.len() implies (#[trigger] f2[i]).0@ != (#[trigger] f2[j]).0@ by {
        assert(f2[i].0 == f1[i].0);
        assert(f2[j].0 == f1[j].0);
    }
    assert forall|i: int| 0 <= i < f2.len() implies (#[trigger] f2[i]).1.wf() by {
        if i != k {
            assert(f2[i] == f1[i]);
        }
    }
    assert forall|j: int| 0 <= j < k implies (#[trigger] f2[j]).0@ != path by {
        assert(f2[j] == f1[j]);
    }
    lemma_field_found(f2, k, path);
    assert forall|p: Seq<char>| p != path implies #[trigger] field_at(f2, p) == field_at(f1, p) by {
        lemma_field_replaced(f1, k, f2[k], p);
    }
}


/// The documents of field `f` under the exact value `k` (none without a field).
pub open spec fn values_of(f: Option<FieldIndex>, k: Seq<char>) -> Seq<Seq<char>> {
    match f {
        Some(x) => ids_in(x.values.entries(), k),
        None => Seq::empty(),
    }
}

/// The number entries of field `f` (none without a field).
pub open spec fn numbers_of(f: Option<FieldIndex>) -> Seq<(u64, Seq<char>)> {
    match f {
        Some(x) => number_entries(x.numbers@),
        None => Seq::empty(),
    }
}

/// The documents of field `f` under the lower-case word `k` (none without a field).
pub open spec fn words_of(f: Option<FieldIndex>, k: Seq<char>) -> Seq<Seq<char>> {
    match f {
        Some(x) => ids_in(x.words.entries(), k),
        None => Seq::empty(),
    }
}

/// The hits of the words `ws` in field `f`, word after word.
pub open spec fn hits_for_words(f: Option<FieldIndex>, ws: Seq<Seq<char>>) -> Seq<Seq<char>>
    decreases ws.len(),
{
    if ws.len() == 0 {
        Seq::empty()
    } else {
        hits_for_words(f, ws.drop_last()) + words_of(f, lowercase(ws.last()))
    }
}

/// The hits of the words `ws` in the fields named `names`, field after field.
pub open spec fn text_hits(fs: Seq<(String, FieldIndex)>, names: Seq<Seq<char>>, ws: Seq<Seq<char>>) -> Seq<Seq<char>>
    decreases names.len(),
{
    if names.len() == 0 {
        Seq::empty()
    } else {
        text_hits(fs, names.drop_last(), ws) + hits_for_words(field_at(fs, names.last()), ws)
    }
}

/// Every document listed under an exact value, field after field.
pub open spec fn value_hits(fs: Seq<(String, FieldIndex)>) -> Seq<Seq<char>>
    decreases fs.len(),
{
    if fs.len() == 0 {
        Seq::empty()
    } else {
        value_hits(fs.drop_last()) + entries_ids(fs.last().1.values.entries())
    }
}

/// Every document with a number, a word or an exact value, field after
/// field.
pub open spec fn indexed_hits(fs: Seq<(String, FieldIndex)>) -> Seq<Seq<char>>
    decreases fs.len(),
{
    if fs.len() == 0 {
        Seq::empty()
    } else {
        indexed_hits(fs.drop_last()) + number_ids(fs.last().1.numbers@) + entries_ids(fs.last().1.words.entries())
            + entries_ids(fs.last().1.values.entries())
    }
}

impl FilterIndex {
    /// Takes the field at position `k` out, leaving an empty one in its place.
    fn take_field(&mut self, k: usize) -> (f: FieldIndex)
        requires
            old(self).wf(),
            k < old(self).fields@.len(),
        ensures
            f == old(self).fields@[k as int].1,
            final(self).fields@.len() == old(self).fields@.len(),
            forall|j: int| 0 <= j < old(self).fields@.len() && j != k ==> final(self).fields@[j] == old(self).fields@[j],
            final(self).fields@[k as int].0 == old(self).fields@[k as int].0,
    {
        let mut all = Vec::new();
        std::mem::swap(&mut all, &mut self.fields);
        let (name, f) = all.remove(k);
        all.insert(k, (name, FieldIndex::new()));
        std::mem::swap(&mut all, &mut self.fields);
        f
    }

    /// Puts `f` back at position `k`.
    fn put_field(&mut self, k: usize, f: FieldIndex)
        requires
            k < old(self).fields@.len(),
        ensures
            final(self).fields@ == old(self).fields@.update(k as int, (old(self).fields@[k as int].0, f)),
    {
        let mut all = Vec::new();
        std::mem::swap(&mut all, &mut self.fields);
        let (name, _) = all.remove(k);
        all.insert(k, (name, f));
        std::mem::swap(&mut all, &mut self.fields);
        assert(self.fields@ =~= old(self).fields@.update(k as int, (old(self).fields@[k as int].0, f)));
    }

    /// Indexes document `id` under the text `value` of the field at `path`
    /// (see [`FieldIndex::index_text`]); other fields are unchanged.
    pub fn index_text_leaf(&mut self, id: &str, path: &str, value: &str)
        requires
            old(self).wf(),
        ensures
            final(self).wf(),
            field_at(final(self).fields(), path@) is Some,
            forall|k: Seq<char>| #[trigger] values_of(field_at(final(self).fields(), path@), k) == if k == value@ {
                values_of(field_at(old(self).fields(), path@), k).push(id@)
            } else {
                values_of(field_at(old(self).fields(), path@), k)
            },
            forall|k: Seq<char>| #[trigger] words_of(field_at(final(self).fields(), path@), k) == words_of(
                field_at(old(self).fields(), path@),
                k,
            ) + repeated(id@, occurrences(lowered(words(value@)), k)),
            numbers_of(field_at(final(self).fields(), path@)) == numbers_of(field_at(old(self).fields(), path@)),
            forall|p: Seq<char>| p != path@ ==> #[trigger] field_at(final(self).fields(), p) == field_at(old(self).fields(), p),
    {
        let k = self.ensure_field(path);
        let ghost f1 = self.fields@;
        let mut f = self.take_field(k);
        f.index_text(id, value);
        self.put_field(k, f);
        proof {
            assert(self.fields@ =~= f1.update(k as int, (f1[k as int].0, f)));
            lemma_field_put(f1, k as int, f, path@);
        }
    }

    /// Indexes document `id` under the true/false value `b` of the field at
    /// `path` (see [`FieldIndex::index_bool`]); other fields are unchanged.
    pub fn index_bool_leaf(&mut self, id: &str, path: &str, b: bool)
        requires
            old(self).wf(),
        ensures
            final(self).wf(),
            field_at(final(self).fields(), path@) is Some,
            forall|k: Seq<char>| #[trigger] values_of(field_at(final(self).fields(), path@), k) == if k == (if b {
                "true"@
            } else {
                "false"@
            }) {
                values_of(field_at(old(self).fields(), path@), k).push(id@)
            } else {
                values_of(field_at(old(self).fields(), path@), k)
            },
            forall|k: Seq<char>| #[trigger] words_of(field_at(final(self).fields(), path@), k) == words_of(
                field_at(old(self).fields(), path@),
                k,
            ),
            numbers_of(field_at(final(self).fields(), path@)) == numbers_of(field_at(old(self).fields(), path@)),
            forall|p: Seq<char>| p != path@ ==> #[trigger] field_at(final(self).fields(), p) == field_at(old(self).fields(), p),
    {
        let k = self.ensure_field(path);
        let ghost f1 = self.fields@;
        let mut f = self.take_field(k);
        f.index_bool(id, b);
        self.put_field(k, f);
        proof {
            assert(self.fields@ =~= f1.update(k as int, (f1[k as int].0, f)));
            lemma_field_put(f1, k as int, f, path@);
        }
    }

    /// Records that document `id` has, in the field at `path`, the number
    /// the caller keeps under `handle` (see [`FieldIndex::index_number`]);
    /// other fields are unchanged.
    pub fn index_number_leaf(&mut self, id: &str, path: &str, handle: u64)
        requires
            old(self).wf(),
        ensures
            final(self).wf(),
            field_at(final(self).fields(), path@) is Some,
            forall|k: Seq<char>| #[trigger] values_of(field_at(final(self).fields(), path@), k) == values_of(
                field_at(old(self).fields(), path@),
                k,
            ),
            forall|k: Seq<char>| #[trigger] words_of(field_at(final(self).fields(), path@), k) == words_of(
                field_at(old(self).fields(), path@),
                k,
            ),
            numbers_of(field_at(final(self).fields(), path@)) == numbers_of(field_at(old(self).fields(), path@)).push(
                (handle, id@),
            ),
            forall|p: Seq<char>| p != path@ ==> #[trigger] field_at(final(self).fields(), p) == field_at(old(self).fields(), p),
    {
        let k = self.ensure_field(path);
        let ghost f1 = self.fields@;
        let mut f = self.take_field(k);
        f.index_number(id, handle);
        self.put_field(k, f);
        proof {
            assert(self.fields@ =~= f1.update(k as int, (f1[k as int].0, f)));
            lemma_field_put(f1, k as int, f, path@);
            assert forall|kk: Seq<char>| #[trigger] values_of(Some(f), kk) == values_of(Some(f1[k as int].1), kk) by {}
            assert forall|kk: Seq<char>| #[trigger] words_of(Some(f), kk) == words_of(Some(f1[k as int].1), kk) by {}
        }
    }

    /// The number entries of the field at `path`, in the order they came.
    pub fn numbers_at(&self, path: &str) -> (r: Vec<(u64, String)>)
        requires
            self.wf(),
        ensures
            number_entries(r@) == numbers_of(field_at(self.fields(), path@)),
    {
        let mut r: Vec<(u64, String)> = Vec::new();
        match self.field_position(path) {
            Some(k) => {
                proof {
                    lemma_field_found(self.fields@, k as int, path@);
                }
                let ns = &self.fields[k].1.numbers;
                let mut i: usize = 0;
                while i < ns.len()
                    invariant
                        i <= ns@.len(),
                        number_entries(r@) == number_entries(ns@.subrange(0, i as int)),
                    decreases ns.len() - i,
                {
                    let ghost r0 = r@;
                    let (h, d) = &ns[i];
                    r.push((*h, d.clone()));
                    assert(number_entries(r@) =~= number_entries(r0).push((ns@[i as int].0, ns@[i as int].1@)));
                    assert(number_entries(ns@.subrange(0, i + 1)) =~= number_entries(ns@.subrange(0, i as int)).push(
                        (ns@[i as int].0, ns@[i as int].1@),
                    ));
                    i = i + 1;
                }
                assert(ns@.subrange(0, ns@.len() as int) =~= ns@);
            },
            None => {
                proof {
                    lemma_field_none(self.fields@, path@);
                }
                assert(number_entries(r@) =~= Seq::<(u64, Seq<char>)>::empty());
            },
        }
        r
    }
    /// Whether a field at `path` is indexed.
    pub fn has_field(&self, path: &str) -> (r: bool)
        ensures
            r == field_at(self.fields(), path@) is Some,
    {
        match self.field_position(path) {
            Some(k) => {
                proof {
                    lemma_field_found(self.fields@, k as int, path@);
                }
                true
            },
            None => {
                proof {
                    lemma_field_none(self.fields@, path@);
                }
                false
            },
        }
    }

    /// The number of indexed fields.
    pub fn indexed_fields(&self) -> (n: usize)
        ensures
            n == self.fields().len(),
    {
        self.fields.len()
    }

    /// The documents whose field at `path` holds exactly `value` (an
    /// equality on a text, or on a nested text field).
    pub fn equal_ids(&self, path: &str, value: &str) -> (r: Vec<String>)
        requires
            self.wf(),
        ensures
            views(r@) == values_of(field_at(self.fields(), path@), value@),
    {
        match self.field_position(path) {
            Some(k) => {
                proof {
                    lemma_field_found(self.fields@, k as int, path@);
                }
                self.fields[k].1.values.get(value)
            },
            None => {
                proof {
                    lemma_field_none(self.fields@, path@);
                }
                let r: Vec<String> = Vec::new();
                assert(views(r@) =~= Seq::<Seq<char>>::empty());
                r
            },
        }
    }

    /// The documents whose field at `path` holds a value containing `sub`,
    /// sorted and without repeats.
    pub fn contains_ids(&self, path: &str, sub: &str) -> (r: Vec<String>)
        requires
            self.wf(),
        ensures
            strictly_ascending(views(r@)),
            forall|x: Seq<char>| views(r@).contains(x) <==> (match field_at(self.fields(), path@) {
                Some(f) => sub_hits(f.values.entries(), sub@),
                None => Seq::empty(),
            }).contains(x),
    {
        let mut acc: Vec<String> = Vec::new();
        match self.field_position(path) {
            Some(k) => {
                proof {
                    lemma_field_found(self.fields@, k as int, path@);
                }
                self.fields[k].1.values.append_with_substring(sub, &mut acc);
                assert(views(acc@) =~= sub_hits(self.fields@[k as int].1.values.entries(), sub@));
            },
            None => {
                proof {
                    lemma_field_none(self.fields@, path@);
                }
                assert(views(acc@) =~= Seq::<Seq<char>>::empty());
            },
        }
        sorted_unique(acc)
    }

    /// The documents found by a full-text search of `query` in the fields
    /// `names`: those listed under the lower-case form of a word of the
    /// query, sorted and without repeats.
    pub fn text_search(&self, names: &Vec<String>, query: &str) -> (r: Vec<String>)
        requires
            self.wf(),
        ensures
            strictly_ascending(views(r@)),
            forall|x: Seq<char>| views(r@).contains(x) <==> text_hits(self.fields(), views(names@), words(query@)).contains(x),
    {
        let ws = split_words(query);
        let mut acc: Vec<String> = Vec::new();
        let mut i: usize = 0;
        while i < names.len()
            invariant
                self.wf(),
                i <= names@.len(),
                views(ws@) == words(query@),
                views(acc@) == text_hits(self.fields@, views(names@.subrange(0, i as int)), views(ws@)),
            decreases names.len() - i,
        {
            let ghost before = views(acc@);
            let ghost fld = field_at(self.fields@, names@[i as int]@);
            match self.field_position(names[i].as_str()) {
                Some(k) => {
                    proof {
                        lemma_field_found(self.fields@, k as int, names@[i as int]@);
                    }
                    let mut j: usize = 0;
                    while j < ws.len()
                        invariant
                            self.wf(),
                            k < self.fields@.len(),
                            fld == Some(self.fields@[k as int].1),
                            j <= ws@.len(),
                            views(acc@) == before + hits_for_words(fld, views(ws@.subrange(0, j as int))),
                        decreases ws.len() - j,
                    {
                        let low = to_lowercase(ws[j].as_str());
                        let hits = self.fields[k].1.words.get(low.as_str());
                        let ghost a0 = views(acc@);
                        append_copy(&mut acc, &hits);
                        proof {
                            assert(views(ws@.subrange(0, j + 1)).drop_last() =~= views(ws@.subrange(0, j as int)));
                            assert(views(ws@.subrange(0, j + 1)).last() == ws@[j as int]@);
                            assert(views(acc@) =~= before + hits_for_words(fld, views(ws@.subrange(0, j + 1))));
                        }
                        j = j + 1;
                    }
                    assert(ws@.subrange(0, ws@.len() as int) =~= ws@);
                },
                None => {
                    proof {
                        lemma_field_none(self.fields@, names@[i as int]@);
                        lemma_no_hits(views(ws@));
                        assert(views(acc@) =~= before + hits_for_words(fld, views(ws@)));
                    }
                },
            }
            proof {
                assert(views(names@.subrange(0, i + 1)).drop_last() =~= views(names@.subrange(0, i as int)));
                assert(views(names@.subrange(0, i + 1)).last() == names@[i as int]@);
            }
            i = i + 1;
        }
        assert(names@.subrange(0, names@.len() as int) =~= names@);
        sorted_unique(acc)
    }

    /// The documents with some exact value indexed (the existence test on
    /// nested fields), sorted and without repeats.
    pub fn value_ids(&self) -> (r: Vec<String>)
        ensures
            strictly_ascending(views(r@)),
            forall|x: Seq<char>| views(r@).contains(x) <==> value_hits(self.fields()).contains(x),
    {
        let mut acc: Vec<String> = Vec::new();
        let mut i: usize = 0;
        while i < self.fields.len()
            invariant
                i <= self.fields@.len(),
                views(acc@) == value_hits(self.fields@.subrange(0, i as int)),
            decreases self.fields.len() - i,
        {
            let ghost a0 = views(acc@);
            self.fields[i].1.values.append_all(&mut acc);
            assert(self.fields@.subrange(0, i + 1).drop_last() =~= self.fields@.subrange(0, i as int));
            assert(views(acc@) =~= value_hits(self.fields@.subrange(0, i + 1)));
            i = i + 1;
        }
        assert(self.fields@.subrange(0, self.fields@.len() as int) =~= self.fields@);
        sorted_unique(acc)
    }

    /// Every document known to the filter: those with a number, a word or
    /// an exact value, sorted and without repeats.
    pub fn all_ids(&self) -> (r: Vec<String>)
        ensures
            strictly_ascending(views(r@)),
            forall|x: Seq<char>| views(r@).contains(x) <==> indexed_hits(self.fields()).contains(x),
    {
        let mut acc: Vec<String> = Vec::new();
        let mut i: usize = 0;
        while i < self.fields.len()
            invariant
                i <= self.fields@.len(),
                views(acc@) == indexed_hits(self.fields@.subrange(0, i as int)),
            decreases self.fields.len() - i,
        {
            append_number_ids(&mut acc, &self.fields[i].1.numbers);
            self.fields[i].1.words.append_all(&mut acc);
            self.fields[i].1.values.append_all(&mut acc);
            assert(self.fields@.subrange(0, i + 1).drop_last() =~= self.fields@.subrange(0, i as int));
            assert(views(acc@) =~= indexed_hits(self.fields@.subrange(0, i + 1)));
            i = i + 1;
        }
        assert(self.fields@.subrange(0, self.fields@.len() as int) =~= self.fields@);
        sorted_unique(acc)
    }
}

/// `acc` followed by the documents of the number entries `ns`.
fn append_number_ids(acc: &mut Vec<String>, ns: &Vec<(u64, String)>)
    ensures
        views(final(acc)@) == views(old(acc)@) + number_ids(ns@),
{
    let mut i: usize = 0;
    while i < ns.len()
        invariant
            i <= ns@.len(),
            views(acc@) == views(old(acc)@) + number_ids(ns@.subrange(0, i as int)),
        decreases ns.len() - i,
    {
        let ghost a0 = acc@;
        acc.push(ns[i].1.clone());
        assert(views(acc@) =~= views(a0).push(ns@[i as int].1@));
        assert(number_ids(ns@.subrange(0, i + 1)) =~= number_ids(ns@.subrange(0, i as int)).push(ns@[i as int].1@));
        i = i + 1;
    }
    assert(ns@.subrange(0, ns@.len() as int) =~= ns@);
}

proof fn lemma_no_hits(ws: Seq<Seq<char>>)
    ensures
        hits_for_words(None, ws) == Seq::<Seq<char>>::empty(),
    decreases ws.len(),
{
    if ws.len() > 0 {
        lemma_no_hits(ws.drop_last());
        assert(Seq::<Seq<char>>::empty() + Seq::<Seq<char>>::empty() =~= Seq::<Seq<char>>::empty());
    }
}

proof fn lemma_field_pushed(fs: Seq<(String, FieldIndex)>, e: (String, FieldIndex), p: Seq<char>)
    requires
        e.0@ != p,
    ensures
        field_at(fs.push(e), p) == field_at(fs, p),
    decreases fs.len(),
{
    if fs.len() > 0 {
        assert(fs.push(e).drop_first() =~= fs.drop_first().push(e));
        assert(fs.push(e)[0] == fs[0]);
        lemma_field_pushed(fs.drop_first(), e, p);
    } else {
        assert(fs.push(e).drop_first() =~= Seq::<(String, FieldIndex)>::empty());
        assert(fs.push(e)[0] == e);
        assert(field_at(fs.push(e).drop_first(), p) is None);
        assert(field_at(fs, p) is None);
    }
}

} // verus!
