//! The query analysis of hybrid search: what kind of query a text is, and
//! the key under which the fusion weights of each kind are kept.

use vstd::prelude::*;

verus! {

/// The kind of a query, which decides how dense, sparse and text results
/// are weighted.
#[derive(Debug, Clone, Copy, PartialEq, Eq, Structural)]
pub enum QueryType {
    /// A sentence: dense vectors suit it.
    Semantic,
    /// A short term: sparse vectors suit it.
    Keyword,
    /// Anything between.
    Mixed,
}

/// The time of day a query comes at.
#[derive(Debug, Clone, Copy, PartialEq, Eq, Structural)]
pub enum TimeContext {
    WorkingHours,
    RestingHours,
    Weekend,
}

/// Whether `s` holds a space.
pub open spec fn has_space(s: Seq<char>) -> bool {
    exists|i: int| 0 <= i < s.len() && s[i] == ' '
}

/// The kind of the query text whose UTF-8 encoding is `byte_len` bytes
/// long: a sentence of more than 20 bytes with a space is semantic; one of
/// at most 5 bytes, or without a space, is a keyword; the rest is mixed.
pub open spec fn query_kind(byte_len: nat, spaced: bool) -> QueryType {
    if byte_len > 20 && spaced {
        QueryType::Semantic
    } else if byte_len <= 5 || !spaced {
        QueryType::Keyword
    } else {
        QueryType::Mixed
    }
}

fn contains_space(s: &str) -> (r: bool)
    ensures
        r == has_space(s@),
{
    let n = s.unicode_len();
    let mut i: usize = 0;
    while i < n
        invariant
            i <= n,
            n == s@.len(),
            forall|k: int| 0 <= k < i ==> s@[k] != ' ',
        decreases n - i,
    {
        if s.get_char(i) == ' ' {
            return true;
        }
        i = i + 1;
    }
    false
}

/// The kind of the query `text` (see [`query_kind`]).
pub fn classify_query(text: &str) -> (q: QueryType)
    ensures
        q == query_kind(text.len() as nat, has_space(text@)),
{
    let len = text.len();
    let spaced = contains_space(text);
    if len > 20 && spaced {
        QueryType::Semantic
    } else if len <= 5 || !spaced {
        QueryType::Keyword
    } else {
        QueryType::Mixed
    }
}

/// The key under which the fusion weights of `q` are kept.
pub fn query_type_key(q: QueryType) -> (k: &'static str)
    ensures
        q == QueryType::Semantic ==> k@ == "semantic"@,
        q == QueryType::Keyword ==> k@ == "keyword"@,
        q == QueryType::Mixed ==> k@ == "mixed"@,
{
    match q {
        QueryType::Semantic => "semantic",
        QueryType::Keyword => "keyword",
        QueryType::Mixed => "mixed",
    }
}

} // verus!
