//! Substring search and string comparison, with exact contracts.

use vstd::prelude::*;

verus! {

/// `pat` occurs in `text` starting at index `i`.
pub open spec fn matches_at(text: Seq<char>, pat: Seq<char>, i: int) -> bool {
    0 <= i && i + pat.len() <= text.len() && text.subrange(i, i + pat.len()) == pat
}

/// The index of the leftmost occurrence of `pat` in `text`, or `None` when
/// there is none. The empty pattern occurs at index `0`.
pub open spec fn find_sub_at(text: Seq<char>, pat: Seq<char>) -> Option<int>
    decreases text.len(),
{
    if matches_at(text, pat, 0) {
        Some(0int)
    } else if text.len() == 0 {
        None
    } else {
        match find_sub_at(text.subrange(1, text.len() as int), pat) {
            Some(k) => Some(k + 1),
            None => None,
        }
    }
}

/// `pat` occurs somewhere in `text`.
pub open spec fn has_sub(text: Seq<char>, pat: Seq<char>) -> bool {
    find_sub_at(text, pat) is Some
}

proof fn lemma_matches_at_shift(text: Seq<char>, pat: Seq<char>, j: int)
    requires
        j >= 1,
        text.len() >= 1,
    ensures
        matches_at(text, pat, j) == matches_at(text.subrange(1, text.len() as int), pat, j - 1),
{
    let tail = text.subrange(1, text.len() as int);
    if j + pat.len() <= text.len() {
        assert(text.subrange(j, j + pat.len()) =~= tail.subrange(j - 1, j - 1 + pat.len()));
    }
}

/// What the leftmost-occurrence index means: it is an occurrence, and no
/// smaller index is one; `None` means there is no occurrence at all.
pub proof fn lemma_find_sub_at(text: Seq<char>, pat: Seq<char>)
    ensures
        match find_sub_at(text, pat) {
            Some(i) => matches_at(text, pat, i) && forall|j: int|
                0 <= j < i ==> !matches_at(text, pat, j),
            None => forall|j: int| !matches_at(text, pat, j),
        },
    decreases text.len(),
{
    if matches_at(text, pat, 0) {
    } else if text.len() == 0 {
        assert forall|j: int| !matches_at(text, pat, j) by {
            if j != 0 {
                assert(!(0 <= j && j + pat.len() <= text.len())) by {
                    if 0 <= j && j + pat.len() <= text.len() {
                        assert(j == 0);
                    }
                }
            }
        }
    } else {
        let tail = text.subrange(1, text.len() as int);
        lemma_find_sub_at(tail, pat);
        match find_sub_at(tail, pat) {
            Some(k) => {
                lemma_matches_at_shift(text, pat, k + 1);
                assert forall|j: int| 0 <= j < k + 1 implies !matches_at(text, pat, j) by {
                    if j >= 1 {
                        lemma_matches_at_shift(text, pat, j);
                    }
                }
            },
            None => {
                assert forall|j: int| !matches_at(text, pat, j) by {
                    if j >= 1 {
                        lemma_matches_at_shift(text, pat, j);
                    }
                }
            },
        }
    }
}

/// Pins the leftmost-occurrence index from a witness and minimality.
pub proof fn lemma_find_sub_at_is(text: Seq<char>, pat: Seq<char>, i: int)
    requires
        matches_at(text, pat, i),
        forall|j: int| 0 <= j < i ==> !matches_at(text, pat, j),
    ensures
        find_sub_at(text, pat) == Some(i),
{
    lemma_find_sub_at(text, pat);
}

/// Pins the absence of any occurrence.
pub proof fn lemma_find_sub_at_none(text: Seq<char>, pat: Seq<char>)
    requires
        forall|j: int| !matches_at(text, pat, j),
    ensures
        find_sub_at(text, pat) is None,
{
    lemma_find_sub_at(text, pat);
}

/// `pat` occurs in `text` at index `i`.
fn match_at(text: &str, pat: &str, i: usize) -> (b: bool)
    requires
        i + pat@.len() <= text@.len(),
        text@.len() <= usize::MAX,
    ensures
        b == matches_at(text@, pat@, i as int),
{
    let m = pat.unicode_len();
    let mut t: usize = 0;
    while t < m
        invariant
            0 <= t <= m,
            m == pat@.len(),
            i + m <= text@.len(),
            text@.len() <= usize::MAX,
            forall|u: int| 0 <= u < t ==> text@[i + u] == pat@[u],
        decreases m - t,
    {
        if text.get_char(i + t) != pat.get_char(t) {
            proof {
                if matches_at(text@, pat@, i as int) {
                    assert(text@.subrange(i as int, i + m)[t as int] == pat@[t as int]);
                }
            }
            return false;
        }
        t += 1;
    }
    proof {
        assert(text@.subrange(i as int, i + m) =~= pat@);
    }
    true
}

/// The byte-free, character-level leftmost occurrence of `pat` in `text`.
pub fn find_in(text: &str, pat: &str) -> (r: Option<usize>)
    ensures
        match r {
            Some(i) => find_sub_at(text@, pat@) == Some(i as int),
            None => find_sub_at(text@, pat@) is None,
        },
{
    let n = text.unicode_len();
    let m = pat.unicode_len();
    if m > n {
        proof {
            assert forall|j: int| !matches_at(text@, pat@, j) by {}
            lemma_find_sub_at_none(text@, pat@);
        }
        return None;
    }
    let limit = n - m;
    let mut i: usize = 0;
    while i < limit
        invariant
            0 <= i <= limit,
            limit == n - m,
            m <= n,
            n == text@.len(),
            m == pat@.len(),
            forall|j: int| 0 <= j < i ==> !matches_at(text@, pat@, j),
        decreases limit - i,
    {
        if match_at(text, pat, i) {
            proof {
                lemma_find_sub_at_is(text@, pat@, i as int);
            }
            return Some(i);
        }
        i += 1;
    }
    if match_at(text, pat, limit) {
        proof {
            lemma_find_sub_at_is(text@, pat@, limit as int);
        }
        return Some(limit);
    }
    proof {
        assert forall|j: int| !matches_at(text@, pat@, j) by {
            if j > n - m {
                assert(!(j + pat@.len() <= text@.len()));
            }
        }
        lemma_find_sub_at_none(text@, pat@);
    }
    None
}

/// Whether `pat` occurs anywhere in `text`.
pub fn str_contains(text: &str, pat: &str) -> (b: bool)
    ensures
        b == has_sub(text@, pat@),
{
    match find_in(text, pat) {
        Some(_) => true,
        None => false,
    }
}

/// Character-for-character equality of two strings.
pub fn str_eq(a: &str, b: &str) -> (r: bool)
    ensures
        r == (a@ == b@),
{
    let n = a.unicode_len();
    if n != b.unicode_len() {
        return false;
    }
    let mut i: usize = 0;
    while i < n
        invariant
            0 <= i <= n,
            n == a@.len(),
            n == b@.len(),
            forall|j: int| 0 <= j < i ==> a@[j] == b@[j],
        decreases n - i,
    {
        if a.get_char(i) != b.get_char(i) {
            return false;
        }
        i += 1;
    }
    proof {
        assert(a@ =~= b@);
    }
    true
}

/// Whether `s` begins with the character `c`.
pub fn first_char_is(s: &str, c: char) -> (b: bool)
    ensures
        b == (s@.len() > 0 && s@[0] == c),
{
    if s.unicode_len() == 0 {
        false
    } else {
        s.get_char(0) == c
    }
}

} // verus!
