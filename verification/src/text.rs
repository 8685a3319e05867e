//! Character classes and the scanning, trimming, splitting and joining of
//! text that the rest of the library is built on.

use vstd::prelude::*;

verus! {

/// The views of a sequence of owned strings.
pub open spec fn str_views(v: Seq<String>) -> Seq<Seq<char>> {
    v.map_values(|s: String| s@)
}

/// The sets of characters that scanning, trimming and splitting work over.
#[derive(Clone, Copy, PartialEq, Eq, Structural)]
pub enum CharClass {
    /// Whitespace, as tokenization understands it: the characters with the
    /// Unicode White_Space property, written out one by one.
    Space,
    /// The line separator.
    Newline,
    /// The separator between conditions in a declaration line.
    Comma,
    /// The character that opens a condition's argument.
    OpenParen,
    /// The separator between the bounds of a range expression.
    Colon,
    /// The characters that dress a conditions declaration: the marker and
    /// the enclosing brackets.
    CondDress,
    /// The parentheses around a condition's argument.
    Paren,
    /// The brackets around a placeholder's range expression.
    Bracket,
}

/// The Unicode White_Space set: tab through carriage return, space, next
/// line, no-break space, ogham space mark, the en-quad to hair-space run,
/// the two line and paragraph separators, narrow no-break space, medium
/// mathematical space, and ideographic space.
pub open spec fn is_white_space(c: char) -> bool {
    c == '\u{0009}' || c == '\u{000A}' || c == '\u{000B}' || c == '\u{000C}' || c == '\u{000D}'
        || c == '\u{0020}' || c == '\u{0085}' || c == '\u{00A0}' || c == '\u{1680}'
        || c == '\u{2000}' || c == '\u{2001}' || c == '\u{2002}' || c == '\u{2003}'
        || c == '\u{2004}' || c == '\u{2005}' || c == '\u{2006}' || c == '\u{2007}'
        || c == '\u{2008}' || c == '\u{2009}' || c == '\u{200A}' || c == '\u{2028}'
        || c == '\u{2029}' || c == '\u{202F}' || c == '\u{205F}' || c == '\u{3000}'
}

pub open spec fn in_class(cls: CharClass, c: char) -> bool {
    match cls {
        CharClass::Space => is_white_space(c),
        CharClass::Newline => c == '\n',
        CharClass::Comma => c == ',',
        CharClass::OpenParen => c == '(',
        CharClass::Colon => c == ':',
        CharClass::CondDress => c == '#' || c == '[' || c == ']',
        CharClass::Paren => c == '(' || c == ')',
        CharClass::Bracket => c == '[' || c == ']',
    }
}

pub fn char_in_class(cls: CharClass, c: char) -> (b: bool)
    ensures
        b == in_class(cls, c),
{
    match cls {
        CharClass::Space => c == '\u{0009}' || c == '\u{000A}' || c == '\u{000B}'
            || c == '\u{000C}' || c == '\u{000D}' || c == '\u{0020}' || c == '\u{0085}'
            || c == '\u{00A0}' || c == '\u{1680}' || c == '\u{2000}' || c == '\u{2001}'
            || c == '\u{2002}' || c == '\u{2003}' || c == '\u{2004}' || c == '\u{2005}'
            || c == '\u{2006}' || c == '\u{2007}' || c == '\u{2008}' || c == '\u{2009}'
            || c == '\u{200A}' || c == '\u{2028}' || c == '\u{2029}' || c == '\u{202F}'
            || c == '\u{205F}' || c == '\u{3000}',
        CharClass::Newline => c == '\n',
        CharClass::Comma => c == ',',
        CharClass::OpenParen => c == '(',
        CharClass::Colon => c == ':',
        CharClass::CondDress => c == '#' || c == '[' || c == ']',
        CharClass::Paren => c == '(' || c == ')',
        CharClass::Bracket => c == '[' || c == ']',
    }
}

/// The index of the first character of `s` that lies in `cls`, or `s.len()`
/// when none does.
pub open spec fn scan_to(s: Seq<char>, cls: CharClass) -> int
    decreases s.len(),
{
    if s.len() == 0 {
        0
    } else if in_class(cls, s[0]) {
        0
    } else {
        1 + scan_to(s.subrange(1, s.len() as int), cls)
    }
}

pub proof fn lemma_scan_to(s: Seq<char>, cls: CharClass)
    ensures
        0 <= scan_to(s, cls) <= s.len(),
        scan_to(s, cls) < s.len() ==> in_class(cls, s[scan_to(s, cls)]),
        forall|j: int| 0 <= j < scan_to(s, cls) ==> !in_class(cls, s[j]),
    decreases s.len(),
{
    if s.len() == 0 {
    } else if in_class(cls, s[0]) {
    } else {
        let t = s.subrange(1, s.len() as int);
        lemma_scan_to(t, cls);
        assert forall|j: int| 0 <= j < scan_to(s, cls) implies !in_class(cls, s[j]) by {
            if j > 0 {
                assert(s[j] == t[j - 1]);
            }
        }
    }
}

pub proof fn lemma_scan_to_is(s: Seq<char>, cls: CharClass, i: int)
    requires
        0 <= i <= s.len(),
        forall|j: int| 0 <= j < i ==> !in_class(cls, s[j]),
        i < s.len() ==> in_class(cls, s[i]),
    ensures
        scan_to(s, cls) == i,
    decreases s.len(),
{
    if s.len() == 0 {
    } else if in_class(cls, s[0]) {
        assert(i == 0);
    } else {
        let t = s.subrange(1, s.len() as int);
        assert(forall|j: int| 0 <= j < i - 1 ==> t[j] == s[j + 1]);
        assert(i - 1 < t.len() ==> t[i - 1] == s[i]);
        lemma_scan_to_is(t, cls, i - 1);
    }
}

/// The index of the first character of `s` in `cls`, or its length when none is.
pub fn find_class(s: &str, cls: CharClass) -> (r: usize)
    ensures
        r == scan_to(s@, cls),
{
    let n = s.unicode_len();
    let mut i: usize = 0;
    while i < n
        invariant
            0 <= i <= n,
            n == s@.len(),
            forall|j: int| 0 <= j < i ==> !in_class(cls, s@[j]),
        decreases n - i,
    {
        let c = s.get_char(i);
        if char_in_class(cls, c) {
            proof {
                lemma_scan_to_is(s@, cls, i as int);
            }
            return i;
        }
        i += 1;
    }
    proof {
        lemma_scan_to_is(s@, cls, n as int);
    }
    n
}

/// The index of the first character of `s` that lies outside `cls`, or
/// `s.len()` when all of `s` is in `cls`.
pub open spec fn ltrim_at(s: Seq<char>, cls: CharClass) -> int
    decreases s.len(),
{
    if s.len() == 0 {
        0
    } else if !in_class(cls, s[0]) {
        0
    } else {
        1 + ltrim_at(s.subrange(1, s.len() as int), cls)
    }
}

pub proof fn lemma_ltrim_at_is(s: Seq<char>, cls: CharClass, i: int)
    requires
        0 <= i <= s.len(),
        forall|j: int| 0 <= j < i ==> in_class(cls, s[j]),
        i < s.len() ==> !in_class(cls, s[i]),
    ensures
        ltrim_at(s, cls) == i,
    decreases s.len(),
{
    if s.len() == 0 {
    } else if !in_class(cls, s[0]) {
        assert(i == 0);
    } else {
        let t = s.subrange(1, s.len() as int);
        assert(forall|j: int| 0 <= j < i - 1 ==> t[j] == s[j + 1]);
        assert(i - 1 < t.len() ==> t[i - 1] == s[i]);
        lemma_ltrim_at_is(t, cls, i - 1);
    }
}

/// One past the index of the last character of `s` outside `cls`, or `0`
/// when all of `s` is in `cls`.
pub open spec fn rtrim_at(s: Seq<char>, cls: CharClass) -> int
    decreases s.len(),
{
    if s.len() == 0 {
        0
    } else if !in_class(cls, s[s.len() - 1]) {
        s.len() as int
    } else {
        rtrim_at(s.subrange(0, s.len() - 1), cls)
    }
}

pub proof fn lemma_rtrim_at_is(s: Seq<char>, cls: CharClass, b: int)
    requires
        0 <= b <= s.len(),
        forall|j: int| b <= j < s.len() ==> in_class(cls, s[j]),
        b > 0 ==> !in_class(cls, s[b - 1]),
    ensures
        rtrim_at(s, cls) == b,
    decreases s.len(),
{
    if s.len() == 0 {
    } else if !in_class(cls, s[s.len() - 1]) {
        assert(b == s.len());
    } else {
        let t = s.subrange(0, s.len() - 1);
        assert(b < s.len());
        assert(forall|j: int| b <= j < t.len() ==> t[j] == s[j]);
        assert(b > 0 ==> t[b - 1] == s[b - 1]);
        lemma_rtrim_at_is(t, cls, b);
    }
}

/// `s` with every leading and every trailing character in `cls` removed.
pub open spec fn trimmed(s: Seq<char>, cls: CharClass) -> Seq<char> {
    if ltrim_at(s, cls) >= rtrim_at(s, cls) {
        Seq::empty()
    } else {
        s.subrange(ltrim_at(s, cls), rtrim_at(s, cls))
    }
}

/// `s` without its leading and trailing characters of `cls`.
pub fn trim_class(s: &str, cls: CharClass) -> (r: String)
    ensures
        r@ == trimmed(s@, cls),
{
    let n = s.unicode_len();
    let mut a: usize = 0;
    while a < n && char_in_class(cls, s.get_char(a))
        invariant
            0 <= a <= n,
            n == s@.len(),
            forall|j: int| 0 <= j < a ==> in_class(cls, s@[j]),
        decreases n - a,
    {
        a += 1;
    }
    proof {
        lemma_ltrim_at_is(s@, cls, a as int);
    }
    if a == n {
        proof {
            lemma_rtrim_at_is(s@, cls, 0);
        }
        return String::new();
    }
    let mut b: usize = n;
    while b > a && char_in_class(cls, s.get_char(b - 1))
        invariant
            a <= b <= n,
            n == s@.len(),
            a < n,
            !in_class(cls, s@[a as int]),
            forall|j: int| b <= j < n ==> in_class(cls, s@[j]),
        decreases b,
    {
        b -= 1;
    }
    proof {
        lemma_rtrim_at_is(s@, cls, b as int);
    }
    s.substring_char(a, b).to_owned()
}

/// `s` split at every character of `cls`; separators are dropped, adjacent
/// separators yield empty pieces, and a string free of separators yields
/// itself as the one piece.
pub open spec fn split_on(s: Seq<char>, cls: CharClass) -> Seq<Seq<char>>
    decreases s.len(),
    via split_on_decreases
{
    let k = scan_to(s, cls);
    if k == s.len() {
        seq![s]
    } else {
        seq![s.subrange(0, k)] + split_on(s.subrange(k + 1, s.len() as int), cls)
    }
}

#[via_fn]
proof fn split_on_decreases(s: Seq<char>, cls: CharClass) {
    lemma_scan_to(s, cls);
}

/// Splits `s` at every character of `cls`.
pub fn split_class(s: &str, cls: CharClass) -> (r: Vec<String>)
    ensures
        str_views(r@) == split_on(s@, cls),
    decreases s@.len(),
{
    proof {
        lemma_scan_to(s@, cls);
    }
    let n = s.unicode_len();
    let k = find_class(s, cls);
    if k == n {
        let mut r: Vec<String> = Vec::new();
        r.push(s.to_owned());
        proof {
            assert(str_views(r@) =~= split_on(s@, cls));
        }
        r
    } else {
        let head = s.substring_char(0, k).to_owned();
        let rest = s.substring_char(k + 1, n);
        let ghost hv = head@;
        let mut r = split_class(rest, cls);
        let ghost r0 = r@;
        r.insert(0, head);
        proof {
            assert(str_views(r@) =~= seq![hv] + str_views(r0));
            assert(str_views(r@) =~= split_on(s@, cls));
        }
        r
    }
}

/// The whitespace-split tokens of `s`: maximal runs of non-whitespace
/// characters, in order.
pub open spec fn ws_tokens(s: Seq<char>) -> Seq<Seq<char>>
    decreases s.len(),
    via ws_tokens_decreases
{
    if s.len() == 0 {
        Seq::empty()
    } else if in_class(CharClass::Space, s[0]) {
        ws_tokens(s.subrange(1, s.len() as int))
    } else {
        let k = scan_to(s, CharClass::Space);
        seq![s.subrange(0, k)] + ws_tokens(s.subrange(k, s.len() as int))
    }
}

#[via_fn]
proof fn ws_tokens_decreases(s: Seq<char>) {
    lemma_scan_to(s, CharClass::Space);
    if s.len() > 0 && !in_class(CharClass::Space, s[0]) {
        assert(scan_to(s, CharClass::Space) != 0);
    }
}

/// Splits `s` into its whitespace-separated tokens.
pub fn split_whitespace_tokens(s: &str) -> (r: Vec<String>)
    ensures
        str_views(r@) == ws_tokens(s@),
    decreases s@.len(),
{
    let n = s.unicode_len();
    if n == 0 {
        let r: Vec<String> = Vec::new();
        proof {
            assert(str_views(r@) =~= ws_tokens(s@));
        }
        return r;
    }
    let c = s.get_char(0);
    if char_in_class(CharClass::Space, c) {
        let rest = s.substring_char(1, n);
        split_whitespace_tokens(rest)
    } else {
        proof {
            lemma_scan_to(s@, CharClass::Space);
            assert(scan_to(s@, CharClass::Space) != 0);
        }
        let k = find_class(s, CharClass::Space);
        let tok = s.substring_char(0, k).to_owned();
        let rest = s.substring_char(k, n);
        let ghost tv = tok@;
        let mut r = split_whitespace_tokens(rest);
        let ghost r0 = r@;
        r.insert(0, tok);
        proof {
            assert(str_views(r@) =~= seq![tv] + str_views(r0));
            assert(str_views(r@) =~= ws_tokens(s@));
        }
        r
    }
}

/// The pieces of `ts` joined with one space between each adjacent pair.
pub open spec fn joined_with_spaces(ts: Seq<Seq<char>>) -> Seq<char>
    decreases ts.len(),
{
    if ts.len() == 0 {
        Seq::empty()
    } else if ts.len() == 1 {
        ts[0]
    } else {
        joined_with_spaces(ts.subrange(0, ts.len() - 1)) + seq![' '] + ts[ts.len() - 1]
    }
}

/// Joins the tokens at indices `[start, end)` of `toks` with single spaces.
pub fn join_tokens(toks: &Vec<String>, start: usize, end: usize) -> (r: String)
    requires
        start <= end <= toks@.len(),
    ensures
        r@ == joined_with_spaces(str_views(toks@).subrange(start as int, end as int)),
{
    let ghost all = str_views(toks@);
    let mut r = String::new();
    let mut i = start;
    proof {
        assert(all.subrange(start as int, start as int) =~= Seq::<Seq<char>>::empty());
    }
    while i < end
        invariant
            start <= i <= end <= toks@.len(),
            all == str_views(toks@),
            r@ == joined_with_spaces(all.subrange(start as int, i as int)),
        decreases end - i,
    {
        if i > start {
            r.append(" ");
            proof {
                reveal_strlit(" ");
                assert(" "@ =~= seq![' ']);
            }
        }
        r.append(toks[i].as_str());
        proof {
            let prev = all.subrange(start as int, i as int);
            let cur = all.subrange(start as int, i + 1);
            assert(cur.subrange(0, cur.len() - 1) =~= prev);
            assert(cur[cur.len() - 1] == all[i as int]);
            if i > start {
                assert(r@ =~= joined_with_spaces(prev) + seq![' '] + all[i as int]);
            } else {
                assert(cur.len() == 1);
                assert(r@ =~= all[i as int]);
            }
        }
        i += 1;
    }
    r
}

} // verus!
