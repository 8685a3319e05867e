//! The placeholder expander: one forward scan over the accepted template,
//! substituting each placeholder from the original command's tokens. A
//! placeholder that does not parse, lacks its closing marker, or indexes
//! outside the tokens fails the whole expansion — a defined failure in place
//! of the authoring hazard of an unbounded scan.

use vstd::prelude::*;
use crate::text::{CharClass, trimmed, scan_to, trim_class, find_class, str_views, ws_tokens};
use crate::text::{joined_with_spaces, join_tokens, split_whitespace_tokens};
use crate::search::{find_sub_at, find_in, lemma_find_sub_at};
use crate::num::{parse_ok, digits_val, lemma_digits_val_nonneg, parse_index};

verus! {

/// The opening marker of a placeholder.
pub open spec fn opener() -> Seq<char> {
    "{{command"@
}

/// The closing marker of a placeholder.
pub open spec fn closer() -> Seq<char> {
    "}}"@
}

/// The lengths of the two markers.
pub proof fn lemma_marker_lens()
    ensures
        opener().len() == 9,
        closer().len() == 2,
{
    reveal_strlit("{{command");
    reveal_strlit("}}");
}

/// The substitution a placeholder's bracketed expression calls for: the
/// whole command line when it is empty, one token for a bare index, the
/// space-joined token slice for a `start:end` range (bounds defaulting to
/// `0` and the token count). `None` when a bound does not parse or the
/// indices do not fit the tokens.
pub open spec fn range_value(expr: Seq<char>, toks: Seq<Seq<char>>, full: Seq<char>) -> Option<
    Seq<char>,
> {
    let r = trimmed(expr, CharClass::Bracket);
    if r.len() == 0 {
        Some(full)
    } else if scan_to(r, CharClass::Colon) < r.len() {
        let a = r.subrange(0, scan_to(r, CharClass::Colon));
        let b = r.subrange(scan_to(r, CharClass::Colon) + 1, r.len() as int);
        if (a.len() == 0 || parse_ok(a)) && (b.len() == 0 || parse_ok(b)) {
            let lo = if a.len() == 0 {
                0int
            } else {
                digits_val(a)
            };
            let hi = if b.len() == 0 {
                toks.len() as int
            } else {
                digits_val(b)
            };
            if 0 <= lo <= hi <= toks.len() {
                Some(joined_with_spaces(toks.subrange(lo, hi)))
            } else {
                None
            }
        } else {
            None
        }
    } else {
        if parse_ok(r) && digits_val(r) < toks.len() {
            Some(toks[digits_val(r)])
        } else {
            None
        }
    }
}

/// The expansion of `s` against tokens `toks` and command line `full`: the
/// text up to the first opening marker is kept, the placeholder through the
/// next closing marker is substituted, and the remainder is expanded in
/// turn. `None` when a closing marker is missing or a placeholder is
/// malformed. Substituted text is never scanned again; so the result can
/// still hold marker text, when a token or the command line carries it, or
/// when a substitution completes a marker fragment of the surrounding
/// template text.
pub open spec fn expanded(s: Seq<char>, toks: Seq<Seq<char>>, full: Seq<char>) -> Option<Seq<char>>
    decreases s.len(),
    via expanded_decreases
{
    match find_sub_at(s, opener()) {
        None => Some(s),
        Some(i) => {
            let tail = s.subrange(i + opener().len(), s.len() as int);
            match find_sub_at(tail, closer()) {
                None => None,
                Some(j) => {
                    let inner = tail.subrange(0, j);
                    let rest = tail.subrange(j + closer().len(), tail.len() as int);
                    match range_value(inner, toks, full) {
                        None => None,
                        Some(v) => match expanded(rest, toks, full) {
                            None => None,
                            Some(e) => Some(s.subrange(0, i) + v + e),
                        },
                    }
                },
            }
        },
    }
}

#[via_fn]
proof fn expanded_decreases(s: Seq<char>, toks: Seq<Seq<char>>, full: Seq<char>) {
    lemma_marker_lens();
    lemma_find_sub_at(s, opener());
    match find_sub_at(s, opener()) {
        None => {},
        Some(i) => {
            let tail = s.subrange(i + opener().len(), s.len() as int);
            lemma_find_sub_at(tail, closer());
        },
    }
}

/// Computes the substitution for one placeholder expression.
fn range_value_exec(expr: &str, toks: &Vec<String>, full: &str) -> (r: Option<String>)
    ensures
        match r {
            Some(x) => range_value(expr@, str_views(toks@), full@) == Some(x@),
            None => range_value(expr@, str_views(toks@), full@) is None,
        },
{
    let t = trim_class(expr, CharClass::Bracket);
    let tn = t.as_str().unicode_len();
    if tn == 0 {
        return Some(full.to_owned());
    }
    let k = find_class(t.as_str(), CharClass::Colon);
    proof {
        crate::text::lemma_scan_to(t@, CharClass::Colon);
    }
    if k < tn {
        let a = t.as_str().substring_char(0, k);
        let b = t.as_str().substring_char(k + 1, tn);
        let lo: usize = if a.unicode_len() == 0 {
            0
        } else {
            match parse_index(a) {
                Some(v) => v,
                None => {
                    return None;
                },
            }
        };
        let hi: usize = if b.unicode_len() == 0 {
            toks.len()
        } else {
            match parse_index(b) {
                Some(v) => v,
                None => {
                    return None;
                },
            }
        };
        proof {
            if a@.len() > 0 {
                lemma_digits_val_nonneg(a@);
            }
            if b@.len() > 0 {
                lemma_digits_val_nonneg(b@);
            }
        }
        if lo <= hi && hi <= toks.len() {
            Some(join_tokens(toks, lo, hi))
        } else {
            None
        }
    } else {
        match parse_index(t.as_str()) {
            Some(idx) => {
                if idx < toks.len() {
                    Some(toks[idx].clone())
                } else {
                    None
                }
            },
            None => None,
        }
    }
}

/// Expands every placeholder of `s`.
fn expand_from(s: &str, toks: &Vec<String>, full: &str) -> (r: Option<String>)
    ensures
        match r {
            Some(x) => expanded(s@, str_views(toks@), full@) == Some(x@),
            None => expanded(s@, str_views(toks@), full@) is None,
        },
    decreases s@.len(),
{
    let i = match find_in(s, "{{command") {
        None => {
            return Some(s.to_owned());
        },
        Some(i) => i,
    };
    proof {
        lemma_marker_lens();
        lemma_find_sub_at(s@, opener());
    }
    let n = s.unicode_len();
    let tail = s.substring_char(i + 9, n);
    let j = match find_in(tail, "}}") {
        None => {
            return None;
        },
        Some(j) => j,
    };
    proof {
        lemma_find_sub_at(tail@, closer());
    }
    let tn = tail.unicode_len();
    let inner = tail.substring_char(0, j);
    let rest = tail.substring_char(j + 2, tn);
    let v = match range_value_exec(inner, toks, full) {
        None => {
            return None;
        },
        Some(v) => v,
    };
    let e = match expand_from(rest, toks, full) {
        None => {
            return None;
        },
        Some(e) => e,
    };
    let mut out = s.substring_char(0, i).to_owned();
    out.append(v.as_str());
    out.append(e.as_str());
    proof {
        assert(out@ =~= s@.subrange(0, i as int) + v@ + e@);
    }
    Some(out)
}

/// Expands the accepted suggestion template `suggest` against the tokens of
/// the original command line. `None` exactly when a placeholder is
/// malformed: a defined failure of the whole correction attempt.
pub fn eval_suggest(suggest: &str, last_command: &str) -> (r: Option<String>)
    ensures
        match r {
            Some(x) => expanded(suggest@, ws_tokens(last_command@), last_command@) == Some(x@),
            None => expanded(suggest@, ws_tokens(last_command@), last_command@) is None,
        },
{
    let toks = split_whitespace_tokens(last_command);
    expand_from(suggest, &toks, last_command)
}

} // verus!
