//! The suggestion filter: an unconditional template passes unchanged; a
//! conditional one passes exactly when its declaration line is well-formed
//! and every condition of it parses and evaluates true against the probed
//! environment. A malformed declaration rejects the whole template, so that
//! scanning can go on with the next suggestion.

use vstd::prelude::*;
use crate::text::{CharClass, in_class, scan_to, trimmed, str_views};
use crate::text::{find_class, trim_class, split_class};
use crate::rules::{CondEnv, env_has};
use crate::search::str_eq;

verus! {

/// `d` without a trailing carriage return: the leftover of a `"\r\n"` line
/// ending once the text was cut at the newline.
pub open spec fn strip_trailing_cr(d: Seq<char>) -> Seq<char> {
    if d.len() > 0 && d[d.len() - 1] == '\r' {
        d.subrange(0, d.len() - 1)
    } else {
        d
    }
}

/// The declaration line of a conditional template: everything before the
/// first newline, with the carriage return of a `"\r\n"` ending stripped.
pub open spec fn decl_of(s: Seq<char>) -> Seq<char> {
    strip_trailing_cr(s.subrange(0, scan_to(s, CharClass::Newline)))
}

/// `r` with every `"\r\n"` line ending turned into a bare newline.
pub open spec fn strip_crs(r: Seq<char>) -> Seq<char>
    decreases r.len(),
{
    if r.len() == 0 {
        Seq::empty()
    } else if r.len() >= 2 && r[0] == '\r' && r[1] == '\n' {
        seq!['\n'] + strip_crs(r.subrange(2, r.len() as int))
    } else {
        seq![r[0]] + strip_crs(r.subrange(1, r.len() as int))
    }
}

/// `r` without one trailing newline: the optional final line ending that a
/// join of lines does not reproduce.
pub open spec fn drop_trailing_newline(r: Seq<char>) -> Seq<char> {
    if r.len() > 0 && r[r.len() - 1] == '\n' {
        r.subrange(0, r.len() - 1)
    } else {
        r
    }
}

/// The usable body of a conditional template: the lines after the first,
/// joined with newlines — everything after the first newline, with `"\r\n"`
/// endings normalized and one trailing line terminator dropped. Empty when
/// the template is the declaration line alone.
pub open spec fn body_of(s: Seq<char>) -> Seq<char> {
    if scan_to(s, CharClass::Newline) == s.len() {
        Seq::empty()
    } else {
        drop_trailing_newline(
            strip_crs(s.subrange(scan_to(s, CharClass::Newline) + 1, s.len() as int)),
        )
    }
}

/// Turns every `"\r\n"` of `s` into a bare newline.
fn strip_crs_exec(s: &str) -> (r: String)
    ensures
        r@ == strip_crs(s@),
    decreases s@.len(),
{
    let n = s.unicode_len();
    if n == 0 {
        return String::new();
    }
    if n >= 2 && s.get_char(0) == '\r' && s.get_char(1) == '\n' {
        let rest = strip_crs_exec(s.substring_char(2, n));
        let mut out = String::from_str("\n");
        out.append(rest.as_str());
        proof {
            reveal_strlit("\n");
            assert("\n"@ =~= seq!['\n']);
            assert(out@ =~= strip_crs(s@));
        }
        out
    } else {
        let head = s.substring_char(0, 1);
        let rest = strip_crs_exec(s.substring_char(1, n));
        let mut out = head.to_owned();
        out.append(rest.as_str());
        proof {
            assert(head@ =~= seq![s@[0]]);
            assert(out@ =~= strip_crs(s@));
        }
        out
    }
}

/// A declaration line is well-formed when it opens with the marker and its
/// bracket and closes with the matching bracket.
pub open spec fn decl_wf(decl: Seq<char>) -> bool {
    decl.len() >= 3 && decl[0] == '#' && decl[1] == '[' && decl[decl.len() - 1] == ']'
}

/// The individual condition expressions of a declaration line: the marker
/// and brackets stripped, then split at commas.
pub open spec fn conds_of(decl: Seq<char>) -> Seq<Seq<char>> {
    crate::text::split_on(trimmed(decl, CharClass::CondDress), CharClass::Comma)
}

/// A condition expression is well-formed when, after whitespace is trimmed,
/// it still holds an opening parenthesis to separate name from argument.
pub open spec fn cond_wf(c: Seq<char>) -> bool {
    scan_to(trimmed(c, CharClass::Space), CharClass::OpenParen) < trimmed(
        c,
        CharClass::Space,
    ).len()
}

/// The condition's name: what stands before its first opening parenthesis.
pub open spec fn cond_name(c: Seq<char>) -> Seq<char> {
    let t = trimmed(c, CharClass::Space);
    t.subrange(0, scan_to(t, CharClass::OpenParen))
}

/// The condition's argument: what follows the first opening parenthesis,
/// with enclosing parentheses trimmed.
pub open spec fn cond_arg(c: Seq<char>) -> Seq<char> {
    let t = trimmed(c, CharClass::Space);
    trimmed(t.subrange(scan_to(t, CharClass::OpenParen) + 1, t.len() as int), CharClass::Paren)
}

/// A condition expression holds when it is well-formed, names the one
/// supported condition, and its argument resolved as an executable. An
/// unrecognized or malformed condition never holds (fail-closed).
pub open spec fn cond_holds(c: Seq<char>, ex: Seq<String>) -> bool {
    cond_wf(c) && cond_name(c) == "executable"@ && env_has(ex, cond_arg(c))
}

/// The filter's answer on a raw template: an unconditional template is its
/// own body; a conditional one yields its body exactly when its declaration
/// line is well-formed and every declared condition holds.
pub open spec fn accepted_body(s: Seq<char>, ex: Seq<String>) -> Option<Seq<char>> {
    if s.len() == 0 || s[0] != '#' {
        Some(s)
    } else if !decl_wf(decl_of(s)) {
        None
    } else if forall|k: int|
        0 <= k < conds_of(decl_of(s)).len() ==> cond_holds(conds_of(decl_of(s))[k], ex) {
        Some(body_of(s))
    } else {
        None
    }
}

/// Evaluates one parsed condition. Only the executable-on-path condition is
/// recognized; every other name answers false.
pub fn eval_condition(env: &CondEnv, condition: &str, arg: &str) -> (b: bool)
    ensures
        b == (condition@ == "executable"@ && env_has(env.executables@, arg@)),
{
    if !str_eq(condition, "executable") {
        return false;
    }
    env.has_executable(arg)
}

/// Parses and evaluates one condition expression.
fn eval_cond_expr(c: &str, env: &CondEnv) -> (b: bool)
    ensures
        b == cond_holds(c@, env.executables@),
{
    let t = trim_class(c, CharClass::Space);
    let tn = t.as_str().unicode_len();
    let p = find_class(t.as_str(), CharClass::OpenParen);
    proof {
        crate::text::lemma_scan_to(t@, CharClass::OpenParen);
    }
    if p == tn {
        return false;
    }
    let name = t.as_str().substring_char(0, p);
    let raw_arg = t.as_str().substring_char(p + 1, tn);
    let arg = trim_class(raw_arg, CharClass::Paren);
    eval_condition(env, name, arg.as_str())
}

/// Filters one raw suggestion template. Returns the usable body, or `None`
/// when the declaration line or one of its conditions is malformed, or a
/// condition evaluates false.
pub fn check_suggest(suggest: &str, env: &CondEnv) -> (r: Option<String>)
    ensures
        match r {
            Some(b) => accepted_body(suggest@, env.executables@) == Some(b@),
            None => accepted_body(suggest@, env.executables@) is None,
        },
{
    if !crate::search::first_char_is(suggest, '#') {
        return Some(suggest.to_owned());
    }
    let n = suggest.unicode_len();
    let nl = find_class(suggest, CharClass::Newline);
    proof {
        crate::text::lemma_scan_to(suggest@, CharClass::Newline);
    }
    let dn: usize = if nl > 0 && suggest.get_char(nl - 1) == '\r' {
        nl - 1
    } else {
        nl
    };
    let decl = suggest.substring_char(0, dn);
    proof {
        let d0 = suggest@.subrange(0, nl as int);
        if nl > 0 {
            assert(d0[nl as int - 1] == suggest@[nl as int - 1]);
            if suggest@[nl as int - 1] == '\r' {
                assert(d0.subrange(0, nl as int - 1) =~= suggest@.subrange(0, nl as int - 1));
            }
        }
        assert(decl@ == decl_of(suggest@));
        assert(nl >= 1) by {
            if nl == 0 {
                assert(in_class(CharClass::Newline, suggest@[0]));
            }
        }
    }
    if dn < 3 || decl.get_char(1) != '[' || decl.get_char(dn - 1) != ']' {
        proof {
            assert(!decl_wf(decl_of(suggest@)));
        }
        return None;
    }
    proof {
        assert(decl@[0] == '#');
        assert(decl_wf(decl_of(suggest@)));
    }
    let stripped = trim_class(decl, CharClass::CondDress);
    let conds = split_class(stripped.as_str(), CharClass::Comma);
    let ghost cs = conds_of(decl_of(suggest@));
    proof {
        assert(str_views(conds@) == cs);
    }
    let m = conds.len();
    let mut k: usize = 0;
    while k < m
        invariant
            0 <= k <= m,
            m == conds@.len(),
            str_views(conds@) == cs,
            cs == conds_of(decl_of(suggest@)),
            suggest@.len() > 0 && suggest@[0] == '#',
            decl_wf(decl_of(suggest@)),
            forall|j: int| 0 <= j < k ==> cond_holds(cs[j], env.executables@),
        decreases m - k,
    {
        let ok = eval_cond_expr(conds[k].as_str(), env);
        proof {
            assert(cs.len() == conds@.len());
            assert(str_views(conds@)[k as int] == conds@[k as int]@);
            assert(cs[k as int] == conds@[k as int]@);
        }
        if !ok {
            proof {
                assert(!cond_holds(conds_of(decl_of(suggest@))[k as int], env.executables@));
            }
            return None;
        }
        k += 1;
    }
    let body = if nl == n {
        String::new()
    } else {
        let rest = suggest.substring_char(nl + 1, n);
        let cleaned = strip_crs_exec(rest);
        let cn = cleaned.as_str().unicode_len();
        if cn > 0 && cleaned.as_str().get_char(cn - 1) == '\n' {
            cleaned.as_str().substring_char(0, cn - 1).to_owned()
        } else {
            cleaned
        }
    };
    proof {
        assert(body@ == body_of(suggest@));
    }
    Some(body)
}

/// The arguments of the well-formed conditions among `cs`, in order.
pub open spec fn args_of_conds(cs: Seq<Seq<char>>) -> Seq<Seq<char>>
    decreases cs.len(),
{
    if cs.len() == 0 {
        Seq::empty()
    } else {
        let rest = args_of_conds(cs.subrange(1, cs.len() as int));
        if cond_wf(cs[0]) {
            seq![cond_arg(cs[0])] + rest
        } else {
            rest
        }
    }
}

/// The condition arguments a template declares: empty for an unconditional
/// template or a malformed declaration line, else the arguments of the
/// well-formed conditions of that line.
pub open spec fn template_cond_args(s: Seq<char>) -> Seq<Seq<char>> {
    if s.len() == 0 || s[0] != '#' || !decl_wf(decl_of(s)) {
        Seq::empty()
    } else {
        args_of_conds(conds_of(decl_of(s)))
    }
}

proof fn lemma_args_of_conds_step(cs: Seq<Seq<char>>, k: int)
    requires
        0 <= k <= cs.len(),
    ensures
        args_of_conds(cs.subrange(k, cs.len() as int)) == if k == cs.len() {
            Seq::<Seq<char>>::empty()
        } else {
            if cond_wf(cs[k]) {
                seq![cond_arg(cs[k])] + args_of_conds(cs.subrange(k + 1, cs.len() as int))
            } else {
                args_of_conds(cs.subrange(k + 1, cs.len() as int))
            }
        },
{
    let t = cs.subrange(k, cs.len() as int);
    if k == cs.len() {
        assert(t =~= Seq::<Seq<char>>::empty());
    } else {
        assert(t[0] == cs[k]);
        assert(t.subrange(1, t.len() as int) =~= cs.subrange(k + 1, cs.len() as int));
    }
}

/// Collects the condition arguments one raw template declares, so that a
/// caller can probe the search path for each before a correction attempt.
pub fn condition_args(suggest: &str) -> (r: Vec<String>)
    ensures
        str_views(r@) == template_cond_args(suggest@),
{
    let mut r: Vec<String> = Vec::new();
    if !crate::search::first_char_is(suggest, '#') {
        proof {
            assert(str_views(r@) =~= template_cond_args(suggest@));
        }
        return r;
    }
    let nl = find_class(suggest, CharClass::Newline);
    proof {
        crate::text::lemma_scan_to(suggest@, CharClass::Newline);
    }
    let dn: usize = if nl > 0 && suggest.get_char(nl - 1) == '\r' {
        nl - 1
    } else {
        nl
    };
    let decl = suggest.substring_char(0, dn);
    proof {
        let d0 = suggest@.subrange(0, nl as int);
        if nl > 0 {
            assert(d0[nl as int - 1] == suggest@[nl as int - 1]);
            if suggest@[nl as int - 1] == '\r' {
                assert(d0.subrange(0, nl as int - 1) =~= suggest@.subrange(0, nl as int - 1));
            }
        }
        assert(decl@ == decl_of(suggest@));
        assert(nl >= 1) by {
            if nl == 0 {
                assert(in_class(CharClass::Newline, suggest@[0]));
            }
        }
    }
    if dn < 3 || decl.get_char(1) != '[' || decl.get_char(dn - 1) != ']' {
        proof {
            assert(!decl_wf(decl_of(suggest@)));
            assert(str_views(r@) =~= template_cond_args(suggest@));
        }
        return r;
    }
    proof {
        assert(decl@[0] == '#');
        assert(decl_wf(decl_of(suggest@)));
    }
    let stripped = trim_class(decl, CharClass::CondDress);
    let conds = split_class(stripped.as_str(), CharClass::Comma);
    let ghost cs = conds_of(decl_of(suggest@));
    proof {
        assert(cs.subrange(0, cs.len() as int) =~= cs);
        assert(str_views(r@) + args_of_conds(cs) =~= args_of_conds(cs));
    }
    let m = conds.len();
    let mut k: usize = 0;
    while k < m
        invariant
            0 <= k <= m,
            m == conds@.len(),
            str_views(conds@) == cs,
            cs == conds_of(decl_of(suggest@)),
            str_views(r@) + args_of_conds(cs.subrange(k as int, cs.len() as int))
                == args_of_conds(cs),
        decreases m - k,
    {
        let t = trim_class(conds[k].as_str(), CharClass::Space);
        let tn = t.as_str().unicode_len();
        let p = find_class(t.as_str(), CharClass::OpenParen);
        let ghost r0 = r@;
        if p < tn {
            let raw_arg = t.as_str().substring_char(p + 1, tn);
            let arg = trim_class(raw_arg, CharClass::Paren);
            proof {
                assert(arg@ == cond_arg(cs[k as int]));
                assert(cond_wf(cs[k as int]));
            }
            r.push(arg);
        } else {
            proof {
                assert(!cond_wf(cs[k as int]));
            }
        }
        proof {
            lemma_args_of_conds_step(cs, k as int);
            if cond_wf(cs[k as int]) {
                assert(str_views(r@) =~= str_views(r0) + seq![cond_arg(cs[k as int])]);
                assert(str_views(r@) + args_of_conds(cs.subrange(k + 1, cs.len() as int)) =~= (
                str_views(r0) + seq![cond_arg(cs[k as int])]) + args_of_conds(
                    cs.subrange(k + 1, cs.len() as int),
                ));
                assert((str_views(r0) + seq![cond_arg(cs[k as int])]) + args_of_conds(
                    cs.subrange(k + 1, cs.len() as int),
                ) =~= str_views(r0) + (seq![cond_arg(cs[k as int])] + args_of_conds(
                    cs.subrange(k + 1, cs.len() as int),
                )));
            }
        }
        k += 1;
    }
    proof {
        assert(cs.subrange(m as int, cs.len() as int) =~= Seq::<Seq<char>>::empty());
        assert(str_views(r@) =~= str_views(r@) + Seq::<Seq<char>>::empty());
        assert(str_views(r@) =~= template_cond_args(suggest@));
    }
    r
}

} // verus!
