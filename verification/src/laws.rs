//! The laws the library states of itself: how rule precedence, condition
//! gating, whole-command substitution and prefix handling behave on every
//! input, proved against the same spec functions the contracts use.

use vstd::prelude::*;
use crate::text::ws_tokens;
use crate::rules::{Rule, RuleCatalog};
use crate::filter::{accepted_body, conds_of, decl_of, cond_holds};
use crate::matcher::{
    rule_activated, first_accepted, matched_suggestion, match_result,
    lemma_matched_suggestion_skip, lemma_first_accepted_skip,
};
use crate::expand::{expanded, range_value, opener, closer, lemma_marker_lens};
use crate::search::{matches_at, find_sub_at, lemma_find_sub_at, lemma_find_sub_at_is};
use crate::correct::{corrected, correctable, resolved_command, is_privilege};

verus! {

/// A command line with a privilege prefix round-trips it: when the
/// privilege rule set offers nothing and the resolved command's rule set
/// accepts a suggestion that expands, the correction is exactly the prefix
/// token, a space, and the expansion.
pub proof fn lemma_privilege_prefix_round_trip(
    catalog: RuleCatalog,
    ex: Seq<String>,
    diag: Seq<char>,
    cmdline: Seq<char>,
    body: Seq<char>,
    e: Seq<char>,
)
    requires
        correctable(cmdline),
        is_privilege(ws_tokens(cmdline)[0]),
        !is_privilege(ws_tokens(cmdline)[1]),
        match_result(catalog, "privilege"@, diag, ex) is None,
        match_result(catalog, ws_tokens(cmdline)[1], diag, ex) == Some(body),
        expanded(body, ws_tokens(cmdline), cmdline) == Some(e),
    ensures
        corrected(catalog, ex, diag, cmdline) == Some(ws_tokens(cmdline)[0] + seq![' '] + e),
{
    assert(resolved_command(cmdline) == ws_tokens(cmdline)[1]);
}

/// The first rule one of whose patterns occurs in the diagnostic text
/// decides the match alone, whatever later rules of the list would have
/// said.
pub proof fn lemma_first_matching_rule_decides(
    rules: Seq<Rule>,
    err: Seq<char>,
    ex: Seq<String>,
    k: int,
)
    requires
        0 <= k < rules.len(),
        rule_activated(rules[k], err),
        forall|j: int| 0 <= j < k ==> !rule_activated(rules[j], err),
    ensures
        matched_suggestion(rules, err, ex) == first_accepted(rules[k].suggestions@, ex),
{
    lemma_matched_suggestion_skip(rules, err, ex, k);
    let t = rules.subrange(k, rules.len() as int);
    assert(t[0] == rules[k]);
}

/// When every suggestion of the activated rule is rejected, the matcher
/// answers nothing: it never falls through to a later rule of the same
/// command.
pub proof fn lemma_no_fallback_across_rules(rules: Seq<Rule>, err: Seq<char>, ex: Seq<String>, k: int)
    requires
        0 <= k < rules.len(),
        rule_activated(rules[k], err),
        forall|j: int| 0 <= j < k ==> !rule_activated(rules[j], err),
        forall|s: int|
            0 <= s < rules[k].suggestions@.len() ==> accepted_body(
                rules[k].suggestions@[s]@,
                ex,
            ) is None,
    ensures
        matched_suggestion(rules, err, ex) is None,
{
    lemma_first_matching_rule_decides(rules, err, ex, k);
    let sugs = rules[k].suggestions@;
    lemma_first_accepted_skip(sugs, ex, sugs.len() as int);
    assert(sugs.subrange(sugs.len() as int, sugs.len() as int) =~= Seq::<String>::empty());
}

/// A conditional suggestion one of whose declared conditions does not hold
/// is never returned by the filter.
pub proof fn lemma_condition_gate(s: Seq<char>, ex: Seq<String>, k: int)
    requires
        s.len() > 0,
        s[0] == '#',
        0 <= k < conds_of(decl_of(s)).len(),
        !cond_holds(conds_of(decl_of(s))[k], ex),
    ensures
        accepted_body(s, ex) is None,
{
}

/// A conditional template whose declaration line is malformed — it does not
/// open with the marker and its bracket, or lacks the closing bracket — is
/// rejected as a whole, whatever the environment holds.
pub proof fn lemma_malformed_declaration_rejected(s: Seq<char>, ex: Seq<String>)
    requires
        s.len() > 0,
        s[0] == '#',
        !crate::filter::decl_wf(crate::filter::decl_of(s)),
    ensures
        accepted_body(s, ex) is None,
{
}

/// A rejected suggestion is skipped: the scan falls through to the next
/// suggestion of the same rule, and to nothing when it was the last.
pub proof fn lemma_rejected_suggestion_skipped(sugs: Seq<String>, ex: Seq<String>)
    requires
        sugs.len() > 0,
        accepted_body(sugs[0]@, ex) is None,
    ensures
        first_accepted(sugs, ex) == first_accepted(sugs.subrange(1, sugs.len() as int), ex),
{
}

/// A template without an opening placeholder marker expands to itself: in
/// particular, an already expanded result free of markers is a fixed point
/// of expansion.
pub proof fn lemma_expand_without_marker(s: Seq<char>, toks: Seq<Seq<char>>, full: Seq<char>)
    requires
        find_sub_at(s, opener()) is None,
    ensures
        expanded(s, toks, full) == Some(s),
{
}

/// A template holding exactly one whole-command placeholder expands to the
/// text around it with the command line inserted verbatim, once: the
/// substituted text is not scanned again. Together with
/// `lemma_expand_without_marker` this makes whole-command expansion
/// idempotent when the command line itself carries no marker.
pub proof fn lemma_whole_command_inserted_verbatim(
    t: Seq<char>,
    toks: Seq<Seq<char>>,
    full: Seq<char>,
    i: int,
)
    requires
        find_sub_at(t, opener()) == Some(i),
        matches_at(t, "{{command}}"@, i),
        find_sub_at(t.subrange(i + 11, t.len() as int), opener()) is None,
    ensures
        expanded(t, toks, full) == Some(
            t.subrange(0, i) + full + t.subrange(i + 11, t.len() as int),
        ),
{
    lemma_marker_lens();
    reveal_strlit("{{command}}");
    reveal_strlit("}}");
    let wc = "{{command}}"@;
    assert(wc.len() == 11);
    lemma_find_sub_at(t, opener());
    let tail = t.subrange(i + 9, t.len() as int);
    assert(t.subrange(i, i + 11) == wc);
    assert(tail[0] == t.subrange(i, i + 11)[9]);
    assert(tail[1] == t.subrange(i, i + 11)[10]);
    assert(tail.subrange(0, 2) =~= closer());
    assert(matches_at(tail, closer(), 0));
    lemma_find_sub_at_is(tail, closer(), 0);
    let inner = tail.subrange(0, 0);
    assert(inner =~= Seq::<char>::empty());
    assert(crate::text::trimmed(inner, crate::text::CharClass::Bracket).len() == 0);
    assert(range_value(inner, toks, full) == Some(full));
    let rest = tail.subrange(2, tail.len() as int);
    assert(rest =~= t.subrange(i + 11, t.len() as int));
    lemma_expand_without_marker(rest, toks, full);
}

} // verus!
