//! The pattern matcher: picks the first rule whose pattern occurs in the
//! diagnostic text, then the first of its suggestions the filter accepts.
//! A rule once activated decides alone: when all its suggestions are
//! rejected, no later rule is consulted.

use vstd::prelude::*;
use crate::rules::{Rule, RuleCatalog, CondEnv, lookup_rules};
use crate::filter::{accepted_body, check_suggest};
use crate::search::{has_sub, str_contains};

verus! {

/// Some pattern of `r` occurs in the diagnostic text `err`.
pub open spec fn rule_activated(r: Rule, err: Seq<char>) -> bool {
    exists|i: int| 0 <= i < r.patterns@.len() && has_sub(err, r.patterns@[i]@)
}

/// The body of the first suggestion the filter accepts, scanning in
/// declared order.
pub open spec fn first_accepted(sugs: Seq<String>, ex: Seq<String>) -> Option<Seq<char>>
    decreases sugs.len(),
{
    if sugs.len() == 0 {
        None
    } else {
        match accepted_body(sugs[0]@, ex) {
            Some(b) => Some(b),
            None => first_accepted(sugs.subrange(1, sugs.len() as int), ex),
        }
    }
}

/// What the matcher answers for an ordered rule list: the first activated
/// rule decides, by the first suggestion of its own that the filter accepts.
pub open spec fn matched_suggestion(rules: Seq<Rule>, err: Seq<char>, ex: Seq<String>) -> Option<
    Seq<char>,
>
    decreases rules.len(),
{
    if rules.len() == 0 {
        None
    } else if rule_activated(rules[0], err) {
        first_accepted(rules[0].suggestions@, ex)
    } else {
        matched_suggestion(rules.subrange(1, rules.len() as int), err, ex)
    }
}

/// What the matcher answers for a command: nothing when the catalog has no
/// entry for it, else the activated rule's accepted suggestion.
pub open spec fn match_result(
    catalog: RuleCatalog,
    key: Seq<char>,
    err: Seq<char>,
    ex: Seq<String>,
) -> Option<Seq<char>> {
    match lookup_rules(catalog.entries@, key) {
        Some(rs) => matched_suggestion(rs, err, ex),
        None => None,
    }
}

/// Unrolls `matched_suggestion` past a prefix of rules none of which is
/// activated.
pub proof fn lemma_matched_suggestion_skip(rules: Seq<Rule>, err: Seq<char>, ex: Seq<String>, i: int)
    requires
        0 <= i <= rules.len(),
        forall|j: int| 0 <= j < i ==> !rule_activated(rules[j], err),
    ensures
        matched_suggestion(rules, err, ex) == matched_suggestion(
            rules.subrange(i, rules.len() as int),
            err,
            ex,
        ),
    decreases i,
{
    if i == 0 {
        assert(rules.subrange(0, rules.len() as int) =~= rules);
    } else {
        let t = rules.subrange(1, rules.len() as int);
        assert(forall|j: int| 0 <= j < t.len() ==> t[j] == rules[j + 1]);
        lemma_matched_suggestion_skip(t, err, ex, i - 1);
        assert(t.subrange(i - 1, t.len() as int) =~= rules.subrange(i, rules.len() as int));
    }
}

/// Unrolls `first_accepted` past a prefix of rejected suggestions.
pub proof fn lemma_first_accepted_skip(sugs: Seq<String>, ex: Seq<String>, i: int)
    requires
        0 <= i <= sugs.len(),
        forall|j: int| 0 <= j < i ==> accepted_body(sugs[j]@, ex) is None,
    ensures
        first_accepted(sugs, ex) == first_accepted(sugs.subrange(i, sugs.len() as int), ex),
    decreases i,
{
    if i == 0 {
        assert(sugs.subrange(0, sugs.len() as int) =~= sugs);
    } else {
        let t = sugs.subrange(1, sugs.len() as int);
        assert(forall|j: int| 0 <= j < t.len() ==> t[j] == sugs[j + 1]);
        lemma_first_accepted_skip(t, ex, i - 1);
        assert(t.subrange(i - 1, t.len() as int) =~= sugs.subrange(i, sugs.len() as int));
    }
}

/// Whether some pattern of `rule` occurs in `err`.
fn rule_matches(rule: &Rule, err: &str) -> (b: bool)
    ensures
        b == rule_activated(*rule, err@),
{
    let n = rule.patterns.len();
    let mut i: usize = 0;
    while i < n
        invariant
            0 <= i <= n,
            n == rule.patterns@.len(),
            forall|j: int| 0 <= j < i ==> !has_sub(err@, rule.patterns@[j]@),
        decreases n - i,
    {
        if str_contains(err, rule.patterns[i].as_str()) {
            return true;
        }
        i += 1;
    }
    false
}

/// The first suggestion of `sugs` the filter accepts.
fn scan_suggestions(sugs: &Vec<String>, env: &CondEnv) -> (r: Option<String>)
    ensures
        match r {
            Some(s) => first_accepted(sugs@, env.executables@) == Some(s@),
            None => first_accepted(sugs@, env.executables@) is None,
        },
{
    let n = sugs.len();
    let mut i: usize = 0;
    while i < n
        invariant
            0 <= i <= n,
            n == sugs@.len(),
            forall|j: int| 0 <= j < i ==> accepted_body(sugs@[j]@, env.executables@) is None,
        decreases n - i,
    {
        match check_suggest(sugs[i].as_str(), env) {
            Some(s) => {
                proof {
                    lemma_first_accepted_skip(sugs@, env.executables@, i as int);
                    let t = sugs@.subrange(i as int, sugs@.len() as int);
                    assert(t[0] == sugs@[i as int]);
                }
                return Some(s);
            },
            None => {},
        }
        i += 1;
    }
    proof {
        lemma_first_accepted_skip(sugs@, env.executables@, n as int);
        assert(sugs@.subrange(n as int, sugs@.len() as int) =~= Seq::<String>::empty());
    }
    None
}

/// Matches `error_msg` against the rules declared for `command`: the first
/// rule one of whose patterns occurs in `error_msg` decides, by the first of
/// its suggestions whose conditions pass against `env`.
pub fn match_pattern(catalog: &RuleCatalog, command: &str, error_msg: &str, env: &CondEnv) -> (r:
    Option<String>)
    ensures
        match r {
            Some(s) => match_result(*catalog, command@, error_msg@, env.executables@) == Some(s@),
            None => match_result(*catalog, command@, error_msg@, env.executables@) is None,
        },
{
    let rules = match catalog.lookup(command) {
        Some(rs) => rs,
        None => {
            return None;
        },
    };
    let n = rules.len();
    let mut i: usize = 0;
    while i < n
        invariant
            0 <= i <= n,
            n == rules@.len(),
            lookup_rules(catalog.entries@, command@) == Some(rules@),
            forall|j: int| 0 <= j < i ==> !rule_activated(rules@[j], error_msg@),
        decreases n - i,
    {
        if rule_matches(&rules[i], error_msg) {
            proof {
                lemma_matched_suggestion_skip(rules@, error_msg@, env.executables@, i as int);
                let t = rules@.subrange(i as int, rules@.len() as int);
                assert(t[0] == rules@[i as int]);
            }
            return scan_suggestions(&rules[i].suggestions, env);
        }
        i += 1;
    }
    proof {
        lemma_matched_suggestion_skip(rules@, error_msg@, env.executables@, n as int);
        assert(rules@.subrange(n as int, rules@.len() as int) =~= Seq::<Rule>::empty());
    }
    None
}

} // verus!
