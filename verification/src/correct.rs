//! The correction orchestrator: strips a privilege prefix, tries the
//! privilege rule set first, falls back to the resolved command's own rules,
//! and re-prepends the stripped prefix to the expanded suggestion.

use vstd::prelude::*;
use crate::text::{ws_tokens, split_whitespace_tokens, str_views};
use crate::rules::{RuleCatalog, CondEnv};
use crate::matcher::{match_result, match_pattern};
use crate::expand::{expanded, eval_suggest};
use crate::search::str_eq;

verus! {

/// The fixed set of known privilege-escalation prefixes.
pub open spec fn is_privilege(t: Seq<char>) -> bool {
    t == "sudo"@ || t == "doas"@
}

/// Whether `t` is a known privilege-escalation prefix.
pub fn is_privilege_token(t: &str) -> (b: bool)
    ensures
        b == is_privilege(t@),
{
    str_eq(t, "sudo") || str_eq(t, "doas")
}

/// A command line the orchestrator can work on: it has a first token, and a
/// second one when the first is a privilege prefix (there is no command to
/// correct otherwise).
pub open spec fn correctable(cmdline: Seq<char>) -> bool {
    ws_tokens(cmdline).len() > 0 && (is_privilege(ws_tokens(cmdline)[0]) ==> ws_tokens(
        cmdline,
    ).len() > 1)
}

/// The resolved command of a command line: its second token when the first
/// is a privilege prefix, else its first.
pub open spec fn resolved_command(cmdline: Seq<char>) -> Seq<char> {
    if is_privilege(ws_tokens(cmdline)[0]) {
        ws_tokens(cmdline)[1]
    } else {
        ws_tokens(cmdline)[0]
    }
}

/// The whole correction: when the resolved command is not itself a privilege
/// prefix and the privilege rule set accepts, its expansion is returned as
/// it stands; otherwise the resolved command's own rule set decides, and a
/// stripped privilege prefix is re-prepended to the expansion. `None` when
/// no rule accepts, or the accepted suggestion fails to expand.
pub open spec fn corrected(
    catalog: RuleCatalog,
    ex: Seq<String>,
    diag: Seq<char>,
    cmdline: Seq<char>,
) -> Option<Seq<char>> {
    let toks = ws_tokens(cmdline);
    let cmd = resolved_command(cmdline);
    if !is_privilege(cmd) && match_result(catalog, "privilege"@, diag, ex) is Some {
        expanded(match_result(catalog, "privilege"@, diag, ex).unwrap(), toks, cmdline)
    } else {
        match match_result(catalog, cmd, diag, ex) {
            Some(body) => match expanded(body, toks, cmdline) {
                Some(e) => Some(
                    if is_privilege(toks[0]) {
                        toks[0] + seq![' '] + e
                    } else {
                        e
                    },
                ),
                None => None,
            },
            None => None,
        }
    }
}

/// Suggests a corrected command line for `last_command`, whose run produced
/// the text `diagnostic`, against the rule catalog and the probed
/// environment. `None` when no rule offers an accepted suggestion, or the
/// accepted one is malformed.
pub fn correct_command(
    catalog: &RuleCatalog,
    env: &CondEnv,
    diagnostic: &str,
    last_command: &str,
) -> (r: Option<String>)
    requires
        correctable(last_command@),
    ensures
        match r {
            Some(x) => corrected(*catalog, env.executables@, diagnostic@, last_command@) == Some(
                x@,
            ),
            None => corrected(*catalog, env.executables@, diagnostic@, last_command@) is None,
        },
{
    let toks = split_whitespace_tokens(last_command);
    proof {
        assert(str_views(toks@).len() == toks@.len());
        assert(str_views(toks@)[0] == toks@[0]@);
    }
    let first_is_priv = is_privilege_token(toks[0].as_str());
    let cmd_i: usize = if first_is_priv {
        1
    } else {
        0
    };
    proof {
        assert(str_views(toks@)[cmd_i as int] == toks@[cmd_i as int]@);
        assert(toks@[cmd_i as int]@ == resolved_command(last_command@));
    }
    let command = &toks[cmd_i];
    if !is_privilege_token(command.as_str()) {
        if let Some(s) = match_pattern(catalog, "privilege", diagnostic, env) {
            return eval_suggest(s.as_str(), last_command);
        }
    }
    match match_pattern(catalog, command.as_str(), diagnostic, env) {
        Some(s) => match eval_suggest(s.as_str(), last_command) {
            Some(e) => {
                if first_is_priv {
                    let mut out = toks[0].clone();
                    out.append(" ");
                    out.append(e.as_str());
                    proof {
                        reveal_strlit(" ");
                        assert(" "@ =~= seq![' ']);
                        assert(out@ =~= ws_tokens(last_command@)[0] + seq![' '] + e@);
                    }
                    Some(out)
                } else {
                    Some(e)
                }
            },
            None => None,
        },
        None => None,
    }
}

} // verus!
