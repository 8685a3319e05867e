use corrector::correct::correct_command;
use corrector::expand::eval_suggest;
use corrector::filter::{check_suggest, condition_args, eval_condition};
use corrector::matcher::match_pattern;
use corrector::rules::{CatalogEntry, CondEnv, Rule, RuleCatalog};

fn no_env() -> CondEnv {
    CondEnv { executables: vec![] }
}

fn one_rule_catalog(key: &str, patterns: Vec<&str>, suggestions: Vec<&str>) -> RuleCatalog {
    RuleCatalog {
        entries: vec![CatalogEntry {
            key: key.to_string(),
            rules: vec![Rule {
                patterns: patterns.into_iter().map(|p| p.to_string()).collect(),
                suggestions: suggestions.into_iter().map(|s| s.to_string()).collect(),
            }],
        }],
    }
}

#[test]
fn range_slice_open_end() {
    let r = eval_suggest("{{command[1:]}}", "git push origin main");
    assert_eq!(r, Some("push origin main".to_string()));
}

#[test]
fn range_slice_open_start() {
    let r = eval_suggest("{{command[:2]}}", "git push origin main");
    assert_eq!(r, Some("git push".to_string()));
}

#[test]
fn bare_index() {
    let r = eval_suggest("{{command[2]}}", "git push origin main");
    assert_eq!(r, Some("origin".to_string()));
}

#[test]
fn whole_command_verbatim_once() {
    let r = eval_suggest("retry: {{command}} now", "ls -la");
    assert_eq!(r, Some("retry: ls -la now".to_string()));
}

#[test]
fn whole_command_expansion_idempotent() {
    let first = eval_suggest("{{command}} --force", "git push").unwrap();
    assert_eq!(first, "git push --force");
    let second = eval_suggest(&first, "git push").unwrap();
    assert_eq!(second, first);
}

#[test]
fn full_range_placeholder() {
    let r = eval_suggest("{{command[:]}}", "a b c");
    assert_eq!(r, Some("a b c".to_string()));
}

#[test]
fn missing_closer_is_malformed() {
    assert_eq!(eval_suggest("{{command[1:", "git push"), None);
}

#[test]
fn non_numeric_index_is_malformed() {
    assert_eq!(eval_suggest("{{command[abc]}}", "git push"), None);
}

#[test]
fn out_of_range_index_is_malformed() {
    assert_eq!(eval_suggest("{{command[9]}}", "git push origi"), None);
}

#[test]
fn inverted_range_is_malformed() {
    assert_eq!(eval_suggest("{{command[2:1]}}", "git push origi"), None);
}

#[test]
fn end_past_tokens_is_malformed() {
    assert_eq!(eval_suggest("{{command[0:9]}}", "git push"), None);
}

#[test]
fn tokens_split_on_any_whitespace() {
    let r = eval_suggest("{{command[1:]}}", "  git\tpush   origin\nmain ");
    assert_eq!(r, Some("push origin main".to_string()));
}

#[test]
fn unconditional_suggestion_passes_unchanged() {
    let env = no_env();
    let r = check_suggest("git pull --rebase", &env);
    assert_eq!(r, Some("git pull --rebase".to_string()));
}

#[test]
fn satisfied_condition_yields_body() {
    let env = CondEnv { executables: vec!["vim".to_string()] };
    let r = check_suggest("#[executable(vim)]\nvim {{command[1]}}", &env);
    assert_eq!(r, Some("vim {{command[1]}}".to_string()));
}

#[test]
fn failed_condition_rejects_template() {
    let env = no_env();
    let r = check_suggest("#[executable(vim)]\nvim {{command[1]}}", &env);
    assert_eq!(r, None);
}

#[test]
fn all_conditions_must_hold() {
    let env = CondEnv { executables: vec!["vim".to_string()] };
    let r = check_suggest("#[executable(vim), executable(emacs)]\nbody", &env);
    assert_eq!(r, None);
}

#[test]
fn two_satisfied_conditions_pass() {
    let env = CondEnv { executables: vec!["vim".to_string(), "emacs".to_string()] };
    let r = check_suggest("#[executable(vim), executable(emacs)]\nbody line", &env);
    assert_eq!(r, Some("body line".to_string()));
}

#[test]
fn malformed_condition_rejects_template() {
    let env = CondEnv { executables: vec!["vim".to_string()] };
    let r = check_suggest("#[executable vim]\nbody", &env);
    assert_eq!(r, None);
}

#[test]
fn trailing_newline_is_dropped_from_body() {
    let env = CondEnv { executables: vec!["vim".to_string()] };
    assert_eq!(check_suggest("#[executable(vim)]\nbody\n", &env), Some("body".to_string()));
}

#[test]
fn crlf_template_is_accepted_and_normalized() {
    let env = CondEnv { executables: vec!["vim".to_string()] };
    let r = check_suggest("#[executable(vim)]\r\nbody one\r\nbody two\r\n", &env);
    assert_eq!(r, Some("body one\nbody two".to_string()));
}

#[test]
fn inner_blank_line_is_kept_in_body() {
    let env = CondEnv { executables: vec!["vim".to_string()] };
    assert_eq!(
        check_suggest("#[executable(vim)]\nbody\n\n", &env),
        Some("body\n".to_string())
    );
    assert_eq!(
        check_suggest("#[executable(vim)]\na\n\nb", &env),
        Some("a\n\nb".to_string())
    );
}

#[test]
fn lone_carriage_return_is_kept() {
    let env = CondEnv { executables: vec!["vim".to_string()] };
    assert_eq!(
        check_suggest("#[executable(vim)]\nbody\rmore", &env),
        Some("body\rmore".to_string())
    );
}

#[test]
fn missing_closing_bracket_rejects_template() {
    let env = CondEnv { executables: vec!["vim".to_string()] };
    assert_eq!(check_suggest("#[executable(vim)\nbody", &env), None);
}

#[test]
fn missing_opening_bracket_rejects_template() {
    let env = CondEnv { executables: vec!["vim".to_string()] };
    assert_eq!(check_suggest("#executable(vim)]\nbody", &env), None);
}

#[test]
fn bare_marker_line_rejects_template() {
    let env = CondEnv { executables: vec!["vim".to_string()] };
    assert_eq!(check_suggest("#\nbody", &env), None);
}

#[test]
fn malformed_declaration_falls_to_next_suggestion() {
    let catalog = one_rule_catalog(
        "x",
        vec!["beta"],
        vec!["#[executable(vim)\nfirst", "second"],
    );
    let env = CondEnv { executables: vec!["vim".to_string()] };
    assert_eq!(
        match_pattern(&catalog, "x", "log says beta happened", &env),
        Some("second".to_string())
    );
}

#[test]
fn unicode_whitespace_separates_tokens() {
    let r = eval_suggest("{{command[1:]}}", "git\u{00A0}push\u{2009}origin main");
    assert_eq!(r, Some("push origin main".to_string()));
}

#[test]
fn unknown_condition_name_fails_closed() {
    let env = CondEnv { executables: vec!["vim".to_string()] };
    assert!(!eval_condition(&env, "writable", "vim"));
    assert!(eval_condition(&env, "executable", "vim"));
    assert!(!eval_condition(&env, "executable", "emacs"));
}

#[test]
fn condition_args_are_collected() {
    let args = condition_args("#[executable(vim), executable(emacs)]\nbody");
    assert_eq!(args, vec!["vim".to_string(), "emacs".to_string()]);
    let none: Vec<String> = condition_args("plain suggestion");
    assert!(none.is_empty());
}

#[test]
fn first_matching_pattern_activates_its_own_rule() {
    let catalog = RuleCatalog {
        entries: vec![CatalogEntry {
            key: "x".to_string(),
            rules: vec![
                Rule {
                    patterns: vec!["alpha".to_string(), "beta".to_string()],
                    suggestions: vec!["first".to_string()],
                },
                Rule {
                    patterns: vec!["beta".to_string()],
                    suggestions: vec!["second".to_string()],
                },
            ],
        }],
    };
    let env = no_env();
    let r = match_pattern(&catalog, "x", "log says beta happened", &env);
    assert_eq!(r, Some("first".to_string()));
}

#[test]
fn rejected_rule_does_not_fall_through_to_later_rule() {
    let catalog = RuleCatalog {
        entries: vec![CatalogEntry {
            key: "x".to_string(),
            rules: vec![
                Rule {
                    patterns: vec!["beta".to_string()],
                    suggestions: vec!["#[executable(nosuch)]\nfirst".to_string()],
                },
                Rule {
                    patterns: vec!["beta".to_string()],
                    suggestions: vec!["second".to_string()],
                },
            ],
        }],
    };
    let env = no_env();
    assert_eq!(match_pattern(&catalog, "x", "log says beta happened", &env), None);
}

#[test]
fn failed_condition_falls_to_next_suggestion_of_same_rule() {
    let catalog = one_rule_catalog(
        "x",
        vec!["beta"],
        vec!["#[executable(nosuch)]\nfirst", "second"],
    );
    let env = no_env();
    assert_eq!(
        match_pattern(&catalog, "x", "log says beta happened", &env),
        Some("second".to_string())
    );
}

#[test]
fn failed_condition_on_last_suggestion_yields_nothing() {
    let catalog = one_rule_catalog("x", vec!["beta"], vec!["#[executable(nosuch)]\nfirst"]);
    let env = no_env();
    assert_eq!(match_pattern(&catalog, "x", "log says beta happened", &env), None);
}

#[test]
fn absent_command_key_yields_nothing() {
    let catalog = one_rule_catalog("x", vec!["beta"], vec!["first"]);
    let env = no_env();
    assert_eq!(match_pattern(&catalog, "y", "beta", &env), None);
}

#[test]
fn unmatched_pattern_yields_nothing() {
    let catalog = one_rule_catalog("x", vec!["beta"], vec!["first"]);
    let env = no_env();
    assert_eq!(match_pattern(&catalog, "x", "gamma only", &env), None);
}

#[test]
fn git_force_push_end_to_end() {
    let catalog = one_rule_catalog("git", vec!["did you mean"], vec!["git {{command[1:]}} --force"]);
    let env = no_env();
    let r = correct_command(&catalog, &env, "error: did you mean push?", "git push origi");
    assert_eq!(r, Some("git push origi --force".to_string()));
}

#[test]
fn privilege_prefix_round_trips_end_to_end() {
    let catalog = one_rule_catalog(
        "apt-get",
        vec!["instal"],
        vec!["apt-get install {{command[3:]}}"],
    );
    let env = no_env();
    let r = correct_command(
        &catalog,
        &env,
        "E: Invalid operation instal",
        "sudo apt-get instal vim",
    );
    assert_eq!(r, Some("sudo apt-get install vim".to_string()));
}

#[test]
fn privilege_rule_takes_priority() {
    let catalog = RuleCatalog {
        entries: vec![
            CatalogEntry {
                key: "privilege".to_string(),
                rules: vec![Rule {
                    patterns: vec!["permission denied".to_string()],
                    suggestions: vec!["sudo {{command}}".to_string()],
                }],
            },
            CatalogEntry {
                key: "touch".to_string(),
                rules: vec![Rule {
                    patterns: vec!["permission denied".to_string()],
                    suggestions: vec!["touch elsewhere".to_string()],
                }],
            },
        ],
    };
    let env = no_env();
    let r = correct_command(&catalog, &env, "touch: permission denied", "touch /etc/x");
    assert_eq!(r, Some("sudo touch /etc/x".to_string()));
}

#[test]
fn no_rule_for_command_yields_nothing() {
    let catalog = one_rule_catalog("git", vec!["did you mean"], vec!["git status"]);
    let env = no_env();
    assert_eq!(correct_command(&catalog, &env, "some text", "ls -la"), None);
}

#[test]
fn doas_prefix_round_trips_too() {
    let catalog = one_rule_catalog("ls", vec!["No such file"], vec!["ls {{command[2:]}}"]);
    let env = no_env();
    let r = correct_command(&catalog, &env, "ls: No such file or directory", "doas ls /root/x");
    assert_eq!(r, Some("doas ls /root/x".to_string()));
}

#[test]
fn first_catalog_entry_with_key_wins() {
    let catalog = RuleCatalog {
        entries: vec![
            CatalogEntry {
                key: "x".to_string(),
                rules: vec![Rule {
                    patterns: vec!["beta".to_string()],
                    suggestions: vec!["first".to_string()],
                }],
            },
            CatalogEntry {
                key: "x".to_string(),
                rules: vec![Rule {
                    patterns: vec!["beta".to_string()],
                    suggestions: vec!["second".to_string()],
                }],
            },
        ],
    };
    let env = no_env();
    assert_eq!(match_pattern(&catalog, "x", "beta", &env), Some("first".to_string()));
}

#[test]
fn empty_condition_argument_needs_empty_name_probed() {
    let env = no_env();
    assert_eq!(check_suggest("#[executable()]\nbody", &env), None);
    let env = CondEnv { executables: vec![String::new()] };
    assert_eq!(check_suggest("#[executable()]\nbody", &env), Some("body".to_string()));
}

#[test]
fn conditional_template_without_body_yields_empty_body() {
    let env = CondEnv { executables: vec!["vim".to_string()] };
    assert_eq!(check_suggest("#[executable(vim)]", &env), Some(String::new()));
}

#[test]
fn malformed_accepted_suggestion_fails_the_attempt() {
    let catalog = one_rule_catalog("git", vec!["did you mean"], vec!["git {{command[9]}}"]);
    let env = no_env();
    assert_eq!(correct_command(&catalog, &env, "did you mean", "git push"), None);
}
