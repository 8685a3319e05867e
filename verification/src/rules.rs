//! The rule catalog and the probed environment, as plain values handed in by
//! the caller for one correction attempt.

use vstd::prelude::*;
use crate::search::str_eq;

verus! {

/// One rule: any pattern occurring in the diagnostic text activates it, and
/// its suggestions are tried in declared order.
pub struct Rule {
    /// Substrings of diagnostic text; any one activates the rule.
    pub patterns: Vec<String>,
    /// Raw suggestion templates, first accepted wins.
    pub suggestions: Vec<String>,
}

/// A command name and the rules declared for it.
pub struct CatalogEntry {
    pub key: String,
    pub rules: Vec<Rule>,
}

/// The catalog of rules, keyed by command name (case-sensitive, unique).
pub struct RuleCatalog {
    pub entries: Vec<CatalogEntry>,
}

/// What the executable lookup answered: the names that resolved on the
/// search path. A name outside this list did not resolve (or the lookup
/// itself failed, which counts the same).
pub struct CondEnv {
    pub executables: Vec<String>,
}

/// The rules of the first catalog entry whose key is `key`.
pub open spec fn lookup_rules(entries: Seq<CatalogEntry>, key: Seq<char>) -> Option<Seq<Rule>>
    decreases entries.len(),
{
    if entries.len() == 0 {
        None
    } else if entries[0].key@ == key {
        Some(entries[0].rules@)
    } else {
        lookup_rules(entries.subrange(1, entries.len() as int), key)
    }
}

pub proof fn lemma_lookup_rules_is(entries: Seq<CatalogEntry>, key: Seq<char>, i: int)
    requires
        0 <= i < entries.len(),
        entries[i].key@ == key,
        forall|j: int| 0 <= j < i ==> entries[j].key@ != key,
    ensures
        lookup_rules(entries, key) == Some(entries[i].rules@),
    decreases i,
{
    if i > 0 {
        let t = entries.subrange(1, entries.len() as int);
        assert(forall|j: int| 0 <= j < t.len() ==> t[j] == entries[j + 1]);
        lemma_lookup_rules_is(t, key, i - 1);
    }
}

pub proof fn lemma_lookup_rules_none(entries: Seq<CatalogEntry>, key: Seq<char>)
    requires
        forall|j: int| 0 <= j < entries.len() ==> entries[j].key@ != key,
    ensures
        lookup_rules(entries, key) is None,
    decreases entries.len(),
{
    if entries.len() > 0 {
        let t = entries.subrange(1, entries.len() as int);
        assert(forall|j: int| 0 <= j < t.len() ==> t[j] == entries[j + 1]);
        lemma_lookup_rules_none(t, key);
    }
}

impl RuleCatalog {
    /// The rule list declared for `key`, if the catalog has that entry.
    pub fn lookup(&self, key: &str) -> (r: Option<&Vec<Rule>>)
        ensures
            match r {
                Some(rs) => lookup_rules(self.entries@, key@) == Some(rs@),
                None => lookup_rules(self.entries@, key@) is None,
            },
    {
        let n = self.entries.len();
        let mut i: usize = 0;
        while i < n
            invariant
                0 <= i <= n,
                n == self.entries@.len(),
                forall|j: int| 0 <= j < i ==> self.entries@[j].key@ != key@,
            decreases n - i,
        {
            if str_eq(self.entries[i].key.as_str(), key) {
                proof {
                    lemma_lookup_rules_is(self.entries@, key@, i as int);
                }
                return Some(&self.entries[i].rules);
            }
            i += 1;
        }
        proof {
            lemma_lookup_rules_none(self.entries@, key@);
        }
        None
    }
}

/// Some string in `ex` reads `name`.
pub open spec fn env_has(ex: Seq<String>, name: Seq<char>) -> bool {
    exists|i: int| 0 <= i < ex.len() && ex[i]@ == name
}

impl CondEnv {
    /// Whether `name` resolved as an executable on the search path.
    pub fn has_executable(&self, name: &str) -> (b: bool)
        ensures
            b == env_has(self.executables@, name@),
    {
        let n = self.executables.len();
        let mut i: usize = 0;
        while i < n
            invariant
                0 <= i <= n,
                n == self.executables@.len(),
                forall|j: int| 0 <= j < i ==> self.executables@[j]@ != name@,
            decreases n - i,
        {
            if str_eq(self.executables[i].as_str(), name) {
                return true;
            }
            i += 1;
        }
        false
    }
}

} // verus!
