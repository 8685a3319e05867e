//! Suggests a corrected shell command after a failed one.
//!
//! The caller hands in a catalog of error-pattern rules, the failed command's
//! diagnostic text, and the set of programs known to be on the search path;
//! the library picks the applicable rule, filters its suggestions by their
//! declared conditions, and expands the winning template's placeholders
//! against the tokens of the original command line.

pub mod text;

pub mod search;

pub mod num;

pub mod rules;

pub mod filter;

pub mod matcher;

pub mod expand;

pub mod correct;

pub mod laws;
