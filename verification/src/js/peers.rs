//! Peer dependencies that `yarn install` reports as missing.

use crate::js::imports::{group, group_of};
use crate::pattern::{
    all_captures, compiles, is_pattern, regex_all_groups, regex_replaced, replace_matches,
};
use crate::views::{append_one, distinct, distinct_texts};
use vstd::prelude::*;

verus! {

broadcast use vstd::string::group_string_axioms;

/// Escape sequences of a terminal.
pub open spec fn escape_pattern() -> Seq<char> {
    r"\x1b\[[0-9;]*[a-zA-Z]"@
}

/// A warning about a missing peer dependency; its first group is the name.
pub open spec fn peer_pattern() -> Seq<char> {
    r"YN0002: .+ doesn't provide (@?[^\s(]+) \("@
}

/// The names that the first `n` warnings give.
pub open spec fn peer_names(warnings: Seq<Seq<Option<Seq<char>>>>, n: int) -> Seq<Seq<char>>
    decreases n,
{
    if n <= 0 {
        Seq::empty()
    } else {
        match group(warnings[n - 1], 1) {
            Some(name) => peer_names(warnings, n - 1).push(name),
            None => peer_names(warnings, n - 1),
        }
    }
}

/// The names that warnings give, each once.
pub open spec fn missing_peers(warnings: Seq<Seq<Option<Seq<char>>>>) -> Seq<Seq<char>> {
    let names = peer_names(warnings, warnings.len() as int);
    distinct(names, names.len() as int)
}

/// The missing peer dependencies that the output of `yarn install` names.
pub open spec fn reported_peers(output: Seq<char>) -> Seq<Seq<char>> {
    if is_pattern(escape_pattern()) && is_pattern(peer_pattern()) {
        missing_peers(
            regex_all_groups(peer_pattern(), regex_replaced(escape_pattern(), output, ""@)),
        )
    } else {
        Seq::empty()
    }
}

/// The names that warnings give, each once.
pub fn names_of_warnings(warnings: &Vec<Vec<Option<String>>>) -> (r: Vec<String>)
    ensures
        r.deep_view() == missing_peers(warnings.deep_view()),
{
    let ghost view = warnings.deep_view();
    let mut names: Vec<String> = Vec::new();
    let mut i: usize = 0;
    assert(names.deep_view() =~= Seq::<Seq<char>>::empty());
    while i < warnings.len()
        invariant
            i <= warnings@.len(),
            view == warnings.deep_view(),
            names.deep_view() == peer_names(view, i as int),
        decreases warnings@.len() - i,
    {
        assert(view[i as int] == warnings@[i as int].deep_view());
        match group_of(&warnings[i], 1) {
            Some(name) => {
                append_one(&mut names, name.clone());
            },
            None => {},
        }
        i = i + 1;
    }
    assert(view.len() == warnings@.len());
    assert(names.deep_view().len() == names@.len());
    distinct_texts(&names)
}

/// The missing peer dependencies that the output of `yarn install` names,
/// each once.
pub fn parse_yarn_missing_peer_deps(output: &str) -> (r: Vec<String>)
    ensures
        r.deep_view() == reported_peers(output@),
{
    let escapes = r"\x1b\[[0-9;]*[a-zA-Z]";
    let warning = r"YN0002: .+ doesn't provide (@?[^\s(]+) \(";
    if compiles(escapes) && compiles(warning) {
        let plain = replace_matches(escapes, output, "");
        let warnings = all_captures(warning, plain.as_str());
        names_of_warnings(&warnings)
    } else {
        crate::language::no_texts()
    }
}

} // verus!
