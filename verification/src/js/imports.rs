//! Import lists: each name once.

use crate::paths::{split, split_at_char};
use crate::pattern::{captures, compiles, is_pattern, regex_groups};
use crate::text::{cat5, join, joined, owned, trim, trimmed};
use crate::views::{append_one, distinct, distinct_texts};
use vstd::prelude::*;

verus! {

broadcast use vstd::string::group_string_axioms;

/// The text of a group of a match.
pub open spec fn group(groups: Seq<Option<Seq<char>>>, k: int) -> Option<Seq<char>> {
    if 0 <= k < groups.len() {
        groups[k]
    } else {
        None
    }
}

/// The text of a group of a match.
pub fn group_of(groups: &Vec<Option<String>>, k: usize) -> (r: Option<&String>)
    ensures
        group(groups.deep_view(), k as int) == (match r {
            Some(s) => Some(s@),
            None => None,
        }),
{
    if k < groups.len() {
        assert(groups.deep_view()[k as int] == groups@[k as int].deep_view());
        match &groups[k] {
            Some(s) => Some(s),
            None => None,
        }
    } else {
        None
    }
}

/// An import of names in braces on one line: what stands up to the opening
/// brace, the names, and what follows.
pub open spec fn import_pattern() -> Seq<char> {
    r"^(\s*import\s+\{)([^}]+)(\}\s*from\s+.*)$"@
}

/// The first `n` stretches that are not blank, trimmed.
pub open spec fn trimmed_names(all: Seq<Seq<char>>, n: int) -> Seq<Seq<char>>
    decreases n,
{
    if n <= 0 {
        Seq::empty()
    } else if trimmed(all[n - 1]).len() > 0 {
        trimmed_names(all, n - 1).push(trimmed(all[n - 1]))
    } else {
        trimmed_names(all, n - 1)
    }
}

/// The names of an import list, each once.
pub open spec fn import_names(list: Seq<char>) -> Seq<Seq<char>> {
    let all = split_at_char(list, ',');
    let names = trimmed_names(all, all.len() as int);
    distinct(names, names.len() as int)
}

/// A line whose import list has each name once, given the groups that
/// matching the line gave.
pub open spec fn tidy_import(line: Seq<char>, groups: Option<Seq<Option<Seq<char>>>>) -> Seq<char> {
    match groups {
        Some(g) => match (group(g, 1), group(g, 2), group(g, 3)) {
            (Some(before), Some(list), Some(after)) => before + " "@ + joined(
                import_names(list),
                ", "@,
            ) + " "@ + after,
            _ => line,
        },
        None => line,
    }
}

/// A line whose import list has each name once.
pub open spec fn tidied_line(line: Seq<char>) -> Seq<char> {
    if is_pattern(import_pattern()) {
        tidy_import(line, regex_groups(import_pattern(), line))
    } else {
        line
    }
}

/// The lines, each with its import list tidied.
pub open spec fn tidied_lines(all: Seq<Seq<char>>) -> Seq<Seq<char>> {
    Seq::new(all.len(), |i: int| tidied_line(all[i]))
}

fn names_of(list: &str) -> (r: Vec<String>)
    ensures
        r.deep_view() == import_names(list@),
{
    let all = split(list, ',');
    let mut names: Vec<String> = Vec::new();
    let mut i: usize = 0;
    assert(names.deep_view() =~= Seq::<Seq<char>>::empty());
    while i < all.len()
        invariant
            i <= all@.len(),
            names.deep_view() == trimmed_names(all.deep_view(), i as int),
        decreases all@.len() - i,
    {
        assert(all.deep_view()[i as int] == all@[i as int]@);
        let name = trim(all[i].as_str());
        if name.unicode_len() > 0 {
            append_one(&mut names, owned(name));
        }
        i = i + 1;
    }
    assert(all.deep_view().len() == all@.len());
    assert(names.deep_view().len() == names@.len());
    distinct_texts(&names)
}

/// A line whose import list has each name once, given the groups that
/// matching the line gave.
pub fn dedup_specifiers(line: &str, groups: Option<Vec<Option<String>>>) -> (r: String)
    ensures
        r@ == tidy_import(line@, groups.deep_view()),
{
    match groups {
        Some(g) => match (group_of(&g, 1), group_of(&g, 2), group_of(&g, 3)) {
            (Some(before), Some(list), Some(after)) => {
                let names = names_of(list.as_str());
                let body = join(&names, ", ");
                cat5(before.as_str(), " ", body.as_str(), " ", after.as_str())
            },
            _ => owned(line),
        },
        None => owned(line),
    }
}

/// Tidies the import lists of lines: each name once.
pub fn dedup_import_specifiers(lines: &mut Vec<String>)
    ensures
        final(lines).deep_view() == tidied_lines(old(lines).deep_view()),
        final(lines)@.len() == old(lines)@.len(),
{
    let ghost before = lines.deep_view();
    let ghost goal = tidied_lines(before);
    let pattern = r"^(\s*import\s+\{)([^}]+)(\}\s*from\s+.*)$";
    if !compiles(pattern) {
        assert(goal =~= before);
        return;
    }
    let mut i: usize = 0;
    while i < lines.len()
        invariant
            i <= lines@.len(),
            lines@.len() == before.len(),
            goal == tidied_lines(before),
            pattern@ == import_pattern(),
            is_pattern(import_pattern()),
            forall|k: int| 0 <= k < i ==> (#[trigger] lines@[k])@ == goal[k],
            forall|k: int| i <= k < lines@.len() ==> (#[trigger] lines@[k])@ == before[k],
        decreases lines@.len() - i,
    {
        let groups = captures(pattern, lines[i].as_str());
        let tidy = dedup_specifiers(lines[i].as_str(), groups);
        lines.set(i, tidy);
        i = i + 1;
    }
    assert(lines.deep_view() =~= goal);
}

} // verus!
