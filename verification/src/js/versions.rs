//! Versions of npm packages, and choosing the latest one that goes with
//! another package.

use crate::json::{
    json_document, json_member, json_string, json_tree, member, member_views, members_of, parse,
    string_of, Json, JsonView,
};
use crate::order::{is_less, text_less};
use crate::paths::{split, split_at_char};
use crate::table::lookup;
use crate::text::{begins, cat2, chars_of, contains, has_text, strip_prefix, trim, trimmed};
use crate::workspace::{Workspace, WorkspaceView};
use vstd::prelude::*;

verus! {

broadcast use vstd::string::group_string_axioms;

// ---------------------------------------------------------------------
// Numbers
// ---------------------------------------------------------------------

/// The character is a decimal digit.
pub open spec fn is_digit(c: char) -> bool {
    '0' <= c <= '9'
}

/// The value of the first `n` digits.
pub open spec fn digits_value(s: Seq<char>, n: int) -> nat
    decreases n,
{
    if n <= 0 {
        0
    } else {
        (digits_value(s, n - 1) * 10 + (s[n - 1] as int - '0' as int)) as nat
    }
}

/// A text without one plus sign at its start.
pub open spec fn unsigned(s: Seq<char>) -> Seq<char> {
    if s.len() > 0 && s[0] == '+' {
        s.skip(1)
    } else {
        s
    }
}

/// The number that a text spells: digits, perhaps after a plus sign, of a
/// value that 64 bits hold.
pub open spec fn number_of(s: Seq<char>) -> Option<nat> {
    let d = unsigned(s);
    if d.len() > 0 && (forall|i: int| 0 <= i < d.len() ==> is_digit(#[trigger] d[i]))
        && digits_value(d, d.len() as int) <= u64::MAX {
        Some(digits_value(d, d.len() as int))
    } else {
        None
    }
}

proof fn lemma_digits_grow(s: Seq<char>, m: int, n: int)
    requires
        0 <= m <= n <= s.len(),
        forall|i: int| 0 <= i < s.len() ==> is_digit(#[trigger] s[i]),
    ensures
        digits_value(s, m) <= digits_value(s, n),
    decreases n,
{
    if m < n {
        lemma_digits_grow(s, m, n - 1);
        assert(is_digit(s[n - 1]));
    }
}

fn digit_value(c: char) -> (r: u64)
    requires
        is_digit(c),
    ensures
        r == c as int - '0' as int,
        r < 10,
{
    (c as u32 - 48) as u64
}

/// The number that a text spells.
pub fn parse_number(s: &str) -> (r: Option<u64>)
    ensures
        number_of(s@) == (match r {
            Some(n) => Some(n as nat),
            None => None,
        }),
{
    let v = chars_of(s);
    let from: usize = if v.len() > 0 && v[0] == '+' {
        1
    } else {
        0
    };
    let ghost d = unsigned(s@);
    assert(d =~= v@.skip(from as int));
    if from >= v.len() {
        return None;
    }
    let mut i: usize = from;
    while i < v.len()
        invariant
            from <= i <= v@.len(),
            d == v@.skip(from as int),
            d == unsigned(s@),
            forall|k: int| 0 <= k < i - from ==> is_digit(#[trigger] d[k]),
        decreases v@.len() - i,
    {
        if !('0' <= v[i] && v[i] <= '9') {
            assert(!is_digit(d[i - from]));
            return None;
        }
        i = i + 1;
    }
    let mut value: u64 = 0;
    i = from;
    while i < v.len()
        invariant
            from <= i <= v@.len(),
            d == v@.skip(from as int),
            d == unsigned(s@),
            forall|k: int| 0 <= k < d.len() ==> is_digit(#[trigger] d[k]),
            value == digits_value(d, i - from),
        decreases v@.len() - i,
    {
        assert(is_digit(d[i - from]));
        let digit = digit_value(v[i]);
        assert(digits_value(d, i - from + 1) == value * 10 + digit);
        if value > (u64::MAX - digit) / 10 {
            proof {
                lemma_digits_grow(d, i - from + 1, d.len() as int);
            }
            return None;
        }
        value = value * 10 + digit;
        i = i + 1;
    }
    Some(value)
}

// ---------------------------------------------------------------------
// Versions
// ---------------------------------------------------------------------

/// A text without any number of `prefix` at its start.
pub open spec fn stripped(s: Seq<char>, prefix: Seq<char>) -> Seq<char>
    decreases s.len(),
{
    if prefix.len() > 0 && begins(s, prefix) {
        stripped(s.skip(prefix.len() as int), prefix)
    } else {
        s
    }
}

/// A text without any number of `prefix` at its start.
pub fn strip_all<'a>(s: &'a str, prefix: &str) -> (r: &'a str)
    ensures
        r@ == stripped(s@, prefix@),
{
    let mut rest = s;
    if prefix.unicode_len() == 0 {
        return rest;
    }
    loop
        invariant
            prefix@.len() > 0,
            stripped(s@, prefix@) == stripped(rest@, prefix@),
        decreases rest@.len(),
    {
        match strip_prefix(rest, prefix) {
            Some(t) => {
                rest = t;
            },
            None => {
                return rest;
            },
        }
    }
}

/// A version without the signs that a range puts before it.
pub open spec fn bare_version(version: Seq<char>) -> Seq<char> {
    let a = stripped(stripped(trimmed(version), "^"@), "~"@);
    let b = stripped(stripped(a, ">="@), "<="@);
    stripped(stripped(stripped(b, ">"@), "<"@), "="@)
}

/// The major number of a version; zero where it spells none.
pub open spec fn major_of(version: Seq<char>) -> nat {
    match number_of(split_at_char(bare_version(version), '.')[0]) {
        Some(n) => n,
        None => 0,
    }
}

/// The major number of a version.
pub fn extract_major(version: &str) -> (r: u64)
    ensures
        r == major_of(version@),
{
    let a = strip_all(strip_all(trim(version), "^"), "~");
    let b = strip_all(strip_all(a, ">="), "<=");
    let c = strip_all(strip_all(strip_all(b, ">"), "<"), "=");
    let parts = split(c, '.');
    assert(parts.deep_view()[0] == parts@[0]@);
    match parse_number(parts[0].as_str()) {
        Some(n) => n,
        None => 0,
    }
}

/// The number at place `k`; zero where there is none.
pub open spec fn part_or_zero(parts: Seq<Seq<char>>, k: int) -> nat {
    if k < parts.len() {
        match number_of(parts[k]) {
            Some(n) => n,
            None => 0,
        }
    } else {
        0
    }
}

/// The three numbers of a version, without what follows a hyphen.
pub open spec fn semver_of(s: Seq<char>) -> Option<(nat, nat, nat)> {
    let parts = split_at_char(split_at_char(trimmed(s), '-')[0], '.');
    match number_of(parts[0]) {
        Some(major) => Some((major, part_or_zero(parts, 1), part_or_zero(parts, 2))),
        None => None,
    }
}

fn number_at(parts: &Vec<String>, k: usize) -> (r: u64)
    ensures
        r == part_or_zero(parts.deep_view(), k as int),
{
    assert(parts.deep_view().len() == parts@.len());
    if k < parts.len() {
        assert(parts.deep_view()[k as int] == parts@[k as int]@);
        match parse_number(parts[k].as_str()) {
            Some(n) => n,
            None => 0,
        }
    } else {
        0
    }
}

/// The three numbers of a version.
pub fn parse_semver_tuple(s: &str) -> (r: Option<(u64, u64, u64)>)
    ensures
        semver_of(s@) == (match r {
            Some(t) => Some((t.0 as nat, t.1 as nat, t.2 as nat)),
            None => None,
        }),
{
    let pieces = split(trim(s), '-');
    assert(pieces.deep_view()[0] == pieces@[0]@);
    let parts = split(pieces[0].as_str(), '.');
    assert(parts.deep_view()[0] == parts@[0]@);
    match parse_number(parts[0].as_str()) {
        Some(major) => Some((major, number_at(&parts, 1), number_at(&parts, 2))),
        None => None,
    }
}

// ---------------------------------------------------------------------
// Choosing a version
// ---------------------------------------------------------------------

/// The version comes before a release.
pub open spec fn is_prerelease(version: Seq<char>) -> bool {
    has_text(version, "alpha"@) || has_text(version, "prerelease"@) || has_text(version, "rc"@)
        || has_text(version, "beta"@)
}

/// What a section of a version's data says about a package.
pub open spec fn section_constraint(
    data: JsonView,
    section: Seq<char>,
    package: Seq<char>,
) -> Option<Seq<char>> {
    match json_member(data, section) {
        Some(deps) => match json_member(deps, package) {
            Some(c) => json_string(c),
            None => None,
        },
        None => None,
    }
}

/// What a version's data says about a package: its dependencies first, then
/// its peer dependencies.
pub open spec fn constraint_of(data: JsonView, package: Seq<char>) -> Option<Seq<char>> {
    match section_constraint(data, "dependencies"@, package) {
        Some(c) => Some(c),
        None => section_constraint(data, "peerDependencies"@, package),
    }
}

/// A version goes with a major version of a package, or a later one. A
/// version that says nothing about the package goes with every one.
pub open spec fn goes_with(data: JsonView, package: Seq<char>, major: nat) -> bool {
    match constraint_of(data, package) {
        Some(c) => major_of(c) >= major,
        None => true,
    }
}

/// A version with its three numbers.
#[verifier::ext_equal]
pub ghost struct Candidate {
    pub numbers: (nat, nat, nat),
    pub text: Seq<char>,
}

/// Candidate `a` comes after candidate `b`.
pub open spec fn is_later(a: Candidate, b: Candidate) -> bool {
    if a.numbers.0 != b.numbers.0 {
        a.numbers.0 > b.numbers.0
    } else if a.numbers.1 != b.numbers.1 {
        a.numbers.1 > b.numbers.1
    } else if a.numbers.2 != b.numbers.2 {
        a.numbers.2 > b.numbers.2
    } else {
        text_less(b.text, a.text)
    }
}

/// The candidate that an entry of the list of versions is: a release that
/// goes with the package.
pub open spec fn candidate_of(
    entry: (Seq<char>, JsonView),
    package: Seq<char>,
    major: nat,
) -> Option<Candidate> {
    if is_prerelease(entry.0) || !goes_with(entry.1, package, major) {
        None
    } else {
        match semver_of(entry.0) {
            Some(numbers) => Some(Candidate { numbers, text: entry.0 }),
            None => None,
        }
    }
}

/// The latest candidate among the first `n` entries.
pub open spec fn latest(
    entries: Seq<(Seq<char>, JsonView)>,
    package: Seq<char>,
    major: nat,
    n: int,
) -> Option<Candidate>
    decreases n,
{
    if n <= 0 {
        None
    } else {
        let before = latest(entries, package, major, n - 1);
        match candidate_of(entries[n - 1], package, major) {
            Some(c) => match before {
                Some(b) => if is_later(c, b) {
                    Some(c)
                } else {
                    Some(b)
                },
                None => Some(c),
            },
            None => before,
        }
    }
}

/// The latest release in a registry's answer that goes with a major version
/// of a package, as a range.
pub open spec fn compatible_version(body: JsonView, package: Seq<char>, major: nat) -> Option<
    Seq<char>,
> {
    match json_member(body, "versions"@) {
        Some(JsonView::Object(entries)) => match latest(
            entries,
            package,
            major,
            entries.len() as int,
        ) {
            Some(c) => Some("^"@ + c.text),
            None => None,
        },
        _ => None,
    }
}

/// The release of `package` that goes with a major version of another
/// package, as the registry knows it.
pub open spec fn resolved_version(
    ws: WorkspaceView,
    package: Seq<char>,
    compatible_with: Seq<char>,
    major: nat,
) -> Option<Seq<char>> {
    match lookup(ws.registry, package) {
        Some(answer) => match json_document(answer) {
            Some(body) => compatible_version(body, compatible_with, major),
            None => None,
        },
        None => None,
    }
}

fn constraint_in<'a>(data: &'a serde_json::Value, section: &str, package: &str) -> (r: Option<
    &'a str,
>)
    ensures
        section_constraint(json_tree(*data), section@, package@) == (match r {
            Some(s) => Some(s@),
            None => None,
        }),
{
    match member(data, section) {
        Some(deps) => match member(deps, package) {
            Some(c) => string_of(c),
            None => None,
        },
        None => None,
    }
}

fn is_compatible(data: &serde_json::Value, package: &str, major: u64) -> (r: bool)
    ensures
        r == goes_with(json_tree(*data), package@, major as nat),
{
    let constraint = match constraint_in(data, "dependencies", package) {
        Some(c) => Some(c),
        None => constraint_in(data, "peerDependencies", package),
    };
    match constraint {
        Some(c) => extract_major(c) >= major,
        None => true,
    }
}

fn comes_later(a: (u64, u64, u64), a_text: &str, b: (u64, u64, u64), b_text: &str) -> (r: bool)
    ensures
        r == is_later(
            Candidate { numbers: (a.0 as nat, a.1 as nat, a.2 as nat), text: a_text@ },
            Candidate { numbers: (b.0 as nat, b.1 as nat, b.2 as nat), text: b_text@ },
        ),
{
    if a.0 != b.0 {
        a.0 > b.0
    } else if a.1 != b.1 {
        a.1 > b.1
    } else if a.2 != b.2 {
        a.2 > b.2
    } else {
        is_less(b_text, a_text)
    }
}

/// The latest release in a registry's answer that goes with a major version
/// of a package, as a range.
pub fn pick_compatible_version(body: &Json, compatible_with: &str, target_major: u64) -> (r: Option<
    String,
>)
    ensures
        r.deep_view() == compatible_version(
            body.deep_view(),
            compatible_with@,
            target_major as nat,
        ),
{
    let versions = match member(&body.0, "versions") {
        Some(v) => v,
        None => {
            return None;
        },
    };
    let entries = match members_of(versions) {
        Some(m) => m,
        None => {
            return None;
        },
    };
    let ghost view = member_views(entries@);
    let mut best: Option<((u64, u64, u64), &String)> = None;
    let mut i: usize = 0;
    while i < entries.len()
        invariant
            i <= entries@.len(),
            view == member_views(entries@),
            latest(view, compatible_with@, target_major as nat, i as int) == (match best {
                Some(b) => Some(
                    Candidate {
                        numbers: (b.0.0 as nat, b.0.1 as nat, b.0.2 as nat),
                        text: b.1@,
                    },
                ),
                None => None,
            }),
        decreases entries@.len() - i,
    {
        let (text, data) = entries[i];
        assert(view[i as int] == (text@, json_tree(*data)));
        let version = text.as_str();
        let early = contains(version, "alpha") || contains(version, "prerelease") || contains(
            version,
            "rc",
        ) || contains(version, "beta");
        if !early && is_compatible(data, compatible_with, target_major) {
            match parse_semver_tuple(version) {
                Some(numbers) => {
                    let wins = match best {
                        Some(b) => comes_later(numbers, version, b.0, b.1.as_str()),
                        None => true,
                    };
                    if wins {
                        best = Some((numbers, text));
                    }
                },
                None => {},
            }
        }
        i = i + 1;
    }
    match best {
        Some(b) => Some(cat2("^", b.1.as_str())),
        None => None,
    }
}

/// The release of `package` that goes with a major version of another
/// package, as the registry knows it.
pub fn resolve_npm_compatible_version(
    package: &str,
    compatible_with: &str,
    target_major: u64,
    ws: &Workspace,
) -> (r: Option<String>)
    ensures
        r.deep_view() == resolved_version(
            ws.deep_view(),
            package@,
            compatible_with@,
            target_major as nat,
        ),
{
    match ws.registry_answer(package) {
        Some(answer) => match parse(answer.as_str()) {
            Some(body) => pick_compatible_version(&Json(body), compatible_with, target_major),
            None => None,
        },
        None => None,
    }
}

} // verus!
