//! Versions, the release that goes with another package, and which
//! dependencies an incident brings to which version.

use crate::js::lockfile::names_lockfile;
use crate::js::manifest::{dependency_fix, nearest_manifest};
use crate::js::npm::{actionable_parents, npm_fixes, parent_fixes};
use crate::js::versions::{
    bare_version, candidate_of, compatible_version, digits_value, is_digit, is_later, latest,
    major_of, number_of, resolved_version, section_constraint, semver_of, stripped, unsigned,
};
use crate::json::{json_document, json_member, json_string, JsonView};
use crate::laws::projects::law_latest_release_is_chosen;
use crate::laws::words::{is_core, law_trimming};
use crate::model::PlannedFixView;
use crate::paths::{split_at_char, split_from};
use crate::report::{text_var, IncidentView};
use crate::table::lookup;
use crate::text::{begins, char_pos, decimal, digit, has_text, is_space, lemma_char_pos, trimmed};
use crate::workspace::WorkspaceView;
use vstd::prelude::*;

verus! {

broadcast use vstd::string::group_string_axioms;

// ---------------------------------------------------------------------
// Splitting
// ---------------------------------------------------------------------

proof fn lemma_pos_shifted(a: Seq<char>, b: Seq<char>, c: char, i: int)
    requires
        0 <= i <= b.len(),
    ensures
        char_pos(a + b, c, a.len() + i) == a.len() + char_pos(b, c, i),
    decreases b.len() - i,
{
    if i < b.len() {
        assert((a + b)[a.len() + i] == b[i]);
        if b[i] != c {
            lemma_pos_shifted(a, b, c, i + 1);
        }
    }
}

proof fn lemma_split_shifted(a: Seq<char>, b: Seq<char>, c: char, i: int)
    requires
        0 <= i <= b.len(),
    ensures
        split_from(a + b, c, a.len() + i) == split_from(b, c, i),
    decreases b.len() - i,
{
    let s = a + b;
    lemma_pos_shifted(a, b, c, i);
    lemma_char_pos(b, c, i);
    let k = char_pos(b, c, i);
    if k < b.len() {
        lemma_split_shifted(a, b, c, k + 1);
        assert(s.subrange(a.len() + i, a.len() + k) =~= b.subrange(i, k));
        assert(a.len() + (k + 1) == a.len() + k + 1);
    } else {
        assert(s.subrange(a.len() + i, s.len() as int) =~= b.subrange(i, b.len() as int));
    }
}

proof fn lemma_pos_of(s: Seq<char>, c: char, i: int, k: int)
    requires
        0 <= i <= k <= s.len(),
        forall|j: int| i <= j < k ==> s[j] != c,
        k < s.len() ==> s[k] == c,
    ensures
        char_pos(s, c, i) == k,
    decreases k - i,
{
    if i < k {
        lemma_pos_of(s, c, i + 1, k);
    }
}

/// A text is split at each occurrence of a character: what stands before the
/// first one comes first, followed by the parts of what stands behind it.
pub proof fn law_splitting(a: Seq<char>, c: char, b: Seq<char>)
    requires
        !a.contains(c),
    ensures
        split_at_char(a, c) == seq![a],
        split_at_char(a + seq![c] + b, c) == seq![a] + split_at_char(b, c),
{
    let n = a.len() as int;
    assert forall|j: int| 0 <= j < n implies a[j] != c by {
        assert(a.contains(a[j]));
    }
    lemma_pos_of(a, c, 0, n);
    assert(a.subrange(0, n) =~= a);
    let head = a + seq![c];
    let s = head + b;
    lemma_pos_of(s, c, 0, n);
    assert(s.subrange(0, n) =~= a);
    lemma_split_shifted(head, b, c, 0);
}

// ---------------------------------------------------------------------
// Numbers
// ---------------------------------------------------------------------

proof fn lemma_digit(d: nat)
    requires
        d < 10,
    ensures
        is_digit(digit(d)),
        digit(d) as int - '0' as int == d,
        digit(d) != '+',
        digit(d) != '.',
        digit(d) != '-',
        !is_space(digit(d)),
{
}

proof fn lemma_digits_prefix(a: Seq<char>, c: char, n: int)
    requires
        0 <= n <= a.len(),
    ensures
        digits_value(a.push(c), n) == digits_value(a, n),
    decreases n,
{
    if n > 0 {
        lemma_digits_prefix(a, c, n - 1);
    }
}

/// The decimal text of a number.
spec fn is_digits(s: Seq<char>) -> bool {
    s.len() > 0 && forall|i: int|
        0 <= i < s.len() ==> is_digit(#[trigger] s[i]) && s[i] != '+' && s[i] != '.' && s[i] != '-'
            && !is_space(s[i])
}

proof fn lemma_decimal(n: nat)
    ensures
        is_digits(decimal(n)),
        digits_value(decimal(n), decimal(n).len() as int) == n,
    decreases n,
{
    if n < 10 {
        lemma_digit(n);
        let s = decimal(n);
        assert(s == seq![digit(n)]);
        reveal_with_fuel(digits_value, 2);
    } else {
        lemma_decimal(n / 10);
        lemma_digit(n % 10);
        let a = decimal(n / 10);
        let s = decimal(n);
        assert(s == a.push(digit(n % 10)));
        lemma_digits_prefix(a, digit(n % 10), a.len() as int);
        assert(n == (n / 10) * 10 + n % 10);
    }
}

/// The decimal text of a number begins and ends in no white space.
pub proof fn lemma_decimal_is_visible(n: nat)
    ensures
        decimal(n).len() > 0,
        !is_space(decimal(n)[0]),
        !is_space(decimal(n).last()),
{
    lemma_decimal(n);
}

/// A number is read from its decimal text, also behind a plus sign, as long
/// as it fits in 64 bits.
pub proof fn law_numbers_are_read_back(n: nat)
    ensures
        n <= u64::MAX ==> number_of(decimal(n)) == Some(n),
        n <= u64::MAX ==> number_of(seq!['+'] + decimal(n)) == Some(n),
        n > u64::MAX ==> number_of(decimal(n)) is None,
{
    lemma_decimal(n);
    let s = decimal(n);
    assert(s[0] != '+');
    assert(unsigned(s) == s);
    assert((seq!['+'] + s).skip(1) =~= s);
}

/// A text with a character that is no digit is no number.
pub proof fn law_other_texts_are_no_numbers(s: Seq<char>, k: int)
    requires
        0 <= k < s.len(),
        !('0' <= s[k] <= '9'),
        k > 0 || s[k] != '+',
    ensures
        number_of(s) is None,
{
    let d = unsigned(s);
    if d.len() < s.len() {
        assert(d[k - 1] == s[k]);
    }
}

// ---------------------------------------------------------------------
// Versions
// ---------------------------------------------------------------------

proof fn lemma_trimmed_digits(s: Seq<char>)
    requires
        s.len() > 0,
        !is_space(s[0]),
        !is_space(s.last()),
    ensures
        trimmed(s) == s,
{
    law_trimming(s);
    let (from, to) = choose|from: int, to: int| #[trigger] is_core(s, trimmed(s), from, to);
    if from > 0 {
        assert(is_space(s[0]));
    }
    if to < s.len() {
        assert(is_space(s[s.len() - 1]));
    }
    assert(s.subrange(0, s.len() as int) =~= s);
}

/// The three numbers of a version.
pub open spec fn version_text(a: nat, b: nat, c: nat) -> Seq<char> {
    decimal(a) + seq!['.'] + decimal(b) + seq!['.'] + decimal(c)
}

proof fn lemma_version_parts(a: nat, b: nat, c: nat)
    ensures
        split_at_char(version_text(a, b, c), '.') == seq![decimal(a), decimal(b), decimal(c)],
        !version_text(a, b, c).contains('-'),
        version_text(a, b, c).len() > 0,
        !is_space(version_text(a, b, c)[0]),
        !is_space(version_text(a, b, c).last()),
{
    lemma_decimal(a);
    lemma_decimal(b);
    lemma_decimal(c);
    let x = decimal(a);
    let y = decimal(b);
    let z = decimal(c);
    let s = version_text(a, b, c);
    assert(!x.contains('.') && !y.contains('.') && !z.contains('.'));
    let rest = y + seq!['.'] + z;
    assert(s =~= x + seq!['.'] + rest);
    law_splitting(x, '.', rest);
    law_splitting(y, '.', z);
    law_splitting(z, '.', z);
    assert(split_at_char(s, '.') =~= seq![x, y, z]);
    assert forall|i: int| 0 <= i < s.len() implies s[i] != '-' by {
        if i < x.len() {
            assert(s[i] == x[i]);
        } else if x.len() < i < x.len() + 1 + y.len() {
            assert(s[i] == y[i - x.len() - 1]);
        } else if i > x.len() + 1 + y.len() {
            assert(s[i] == z[i - x.len() - y.len() - 2]);
        }
    }
    assert(s[0] == x[0]);
    assert(s.last() == z.last());
}

/// The three numbers of a version are read back, and what follows a hyphen
/// does not count.
pub proof fn law_version_numbers_are_read_back(a: nat, b: nat, c: nat, tail: Seq<char>)
    requires
        a <= u64::MAX,
        b <= u64::MAX,
        c <= u64::MAX,
        tail.len() > 0 ==> !is_space(tail.last()),
    ensures
        semver_of(version_text(a, b, c)) == Some((a, b, c)),
        semver_of(version_text(a, b, c) + seq!['-'] + tail) == Some((a, b, c)),
{
    let s = version_text(a, b, c);
    let long = s + seq!['-'] + tail;
    lemma_version_parts(a, b, c);
    law_numbers_are_read_back(a);
    law_numbers_are_read_back(b);
    law_numbers_are_read_back(c);
    law_splitting(s, '-', tail);
    lemma_trimmed_digits(s);
    assert(long[0] == s[0]);
    if tail.len() > 0 {
        assert(long.last() == tail.last());
    } else {
        assert(long.last() == '-');
    }
    lemma_trimmed_digits(long);
    assert((seq![s] + split_at_char(tail, '-'))[0] == s);
}

proof fn lemma_not_stripped(s: Seq<char>, sign: Seq<char>)
    requires
        s.len() > 0,
        sign.len() > 0,
        sign[0] != s[0],
    ensures
        stripped(s, sign) == s,
{
    if begins(s, sign) {
        assert(s.subrange(0, sign.len() as int)[0] == s[0]);
    }
}

proof fn lemma_stripped_once(s: Seq<char>, sign: Seq<char>)
    requires
        s.len() > 0,
        sign.len() > 0,
        sign[0] != s[0],
    ensures
        stripped(sign + s, sign) == s,
{
    let t = sign + s;
    assert(t.subrange(0, sign.len() as int) =~= sign);
    assert(t.skip(sign.len() as int) =~= s);
    lemma_not_stripped(s, sign);
}

/// A sign that can stand before the version in a range.
pub open spec fn is_range_sign(sign: Seq<char>) -> bool {
    ||| sign == Seq::<char>::empty()
    ||| sign == seq!['^']
    ||| sign == seq!['~']
    ||| sign == seq!['>', '=']
    ||| sign == seq!['<', '=']
    ||| sign == seq!['>']
    ||| sign == seq!['<']
    ||| sign == seq!['=']
}

/// The major number of a version is the first of its numbers, with or
/// without the sign of a range before it.
pub proof fn law_major_number(sign: Seq<char>, a: nat, rest: Seq<char>)
    requires
        is_range_sign(sign),
        a <= u64::MAX,
        rest.len() > 0 ==> !is_space(rest.last()),
    ensures
        major_of(sign + decimal(a) + seq!['.'] + rest) == a,
{
    let x = decimal(a);
    let s = x + seq!['.'] + rest;
    let v = sign + s;
    lemma_decimal(a);
    law_numbers_are_read_back(a);
    assert(v =~= sign + decimal(a) + seq!['.'] + rest);
    reveal_strlit("^");
    reveal_strlit("~");
    reveal_strlit(">=");
    reveal_strlit("<=");
    reveal_strlit(">");
    reveal_strlit("<");
    reveal_strlit("=");
    let caret = "^"@;
    let tilde = "~"@;
    let ge = ">="@;
    let le = "<="@;
    let gt = ">"@;
    let lt = "<"@;
    let eq = "="@;
    assert(caret =~= seq!['^']);
    assert(tilde =~= seq!['~']);
    assert(ge =~= seq!['>', '=']);
    assert(le =~= seq!['<', '=']);
    assert(gt =~= seq!['>']);
    assert(lt =~= seq!['<']);
    assert(eq =~= seq!['=']);
    assert(s[0] == x[0]);
    assert(is_digit(s[0]));
    assert(v.len() > 0);
    assert(v[0] == if sign.len() > 0 {
        sign[0]
    } else {
        s[0]
    });
    assert(v.last() == if rest.len() > 0 {
        rest.last()
    } else {
        '.'
    });
    lemma_trimmed_digits(v);
    let t0 = v;
    if sign == caret {
        lemma_stripped_once(s, caret);
    } else {
        lemma_not_stripped(v, caret);
    }
    let t1 = stripped(t0, caret);
    assert(t1 == if sign == caret {
        s
    } else {
        v
    });
    lemma_not_stripped(s, tilde);
    lemma_not_stripped(s, ge);
    lemma_not_stripped(s, le);
    lemma_not_stripped(s, gt);
    lemma_not_stripped(s, lt);
    lemma_not_stripped(s, eq);
    if sign == caret {
        assert(bare_version(v) == s);
    } else if sign == tilde {
        lemma_stripped_once(s, tilde);
        assert(bare_version(v) == s);
    } else if sign.len() == 0 {
        assert(v =~= s);
        assert(bare_version(v) == s);
    } else {
        lemma_not_stripped(v, tilde);
        lemma_signs(s, sign);
        assert(bare_version(v) == s);
    }
    law_splitting(x, '.', rest);
    assert((seq![x] + split_at_char(rest, '.'))[0] == x);
}

proof fn lemma_signs(s: Seq<char>, sign: Seq<char>)
    requires
        s.len() > 0,
        is_digit(s[0]),
        sign == seq!['>', '='] || sign == seq!['<', '='] || sign == seq!['>'] || sign == seq!['<']
            || sign == seq!['='],
    ensures
        ({
            let v = sign + s;
            let b = stripped(stripped(v, ">="@), "<="@);
            stripped(stripped(stripped(b, ">"@), "<"@), "="@) == s
        }),
{
    reveal_strlit(">=");
    reveal_strlit("<=");
    reveal_strlit(">");
    reveal_strlit("<");
    reveal_strlit("=");
    let ge = ">="@;
    let le = "<="@;
    let gt = ">"@;
    let lt = "<"@;
    let eq = "="@;
    assert(ge =~= seq!['>', '=']);
    assert(le =~= seq!['<', '=']);
    assert(gt =~= seq!['>']);
    assert(lt =~= seq!['<']);
    assert(eq =~= seq!['=']);
    let v = sign + s;
    lemma_not_stripped(s, ge);
    lemma_not_stripped(s, le);
    lemma_not_stripped(s, gt);
    lemma_not_stripped(s, lt);
    lemma_not_stripped(s, eq);
    if sign == seq!['>', '='] {
        lemma_stripped_once(s, ge);
    } else if sign == seq!['<', '='] {
        assert(v[0] == '<');
        lemma_not_stripped(v, ge);
        lemma_stripped_once(s, le);
    } else if sign == seq!['>'] {
        assert(v[0] == '>');
        assert(v[1] == s[0]);
        if begins(v, ge) {
            assert(v.subrange(0, 2)[1] == '=');
        }
        lemma_not_stripped(v, le);
        lemma_stripped_once(s, gt);
    } else if sign == seq!['<'] {
        assert(v[0] == '<');
        assert(v[1] == s[0]);
        lemma_not_stripped(v, ge);
        if begins(v, le) {
            assert(v.subrange(0, 2)[1] == '=');
        }
        lemma_not_stripped(v, gt);
        lemma_stripped_once(s, lt);
    } else {
        assert(v[0] == '=');
        lemma_not_stripped(v, ge);
        lemma_not_stripped(v, le);
        lemma_not_stripped(v, gt);
        lemma_not_stripped(v, lt);
        lemma_stripped_once(s, eq);
    }
}

// ---------------------------------------------------------------------
// The release to take
// ---------------------------------------------------------------------

/// The release says which version of the package it asks for.
pub open spec fn asks_for_version(
    data: JsonView,
    section: Seq<char>,
    package: Seq<char>,
    range: Seq<char>,
) -> bool {
    json_member(data, section) matches Some(deps) && (json_member(deps, package) matches Some(c)
        && json_string(c) == Some(range))
}

/// The version is that of a release that goes with a major version of the
/// package: its name is not that of a preliminary one, it is made of
/// numbers, and what it says of the package, in its dependencies or else in
/// its peer dependencies, is that version or a later one.
pub open spec fn is_eligible(
    entry: (Seq<char>, JsonView),
    package: Seq<char>,
    major: nat,
) -> bool {
    &&& !has_text(entry.0, "alpha"@)
    &&& !has_text(entry.0, "beta"@)
    &&& !has_text(entry.0, "rc"@)
    &&& !has_text(entry.0, "prerelease"@)
    &&& semver_of(entry.0) is Some
    &&& forall|range: Seq<char>|
        #![trigger asks_for_version(entry.1, "dependencies"@, package, range)]
        asks_for_version(entry.1, "dependencies"@, package, range) ==> major_of(range) >= major
    &&& (forall|range: Seq<char>|
        #![trigger asks_for_version(entry.1, "dependencies"@, package, range)]
        !asks_for_version(entry.1, "dependencies"@, package, range)) ==> forall|range: Seq<char>|
        #![trigger asks_for_version(entry.1, "peerDependencies"@, package, range)]
        asks_for_version(entry.1, "peerDependencies"@, package, range) ==> major_of(range) >= major
}

proof fn lemma_constraint(data: JsonView, section: Seq<char>, package: Seq<char>, range: Seq<char>)
    ensures
        asks_for_version(data, section, package, range) <==> section_constraint(
            data,
            section,
            package,
        ) == Some(range),
{
}

proof fn lemma_eligible(entry: (Seq<char>, JsonView), package: Seq<char>, major: nat)
    ensures
        is_eligible(entry, package, major) <==> candidate_of(entry, package, major) is Some,
        candidate_of(entry, package, major) matches Some(c) ==> c.text == entry.0 && Some(
            c.numbers,
        ) == semver_of(entry.0),
{
    let data = entry.1;
    let deps = section_constraint(data, "dependencies"@, package);
    let peers = section_constraint(data, "peerDependencies"@, package);
    assert forall|range: Seq<char>|
        #![trigger asks_for_version(data, "dependencies"@, package, range)]
        asks_for_version(data, "dependencies"@, package, range) <==> deps == Some(range) by {
        lemma_constraint(data, "dependencies"@, package, range);
    }
    assert forall|range: Seq<char>|
        #![trigger asks_for_version(data, "peerDependencies"@, package, range)]
        asks_for_version(data, "peerDependencies"@, package, range) <==> peers == Some(range) by {
        lemma_constraint(data, "peerDependencies"@, package, range);
    }
    match deps {
        Some(range) => {
            assert(asks_for_version(data, "dependencies"@, package, range));
        },
        None => {
            match peers {
                Some(range) => {
                    assert(asks_for_version(data, "peerDependencies"@, package, range));
                },
                None => {},
            }
        },
    }
}

/// One version comes after another by its numbers.
pub open spec fn has_later_numbers(a: (nat, nat, nat), b: (nat, nat, nat)) -> bool {
    a.0 > b.0 || (a.0 == b.0 && a.1 > b.1) || (a.0 == b.0 && a.1 == b.1 && a.2 > b.2)
}

/// The release that is taken, as a range, is one that goes with the package,
/// and no such release has later numbers; where there is one, one is taken.
pub proof fn law_release_to_take(
    body: JsonView,
    entries: Seq<(Seq<char>, JsonView)>,
    package: Seq<char>,
    major: nat,
)
    requires
        json_member(body, "versions"@) == Some(JsonView::Object(entries)),
    ensures
        match compatible_version(body, package, major) {
            Some(range) => exists|k: int|
                0 <= k < entries.len() && range == seq!['^'] + (#[trigger] entries[k]).0
                    && is_eligible(entries[k], package, major) && forall|j: int|
                    0 <= j < entries.len() && is_eligible(#[trigger] entries[j], package, major)
                        ==> !has_later_numbers(
                        semver_of(entries[j].0)->Some_0,
                        semver_of(entries[k].0)->Some_0,
                    ),
            None => forall|j: int|
                0 <= j < entries.len() ==> !is_eligible(#[trigger] entries[j], package, major),
        },
{
    let n = entries.len() as int;
    law_latest_release_is_chosen(entries, package, major, n);
    reveal_strlit("^");
    assert("^"@ =~= seq!['^']);
    match latest(entries, package, major, n) {
        Some(c) => {
            let k = choose|k: int|
                0 <= k < n && candidate_of(#[trigger] entries[k], package, major) == Some(c);
            lemma_eligible(entries[k], package, major);
            assert forall|j: int|
                0 <= j < entries.len() && is_eligible(
                    #[trigger] entries[j],
                    package,
                    major,
                ) implies !has_later_numbers(
                semver_of(entries[j].0)->Some_0,
                semver_of(entries[k].0)->Some_0,
            ) by {
                lemma_eligible(entries[j], package, major);
                let d = candidate_of(entries[j], package, major)->Some_0;
                assert(!is_later(d, c));
            }
            assert(compatible_version(body, package, major) == Some(seq!['^'] + entries[k].0));
        },
        None => {
            assert forall|j: int| 0 <= j < entries.len() implies !is_eligible(
                #[trigger] entries[j],
                package,
                major,
            ) by {
                lemma_eligible(entries[j], package, major);
            }
        },
    }
}

/// What the registry answered decides; without an answer that is a document
/// with versions nothing is taken.
pub proof fn law_registry_decides(
    ws: WorkspaceView,
    package: Seq<char>,
    other: Seq<char>,
    major: nat,
)
    ensures
        lookup(ws.registry, package) is None ==> resolved_version(ws, package, other, major) is None,
        lookup(ws.registry, package) matches Some(answer) ==> (match json_document(answer) {
            Some(body) => resolved_version(ws, package, other, major) == compatible_version(
                body,
                other,
                major,
            ),
            None => resolved_version(ws, package, other, major) is None,
        }),
{
}

// ---------------------------------------------------------------------
// Which dependency is brought to which version
// ---------------------------------------------------------------------

/// An incident outside a lockfile brings the package itself to the new
/// version, or, where it says that another package depends on it, that
/// package to the release that goes with the new version.
pub proof fn law_incident_outside_a_lockfile(
    rule_id: Seq<char>,
    incident: IncidentView,
    package: Seq<char>,
    new_version: Seq<char>,
    path: Seq<char>,
    ws: WorkspaceView,
)
    requires
        !names_lockfile(path),
    ensures
        ({
            let fixes = npm_fixes(rule_id, incident, package, new_version, path, ws);
            let wanted = match (
                text_var(incident, "isDependentOf"@),
                text_var(incident, "dependencyName"@),
            ) {
                (None, _) => dependency_fix(rule_id, path, package, new_version, ws),
                (Some(_), None) => None,
                (Some(other), Some(actual)) => match resolved_version(
                    ws,
                    actual,
                    other,
                    major_of(new_version),
                ) {
                    Some(version) => dependency_fix(rule_id, path, actual, version, ws),
                    None => None,
                },
            };
            match wanted {
                Some(fix) => fixes.len() == 1 && fixes[0] == fix,
                None => fixes.len() == 0,
            }
        }),
{
}

/// The parent is brought to the release that goes with the package.
pub open spec fn is_parent_fix(
    rule_id: Seq<char>,
    manifest: Seq<char>,
    parent: Seq<char>,
    package: Seq<char>,
    major: nat,
    ws: WorkspaceView,
    fix: PlannedFixView,
) -> bool {
    resolved_version(ws, parent, package, major) matches Some(version) && dependency_fix(
        rule_id,
        manifest,
        parent,
        version,
        ws,
    ) == Some(fix)
}

proof fn lemma_parent_fixes(
    rule_id: Seq<char>,
    manifest: Seq<char>,
    parents: Seq<Seq<char>>,
    package: Seq<char>,
    major: nat,
    ws: WorkspaceView,
    n: int,
    fix: PlannedFixView,
)
    requires
        0 <= n <= parents.len(),
    ensures
        parent_fixes(rule_id, manifest, parents, package, major, ws, n).contains(fix)
            <==> exists|k: int|
            0 <= k < n && is_parent_fix(
                rule_id,
                manifest,
                #[trigger] parents[k],
                package,
                major,
                ws,
                fix,
            ),
    decreases n,
{
    if n > 0 {
        lemma_parent_fixes(rule_id, manifest, parents, package, major, ws, n - 1, fix);
        let before = parent_fixes(rule_id, manifest, parents, package, major, ws, n - 1);
        let now = parent_fixes(rule_id, manifest, parents, package, major, ws, n);
        let here = is_parent_fix(rule_id, manifest, parents[n - 1], package, major, ws, fix);
        if before.contains(fix) {
            let j = choose|j: int| 0 <= j < before.len() && before[j] == fix;
            assert(now[j] == fix);
            let k = choose|k: int|
                0 <= k < n - 1 && is_parent_fix(
                    rule_id,
                    manifest,
                    #[trigger] parents[k],
                    package,
                    major,
                    ws,
                    fix,
                );
            assert(0 <= k < n);
        }
        if here {
            assert(now[before.len() as int] == fix);
        }
        if now.contains(fix) {
            let j = choose|j: int| 0 <= j < now.len() && now[j] == fix;
            if j < before.len() {
                assert(before[j] == fix);
            } else {
                assert(here);
            }
        }
        if exists|k: int|
            0 <= k < n && is_parent_fix(
                rule_id,
                manifest,
                #[trigger] parents[k],
                package,
                major,
                ws,
                fix,
            ) {
            let k = choose|k: int|
                0 <= k < n && is_parent_fix(
                    rule_id,
                    manifest,
                    #[trigger] parents[k],
                    package,
                    major,
                    ws,
                    fix,
                );
            if k < n - 1 {
                assert(before.contains(fix));
            }
        }
    }
}

/// An incident on a lockfile brings each parent that the project lists to the
/// release that goes with the new version of the package, in the manifest
/// next to the lockfile, and does nothing else.
pub proof fn law_incident_on_a_lockfile(
    rule_id: Seq<char>,
    incident: IncidentView,
    package: Seq<char>,
    new_version: Seq<char>,
    path: Seq<char>,
    ws: WorkspaceView,
    fix: PlannedFixView,
)
    requires
        names_lockfile(path),
    ensures
        npm_fixes(rule_id, incident, package, new_version, path, ws).contains(fix) <==> (
        nearest_manifest(ws, path) matches Some(manifest) && exists|k: int|
            0 <= k < actionable_parents(ws, path, manifest, package).len() && is_parent_fix(
                rule_id,
                manifest,
                #[trigger] actionable_parents(ws, path, manifest, package)[k],
                package,
                major_of(new_version),
                ws,
                fix,
            )),
{
    match nearest_manifest(ws, path) {
        Some(manifest) => {
            let parents = actionable_parents(ws, path, manifest, package);
            lemma_parent_fixes(
                rule_id,
                manifest,
                parents,
                package,
                major_of(new_version),
                ws,
                parents.len() as int,
                fix,
            );
        },
        None => {},
    }
}

} // verus!
