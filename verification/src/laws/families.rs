//! What the requests of a family become: nothing that a request says or asks
//! for is lost in the one that stands for them.

use crate::engine::family::{
    block, changed_props, chosen, code_text, consolidated, context_section, context_text,
    deprecated_text, ended, family_from, family_head, first_line, group_place, group_request, groups_of,
    indented, known_family, member_head, member_labels, member_tests, members_text, row, rule_seen,
    section_body, snip_is_new, snips_text, strategy_section, strategy_text, target_text, telling,
    ungrouped, GroupView,
};
use crate::engine::test_requests::{candidates, test_request, test_requests, Candidate};
use crate::laws::changes::lemma_inside;
use crate::laws::requests::{
    is_grouped, law_each_request_is_grouped_or_kept, law_every_test_file_is_covered,
};
use crate::laws::tables::{has_key, law_distinct_holds_each_value_once, law_keys_hold_each_key_once};
use crate::laws::words::{is_first_at, law_search_finds_the_first_place, lemma_first_from};
use crate::model::LlmFixRequestView;
use crate::order::{path_same, ByPath, KeyOrder};
use crate::strategy::{
    all_type_lines, all_value_lines, table_lines, PropMigrationEntryView, StrategyEntryView,
};
use crate::table::lookup;
use crate::text::{
    begins, decimal, has_text, joined, lemma_find_from, lemma_has_text_reflexive, lines_of, trimmed,
};
use vstd::prelude::*;

verus! {

broadcast use vstd::string::group_string_axioms;

// ---------------------------------------------------------------------
// Belonging to a family
// ---------------------------------------------------------------------

/// The request names the family: its first label that names one names it,
/// and there is an entry for it.
pub open spec fn is_of_family(
    request: LlmFixRequestView,
    entries: Seq<(Seq<char>, StrategyEntryView)>,
    family: Seq<char>,
) -> bool {
    &&& exists|k: int|
        0 <= k < request.labels.len() && #[trigger] request.labels[k] == "family="@ + family
            && forall|j: int| 0 <= j < k ==> !begins(#[trigger] request.labels[j], "family="@)
    &&& lookup(entries, "family:"@ + family) is Some
}

proof fn lemma_family_label(labels: Seq<Seq<char>>, k: int, family: Seq<char>, i: int)
    requires
        0 <= i <= k < labels.len(),
        labels[k] == "family="@ + family,
        forall|j: int| 0 <= j < k ==> !begins(#[trigger] labels[j], "family="@),
    ensures
        family_from(labels, i) == Some(family),
    decreases k - i,
{
    if i < k {
        assert(!begins(labels[i], "family="@));
        lemma_family_label(labels, k, family, i + 1);
    } else {
        assert(labels[k].subrange(0, "family="@.len() as int) =~= "family="@);
        assert(labels[k].skip("family="@.len() as int) =~= family);
    }
}

proof fn lemma_no_family_label(labels: Seq<Seq<char>>, i: int)
    requires
        0 <= i <= labels.len(),
        forall|j: int| 0 <= j < labels.len() ==> !begins(#[trigger] labels[j], "family="@),
    ensures
        family_from(labels, i) is None,
    decreases labels.len() - i,
{
    if i < labels.len() {
        lemma_no_family_label(labels, i + 1);
    }
}

/// A request belongs to the family that its first family label names, where
/// there is an entry for that family, and to none otherwise.
pub proof fn law_family_of_a_request(
    request: LlmFixRequestView,
    entries: Seq<(Seq<char>, StrategyEntryView)>,
    family: Seq<char>,
)
    ensures
        is_of_family(request, entries, family) ==> known_family(request, entries) == Some(family),
        (forall|j: int|
            0 <= j < request.labels.len() ==> !begins(#[trigger] request.labels[j], "family="@))
            ==> known_family(request, entries) is None,
        entries.len() == 0 ==> known_family(request, entries) is None,
{
    if is_of_family(request, entries, family) {
        let k = choose|k: int|
            0 <= k < request.labels.len() && #[trigger] request.labels[k] == "family="@ + family
                && forall|j: int| 0 <= j < k ==> !begins(#[trigger] request.labels[j], "family="@);
        lemma_family_label(request.labels, k, family, 0);
    }
    if forall|j: int|
        0 <= j < request.labels.len() ==> !begins(#[trigger] request.labels[j], "family="@) {
        lemma_no_family_label(request.labels, 0);
    }
}

// ---------------------------------------------------------------------
// Parts of a message
// ---------------------------------------------------------------------

pub proof fn lemma_joined_holds(parts: Seq<Seq<char>>, sep: Seq<char>, k: int)
    requires
        0 <= k < parts.len(),
    ensures
        has_text(joined(parts, sep), parts[k]),
    decreases parts.len(),
{
    lemma_has_text_reflexive(parts[k]);
    if parts.len() > 1 {
        let front = joined(parts.drop_last(), sep);
        if k < parts.len() - 1 {
            lemma_joined_holds(parts.drop_last(), sep, k);
            lemma_inside(front, sep, parts[k]);
        }
        lemma_inside(front + sep, parts.last(), parts[k]);
    }
}

proof fn lemma_ended_holds(all: Seq<Seq<char>>, n: int, k: int)
    requires
        0 <= k < n <= all.len(),
    ensures
        has_text(ended(all, n), all[k]),
    decreases n,
{
    let before = ended(all, n - 1);
    lemma_has_text_reflexive(all[k]);
    if k < n - 1 {
        lemma_ended_holds(all, n - 1, k);
    }
    lemma_inside(before, all[n - 1], all[k]);
    lemma_inside(before + all[n - 1], "\n"@, all[k]);
}

/// What the heading of member `k` says: its line and its rule.
pub open spec fn heading(r: LlmFixRequestView, seen: bool) -> Seq<char> {
    if seen {
        "Line "@ + decimal(r.line as nat) + ": (same rule "@ + r.rule_id + ")"@
    } else {
        "Line "@ + decimal(r.line as nat) + ": ["@ + r.rule_id + "]"@
    }
}

proof fn lemma_head_holds(requests: Seq<LlmFixRequestView>, members: Seq<int>, k: int)
    requires
        0 <= k < members.len(),
    ensures
        has_text(
            member_head(requests, members, k),
            heading(requests[members[k]], rule_seen(requests, members, k)),
        ),
{
    let r = requests[members[k]];
    let seen = rule_seen(requests, members, k);
    let x = heading(r, seen);
    reveal_strlit("  Line ");
    reveal_strlit("Line ");
    reveal_strlit(")\n");
    reveal_strlit(")");
    reveal_strlit("]\n");
    reveal_strlit("]");
    let two = seq![' ', ' '];
    let feed = seq!['\n'];
    assert("  Line "@ =~= two + "Line "@);
    assert(")\n"@ =~= ")"@ + feed);
    assert("]\n"@ =~= "]"@ + feed);
    assert(member_head(requests, members, k) =~= two + x + feed);
    lemma_has_text_reflexive(x);
    lemma_inside(two, x, x);
    lemma_inside(two + x, feed, x);
}

proof fn lemma_members_hold(
    requests: Seq<LlmFixRequestView>,
    members: Seq<int>,
    n: int,
    k: int,
    x: Seq<char>,
)
    requires
        0 <= k < n <= members.len(),
        has_text(member_head(requests, members, k), x) || has_text(
            context_text(requests[members[k]].message),
            x,
        ) || has_text(strategy_text(requests[members[k]].message), x),
    ensures
        has_text(members_text(requests, members, n), x),
    decreases n,
{
    let before = members_text(requests, members, n - 1);
    let head = member_head(requests, members, n - 1);
    let context = context_text(requests[members[n - 1]].message);
    let strategy = strategy_text(requests[members[n - 1]].message);
    if k < n - 1 {
        lemma_members_hold(requests, members, n - 1, k, x);
    }
    if k < n - 1 || has_text(head, x) {
        lemma_inside(before, head, x);
        lemma_inside(before + head, context, x);
    } else if has_text(context, x) {
        lemma_inside(before + head, context, x);
    }
    lemma_inside(before + head + context, strategy, x);
}

proof fn lemma_snips_hold(requests: Seq<LlmFixRequestView>, members: Seq<int>, n: int, k: int)
    requires
        0 <= k < n <= members.len(),
        requests[members[k]].code_snip is Some,
    ensures
        has_text(snips_text(requests, members, n), requests[members[k]].code_snip->0),
    decreases n, k,
{
    let x = requests[members[k]].code_snip->0;
    let before = snips_text(requests, members, n - 1);
    if !snip_is_new(requests, members, k) {
        let j = choose|j: int|
            0 <= j < k && requests[#[trigger] members[j]].code_snip
                == requests[members[k]].code_snip;
        lemma_snips_hold(requests, members, n, j);
    } else if k == n - 1 {
        let r = requests[members[k]];
        let head = "  (line "@ + decimal(r.line as nat) + "):\n"@;
        lemma_has_text_reflexive(x);
        lemma_inside(head, x, x);
        lemma_inside(head + x, "\n"@, x);
        lemma_inside(before, head + x + "\n"@, x);
        assert(snips_text(requests, members, n) =~= before + (head + x + "\n"@));
    } else {
        lemma_snips_hold(requests, members, n - 1, k);
        if snip_is_new(requests, members, n - 1) {
            let r = requests[members[n - 1]];
            lemma_inside(
                before,
                "  (line "@ + decimal(r.line as nat) + "):\n"@ + r.code_snip->0 + "\n"@,
                x,
            );
        }
    }
}

proof fn lemma_labels_hold(
    requests: Seq<LlmFixRequestView>,
    members: Seq<int>,
    n: int,
    k: int,
    x: Seq<char>,
)
    requires
        0 <= k < n <= members.len(),
        requests[members[k]].labels.contains(x),
    ensures
        member_labels(requests, members, n).contains(x),
    decreases n,
{
    let before = member_labels(requests, members, n - 1);
    let more = requests[members[n - 1]].labels;
    let now = member_labels(requests, members, n);
    if k == n - 1 {
        let j = choose|j: int| 0 <= j < more.len() && more[j] == x;
        assert(now[before.len() + j] == x);
    } else {
        lemma_labels_hold(requests, members, n - 1, k, x);
        let j = choose|j: int| 0 <= j < before.len() && before[j] == x;
        assert(now[j] == x);
    }
}

proof fn lemma_tests_hold(
    requests: Seq<LlmFixRequestView>,
    members: Seq<int>,
    n: int,
    k: int,
    x: Seq<char>,
)
    requires
        0 <= k < n <= members.len(),
        requests[members[k]].companion_test_files.contains(x),
    ensures
        member_tests(requests, members, n).contains(x),
    decreases n,
{
    let before = member_tests(requests, members, n - 1);
    let more = requests[members[n - 1]].companion_test_files;
    let now = member_tests(requests, members, n);
    if k == n - 1 {
        let j = choose|j: int| 0 <= j < more.len() && more[j] == x;
        assert(now[before.len() + j] == x);
    } else {
        lemma_tests_hold(requests, members, n - 1, k, x);
        let j = choose|j: int| 0 <= j < before.len() && before[j] == x;
        assert(now[j] == x);
    }
}

proof fn lemma_first_line(requests: Seq<LlmFixRequestView>, members: Seq<int>, n: int, k: int)
    requires
        0 <= k < n <= members.len(),
    ensures
        first_line(requests, members, n) <= requests[members[k]].line,
        exists|j: int|
            0 <= j < n && requests[#[trigger] members[j]].line == first_line(requests, members, n),
    decreases n,
{
    if n > 1 {
        if k < n - 1 {
            lemma_first_line(requests, members, n - 1, k);
        } else {
            lemma_first_line(requests, members, n - 1, 0);
        }
        let before = first_line(requests, members, n - 1);
        let j = choose|j: int| 0 <= j < n - 1 && requests[#[trigger] members[j]].line == before;
        if requests[members[n - 1]].line < before {
            assert(requests[members[n - 1]].line == first_line(requests, members, n));
        } else {
            assert(requests[members[j]].line == first_line(requests, members, n));
        }
    } else {
        assert(requests[members[0]].line == first_line(requests, members, n));
    }
}

/// The request only tells of a base class or of a reference type.
pub open spec fn is_empty_talk(r: LlmFixRequestView) -> bool {
    &&& r.labels.contains("change-type=signature-changed"@) || r.labels.contains(
        "change-type=type-changed"@,
    )
    &&& has_text(r.message, "base class changed"@) || has_text(r.message, "RefAttributes"@)
}

proof fn lemma_telling(requests: Seq<LlmFixRequestView>, members: Seq<int>, n: int)
    requires
        0 <= n <= members.len(),
    ensures
        forall|k: int|
            0 <= k < n && !is_empty_talk(requests[#[trigger] members[k]]) ==> telling(
                requests,
                members,
                n,
            ).contains(members[k]),
        forall|j: int|
            0 <= j < telling(requests, members, n).len() ==> members.contains(
                #[trigger] telling(requests, members, n)[j],
            ) && !is_empty_talk(requests[telling(requests, members, n)[j]]),
    decreases n,
{
    if n > 0 {
        lemma_telling(requests, members, n - 1);
        let before = telling(requests, members, n - 1);
        let now = telling(requests, members, n);
        assert forall|k: int| 0 <= k < n && !is_empty_talk(requests[#[trigger] members[k]]) implies
            now.contains(members[k]) by {
            if k == n - 1 {
                assert(now[before.len() as int] == members[k]);
            } else {
                let j = choose|j: int| 0 <= j < before.len() && before[j] == members[k];
                assert(now[j] == members[k]);
            }
        }
        assert forall|j: int| 0 <= j < now.len() implies members.contains(#[trigger] now[j])
            && !is_empty_talk(requests[now[j]]) by {
            if j < before.len() {
                assert(now[j] == before[j]);
            } else {
                assert(now[j] == members[n - 1]);
            }
        }
    }
}

// ---------------------------------------------------------------------
// Joining
// ---------------------------------------------------------------------

/// The file is among the files.
pub open spec fn has_path(files: Seq<Seq<char>>, path: Seq<char>) -> bool {
    exists|j: int| 0 <= j < files.len() && path_same(#[trigger] files[j], path)
}

/// Request `joint` stands for request `r` of the family: it is for the same
/// file, names the family, and asks for r's tests; and where it tells of
/// `r`, it gives its line, its rule, its labels and its code. The rule is
/// named in full where no other request is of it.
pub open spec fn stands_for(
    joint: LlmFixRequestView,
    r: LlmFixRequestView,
    family: Seq<char>,
    told: bool,
    alone: bool,
) -> bool {
    &&& joint.rule_id == "family:"@ + family
    &&& path_same(joint.file_path, r.file_path)
    &&& has_text(joint.message, family)
    &&& forall|k: int|
        0 <= k < r.companion_test_files.len() ==> has_path(
            joint.companion_test_files,
            #[trigger] r.companion_test_files[k],
        )
    &&& told ==> {
        &&& joint.line <= r.line
        &&& has_text(joint.message, heading(r, true)) || has_text(joint.message, heading(r, false))
        &&& alone ==> has_text(joint.message, heading(r, false))
        &&& forall|x: Seq<char>| #[trigger] r.labels.contains(x) ==> joint.labels.contains(x)
        &&& r.code_snip matches Some(code) ==> has_text(joint.message, code)
    }
}

proof fn lemma_family_named(family: Seq<char>, e: StrategyEntryView)
    ensures
        has_text(family_head(family, e), family),
{
    let rest = family_head(family, e);
    lemma_has_text_reflexive(family);
    lemma_inside("## "@, family, family);
    let a = "## "@ + family;
    lemma_inside(a, " Family Migration\n"@, family);
    let b = a + " Family Migration\n"@;
    lemma_head_parts(family, e, b, family);
}

/// What the first part of the head holds, the head holds.
proof fn lemma_head_parts(family: Seq<char>, e: StrategyEntryView, b: Seq<char>, x: Seq<char>)
    requires
        b == "## "@ + family + " Family Migration\n"@,
        has_text(b, x),
    ensures
        has_text(family_head(family, e), x),
{
    let head = family_head(family, e);
    assert(head.subrange(0, b.len() as int) =~= b);
    assert(head =~= b + head.skip(b.len() as int));
    lemma_inside(b, head.skip(b.len() as int), x);
}

proof fn lemma_member_told(
    requests: Seq<LlmFixRequestView>,
    e: StrategyEntryView,
    g: GroupView,
    k: int,
)
    requires
        0 <= k < chosen(requests, g.members).len(),
    ensures
        ({
            let joint = group_request(requests, e, g);
            let r = requests[chosen(requests, g.members)[k]];
            &&& joint.line <= r.line
            &&& has_text(joint.message, heading(r, true)) || has_text(
                joint.message,
                heading(r, false),
            )
            &&& !rule_seen(requests, chosen(requests, g.members), k) ==> has_text(
                joint.message,
                heading(r, false),
            )
            &&& forall|x: Seq<char>| #[trigger] r.labels.contains(x) ==> joint.labels.contains(x)
            &&& r.code_snip matches Some(code) ==> has_text(joint.message, code)
        }),
{
    let joint = group_request(requests, e, g);
    let some = chosen(requests, g.members);
    let n = some.len() as int;
    let r = requests[some[k]];
    let head = family_head(g.family, e);
    let title = "\nIncidents found in this file:\n"@;
    let body = members_text(requests, some, n);
    let code = code_text(requests, some);
    lemma_first_line(requests, some, n, k);
    let seen = rule_seen(requests, some, k);
    let x = heading(r, seen);
    lemma_head_holds(requests, some, k);
    lemma_members_hold(requests, some, n, k, x);
    lemma_inside(head + title, body, x);
    lemma_inside(head + title + body, code, x);
    let labels = member_labels(requests, some, n);
    law_distinct_holds_each_value_once(labels, labels.len() as int);
    assert(labels.take(labels.len() as int) =~= labels);
    assert forall|y: Seq<char>| #[trigger] r.labels.contains(y) implies joint.labels.contains(y) by {
        lemma_labels_hold(requests, some, n, k, y);
    }
    match r.code_snip {
        Some(c) => {
            lemma_snips_hold(requests, some, n, k);
            assert(requests[some[k]].code_snip is Some);
            lemma_inside("\nCode contexts:\n"@, snips_text(requests, some, n), c);
            lemma_inside(head + title + body, code, c);
        },
        None => {},
    }
}

/// Each request of a known family is joined: one request stands for it, for
/// the same file. That one names the family and asks for all test files of
/// the request, and it tells of the request, unless the request only tells
/// of a base class or a reference type.
pub proof fn law_joint_request_stands_for_each(
    requests: Seq<LlmFixRequestView>,
    entries: Seq<(Seq<char>, StrategyEntryView)>,
    family: Seq<char>,
    i: int,
)
    requires
        0 <= i < requests.len(),
        is_of_family(requests[i], entries, family),
    ensures
        exists|k: int|
            0 <= k < consolidated(requests, entries).len() && stands_for(
                #[trigger] consolidated(requests, entries)[k],
                requests[i],
                family,
                !is_empty_talk(requests[i]),
                is_only_one(requests, i),
            ),
{
    let n = requests.len() as int;
    let groups = groups_of(requests, entries, n);
    let kept = ungrouped(requests, entries, n);
    law_family_of_a_request(requests[i], entries, family);
    law_each_request_is_grouped_or_kept(requests, entries, n);
    assert(is_grouped(requests, groups, family, i));
    let k = choose|k: int|
        0 <= k < groups.len() && (#[trigger] groups[k]).members.contains(i) && groups[k].family
            == family && path_same(groups[k].path, requests[i].file_path);
    let g = groups[k];
    let e = lookup(entries, "family:"@ + family)->0;
    let joint = group_request(requests, e, g);
    assert(consolidated(requests, entries)[kept.len() + k] == joint);
    let some = chosen(requests, g.members);
    let size = some.len() as int;
    let members = g.members;
    let at = choose|at: int| 0 <= at < members.len() && members[at] == i;
    // The family
    lemma_family_named(family, e);
    let head = family_head(family, e);
    let title = "\nIncidents found in this file:\n"@;
    let body = members_text(requests, some, size);
    let code = code_text(requests, some);
    lemma_inside(head, title, family);
    lemma_inside(head + title, body, family);
    lemma_inside(head + title + body, code, family);
    // The tests
    let tests = member_tests(requests, members, members.len() as int);
    law_keys_hold_each_key_once::<ByPath>(tests, tests.len() as int);
    assert forall|t: int| 0 <= t < requests[i].companion_test_files.len() implies has_path(
        joint.companion_test_files,
        #[trigger] requests[i].companion_test_files[t],
    ) by {
        let x = requests[i].companion_test_files[t];
        assert(requests[i].companion_test_files.contains(x));
        lemma_tests_hold(requests, members, members.len() as int, at, x);
        let m = choose|m: int| 0 <= m < tests.len() && tests[m] == x;
        let keys = joint.companion_test_files;
        assert(has_key::<ByPath>(keys, tests[m]));
        let j = choose|j: int| 0 <= j < keys.len() && ByPath::same(#[trigger] keys[j], x);
        assert(path_same(keys[j], x));
    }
    // What it tells
    if !is_empty_talk(requests[i]) {
        lemma_telling(requests, members, members.len() as int);
        assert(telling(requests, members, members.len() as int).contains(members[at]));
        let k = first_place(some, i, 0);
        lemma_first_place(some, i, 0);
        lemma_member_told(requests, e, g, k);
        if is_only_one(requests, i) {
            lemma_members_in_range(requests, entries, n, g, some);
            assert(!rule_seen(requests, some, k)) by {
                if rule_seen(requests, some, k) {
                    let j = choose|j: int|
                        0 <= j < k && requests[#[trigger] some[j]].rule_id
                            == requests[some[k]].rule_id;
                    assert(some[j] != i);
                    assert(requests[some[j]].rule_id == requests[i].rule_id);
                }
            }
        }
    }
}

/// No other request is of the same rule.
pub open spec fn is_only_one(requests: Seq<LlmFixRequestView>, i: int) -> bool {
    forall|j: int|
        0 <= j < requests.len() && j != i ==> (#[trigger] requests[j]).rule_id
            != requests[i].rule_id
}

spec fn first_place(s: Seq<int>, x: int, i: int) -> int
    decreases s.len() - i,
{
    if 0 <= i < s.len() && s[i] != x {
        first_place(s, x, i + 1)
    } else {
        i
    }
}

proof fn lemma_first_place(s: Seq<int>, x: int, i: int)
    requires
        0 <= i <= s.len(),
        s.contains(x),
        forall|j: int| 0 <= j < i ==> s[j] != x,
    ensures
        i <= first_place(s, x, i) < s.len(),
        s[first_place(s, x, i)] == x,
        forall|j: int| 0 <= j < first_place(s, x, i) ==> s[j] != x,
    decreases s.len() - i,
{
    if i < s.len() {
        if s[i] != x {
            lemma_first_place(s, x, i + 1);
        }
    } else {
        let j = choose|j: int| 0 <= j < s.len() && s[j] == x;
        assert(false);
    }
}

proof fn lemma_groups_in_range(
    requests: Seq<LlmFixRequestView>,
    entries: Seq<(Seq<char>, StrategyEntryView)>,
    n: int,
)
    requires
        0 <= n <= requests.len(),
    ensures
        forall|g: int, m: int|
            0 <= g < groups_of(requests, entries, n).len() && 0 <= m < groups_of(
                requests,
                entries,
                n,
            )[g].members.len() ==> 0 <= #[trigger] groups_of(requests, entries, n)[g].members[m]
                < n,
    decreases n,
{
    if n > 0 {
        lemma_groups_in_range(requests, entries, n - 1);
        let before = groups_of(requests, entries, n - 1);
        let now = groups_of(requests, entries, n);
        let path = requests[n - 1].file_path;
        match known_family(requests[n - 1], entries) {
            None => {},
            Some(family) => {
                let i = group_place(before, path, family, 0);
                lemma_place_bounds(before, path, family, 0);
                assert forall|g: int, m: int|
                    0 <= g < now.len() && 0 <= m < now[g].members.len() implies 0
                    <= #[trigger] now[g].members[m] < n by {
                    if i < before.len() && path_same(before[i].path, path) && before[i].family
                        == family {
                        if g == i {
                            if m < before[i].members.len() {
                                assert(now[g].members[m] == before[i].members[m]);
                            }
                        } else {
                            assert(now[g] == before[g]);
                            assert(0 <= before[g].members[m] < n - 1);
                        }
                    } else if g < i {
                        assert(now[g] == before[g]);
                        assert(0 <= before[g].members[m] < n - 1);
                    } else if g > i {
                        assert(now[g] == before[g - 1]);
                        assert(0 <= before[g - 1].members[m] < n - 1);
                    }
                }
            },
        }
    }
}

proof fn lemma_place_bounds(groups: Seq<GroupView>, path: Seq<char>, family: Seq<char>, i: int)
    requires
        0 <= i <= groups.len(),
    ensures
        i <= group_place(groups, path, family, i) <= groups.len(),
    decreases groups.len() - i,
{
    if i < groups.len() {
        lemma_place_bounds(groups, path, family, i + 1);
    }
}

proof fn lemma_members_in_range(
    requests: Seq<LlmFixRequestView>,
    entries: Seq<(Seq<char>, StrategyEntryView)>,
    n: int,
    g: GroupView,
    some: Seq<int>,
)
    requires
        n == requests.len(),
        groups_of(requests, entries, n).contains(g),
        some == chosen(requests, g.members),
    ensures
        forall|j: int| 0 <= j < some.len() ==> 0 <= #[trigger] some[j] < n,
{
    lemma_groups_in_range(requests, entries, n);
    let groups = groups_of(requests, entries, n);
    let k = choose|k: int| 0 <= k < groups.len() && groups[k] == g;
    lemma_telling(requests, g.members, g.members.len() as int);
    assert forall|j: int| 0 <= j < some.len() implies 0 <= #[trigger] some[j] < n by {
        if telling(requests, g.members, g.members.len() as int).len() == 0 {
            assert(some[j] == groups[k].members[j]);
        } else {
            assert(g.members.contains(some[j]));
            let m = choose|m: int| 0 <= m < g.members.len() && g.members[m] == some[j];
            assert(groups[k].members[m] == some[j]);
        }
    }
}

proof fn lemma_ungrouped(
    requests: Seq<LlmFixRequestView>,
    entries: Seq<(Seq<char>, StrategyEntryView)>,
    n: int,
    i: int,
)
    requires
        0 <= i < n <= requests.len(),
        known_family(requests[i], entries) is None,
    ensures
        ungrouped(requests, entries, n).contains(requests[i]),
    decreases n,
{
    let before = ungrouped(requests, entries, n - 1);
    let now = ungrouped(requests, entries, n);
    if i == n - 1 {
        assert(now[before.len() as int] == requests[i]);
    } else {
        lemma_ungrouped(requests, entries, n - 1, i);
        let j = choose|j: int| 0 <= j < before.len() && before[j] == requests[i];
        assert(now[j] == requests[i]);
    }
}

/// A request of no known family stays as it is.
pub proof fn law_other_requests_stay(
    requests: Seq<LlmFixRequestView>,
    entries: Seq<(Seq<char>, StrategyEntryView)>,
    i: int,
)
    requires
        0 <= i < requests.len(),
        known_family(requests[i], entries) is None,
    ensures
        consolidated(requests, entries).contains(requests[i]),
{
    let n = requests.len() as int;
    let kept = ungrouped(requests, entries, n);
    lemma_ungrouped(requests, entries, n, i);
    let j = choose|j: int| 0 <= j < kept.len() && kept[j] == requests[i];
    assert(consolidated(requests, entries)[j] == requests[i]);
}

// ---------------------------------------------------------------------
// What the message of a request holds
// ---------------------------------------------------------------------

/// The variables that a message lists stand between their heading and that of
/// the strategy, and the strategy goes on to the end.
pub proof fn law_sections_of_a_message(
    a: Seq<char>,
    variables: Seq<char>,
    strategy: Seq<char>,
)
    requires
        is_first_at(
            a + "\n\nIncident context:"@ + variables + "\n\nFix strategy:"@ + strategy,
            "\n\nIncident context:"@,
            a.len() as int,
        ),
        is_first_at(
            a + "\n\nIncident context:"@ + variables + "\n\nFix strategy:"@ + strategy,
            "\n\nFix strategy:"@,
            a.len() as int + "\n\nIncident context:"@.len() + variables.len(),
        ),
    ensures
        ({
            let message = a + "\n\nIncident context:"@ + variables + "\n\nFix strategy:"@ + strategy;
            &&& context_section(message) == Some("\n\nIncident context:"@ + variables)
            &&& strategy_section(message) == Some("\n\nFix strategy:"@ + strategy)
        }),
{
    let head = "\n\nIncident context:"@;
    let next = "\n\nFix strategy:"@;
    let message = a + head + variables + next + strategy;
    let v = a.len() as int;
    let t = v + head.len() + variables.len();
    law_search_finds_the_first_place(message, head, v);
    law_search_finds_the_first_place(message, next, t);
    lemma_first_from(message, next, v, t);
    assert(message.subrange(v, t) =~= head + variables);
    assert(message.subrange(t, message.len() as int) =~= next + strategy);
}

/// A message that lists variables and no strategy lists them to its end, and
/// one without either has no such parts.
pub proof fn law_message_without_a_strategy(message: Seq<char>, v: int)
    requires
        !has_text(message, "\n\nFix strategy:"@),
    ensures
        is_first_at(message, "\n\nIncident context:"@, v) ==> context_section(message) == Some(
            message.subrange(v, message.len() as int),
        ),
        !has_text(message, "\n\nIncident context:"@) ==> context_section(message) is None,
        strategy_section(message) is None,
{
    lemma_find_from(message, "\n\nFix strategy:"@, 0);
    lemma_find_from(message, "\n\nIncident context:"@, 0);
    if is_first_at(message, "\n\nIncident context:"@, v) {
        law_search_finds_the_first_place(message, "\n\nIncident context:"@, v);
        lemma_find_from(message, "\n\nFix strategy:"@, v);
    }
}

proof fn lemma_indented(all: Seq<Seq<char>>, indent: Seq<char>, n: int, k: int)
    requires
        1 <= k < n <= all.len(),
    ensures
        has_text(indented(all, indent, n), indent + trimmed(all[k]) + "\n"@),
    decreases n,
{
    let x = indent + trimmed(all[k]) + "\n"@;
    let before = indented(all, indent, n - 1);
    if k < n - 1 {
        lemma_indented(all, indent, n - 1, k);
    } else {
        lemma_has_text_reflexive(x);
    }
    lemma_inside(before, indent + trimmed(all[n - 1]) + "\n"@, x);
}

/// Each line of a section behind its heading is told, trimmed and indented,
/// and the heading is not.
pub proof fn law_lines_of_a_section(section: Seq<char>, indent: Seq<char>, k: int)
    ensures
        1 <= k < lines_of(trimmed(section)).len() ==> has_text(
            section_body(section, indent),
            indent + trimmed(lines_of(trimmed(section))[k]) + "\n"@,
        ),
        lines_of(trimmed(section)).len() <= 1 ==> section_body(section, indent).len() == 0,
{
    let all = lines_of(trimmed(section));
    if 1 <= k < all.len() {
        lemma_indented(all, indent, all.len() as int, k);
    }
}

/// A property that survives with another name is told with both, and one with
/// another type with both types; one that stays as it is is not told.
pub proof fn law_changed_properties_are_told(
    props: Seq<PropMigrationEntryView>,
    n: int,
    k: int,
)
    requires
        0 <= k < n <= props.len(),
    ensures
        !props[k].type_changed && props[k].old_name != props[k].new_name ==> changed_props(
            props,
            n,
        ).contains(
            "  "@ + props[k].old_name + " -> "@ + props[k].new_name + " (renamed, type unchanged)"@,
        ),
        props[k].type_changed ==> exists|j: int|
            0 <= j < changed_props(props, n).len() && begins(
                #[trigger] changed_props(props, n)[j],
                "  "@ + props[k].old_name + " -> "@ + props[k].new_name + " (TYPE CHANGED):"@,
            ),
        (forall|j: int|
            0 <= j < n ==> !(#[trigger] props[j]).type_changed && props[j].old_name
                == props[j].new_name) ==> changed_props(props, n).len() == 0,
    decreases n,
{
    let p = props[n - 1];
    let before = changed_props(props, n - 1);
    let now = changed_props(props, n);
    if n == 1 {
        assert(before.len() == 0);
    } else {
        law_changed_properties_are_told(props, n - 1, if k < n - 1 { k } else { 0 });
    }
    if k == n - 1 {
        if p.type_changed {
            let lead = "  "@ + p.old_name + " -> "@ + p.new_name;
            let line = lead + " (TYPE CHANGED):\n    old: "@ + crate::strategy::or_else(
                p.old_type,
                "?"@,
            ) + "\n    new: "@ + crate::strategy::or_else(p.new_type, "?"@);
            assert(now[before.len() as int] == line);
            reveal_strlit(" (TYPE CHANGED):\n    old: ");
            reveal_strlit(" (TYPE CHANGED):");
            let x = lead + " (TYPE CHANGED):"@;
            assert(line.subrange(0, x.len() as int) =~= x);
        } else if p.old_name != p.new_name {
            let x = "  "@ + p.old_name + " -> "@ + p.new_name + " (renamed, type unchanged)"@;
            assert(now[before.len() as int] == x);
        }
    } else {
        if props[k].type_changed {
            let x = "  "@ + props[k].old_name + " -> "@ + props[k].new_name + " (TYPE CHANGED):"@;
            let j = choose|j: int| 0 <= j < before.len() && begins(#[trigger] before[j], x);
            assert(now[j] == before[j]);
        } else if props[k].old_name != props[k].new_name {
            let x = "  "@ + props[k].old_name + " -> "@ + props[k].new_name
                + " (renamed, type unchanged)"@;
            let j = choose|j: int| 0 <= j < before.len() && before[j] == x;
            assert(now[j] == x);
        }
    }
}

// ---------------------------------------------------------------------
// What the entry of a family tells
// ---------------------------------------------------------------------

/// The first `n` parts, one after the other.
spec fn in_a_row(parts: Seq<Seq<char>>, n: int) -> Seq<char>
    decreases n,
{
    if n <= 1 {
        parts[0]
    } else {
        in_a_row(parts, n - 1) + parts[n - 1]
    }
}

proof fn lemma_row_part(parts: Seq<Seq<char>>, n: int, k: int, x: Seq<char>)
    requires
        0 <= k < n <= parts.len(),
        has_text(parts[k], x),
    ensures
        has_text(in_a_row(parts, n), x),
    decreases n,
{
    if n > 1 {
        if k < n - 1 {
            lemma_row_part(parts, n - 1, k, x);
        }
        lemma_inside(in_a_row(parts, n - 1), parts[n - 1], x);
    }
}

/// The parts of the message about a family.
spec fn head_parts(family: Seq<char>, e: StrategyEntryView) -> Seq<Seq<char>> {
    seq![
        "## "@,
        family,
        " Family Migration\n"@,
        target_text(e.target_structure),
        row("\nProps that stay on <"@ + family + ">: "@, e.retained_props, "\n"@),
        block(
            e.prop_to_child.len() > 0,
            "\nProps that move to child components:\n"@,
            table_lines(e.prop_to_child, " -> <"@, " />"@),
        ),
        block(
            e.unmapped_removed_props.len() > 0,
            "\nRemoved props (move to child component as children or remove):\n"@,
            table_lines(e.unmapped_removed_props, " -> "@, ""@),
        ),
        block(
            e.child_props_to_parent.len() > 0,
            "\nChild props that move to parent:\n"@,
            table_lines(e.child_props_to_parent, " -> "@, ""@),
        ),
        row("\nRemoved children (no longer valid JSX): "@, e.removed_children, "\n"@),
        row(
            "\nAdd imports: "@,
            e.new_imports,
            " from '"@ + crate::strategy::or_else(e.import_source, "(same package)"@) + "'\n"@,
        ),
        row("\nRemove imports (if no longer used): "@, e.removed_imports, "\n"@),
        block(
            e.prop_value_changes.len() > 0,
            "\nProp value changes:\n"@,
            all_value_lines(e.prop_value_changes, e.prop_value_changes.len() as int),
        ),
        block(
            e.prop_type_changes.len() > 0,
            "\nProp type changes:\n"@,
            all_type_lines(e.prop_type_changes, e.prop_type_changes.len() as int),
        ),
        deprecated_text(e.deprecated_migration),
    ]
}

proof fn lemma_head_part(family: Seq<char>, e: StrategyEntryView, k: int, x: Seq<char>)
    requires
        0 <= k < 14,
        has_text(head_parts(family, e)[k], x),
    ensures
        has_text(family_head(family, e), x),
{
    let parts = head_parts(family, e);
    reveal_with_fuel(in_a_row, 15);
    assert(in_a_row(parts, 14) == family_head(family, e));
    lemma_row_part(parts, 14, k, x);
}

proof fn lemma_row_holds(label: Seq<char>, items: Seq<Seq<char>>, end: Seq<char>, k: int)
    requires
        0 <= k < items.len(),
    ensures
        has_text(row(label, items, end), items[k]),
{
    let list = joined(items, ", "@);
    lemma_joined_holds(items, ", "@, k);
    lemma_inside(label, list, items[k]);
    lemma_inside(label + list, end, items[k]);
}

proof fn lemma_block_holds(label: Seq<char>, all: Seq<Seq<char>>, k: int)
    requires
        0 <= k < all.len(),
    ensures
        has_text(block(true, label, all), all[k]),
{
    lemma_ended_holds(all, all.len() as int, k);
    lemma_inside(label, ended(all, all.len() as int), all[k]);
}

/// The message about a family holds its target structure, the properties
/// that stay, move or go, the children that go, and the imports to add and
/// to remove.
pub proof fn law_family_message_tells_the_entry(
    family: Seq<char>,
    e: StrategyEntryView,
    k: int,
)
    ensures
        e.target_structure matches Some(t) ==> has_text(family_head(family, e), t),
        0 <= k < e.retained_props.len() ==> has_text(
            family_head(family, e),
            e.retained_props[k],
        ),
        0 <= k < e.prop_to_child.len() ==> has_text(
            family_head(family, e),
            e.prop_to_child[k].0 + " -> <"@ + e.prop_to_child[k].1 + " />"@,
        ),
        0 <= k < e.unmapped_removed_props.len() ==> has_text(
            family_head(family, e),
            e.unmapped_removed_props[k].0 + " -> "@ + e.unmapped_removed_props[k].1,
        ),
        0 <= k < e.child_props_to_parent.len() ==> has_text(
            family_head(family, e),
            e.child_props_to_parent[k].0 + " -> "@ + e.child_props_to_parent[k].1,
        ),
        0 <= k < e.removed_children.len() ==> has_text(
            family_head(family, e),
            e.removed_children[k],
        ),
        0 <= k < e.new_imports.len() ==> has_text(family_head(family, e), e.new_imports[k]),
        0 <= k < e.removed_imports.len() ==> has_text(
            family_head(family, e),
            e.removed_imports[k],
        ),
{
    match e.target_structure {
        Some(t) => {
            let lead = "\nTarget structure (correct v6 composition):\n```jsx\n"@;
            lemma_has_text_reflexive(t);
            lemma_inside(lead, t, t);
            lemma_inside(lead + t, "\n```\n"@, t);
            lemma_head_part(family, e, 3, t);
        },
        None => {},
    }
    if 0 <= k < e.retained_props.len() {
        lemma_row_holds("\nProps that stay on <"@ + family + ">: "@, e.retained_props, "\n"@, k);
        lemma_head_part(family, e, 4, e.retained_props[k]);
    }
    if 0 <= k < e.prop_to_child.len() {
        let x = e.prop_to_child[k].0 + " -> <"@ + e.prop_to_child[k].1 + " />"@;
        let part = "\nProps that move to child components:\n"@;
        lemma_table_holds(part, e.prop_to_child, " -> <"@, " />"@, k);
        lemma_head_part(family, e, 5, x);
    }
    reveal_strlit("");
    if 0 <= k < e.unmapped_removed_props.len() {
        let x = e.unmapped_removed_props[k].0 + " -> "@ + e.unmapped_removed_props[k].1;
        let part = "\nRemoved props (move to child component as children or remove):\n"@;
        lemma_table_holds(part, e.unmapped_removed_props, " -> "@, ""@, k);
        assert(x + ""@ =~= x);
        lemma_head_part(family, e, 6, x);
    }
    if 0 <= k < e.child_props_to_parent.len() {
        let x = e.child_props_to_parent[k].0 + " -> "@ + e.child_props_to_parent[k].1;
        let part = "\nChild props that move to parent:\n"@;
        lemma_table_holds(part, e.child_props_to_parent, " -> "@, ""@, k);
        assert(x + ""@ =~= x);
        lemma_head_part(family, e, 7, x);
    }
    if 0 <= k < e.removed_children.len() {
        lemma_row_holds(
            "\nRemoved children (no longer valid JSX): "@,
            e.removed_children,
            "\n"@,
            k,
        );
        lemma_head_part(family, e, 8, e.removed_children[k]);
    }
    if 0 <= k < e.new_imports.len() {
        lemma_row_holds(
            "\nAdd imports: "@,
            e.new_imports,
            " from '"@ + crate::strategy::or_else(e.import_source, "(same package)"@) + "'\n"@,
            k,
        );
        lemma_head_part(family, e, 9, e.new_imports[k]);
    }
    if 0 <= k < e.removed_imports.len() {
        lemma_row_holds("\nRemove imports (if no longer used): "@, e.removed_imports, "\n"@, k);
        lemma_head_part(family, e, 10, e.removed_imports[k]);
    }
}

proof fn lemma_table_holds(
    label: Seq<char>,
    m: Seq<(Seq<char>, Seq<char>)>,
    mid: Seq<char>,
    end: Seq<char>,
    k: int,
)
    requires
        0 <= k < m.len(),
    ensures
        has_text(block(m.len() > 0, label, table_lines(m, mid, end)), m[k].0 + mid + m[k].1 + end),
{
    let all = table_lines(m, mid, end);
    let x = m[k].0 + mid + m[k].1 + end;
    assert(all[k] == "  "@ + m[k].0 + mid + m[k].1 + end);
    lemma_block_holds(label, all, k);
    lemma_behind("  "@, m[k].0, mid, m[k].1, end);
    lemma_within(block(true, label, all), all[k], x);
}

proof fn lemma_behind(lead: Seq<char>, a: Seq<char>, b: Seq<char>, c: Seq<char>, d: Seq<char>)
    ensures
        has_text(lead + a + b + c + d, a + b + c + d),
{
    let x = a + b + c + d;
    assert(lead + a + b + c + d =~= lead + x);
    lemma_has_text_reflexive(x);
    lemma_inside(lead, x, x);
}

/// A text that holds a second one holds what the second one holds.
pub proof fn lemma_within(a: Seq<char>, b: Seq<char>, x: Seq<char>)
    requires
        has_text(a, b),
        has_text(b, x),
    ensures
        has_text(a, x),
{
    let i = choose|i: int| crate::text::occurs_at(a, b, i);
    let j = choose|j: int| crate::text::occurs_at(b, x, j);
    assert(a.subrange(i + j, i + j + x.len()) =~= b.subrange(j, j + x.len()));
    assert(crate::text::occurs_at(a, x, i + j));
}

// ---------------------------------------------------------------------
// Tests
// ---------------------------------------------------------------------

proof fn lemma_candidate(requests: Seq<LlmFixRequestView>, n: int, i: int, t: int)
    requires
        0 <= i < n <= requests.len(),
        requests[i].labels.contains("change-type=test-impact"@),
        0 <= t < requests[i].companion_test_files.len(),
    ensures
        exists|k: int|
            0 <= k < candidates(requests, n).len() && (#[trigger] candidates(
                requests,
                n,
            )[k]).test_file == requests[i].companion_test_files[t],
    decreases n,
{
    let before = candidates(requests, n - 1);
    let now = candidates(requests, n);
    if i == n - 1 {
        assert(now[before.len() + t].test_file == requests[i].companion_test_files[t]);
    } else {
        lemma_candidate(requests, n - 1, i, t);
        let k = choose|k: int|
            0 <= k < before.len() && (#[trigger] before[k]).test_file
                == requests[i].companion_test_files[t];
        assert(now[k] == before[k]);
    }
}

proof fn lemma_candidate_from(requests: Seq<LlmFixRequestView>, n: int, k: int)
    requires
        0 <= n <= requests.len(),
        0 <= k < candidates(requests, n).len(),
    ensures
        exists|i: int|
            0 <= i < n && #[trigger] requests[i] == candidates(requests, n)[k].request
                && requests[i].labels.contains("change-type=test-impact"@)
                && requests[i].companion_test_files.contains(candidates(requests, n)[k].test_file),
    decreases n,
{
    if n > 0 {
        let before = candidates(requests, n - 1);
        let now = candidates(requests, n);
        if k < before.len() {
            lemma_candidate_from(requests, n - 1, k);
            assert(now[k] == before[k]);
        } else {
            let t = k - before.len();
            assert(now[k].test_file == requests[n - 1].companion_test_files[t]);
            assert(now[k].request == requests[n - 1]);
        }
    }
}

proof fn lemma_test_request_from(all: Seq<Candidate>, n: int, j: int)
    requires
        0 <= n <= all.len(),
        0 <= j < test_requests(all, n).len(),
    ensures
        exists|k: int|
            0 <= k < n && test_requests(all, n)[j] == test_request(#[trigger] all[k]),
    decreases n,
{
    if n > 0 {
        let before = test_requests(all, n - 1);
        if j < before.len() {
            lemma_test_request_from(all, n - 1, j);
            assert(test_requests(all, n)[j] == before[j]);
        } else {
            assert(test_requests(all, n)[j] == test_request(all[n - 1]));
        }
    }
}

/// The requests about test files.
pub open spec fn asked_tests(requests: Seq<LlmFixRequestView>) -> Seq<LlmFixRequestView> {
    let all = candidates(requests, requests.len() as int);
    test_requests(all, all.len() as int)
}

/// Each test file of a request that says it affects tests gets a request of
/// its own.
pub proof fn law_each_affected_test_is_asked_for(
    requests: Seq<LlmFixRequestView>,
    i: int,
    t: int,
)
    requires
        0 <= i < requests.len(),
        requests[i].labels.contains("change-type=test-impact"@),
        0 <= t < requests[i].companion_test_files.len(),
    ensures
        exists|j: int|
            0 <= j < asked_tests(requests).len() && path_same(
                (#[trigger] asked_tests(requests)[j]).file_path,
                requests[i].companion_test_files[t],
            ),
{
    let n = requests.len() as int;
    let all = candidates(requests, n);
    lemma_candidate(requests, n, i, t);
    let k = choose|k: int|
        0 <= k < all.len() && (#[trigger] all[k]).test_file == requests[i].companion_test_files[t];
    law_every_test_file_is_covered(all, all.len() as int, k);
    let asked = asked_tests(requests);
    let j = choose|j: int|
        0 <= j < asked.len() && path_same((#[trigger] asked[j]).file_path, all[k].test_file);
    assert(path_same(asked[j].file_path, requests[i].companion_test_files[t]));
}

/// A request about a test file comes from a request that says it affects
/// tests and names the file; it names the rule, gives the message and both
/// files, and is about nothing else.
pub proof fn law_test_requests_tell_where_they_come_from(
    requests: Seq<LlmFixRequestView>,
    j: int,
)
    requires
        0 <= j < asked_tests(requests).len(),
    ensures
        exists|i: int|
            0 <= i < requests.len() && (#[trigger] requests[i]).labels.contains(
                "change-type=test-impact"@,
            ) && requests[i].companion_test_files.contains(asked_tests(requests)[j].file_path)
                && asked_tests(requests)[j].rule_id == "test-fix:"@ + requests[i].rule_id
                && asked_tests(requests)[j].file_uri == "file://"@ + asked_tests(
                requests,
            )[j].file_path && has_text(asked_tests(requests)[j].message, requests[i].message)
                && has_text(asked_tests(requests)[j].message, requests[i].file_path) && has_text(
                asked_tests(requests)[j].message,
                asked_tests(requests)[j].file_path,
            ) && asked_tests(requests)[j].companion_test_files.len() == 0
                && !asked_tests(requests)[j].labels.contains("change-type=test-impact"@),
{
    let n = requests.len() as int;
    let all = candidates(requests, n);
    lemma_test_request_from(all, all.len() as int, j);
    let k = choose|k: int|
        0 <= k < all.len() && asked_tests(requests)[j] == test_request(#[trigger] all[k]);
    lemma_candidate_from(requests, n, k);
    let c = all[k];
    lemma_test_message(c);
    reveal_strlit("change-type=test-impact");
    reveal_strlit("source=semver-analyzer");
    reveal_strlit("change-type=test-fix");
    reveal_strlit("impact=frontend-testing");
    assert("change-type=test-impact"@[17] == 'i' || "change-type=test-impact"@.len() == 23);
    assert("change-type=test-impact"@.len() != "change-type=test-fix"@.len());
    assert("change-type=test-impact"@[0] == 'c');
    assert("source=semver-analyzer"@[0] == 's');
    assert("impact=frontend-testing"@[0] == 'i');
}

proof fn lemma_test_message(c: Candidate)
    ensures
        has_text(crate::engine::test_requests::test_message(c), c.request.message),
        has_text(crate::engine::test_requests::test_message(c), c.request.file_path),
        has_text(crate::engine::test_requests::test_message(c), c.test_file),
{
    let m = crate::engine::test_requests::test_message(c);
    let a = "The component file "@ + crate::strategy::or_else(
        crate::paths::name_of(c.request.file_path),
        "component"@,
    )
        + " was modified with migration changes that may break this test file.\n\nComponent changes that affect tests:\n"@;
    let b = "\n\nInstructions:\n1. Read this test file at "@;
    let d = "\n2. Read the component file at "@;
    let e = m.skip(
        (a.len() + c.request.message.len() + b.len() + c.test_file.len() + d.len()
            + c.request.file_path.len()) as int,
    );
    lemma_has_text_reflexive(c.request.message);
    lemma_has_text_reflexive(c.request.file_path);
    lemma_has_text_reflexive(c.test_file);
    let p1 = a + c.request.message;
    let p2 = p1 + b;
    let p3 = p2 + c.test_file;
    let p4 = p3 + d;
    let p5 = p4 + c.request.file_path;
    assert(m =~= p5 + e);
    lemma_inside(a, c.request.message, c.request.message);
    lemma_inside(p1, b, c.request.message);
    lemma_inside(p2, c.test_file, c.request.message);
    lemma_inside(p3, d, c.request.message);
    lemma_inside(p4, c.request.file_path, c.request.message);
    lemma_inside(p5, e, c.request.message);
    lemma_inside(p2, c.test_file, c.test_file);
    lemma_inside(p3, d, c.test_file);
    lemma_inside(p4, c.request.file_path, c.test_file);
    lemma_inside(p5, e, c.test_file);
    lemma_inside(p4, c.request.file_path, c.request.file_path);
    lemma_inside(p5, e, c.request.file_path);
}

} // verus!
