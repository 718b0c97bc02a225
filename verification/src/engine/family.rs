//! Joining the requests that concern one family of components in one file.

use crate::model::{LlmFixRequest, LlmFixRequestView};
use crate::order::{is_less, path_before, path_less, path_same, same_path, text_less, ByPath};
use crate::strategy::{
    all_type_lines, all_value_lines, lines_of_table, lines_of_types, lines_of_values, or_else,
    table_lines, text_or, DeprecatedMigrationContext, DeprecatedMigrationContextView,
    StrategyEntry, StrategyEntryView, PropMigrationEntry, PropMigrationEntryView,
};
use crate::table::{key_set, lookup, sorted_keys, TextTable};
use crate::text::{
    begins, cat2, cat3, cat4, cat5, cat8, chars_of, contains, decimal, decimal_of, find_at,
    find_from, has_text, join, joined, lines, lines_of, owned, piece, same, starts_with,
    strip_prefix, trim, trimmed, without_prefix,
};
use crate::views::{append_all, append_one, copy_texts, distinct, distinct_texts, has_entry};
use vstd::prelude::*;

verus! {

broadcast use vstd::string::group_string_axioms;

// ---------------------------------------------------------------------
// Groups
// ---------------------------------------------------------------------

/// The first label from `i` on that names a family, without its prefix.
pub open spec fn family_from(labels: Seq<Seq<char>>, i: int) -> Option<Seq<char>>
    decreases labels.len() - i,
{
    if i < 0 || i >= labels.len() {
        None
    } else if begins(labels[i], "family="@) {
        without_prefix(labels[i], "family="@)
    } else {
        family_from(labels, i + 1)
    }
}

/// The family that a request belongs to, where a family entry is known for
/// it.
pub open spec fn known_family(
    request: LlmFixRequestView,
    entries: Seq<(Seq<char>, StrategyEntryView)>,
) -> Option<Seq<char>> {
    match family_from(request.labels, 0) {
        Some(family) => if lookup(entries, "family:"@ + family) is Some {
            Some(family)
        } else {
            None
        },
        None => None,
    }
}

/// The requests on one file that belong to one family.
#[verifier::ext_equal]
pub ghost struct GroupView {
    pub path: Seq<char>,
    pub family: Seq<char>,
    pub members: Seq<int>,
}

/// The group comes before the given file and family.
pub open spec fn group_before(g: GroupView, path: Seq<char>, family: Seq<char>) -> bool {
    path_less(g.path, path) || (path_same(g.path, path) && text_less(g.family, family))
}

/// The first place from `i` on whose group does not come before the given
/// file and family.
pub open spec fn group_place(
    groups: Seq<GroupView>,
    path: Seq<char>,
    family: Seq<char>,
    i: int,
) -> int
    decreases groups.len() - i,
{
    if 0 <= i < groups.len() && group_before(groups[i], path, family) {
        group_place(groups, path, family, i + 1)
    } else {
        i
    }
}

/// The groups of the first `n` requests, by file and then by family.
pub open spec fn groups_of(
    requests: Seq<LlmFixRequestView>,
    entries: Seq<(Seq<char>, StrategyEntryView)>,
    n: int,
) -> Seq<GroupView>
    decreases n,
{
    if n <= 0 {
        Seq::empty()
    } else {
        let before = groups_of(requests, entries, n - 1);
        let path = requests[n - 1].file_path;
        match known_family(requests[n - 1], entries) {
            None => before,
            Some(family) => {
                let i = group_place(before, path, family, 0);
                if i < before.len() && path_same(before[i].path, path) && before[i].family
                    == family {
                    before.update(
                        i,
                        GroupView { members: before[i].members.push(n - 1), ..before[i] },
                    )
                } else {
                    before.insert(i, GroupView { path, family, members: seq![n - 1] })
                }
            },
        }
    }
}

/// Those of the first `n` requests that belong to no known family.
pub open spec fn ungrouped(
    requests: Seq<LlmFixRequestView>,
    entries: Seq<(Seq<char>, StrategyEntryView)>,
    n: int,
) -> Seq<LlmFixRequestView>
    decreases n,
{
    if n <= 0 {
        Seq::empty()
    } else if known_family(requests[n - 1], entries) is Some {
        ungrouped(requests, entries, n - 1)
    } else {
        ungrouped(requests, entries, n - 1).push(requests[n - 1])
    }
}

// ---------------------------------------------------------------------
// The message of a group: what the family entry says
// ---------------------------------------------------------------------

/// The first `n` lines, each ended by a line feed.
pub open spec fn ended(all: Seq<Seq<char>>, n: int) -> Seq<char>
    decreases n,
{
    if n <= 0 {
        Seq::empty()
    } else {
        ended(all, n - 1) + all[n - 1] + "\n"@
    }
}

/// A heading and lines, where `there` holds.
pub open spec fn block(there: bool, label: Seq<char>, all: Seq<Seq<char>>) -> Seq<char> {
    if there {
        label + ended(all, all.len() as int)
    } else {
        Seq::empty()
    }
}

/// A heading and a list on one line, where the list is not empty.
pub open spec fn row(label: Seq<char>, items: Seq<Seq<char>>, end: Seq<char>) -> Seq<char> {
    if items.len() == 0 {
        Seq::empty()
    } else {
        label + joined(items, ", "@) + end
    }
}

/// The structure that the family moves to.
pub open spec fn target_text(target: Option<Seq<char>>) -> Seq<char> {
    match target {
        Some(t) => "\nTarget structure (correct v6 composition):\n```jsx\n"@ + t + "\n```\n"@,
        None => Seq::empty(),
    }
}

/// The first `n` props that survive with a change, one line each.
pub open spec fn changed_props(props: Seq<PropMigrationEntryView>, n: int) -> Seq<Seq<char>>
    decreases n,
{
    if n <= 0 {
        Seq::empty()
    } else {
        let before = changed_props(props, n - 1);
        let p = props[n - 1];
        if p.type_changed {
            before.push(
                "  "@ + p.old_name + " -> "@ + p.new_name + " (TYPE CHANGED):\n    old: "@
                    + or_else(p.old_type, "?"@) + "\n    new: "@ + or_else(p.new_type, "?"@),
            )
        } else if p.old_name != p.new_name {
            before.push("  "@ + p.old_name + " -> "@ + p.new_name + " (renamed, type unchanged)"@)
        } else {
            before
        }
    }
}

/// What the family entry says about a deprecated component.
pub open spec fn deprecated_text(o: Option<DeprecatedMigrationContextView>) -> Seq<char> {
    match o {
        None => Seq::empty(),
        Some(dm) => "\nDeprecated -> v6 migration:\n  Old import: "@ + dm.old_package
            + "\n  New import: "@ + dm.new_package + "\n"@ + block(
            dm.matching_props.len() > 0,
            "Matching props:\n"@,
            changed_props(dm.matching_props, dm.matching_props.len() as int),
        ) + block(
            dm.new_props.len() > 0,
            "New props on replacement:\n"@,
            table_lines(dm.new_props, ": "@, ""@),
        ) + row("Removed props (no replacement equivalent): "@, dm.removed_props, "\n"@),
    }
}

/// What the family entry says.
pub open spec fn family_head(family: Seq<char>, e: StrategyEntryView) -> Seq<char> {
    "## "@ + family + " Family Migration\n"@ + target_text(e.target_structure) + row(
        "\nProps that stay on <"@ + family + ">: "@,
        e.retained_props,
        "\n"@,
    ) + block(
        e.prop_to_child.len() > 0,
        "\nProps that move to child components:\n"@,
        table_lines(e.prop_to_child, " -> <"@, " />"@),
    ) + block(
        e.unmapped_removed_props.len() > 0,
        "\nRemoved props (move to child component as children or remove):\n"@,
        table_lines(e.unmapped_removed_props, " -> "@, ""@),
    ) + block(
        e.child_props_to_parent.len() > 0,
        "\nChild props that move to parent:\n"@,
        table_lines(e.child_props_to_parent, " -> "@, ""@),
    ) + row("\nRemoved children (no longer valid JSX): "@, e.removed_children, "\n"@) + row(
        "\nAdd imports: "@,
        e.new_imports,
        " from '"@ + or_else(e.import_source, "(same package)"@) + "'\n"@,
    ) + row("\nRemove imports (if no longer used): "@, e.removed_imports, "\n"@) + block(
        e.prop_value_changes.len() > 0,
        "\nProp value changes:\n"@,
        all_value_lines(e.prop_value_changes, e.prop_value_changes.len() as int),
    ) + block(
        e.prop_type_changes.len() > 0,
        "\nProp type changes:\n"@,
        all_type_lines(e.prop_type_changes, e.prop_type_changes.len() as int),
    ) + deprecated_text(e.deprecated_migration)
}

// ---------------------------------------------------------------------
// The message of a group: what the requests say
// ---------------------------------------------------------------------

/// The request only says that a base class or a reference type changed.
pub open spec fn is_noise(r: LlmFixRequestView) -> bool {
    (r.labels.contains("change-type=signature-changed"@) || r.labels.contains(
        "change-type=type-changed"@,
    )) && (has_text(r.message, "base class changed"@) || has_text(r.message, "RefAttributes"@))
}

/// Those of the first `n` members of a group that are not noise.
pub open spec fn telling(
    requests: Seq<LlmFixRequestView>,
    members: Seq<int>,
    n: int,
) -> Seq<int>
    decreases n,
{
    if n <= 0 {
        Seq::empty()
    } else if is_noise(requests[members[n - 1]]) {
        telling(requests, members, n - 1)
    } else {
        telling(requests, members, n - 1).push(members[n - 1])
    }
}

/// The members of a group that the message is about: those that are not
/// noise, or all where that leaves none.
pub open spec fn chosen(requests: Seq<LlmFixRequestView>, members: Seq<int>) -> Seq<int> {
    let some = telling(requests, members, members.len() as int);
    if some.len() == 0 {
        members
    } else {
        some
    }
}

/// The variables that a message lists.
pub open spec fn context_section(message: Seq<char>) -> Option<Seq<char>> {
    match find_from(message, "\n\nIncident context:"@, 0) {
        Some(v) => match find_from(message, "\n\nFix strategy:"@, v) {
            Some(t) => Some(message.subrange(v, t)),
            None => Some(message.subrange(v, message.len() as int)),
        },
        None => None,
    }
}

/// The strategy that a message describes.
pub open spec fn strategy_section(message: Seq<char>) -> Option<Seq<char>> {
    match find_from(message, "\n\nFix strategy:"@, 0) {
        Some(t) => Some(message.subrange(t, message.len() as int)),
        None => None,
    }
}

/// The lines from the second up to line `n`, trimmed and indented.
pub open spec fn indented(all: Seq<Seq<char>>, indent: Seq<char>, n: int) -> Seq<char>
    decreases n,
{
    if n <= 1 {
        Seq::empty()
    } else {
        indented(all, indent, n - 1) + (indent + trimmed(all[n - 1]) + "\n"@)
    }
}

/// A section without its heading, each line trimmed and indented.
pub open spec fn section_body(section: Seq<char>, indent: Seq<char>) -> Seq<char> {
    let all = lines_of(trimmed(section));
    indented(all, indent, all.len() as int)
}

/// The variables that a request lists, as they stand in the message of a
/// group.
pub open spec fn context_text(message: Seq<char>) -> Seq<char> {
    match context_section(message) {
        Some(s) => section_body(s, "    "@),
        None => Seq::empty(),
    }
}

/// The strategy that a request describes, as it stands in the message of a
/// group.
pub open spec fn strategy_text(message: Seq<char>) -> Seq<char> {
    match strategy_section(message) {
        Some(s) => "    Fix strategy:\n"@ + section_body(s, "      "@),
        None => Seq::empty(),
    }
}

/// The rule of member `k` stands among the members before it.
pub open spec fn rule_seen(requests: Seq<LlmFixRequestView>, members: Seq<int>, k: int) -> bool {
    exists|j: int|
        0 <= j < k && requests[#[trigger] members[j]].rule_id == requests[members[k]].rule_id
}

/// The heading of member `k`.
pub open spec fn member_head(requests: Seq<LlmFixRequestView>, members: Seq<int>, k: int) -> Seq<
    char,
> {
    let r = requests[members[k]];
    if rule_seen(requests, members, k) {
        "  Line "@ + decimal(r.line as nat) + ": (same rule "@ + r.rule_id + ")\n"@
    } else {
        "  Line "@ + decimal(r.line as nat) + ": ["@ + r.rule_id + "]\n"@
    }
}

/// What the first `n` members say.
pub open spec fn members_text(
    requests: Seq<LlmFixRequestView>,
    members: Seq<int>,
    n: int,
) -> Seq<char>
    decreases n,
{
    if n <= 0 {
        Seq::empty()
    } else {
        members_text(requests, members, n - 1) + member_head(requests, members, n - 1)
            + context_text(requests[members[n - 1]].message) + strategy_text(
            requests[members[n - 1]].message,
        )
    }
}

/// Member `k` has a piece of code that no member before it has.
pub open spec fn snip_is_new(requests: Seq<LlmFixRequestView>, members: Seq<int>, k: int) -> bool {
    requests[members[k]].code_snip is Some && !exists|j: int|
        0 <= j < k && requests[#[trigger] members[j]].code_snip == requests[members[k]].code_snip
}

/// The pieces of code of the first `n` members, each once.
pub open spec fn snips_text(
    requests: Seq<LlmFixRequestView>,
    members: Seq<int>,
    n: int,
) -> Seq<char>
    decreases n,
{
    if n <= 0 {
        Seq::empty()
    } else {
        let r = requests[members[n - 1]];
        if snip_is_new(requests, members, n - 1) {
            snips_text(requests, members, n - 1) + ("  (line "@ + decimal(r.line as nat) + "):\n"@
                + r.code_snip->0 + "\n"@)
        } else {
            snips_text(requests, members, n - 1)
        }
    }
}

/// The pieces of code under their heading, where there are any.
pub open spec fn code_text(requests: Seq<LlmFixRequestView>, members: Seq<int>) -> Seq<char> {
    let body = snips_text(requests, members, members.len() as int);
    if exists|k: int| 0 <= k < members.len() && requests[#[trigger] members[k]].code_snip is Some {
        "\nCode contexts:\n"@ + body
    } else {
        Seq::empty()
    }
}

/// The labels of the first `n` members.
pub open spec fn member_labels(
    requests: Seq<LlmFixRequestView>,
    members: Seq<int>,
    n: int,
) -> Seq<Seq<char>>
    decreases n,
{
    if n <= 0 {
        Seq::empty()
    } else {
        member_labels(requests, members, n - 1) + requests[members[n - 1]].labels
    }
}

/// The test files of the first `n` members.
pub open spec fn member_tests(
    requests: Seq<LlmFixRequestView>,
    members: Seq<int>,
    n: int,
) -> Seq<Seq<char>>
    decreases n,
{
    if n <= 0 {
        Seq::empty()
    } else {
        member_tests(requests, members, n - 1) + requests[members[n - 1]].companion_test_files
    }
}

/// The smallest line of the first `n` members.
pub open spec fn first_line(
    requests: Seq<LlmFixRequestView>,
    members: Seq<int>,
    n: int,
) -> u32
    decreases n,
{
    if n <= 1 {
        requests[members[0]].line
    } else {
        let before = first_line(requests, members, n - 1);
        if requests[members[n - 1]].line < before {
            requests[members[n - 1]].line
        } else {
            before
        }
    }
}

/// The request that stands for a group.
pub open spec fn group_request(
    requests: Seq<LlmFixRequestView>,
    e: StrategyEntryView,
    g: GroupView,
) -> LlmFixRequestView {
    let some = chosen(requests, g.members);
    let n = some.len() as int;
    let labels = member_labels(requests, some, n);
    let tests = member_tests(requests, g.members, g.members.len() as int);
    LlmFixRequestView {
        rule_id: "family:"@ + g.family,
        file_uri: requests[g.members[0]].file_uri,
        file_path: g.path,
        line: first_line(requests, some, n),
        message: family_head(g.family, e) + "\nIncidents found in this file:\n"@ + members_text(
            requests,
            some,
            n,
        ) + code_text(requests, some),
        code_snip: None,
        source: None,
        labels: distinct(labels, labels.len() as int),
        companion_test_files: key_set::<ByPath>(tests, tests.len() as int),
    }
}

/// The requests once those of each known family and file are joined: the
/// others first, then one request for each group.
pub open spec fn consolidated(
    requests: Seq<LlmFixRequestView>,
    entries: Seq<(Seq<char>, StrategyEntryView)>,
) -> Seq<LlmFixRequestView> {
    let groups = groups_of(requests, entries, requests.len() as int);
    ungrouped(requests, entries, requests.len() as int) + Seq::new(
        groups.len(),
        |g: int|
            group_request(
                requests,
                lookup(entries, "family:"@ + groups[g].family)->0,
                groups[g],
            ),
    )
}

// ---------------------------------------------------------------------
// Computing it
// ---------------------------------------------------------------------

fn family_of(labels: &Vec<String>) -> (r: Option<String>)
    ensures
        r.deep_view() == family_from(labels.deep_view(), 0),
{
    let mut i: usize = 0;
    while i < labels.len()
        invariant
            i <= labels@.len(),
            family_from(labels.deep_view(), 0) == family_from(labels.deep_view(), i as int),
        decreases labels@.len() - i,
    {
        assert(labels.deep_view()[i as int] == labels@[i as int]@);
        if starts_with(labels[i].as_str(), "family=") {
            return match strip_prefix(labels[i].as_str(), "family=") {
                Some(rest) => Some(owned(rest)),
                None => None,
            };
        }
        i = i + 1;
    }
    None
}

fn find_known_family(
    request: &LlmFixRequest,
    entries: &TextTable<StrategyEntry>,
) -> (r: Option<String>)
    ensures
        r.deep_view() == known_family(request.deep_view(), entries.deep_view()),
{
    match family_of(&request.labels) {
        Some(family) => {
            let key = cat2("family:", family.as_str());
            if entries.contains_key(key.as_str()) {
                Some(family)
            } else {
                None
            }
        },
        None => None,
    }
}

struct Group {
    path: String,
    family: String,
    members: Vec<usize>,
}

spec fn indices(v: Seq<usize>) -> Seq<int> {
    Seq::new(v.len(), |i: int| v[i] as int)
}

impl DeepView for Group {
    type V = GroupView;

    closed spec fn deep_view(&self) -> GroupView {
        GroupView { path: self.path@, family: self.family@, members: indices(self.members@) }
    }
}

fn place_group(groups: &Vec<Group>, path: &str, family: &str) -> (r: usize)
    ensures
        r == group_place(groups.deep_view(), path@, family@, 0),
        r <= groups@.len(),
{
    let mut i: usize = 0;
    while i < groups.len() && (path_before(groups[i].path.as_str(), path) || (same_path(
        groups[i].path.as_str(),
        path,
    ) && is_less(groups[i].family.as_str(), family)))
        invariant
            i <= groups@.len(),
            group_place(groups.deep_view(), path@, family@, 0) == group_place(
                groups.deep_view(),
                path@,
                family@,
                i as int,
            ),
        decreases groups@.len() - i,
    {
        assert(groups.deep_view()[i as int] == groups@[i as int].deep_view());
        i = i + 1;
    }
    assert(i < groups@.len() ==> groups.deep_view()[i as int] == groups@[i as int].deep_view());
    i
}

/// Every member of a group is one of the first `n` requests, and no group is
/// without members.
spec fn sound(groups: Seq<GroupView>, n: int) -> bool {
    forall|g: int|
        0 <= g < groups.len() ==> (#[trigger] groups[g]).members.len() > 0 && forall|k: int|
            0 <= k < groups[g].members.len() ==> 0 <= #[trigger] groups[g].members[k] < n
}

proof fn lemma_groups_sound(
    requests: Seq<LlmFixRequestView>,
    entries: Seq<(Seq<char>, StrategyEntryView)>,
    n: int,
)
    requires
        0 <= n,
    ensures
        sound(groups_of(requests, entries, n), n),
        forall|g: int|
            0 <= g < groups_of(requests, entries, n).len() ==> lookup(
                entries,
                "family:"@ + (#[trigger] groups_of(requests, entries, n)[g]).family,
            ) is Some,
    decreases n,
{
    if n > 0 {
        lemma_groups_sound(requests, entries, n - 1);
        let before = groups_of(requests, entries, n - 1);
        let now = groups_of(requests, entries, n);
        match known_family(requests[n - 1], entries) {
            None => {},
            Some(family) => {
                let path = requests[n - 1].file_path;
                let i = group_place(before, path, family, 0);
                lemma_group_place(before, path, family, 0);
                assert forall|g: int| 0 <= g < now.len() implies (
                #[trigger] now[g]).members.len() > 0 && (forall|k: int|
                    0 <= k < now[g].members.len() ==> 0 <= #[trigger] now[g].members[k] < n)
                    && lookup(entries, "family:"@ + now[g].family) is Some by {
                    if i < before.len() && path_same(before[i].path, path) && before[i].family
                        == family {
                        assert(before[g].members.len() > 0);
                        if g == i {
                            assert forall|k: int| 0 <= k < now[g].members.len() implies 0
                                <= #[trigger] now[g].members[k] < n by {
                                if k < before[g].members.len() {
                                    assert(now[g].members[k] == before[g].members[k]);
                                }
                            }
                        }
                    } else if g < i {
                        assert(now[g] == before[g]);
                    } else if g > i {
                        assert(now[g] == before[g - 1]);
                    }
                }
            },
        }
    }
}

proof fn lemma_group_place(groups: Seq<GroupView>, path: Seq<char>, family: Seq<char>, i: int)
    requires
        0 <= i <= groups.len(),
    ensures
        i <= group_place(groups, path, family, i) <= groups.len(),
    decreases groups.len() - i,
{
    if i < groups.len() && group_before(groups[i], path, family) {
        lemma_group_place(groups, path, family, i + 1);
    }
}

fn group_requests(
    requests: &Vec<LlmFixRequest>,
    entries: &TextTable<StrategyEntry>,
) -> (r: (Vec<Group>, Vec<bool>))
    ensures
        r.0.deep_view() == groups_of(
            requests.deep_view(),
            entries.deep_view(),
            requests@.len() as int,
        ),
        r.1@.len() == requests@.len(),
        forall|i: int|
            0 <= i < requests@.len() ==> r.1@[i] == (known_family(
                requests.deep_view()[i],
                entries.deep_view(),
            ) is Some),
{
    let ghost view = requests.deep_view();
    let ghost known = entries.deep_view();
    let mut groups: Vec<Group> = Vec::new();
    let mut grouped: Vec<bool> = Vec::new();
    let mut n: usize = 0;
    assert(groups.deep_view() =~= Seq::<GroupView>::empty());
    while n < requests.len()
        invariant
            n <= requests@.len(),
            view == requests.deep_view(),
            known == entries.deep_view(),
            groups.deep_view() == groups_of(view, known, n as int),
            grouped@.len() == n,
            forall|i: int|
                0 <= i < n ==> grouped@[i] == (known_family(view[i], known) is Some),
        decreases requests@.len() - n,
    {
        let request = &requests[n];
        assert(view[n as int] == request.deep_view());
        match find_known_family(request, entries) {
            Some(family) => {
                let path = request.file_path.as_str();
                let ghost before = groups.deep_view();
                let i = place_group(&groups, path, family.as_str());
                assert(i < groups@.len() ==> before[i as int] == groups@[i as int].deep_view());
                if i < groups.len() && same_path(groups[i].path.as_str(), path) && same(
                    groups[i].family.as_str(),
                    family.as_str(),
                ) {
                    let mut group = groups.remove(i);
                    let ghost members = group.members@;
                    group.members.push(n);
                    assert(indices(group.members@) =~= indices(members).push(n as int));
                    let ghost changed = group.deep_view();
                    groups.insert(i, group);
                    assert(groups.deep_view() =~= before.update(i as int, changed));
                } else {
                    let mut members: Vec<usize> = Vec::new();
                    members.push(n);
                    assert(indices(members@) =~= seq![n as int]);
                    let group = Group { path: owned(path), family, members };
                    let ghost fresh = group.deep_view();
                    groups.insert(i, group);
                    assert(groups.deep_view() =~= before.insert(i as int, fresh));
                }
                grouped.push(true);
            },
            None => {
                grouped.push(false);
            },
        }
        n = n + 1;
    }
    (groups, grouped)
}

fn end_lines(all: &Vec<String>) -> (r: String)
    ensures
        r@ == ended(all.deep_view(), all@.len() as int),
{
    let mut out = String::new();
    let mut i: usize = 0;
    while i < all.len()
        invariant
            i <= all@.len(),
            out@ == ended(all.deep_view(), i as int),
        decreases all@.len() - i,
    {
        assert(all.deep_view()[i as int] == all@[i as int]@);
        out.append(all[i].as_str());
        out.append("\n");
        i = i + 1;
    }
    out
}

fn write_block(there: bool, label: &str, all: &Vec<String>) -> (r: String)
    ensures
        r@ == block(there, label@, all.deep_view()),
{
    if there {
        let body = end_lines(all);
        assert(all.deep_view().len() == all@.len());
        cat2(label, body.as_str())
    } else {
        String::new()
    }
}

fn write_row(label: &str, items: &Vec<String>, end: &str) -> (r: String)
    ensures
        r@ == row(label@, items.deep_view(), end@),
{
    assert(items.deep_view().len() == items@.len());
    if items.len() == 0 {
        String::new()
    } else {
        let list = join(items, ", ");
        cat3(label, list.as_str(), end)
    }
}

fn write_target(target: &Option<String>) -> (r: String)
    ensures
        r@ == target_text(target.deep_view()),
{
    match target {
        Some(t) => cat3(
            "\nTarget structure (correct v6 composition):\n```jsx\n",
            t.as_str(),
            "\n```\n",
        ),
        None => String::new(),
    }
}

fn lines_of_changed(props: &Vec<PropMigrationEntry>) -> (r: Vec<String>)
    ensures
        r.deep_view() == changed_props(props.deep_view(), props@.len() as int),
{
    let mut out: Vec<String> = Vec::new();
    let mut i: usize = 0;
    assert(out.deep_view() =~= Seq::<Seq<char>>::empty());
    while i < props.len()
        invariant
            i <= props@.len(),
            out.deep_view() == changed_props(props.deep_view(), i as int),
        decreases props@.len() - i,
    {
        let p = &props[i];
        assert(props.deep_view()[i as int] == p.deep_view());
        let old_name = p.old_name.as_str();
        let new_name = p.new_name.as_str();
        if p.type_changed {
            let line = cat8(
                "  ",
                old_name,
                " -> ",
                new_name,
                " (TYPE CHANGED):\n    old: ",
                text_or(&p.old_type, "?"),
                "\n    new: ",
                text_or(&p.new_type, "?"),
            );
            append_one(&mut out, line);
        } else if !same(old_name, new_name) {
            append_one(
                &mut out,
                cat5("  ", old_name, " -> ", new_name, " (renamed, type unchanged)"),
            );
        }
        i = i + 1;
    }
    out
}

fn write_deprecated(o: &Option<DeprecatedMigrationContext>) -> (r: String)
    ensures
        r@ == deprecated_text(o.deep_view()),
{
    match o {
        None => String::new(),
        Some(dm) => {
            let mut out = cat5(
                "\nDeprecated -> v6 migration:\n  Old import: ",
                dm.old_package.as_str(),
                "\n  New import: ",
                dm.new_package.as_str(),
                "\n",
            );
            assert(dm.matching_props.deep_view().len() == dm.matching_props@.len());
            let changed = lines_of_changed(&dm.matching_props);
            let matching = write_block(
                dm.matching_props.len() > 0,
                "Matching props:\n",
                &changed,
            );
            out.append(matching.as_str());
            let listed = lines_of_table(&dm.new_props, ": ", "");
            let new = write_block(dm.new_props.len() > 0, "New props on replacement:\n", &listed);
            out.append(new.as_str());
            let gone = write_row(
                "Removed props (no replacement equivalent): ",
                &dm.removed_props,
                "\n",
            );
            out.append(gone.as_str());
            out
        },
    }
}

fn write_head(family: &str, entry: &StrategyEntry) -> (r: String)
    ensures
        r@ == family_head(family@, entry.deep_view()),
{
    let mut out = cat3("## ", family, " Family Migration\n");
    let target = write_target(&entry.target_structure);
    out.append(target.as_str());
    let stay = cat3("\nProps that stay on <", family, ">: ");
    let retained = write_row(stay.as_str(), &entry.retained_props, "\n");
    out.append(retained.as_str());
    let to_child = lines_of_table(&entry.prop_to_child, " -> <", " />");
    let children = write_block(
        entry.prop_to_child.len() > 0,
        "\nProps that move to child components:\n",
        &to_child,
    );
    out.append(children.as_str());
    let unmapped = lines_of_table(&entry.unmapped_removed_props, " -> ", "");
    let removed = write_block(
        entry.unmapped_removed_props.len() > 0,
        "\nRemoved props (move to child component as children or remove):\n",
        &unmapped,
    );
    out.append(removed.as_str());
    let to_parent = lines_of_table(&entry.child_props_to_parent, " -> ", "");
    let parents = write_block(
        entry.child_props_to_parent.len() > 0,
        "\nChild props that move to parent:\n",
        &to_parent,
    );
    out.append(parents.as_str());
    let gone = write_row(
        "\nRemoved children (no longer valid JSX): ",
        &entry.removed_children,
        "\n",
    );
    out.append(gone.as_str());
    let from = cat3(" from '", text_or(&entry.import_source, "(same package)"), "'\n");
    let imports = write_row("\nAdd imports: ", &entry.new_imports, from.as_str());
    out.append(imports.as_str());
    let unused = write_row(
        "\nRemove imports (if no longer used): ",
        &entry.removed_imports,
        "\n",
    );
    out.append(unused.as_str());
    let value_changes = lines_of_values(&entry.prop_value_changes);
    let values = write_block(
        entry.prop_value_changes.len() > 0,
        "\nProp value changes:\n",
        &value_changes,
    );
    out.append(values.as_str());
    let type_changes = lines_of_types(&entry.prop_type_changes);
    let types = write_block(
        entry.prop_type_changes.len() > 0,
        "\nProp type changes:\n",
        &type_changes,
    );
    out.append(types.as_str());
    let deprecated = write_deprecated(&entry.deprecated_migration);
    out.append(deprecated.as_str());
    out
}

fn check_noise(r: &LlmFixRequest) -> (b: bool)
    ensures
        b == is_noise(r.deep_view()),
{
    (has_entry(&r.labels, "change-type=signature-changed") || has_entry(
        &r.labels,
        "change-type=type-changed",
    )) && (contains(r.message.as_str(), "base class changed") || contains(
        r.message.as_str(),
        "RefAttributes",
    ))
}

/// All of `v` are places in a list of the given length.
spec fn places(v: Seq<usize>, len: nat) -> bool {
    forall|i: int| 0 <= i < v.len() ==> (#[trigger] v[i]) < len
}

fn choose_members(requests: &Vec<LlmFixRequest>, members: &Vec<usize>) -> (r: Vec<usize>)
    requires
        places(members@, requests@.len()),
        members@.len() > 0,
    ensures
        indices(r@) == chosen(requests.deep_view(), indices(members@)),
        places(r@, requests@.len()),
        r@.len() > 0,
{
    let ghost view = requests.deep_view();
    let mut some: Vec<usize> = Vec::new();
    let mut all: Vec<usize> = Vec::new();
    let mut i: usize = 0;
    assert(indices(some@) =~= Seq::<int>::empty());
    while i < members.len()
        invariant
            i <= members@.len(),
            view == requests.deep_view(),
            places(members@, requests@.len()),
            places(some@, requests@.len()),
            indices(some@) == telling(view, indices(members@), i as int),
            all@ == members@.take(i as int),
        decreases members@.len() - i,
    {
        let m: usize = members[i];
        assert(view[m as int] == requests@[m as int].deep_view());
        assert(indices(members@)[i as int] == m);
        if !check_noise(&requests[m]) {
            let ghost before = some@;
            some.push(m);
            assert(indices(some@) =~= indices(before).push(m as int));
        }
        all.push(m);
        assert(all@ =~= members@.take(i + 1));
        i = i + 1;
    }
    assert(members@.take(members@.len() as int) =~= members@);
    assert(indices(some@).len() == some@.len());
    if some.len() == 0 {
        all
    } else {
        some
    }
}

fn indent_section(section: &str, indent: &str) -> (r: String)
    ensures
        r@ == section_body(section@, indent@),
{
    let all = lines(trim(section));
    let mut out = String::new();
    let mut i: usize = 1;
    assert(all.deep_view().len() == all@.len());
    while i < all.len()
        invariant
            1 <= i,
            i <= all@.len() || i == 1,
            out@ == indented(all.deep_view(), indent@, i as int),
        decreases all@.len() - i,
    {
        assert(all.deep_view()[i as int] == all@[i as int]@);
        let line = cat3(indent, trim(all[i].as_str()), "\n");
        out.append(line.as_str());
        i = i + 1;
    }
    out
}

fn write_context(message: &str) -> (r: String)
    ensures
        r@ == context_text(message@),
{
    let v = chars_of(message);
    let heading = chars_of("\n\nIncident context:");
    let next = chars_of("\n\nFix strategy:");
    match find_at(&v, &heading, 0) {
        Some(from) => {
            let to: usize = match find_at(&v, &next, from) {
                Some(t) => t,
                None => v.len(),
            };
            let section = piece(&v, from, to);
            indent_section(section.as_str(), "    ")
        },
        None => String::new(),
    }
}

fn write_strategy(message: &str) -> (r: String)
    ensures
        r@ == strategy_text(message@),
{
    let v = chars_of(message);
    let heading = chars_of("\n\nFix strategy:");
    match find_at(&v, &heading, 0) {
        Some(from) => {
            let section = piece(&v, from, v.len());
            let body = indent_section(section.as_str(), "      ");
            cat2("    Fix strategy:\n", body.as_str())
        },
        None => String::new(),
    }
}

fn is_rule_seen(requests: &Vec<LlmFixRequest>, members: &Vec<usize>, k: usize) -> (r: bool)
    requires
        places(members@, requests@.len()),
        k < members@.len(),
    ensures
        r == rule_seen(requests.deep_view(), indices(members@), k as int),
{
    let ghost view = requests.deep_view();
    let ghost list = indices(members@);
    let own: usize = members[k];
    assert(view[own as int] == requests@[own as int].deep_view());
    let mut j: usize = 0;
    while j < k
        invariant
            j <= k < members@.len(),
            places(members@, requests@.len()),
            view == requests.deep_view(),
            list == indices(members@),
            own == members@[k as int],
            own < requests@.len(),
            view[own as int] == requests@[own as int].deep_view(),
            forall|i: int|
                0 <= i < j ==> view[#[trigger] list[i]].rule_id != view[list[k as int]].rule_id,
        decreases k - j,
    {
        let m: usize = members[j];
        assert(list[j as int] == m);
        assert(list[k as int] == own);
        assert(view[m as int] == requests@[m as int].deep_view());
        if same(requests[m].rule_id.as_str(), requests[own].rule_id.as_str()) {
            return true;
        }
        j = j + 1;
    }
    false
}

fn write_members(requests: &Vec<LlmFixRequest>, members: &Vec<usize>) -> (r: String)
    requires
        places(members@, requests@.len()),
    ensures
        r@ == members_text(requests.deep_view(), indices(members@), members@.len() as int),
{
    let ghost view = requests.deep_view();
    let ghost list = indices(members@);
    let mut out = String::new();
    let mut k: usize = 0;
    while k < members.len()
        invariant
            k <= members@.len(),
            places(members@, requests@.len()),
            view == requests.deep_view(),
            list == indices(members@),
            out@ == members_text(view, list, k as int),
        decreases members@.len() - k,
    {
        let m: usize = members[k];
        assert(list[k as int] == m);
        let request = &requests[m];
        assert(view[m as int] == request.deep_view());
        let number = decimal_of(request.line as u64);
        let head = if is_rule_seen(requests, members, k) {
            cat5("  Line ", number.as_str(), ": (same rule ", request.rule_id.as_str(), ")\n")
        } else {
            cat5("  Line ", number.as_str(), ": [", request.rule_id.as_str(), "]\n")
        };
        out.append(head.as_str());
        let context = write_context(request.message.as_str());
        out.append(context.as_str());
        let strategy = write_strategy(request.message.as_str());
        out.append(strategy.as_str());
        k = k + 1;
    }
    out
}

fn has_new_snip(requests: &Vec<LlmFixRequest>, members: &Vec<usize>, k: usize) -> (r: bool)
    requires
        places(members@, requests@.len()),
        k < members@.len(),
    ensures
        r == snip_is_new(requests.deep_view(), indices(members@), k as int),
{
    let ghost view = requests.deep_view();
    let ghost list = indices(members@);
    let own: usize = members[k];
    assert(list[k as int] == own);
    assert(view[own as int] == requests@[own as int].deep_view());
    match &requests[own].code_snip {
        None => false,
        Some(snip) => {
            let mut j: usize = 0;
            while j < k
                invariant
                    j <= k < members@.len(),
                    places(members@, requests@.len()),
                    view == requests.deep_view(),
                    list == indices(members@),
                    list[k as int] == own,
                    view[own as int].code_snip == Some(snip@),
                    forall|i: int|
                        0 <= i < j ==> view[#[trigger] list[i]].code_snip
                            != view[list[k as int]].code_snip,
                decreases k - j,
            {
                let m: usize = members[j];
                assert(list[j as int] == m);
                assert(view[m as int] == requests@[m as int].deep_view());
                match &requests[m].code_snip {
                    Some(other) => {
                        if same(other.as_str(), snip.as_str()) {
                            assert(view[list[j as int]].code_snip == view[list[k as int]].code_snip);
                            return false;
                        }
                    },
                    None => {},
                }
                j = j + 1;
            }
            true
        },
    }
}

fn write_code(requests: &Vec<LlmFixRequest>, members: &Vec<usize>) -> (r: String)
    requires
        places(members@, requests@.len()),
    ensures
        r@ == code_text(requests.deep_view(), indices(members@)),
{
    let ghost view = requests.deep_view();
    let ghost list = indices(members@);
    let mut out = String::new();
    let mut any = false;
    let mut k: usize = 0;
    while k < members.len()
        invariant
            k <= members@.len(),
            places(members@, requests@.len()),
            view == requests.deep_view(),
            list == indices(members@),
            any == (exists|j: int| 0 <= j < k && view[#[trigger] list[j]].code_snip is Some),
            out@ == snips_text(view, list, k as int),
        decreases members@.len() - k,
    {
        let m: usize = members[k];
        assert(list[k as int] == m);
        let request = &requests[m];
        assert(view[m as int] == request.deep_view());
        match &request.code_snip {
            Some(snip) => {
                any = true;
                assert(view[list[k as int]].code_snip is Some);
                if has_new_snip(requests, members, k) {
                    let number = decimal_of(request.line as u64);
                    let one = cat5("  (line ", number.as_str(), "):\n", snip.as_str(), "\n");
                    out.append(one.as_str());
                }
            },
            None => {
                assert(!snip_is_new(view, list, k as int));
            },
        }
        k = k + 1;
    }
    if any {
        cat2("\nCode contexts:\n", out.as_str())
    } else {
        String::new()
    }
}

fn gather_labels(requests: &Vec<LlmFixRequest>, members: &Vec<usize>) -> (r: Vec<String>)
    requires
        places(members@, requests@.len()),
    ensures
        r.deep_view() == member_labels(
            requests.deep_view(),
            indices(members@),
            members@.len() as int,
        ),
{
    let ghost view = requests.deep_view();
    let ghost list = indices(members@);
    let mut out: Vec<String> = Vec::new();
    let mut k: usize = 0;
    assert(out.deep_view() =~= Seq::<Seq<char>>::empty());
    while k < members.len()
        invariant
            k <= members@.len(),
            places(members@, requests@.len()),
            view == requests.deep_view(),
            list == indices(members@),
            out.deep_view() == member_labels(view, list, k as int),
        decreases members@.len() - k,
    {
        let m: usize = members[k];
        assert(list[k as int] == m);
        assert(view[m as int] == requests@[m as int].deep_view());
        append_all(&mut out, copy_texts(&requests[m].labels));
        k = k + 1;
    }
    out
}

fn gather_tests(requests: &Vec<LlmFixRequest>, members: &Vec<usize>) -> (r: Vec<String>)
    requires
        places(members@, requests@.len()),
    ensures
        r.deep_view() == member_tests(
            requests.deep_view(),
            indices(members@),
            members@.len() as int,
        ),
{
    let ghost view = requests.deep_view();
    let ghost list = indices(members@);
    let mut out: Vec<String> = Vec::new();
    let mut k: usize = 0;
    assert(out.deep_view() =~= Seq::<Seq<char>>::empty());
    while k < members.len()
        invariant
            k <= members@.len(),
            places(members@, requests@.len()),
            view == requests.deep_view(),
            list == indices(members@),
            out.deep_view() == member_tests(view, list, k as int),
        decreases members@.len() - k,
    {
        let m: usize = members[k];
        assert(list[k as int] == m);
        assert(view[m as int] == requests@[m as int].deep_view());
        append_all(&mut out, copy_texts(&requests[m].companion_test_files));
        k = k + 1;
    }
    out
}

fn smallest_line(requests: &Vec<LlmFixRequest>, members: &Vec<usize>) -> (r: u32)
    requires
        places(members@, requests@.len()),
        members@.len() > 0,
    ensures
        r == first_line(requests.deep_view(), indices(members@), members@.len() as int),
{
    let ghost view = requests.deep_view();
    let ghost list = indices(members@);
    let m: usize = members[0];
    assert(list[0] == m);
    assert(view[m as int] == requests@[m as int].deep_view());
    let mut least: u32 = requests[m].line;
    let mut k: usize = 1;
    while k < members.len()
        invariant
            1 <= k <= members@.len(),
            places(members@, requests@.len()),
            view == requests.deep_view(),
            list == indices(members@),
            least == first_line(view, list, k as int),
        decreases members@.len() - k,
    {
        let m: usize = members[k];
        assert(list[k as int] == m);
        assert(view[m as int] == requests@[m as int].deep_view());
        if requests[m].line < least {
            least = requests[m].line;
        }
        k = k + 1;
    }
    least
}

fn join_group(
    requests: &Vec<LlmFixRequest>,
    entry: &StrategyEntry,
    group: &Group,
) -> (r: LlmFixRequest)
    requires
        places(group.members@, requests@.len()),
        group.members@.len() > 0,
    ensures
        r.deep_view() == group_request(
            requests.deep_view(),
            entry.deep_view(),
            group.deep_view(),
        ),
{
    let some = choose_members(requests, &group.members);
    assert(indices(some@).len() == some@.len());
    assert(indices(group.members@).len() == group.members@.len());
    let head = write_head(group.family.as_str(), entry);
    let body = write_members(requests, &some);
    let code = write_code(requests, &some);
    let labels = gather_labels(requests, &some);
    assert(labels.deep_view().len() == labels@.len());
    let tests = gather_tests(requests, &group.members);
    assert(tests.deep_view().len() == tests@.len());
    let first: usize = group.members[0];
    assert(indices(group.members@)[0] == first);
    assert(requests.deep_view()[first as int] == requests@[first as int].deep_view());
    LlmFixRequest {
        rule_id: cat2("family:", group.family.as_str()),
        file_uri: requests[first].file_uri.clone(),
        file_path: group.path.clone(),
        line: smallest_line(requests, &some),
        message: cat4(
            head.as_str(),
            "\nIncidents found in this file:\n",
            body.as_str(),
            code.as_str(),
        ),
        code_snip: None,
        source: None,
        labels: distinct_texts(&labels),
        companion_test_files: sorted_keys::<ByPath>(&tests),
    }
}

/// Joins the requests that concern the same family in the same file, where
/// an entry is known for the family: they become one request whose message
/// tells what the entry and all of them say. The other requests stay as
/// they are.
pub fn consolidate_family_requests(
    requests: &mut Vec<LlmFixRequest>,
    family_entries: &TextTable<StrategyEntry>,
)
    ensures
        final(requests).deep_view() == consolidated(
            old(requests).deep_view(),
            family_entries.deep_view(),
        ),
{
    let ghost view = requests.deep_view();
    let ghost known = family_entries.deep_view();
    assert(view.len() == requests@.len());
    let (groups, grouped) = group_requests(requests, family_entries);
    proof {
        lemma_groups_sound(view, known, view.len() as int);
    }
    let ghost heads = groups.deep_view();
    let mut out: Vec<LlmFixRequest> = Vec::new();
    let mut n: usize = 0;
    assert(out.deep_view() =~= Seq::<LlmFixRequestView>::empty());
    while n < requests.len()
        invariant
            n <= requests@.len(),
            view == requests.deep_view(),
            known == family_entries.deep_view(),
            grouped@.len() == requests@.len(),
            forall|i: int|
                0 <= i < requests@.len() ==> grouped@[i] == (known_family(view[i], known) is Some),
            out.deep_view() == ungrouped(view, known, n as int),
        decreases requests@.len() - n,
    {
        assert(view[n as int] == requests@[n as int].deep_view());
        if !grouped[n] {
            append_one(&mut out, requests[n].copy());
        }
        n = n + 1;
    }
    let ghost alone = out.deep_view();
    let ghost goal = consolidated(view, known);
    let mut g: usize = 0;
    while g < groups.len()
        invariant
            g <= groups@.len(),
            view == requests.deep_view(),
            view.len() == requests@.len(),
            known == family_entries.deep_view(),
            heads == groups.deep_view(),
            heads == groups_of(view, known, view.len() as int),
            sound(heads, view.len() as int),
            forall|i: int|
                0 <= i < heads.len() ==> lookup(
                    known,
                    "family:"@ + (#[trigger] heads[i]).family,
                ) is Some,
            alone == ungrouped(view, known, view.len() as int),
            goal == consolidated(view, known),
            out.deep_view() == goal.take(alone.len() + g),
        decreases groups@.len() - g,
    {
        let group = &groups[g];
        assert(heads[g as int] == group.deep_view());
        let key = cat2("family:", group.family.as_str());
        assert(places(group.members@, requests@.len())) by {
            assert forall|i: int| 0 <= i < group.members@.len() implies (
            #[trigger] group.members@[i]) < requests@.len() by {
                assert(heads[g as int].members[i] == group.members@[i]);
            }
        }
        assert(indices(group.members@).len() == group.members@.len());
        match family_entries.get(key.as_str()) {
            Some(entry) => {
                let joined_request = join_group(requests, entry, group);
                append_one(&mut out, joined_request);
                assert(out.deep_view() =~= goal.take(alone.len() + g + 1));
            },
            None => {
                assert(false);
            },
        }
        g = g + 1;
    }
    assert(goal.take(goal.len() as int) =~= goal);
    *requests = out;
}

} // verus!
