//! Strategy entries: which strategy each of them stands for, and what they
//! tell a language model.

use crate::input::{type_changes_for, with_type_changes};
use crate::json::JsonView;
use crate::laws::changes::lemma_inside;
use crate::laws::families::{lemma_joined_holds, lemma_within};
use crate::model::RenameMappingView;
use crate::strategy::{
    all_type_lines, all_value_lines, deprecated_parts, family_context, full_mappings, import_part,
    list_part, mapping_lines, member_lines, optional_part, strategy_context, strategy_of,
    table_lines, target_part, type_lines, value_lines, FixStrategyView, MappingEntryView,
    StrategyEntryView,
};
use crate::text::{has_text, joined, lemma_has_text_reflexive};
use vstd::prelude::*;

verus! {

broadcast use vstd::string::group_string_axioms;

// ---------------------------------------------------------------------
// Kinds
// ---------------------------------------------------------------------

/// The renaming names both sides.
pub open spec fn is_full(m: MappingEntryView, r: RenameMappingView) -> bool {
    m.from == Some(r.old) && m.to == Some(r.new)
}

proof fn lemma_full_mappings(mappings: Seq<MappingEntryView>, n: int)
    requires
        0 <= n <= mappings.len(),
    ensures
        full_mappings(mappings, n).len() <= n,
        forall|k: int|
            0 <= k < n && mappings[k].from is Some && mappings[k].to is Some
                ==> full_mappings(mappings, n).contains(
                RenameMappingView {
                    old: (#[trigger] mappings[k]).from->Some_0,
                    new: mappings[k].to->Some_0,
                },
            ),
        forall|j: int|
            0 <= j < full_mappings(mappings, n).len() ==> is_from(
                mappings,
                #[trigger] full_mappings(mappings, n)[j],
            ),
    decreases n,
{
    if n > 0 {
        lemma_full_mappings(mappings, n - 1);
        let before = full_mappings(mappings, n - 1);
        let now = full_mappings(mappings, n);
        assert forall|k: int|
            0 <= k < n && mappings[k].from is Some && mappings[k].to is Some implies now.contains(
            RenameMappingView {
                old: (#[trigger] mappings[k]).from->Some_0,
                new: mappings[k].to->Some_0,
            },
        ) by {
            let x = RenameMappingView { old: mappings[k].from->Some_0, new: mappings[k].to->Some_0 };
            if k == n - 1 {
                assert(now[before.len() as int] == x);
            } else {
                let j = choose|j: int| 0 <= j < before.len() && before[j] == x;
                assert(now[j] == x);
            }
        }
        assert forall|j: int| 0 <= j < now.len() implies is_from(mappings, #[trigger] now[j]) by {
            if j < before.len() {
                assert(now[j] == before[j]);
            } else {
                assert(is_full(mappings[n - 1], now[j]));
            }
        }
    }
}

/// The rename is one that the list spells out.
pub open spec fn is_from(mappings: Seq<MappingEntryView>, r: RenameMappingView) -> bool {
    exists|k: int| 0 <= k < mappings.len() && is_full(#[trigger] mappings[k], r)
}

proof fn lemma_kinds()
    ensures
        "Rename"@ != "RemoveProp"@,
        "CssVariablePrefix"@ != "Rename"@ && "CssVariablePrefix"@ != "RemoveProp"@,
        "ImportPathChange"@ != "Rename"@ && "ImportPathChange"@ != "RemoveProp"@
            && "ImportPathChange"@ != "CssVariablePrefix"@,
        "EnsureDependency"@ != "Rename"@ && "EnsureDependency"@ != "RemoveProp"@
            && "EnsureDependency"@ != "CssVariablePrefix"@ && "EnsureDependency"@
            != "ImportPathChange"@,
{
    reveal_strlit("Rename");
    reveal_strlit("RemoveProp");
    reveal_strlit("CssVariablePrefix");
    reveal_strlit("ImportPathChange");
    reveal_strlit("EnsureDependency");
    assert("Rename"@.len() == 6);
    assert("RemoveProp"@.len() == 10);
    assert("CssVariablePrefix"@.len() == 17);
    assert("ImportPathChange"@.len() == 16);
    assert("EnsureDependency"@.len() == 16);
    assert("ImportPathChange"@[0] == 'I');
    assert("EnsureDependency"@[0] == 'E');
}

/// An entry of renames stands for the renames that its list spells out; where
/// it spells out none, for the one that it names itself; and where it names
/// none, it is left to a person.
pub proof fn law_entry_of_renames(e: StrategyEntryView)
    requires
        e.strategy == "Rename"@,
    ensures
        match strategy_of(e) {
            FixStrategyView::Rename(renames) => {
                &&& renames.len() > 0
                &&& (exists|k: int|
                    0 <= k < e.mappings.len() && (#[trigger] e.mappings[k]).from is Some
                        && e.mappings[k].to is Some) ==> {
                    &&& forall|k: int|
                        0 <= k < e.mappings.len() && e.mappings[k].from is Some
                            && e.mappings[k].to is Some ==> renames.contains(
                            RenameMappingView {
                                old: (#[trigger] e.mappings[k]).from->Some_0,
                                new: e.mappings[k].to->Some_0,
                            },
                        )
                    &&& forall|j: int|
                        0 <= j < renames.len() ==> is_from(e.mappings, #[trigger] renames[j])
                }
                &&& !(exists|k: int|
                    0 <= k < e.mappings.len() && (#[trigger] e.mappings[k]).from is Some
                        && e.mappings[k].to is Some) ==> renames.len() == 1 && e.from == Some(
                    renames[0].old,
                ) && e.to == Some(renames[0].new)
            },
            FixStrategyView::Manual => (e.from is None || e.to is None) && forall|k: int|
                0 <= k < e.mappings.len() ==> (#[trigger] e.mappings[k]).from is None
                    || e.mappings[k].to is None,
            _ => false,
        },
{
    let n = e.mappings.len() as int;
    let listed = full_mappings(e.mappings, n);
    lemma_full_mappings(e.mappings, n);
    if exists|k: int|
        0 <= k < e.mappings.len() && (#[trigger] e.mappings[k]).from is Some
            && e.mappings[k].to is Some {
        let k = choose|k: int|
            0 <= k < e.mappings.len() && (#[trigger] e.mappings[k]).from is Some
                && e.mappings[k].to is Some;
        let x = RenameMappingView {
            old: e.mappings[k].from->Some_0,
            new: e.mappings[k].to->Some_0,
        };
        assert(listed.contains(x));
        assert(listed.len() > 0);
    } else if listed.len() > 0 {
        assert(is_from(e.mappings, listed[0]));
    }
}

/// Entries of the other kinds that say what to change stand for that change,
/// with what they name; one that lacks what its kind needs is left to a
/// person.
pub proof fn law_entry_of_a_change(e: StrategyEntryView)
    ensures
        e.strategy == "RemoveProp"@ ==> strategy_of(e) == FixStrategyView::RemoveAttribute,
        e.strategy == "CssVariablePrefix"@ ==> strategy_of(e) == (if e.from is Some && e.to is Some {
            FixStrategyView::CssVariablePrefix {
                old_prefix: e.from->Some_0,
                new_prefix: e.to->Some_0,
                exclude_patterns: e.exclude_patterns,
            }
        } else {
            FixStrategyView::Manual
        }),
        e.strategy == "ImportPathChange"@ ==> strategy_of(e) == (if e.from is Some && e.to is Some {
            FixStrategyView::ImportPathChange { old_path: e.from->Some_0, new_path: e.to->Some_0 }
        } else {
            FixStrategyView::Manual
        }),
        e.strategy == "EnsureDependency"@ ==> strategy_of(e) == (if e.package is Some
            && e.new_version is Some {
            FixStrategyView::EnsureDependency {
                package: e.package->Some_0,
                new_version: e.new_version->Some_0,
                old_package: None,
            }
        } else {
            FixStrategyView::Manual
        }),
{
    lemma_kinds();
}

/// The kinds that need a language model.
pub open spec fn needs_model(kind: Seq<char>) -> bool {
    ||| kind == "PropValueChange"@
    ||| kind == "PropTypeChange"@
    ||| kind == "LlmAssisted"@
    ||| kind == "ChildToProp"@
    ||| kind == "PropToChild"@
    ||| kind == "PropToChildren"@
    ||| kind == "CompositionChange"@
    ||| kind == "DeprecatedMigration"@
    ||| kind == "FamilyMigration"@
}

/// The kinds that say what to change.
pub open spec fn says_what_to_change(kind: Seq<char>) -> bool {
    kind == "Rename"@ || kind == "RemoveProp"@ || kind == "CssVariablePrefix"@ || kind
        == "ImportPathChange"@ || kind == "EnsureDependency"@
}

/// A language model is asked for the kinds that need one, with what the entry
/// tells, and for no other; an entry of a kind that is not known is left to a
/// person.
pub proof fn law_entry_for_a_model(e: StrategyEntryView)
    requires
        !says_what_to_change(e.strategy),
    ensures
        strategy_of(e) is Llm <==> needs_model(e.strategy),
        !needs_model(e.strategy) ==> strategy_of(e) == FixStrategyView::Manual,
        e.strategy == "FamilyMigration"@ ==> strategy_of(e) == (FixStrategyView::Llm {
            context: Some(family_context(e)),
        }),
        is_single(e.strategy) ==> strategy_of(e) == (FixStrategyView::Llm {
            context: Some(strategy_context(e)),
        }),
{
    reveal_strlit("FamilyMigration");
    reveal_strlit("PropValueChange");
    reveal_strlit("PropTypeChange");
    reveal_strlit("LlmAssisted");
    reveal_strlit("ChildToProp");
    reveal_strlit("PropToChild");
    reveal_strlit("PropToChildren");
    reveal_strlit("CompositionChange");
    reveal_strlit("DeprecatedMigration");
    assert("FamilyMigration"@[0] == 'F');
    assert("PropValueChange"@[0] == 'P');
    assert("PropTypeChange"@[0] == 'P');
    assert("LlmAssisted"@[0] == 'L');
    assert("ChildToProp"@[0] == 'C');
    assert("PropToChild"@[0] == 'P');
    assert("PropToChildren"@[0] == 'P');
    assert("CompositionChange"@[0] == 'C');
    assert("DeprecatedMigration"@[0] == 'D');
}

/// The kinds that need a model for a single rule.
pub open spec fn is_single(kind: Seq<char>) -> bool {
    needs_model(kind) && kind != "FamilyMigration"@
}

// ---------------------------------------------------------------------
// What an entry tells
// ---------------------------------------------------------------------

/// The parts of two lists.
proof fn lemma_part_of<T>(a: Seq<T>, b: Seq<T>, x: T)
    ensures
        a.contains(x) || b.contains(x) ==> (a + b).contains(x),
{
    if a.contains(x) {
        let j = choose|j: int| 0 <= j < a.len() && a[j] == x;
        assert((a + b)[j] == x);
    }
    if b.contains(x) {
        let j = choose|j: int| 0 <= j < b.len() && b[j] == x;
        assert((a + b)[a.len() + j] == x);
    }
}

proof fn lemma_told(parts: Seq<Seq<char>>, part: Seq<char>, x: Seq<char>)
    requires
        parts.contains(part),
        has_text(part, x),
    ensures
        has_text(joined(parts, "\n"@), x),
{
    let k = choose|k: int| 0 <= k < parts.len() && parts[k] == part;
    lemma_joined_holds(parts, "\n"@, k);
    lemma_within(joined(parts, "\n"@), part, x);
}

/// The first `n` lists, one after the other.
spec fn all_parts(lists: Seq<Seq<Seq<char>>>, n: int) -> Seq<Seq<char>>
    decreases n,
{
    if n <= 1 {
        lists[0]
    } else {
        all_parts(lists, n - 1) + lists[n - 1]
    }
}

proof fn lemma_all_parts(lists: Seq<Seq<Seq<char>>>, n: int, k: int, x: Seq<char>)
    requires
        0 <= k < n <= lists.len(),
        lists[k].contains(x),
    ensures
        all_parts(lists, n).contains(x),
    decreases n,
{
    if n > 1 {
        if k < n - 1 {
            lemma_all_parts(lists, n - 1, k, x);
        }
        lemma_part_of(all_parts(lists, n - 1), lists[n - 1], x);
    }
}

spec fn single_lists(e: StrategyEntryView) -> Seq<Seq<Seq<char>>> {
    seq![
        seq!["Strategy: "@ + e.strategy],
        optional_part("Component: "@, e.component),
        optional_part("Prop: "@, e.prop),
        optional_part("From: "@, e.from),
        optional_part("To: "@, e.to),
        optional_part("Replacement: "@, e.replacement),
        list_part(
            "Mappings:\n"@,
            mapping_lines(e.mappings, e.mappings.len() as int),
            "\n"@,
        ),
        list_part("Member mappings:\n"@, member_lines(e.member_mappings), "\n"@),
        list_part("Removed members: "@, e.removed_members, ", "@),
    ]
}

proof fn lemma_single(e: StrategyEntryView, k: int, part: Seq<char>, x: Seq<char>)
    requires
        0 <= k < 9,
        single_lists(e)[k].contains(part),
        has_text(part, x),
    ensures
        has_text(strategy_context(e), x),
{
    let lists = single_lists(e);
    reveal_with_fuel(all_parts, 10);
    let parts = all_parts(lists, 9);
    assert(strategy_context(e) == joined(parts, "\n"@));
    lemma_all_parts(lists, 9, k, part);
    lemma_told(parts, part, x);
}

proof fn lemma_optional(label: Seq<char>, o: Option<Seq<char>>)
    ensures
        o matches Some(v) ==> optional_part(label, o).contains(label + v) && has_text(
            label + v,
            label + v,
        ),
{
    match o {
        Some(v) => {
            assert(optional_part(label, o)[0] == label + v);
            lemma_has_text_reflexive(label + v);
        },
        None => {},
    }
}

proof fn lemma_list(label: Seq<char>, items: Seq<Seq<char>>, sep: Seq<char>, k: int)
    requires
        0 <= k < items.len(),
    ensures
        list_part(label, items, sep).contains(label + joined(items, sep)),
        has_text(label + joined(items, sep), items[k]),
{
    assert(list_part(label, items, sep)[0] == label + joined(items, sep));
    lemma_joined_holds(items, sep, k);
    lemma_inside(label, joined(items, sep), items[k]);
}

proof fn lemma_mapping_line(mappings: Seq<MappingEntryView>, n: int, k: int)
    requires
        0 <= k < n <= mappings.len(),
        mappings[k].from is Some,
        mappings[k].to is Some,
    ensures
        mapping_lines(mappings, n).contains(
            "  "@ + mappings[k].from->Some_0 + " -> "@ + mappings[k].to->Some_0,
        ),
    decreases n,
{
    let x = "  "@ + mappings[k].from->Some_0 + " -> "@ + mappings[k].to->Some_0;
    let before = mapping_lines(mappings, n - 1);
    let now = mapping_lines(mappings, n);
    if k == n - 1 {
        assert(now[before.len() as int] == x);
    } else {
        lemma_mapping_line(mappings, n - 1, k);
        let j = choose|j: int| 0 <= j < before.len() && before[j] == x;
        assert(now[j] == x);
    }
}

/// What an entry for a single rule knows is told: its component, its
/// property, both sides, the replacement, the renamings, the renamed members
/// and the removed ones.
pub proof fn law_entry_tells_what_it_knows(e: StrategyEntryView, k: int)
    ensures
        has_text(strategy_context(e), "Strategy: "@ + e.strategy),
        e.component matches Some(v) ==> has_text(strategy_context(e), "Component: "@ + v),
        e.prop matches Some(v) ==> has_text(strategy_context(e), "Prop: "@ + v),
        e.from matches Some(v) ==> has_text(strategy_context(e), "From: "@ + v),
        e.to matches Some(v) ==> has_text(strategy_context(e), "To: "@ + v),
        e.replacement matches Some(v) ==> has_text(strategy_context(e), "Replacement: "@ + v),
        0 <= k < e.mappings.len() && e.mappings[k].from is Some && e.mappings[k].to is Some
            ==> has_text(
            strategy_context(e),
            "  "@ + e.mappings[k].from->Some_0 + " -> "@ + e.mappings[k].to->Some_0,
        ),
        0 <= k < e.member_mappings.len() ==> has_text(
            strategy_context(e),
            "  "@ + e.member_mappings[k].old_name + " -> "@ + e.member_mappings[k].new_name,
        ),
        0 <= k < e.removed_members.len() ==> has_text(strategy_context(e), e.removed_members[k]),
{
    let first = "Strategy: "@ + e.strategy;
    lemma_has_text_reflexive(first);
    assert(single_lists(e)[0][0] == first);
    lemma_single(e, 0, first, first);
    lemma_optional("Component: "@, e.component);
    lemma_optional("Prop: "@, e.prop);
    lemma_optional("From: "@, e.from);
    lemma_optional("To: "@, e.to);
    lemma_optional("Replacement: "@, e.replacement);
    if e.component is Some {
        let v = "Component: "@ + e.component->Some_0;
        lemma_single(e, 1, v, v);
    }
    if e.prop is Some {
        let v = "Prop: "@ + e.prop->Some_0;
        lemma_single(e, 2, v, v);
    }
    if e.from is Some {
        let v = "From: "@ + e.from->Some_0;
        lemma_single(e, 3, v, v);
    }
    if e.to is Some {
        let v = "To: "@ + e.to->Some_0;
        lemma_single(e, 4, v, v);
    }
    if e.replacement is Some {
        let v = "Replacement: "@ + e.replacement->Some_0;
        lemma_single(e, 5, v, v);
    }
    if 0 <= k < e.mappings.len() && e.mappings[k].from is Some && e.mappings[k].to is Some {
        let x = "  "@ + e.mappings[k].from->Some_0 + " -> "@ + e.mappings[k].to->Some_0;
        let items = mapping_lines(e.mappings, e.mappings.len() as int);
        lemma_mapping_line(e.mappings, e.mappings.len() as int, k);
        let j = choose|j: int| 0 <= j < items.len() && items[j] == x;
        lemma_list("Mappings:\n"@, items, "\n"@, j);
        lemma_single(e, 6, "Mappings:\n"@ + joined(items, "\n"@), x);
    }
    if 0 <= k < e.member_mappings.len() {
        let items = member_lines(e.member_mappings);
        lemma_list("Member mappings:\n"@, items, "\n"@, k);
        lemma_single(e, 7, "Member mappings:\n"@ + joined(items, "\n"@), items[k]);
    }
    if 0 <= k < e.removed_members.len() {
        let items = e.removed_members;
        lemma_list("Removed members: "@, items, ", "@, k);
        lemma_single(e, 8, "Removed members: "@ + joined(items, ", "@), items[k]);
    }
}

spec fn family_lists(e: StrategyEntryView) -> Seq<Seq<Seq<char>>> {
    seq![
        seq!["Strategy: FamilyMigration"@],
        target_part(e.target_structure),
        optional_part("Component: "@, e.component),
        list_part("Props that stay on root: "@, e.retained_props, ", "@),
        list_part(
            "Props that move to child components:\n"@,
            table_lines(e.prop_to_child, " -> <"@, " />"@),
            "\n"@,
        ),
        list_part(
            "Child props that move to parent:\n"@,
            table_lines(e.child_props_to_parent, " -> "@, ""@),
            "\n"@,
        ),
        list_part("Removed children: "@, e.removed_children, ", "@),
        import_part(e.new_imports, e.import_source),
        list_part("Remove imports: "@, e.removed_imports, ", "@),
        list_part(
            "Prop value changes:\n"@,
            all_value_lines(e.prop_value_changes, e.prop_value_changes.len() as int),
            "\n"@,
        ),
        list_part(
            "Prop type changes:\n"@,
            all_type_lines(e.prop_type_changes, e.prop_type_changes.len() as int),
            "\n"@,
        ),
        deprecated_parts(e.deprecated_migration),
    ]
}

proof fn lemma_family(e: StrategyEntryView, k: int, part: Seq<char>, x: Seq<char>)
    requires
        0 <= k < 12,
        family_lists(e)[k].contains(part),
        has_text(part, x),
    ensures
        has_text(family_context(e), x),
{
    let lists = family_lists(e);
    reveal_with_fuel(all_parts, 13);
    let parts = all_parts(lists, 12);
    assert(family_context(e) == joined(parts, "\n"@));
    lemma_all_parts(lists, 12, k, part);
    lemma_told(parts, part, x);
}

/// What an entry for a family knows is told: its target structure, the
/// properties that stay, move down or move up, the children that go, the
/// imports to add and to remove, and the changes of values and types.
pub proof fn law_family_entry_tells_what_it_knows(e: StrategyEntryView, k: int, j: int)
    ensures
        e.target_structure matches Some(t) ==> has_text(family_context(e), t),
        e.component matches Some(v) ==> has_text(family_context(e), "Component: "@ + v),
        0 <= k < e.retained_props.len() ==> has_text(family_context(e), e.retained_props[k]),
        0 <= k < e.prop_to_child.len() ==> has_text(
            family_context(e),
            "  "@ + e.prop_to_child[k].0 + " -> <"@ + e.prop_to_child[k].1 + " />"@,
        ),
        0 <= k < e.child_props_to_parent.len() ==> has_text(
            family_context(e),
            "  "@ + e.child_props_to_parent[k].0 + " -> "@ + e.child_props_to_parent[k].1 + ""@,
        ),
        0 <= k < e.removed_children.len() ==> has_text(family_context(e), e.removed_children[k]),
        0 <= k < e.new_imports.len() ==> has_text(family_context(e), e.new_imports[k]),
        0 <= k < e.removed_imports.len() ==> has_text(family_context(e), e.removed_imports[k]),
        0 <= k < e.prop_value_changes.len() && 0 <= j < e.prop_value_changes[k].1.len()
            && e.prop_value_changes[k].1[j].from is Some && e.prop_value_changes[k].1[j].to is Some
            ==> has_text(
            family_context(e),
            changed_line(e.prop_value_changes[k].0, e.prop_value_changes[k].1[j]),
        ),
        0 <= k < e.prop_type_changes.len() && 0 <= j < e.prop_type_changes[k].1.len()
            && e.prop_type_changes[k].1[j].from is Some && e.prop_type_changes[k].1[j].to is Some
            ==> has_text(
            family_context(e),
            changed_line(e.prop_type_changes[k].0, e.prop_type_changes[k].1[j]),
        ),
{
    match e.target_structure {
        Some(t) => {
            let lead = "\nTarget structure (correct v6 composition):\n```jsx\n"@;
            let part = lead + t + "\n```"@;
            lemma_has_text_reflexive(t);
            lemma_inside(lead, t, t);
            lemma_inside(lead + t, "\n```"@, t);
            assert(target_part(e.target_structure)[0] == part);
            lemma_family(e, 1, part, t);
        },
        None => {},
    }
    lemma_optional("Component: "@, e.component);
    if e.component is Some {
        let v = "Component: "@ + e.component->Some_0;
        lemma_family(e, 2, v, v);
    }
    if 0 <= k < e.retained_props.len() {
        let items = e.retained_props;
        lemma_list("Props that stay on root: "@, items, ", "@, k);
        lemma_family(e, 3, "Props that stay on root: "@ + joined(items, ", "@), items[k]);
    }
    if 0 <= k < e.prop_to_child.len() {
        let label = "Props that move to child components:\n"@;
        let items = table_lines(e.prop_to_child, " -> <"@, " />"@);
        lemma_list(label, items, "\n"@, k);
        lemma_family(e, 4, label + joined(items, "\n"@), items[k]);
    }
    if 0 <= k < e.child_props_to_parent.len() {
        let label = "Child props that move to parent:\n"@;
        let items = table_lines(e.child_props_to_parent, " -> "@, ""@);
        lemma_list(label, items, "\n"@, k);
        lemma_family(e, 5, label + joined(items, "\n"@), items[k]);
    }
    if 0 <= k < e.removed_children.len() {
        let items = e.removed_children;
        lemma_list("Removed children: "@, items, ", "@, k);
        lemma_family(e, 6, "Removed children: "@ + joined(items, ", "@), items[k]);
    }
    if 0 <= k < e.new_imports.len() {
        let items = e.new_imports;
        let x = items[k];
        let a = "Add imports: "@ + joined(items, ", "@);
        let b = crate::strategy::or_else(e.import_source, "(same package)"@);
        let part = a + " from '"@ + b + "'"@;
        lemma_joined_holds(items, ", "@, k);
        lemma_inside("Add imports: "@, joined(items, ", "@), x);
        lemma_inside(a, " from '"@, x);
        lemma_inside(a + " from '"@, b, x);
        lemma_inside(a + " from '"@ + b, "'"@, x);
        assert(import_part(e.new_imports, e.import_source)[0] == part);
        lemma_family(e, 7, part, x);
    }
    if 0 <= k < e.removed_imports.len() {
        let items = e.removed_imports;
        lemma_list("Remove imports: "@, items, ", "@, k);
        lemma_family(e, 8, "Remove imports: "@ + joined(items, ", "@), items[k]);
    }
    if 0 <= k < e.prop_value_changes.len() && 0 <= j < e.prop_value_changes[k].1.len()
        && e.prop_value_changes[k].1[j].from is Some && e.prop_value_changes[k].1[j].to is Some {
        let label = "Prop value changes:\n"@;
        let items = all_value_lines(e.prop_value_changes, e.prop_value_changes.len() as int);
        let x = changed_line(e.prop_value_changes[k].0, e.prop_value_changes[k].1[j]);
        lemma_value_line(e.prop_value_changes, e.prop_value_changes.len() as int, k, j);
        let m = choose|m: int| 0 <= m < items.len() && items[m] == x;
        lemma_list(label, items, "\n"@, m);
        lemma_family(e, 9, label + joined(items, "\n"@), x);
    }
    if 0 <= k < e.prop_type_changes.len() && 0 <= j < e.prop_type_changes[k].1.len()
        && e.prop_type_changes[k].1[j].from is Some && e.prop_type_changes[k].1[j].to is Some {
        let label = "Prop type changes:\n"@;
        let items = all_type_lines(e.prop_type_changes, e.prop_type_changes.len() as int);
        let x = changed_line(e.prop_type_changes[k].0, e.prop_type_changes[k].1[j]);
        lemma_type_line(e.prop_type_changes, e.prop_type_changes.len() as int, k, j);
        let m = choose|m: int| 0 <= m < items.len() && items[m] == x;
        lemma_list(label, items, "\n"@, m);
        lemma_family(e, 10, label + joined(items, "\n"@), x);
    }
}

/// A change of a property, as a line.
pub open spec fn changed_line(prop: Seq<char>, m: MappingEntryView) -> Seq<char> {
    "  "@ + prop + ": "@ + m.from->Some_0 + " -> "@ + m.to->Some_0
}

proof fn lemma_one_value(prop: Seq<char>, mappings: Seq<MappingEntryView>, n: int, j: int)
    requires
        0 <= j < n <= mappings.len(),
        mappings[j].from is Some,
        mappings[j].to is Some,
    ensures
        value_lines(prop, mappings, n).contains(changed_line(prop, mappings[j])),
        type_lines(prop, mappings, n).contains(changed_line(prop, mappings[j])),
    decreases n,
{
    let x = changed_line(prop, mappings[j]);
    let before = value_lines(prop, mappings, n - 1);
    let now = value_lines(prop, mappings, n);
    let types_before = type_lines(prop, mappings, n - 1);
    let types = type_lines(prop, mappings, n);
    if j == n - 1 {
        assert(now[before.len() as int] == x);
        assert(types[types_before.len() as int] == x);
    } else {
        lemma_one_value(prop, mappings, n - 1, j);
        let i = choose|i: int| 0 <= i < before.len() && before[i] == x;
        assert(now[i] == x);
        let i = choose|i: int| 0 <= i < types_before.len() && types_before[i] == x;
        assert(types[i] == x);
    }
}

proof fn lemma_value_line(
    changes: Seq<(Seq<char>, Seq<MappingEntryView>)>,
    n: int,
    k: int,
    j: int,
)
    requires
        0 <= k < n <= changes.len(),
        0 <= j < changes[k].1.len(),
        changes[k].1[j].from is Some,
        changes[k].1[j].to is Some,
    ensures
        all_value_lines(changes, n).contains(changed_line(changes[k].0, changes[k].1[j])),
    decreases n,
{
    let x = changed_line(changes[k].0, changes[k].1[j]);
    let before = all_value_lines(changes, n - 1);
    let more = value_lines(changes[n - 1].0, changes[n - 1].1, changes[n - 1].1.len() as int);
    if k == n - 1 {
        lemma_one_value(changes[k].0, changes[k].1, changes[k].1.len() as int, j);
    } else {
        lemma_value_line(changes, n - 1, k, j);
    }
    lemma_part_of(before, more, x);
}

proof fn lemma_type_line(
    changes: Seq<(Seq<char>, Seq<MappingEntryView>)>,
    n: int,
    k: int,
    j: int,
)
    requires
        0 <= k < n <= changes.len(),
        0 <= j < changes[k].1.len(),
        changes[k].1[j].from is Some,
        changes[k].1[j].to is Some,
    ensures
        all_type_lines(changes, n).contains(changed_line(changes[k].0, changes[k].1[j])),
    decreases n,
{
    let x = changed_line(changes[k].0, changes[k].1[j]);
    let before = all_type_lines(changes, n - 1);
    let more = type_lines(changes[n - 1].0, changes[n - 1].1, changes[n - 1].1.len() as int);
    if k == n - 1 {
        lemma_one_value(changes[k].0, changes[k].1, changes[k].1.len() as int, j);
    } else {
        lemma_type_line(changes, n - 1, k, j);
    }
    lemma_part_of(before, more, x);
}

// ---------------------------------------------------------------------
// Changes of types
// ---------------------------------------------------------------------

/// Reading the changes of types keeps every entry, under its rule and with
/// all else that it says, and gives it the changes that the document has for
/// the rule; it fails if and only if those of some entry cannot be read.
pub proof fn law_type_changes_are_read(
    entries: Seq<(Seq<char>, StrategyEntryView)>,
    document: Option<JsonView>,
    n: int,
)
    requires
        0 <= n <= entries.len(),
    ensures
        match with_type_changes(entries, document, n) {
            Ok(read) => read.len() == n && forall|k: int|
                0 <= k < n ==> (#[trigger] read[k]).0 == entries[k].0 && Ok::<
                    Seq<(Seq<char>, Seq<MappingEntryView>)>,
                    Seq<char>,
                >(read[k].1.prop_type_changes) == type_changes_for(document, entries[k].0)
                    && read[k].1 == (StrategyEntryView {
                    prop_type_changes: read[k].1.prop_type_changes,
                    ..entries[k].1
                }),
            Err(reason) => exists|k: int|
                0 <= k < n && type_changes_for(document, (#[trigger] entries[k]).0) == Err::<
                    Seq<(Seq<char>, Seq<MappingEntryView>)>,
                    Seq<char>,
                >(reason) && forall|j: int|
                    0 <= j < k ==> type_changes_for(document, (#[trigger] entries[j]).0) is Ok,
        },
    decreases n,
{
    if n > 0 {
        law_type_changes_are_read(entries, document, n - 1);
        match with_type_changes(entries, document, n - 1) {
            Err(reason) => {
                let k = choose|k: int|
                    0 <= k < n - 1 && type_changes_for(document, (#[trigger] entries[k]).0)
                        == Err::<Seq<(Seq<char>, Seq<MappingEntryView>)>, Seq<char>>(reason)
                        && forall|j: int|
                        0 <= j < k ==> type_changes_for(document, (#[trigger] entries[j]).0) is Ok;
                assert(0 <= k < n);
            },
            Ok(before) => {
                assert forall|j: int| 0 <= j < n - 1 implies type_changes_for(
                    document,
                    (#[trigger] entries[j]).0,
                ) is Ok by {
                    assert(before[j].0 == entries[j].0);
                }
                match with_type_changes(entries, document, n) {
                    Ok(read) => {
                        assert forall|k: int| 0 <= k < n implies (#[trigger] read[k]).0
                            == entries[k].0 && Ok::<
                            Seq<(Seq<char>, Seq<MappingEntryView>)>,
                            Seq<char>,
                        >(read[k].1.prop_type_changes) == type_changes_for(document, entries[k].0)
                            && read[k].1 == (StrategyEntryView {
                            prop_type_changes: read[k].1.prop_type_changes,
                            ..entries[k].1
                        }) by {
                            if k < n - 1 {
                                assert(read[k] == before[k]);
                            }
                        }
                    },
                    Err(reason) => {
                        assert(type_changes_for(document, entries[n - 1].0) == Err::<
                            Seq<(Seq<char>, Seq<MappingEntryView>)>,
                            Seq<char>,
                        >(reason));
                    },
                }
            },
        }
    }
}

} // verus!
