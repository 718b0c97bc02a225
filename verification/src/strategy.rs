//! Fix strategies: what to do about the incidents of a rule, and how the
//! entries of a strategy file turn into them.

use crate::model::{RenameMapping, RenameMappingView};
use crate::order::ByText;
use crate::table::{ascending, entry_views, TextTable};
use crate::text::{
    begins, cat2, cat3, cat4, cat5, cat6, cat7, cat8, contains, has_text, join, joined, owned,
    same, starts_with,
};
use crate::views::{append_all, append_one, copy_texts, only};
use vstd::prelude::*;

verus! {

broadcast use vstd::string::group_string_axioms;

/// One renaming within a strategy entry.
#[derive(Debug)]
pub struct MappingEntry {
    pub from: Option<String>,
    pub to: Option<String>,
    pub component: Option<String>,
    pub prop: Option<String>,
}

/// What a [`MappingEntry`] holds.
#[verifier::ext_equal]
pub ghost struct MappingEntryView {
    pub from: Option<Seq<char>>,
    pub to: Option<Seq<char>>,
    pub component: Option<Seq<char>>,
    pub prop: Option<Seq<char>>,
}

impl DeepView for MappingEntry {
    type V = MappingEntryView;

    open spec fn deep_view(&self) -> MappingEntryView {
        MappingEntryView {
            from: self.from.deep_view(),
            to: self.to.deep_view(),
            component: self.component.deep_view(),
            prop: self.prop.deep_view(),
        }
    }
}

/// One renamed member within a strategy entry.
#[derive(Debug)]
pub struct MemberMappingEntry {
    pub old_name: String,
    pub new_name: String,
}

/// What a [`MemberMappingEntry`] holds.
#[verifier::ext_equal]
pub ghost struct MemberMappingEntryView {
    pub old_name: Seq<char>,
    pub new_name: Seq<char>,
}

impl DeepView for MemberMappingEntry {
    type V = MemberMappingEntryView;

    open spec fn deep_view(&self) -> MemberMappingEntryView {
        MemberMappingEntryView {
            old_name: self.old_name.deep_view(),
            new_name: self.new_name.deep_view(),
        }
    }
}

/// One prop that survives a migration.
#[derive(Debug)]
pub struct PropMigrationEntry {
    pub old_name: String,
    pub new_name: String,
    pub old_type: Option<String>,
    pub new_type: Option<String>,
    pub type_changed: bool,
}

/// What a [`PropMigrationEntry`] holds.
#[verifier::ext_equal]
pub ghost struct PropMigrationEntryView {
    pub old_name: Seq<char>,
    pub new_name: Seq<char>,
    pub old_type: Option<Seq<char>>,
    pub new_type: Option<Seq<char>>,
    pub type_changed: bool,
}

impl DeepView for PropMigrationEntry {
    type V = PropMigrationEntryView;

    open spec fn deep_view(&self) -> PropMigrationEntryView {
        PropMigrationEntryView {
            old_name: self.old_name.deep_view(),
            new_name: self.new_name.deep_view(),
            old_type: self.old_type.deep_view(),
            new_type: self.new_type.deep_view(),
            type_changed: self.type_changed.deep_view(),
        }
    }
}

/// How a deprecated component moves to its replacement.
#[derive(Debug)]
pub struct DeprecatedMigrationContext {
    pub old_package: String,
    pub new_package: String,
    pub matching_props: Vec<PropMigrationEntry>,
    pub new_props: TextTable<String>,
    pub removed_props: Vec<String>,
}

/// What a [`DeprecatedMigrationContext`] holds.
#[verifier::ext_equal]
pub ghost struct DeprecatedMigrationContextView {
    pub old_package: Seq<char>,
    pub new_package: Seq<char>,
    pub matching_props: Seq<PropMigrationEntryView>,
    pub new_props: Seq<(Seq<char>, Seq<char>)>,
    pub removed_props: Seq<Seq<char>>,
}

impl DeepView for DeprecatedMigrationContext {
    type V = DeprecatedMigrationContextView;

    open spec fn deep_view(&self) -> DeprecatedMigrationContextView {
        DeprecatedMigrationContextView {
            old_package: self.old_package.deep_view(),
            new_package: self.new_package.deep_view(),
            matching_props: self.matching_props.deep_view(),
            new_props: self.new_props.deep_view(),
            removed_props: self.removed_props.deep_view(),
        }
    }
}

/// An entry of a strategy file.
#[derive(Debug)]
pub struct StrategyEntry {
    /// The kind of strategy.
    pub strategy: String,
    pub from: Option<String>,
    pub to: Option<String>,
    pub component: Option<String>,
    pub prop: Option<String>,
    pub mappings: Vec<MappingEntry>,
    pub member_mappings: Vec<MemberMappingEntry>,
    pub removed_members: Vec<String>,
    pub replacement: Option<String>,
    pub package: Option<String>,
    pub new_version: Option<String>,
    /// The component structure that a family moves to.
    pub target_structure: Option<String>,
    pub retained_props: Vec<String>,
    pub prop_to_child: TextTable<String>,
    pub unmapped_removed_props: TextTable<String>,
    pub removed_children: Vec<String>,
    pub child_props_to_parent: TextTable<String>,
    pub prop_value_changes: TextTable<Vec<MappingEntry>>,
    pub prop_type_changes: TextTable<Vec<MappingEntry>>,
    pub new_imports: Vec<String>,
    pub removed_imports: Vec<String>,
    pub import_source: Option<String>,
    pub deprecated_migration: Option<DeprecatedMigrationContext>,
    /// CSS classes that a prefix swap leaves alone.
    pub exclude_patterns: Vec<String>,
}

/// What a [`StrategyEntry`] holds.
#[verifier::ext_equal]
pub ghost struct StrategyEntryView {
    pub strategy: Seq<char>,
    pub from: Option<Seq<char>>,
    pub to: Option<Seq<char>>,
    pub component: Option<Seq<char>>,
    pub prop: Option<Seq<char>>,
    pub mappings: Seq<MappingEntryView>,
    pub member_mappings: Seq<MemberMappingEntryView>,
    pub removed_members: Seq<Seq<char>>,
    pub replacement: Option<Seq<char>>,
    pub package: Option<Seq<char>>,
    pub new_version: Option<Seq<char>>,
    pub target_structure: Option<Seq<char>>,
    pub retained_props: Seq<Seq<char>>,
    pub prop_to_child: Seq<(Seq<char>, Seq<char>)>,
    pub unmapped_removed_props: Seq<(Seq<char>, Seq<char>)>,
    pub removed_children: Seq<Seq<char>>,
    pub child_props_to_parent: Seq<(Seq<char>, Seq<char>)>,
    pub prop_value_changes: Seq<(Seq<char>, Seq<MappingEntryView>)>,
    pub prop_type_changes: Seq<(Seq<char>, Seq<MappingEntryView>)>,
    pub new_imports: Seq<Seq<char>>,
    pub removed_imports: Seq<Seq<char>>,
    pub import_source: Option<Seq<char>>,
    pub deprecated_migration: Option<DeprecatedMigrationContextView>,
    pub exclude_patterns: Seq<Seq<char>>,
}

impl DeepView for StrategyEntry {
    type V = StrategyEntryView;

    open spec fn deep_view(&self) -> StrategyEntryView {
        StrategyEntryView {
            strategy: self.strategy.deep_view(),
            from: self.from.deep_view(),
            to: self.to.deep_view(),
            component: self.component.deep_view(),
            prop: self.prop.deep_view(),
            mappings: self.mappings.deep_view(),
            member_mappings: self.member_mappings.deep_view(),
            removed_members: self.removed_members.deep_view(),
            replacement: self.replacement.deep_view(),
            package: self.package.deep_view(),
            new_version: self.new_version.deep_view(),
            target_structure: self.target_structure.deep_view(),
            retained_props: self.retained_props.deep_view(),
            prop_to_child: self.prop_to_child.deep_view(),
            unmapped_removed_props: self.unmapped_removed_props.deep_view(),
            removed_children: self.removed_children.deep_view(),
            child_props_to_parent: self.child_props_to_parent.deep_view(),
            prop_value_changes: self.prop_value_changes.deep_view(),
            prop_type_changes: self.prop_type_changes.deep_view(),
            new_imports: self.new_imports.deep_view(),
            removed_imports: self.removed_imports.deep_view(),
            import_source: self.import_source.deep_view(),
            deprecated_migration: self.deprecated_migration.deep_view(),
            exclude_patterns: self.exclude_patterns.deep_view(),
        }
    }
}

/// What to do about the incidents of a rule.
#[derive(Debug)]
pub enum FixStrategy {
    /// Rename the matched text.
    Rename(Vec<RenameMapping>),
    /// Remove the matched attribute.
    RemoveAttribute,
    /// Replace the path of an import.
    ImportPathChange { old_path: String, new_path: String },
    /// Replace a Java import, and the class name where it changed.
    JavaImportRename { old_fqn: String, new_fqn: String },
    /// Replace the prefix of CSS variables and classes.
    CssVariablePrefix { old_prefix: String, new_prefix: String, exclude_patterns: Vec<String> },
    /// Bring a dependency to a version in the manifest of the project.
    EnsureDependency { package: String, new_version: String, old_package: Option<String> },
    /// Leave it to a person.
    Manual,
    /// Leave it to a language model, with what the strategy knows.
    Llm { context: Option<String> },
}

/// What a [`FixStrategy`] holds.
pub ghost enum FixStrategyView {
    Rename(Seq<RenameMappingView>),
    RemoveAttribute,
    ImportPathChange { old_path: Seq<char>, new_path: Seq<char> },
    JavaImportRename { old_fqn: Seq<char>, new_fqn: Seq<char> },
    CssVariablePrefix {
        old_prefix: Seq<char>,
        new_prefix: Seq<char>,
        exclude_patterns: Seq<Seq<char>>,
    },
    EnsureDependency {
        package: Seq<char>,
        new_version: Seq<char>,
        old_package: Option<Seq<char>>,
    },
    Manual,
    Llm { context: Option<Seq<char>> },
}

impl DeepView for FixStrategy {
    type V = FixStrategyView;

    open spec fn deep_view(&self) -> FixStrategyView {
        match self {
            FixStrategy::Rename(mappings) => FixStrategyView::Rename(mappings.deep_view()),
            FixStrategy::RemoveAttribute => FixStrategyView::RemoveAttribute,
            FixStrategy::ImportPathChange { old_path, new_path } => {
                FixStrategyView::ImportPathChange { old_path: old_path@, new_path: new_path@ }
            },
            FixStrategy::JavaImportRename { old_fqn, new_fqn } => {
                FixStrategyView::JavaImportRename { old_fqn: old_fqn@, new_fqn: new_fqn@ }
            },
            FixStrategy::CssVariablePrefix { old_prefix, new_prefix, exclude_patterns } => {
                FixStrategyView::CssVariablePrefix {
                    old_prefix: old_prefix@,
                    new_prefix: new_prefix@,
                    exclude_patterns: exclude_patterns.deep_view(),
                }
            },
            FixStrategy::EnsureDependency { package, new_version, old_package } => {
                FixStrategyView::EnsureDependency {
                    package: package@,
                    new_version: new_version@,
                    old_package: old_package.deep_view(),
                }
            },
            FixStrategy::Manual => FixStrategyView::Manual,
            FixStrategy::Llm { context } => FixStrategyView::Llm { context: context.deep_view() },
        }
    }
}

/// An entry of the given kind with nothing else in it.
pub open spec fn bare_entry(strategy: Seq<char>) -> StrategyEntryView {
    StrategyEntryView {
        strategy,
        from: None,
        to: None,
        component: None,
        prop: None,
        mappings: Seq::empty(),
        member_mappings: Seq::empty(),
        removed_members: Seq::empty(),
        replacement: None,
        package: None,
        new_version: None,
        target_structure: None,
        retained_props: Seq::empty(),
        prop_to_child: Seq::empty(),
        unmapped_removed_props: Seq::empty(),
        removed_children: Seq::empty(),
        child_props_to_parent: Seq::empty(),
        prop_value_changes: Seq::empty(),
        prop_type_changes: Seq::empty(),
        new_imports: Seq::empty(),
        removed_imports: Seq::empty(),
        import_source: None,
        deprecated_migration: None,
        exclude_patterns: Seq::empty(),
    }
}

impl StrategyEntry {
    /// An entry of the given kind with nothing else in it.
    pub fn new(strategy: &str) -> (r: StrategyEntry)
        ensures
            r.deep_view() == bare_entry(strategy@),
    {
        let r = StrategyEntry {
            strategy: owned(strategy),
            from: None,
            to: None,
            component: None,
            prop: None,
            mappings: Vec::new(),
            member_mappings: Vec::new(),
            removed_members: Vec::new(),
            replacement: None,
            package: None,
            new_version: None,
            target_structure: None,
            retained_props: Vec::new(),
            prop_to_child: TextTable::new(),
            unmapped_removed_props: TextTable::new(),
            removed_children: Vec::new(),
            child_props_to_parent: TextTable::new(),
            prop_value_changes: TextTable::new(),
            prop_type_changes: TextTable::new(),
            new_imports: Vec::new(),
            removed_imports: Vec::new(),
            import_source: None,
            deprecated_migration: None,
            exclude_patterns: Vec::new(),
        };
        assert(r.deep_view() =~= bare_entry(strategy@));
        r
    }
}

impl Default for StrategyEntry {
    fn default() -> (r: StrategyEntry)
        ensures
            r.deep_view() == bare_entry(""@),
    {
        StrategyEntry::new("")
    }
}

// ---------------------------------------------------------------------
// What a strategy tells a language model
// ---------------------------------------------------------------------

/// A part of a text that is there where the value is.
pub open spec fn optional_part(label: Seq<char>, o: Option<Seq<char>>) -> Seq<Seq<char>> {
    match o {
        Some(v) => seq![label + v],
        None => Seq::empty(),
    }
}

/// A part of a text that lists values, where there are any.
pub open spec fn list_part(label: Seq<char>, items: Seq<Seq<char>>, sep: Seq<char>) -> Seq<
    Seq<char>,
> {
    if items.len() == 0 {
        Seq::empty()
    } else {
        seq![label + joined(items, sep)]
    }
}

fn add_optional(parts: &mut Vec<String>, label: &str, o: &Option<String>)
    ensures
        final(parts).deep_view() == old(parts).deep_view() + optional_part(label@, o.deep_view()),
{
    match o {
        Some(v) => {
            append_one(parts, cat2(label, v.as_str()));
            assert(parts.deep_view() =~= old(parts).deep_view() + optional_part(
                label@,
                o.deep_view(),
            ));
        },
        None => {
            assert(parts.deep_view() =~= old(parts).deep_view() + optional_part(
                label@,
                o.deep_view(),
            ));
        },
    }
}

fn add_list(parts: &mut Vec<String>, label: &str, items: &Vec<String>, sep: &str)
    ensures
        final(parts).deep_view() == old(parts).deep_view() + list_part(
            label@,
            items.deep_view(),
            sep@,
        ),
{
    assert(items.deep_view().len() == items@.len());
    if items.len() > 0 {
        let list = join(items, sep);
        append_one(parts, cat2(label, list.as_str()));
    }
    assert(parts.deep_view() =~= old(parts).deep_view() + list_part(
        label@,
        items.deep_view(),
        sep@,
    ));
}

/// The first `n` renamings that name both sides, one line each.
pub open spec fn mapping_lines(mappings: Seq<MappingEntryView>, n: int) -> Seq<Seq<char>>
    decreases n,
{
    if n <= 0 {
        Seq::empty()
    } else {
        match (mappings[n - 1].from, mappings[n - 1].to) {
            (Some(from), Some(to)) => mapping_lines(mappings, n - 1).push(
                "  "@ + from + " -> "@ + to,
            ),
            _ => mapping_lines(mappings, n - 1),
        }
    }
}

fn lines_of_mappings(mappings: &Vec<MappingEntry>) -> (r: Vec<String>)
    ensures
        r.deep_view() == mapping_lines(mappings.deep_view(), mappings@.len() as int),
{
    let mut out: Vec<String> = Vec::new();
    let mut i: usize = 0;
    assert(out.deep_view() =~= Seq::<Seq<char>>::empty());
    while i < mappings.len()
        invariant
            i <= mappings@.len(),
            out.deep_view() == mapping_lines(mappings.deep_view(), i as int),
        decreases mappings@.len() - i,
    {
        assert(mappings.deep_view()[i as int] == mappings@[i as int].deep_view());
        match (&mappings[i].from, &mappings[i].to) {
            (Some(from), Some(to)) => {
                append_one(&mut out, cat4("  ", from.as_str(), " -> ", to.as_str()));
            },
            _ => {},
        }
        i = i + 1;
    }
    out
}

/// A renamed member, as a line.
pub open spec fn member_line(m: MemberMappingEntryView) -> Seq<char> {
    "  "@ + m.old_name + " -> "@ + m.new_name
}

/// The renamed members, one line each.
pub open spec fn member_lines(members: Seq<MemberMappingEntryView>) -> Seq<Seq<char>> {
    Seq::new(members.len(), |i: int| member_line(members[i]))
}

fn lines_of_members(members: &Vec<MemberMappingEntry>) -> (r: Vec<String>)
    ensures
        r.deep_view() == member_lines(members.deep_view()),
{
    let mut out: Vec<String> = Vec::new();
    let ghost view = members.deep_view();
    let mut i: usize = 0;
    while i < members.len()
        invariant
            i <= members@.len(),
            view == members.deep_view(),
            out@.len() == i,
            forall|k: int| 0 <= k < i ==> (#[trigger] out@[k])@ == member_line(view[k]),
        decreases members@.len() - i,
    {
        assert(view[i as int] == members@[i as int].deep_view());
        out.push(
            cat4("  ", members[i].old_name.as_str(), " -> ", members[i].new_name.as_str()),
        );
        i = i + 1;
    }
    assert(out.deep_view() =~= member_lines(view));
    out
}

/// What an entry tells about a single rule.
pub open spec fn strategy_context(e: StrategyEntryView) -> Seq<char> {
    joined(
        seq!["Strategy: "@ + e.strategy] + optional_part("Component: "@, e.component)
            + optional_part("Prop: "@, e.prop) + optional_part("From: "@, e.from) + optional_part(
            "To: "@,
            e.to,
        ) + optional_part("Replacement: "@, e.replacement) + list_part(
            "Mappings:\n"@,
            mapping_lines(e.mappings, e.mappings.len() as int),
            "\n"@,
        ) + list_part("Member mappings:\n"@, member_lines(e.member_mappings), "\n"@) + list_part(
            "Removed members: "@,
            e.removed_members,
            ", "@,
        ),
        "\n"@,
    )
}

/// Tells what an entry says about a single rule.
pub fn format_strategy_context(entry: &StrategyEntry) -> (r: String)
    ensures
        r@ == strategy_context(entry.deep_view()),
{
    let mut parts = only(cat2("Strategy: ", entry.strategy.as_str()));
    add_optional(&mut parts, "Component: ", &entry.component);
    add_optional(&mut parts, "Prop: ", &entry.prop);
    add_optional(&mut parts, "From: ", &entry.from);
    add_optional(&mut parts, "To: ", &entry.to);
    add_optional(&mut parts, "Replacement: ", &entry.replacement);
    assert(entry.mappings.deep_view().len() == entry.mappings@.len());
    let renamed = lines_of_mappings(&entry.mappings);
    add_list(&mut parts, "Mappings:\n", &renamed, "\n");
    let members = lines_of_members(&entry.member_mappings);
    add_list(&mut parts, "Member mappings:\n", &members, "\n");
    add_list(&mut parts, "Removed members: ", &entry.removed_members, ", ");
    join(&parts, "\n")
}

// ---------------------------------------------------------------------
// What a family entry tells
// ---------------------------------------------------------------------

/// The entries of a table, one line each: the key, `mid`, the value, `end`.
pub open spec fn table_lines(
    m: Seq<(Seq<char>, Seq<char>)>,
    mid: Seq<char>,
    end: Seq<char>,
) -> Seq<Seq<char>> {
    Seq::new(m.len(), |i: int| "  "@ + m[i].0 + mid + m[i].1 + end)
}

/// The entries of a table, one line each.
pub fn lines_of_table(table: &TextTable<String>, mid: &str, end: &str) -> (r: Vec<String>)
    ensures
        r.deep_view() == table_lines(table.deep_view(), mid@, end@),
{
    let mut out: Vec<String> = Vec::new();
    let ghost view = table.deep_view();
    let mut i: usize = 0;
    while i < table.len()
        invariant
            i <= view.len(),
            view == table.deep_view(),
            out@.len() == i,
            forall|k: int|
                0 <= k < i ==> (#[trigger] out@[k])@ == "  "@ + view[k].0 + mid@ + view[k].1
                    + end@,
        decreases view.len() - i,
    {
        out.push(cat5("  ", table.key(i).as_str(), mid, table.value(i).as_str(), end));
        i = i + 1;
    }
    assert(out.deep_view() =~= table_lines(view, mid@, end@));
    out
}

/// The first `n` value changes of a prop that name both sides, one line each.
pub open spec fn value_lines(prop: Seq<char>, mappings: Seq<MappingEntryView>, n: int) -> Seq<
    Seq<char>,
>
    decreases n,
{
    if n <= 0 {
        Seq::empty()
    } else {
        let before = value_lines(prop, mappings, n - 1);
        match (mappings[n - 1].from, mappings[n - 1].to) {
            (Some(from), Some(to)) => before.push("  "@ + prop + ": "@ + from + " -> "@ + to),
            _ => before,
        }
    }
}

/// The value changes of the first `n` props, one line each.
pub open spec fn all_value_lines(
    changes: Seq<(Seq<char>, Seq<MappingEntryView>)>,
    n: int,
) -> Seq<Seq<char>>
    decreases n,
{
    if n <= 0 {
        Seq::empty()
    } else {
        all_value_lines(changes, n - 1) + value_lines(
            changes[n - 1].0,
            changes[n - 1].1,
            changes[n - 1].1.len() as int,
        )
    }
}

/// The first `n` type changes of a prop, one line each: both types, or the
/// current signature where only that is known.
pub open spec fn type_lines(prop: Seq<char>, mappings: Seq<MappingEntryView>, n: int) -> Seq<
    Seq<char>,
>
    decreases n,
{
    if n <= 0 {
        Seq::empty()
    } else {
        let before = type_lines(prop, mappings, n - 1);
        match (mappings[n - 1].from, mappings[n - 1].to) {
            (Some(from), Some(to)) => before.push("  "@ + prop + ": "@ + from + " -> "@ + to),
            (None, Some(to)) => before.push("  "@ + prop + " (current signature): "@ + to),
            _ => before,
        }
    }
}

/// The type changes of the first `n` props, one line each.
pub open spec fn all_type_lines(
    changes: Seq<(Seq<char>, Seq<MappingEntryView>)>,
    n: int,
) -> Seq<Seq<char>>
    decreases n,
{
    if n <= 0 {
        Seq::empty()
    } else {
        all_type_lines(changes, n - 1) + type_lines(
            changes[n - 1].0,
            changes[n - 1].1,
            changes[n - 1].1.len() as int,
        )
    }
}

/// The value changes of props, one line each.
pub fn lines_of_values(changes: &TextTable<Vec<MappingEntry>>) -> (r: Vec<String>)
    ensures
        r.deep_view() == all_value_lines(changes.deep_view(), changes.deep_view().len() as int),
{
    let mut out: Vec<String> = Vec::new();
    let ghost view = changes.deep_view();
    let mut i: usize = 0;
    assert(out.deep_view() =~= Seq::<Seq<char>>::empty());
    while i < changes.len()
        invariant
            i <= view.len(),
            view == changes.deep_view(),
            out.deep_view() == all_value_lines(view, i as int),
        decreases view.len() - i,
    {
        let prop = changes.key(i);
        let list = changes.value(i);
        let ghost before = out.deep_view();
        let mut j: usize = 0;
        assert(out.deep_view() =~= before + value_lines(prop@, list.deep_view(), 0));
        while j < list.len()
            invariant
                j <= list@.len(),
                out.deep_view() == before + value_lines(prop@, list.deep_view(), j as int),
            decreases list@.len() - j,
        {
            assert(list.deep_view()[j as int] == list@[j as int].deep_view());
            let ghost so_far = out.deep_view();
            match (&list[j].from, &list[j].to) {
                (Some(from), Some(to)) => {
                    append_one(
                        &mut out,
                        cat6("  ", prop.as_str(), ": ", from.as_str(), " -> ", to.as_str()),
                    );
                    assert(out.deep_view() =~= before + value_lines(prop@, list.deep_view(), j + 1));
                },
                _ => {},
            }
            j = j + 1;
        }
        assert(list.deep_view().len() == list@.len());
        i = i + 1;
    }
    out
}

/// The type changes of props, one line each.
pub fn lines_of_types(changes: &TextTable<Vec<MappingEntry>>) -> (r: Vec<String>)
    ensures
        r.deep_view() == all_type_lines(changes.deep_view(), changes.deep_view().len() as int),
{
    let mut out: Vec<String> = Vec::new();
    let ghost view = changes.deep_view();
    let mut i: usize = 0;
    assert(out.deep_view() =~= Seq::<Seq<char>>::empty());
    while i < changes.len()
        invariant
            i <= view.len(),
            view == changes.deep_view(),
            out.deep_view() == all_type_lines(view, i as int),
        decreases view.len() - i,
    {
        let prop = changes.key(i);
        let list = changes.value(i);
        let ghost before = out.deep_view();
        let mut j: usize = 0;
        assert(out.deep_view() =~= before + type_lines(prop@, list.deep_view(), 0));
        while j < list.len()
            invariant
                j <= list@.len(),
                out.deep_view() == before + type_lines(prop@, list.deep_view(), j as int),
            decreases list@.len() - j,
        {
            assert(list.deep_view()[j as int] == list@[j as int].deep_view());
            match (&list[j].from, &list[j].to) {
                (Some(from), Some(to)) => {
                    append_one(
                        &mut out,
                        cat6("  ", prop.as_str(), ": ", from.as_str(), " -> ", to.as_str()),
                    );
                    assert(out.deep_view() =~= before + type_lines(prop@, list.deep_view(), j + 1));
                },
                (None, Some(to)) => {
                    append_one(
                        &mut out,
                        cat4("  ", prop.as_str(), " (current signature): ", to.as_str()),
                    );
                    assert(out.deep_view() =~= before + type_lines(prop@, list.deep_view(), j + 1));
                },
                _ => {},
            }
            j = j + 1;
        }
        assert(list.deep_view().len() == list@.len());
        i = i + 1;
    }
    out
}

/// The value, or `other` where there is none.
pub open spec fn or_else(o: Option<Seq<char>>, other: Seq<char>) -> Seq<char> {
    match o {
        Some(v) => v,
        None => other,
    }
}

/// The value, or `other` where there is none.
pub fn text_or<'a>(o: &'a Option<String>, other: &'a str) -> (r: &'a str)
    ensures
        r@ == or_else(o.deep_view(), other@),
{
    match o {
        Some(v) => v.as_str(),
        None => other,
    }
}

/// A prop that survives, as a line of a context.
pub open spec fn surviving_prop(p: PropMigrationEntryView) -> Seq<char> {
    if p.type_changed {
        "  "@ + p.old_name + " -> "@ + p.new_name + " (TYPE CHANGED):\n    old: "@ + or_else(
            p.old_type,
            "?"@,
        ) + "\n    new: "@ + or_else(p.new_type, "?"@)
    } else if p.old_name == p.new_name {
        "  "@ + p.new_name + ": "@ + or_else(p.new_type, "?"@) + " (unchanged)"@
    } else {
        "  "@ + p.old_name + " -> "@ + p.new_name + ": "@ + or_else(p.new_type, "?"@)
            + " (renamed, type unchanged)"@
    }
}

/// The props that survive, one line each.
pub open spec fn surviving_props(props: Seq<PropMigrationEntryView>) -> Seq<Seq<char>> {
    Seq::new(props.len(), |i: int| surviving_prop(props[i]))
}

fn lines_of_surviving(props: &Vec<PropMigrationEntry>) -> (r: Vec<String>)
    ensures
        r.deep_view() == surviving_props(props.deep_view()),
{
    let mut out: Vec<String> = Vec::new();
    let ghost view = props.deep_view();
    let mut i: usize = 0;
    while i < props.len()
        invariant
            i <= props@.len(),
            view == props.deep_view(),
            out@.len() == i,
            forall|k: int| 0 <= k < i ==> (#[trigger] out@[k])@ == surviving_prop(view[k]),
        decreases props@.len() - i,
    {
        let p = &props[i];
        assert(view[i as int] == p.deep_view());
        let old_name = p.old_name.as_str();
        let new_name = p.new_name.as_str();
        let old_type = text_or(&p.old_type, "?");
        let new_type = text_or(&p.new_type, "?");
        let line = if p.type_changed {
            cat8(
                "  ",
                old_name,
                " -> ",
                new_name,
                " (TYPE CHANGED):\n    old: ",
                old_type,
                "\n    new: ",
                new_type,
            )
        } else if same(old_name, new_name) {
            cat5("  ", new_name, ": ", new_type, " (unchanged)")
        } else {
            cat7("  ", old_name, " -> ", new_name, ": ", new_type, " (renamed, type unchanged)")
        };
        out.push(line);
        i = i + 1;
    }
    assert(out.deep_view() =~= surviving_props(view));
    out
}

/// The type is that of a function that renders something.
pub open spec fn renders(typ: Seq<char>) -> bool {
    (has_text(typ, "=> React.ReactNode"@) || has_text(typ, "=> ReactNode"@) || has_text(
        typ,
        "=> React.ReactElement"@,
    )) && has_text(typ, "=>"@)
}

/// A new prop, as a line of a context.
pub open spec fn new_prop(name: Seq<char>, typ: Seq<char>) -> Seq<char> {
    if renders(typ) {
        "  "@ + name + ": "@ + typ
            + "\n    NOTE: This is a render function. Pass a function REFERENCE, not a function call."@
    } else {
        "  "@ + name + ": "@ + typ
    }
}

/// The new props, one line each.
pub open spec fn new_props_lines(props: Seq<(Seq<char>, Seq<char>)>) -> Seq<Seq<char>> {
    Seq::new(props.len(), |i: int| new_prop(props[i].0, props[i].1))
}

fn lines_of_new_props(props: &TextTable<String>) -> (r: Vec<String>)
    ensures
        r.deep_view() == new_props_lines(props.deep_view()),
{
    let mut out: Vec<String> = Vec::new();
    let ghost view = props.deep_view();
    let mut i: usize = 0;
    while i < props.len()
        invariant
            i <= view.len(),
            view == props.deep_view(),
            out@.len() == i,
            forall|k: int| 0 <= k < i ==> (#[trigger] out@[k])@ == new_prop(view[k].0, view[k].1),
        decreases view.len() - i,
    {
        let name = props.key(i).as_str();
        let typ = props.value(i).as_str();
        let mut line = cat4("  ", name, ": ", typ);
        if (contains(typ, "=> React.ReactNode") || contains(typ, "=> ReactNode") || contains(
            typ,
            "=> React.ReactElement",
        )) && contains(typ, "=>") {
            line.append(
                "\n    NOTE: This is a render function. Pass a function REFERENCE, not a function call.",
            );
        }
        out.push(line);
        i = i + 1;
    }
    assert(out.deep_view() =~= new_props_lines(view));
    out
}

/// What a family entry tells about the move away from a deprecated
/// component.
pub open spec fn deprecated_parts(o: Option<DeprecatedMigrationContextView>) -> Seq<Seq<char>> {
    match o {
        None => Seq::empty(),
        Some(dm) => seq![
            "\nDeprecated -> v6 migration:\n  Old import: "@ + dm.old_package + "\n  New import: "@
                + dm.new_package,
        ] + list_part("Matching props:\n"@, surviving_props(dm.matching_props), "\n"@) + list_part(
            "New props on v6 (not on deprecated version):\n"@,
            new_props_lines(dm.new_props),
            "\n"@,
        ) + list_part("Removed props (no v6 equivalent): "@, dm.removed_props, ", "@),
    }
}

fn parts_of_deprecated(o: &Option<DeprecatedMigrationContext>) -> (r: Vec<String>)
    ensures
        r.deep_view() == deprecated_parts(o.deep_view()),
{
    match o {
        None => {
            let none: Vec<String> = Vec::new();
            assert(none.deep_view() =~= Seq::<Seq<char>>::empty());
            none
        },
        Some(dm) => {
            let mut parts = only(
                cat4(
                    "\nDeprecated -> v6 migration:\n  Old import: ",
                    dm.old_package.as_str(),
                    "\n  New import: ",
                    dm.new_package.as_str(),
                ),
            );
            let surviving = lines_of_surviving(&dm.matching_props);
            add_list(&mut parts, "Matching props:\n", &surviving, "\n");
            let new = lines_of_new_props(&dm.new_props);
            add_list(
                &mut parts,
                "New props on v6 (not on deprecated version):\n",
                &new,
                "\n",
            );
            add_list(
                &mut parts,
                "Removed props (no v6 equivalent): ",
                &dm.removed_props,
                ", ",
            );
            parts
        },
    }
}

/// The structure that a family moves to, as a part of a context.
pub open spec fn target_part(target: Option<Seq<char>>) -> Seq<Seq<char>> {
    match target {
        Some(t) => seq![
            "\nTarget structure (correct v6 composition):\n```jsx\n"@ + t + "\n```"@,
        ],
        None => Seq::empty(),
    }
}

/// The imports to add, as a part of a context.
pub open spec fn import_part(imports: Seq<Seq<char>>, source: Option<Seq<char>>) -> Seq<
    Seq<char>,
> {
    if imports.len() == 0 {
        Seq::empty()
    } else {
        seq![
            "Add imports: "@ + joined(imports, ", "@) + " from '"@ + or_else(
                source,
                "(same package)"@,
            ) + "'"@,
        ]
    }
}

/// What an entry tells about a family of components.
pub open spec fn family_context(e: StrategyEntryView) -> Seq<char> {
    joined(
        seq!["Strategy: FamilyMigration"@] + target_part(e.target_structure) + optional_part(
            "Component: "@,
            e.component,
        ) + list_part("Props that stay on root: "@, e.retained_props, ", "@) + list_part(
            "Props that move to child components:\n"@,
            table_lines(e.prop_to_child, " -> <"@, " />"@),
            "\n"@,
        ) + list_part(
            "Child props that move to parent:\n"@,
            table_lines(e.child_props_to_parent, " -> "@, ""@),
            "\n"@,
        ) + list_part("Removed children: "@, e.removed_children, ", "@) + import_part(
            e.new_imports,
            e.import_source,
        ) + list_part("Remove imports: "@, e.removed_imports, ", "@) + list_part(
            "Prop value changes:\n"@,
            all_value_lines(e.prop_value_changes, e.prop_value_changes.len() as int),
            "\n"@,
        ) + list_part(
            "Prop type changes:\n"@,
            all_type_lines(e.prop_type_changes, e.prop_type_changes.len() as int),
            "\n"@,
        ) + deprecated_parts(e.deprecated_migration),
        "\n"@,
    )
}

fn add_target(parts: &mut Vec<String>, target: &Option<String>)
    ensures
        final(parts).deep_view() == old(parts).deep_view() + target_part(target.deep_view()),
{
    match target {
        Some(t) => {
            append_one(
                parts,
                cat3(
                    "\nTarget structure (correct v6 composition):\n```jsx\n",
                    t.as_str(),
                    "\n```",
                ),
            );
        },
        None => {},
    }
    assert(parts.deep_view() =~= old(parts).deep_view() + target_part(target.deep_view()));
}

fn add_imports(parts: &mut Vec<String>, imports: &Vec<String>, source: &Option<String>)
    ensures
        final(parts).deep_view() == old(parts).deep_view() + import_part(
            imports.deep_view(),
            source.deep_view(),
        ),
{
    assert(imports.deep_view().len() == imports@.len());
    if imports.len() > 0 {
        let list = join(imports, ", ");
        let from = text_or(source, "(same package)");
        append_one(parts, cat5("Add imports: ", list.as_str(), " from '", from, "'"));
    }
    assert(parts.deep_view() =~= old(parts).deep_view() + import_part(
        imports.deep_view(),
        source.deep_view(),
    ));
}

/// Tells what an entry says about a family of components.
pub fn format_family_migration_context(entry: &StrategyEntry) -> (r: String)
    ensures
        r@ == family_context(entry.deep_view()),
{
    let mut parts = only(owned("Strategy: FamilyMigration"));
    add_target(&mut parts, &entry.target_structure);
    add_optional(&mut parts, "Component: ", &entry.component);
    add_list(&mut parts, "Props that stay on root: ", &entry.retained_props, ", ");
    let to_child = lines_of_table(&entry.prop_to_child, " -> <", " />");
    add_list(&mut parts, "Props that move to child components:\n", &to_child, "\n");
    let to_parent = lines_of_table(&entry.child_props_to_parent, " -> ", "");
    add_list(&mut parts, "Child props that move to parent:\n", &to_parent, "\n");
    add_list(&mut parts, "Removed children: ", &entry.removed_children, ", ");
    add_imports(&mut parts, &entry.new_imports, &entry.import_source);
    add_list(&mut parts, "Remove imports: ", &entry.removed_imports, ", ");
    let values = lines_of_values(&entry.prop_value_changes);
    add_list(&mut parts, "Prop value changes:\n", &values, "\n");
    let types = lines_of_types(&entry.prop_type_changes);
    add_list(&mut parts, "Prop type changes:\n", &types, "\n");
    let deprecated = parts_of_deprecated(&entry.deprecated_migration);
    append_all(&mut parts, deprecated);
    join(&parts, "\n")
}

// ---------------------------------------------------------------------
// From entries to strategies
// ---------------------------------------------------------------------

/// The first `n` renamings that name both sides.
pub open spec fn full_mappings(mappings: Seq<MappingEntryView>, n: int) -> Seq<RenameMappingView>
    decreases n,
{
    if n <= 0 {
        Seq::empty()
    } else {
        match (mappings[n - 1].from, mappings[n - 1].to) {
            (Some(from), Some(to)) => full_mappings(mappings, n - 1).push(
                RenameMappingView { old: from, new: to },
            ),
            _ => full_mappings(mappings, n - 1),
        }
    }
}

/// The renames of an entry: those of its list, or the one that it names
/// itself where the list has none.
pub open spec fn entry_renames(e: StrategyEntryView) -> Seq<RenameMappingView> {
    let listed = full_mappings(e.mappings, e.mappings.len() as int);
    if listed.len() > 0 {
        listed
    } else {
        match (e.from, e.to) {
            (Some(from), Some(to)) => seq![RenameMappingView { old: from, new: to }],
            _ => Seq::empty(),
        }
    }
}

/// The kinds whose work only a language model can do.
pub open spec fn is_llm_kind(kind: Seq<char>) -> bool {
    kind == "PropValueChange"@ || kind == "PropTypeChange"@ || kind == "LlmAssisted"@ || kind
        == "ChildToProp"@ || kind == "PropToChild"@ || kind == "PropToChildren"@ || kind
        == "CompositionChange"@ || kind == "DeprecatedMigration"@
}

/// The strategy that an entry stands for. An entry that lacks what its kind
/// needs, or whose kind is unknown, is left to a person.
pub open spec fn strategy_of(e: StrategyEntryView) -> FixStrategyView {
    if e.strategy == "Rename"@ {
        if entry_renames(e).len() == 0 {
            FixStrategyView::Manual
        } else {
            FixStrategyView::Rename(entry_renames(e))
        }
    } else if e.strategy == "RemoveProp"@ {
        FixStrategyView::RemoveAttribute
    } else if e.strategy == "CssVariablePrefix"@ {
        match (e.from, e.to) {
            (Some(from), Some(to)) => FixStrategyView::CssVariablePrefix {
                old_prefix: from,
                new_prefix: to,
                exclude_patterns: e.exclude_patterns,
            },
            _ => FixStrategyView::Manual,
        }
    } else if e.strategy == "ImportPathChange"@ {
        match (e.from, e.to) {
            (Some(from), Some(to)) => FixStrategyView::ImportPathChange {
                old_path: from,
                new_path: to,
            },
            _ => FixStrategyView::Manual,
        }
    } else if e.strategy == "EnsureDependency"@ {
        match (e.package, e.new_version) {
            (Some(package), Some(new_version)) => FixStrategyView::EnsureDependency {
                package,
                new_version,
                old_package: None,
            },
            _ => FixStrategyView::Manual,
        }
    } else if is_llm_kind(e.strategy) {
        FixStrategyView::Llm { context: Some(strategy_context(e)) }
    } else if e.strategy == "FamilyMigration"@ {
        FixStrategyView::Llm { context: Some(family_context(e)) }
    } else {
        FixStrategyView::Manual
    }
}

fn renames_of(entry: &StrategyEntry) -> (r: Vec<RenameMapping>)
    ensures
        r.deep_view() == entry_renames(entry.deep_view()),
{
    let mut renames: Vec<RenameMapping> = Vec::new();
    let ghost view = entry.mappings.deep_view();
    let mut i: usize = 0;
    assert(renames.deep_view() =~= Seq::<RenameMappingView>::empty());
    while i < entry.mappings.len()
        invariant
            i <= entry.mappings@.len(),
            view == entry.mappings.deep_view(),
            renames.deep_view() == full_mappings(view, i as int),
        decreases entry.mappings@.len() - i,
    {
        assert(view[i as int] == entry.mappings@[i as int].deep_view());
        match (&entry.mappings[i].from, &entry.mappings[i].to) {
            (Some(from), Some(to)) => {
                append_one(&mut renames, RenameMapping { old: from.clone(), new: to.clone() });
            },
            _ => {},
        }
        i = i + 1;
    }
    assert(renames.deep_view().len() == renames@.len());
    if renames.len() == 0 {
        match (&entry.from, &entry.to) {
            (Some(from), Some(to)) => {
                return only(RenameMapping { old: from.clone(), new: to.clone() });
            },
            _ => {},
        }
    }
    renames
}

/// The strategy that an entry stands for.
pub fn strategy_entry_to_fix_strategy(entry: &StrategyEntry) -> (r: FixStrategy)
    ensures
        r.deep_view() == strategy_of(entry.deep_view()),
{
    let kind = entry.strategy.as_str();
    if same(kind, "Rename") {
        let renames = renames_of(entry);
        assert(renames.deep_view().len() == renames@.len());
        if renames.len() == 0 {
            FixStrategy::Manual
        } else {
            FixStrategy::Rename(renames)
        }
    } else if same(kind, "RemoveProp") {
        FixStrategy::RemoveAttribute
    } else if same(kind, "CssVariablePrefix") {
        match (&entry.from, &entry.to) {
            (Some(from), Some(to)) => FixStrategy::CssVariablePrefix {
                old_prefix: from.clone(),
                new_prefix: to.clone(),
                exclude_patterns: copy_texts(&entry.exclude_patterns),
            },
            _ => FixStrategy::Manual,
        }
    } else if same(kind, "ImportPathChange") {
        match (&entry.from, &entry.to) {
            (Some(from), Some(to)) => FixStrategy::ImportPathChange {
                old_path: from.clone(),
                new_path: to.clone(),
            },
            _ => FixStrategy::Manual,
        }
    } else if same(kind, "EnsureDependency") {
        match (&entry.package, &entry.new_version) {
            (Some(package), Some(new_version)) => FixStrategy::EnsureDependency {
                package: package.clone(),
                new_version: new_version.clone(),
                old_package: None,
            },
            _ => FixStrategy::Manual,
        }
    } else if same(kind, "PropValueChange") || same(kind, "PropTypeChange") || same(
        kind,
        "LlmAssisted",
    ) || same(kind, "ChildToProp") || same(kind, "PropToChild") || same(kind, "PropToChildren")
        || same(kind, "CompositionChange") || same(kind, "DeprecatedMigration") {
        FixStrategy::Llm { context: Some(format_strategy_context(entry)) }
    } else if same(kind, "FamilyMigration") {
        FixStrategy::Llm { context: Some(format_family_migration_context(entry)) }
    } else {
        FixStrategy::Manual
    }
}

/// The strategy of each entry, under the same key.
pub open spec fn strategies_of(entries: Seq<(Seq<char>, StrategyEntryView)>) -> Seq<
    (Seq<char>, FixStrategyView),
> {
    Seq::new(entries.len(), |i: int| (entries[i].0, strategy_of(entries[i].1)))
}

/// Those of the first `n` entries that are for a family.
pub open spec fn families_of(entries: Seq<(Seq<char>, StrategyEntryView)>, n: int) -> Seq<
    (Seq<char>, StrategyEntryView),
>
    decreases n,
{
    if n <= 0 {
        Seq::empty()
    } else if begins(entries[n - 1].0, "family:"@) {
        families_of(entries, n - 1).push(entries[n - 1])
    } else {
        families_of(entries, n - 1)
    }
}

/// The strategies of the entries of a strategy file, by rule.
pub fn strategies_by_rule(entries: &TextTable<StrategyEntry>) -> (r: TextTable<
    FixStrategy,
>)
    ensures
        r.deep_view() == strategies_of(entries.deep_view()),
        entries.in_order() ==> r.in_order(),
{
    let mut list: Vec<(String, FixStrategy)> = Vec::new();
    let ghost view = entries.deep_view();
    let ghost goal = strategies_of(view);
    let mut i: usize = 0;
    while i < entries.len()
        invariant
            i <= view.len(),
            view == entries.deep_view(),
            goal == strategies_of(view),
            list@.len() == i,
            forall|k: int|
                0 <= k < i ==> ((#[trigger] list@[k]).0@, list@[k].1.deep_view()) == goal[k],
        decreases view.len() - i,
    {
        let strategy = strategy_entry_to_fix_strategy(entries.value(i));
        list.push((entries.key(i).clone(), strategy));
        i = i + 1;
    }
    assert(entry_views(list@) =~= goal);
    let r = TextTable::from_entries(list);
    proof {
        if entries.in_order() {
            assert forall|a: int, b: int| 0 <= a < b < goal.len() implies crate::order::text_less(
                #[trigger] goal[a].0,
                #[trigger] goal[b].0,
            ) by {
                assert(goal[a].0 == view[a].0 && goal[b].0 == view[b].0);
            }
        }
    }
    r
}

/// The strategies of the entries of a strategy file, by rule, and the
/// entries that are for a family.
pub fn strategies_and_families(entries: TextTable<StrategyEntry>) -> (r: (
    TextTable<FixStrategy>,
    TextTable<StrategyEntry>,
))
    ensures
        r.0.deep_view() == strategies_of(entries.deep_view()),
        r.1.deep_view() == families_of(entries.deep_view(), entries.deep_view().len() as int),
        entries.in_order() ==> r.0.in_order() && r.1.in_order(),
{
    let strategies = strategies_by_rule(&entries);
    let ghost view = entries.deep_view();
    let all = entries.into_entries();
    let ghost list = all@;
    let mut families: Vec<(String, StrategyEntry)> = Vec::new();
    assert(entry_views(families@) =~= families_of(view, 0));
    for entry in it: all
        invariant
            it.seq() == list,
            view == entry_views(list),
            entry_views(families@) == families_of(view, it.index() as int),
    {
        let ghost n = it.index() as int;
        assert(view[n] == (entry.0@, entry.1.deep_view()));
        if starts_with(entry.0.as_str(), "family:") {
            let ghost before = families@;
            families.push(entry);
            assert(entry_views(families@) =~= entry_views(before).push(view[n]));
        }
    }
    proof {
        if ascending::<ByText, StrategyEntryView>(view) {
            lemma_families_ascending(view, view.len() as int);
        }
    }
    (strategies, TextTable::from_entries(families))
}

proof fn lemma_families_ascending(entries: Seq<(Seq<char>, StrategyEntryView)>, n: int)
    requires
        ascending::<ByText, StrategyEntryView>(entries),
        0 <= n <= entries.len(),
    ensures
        ascending::<ByText, StrategyEntryView>(families_of(entries, n)),
        forall|k: int|
            0 <= k < families_of(entries, n).len() ==> exists|j: int|
                0 <= j < n && entries[j] == #[trigger] families_of(entries, n)[k],
    decreases n,
{
    if n > 0 {
        lemma_families_ascending(entries, n - 1);
        let before = families_of(entries, n - 1);
        let now = families_of(entries, n);
        assert forall|k: int| 0 <= k < now.len() implies exists|j: int|
            0 <= j < n && entries[j] == #[trigger] now[k] by {
            if k < before.len() {
                let j = choose|j: int| 0 <= j < n - 1 && entries[j] == before[k];
                assert(entries[j] == now[k]);
            } else {
                assert(entries[n - 1] == now[k]);
            }
        }
        assert forall|a: int, b: int| 0 <= a < b < now.len() implies crate::order::text_less(
            #[trigger] now[a].0,
            #[trigger] now[b].0,
        ) by {
            assert(now[a] == before[a]);
            if b == before.len() {
                let j = choose|j: int| 0 <= j < n - 1 && entries[j] == before[a];
                assert(crate::order::text_less(entries[j].0, entries[n - 1].0));
            } else {
                assert(now[b] == before[b]);
            }
        }
    }
}

} // verus!
