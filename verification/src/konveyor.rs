//! Analysis results and strategy files, as `konveyor_core` reads them.

use crate::json::{json_tree, Json, JsonView};
use crate::order::ByText;
use crate::report::{IncidentView, RuleFindingsView, ViolationView};
use crate::strategy::{
    DeprecatedMigrationContextView, StrategyEntryView, MappingEntry, MappingEntryView,
    MemberMappingEntry, PropMigrationEntry,
};
use crate::table::ascending;
use vstd::prelude::*;

verus! {

broadcast use vstd::string::group_string_axioms;

// ---------------------------------------------------------------------
// Analysis results
// ---------------------------------------------------------------------

/// `konveyor_core::report::RuleSet`, held as it is.
#[verifier::external_type_specification]
#[verifier::external_body]
pub struct ExRuleSet(konveyor_core::report::RuleSet);

/// What a `konveyor_core::report::RuleSet` holds, as far as fixes are
/// concerned: its name, its violations with their labels and incidents, and
/// its errors. Maps stand in the order in which they are walked.
pub uninterp spec fn held_rule_set(set: konveyor_core::report::RuleSet) -> RuleFindingsView;

/// The rule sets that a JSON text spells out, or why it spells out none.
pub uninterp spec fn json_rule_sets(text: Seq<char>) -> Result<Seq<RuleFindingsView>, Seq<char>>;

/// The rule sets that a YAML text spells out, or why it spells out none.
pub uninterp spec fn yaml_rule_sets(text: Seq<char>) -> Result<Seq<RuleFindingsView>, Seq<char>>;

/// What each rule set of a list holds.
pub open spec fn held_rule_sets(s: Seq<konveyor_core::report::RuleSet>) -> Seq<RuleFindingsView> {
    Seq::new(s.len(), |i: int| held_rule_set(s[i]))
}

/// An incident in its parts.
#[derive(Debug)]
pub struct IncidentParts {
    pub file_uri: String,
    pub line_number: Option<u32>,
    pub message: String,
    pub code_snip: Option<String>,
    pub variables: Vec<(String, Json)>,
}

impl DeepView for IncidentParts {
    type V = IncidentView;

    open spec fn deep_view(&self) -> IncidentView {
        IncidentView {
            file_uri: self.file_uri.deep_view(),
            line_number: self.line_number.deep_view(),
            message: self.message.deep_view(),
            code_snip: self.code_snip.deep_view(),
            variables: self.variables.deep_view(),
        }
    }
}

/// A violation in its parts.
#[derive(Debug)]
pub struct ViolationParts {
    pub labels: Vec<String>,
    pub incidents: Vec<IncidentParts>,
}

impl DeepView for ViolationParts {
    type V = ViolationView;

    open spec fn deep_view(&self) -> ViolationView {
        ViolationView {
            labels: self.labels.deep_view(),
            incidents: self.incidents.deep_view(),
        }
    }
}

/// A rule set in its parts.
#[derive(Debug)]
pub struct SetParts {
    pub name: String,
    pub violations: Vec<(String, ViolationParts)>,
    pub errors: Vec<(String, String)>,
}

impl DeepView for SetParts {
    type V = RuleFindingsView;

    open spec fn deep_view(&self) -> RuleFindingsView {
        RuleFindingsView {
            name: self.name.deep_view(),
            violations: self.violations.deep_view(),
            errors: self.errors.deep_view(),
        }
    }
}

/// Texts by keys, in the order of the keys.
pub open spec fn texts_in_order(s: Seq<(Seq<char>, Seq<char>)>) -> bool {
    ascending::<ByText, Seq<char>>(s)
}

/// The maps of a violation are in the order of their keys.
pub open spec fn violation_in_order(v: ViolationView) -> bool {
    forall|i: int|
        0 <= i < v.incidents.len() ==> ascending::<ByText, JsonView>(
            (#[trigger] v.incidents[i]).variables,
        )
}

/// The maps of a rule set are in the order of their keys.
pub open spec fn set_in_order(s: RuleFindingsView) -> bool {
    &&& ascending::<ByText, ViolationView>(s.violations)
    &&& texts_in_order(s.errors)
    &&& forall|i: int|
        0 <= i < s.violations.len() ==> violation_in_order((#[trigger] s.violations[i]).1)
}

/// Reads rule sets with `serde_json::from_str`: the outcome depends on the
/// text alone. What the texts spell out is left to `serde_json` and
/// `konveyor_core`; an error is handed on in its own words.
#[verifier::external_body]
pub(crate) fn rule_sets_in_json(text: &str) -> (r: Result<
    Vec<konveyor_core::report::RuleSet>,
    String,
>)
    ensures
        json_rule_sets(text@) == (match r {
            Ok(sets) => Ok(held_rule_sets(sets@)),
            Err(e) => Err(e@),
        }),
{
    serde_json::from_str(text).map_err(|e| e.to_string())
}

/// Reads rule sets with `yaml_serde::from_str`: the outcome depends on the
/// text alone. What the texts spell out is left to `yaml_serde` and
/// `konveyor_core`; an error is handed on in its own words.
#[verifier::external_body]
pub(crate) fn rule_sets_in_yaml(text: &str) -> (r: Result<
    Vec<konveyor_core::report::RuleSet>,
    String,
>)
    ensures
        yaml_rule_sets(text@) == (match r {
            Ok(sets) => Ok(held_rule_sets(sets@)),
            Err(e) => Err(e@),
        }),
{
    yaml_serde::from_str(text).map_err(|e| e.to_string())
}

/// The fields of a `konveyor_core::report::RuleSet`, of its violations and of
/// their incidents. Their maps are `BTreeMap`s with texts as keys, which are
/// walked in the order of the texts.
#[verifier::external_body]
pub(crate) fn set_parts(set: konveyor_core::report::RuleSet) -> (r: SetParts)
    ensures
        r.deep_view() == held_rule_set(set),
        set_in_order(r.deep_view()),
{
    SetParts {
        name: set.name,
        errors: set.errors.into_iter().collect(),
        violations: set.violations.into_iter().map(|(rule, v)| (rule, ViolationParts {
            labels: v.labels,
            incidents: v.incidents.into_iter().map(|i| IncidentParts {
                file_uri: i.file_uri, line_number: i.line_number,
                message: i.message, code_snip: i.code_snip,
                variables: i.variables.into_iter().map(|(k, v)| (k, Json(v))).collect(),
            }).collect(),
        })).collect(),
    }
}

// ---------------------------------------------------------------------
// Strategy files
// ---------------------------------------------------------------------

/// `konveyor_core::fix::FixStrategyEntry`, held as it is.
#[verifier::external_type_specification]
#[verifier::external_body]
pub struct ExStrategyEntry(konveyor_core::fix::FixStrategyEntry);

/// What a `konveyor_core::fix::FixStrategyEntry` holds, but for its overlap
/// ratio, which no fix looks at. It knows of no changes of prop types, so
/// these are empty. Maps stand in the order in which they are walked.
pub uninterp spec fn held_entry(e: konveyor_core::fix::FixStrategyEntry) -> StrategyEntryView;

/// The entries that the JSON text of a strategy file spells out, by rule, or
/// why it spells out none.
pub uninterp spec fn json_entries(text: Seq<char>) -> Result<
    Seq<(Seq<char>, StrategyEntryView)>,
    Seq<char>,
>;

/// The mappings, by prop, that a JSON value spells out, or why it spells out
/// none.
pub uninterp spec fn json_changes(v: JsonView) -> Result<
    Seq<(Seq<char>, Seq<MappingEntryView>)>,
    Seq<char>,
>;

/// The keys and the entries of a list.
pub open spec fn held_entries(s: Seq<(String, konveyor_core::fix::FixStrategyEntry)>) -> Seq<
    (Seq<char>, StrategyEntryView),
> {
    Seq::new(s.len(), |i: int| (s[i].0@, held_entry(s[i].1)))
}

/// Entries by rules, in the order of the rules.
pub open spec fn entries_in_order(s: Seq<(Seq<char>, StrategyEntryView)>) -> bool {
    ascending::<ByText, StrategyEntryView>(s)
}

/// Mappings by props, in the order of the props.
pub open spec fn changes_in_order(s: Seq<(Seq<char>, Seq<MappingEntryView>)>) -> bool {
    ascending::<ByText, Seq<MappingEntryView>>(s)
}

/// The migration of a deprecated component in its parts.
#[derive(Debug)]
pub struct MigrationParts {
    pub old_package: String,
    pub new_package: String,
    pub matching_props: Vec<PropMigrationEntry>,
    pub new_props: Vec<(String, String)>,
    pub removed_props: Vec<String>,
}

impl DeepView for MigrationParts {
    type V = DeprecatedMigrationContextView;

    open spec fn deep_view(&self) -> DeprecatedMigrationContextView {
        DeprecatedMigrationContextView {
            old_package: self.old_package.deep_view(),
            new_package: self.new_package.deep_view(),
            matching_props: self.matching_props.deep_view(),
            new_props: self.new_props.deep_view(),
            removed_props: self.removed_props.deep_view(),
        }
    }
}

/// The texts, the lists of texts and the maps of texts of an entry.
#[derive(Debug)]
pub struct EntryParts {
    pub strategy: String,
    pub from: Option<String>,
    pub to: Option<String>,
    pub component: Option<String>,
    pub prop: Option<String>,
    pub removed_members: Vec<String>,
    pub replacement: Option<String>,
    pub package: Option<String>,
    pub new_version: Option<String>,
    pub target_structure: Option<String>,
    pub retained_props: Vec<String>,
    pub prop_to_child: Vec<(String, String)>,
    pub unmapped_removed_props: Vec<(String, String)>,
    pub removed_children: Vec<String>,
    pub child_props_to_parent: Vec<(String, String)>,
    pub new_imports: Vec<String>,
    pub removed_imports: Vec<String>,
    pub import_source: Option<String>,
    pub exclude_patterns: Vec<String>,
}

impl EntryParts {
    /// An entry has these parts.
    pub open spec fn belong_to(&self, e: StrategyEntryView) -> bool {
        &&& self.strategy@ == e.strategy
        &&& self.from.deep_view() == e.from
        &&& self.to.deep_view() == e.to
        &&& self.component.deep_view() == e.component
        &&& self.prop.deep_view() == e.prop
        &&& self.removed_members.deep_view() == e.removed_members
        &&& self.replacement.deep_view() == e.replacement
        &&& self.package.deep_view() == e.package
        &&& self.new_version.deep_view() == e.new_version
        &&& self.target_structure.deep_view() == e.target_structure
        &&& self.retained_props.deep_view() == e.retained_props
        &&& self.prop_to_child.deep_view() == e.prop_to_child
        &&& self.unmapped_removed_props.deep_view() == e.unmapped_removed_props
        &&& self.removed_children.deep_view() == e.removed_children
        &&& self.child_props_to_parent.deep_view() == e.child_props_to_parent
        &&& self.new_imports.deep_view() == e.new_imports
        &&& self.removed_imports.deep_view() == e.removed_imports
        &&& self.import_source.deep_view() == e.import_source
        &&& self.exclude_patterns.deep_view() == e.exclude_patterns
    }

    /// The maps are in the order of their keys.
    pub open spec fn in_order(&self) -> bool {
        &&& texts_in_order(self.prop_to_child.deep_view())
        &&& texts_in_order(self.unmapped_removed_props.deep_view())
        &&& texts_in_order(self.child_props_to_parent.deep_view())
    }
}

/// Reads the entries of a strategy file, a map by rule, with
/// `serde_json::from_str`: the outcome depends on the text alone. What the
/// texts spell out is left to `serde_json` and `konveyor_core`; an error is
/// handed on in its own words. The map is a `BTreeMap` with texts as keys,
/// which is walked in the order of the texts.
#[verifier::external_body]
pub(crate) fn entries_in_json(text: &str) -> (r: Result<
    Vec<(String, konveyor_core::fix::FixStrategyEntry)>,
    String,
>)
    ensures
        json_entries(text@) == (match r {
            Ok(entries) => Ok(held_entries(entries@)),
            Err(e) => Err(e@),
        }),
        r matches Ok(entries) ==> entries_in_order(held_entries(entries@)),
{
    let read: Result<std::collections::BTreeMap<String, konveyor_core::fix::FixStrategyEntry>, _> =
        serde_json::from_str(text);
    read.map(|entries| entries.into_iter().collect()).map_err(|e| e.to_string())
}

/// Reads mappings by prop with `serde_json::from_value`: the outcome depends
/// on what the value holds alone. An error is handed on in its own words. The
/// map is a `BTreeMap` with texts as keys, which is walked in the order of the
/// texts.
#[verifier::external_body]
pub(crate) fn changes_in_json(v: &serde_json::Value) -> (r: Result<
    Vec<(String, Vec<MappingEntry>)>,
    String,
>)
    ensures
        json_changes(json_tree(*v)) == (match r {
            Ok(changes) => Ok(changes.deep_view()),
            Err(e) => Err(e@),
        }),
        r matches Ok(changes) ==> changes_in_order(changes.deep_view()),
{
    let read: Result<
        std::collections::BTreeMap<String, Vec<konveyor_core::fix::MappingEntry>>,
        _,
    > = serde_json::from_value(v.clone());
    read.map(|all| all.into_iter().map(|(prop, list)| (prop, list.into_iter().map(|m|
        MappingEntry { from: m.from, to: m.to, component: m.component, prop: m.prop },
    ).collect())).collect()).map_err(|e| e.to_string())
}

/// The field `mappings` of a `konveyor_core::fix::FixStrategyEntry`.
#[verifier::external_body]
pub(crate) fn mappings_of(e: &konveyor_core::fix::FixStrategyEntry) -> (r: Vec<MappingEntry>)
    ensures
        r.deep_view() == held_entry(*e).mappings,
{
    e.mappings.iter().cloned().map(|m|
        MappingEntry { from: m.from, to: m.to, component: m.component, prop: m.prop },
    ).collect()
}

/// The field `member_mappings` of a `konveyor_core::fix::FixStrategyEntry`.
#[verifier::external_body]
pub(crate) fn member_mappings_of(e: &konveyor_core::fix::FixStrategyEntry) -> (r: Vec<
    MemberMappingEntry,
>)
    ensures
        r.deep_view() == held_entry(*e).member_mappings,
{
    e.member_mappings.iter().cloned().map(|m|
        MemberMappingEntry { old_name: m.old_name, new_name: m.new_name },
    ).collect()
}

/// The field `prop_value_changes` of a `konveyor_core::fix::FixStrategyEntry`,
/// a `BTreeMap` with texts as keys, which is walked in the order of the texts.
#[verifier::external_body]
pub(crate) fn value_changes_of(e: &konveyor_core::fix::FixStrategyEntry) -> (r: Vec<
    (String, Vec<MappingEntry>),
>)
    ensures
        r.deep_view() == held_entry(*e).prop_value_changes,
        changes_in_order(r.deep_view()),
{
    e.prop_value_changes.clone().into_iter().map(|(prop, list)| (prop, list.into_iter().map(|m|
        MappingEntry { from: m.from, to: m.to, component: m.component, prop: m.prop },
    ).collect())).collect()
}

/// The field `deprecated_migration` of a
/// `konveyor_core::fix::FixStrategyEntry`. Its map is a `BTreeMap` with texts
/// as keys, which is walked in the order of the texts.
#[verifier::external_body]
pub(crate) fn migration_of(e: &konveyor_core::fix::FixStrategyEntry) -> (r: Option<
    MigrationParts,
>)
    ensures
        r.deep_view() == held_entry(*e).deprecated_migration,
        r matches Some(m) ==> texts_in_order(m.new_props.deep_view()),
{
    e.deprecated_migration.clone().map(|d| MigrationParts {
        old_package: d.old_package,
        new_package: d.new_package,
        matching_props: d.matching_props.into_iter().map(|p| PropMigrationEntry {
            old_name: p.old_name, new_name: p.new_name,
            old_type: p.old_type, new_type: p.new_type, type_changed: p.type_changed,
        }).collect(),
        new_props: d.new_props.into_iter().collect(),
        removed_props: d.removed_props,
    })
}

/// The fields of a `konveyor_core::fix::FixStrategyEntry` that are texts,
/// lists of texts or maps of texts. The maps are `BTreeMap`s with texts as
/// keys, which are walked in the order of the texts.
#[verifier::external_body]
pub(crate) fn entry_parts(e: konveyor_core::fix::FixStrategyEntry) -> (r: EntryParts)
    ensures
        r.belong_to(held_entry(e)),
        r.in_order(),
{
    EntryParts {
        strategy: e.strategy, from: e.from, to: e.to, component: e.component, prop: e.prop,
        removed_members: e.removed_members, replacement: e.replacement, package: e.package,
        new_version: e.new_version, target_structure: e.target_structure,
        retained_props: e.retained_props, removed_children: e.removed_children,
        new_imports: e.new_imports, removed_imports: e.removed_imports,
        import_source: e.import_source, exclude_patterns: e.exclude_patterns,
        prop_to_child: e.prop_to_child.into_iter().collect(),
        unmapped_removed_props: e.unmapped_removed_props.into_iter().collect(),
        child_props_to_parent: e.child_props_to_parent.into_iter().collect(),
    }
}

} // verus!
