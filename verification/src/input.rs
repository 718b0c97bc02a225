//! Reading the input of a run: the results of an analysis, and strategy
//! files.

use crate::cli::{is_json_input, looks_like_json};
use crate::json::{json_document, json_member, json_tree, member, parse, JsonView};
use crate::konveyor::{
    changes_in_json, entries_in_json, entries_in_order, entry_parts, held_entries, held_entry,
    held_rule_set, held_rule_sets, json_changes, json_entries, json_rule_sets, mappings_of,
    member_mappings_of, migration_of, rule_sets_in_json, rule_sets_in_yaml, set_in_order,
    set_parts, texts_in_order, value_changes_of, violation_in_order, yaml_rule_sets,
    IncidentParts, MigrationParts, SetParts, ViolationParts,
};
use crate::order::ByText;
use crate::report::{
    Incident, IncidentView, RuleFindings, RuleFindingsView, Violation, ViolationView,
};
use crate::strategy::{
    families_of, strategies_and_families, strategies_by_rule, strategies_of,
    DeprecatedMigrationContext, FixStrategy, MappingEntry, MappingEntryView, StrategyEntry,
    StrategyEntryView,
};
use crate::table::{ascending, gathered, TextTable};
use crate::views::append_one;
use vstd::prelude::*;

verus! {

broadcast use vstd::string::group_string_axioms;

// ---------------------------------------------------------------------
// Analysis results
// ---------------------------------------------------------------------

/// An incident whose variables are put into a table.
pub open spec fn tabled_incident(i: IncidentView) -> IncidentView {
    IncidentView { variables: gathered::<ByText, JsonView>(i.variables), ..i }
}

/// A violation whose incidents have tables.
pub open spec fn tabled_violation(v: ViolationView) -> ViolationView {
    ViolationView {
        incidents: Seq::new(v.incidents.len(), |i: int| tabled_incident(v.incidents[i])),
        ..v
    }
}

/// The violations, by rule, with tables.
pub open spec fn tabled_violations(s: Seq<(Seq<char>, ViolationView)>) -> Seq<
    (Seq<char>, ViolationView),
> {
    Seq::new(s.len(), |i: int| (s[i].0, tabled_violation(s[i].1)))
}

/// A rule set whose violations and errors are put into tables.
pub open spec fn tabled_set(s: RuleFindingsView) -> RuleFindingsView {
    RuleFindingsView {
        name: s.name,
        violations: gathered::<ByText, ViolationView>(tabled_violations(s.violations)),
        errors: gathered::<ByText, Seq<char>>(s.errors),
    }
}

/// The tables of a rule set are in the order of their keys.
pub open spec fn tables_in_order(s: RuleFindings) -> bool {
    s.violations.in_order() && s.errors.in_order()
}

fn build_incident(parts: IncidentParts) -> (r: Incident)
    ensures
        r.deep_view() == tabled_incident(parts.deep_view()),
        ascending::<ByText, JsonView>(parts.deep_view().variables) ==> r.deep_view()
            == parts.deep_view(),
{
    Incident {
        file_uri: parts.file_uri,
        line_number: parts.line_number,
        message: parts.message,
        code_snip: parts.code_snip,
        variables: TextTable::collected(parts.variables),
    }
}

fn build_violation(parts: ViolationParts) -> (r: Violation)
    ensures
        r.deep_view() == tabled_violation(parts.deep_view()),
        violation_in_order(parts.deep_view()) ==> r.deep_view()
            == parts.deep_view(),
{
    let ghost view = parts.deep_view();
    let ghost list = parts.incidents@;
    let mut incidents: Vec<Incident> = Vec::new();
    for one in it: parts.incidents
        invariant
            it.seq() == list,
            view.incidents.len() == list.len(),
            forall|k: int|
                0 <= k < list.len() ==> (#[trigger] list[k]).deep_view() == view.incidents[k],
            incidents@.len() == it.index(),
            forall|k: int|
                0 <= k < incidents@.len() ==> (#[trigger] incidents@[k]).deep_view()
                    == tabled_incident(view.incidents[k]),
            forall|k: int|
                0 <= k < incidents@.len() && ascending::<ByText, JsonView>(
                    view.incidents[k].variables,
                ) ==> (#[trigger] incidents@[k]).deep_view() == view.incidents[k],
    {
        incidents.push(build_incident(one));
    }
    let r = Violation { labels: parts.labels, incidents };
    assert(r.deep_view().incidents =~= tabled_violation(view).incidents);
    proof {
        if violation_in_order(view) {
            assert(r.deep_view().incidents =~= view.incidents);
        }
    }
    r
}

/// A rule set from its parts: the violations and the errors are put into
/// tables one after the other, and so are the variables of each incident.
/// Parts whose maps are in order are the rule set.
pub fn build_rule_set(parts: SetParts) -> (r: RuleFindings)
    ensures
        r.deep_view() == tabled_set(parts.deep_view()),
        tables_in_order(r),
        set_in_order(parts.deep_view()) ==> r.deep_view() == parts.deep_view(),
{
    let ghost view = parts.deep_view();
    let ghost list = parts.violations@;
    let mut violations: Vec<(String, Violation)> = Vec::new();
    for one in it: parts.violations
        invariant
            it.seq() == list,
            view.violations.len() == list.len(),
            forall|k: int|
                0 <= k < list.len() ==> (#[trigger] list[k]).deep_view() == view.violations[k],
            violations@.len() == it.index(),
            forall|k: int|
                0 <= k < violations@.len() ==> (#[trigger] violations@[k]).deep_view() == (
                    view.violations[k].0,
                    tabled_violation(view.violations[k].1),
                ),
            forall|k: int|
                0 <= k < violations@.len() && violation_in_order(
                    view.violations[k].1,
                ) ==> (#[trigger] violations@[k]).deep_view() == view.violations[k],
    {
        assert(list[it.index() as int] == one);
        violations.push((one.0, build_violation(one.1)));
    }
    assert(violations.deep_view() =~= tabled_violations(view.violations));
    proof {
        if set_in_order(view) {
            assert(violations.deep_view() =~= view.violations);
        }
    }
    RuleFindings {
        name: parts.name,
        violations: TextTable::collected(violations),
        errors: TextTable::collected(parts.errors),
    }
}

fn build_rule_sets(sets: Vec<konveyor_core::report::RuleSet>) -> (r: Vec<RuleFindings>)
    ensures
        r.deep_view() == held_rule_sets(sets@),
        forall|i: int| 0 <= i < r@.len() ==> tables_in_order(#[trigger] r@[i]),
{
    let ghost list = sets@;
    let mut out: Vec<RuleFindings> = Vec::new();
    for set in it: sets
        invariant
            it.seq() == list,
            out@.len() == it.index(),
            forall|i: int|
                0 <= i < out@.len() ==> (#[trigger] out@[i]).deep_view() == held_rule_set(list[i])
                    && tables_in_order(out@[i]),
    {
        assert(list[it.index() as int] == set);
        out.push(build_rule_set(set_parts(set)));
    }
    assert(out.deep_view() =~= held_rule_sets(list));
    out
}

/// The rule sets that the text of an analysis spells out, as JSON or as
/// YAML, or why it spells out none.
pub open spec fn output_in(text: Seq<char>) -> Result<Seq<RuleFindingsView>, Seq<char>> {
    if looks_like_json(text) {
        json_rule_sets(text)
    } else {
        yaml_rule_sets(text)
    }
}

/// Reads the results of an analysis: JSON where the text begins like JSON,
/// and YAML otherwise.
pub fn read_output(text: &str) -> (r: Result<Vec<RuleFindings>, String>)
    ensures
        output_in(text@) == (match r {
            Ok(sets) => Ok(sets.deep_view()),
            Err(e) => Err(e@),
        }),
        r matches Ok(sets) ==> forall|i: int|
            0 <= i < sets@.len() ==> tables_in_order(#[trigger] sets@[i]),
{
    let read = if is_json_input(text) {
        rule_sets_in_json(text)
    } else {
        rule_sets_in_yaml(text)
    };
    match read {
        Ok(sets) => Ok(build_rule_sets(sets)),
        Err(e) => Err(e),
    }
}

// ---------------------------------------------------------------------
// Strategy files
// ---------------------------------------------------------------------

/// The changes of prop types that a document has for a rule, or why they
/// cannot be read. An entry without them has none, and so has a text that is
/// no document as a whole.
pub open spec fn type_changes_for(document: Option<JsonView>, rule: Seq<char>) -> Result<
    Seq<(Seq<char>, Seq<MappingEntryView>)>,
    Seq<char>,
> {
    match document {
        Some(d) => match json_member(d, rule) {
            Some(entry) => match json_member(entry, "prop_type_changes"@) {
                Some(v) => json_changes(v),
                None => Ok(Seq::empty()),
            },
            None => Ok(Seq::empty()),
        },
        None => Ok(Seq::empty()),
    }
}

/// The first `n` entries with the changes of prop types that the document
/// has for them, or why the first that cannot be read cannot.
pub open spec fn with_type_changes(
    entries: Seq<(Seq<char>, StrategyEntryView)>,
    document: Option<JsonView>,
    n: int,
) -> Result<Seq<(Seq<char>, StrategyEntryView)>, Seq<char>>
    decreases n,
{
    if n <= 0 {
        Ok(Seq::empty())
    } else {
        match with_type_changes(entries, document, n - 1) {
            Err(e) => Err(e),
            Ok(before) => match type_changes_for(document, entries[n - 1].0) {
                Err(e) => Err(e),
                Ok(changes) => Ok(
                    before.push(
                        (
                            entries[n - 1].0,
                            StrategyEntryView { prop_type_changes: changes, ..entries[n - 1].1 },
                        ),
                    ),
                ),
            },
        }
    }
}

/// The entries that the text of a strategy file spells out, by rule, or why
/// it spells out none.
pub open spec fn entries_in(text: Seq<char>) -> Result<
    Seq<(Seq<char>, StrategyEntryView)>,
    Seq<char>,
> {
    match json_entries(text) {
        Ok(entries) => with_type_changes(entries, json_document(text), entries.len() as int),
        Err(e) => Err(e),
    }
}

fn build_migration(parts: Option<MigrationParts>) -> (r: Option<DeprecatedMigrationContext>)
    requires
        parts matches Some(m) ==> texts_in_order(m.new_props.deep_view()),
    ensures
        r.deep_view() == parts.deep_view(),
{
    match parts {
        Some(m) => Some(
            DeprecatedMigrationContext {
                old_package: m.old_package,
                new_package: m.new_package,
                matching_props: m.matching_props,
                new_props: TextTable::collected(m.new_props),
                removed_props: m.removed_props,
            },
        ),
        None => None,
    }
}

fn build_entry(
    e: konveyor_core::fix::FixStrategyEntry,
    changes: TextTable<Vec<MappingEntry>>,
) -> (r: StrategyEntry)
    ensures
        r.deep_view() == (StrategyEntryView {
            prop_type_changes: changes.deep_view(),
            ..held_entry(e)
        }),
{
    let mappings = mappings_of(&e);
    let member_mappings = member_mappings_of(&e);
    let prop_value_changes = TextTable::collected(value_changes_of(&e));
    let deprecated_migration = build_migration(migration_of(&e));
    let parts = entry_parts(e);
    StrategyEntry {
        strategy: parts.strategy,
        from: parts.from,
        to: parts.to,
        component: parts.component,
        prop: parts.prop,
        mappings,
        member_mappings,
        removed_members: parts.removed_members,
        replacement: parts.replacement,
        package: parts.package,
        new_version: parts.new_version,
        target_structure: parts.target_structure,
        retained_props: parts.retained_props,
        prop_to_child: TextTable::collected(parts.prop_to_child),
        unmapped_removed_props: TextTable::collected(parts.unmapped_removed_props),
        removed_children: parts.removed_children,
        child_props_to_parent: TextTable::collected(parts.child_props_to_parent),
        prop_value_changes,
        prop_type_changes: changes,
        new_imports: parts.new_imports,
        removed_imports: parts.removed_imports,
        import_source: parts.import_source,
        deprecated_migration,
        exclude_patterns: parts.exclude_patterns,
    }
}

/// What a document holds, where there is one.
pub open spec fn document_view(document: &Option<serde_json::Value>) -> Option<JsonView> {
    match document {
        Some(d) => Some(json_tree(*d)),
        None => None,
    }
}

fn read_type_changes(document: &Option<serde_json::Value>, rule: &str) -> (r: Result<
    TextTable<Vec<MappingEntry>>,
    String,
>)
    ensures
        type_changes_for(document_view(document), rule@) == (match r {
            Ok(changes) => Ok(changes.deep_view()),
            Err(e) => Err(e@),
        }),
{
    let value = match document {
        Some(d) => match member(d, rule) {
            Some(entry) => member(entry, "prop_type_changes"),
            None => None,
        },
        None => None,
    };
    match value {
        Some(v) => match changes_in_json(v) {
            Ok(changes) => Ok(TextTable::collected(changes)),
            Err(e) => Err(e),
        },
        None => Ok(TextTable::new()),
    }
}

proof fn lemma_with_type_changes(
    entries: Seq<(Seq<char>, StrategyEntryView)>,
    document: Option<JsonView>,
    n: int,
    m: int,
)
    requires
        0 <= n <= m,
        with_type_changes(entries, document, n) is Err,
    ensures
        with_type_changes(entries, document, m) == with_type_changes(entries, document, n),
    decreases m,
{
    if n < m {
        lemma_with_type_changes(entries, document, n, m - 1);
    }
}

/// Reads the entries of a strategy file, by rule.
pub fn read_strategy_entries(content: &str) -> (r: Result<TextTable<StrategyEntry>, String>)
    ensures
        entries_in(content@) == (match r {
            Ok(entries) => Ok(entries.deep_view()),
            Err(e) => Err(e@),
        }),
        r matches Ok(entries) ==> entries.in_order(),
{
    let entries = match entries_in_json(content) {
        Ok(entries) => entries,
        Err(e) => {
            return Err(e);
        },
    };
    let document = parse(content);
    let ghost list = entries@;
    let ghost view = held_entries(list);
    let ghost tree = document_view(&document);
    let mut out: Vec<(String, StrategyEntry)> = Vec::new();
    assert(out.deep_view() =~= Seq::<(Seq<char>, StrategyEntryView)>::empty());
    for one in it: entries
        invariant
            it.seq() == list,
            view == held_entries(list),
            tree == document_view(&document),
            json_entries(content@) == Ok::<Seq<(Seq<char>, StrategyEntryView)>, Seq<char>>(view),
            json_document(content@) == tree,
            entries_in_order(view),
            out@.len() == it.index(),
            forall|k: int|
                0 <= k < out@.len() ==> (#[trigger] out.deep_view()[k]).0 == view[k].0,
            with_type_changes(view, tree, it.index() as int) == Ok::<
                Seq<(Seq<char>, StrategyEntryView)>,
                Seq<char>,
            >(out.deep_view()),
    {
        let ghost n = it.index() as int;
        assert(list[n] == one);
        assert(view[n] == (one.0@, held_entry(one.1)));
        match read_type_changes(&document, one.0.as_str()) {
            Ok(changes) => {
                let entry = build_entry(one.1, changes);
                append_one(&mut out, (one.0, entry));
            },
            Err(e) => {
                proof {
                    lemma_with_type_changes(view, tree, n + 1, view.len() as int);
                }
                return Err(e);
            },
        }
    }
    proof {
        assert(ascending::<ByText, StrategyEntryView>(out.deep_view()));
    }
    Ok(TextTable::collected(out))
}

/// Reads a strategy file: the strategy of each rule.
pub fn load_strategies_from_json(content: &str) -> (r: Result<TextTable<FixStrategy>, String>)
    ensures
        match entries_in(content@) {
            Ok(entries) => r matches Ok(t) && t.deep_view() == strategies_of(entries)
                && t.in_order(),
            Err(e) => r matches Err(words) && words@ == e,
        },
{
    match read_strategy_entries(content) {
        Ok(entries) => Ok(strategies_by_rule(&entries)),
        Err(e) => Err(e),
    }
}

/// Reads a strategy file: the strategy of each rule, and the entries that
/// are for a family.
pub fn load_strategies_and_families(content: &str) -> (r: Result<
    (TextTable<FixStrategy>, TextTable<StrategyEntry>),
    String,
>)
    ensures
        match entries_in(content@) {
            Ok(entries) => r matches Ok(t) && t.0.deep_view() == strategies_of(entries)
                && t.1.deep_view() == families_of(entries, entries.len() as int)
                && t.0.in_order() && t.1.in_order(),
            Err(e) => r matches Err(words) && words@ == e,
        },
{
    match read_strategy_entries(content) {
        Ok(entries) => Ok(strategies_and_families(entries)),
        Err(e) => Err(e),
    }
}

} // verus!
