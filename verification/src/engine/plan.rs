//! From analysis results to a fix plan.

use crate::engine::dedup::{deduplicate_edits, deduplicated_plan};
use crate::engine::import_path::{plan_import_path_change, planned_import_path};
use crate::engine::merge::{
    merge_dependency_inserts, merged_plan, order_fixes, ordered_plan,
};
use crate::engine::rename::{plan_rename, planned_rename};
use crate::json::{json_string, json_text, string_of, written, JsonView};
use crate::language::{LanguageFixProvider, Outcome, Outcomes};
use crate::model::{
    empty_plan, noting, FixPlan, FixPlanView, FixReport, FixReportView, LlmFixRequest,
    LlmFixRequestView, ManualFixItem, ManualFixItemView, PlannedFix, PlannedFixView,
    RenameMapping, RenameMappingView, TextEdit, TextEditView,
};
use crate::order::ByPath;
use crate::paths::{extension, extension_of, join, joined_path};
use crate::report::{
    has_var, text_var, Incident, IncidentView, RuleFindings, RuleFindingsView, Violation, ViolationView,
};
use crate::strategy::{FixStrategy, FixStrategyView};
use crate::table::{grown, lookup, TextTable};
use crate::text::{
    begins, cat2, cat4, cat5, cat7, contains, has_text, owned, replace, replaced, same,
    starts_with, strip_prefix, without_prefix,
};
use crate::views::{
    append_one, copy_option, copy_texts, distinct, distinct_texts, has_entry, only,
};
use crate::workspace::{Workspace, WorkspaceView};
use vstd::prelude::*;

verus! {

broadcast use vstd::string::group_string_axioms;

// ---------------------------------------------------------------------
// Where a fix goes, and what a rule's labels say
// ---------------------------------------------------------------------

/// The path that a URI stands for: without `file://`, and seen from the
/// root of the project.
pub open spec fn uri_path(uri: Seq<char>, root: Seq<char>) -> Seq<char> {
    let path = match without_prefix(uri, "file://"@) {
        Some(rest) => rest,
        None => uri,
    };
    joined_path(root, path)
}

/// The path that a URI stands for.
pub fn uri_to_path(uri: &str, project_root: &str) -> (r: String)
    ensures
        r@ == uri_path(uri@, project_root@),
{
    let path = match strip_prefix(uri, "file://") {
        Some(rest) => rest,
        None => uri,
    };
    join(project_root, path)
}

/// What a label says about the strategy of its rule.
pub open spec fn label_strategy(label: Seq<char>) -> Option<FixStrategyView> {
    if label == "change-type=prop-removal"@ {
        Some(FixStrategyView::RemoveAttribute)
    } else if label == "change-type=dom-structure"@ || label == "change-type=behavioral"@ || label
        == "change-type=accessibility"@ || label == "change-type=interface-removal"@ || label
        == "change-type=module-export"@ || label == "change-type=other"@ {
        Some(FixStrategyView::Manual)
    } else {
        None
    }
}

/// What the first label from `i` on that says something says.
pub open spec fn labels_strategy(labels: Seq<Seq<char>>, i: int) -> Option<FixStrategyView>
    decreases labels.len() - i,
{
    if i < 0 || i >= labels.len() {
        None
    } else if label_strategy(labels[i]) is Some {
        label_strategy(labels[i])
    } else {
        labels_strategy(labels, i + 1)
    }
}

/// The strategy that the labels of a rule suggest.
pub fn infer_strategy_from_labels(labels: &Vec<String>) -> (r: Option<FixStrategy>)
    ensures
        labels_strategy(labels.deep_view(), 0) == (match r {
            Some(s) => Some(s.deep_view()),
            None => None,
        }),
{
    let mut i: usize = 0;
    while i < labels.len()
        invariant
            i <= labels@.len(),
            labels_strategy(labels.deep_view(), 0) == labels_strategy(
                labels.deep_view(),
                i as int,
            ),
        decreases labels@.len() - i,
    {
        let label = labels[i].as_str();
        assert(labels.deep_view()[i as int] == label@);
        if same(label, "change-type=prop-removal") {
            return Some(FixStrategy::RemoveAttribute);
        }
        if same(label, "change-type=dom-structure") || same(label, "change-type=behavioral") || same(
            label,
            "change-type=accessibility",
        ) || same(label, "change-type=interface-removal") || same(
            label,
            "change-type=module-export",
        ) || same(label, "change-type=other") {
            return Some(FixStrategy::Manual);
        }
        i = i + 1;
    }
    None
}

/// The strategy for a rule: the one that is known for it, or the one that
/// its labels suggest, or a language model.
pub open spec fn strategy_for(
    rule_id: Seq<char>,
    labels: Seq<Seq<char>>,
    strategies: Seq<(Seq<char>, FixStrategyView)>,
) -> FixStrategyView {
    match lookup(strategies, rule_id) {
        Some(s) => s,
        None => match labels_strategy(labels, 0) {
            Some(s) => s,
            None => FixStrategyView::Llm { context: None },
        },
    }
}

// ---------------------------------------------------------------------
// CSS classes that are gone
// ---------------------------------------------------------------------

/// A value as a list with it alone, or an empty list.
pub open spec fn as_list(o: Option<Seq<char>>) -> Seq<Seq<char>> {
    match o {
        Some(v) => seq![v],
        None => Seq::empty(),
    }
}

/// The classes that the first `n` incidents name.
pub open spec fn classes_of(incidents: Seq<IncidentView>, n: int) -> Seq<Seq<char>>
    decreases n,
{
    if n <= 0 {
        Seq::empty()
    } else {
        classes_of(incidents, n - 1) + as_list(text_var(incidents[n - 1], "matchingText"@))
            + as_list(text_var(incidents[n - 1], "className"@))
    }
}

/// The classes that the first `n` violations report as gone.
pub open spec fn dead_in_set(violations: Seq<(Seq<char>, ViolationView)>, n: int) -> Seq<Seq<char>>
    decreases n,
{
    if n <= 0 {
        Seq::empty()
    } else {
        let v = violations[n - 1].1;
        if v.labels.contains("change-type=css-dead-class"@) {
            dead_in_set(violations, n - 1) + classes_of(v.incidents, v.incidents.len() as int)
        } else {
            dead_in_set(violations, n - 1)
        }
    }
}

/// The classes that the first `n` rule sets report as gone.
pub open spec fn dead_in_sets(output: Seq<RuleFindingsView>, n: int) -> Seq<Seq<char>>
    decreases n,
{
    if n <= 0 {
        Seq::empty()
    } else {
        let v = output[n - 1].violations;
        dead_in_sets(output, n - 1) + dead_in_set(v, v.len() as int)
    }
}

/// The classes that an analysis reports as gone, each once.
pub open spec fn dead_classes(output: Seq<RuleFindingsView>) -> Seq<Seq<char>> {
    let all = dead_in_sets(output, output.len() as int);
    distinct(all, all.len() as int)
}

/// One of the texts stands in `text`.
pub open spec fn holds_any(text: Seq<char>, all: Seq<Seq<char>>) -> bool {
    exists|k: int| 0 <= k < all.len() && has_text(text, #[trigger] all[k])
}

fn add_variable(out: &mut Vec<String>, incident: &Incident, name: &str)
    ensures
        final(out).deep_view() == old(out).deep_view() + as_list(
            text_var(incident.deep_view(), name@),
        ),
{
    match incident.text_variable(name) {
        Some(text) => {
            append_one(out, owned(text));
        },
        None => {},
    }
    assert(out.deep_view() =~= old(out).deep_view() + as_list(
        text_var(incident.deep_view(), name@),
    ));
}

/// The CSS classes that are reported as gone, each once: those that
/// violations with the label `change-type=css-dead-class` name.
pub fn collect_dead_css_classes(output: &Vec<RuleFindings>) -> (r: Vec<String>)
    ensures
        r.deep_view() == dead_classes(output.deep_view()),
{
    let ghost view = output.deep_view();
    let mut out: Vec<String> = Vec::new();
    let mut i: usize = 0;
    assert(out.deep_view() =~= Seq::<Seq<char>>::empty());
    while i < output.len()
        invariant
            i <= output@.len(),
            view == output.deep_view(),
            out.deep_view() == dead_in_sets(view, i as int),
        decreases output@.len() - i,
    {
        let set = &output[i];
        assert(view[i as int] == set.deep_view());
        let ghost before = out.deep_view();
        let ghost violations = set.violations.deep_view();
        let mut j: usize = 0;
        assert(out.deep_view() =~= before + dead_in_set(violations, 0));
        while j < set.violations.len()
            invariant
                j <= violations.len(),
                violations == set.violations.deep_view(),
                out.deep_view() == before + dead_in_set(violations, j as int),
            decreases violations.len() - j,
        {
            let violation = set.violations.value(j);
            if has_entry(&violation.labels, "change-type=css-dead-class") {
                let ghost so_far = out.deep_view();
                let ghost incidents = violation.incidents.deep_view();
                let mut k: usize = 0;
                assert(out.deep_view() =~= so_far + classes_of(incidents, 0));
                while k < violation.incidents.len()
                    invariant
                        k <= violation.incidents@.len(),
                        incidents == violation.incidents.deep_view(),
                        out.deep_view() == so_far + classes_of(incidents, k as int),
                    decreases violation.incidents@.len() - k,
                {
                    let incident = &violation.incidents[k];
                    assert(incidents[k as int] == incident.deep_view());
                    add_variable(&mut out, incident, "matchingText");
                    add_variable(&mut out, incident, "className");
                    assert(out.deep_view() =~= so_far + classes_of(incidents, k + 1));
                    k = k + 1;
                }
                assert(incidents.len() == violation.incidents@.len());
                assert(out.deep_view() =~= before + dead_in_set(violations, j + 1));
            }
            j = j + 1;
        }
        i = i + 1;
    }
    assert(out.deep_view().len() == out@.len());
    distinct_texts(&out)
}

fn holds_one_of(text: &str, all: &Vec<String>) -> (r: bool)
    ensures
        r == holds_any(text@, all.deep_view()),
{
    let mut k: usize = 0;
    while k < all.len()
        invariant
            k <= all@.len(),
            forall|j: int| 0 <= j < k ==> !has_text(text@, #[trigger] all.deep_view()[j]),
        decreases all@.len() - k,
    {
        assert(all.deep_view()[k as int] == all@[k as int]@);
        if contains(text, all[k].as_str()) {
            return true;
        }
        k = k + 1;
    }
    false
}

// ---------------------------------------------------------------------
// One incident
// ---------------------------------------------------------------------

/// How far planning has come.
#[verifier::ext_equal]
pub ghost struct Planning {
    pub plan: FixPlanView,
    pub report: FixReportView,
}

/// The plan with a fix for a file.
pub open spec fn with_fix(plan: FixPlanView, path: Seq<char>, fix: PlannedFixView) -> FixPlanView {
    FixPlanView { files: grown::<ByPath, PlannedFixView>(plan.files, path, fix), ..plan }
}

/// What planning one fix adds.
pub open spec fn after_outcome(s: Planning, path: Seq<char>, o: Outcome) -> Planning {
    Planning {
        plan: match o.fix {
            Some(fix) => with_fix(s.plan, path, fix),
            None => s.plan,
        },
        report: noting(s.report, o.skip),
    }
}

/// The plan with the first `n` fixes, each for the file that it names.
pub open spec fn with_fixes(
    plan: FixPlanView,
    root: Seq<char>,
    fixes: Seq<PlannedFixView>,
    n: int,
) -> FixPlanView
    decreases n,
{
    if n <= 0 {
        plan
    } else {
        with_fix(
            with_fixes(plan, root, fixes, n - 1),
            uri_path(fixes[n - 1].file_uri, root),
            fixes[n - 1],
        )
    }
}

/// What planning any number of fixes adds.
pub open spec fn after_outcomes(s: Planning, root: Seq<char>, o: Outcomes) -> Planning {
    Planning {
        plan: with_fixes(s.plan, root, o.fixes, o.fixes.len() as int),
        report: noting(s.report, o.skip),
    }
}

/// The fix with all its edits replacing every occurrence.
pub open spec fn replacing_all(fix: PlannedFixView) -> PlannedFixView {
    PlannedFixView {
        edits: Seq::new(
            fix.edits.len(),
            |i: int| TextEditView { replace_all: true, ..fix.edits[i] },
        ),
        ..fix
    }
}

/// An outcome whose fix replaces every occurrence, where `all` holds.
pub open spec fn widened(o: Outcome, all: bool) -> Outcome {
    match o.fix {
        Some(fix) => if all {
            Outcome { fix: Some(replacing_all(fix)), skip: o.skip }
        } else {
            o
        },
        None => o,
    }
}

/// An incident left to a person.
pub open spec fn manual_item(
    rule_id: Seq<char>,
    incident: IncidentView,
    message: Seq<char>,
) -> ManualFixItemView {
    ManualFixItemView {
        rule_id,
        file_uri: incident.file_uri,
        line: line_or_zero(incident.line_number),
        message,
        code_snip: incident.code_snip,
    }
}

/// The line, or zero where there is none.
pub open spec fn line_or_zero(line: Option<u32>) -> u32 {
    match line {
        Some(l) => l,
        None => 0,
    }
}

/// Planning with one more incident left to a person.
pub open spec fn left_manual(s: Planning, item: ManualFixItemView) -> Planning {
    Planning { plan: FixPlanView { manual: s.plan.manual.push(item), ..s.plan }, ..s }
}

/// Planning with one more request to a language model.
pub open spec fn left_pending(s: Planning, request: LlmFixRequestView) -> Planning {
    Planning { plan: FixPlanView { pending_llm: s.plan.pending_llm.push(request), ..s.plan }, ..s }
}

/// The CSS text that an incident is about.
pub open spec fn css_text(incident: IncidentView) -> Seq<char> {
    match text_var(incident, "matchingText"@) {
        Some(t) => t,
        None => match text_var(incident, "className"@) {
            Some(t) => t,
            None => Seq::empty(),
        },
    }
}

/// What an incident on a CSS prefix adds: a rename of the prefix, or an
/// item for a person where the class is excluded or where the new class
/// would be one that is gone.
pub open spec fn after_css<L: LanguageFixProvider>(
    lang: &L,
    dead: Seq<Seq<char>>,
    rule_id: Seq<char>,
    incident: IncidentView,
    old_prefix: Seq<char>,
    new_prefix: Seq<char>,
    exclude: Seq<Seq<char>>,
    path: Seq<char>,
    ws: WorkspaceView,
    s: Planning,
) -> Planning {
    let matched = css_text(incident);
    let produced = replaced(matched, old_prefix, new_prefix);
    if holds_any(matched, exclude) {
        left_manual(
            s,
            manual_item(
                rule_id,
                incident,
                "CSS class '"@ + matched
                    + "' was removed — prefix swap would produce a non-existent class. "@
                    + incident.message,
            ),
        )
    } else if matched.len() > 0 && holds_any(produced, dead) {
        left_manual(
            s,
            manual_item(
                rule_id,
                incident,
                "CSS class '"@ + matched + "' swap suppressed — '"@ + produced
                    + "' does not exist in the target version. "@ + incident.message,
            ),
        )
    } else {
        let mappings = seq![RenameMappingView { old: old_prefix, new: new_prefix }];
        after_outcome(
            s,
            path,
            widened(planned_rename(lang, rule_id, incident, mappings, path, ws), true),
        )
    }
}

/// The extension is that of a source file of JavaScript or TypeScript.
pub open spec fn is_script_extension(ext: Seq<char>) -> bool {
    ext == "tsx"@ || ext == "ts"@ || ext == "jsx"@ || ext == "js"@
}

/// The message about an import that has to move to another package.
pub open spec fn moved_import_message(
    incident: IncidentView,
    package: Seq<char>,
    new_version: Seq<char>,
) -> Seq<char> {
    match (text_var(incident, "importedName"@), text_var(incident, "module"@)) {
        (Some(imported), Some(module)) => "Import '"@ + imported + "' is from '"@ + module
            + "' but needs to move to '"@ + package + "' (version "@ + new_version
            + ").\n\nChange the import source from '"@ + module + "' to '"@ + package + "'.\n\n"@
            + incident.message,
        _ => incident.message,
    }
}

/// What an incident on a dependency adds: a request where it is in a script,
/// nothing where it is in Java source, and the fixes of the language
/// otherwise.
pub open spec fn after_dependency<L: LanguageFixProvider>(
    lang: &L,
    root: Seq<char>,
    rule_id: Seq<char>,
    incident: IncidentView,
    package: Seq<char>,
    new_version: Seq<char>,
    path: Seq<char>,
    ws: WorkspaceView,
    s: Planning,
) -> Planning {
    let ext = match extension_of(path) {
        Some(e) => e,
        None => Seq::empty(),
    };
    if ext == "java"@ {
        s
    } else if is_script_extension(ext) {
        left_pending(
            s,
            LlmFixRequestView {
                rule_id,
                file_uri: incident.file_uri,
                file_path: path,
                line: line_or_zero(incident.line_number),
                message: moved_import_message(incident, package, new_version),
                code_snip: incident.code_snip,
                source: None,
                labels: Seq::empty(),
                companion_test_files: lang.companions(path, ws),
            },
        )
    } else {
        after_outcomes(
            s,
            root,
            lang.dependency(rule_id, incident, package, new_version, path, ws),
        )
    }
}

/// The value of a variable as text.
pub open spec fn value_words(v: JsonView) -> Seq<char> {
    match json_string(v) {
        Some(s) => s,
        None => json_text(v),
    }
}

/// The first `n` variables of an incident, one line each.
pub open spec fn variable_lines(variables: Seq<(Seq<char>, JsonView)>, n: int) -> Seq<char>
    decreases n,
{
    if n <= 0 {
        Seq::empty()
    } else {
        variable_lines(variables, n - 1) + ("\n  "@ + variables[n - 1].0 + ": "@ + value_words(
            variables[n - 1].1,
        ))
    }
}

/// The message for a language model: what the rule says, the variables of
/// the incident and what the strategy knows.
pub open spec fn enriched_message(incident: IncidentView, context: Option<Seq<char>>) -> Seq<char> {
    incident.message + (if incident.variables.len() > 0 {
        "\n\nIncident context:"@ + variable_lines(
            incident.variables,
            incident.variables.len() as int,
        )
    } else {
        Seq::empty()
    }) + (match context {
        Some(c) => "\n\nFix strategy:\n"@ + c,
        None => Seq::empty(),
    })
}

/// The labels say that only tests are affected.
pub open spec fn only_tests_affected(labels: Seq<Seq<char>>) -> bool {
    labels.contains("change-type=test-impact"@) && !exists|k: int|
        0 <= k < labels.len() && begins(#[trigger] labels[k], "change-type="@) && labels[k]
            != "change-type=test-impact"@
}

/// What an incident for a language model adds: a request, or an item for a
/// person where only tests are affected and there are none.
pub open spec fn after_llm<L: LanguageFixProvider>(
    lang: &L,
    rule_id: Seq<char>,
    labels: Seq<Seq<char>>,
    incident: IncidentView,
    context: Option<Seq<char>>,
    path: Seq<char>,
    ws: WorkspaceView,
    s: Planning,
) -> Planning {
    let tests = lang.companions(path, ws);
    if only_tests_affected(labels) && tests.len() == 0 {
        left_manual(
            s,
            manual_item(
                rule_id,
                incident,
                "Test-impact violation with no companion test files found. "@ + incident.message,
            ),
        )
    } else {
        left_pending(
            s,
            LlmFixRequestView {
                rule_id,
                file_uri: incident.file_uri,
                file_path: path,
                line: line_or_zero(incident.line_number),
                message: enriched_message(incident, context),
                code_snip: incident.code_snip,
                source: None,
                labels,
                companion_test_files: tests,
            },
        )
    }
}

/// What one incident adds.
pub open spec fn after_incident<L: LanguageFixProvider>(
    lang: &L,
    root: Seq<char>,
    ws: WorkspaceView,
    dead: Seq<Seq<char>>,
    rule_id: Seq<char>,
    labels: Seq<Seq<char>>,
    strategy: FixStrategyView,
    incident: IncidentView,
    s: Planning,
) -> Planning {
    let path = uri_path(incident.file_uri, root);
    if lang.skips(path) {
        s
    } else {
        match strategy {
            FixStrategyView::Rename(mappings) => after_outcome(
                s,
                path,
                widened(
                    planned_rename(lang, rule_id, incident, mappings, path, ws),
                    has_var(incident, "importedName"@),
                ),
            ),
            FixStrategyView::RemoveAttribute => after_outcome(
                s,
                path,
                lang.removal(rule_id, incident, path, ws),
            ),
            FixStrategyView::ImportPathChange { old_path, new_path } => after_outcome(
                s,
                path,
                planned_import_path(rule_id, incident, old_path, new_path, path, ws),
            ),
            FixStrategyView::JavaImportRename { old_fqn, new_fqn } => after_outcome(
                s,
                path,
                lang.import_rename(rule_id, incident, old_fqn, new_fqn, path, ws),
            ),
            FixStrategyView::CssVariablePrefix { old_prefix, new_prefix, exclude_patterns } => {
                after_css(
                    lang,
                    dead,
                    rule_id,
                    incident,
                    old_prefix,
                    new_prefix,
                    exclude_patterns,
                    path,
                    ws,
                    s,
                )
            },
            FixStrategyView::EnsureDependency { package, new_version, old_package } => {
                after_dependency(
                    lang,
                    root,
                    rule_id,
                    incident,
                    package,
                    new_version,
                    path,
                    ws,
                    s,
                )
            },
            FixStrategyView::Manual => left_manual(
                s,
                manual_item(rule_id, incident, incident.message),
            ),
            FixStrategyView::Llm { context } => after_llm(
                lang,
                rule_id,
                labels,
                incident,
                context,
                path,
                ws,
                s,
            ),
        }
    }
}

// ---------------------------------------------------------------------
// All incidents
// ---------------------------------------------------------------------

/// What the first `n` incidents of a violation add.
pub open spec fn after_incidents<L: LanguageFixProvider>(
    lang: &L,
    root: Seq<char>,
    ws: WorkspaceView,
    dead: Seq<Seq<char>>,
    rule_id: Seq<char>,
    labels: Seq<Seq<char>>,
    strategy: FixStrategyView,
    incidents: Seq<IncidentView>,
    n: int,
    s: Planning,
) -> Planning
    decreases n,
{
    if n <= 0 {
        s
    } else {
        after_incident(
            lang,
            root,
            ws,
            dead,
            rule_id,
            labels,
            strategy,
            incidents[n - 1],
            after_incidents(
                lang,
                root,
                ws,
                dead,
                rule_id,
                labels,
                strategy,
                incidents,
                n - 1,
                s,
            ),
        )
    }
}

/// What the first `n` violations of a rule set add.
pub open spec fn after_violations<L: LanguageFixProvider>(
    lang: &L,
    root: Seq<char>,
    ws: WorkspaceView,
    dead: Seq<Seq<char>>,
    strategies: Seq<(Seq<char>, FixStrategyView)>,
    violations: Seq<(Seq<char>, ViolationView)>,
    n: int,
    s: Planning,
) -> Planning
    decreases n,
{
    if n <= 0 {
        s
    } else {
        let rule_id = violations[n - 1].0;
        let v = violations[n - 1].1;
        after_incidents(
            lang,
            root,
            ws,
            dead,
            rule_id,
            v.labels,
            strategy_for(rule_id, v.labels, strategies),
            v.incidents,
            v.incidents.len() as int,
            after_violations(lang, root, ws, dead, strategies, violations, n - 1, s),
        )
    }
}

/// What the first `n` rule sets add.
pub open spec fn after_rule_sets<L: LanguageFixProvider>(
    lang: &L,
    root: Seq<char>,
    ws: WorkspaceView,
    dead: Seq<Seq<char>>,
    strategies: Seq<(Seq<char>, FixStrategyView)>,
    output: Seq<RuleFindingsView>,
    n: int,
    s: Planning,
) -> Planning
    decreases n,
{
    if n <= 0 {
        s
    } else {
        let v = output[n - 1].violations;
        after_violations(
            lang,
            root,
            ws,
            dead,
            strategies,
            v,
            v.len() as int,
            after_rule_sets(lang, root, ws, dead, strategies, output, n - 1, s),
        )
    }
}

/// Some rule set has a violation of the rule.
pub open spec fn rule_matched(output: Seq<RuleFindingsView>, rule_id: Seq<char>) -> bool {
    exists|k: int|
        0 <= k < output.len() && lookup((#[trigger] output[k]).violations, rule_id) is Some
}

/// What the dependency strategies among the first `n` add whose rules
/// matched nothing and that name the package to replace.
pub open spec fn after_proactive<L: LanguageFixProvider>(
    lang: &L,
    root: Seq<char>,
    ws: WorkspaceView,
    output: Seq<RuleFindingsView>,
    strategies: Seq<(Seq<char>, FixStrategyView)>,
    n: int,
    s: Planning,
) -> Planning
    decreases n,
{
    if n <= 0 {
        s
    } else {
        let before = after_proactive(lang, root, ws, output, strategies, n - 1, s);
        let rule_id = strategies[n - 1].0;
        match strategies[n - 1].1 {
            FixStrategyView::EnsureDependency { package, new_version, old_package } => {
                match old_package {
                    Some(old) => if rule_matched(output, rule_id) || old.len() == 0 {
                        before
                    } else {
                        after_outcomes(
                            before,
                            root,
                            lang.proactive(rule_id, old, package, new_version, root, ws),
                        )
                    },
                    None => before,
                }
            },
            _ => before,
        }
    }
}

/// How many dots stand among the first `n` characters.
pub open spec fn dots(s: Seq<char>, n: int) -> nat
    decreases n,
{
    if n <= 0 {
        0
    } else if s[n - 1] == '.' {
        dots(s, n - 1) + 1
    } else {
        dots(s, n - 1)
    }
}

/// What the import renames among the first `n` strategies add in
/// configuration files. A name with fewer than two dots is left out.
pub open spec fn after_config<L: LanguageFixProvider>(
    lang: &L,
    root: Seq<char>,
    ws: WorkspaceView,
    strategies: Seq<(Seq<char>, FixStrategyView)>,
    n: int,
    s: Planning,
) -> Planning
    decreases n,
{
    if n <= 0 {
        s
    } else {
        let before = after_config(lang, root, ws, strategies, n - 1, s);
        match strategies[n - 1].1 {
            FixStrategyView::JavaImportRename { old_fqn, new_fqn } => if dots(
                old_fqn,
                old_fqn.len() as int,
            ) < 2 {
                before
            } else {
                after_outcomes(
                    before,
                    root,
                    lang.config_renames(strategies[n - 1].0, old_fqn, new_fqn, root, ws),
                )
            },
            _ => before,
        }
    }
}

/// What planning gathers before the edits are put in order.
pub open spec fn gathered_plan<L: LanguageFixProvider>(
    lang: &L,
    root: Seq<char>,
    ws: WorkspaceView,
    output: Seq<RuleFindingsView>,
    strategies: Seq<(Seq<char>, FixStrategyView)>,
    report: FixReportView,
) -> Planning {
    let n = strategies.len() as int;
    let dead = dead_classes(output);
    let start = Planning { plan: empty_plan(), report };
    let matched = after_rule_sets(
        lang,
        root,
        ws,
        dead,
        strategies,
        output,
        output.len() as int,
        start,
    );
    let proactive = after_proactive(lang, root, ws, output, strategies, n, matched);
    after_config(lang, root, ws, strategies, n, proactive)
}

/// The fix plan for the results of an analysis: what the incidents and the
/// strategies give, with dependency inserts merged, the fixes of each file
/// in order, and without the edits that others make unnecessary.
pub open spec fn planned<L: LanguageFixProvider>(
    lang: &L,
    root: Seq<char>,
    ws: WorkspaceView,
    output: Seq<RuleFindingsView>,
    strategies: Seq<(Seq<char>, FixStrategyView)>,
    report: FixReportView,
) -> Planning {
    let s = gathered_plan(lang, root, ws, output, strategies, report);
    Planning { plan: deduplicated_plan(ordered_plan(merged_plan(s.plan))), report: s.report }
}

// ---------------------------------------------------------------------
// Computing it
// ---------------------------------------------------------------------

/// How far planning has come.
spec fn state(plan: FixPlan, report: FixReport) -> Planning {
    Planning { plan: plan.deep_view(), report: report.deep_view() }
}

fn add_fix(plan: &mut FixPlan, path: &str, fix: Option<PlannedFix>)
    ensures
        final(plan).deep_view() == (match fix {
            Some(f) => with_fix(old(plan).deep_view(), path@, f.deep_view()),
            None => old(plan).deep_view(),
        }),
        old(plan).files.in_order() ==> final(plan).files.in_order(),
{
    match fix {
        Some(f) => {
            plan.files.push_under(owned(path), f);
        },
        None => {},
    }
}

fn add_fixes(plan: &mut FixPlan, root: &str, fixes: Vec<PlannedFix>)
    ensures
        final(plan).deep_view() == with_fixes(
            old(plan).deep_view(),
            root@,
            fixes.deep_view(),
            fixes@.len() as int,
        ),
        old(plan).files.in_order() ==> final(plan).files.in_order(),
{
    let ghost list = fixes@;
    let ghost view = fixes.deep_view();
    for fix in it: fixes
        invariant
            it.seq() == list,
            view == crate::views::views(list),
            plan.deep_view() == with_fixes(old(plan).deep_view(), root@, view, it.index() as int),
            old(plan).files.in_order() ==> plan.files.in_order(),
    {
        assert(view[it.index() as int] == fix.deep_view());
        let path = uri_to_path(fix.file_uri.as_str(), root);
        add_fix(plan, path.as_str(), Some(fix));
    }
}

fn replace_all_in(fix: PlannedFix) -> (r: PlannedFix)
    ensures
        r.deep_view() == replacing_all(fix.deep_view()),
{
    let mut edits: Vec<TextEdit> = Vec::new();
    let ghost goal = replacing_all(fix.deep_view()).edits;
    let mut i: usize = 0;
    while i < fix.edits.len()
        invariant
            i <= fix.edits@.len(),
            goal == replacing_all(fix.deep_view()).edits,
            edits@.len() == i,
            forall|k: int| 0 <= k < i ==> (#[trigger] edits@[k]).deep_view() == goal[k],
        decreases fix.edits@.len() - i,
    {
        let mut edit = fix.edits[i].copy();
        edit.replace_all = true;
        assert(fix.deep_view().edits[i as int] == fix.edits@[i as int].deep_view());
        edits.push(edit);
        i = i + 1;
    }
    assert(edits.deep_view() =~= goal);
    fix.with_edits(edits)
}

fn widen(fix: Option<PlannedFix>, all: bool) -> (r: Option<PlannedFix>)
    ensures
        forall|o: Outcome|
            o.fix == fix.deep_view() ==> r.deep_view() == (#[trigger] widened(o, all)).fix,
{
    match fix {
        Some(f) => {
            if all {
                Some(replace_all_in(f))
            } else {
                Some(f)
            }
        },
        None => None,
    }
}

fn make_manual(rule_id: &str, incident: &Incident, message: String) -> (r: ManualFixItem)
    ensures
        r.deep_view() == manual_item(rule_id@, incident.deep_view(), message@),
{
    ManualFixItem {
        rule_id: owned(rule_id),
        file_uri: incident.file_uri.clone(),
        line: match incident.line_number {
            Some(l) => l,
            None => 0,
        },
        message,
        code_snip: copy_option(&incident.code_snip),
    }
}

fn css_text_of(incident: &Incident) -> (r: &str)
    ensures
        r@ == css_text(incident.deep_view()),
{
    match incident.text_variable("matchingText") {
        Some(t) => t,
        None => match incident.text_variable("className") {
            Some(t) => t,
            None => {
                proof {
                    reveal_strlit("");
                    assert(""@ =~= Seq::<char>::empty());
                }
                ""
            },
        },
    }
}

fn plan_css<L: LanguageFixProvider>(
    lang: &L,
    dead: &Vec<String>,
    rule_id: &str,
    incident: &Incident,
    old_prefix: &str,
    new_prefix: &str,
    exclude: &Vec<String>,
    path: &str,
    ws: &Workspace,
    plan: &mut FixPlan,
    report: &mut FixReport,
)
    ensures
        state(*final(plan), *final(report)) == after_css(
            lang,
            dead.deep_view(),
            rule_id@,
            incident.deep_view(),
            old_prefix@,
            new_prefix@,
            exclude.deep_view(),
            path@,
            ws.deep_view(),
            state(*old(plan), *old(report)),
        ),
        old(plan).files.in_order() ==> final(plan).files.in_order(),
{
    let matched = css_text_of(incident);
    if holds_one_of(matched, exclude) {
        let message = cat4(
            "CSS class '",
            matched,
            "' was removed — prefix swap would produce a non-existent class. ",
            incident.message.as_str(),
        );
        append_one(&mut plan.manual, make_manual(rule_id, incident, message));
        return;
    }
    let produced = replace(matched, old_prefix, new_prefix);
    if matched.unicode_len() > 0 && holds_one_of(produced.as_str(), dead) {
        let mut message = cat5(
            "CSS class '",
            matched,
            "' swap suppressed — '",
            produced.as_str(),
            "' does not exist in the target version. ",
        );
        message.append(incident.message.as_str());
        append_one(&mut plan.manual, make_manual(rule_id, incident, message));
        return;
    }
    let mappings = only(RenameMapping { old: owned(old_prefix), new: owned(new_prefix) });
    let fix = plan_rename(rule_id, incident, &mappings, path, lang, ws, report);
    let wide = widen(fix, true);
    let ghost o = planned_rename(
        lang,
        rule_id@,
        incident.deep_view(),
        mappings.deep_view(),
        path@,
        ws.deep_view(),
    );
    assert(wide.deep_view() == widened(o, true).fix);
    add_fix(plan, path, wide);
}

fn moved_import(incident: &Incident, package: &str, new_version: &str) -> (r: String)
    ensures
        r@ == moved_import_message(incident.deep_view(), package@, new_version@),
{
    match (incident.text_variable("importedName"), incident.text_variable("module")) {
        (Some(imported), Some(module)) => {
            let mut out = cat7(
                "Import '",
                imported,
                "' is from '",
                module,
                "' but needs to move to '",
                package,
                "' (version ",
            );
            out.append(new_version);
            out.append(").\n\nChange the import source from '");
            out.append(module);
            out.append("' to '");
            out.append(package);
            out.append("'.\n\n");
            out.append(incident.message.as_str());
            out
        },
        _ => incident.message.clone(),
    }
}

fn plan_dependency<L: LanguageFixProvider>(
    lang: &L,
    root: &str,
    rule_id: &str,
    incident: &Incident,
    package: &str,
    new_version: &str,
    path: &str,
    ws: &Workspace,
    plan: &mut FixPlan,
    report: &mut FixReport,
)
    ensures
        state(*final(plan), *final(report)) == after_dependency(
            lang,
            root@,
            rule_id@,
            incident.deep_view(),
            package@,
            new_version@,
            path@,
            ws.deep_view(),
            state(*old(plan), *old(report)),
        ),
        old(plan).files.in_order() ==> final(plan).files.in_order(),
{
    let ext = match extension(path) {
        Some(e) => e,
        None => String::new(),
    };
    assert(ext@ == (match extension_of(path@) {
        Some(e) => e,
        None => Seq::empty(),
    }));
    if same(ext.as_str(), "java") {
        return;
    }
    if same(ext.as_str(), "tsx") || same(ext.as_str(), "ts") || same(ext.as_str(), "jsx") || same(
        ext.as_str(),
        "js",
    ) {
        let none: Vec<String> = Vec::new();
        assert(none.deep_view() =~= Seq::<Seq<char>>::empty());
        let request = LlmFixRequest {
            rule_id: owned(rule_id),
            file_uri: incident.file_uri.clone(),
            file_path: owned(path),
            line: match incident.line_number {
                Some(l) => l,
                None => 0,
            },
            message: moved_import(incident, package, new_version),
            code_snip: copy_option(&incident.code_snip),
            source: None,
            labels: none,
            companion_test_files: lang.discover_companion_test_files(path, ws),
        };
        append_one(&mut plan.pending_llm, request);
    } else {
        let fixes = lang.plan_ensure_dependency(
            rule_id,
            incident,
            package,
            new_version,
            path,
            ws,
            report,
        );
        assert(fixes.deep_view().len() == fixes@.len());
        add_fixes(plan, root, fixes);
    }
}

fn enrich(incident: &Incident, context: &Option<String>) -> (r: String)
    ensures
        r@ == enriched_message(incident.deep_view(), context.deep_view()),
{
    let ghost variables = incident.variables.deep_view();
    let mut listed = String::new();
    if incident.variables.len() > 0 {
        let mut all = String::new();
        let mut i: usize = 0;
        while i < incident.variables.len()
            invariant
                i <= variables.len(),
                variables == incident.variables.deep_view(),
                all@ == variable_lines(variables, i as int),
            decreases variables.len() - i,
        {
            let value = &incident.variables.value(i).0;
            let words = match string_of(value) {
                Some(s) => owned(s),
                None => written(value),
            };
            let line = cat4("\n  ", incident.variables.key(i).as_str(), ": ", words.as_str());
            all.append(line.as_str());
            i = i + 1;
        }
        listed = cat2("\n\nIncident context:", all.as_str());
    }
    let known = match context {
        Some(c) => cat2("\n\nFix strategy:\n", c.as_str()),
        None => String::new(),
    };
    let mut out = incident.message.clone();
    out.append(listed.as_str());
    out.append(known.as_str());
    out
}

fn affects_only_tests(labels: &Vec<String>) -> (r: bool)
    ensures
        r == only_tests_affected(labels.deep_view()),
{
    let ghost view = labels.deep_view();
    if !has_entry(labels, "change-type=test-impact") {
        return false;
    }
    let mut k: usize = 0;
    while k < labels.len()
        invariant
            k <= labels@.len(),
            view == labels.deep_view(),
            forall|j: int|
                0 <= j < k ==> !(begins(#[trigger] view[j], "change-type="@) && view[j]
                    != "change-type=test-impact"@),
        decreases labels@.len() - k,
    {
        assert(view[k as int] == labels@[k as int]@);
        if starts_with(labels[k].as_str(), "change-type=") && !same(
            labels[k].as_str(),
            "change-type=test-impact",
        ) {
            return false;
        }
        k = k + 1;
    }
    true
}

fn plan_llm<L: LanguageFixProvider>(
    lang: &L,
    rule_id: &str,
    labels: &Vec<String>,
    incident: &Incident,
    context: &Option<String>,
    path: &str,
    ws: &Workspace,
    plan: &mut FixPlan,
    Ghost(report): Ghost<FixReportView>,
)
    ensures
        (Planning { plan: final(plan).deep_view(), report }) == after_llm(
            lang,
            rule_id@,
            labels.deep_view(),
            incident.deep_view(),
            context.deep_view(),
            path@,
            ws.deep_view(),
            Planning { plan: old(plan).deep_view(), report },
        ),
        old(plan).files.in_order() ==> final(plan).files.in_order(),
{
    let tests = lang.discover_companion_test_files(path, ws);
    assert(tests.deep_view().len() == tests@.len());
    if affects_only_tests(labels) && tests.len() == 0 {
        let message = cat2(
            "Test-impact violation with no companion test files found. ",
            incident.message.as_str(),
        );
        append_one(&mut plan.manual, make_manual(rule_id, incident, message));
        return;
    }
    let request = LlmFixRequest {
        rule_id: owned(rule_id),
        file_uri: incident.file_uri.clone(),
        file_path: owned(path),
        line: match incident.line_number {
            Some(l) => l,
            None => 0,
        },
        message: enrich(incident, context),
        code_snip: copy_option(&incident.code_snip),
        source: None,
        labels: copy_texts(labels),
        companion_test_files: tests,
    };
    append_one(&mut plan.pending_llm, request);
}

fn plan_incident<L: LanguageFixProvider>(
    lang: &L,
    root: &str,
    ws: &Workspace,
    dead: &Vec<String>,
    rule_id: &str,
    labels: &Vec<String>,
    strategy: &FixStrategy,
    incident: &Incident,
    plan: &mut FixPlan,
    report: &mut FixReport,
)
    ensures
        state(*final(plan), *final(report)) == after_incident(
            lang,
            root@,
            ws.deep_view(),
            dead.deep_view(),
            rule_id@,
            labels.deep_view(),
            strategy.deep_view(),
            incident.deep_view(),
            state(*old(plan), *old(report)),
        ),
        old(plan).files.in_order() ==> final(plan).files.in_order(),
{
    let file_path = uri_to_path(incident.file_uri.as_str(), root);
    let path = file_path.as_str();
    if lang.should_skip_path(path) {
        return;
    }
    match strategy {
        FixStrategy::Rename(mappings) => {
            let fix = plan_rename(rule_id, incident, mappings, path, lang, ws, report);
            let wide = widen(fix, incident.has_variable("importedName"));
            let ghost o = planned_rename(
                lang,
                rule_id@,
                incident.deep_view(),
                mappings.deep_view(),
                path@,
                ws.deep_view(),
            );
            assert(wide.deep_view() == widened(
                o,
                has_var(incident.deep_view(), "importedName"@),
            ).fix);
            add_fix(plan, path, wide);
        },
        FixStrategy::RemoveAttribute => {
            let fix = lang.plan_remove_attribute(rule_id, incident, path, ws, report);
            add_fix(plan, path, fix);
        },
        FixStrategy::ImportPathChange { old_path, new_path } => {
            let fix = plan_import_path_change(
                rule_id,
                incident,
                old_path.as_str(),
                new_path.as_str(),
                path,
                ws,
                report,
            );
            add_fix(plan, path, fix);
        },
        FixStrategy::JavaImportRename { old_fqn, new_fqn } => {
            let fix = lang.plan_import_rename(
                rule_id,
                incident,
                old_fqn.as_str(),
                new_fqn.as_str(),
                path,
                ws,
                report,
            );
            add_fix(plan, path, fix);
        },
        FixStrategy::CssVariablePrefix { old_prefix, new_prefix, exclude_patterns } => {
            plan_css(
                lang,
                dead,
                rule_id,
                incident,
                old_prefix.as_str(),
                new_prefix.as_str(),
                exclude_patterns,
                path,
                ws,
                plan,
                report,
            );
        },
        FixStrategy::EnsureDependency { package, new_version, old_package: _ } => {
            plan_dependency(
                lang,
                root,
                rule_id,
                incident,
                package.as_str(),
                new_version.as_str(),
                path,
                ws,
                plan,
                report,
            );
        },
        FixStrategy::Manual => {
            let item = make_manual(rule_id, incident, incident.message.clone());
            append_one(&mut plan.manual, item);
        },
        FixStrategy::Llm { context } => {
            plan_llm(
                lang,
                rule_id,
                labels,
                incident,
                context,
                path,
                ws,
                plan,
                Ghost(report.deep_view()),
            );
        },
    }
}

fn plan_violation<L: LanguageFixProvider>(
    lang: &L,
    root: &str,
    ws: &Workspace,
    dead: &Vec<String>,
    rule_id: &str,
    violation: &Violation,
    strategy: &FixStrategy,
    plan: &mut FixPlan,
    report: &mut FixReport,
)
    ensures
        state(*final(plan), *final(report)) == after_incidents(
            lang,
            root@,
            ws.deep_view(),
            dead.deep_view(),
            rule_id@,
            violation.deep_view().labels,
            strategy.deep_view(),
            violation.deep_view().incidents,
            violation.deep_view().incidents.len() as int,
            state(*old(plan), *old(report)),
        ),
        old(plan).files.in_order() ==> final(plan).files.in_order(),
{
    let ghost begin = state(*plan, *report);
    let ghost incidents = violation.deep_view().incidents;
    let mut i: usize = 0;
    while i < violation.incidents.len()
        invariant
            i <= violation.incidents@.len(),
            incidents == violation.incidents.deep_view(),
            state(*plan, *report) == after_incidents(
                lang,
                root@,
                ws.deep_view(),
                dead.deep_view(),
                rule_id@,
                violation.deep_view().labels,
                strategy.deep_view(),
                incidents,
                i as int,
                begin,
            ),
            old(plan).files.in_order() ==> plan.files.in_order(),
        decreases violation.incidents@.len() - i,
    {
        assert(incidents[i as int] == violation.incidents@[i as int].deep_view());
        plan_incident(
            lang,
            root,
            ws,
            dead,
            rule_id,
            &violation.labels,
            strategy,
            &violation.incidents[i],
            plan,
            report,
        );
        i = i + 1;
    }
    assert(incidents.len() == violation.incidents@.len());
}

fn plan_rule_set<L: LanguageFixProvider>(
    lang: &L,
    root: &str,
    ws: &Workspace,
    dead: &Vec<String>,
    strategies: &TextTable<FixStrategy>,
    set: &RuleFindings,
    plan: &mut FixPlan,
    report: &mut FixReport,
)
    ensures
        state(*final(plan), *final(report)) == after_violations(
            lang,
            root@,
            ws.deep_view(),
            dead.deep_view(),
            strategies.deep_view(),
            set.deep_view().violations,
            set.deep_view().violations.len() as int,
            state(*old(plan), *old(report)),
        ),
        old(plan).files.in_order() ==> final(plan).files.in_order(),
{
    let ghost begin = state(*plan, *report);
    let ghost violations = set.deep_view().violations;
    let mut i: usize = 0;
    while i < set.violations.len()
        invariant
            i <= violations.len(),
            violations == set.violations.deep_view(),
            state(*plan, *report) == after_violations(
                lang,
                root@,
                ws.deep_view(),
                dead.deep_view(),
                strategies.deep_view(),
                violations,
                i as int,
                begin,
            ),
            old(plan).files.in_order() ==> plan.files.in_order(),
        decreases violations.len() - i,
    {
        let rule_id = set.violations.key(i).as_str();
        let violation = set.violations.value(i);
        match strategies.get(rule_id) {
            Some(strategy) => {
                plan_violation(lang, root, ws, dead, rule_id, violation, strategy, plan, report);
            },
            None => {
                let strategy = match infer_strategy_from_labels(&violation.labels) {
                    Some(s) => s,
                    None => FixStrategy::Llm { context: None },
                };
                plan_violation(lang, root, ws, dead, rule_id, violation, &strategy, plan, report);
            },
        }
        i = i + 1;
    }
}

fn is_rule_matched(output: &Vec<RuleFindings>, rule_id: &str) -> (r: bool)
    ensures
        r == rule_matched(output.deep_view(), rule_id@),
{
    let ghost view = output.deep_view();
    let mut k: usize = 0;
    while k < output.len()
        invariant
            k <= output@.len(),
            view == output.deep_view(),
            forall|j: int|
                0 <= j < k ==> lookup((#[trigger] view[j]).violations, rule_id@) is None,
        decreases output@.len() - k,
    {
        assert(view[k as int] == output@[k as int].deep_view());
        if output[k].violations.contains_key(rule_id) {
            return true;
        }
        k = k + 1;
    }
    false
}

fn plan_proactive<L: LanguageFixProvider>(
    lang: &L,
    root: &str,
    ws: &Workspace,
    output: &Vec<RuleFindings>,
    strategies: &TextTable<FixStrategy>,
    plan: &mut FixPlan,
    report: &mut FixReport,
)
    ensures
        state(*final(plan), *final(report)) == after_proactive(
            lang,
            root@,
            ws.deep_view(),
            output.deep_view(),
            strategies.deep_view(),
            strategies.deep_view().len() as int,
            state(*old(plan), *old(report)),
        ),
        old(plan).files.in_order() ==> final(plan).files.in_order(),
{
    let ghost begin = state(*plan, *report);
    let ghost view = strategies.deep_view();
    let mut i: usize = 0;
    while i < strategies.len()
        invariant
            i <= view.len(),
            view == strategies.deep_view(),
            state(*plan, *report) == after_proactive(
                lang,
                root@,
                ws.deep_view(),
                output.deep_view(),
                view,
                i as int,
                begin,
            ),
            old(plan).files.in_order() ==> plan.files.in_order(),
        decreases view.len() - i,
    {
        let rule_id = strategies.key(i).as_str();
        match strategies.value(i) {
            FixStrategy::EnsureDependency { package, new_version, old_package } => {
                match old_package {
                    Some(old_name) => {
                        if !is_rule_matched(output, rule_id) && old_name.as_str().unicode_len() > 0 {
                            let fixes = lang.plan_proactive_dependency(
                                rule_id,
                                old_name.as_str(),
                                package.as_str(),
                                new_version.as_str(),
                                root,
                                ws,
                                report,
                            );
                            assert(fixes.deep_view().len() == fixes@.len());
                            add_fixes(plan, root, fixes);
                        }
                    },
                    None => {},
                }
            },
            _ => {},
        }
        i = i + 1;
    }
}

fn count_dots(s: &str) -> (r: usize)
    ensures
        r == dots(s@, s@.len() as int),
{
    let v = crate::text::chars_of(s);
    let mut count: usize = 0;
    let mut i: usize = 0;
    while i < v.len()
        invariant
            i <= v@.len(),
            count <= i,
            count == dots(v@, i as int),
        decreases v@.len() - i,
    {
        if v[i] == '.' {
            count = count + 1;
        }
        i = i + 1;
    }
    count
}

fn plan_config<L: LanguageFixProvider>(
    lang: &L,
    root: &str,
    ws: &Workspace,
    strategies: &TextTable<FixStrategy>,
    plan: &mut FixPlan,
    report: &mut FixReport,
)
    ensures
        state(*final(plan), *final(report)) == after_config(
            lang,
            root@,
            ws.deep_view(),
            strategies.deep_view(),
            strategies.deep_view().len() as int,
            state(*old(plan), *old(report)),
        ),
        old(plan).files.in_order() ==> final(plan).files.in_order(),
{
    let ghost begin = state(*plan, *report);
    let ghost view = strategies.deep_view();
    let mut i: usize = 0;
    while i < strategies.len()
        invariant
            i <= view.len(),
            view == strategies.deep_view(),
            state(*plan, *report) == after_config(
                lang,
                root@,
                ws.deep_view(),
                view,
                i as int,
                begin,
            ),
            old(plan).files.in_order() ==> plan.files.in_order(),
        decreases view.len() - i,
    {
        let rule_id = strategies.key(i).as_str();
        match strategies.value(i) {
            FixStrategy::JavaImportRename { old_fqn, new_fqn } => {
                if count_dots(old_fqn.as_str()) >= 2 {
                    let fixes = lang.plan_config_file_renames(
                        rule_id,
                        old_fqn.as_str(),
                        new_fqn.as_str(),
                        root,
                        ws,
                        report,
                    );
                    assert(fixes.deep_view().len() == fixes@.len());
                    add_fixes(plan, root, fixes);
                }
            },
            _ => {},
        }
        i = i + 1;
    }
}

/// Builds the fix plan for the results of an analysis.
pub fn plan_fixes<L: LanguageFixProvider>(
    output: &Vec<RuleFindings>,
    project_root: &str,
    strategies: &TextTable<FixStrategy>,
    lang: &L,
    ws: &Workspace,
    report: &mut FixReport,
) -> (r: FixPlan)
    ensures
        ({
            let s = planned(
                lang,
                project_root@,
                ws.deep_view(),
                output.deep_view(),
                strategies.deep_view(),
                old(report).deep_view(),
            );
            &&& r.deep_view() == s.plan
            &&& final(report).deep_view() == s.report
        }),
        r.files.in_order(),
{
    let mut plan = FixPlan::default();
    let ghost begin = state(plan, *report);
    let ghost view = output.deep_view();
    let dead = collect_dead_css_classes(output);
    let mut i: usize = 0;
    while i < output.len()
        invariant
            i <= output@.len(),
            view == output.deep_view(),
            state(plan, *report) == after_rule_sets(
                lang,
                project_root@,
                ws.deep_view(),
                dead.deep_view(),
                strategies.deep_view(),
                view,
                i as int,
                begin,
            ),
            plan.files.in_order(),
        decreases output@.len() - i,
    {
        assert(view[i as int] == output@[i as int].deep_view());
        plan_rule_set(
            lang,
            project_root,
            ws,
            &dead,
            strategies,
            &output[i],
            &mut plan,
            report,
        );
        i = i + 1;
    }
    assert(view.len() == output@.len());
    plan_proactive(lang, project_root, ws, output, strategies, &mut plan, report);
    plan_config(lang, project_root, ws, strategies, &mut plan, report);
    merge_dependency_inserts(&mut plan);
    order_fixes(&mut plan);
    deduplicate_edits(&mut plan);
    plan
}

} // verus!
