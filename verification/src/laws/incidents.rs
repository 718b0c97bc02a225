//! Planning reaches every incident: what each of them gives is in the plan,
//! and how its strategy decides.

use crate::engine::dedup::deduplicated;
use crate::engine::import_path::planned_import_path;
use crate::engine::merge::{by_line, merged_file};
use crate::engine::plan::{
    after_config, after_incident, after_incidents, after_outcome, after_outcomes, after_proactive,
    after_rule_sets, after_violations, dead_classes, dots, enriched_message, gathered_plan,
    label_strategy, labels_strategy, moved_import_message, planned, rule_matched, strategy_for,
    uri_path, widened, with_fix, with_fixes, Planning,
};
use crate::engine::rename::planned_rename;
use crate::language::{LanguageFixProvider, Outcome, Outcomes};
use crate::laws::edits::{law_fixes_go_from_the_bottom_up, law_ordering_keeps_every_fix};
use crate::laws::words::count_of;
use crate::model::{
    empty_plan, FixPlanView, FixReportView, LlmFixRequestView, ManualFixItemView, PlannedFixView,
    RenameMappingView, SkippedIncidentView,
};
use crate::order::{ByPath, KeyOrder};
use crate::paths::extension_of;
use crate::report::{has_var, text_var, IncidentView, RuleFindingsView, ViolationView};
use crate::strategy::FixStrategyView;
use crate::table::{grown, lemma_place, lookup, place};
use crate::text::{begins, has_text, replaced};
use crate::workspace::WorkspaceView;
use vstd::prelude::*;

verus! {

broadcast use vstd::string::group_string_axioms;

// ---------------------------------------------------------------------
// Nothing is lost
// ---------------------------------------------------------------------

/// The fix is planned for the file.
pub open spec fn has_fix(
    files: Seq<(Seq<char>, Seq<PlannedFixView>)>,
    path: Seq<char>,
    fix: PlannedFixView,
) -> bool {
    exists|k: int|
        0 <= k < files.len() && ByPath::same((#[trigger] files[k]).0, path) && files[k].1.contains(
            fix,
        )
}

/// All that planning had come to is there later on.
pub open spec fn all_kept(a: Planning, b: Planning) -> bool {
    &&& forall|x: ManualFixItemView| #[trigger]
        a.plan.manual.contains(x) ==> b.plan.manual.contains(x)
    &&& forall|x: LlmFixRequestView| #[trigger]
        a.plan.pending_llm.contains(x) ==> b.plan.pending_llm.contains(x)
    &&& forall|x: SkippedIncidentView| #[trigger]
        a.report.skipped.contains(x) ==> b.report.skipped.contains(x)
    &&& forall|path: Seq<char>, fix: PlannedFixView| #[trigger]
        has_fix(a.plan.files, path, fix) ==> has_fix(b.plan.files, path, fix)
}

proof fn lemma_pushed<T>(s: Seq<T>, x: T)
    ensures
        s.push(x).contains(x),
        forall|y: T| #[trigger] s.contains(y) ==> s.push(x).contains(y),
{
    assert(s.push(x)[s.len() as int] == x);
    assert forall|y: T| #[trigger] s.contains(y) implies s.push(x).contains(y) by {
        let k = choose|k: int| 0 <= k < s.len() && s[k] == y;
        assert(s.push(x)[k] == y);
    }
}

proof fn lemma_with_fix(plan: FixPlanView, path: Seq<char>, fix: PlannedFixView)
    ensures
        has_fix(with_fix(plan, path, fix).files, path, fix),
        forall|p: Seq<char>, f: PlannedFixView| #[trigger]
            has_fix(plan.files, p, f) ==> has_fix(with_fix(plan, path, fix).files, p, f),
{
    let m = plan.files;
    let now = with_fix(plan, path, fix).files;
    let i = place::<ByPath, Seq<PlannedFixView>>(m, path, 0);
    lemma_place::<ByPath, Seq<PlannedFixView>>(m, path, 0);
    ByPath::order_laws(path, path, path);
    let updates = i < m.len() && ByPath::same(m[i].0, path);
    if updates {
        lemma_pushed(m[i].1, fix);
        assert(now[i] == (m[i].0, m[i].1.push(fix)));
    } else {
        assert(now[i] == (path, seq![fix]));
        assert(seq![fix][0] == fix);
        assert(seq![fix].contains(fix));
    }
    assert(has_fix(now, path, fix)) by {
        assert(ByPath::same(now[i].0, path));
        assert(now[i].1.contains(fix));
    }
    assert forall|p: Seq<char>, f: PlannedFixView| #[trigger] has_fix(m, p, f) implies has_fix(
        now,
        p,
        f,
    ) by {
        let k = choose|k: int|
            0 <= k < m.len() && ByPath::same((#[trigger] m[k]).0, p) && m[k].1.contains(f);
        if updates {
            if k == i {
                assert(now[i].1.contains(f));
            } else {
                assert(now[k] == m[k]);
            }
        } else if k < i {
            assert(now[k] == m[k]);
        } else {
            assert(now[k + 1] == m[k]);
        }
    }
}

/// The same of the files alone.
pub proof fn lemma_grown(
    files: Seq<(Seq<char>, Seq<PlannedFixView>)>,
    path: Seq<char>,
    fix: PlannedFixView,
)
    ensures
        has_fix(grown::<ByPath, PlannedFixView>(files, path, fix), path, fix),
        forall|p: Seq<char>, f: PlannedFixView| #[trigger]
            has_fix(files, p, f) ==> has_fix(
                grown::<ByPath, PlannedFixView>(files, path, fix),
                p,
                f,
            ),
{
    let plan = FixPlanView { files, ..empty_plan() };
    lemma_with_fix(plan, path, fix);
}

proof fn lemma_with_fixes(plan: FixPlanView, root: Seq<char>, fixes: Seq<PlannedFixView>, n: int)
    requires
        0 <= n <= fixes.len(),
    ensures
        with_fixes(plan, root, fixes, n).manual == plan.manual,
        with_fixes(plan, root, fixes, n).pending_llm == plan.pending_llm,
        forall|p: Seq<char>, f: PlannedFixView| #[trigger]
            has_fix(plan.files, p, f) ==> has_fix(with_fixes(plan, root, fixes, n).files, p, f),
        forall|k: int|
            0 <= k < n ==> has_fix(
                with_fixes(plan, root, fixes, n).files,
                uri_path((#[trigger] fixes[k]).file_uri, root),
                fixes[k],
            ),
    decreases n,
{
    if n > 0 {
        lemma_with_fixes(plan, root, fixes, n - 1);
        let before = with_fixes(plan, root, fixes, n - 1);
        lemma_with_fix(before, uri_path(fixes[n - 1].file_uri, root), fixes[n - 1]);
    }
}

proof fn lemma_noted(report: FixReportView, skip: Option<SkippedIncidentView>)
    ensures
        ({
            let after = crate::model::noting(report, skip);
            &&& forall|x: SkippedIncidentView| #[trigger]
                report.skipped.contains(x) ==> after.skipped.contains(x)
            &&& skip matches Some(x) ==> after.skipped.contains(x)
        }),
{
    match skip {
        Some(x) => lemma_pushed(report.skipped, x),
        None => {},
    }
}

proof fn lemma_outcome(s: Planning, path: Seq<char>, o: Outcome)
    ensures
        all_kept(s, after_outcome(s, path, o)),
        o.fix matches Some(fix) ==> has_fix(after_outcome(s, path, o).plan.files, path, fix),
        o.skip matches Some(skip) ==> after_outcome(s, path, o).report.skipped.contains(skip),
{
    lemma_noted(s.report, o.skip);
    match o.fix {
        Some(fix) => lemma_with_fix(s.plan, path, fix),
        None => {},
    }
}

proof fn lemma_outcomes(s: Planning, root: Seq<char>, o: Outcomes)
    ensures
        all_kept(s, after_outcomes(s, root, o)),
        forall|k: int|
            0 <= k < o.fixes.len() ==> has_fix(
                after_outcomes(s, root, o).plan.files,
                uri_path((#[trigger] o.fixes[k]).file_uri, root),
                o.fixes[k],
            ),
{
    lemma_noted(s.report, o.skip);
    lemma_with_fixes(s.plan, root, o.fixes, o.fixes.len() as int);
}

// ---------------------------------------------------------------------
// One incident
// ---------------------------------------------------------------------

/// The fix is the one given, with every occurrence replaced where `all`
/// holds.
pub open spec fn is_widened(a: PlannedFixView, b: PlannedFixView, all: bool) -> bool {
    &&& b.edits.len() == a.edits.len()
    &&& forall|k: int|
        0 <= k < a.edits.len() ==> (#[trigger] b.edits[k]).line == a.edits[k].line
            && b.edits[k].old_text == a.edits[k].old_text && b.edits[k].new_text
            == a.edits[k].new_text && b.edits[k].rule_id == a.edits[k].rule_id
            && b.edits[k].replace_all == (all || a.edits[k].replace_all)
    &&& b.rule_id == a.rule_id
    &&& b.file_uri == a.file_uri
    &&& b.line == a.line
    &&& b.confidence == a.confidence
    &&& b.description == a.description
}

/// The item names the incident.
pub open spec fn is_item_for(
    item: ManualFixItemView,
    rule_id: Seq<char>,
    incident: IncidentView,
) -> bool {
    &&& item.rule_id == rule_id
    &&& item.file_uri == incident.file_uri
    &&& item.line == match incident.line_number {
        Some(l) => l,
        None => 0,
    }
    &&& item.code_snip == incident.code_snip
}

/// The request names the incident and its file.
pub open spec fn is_request_for(
    request: LlmFixRequestView,
    rule_id: Seq<char>,
    incident: IncidentView,
    path: Seq<char>,
    tests: Seq<Seq<char>>,
) -> bool {
    &&& request.rule_id == rule_id
    &&& request.file_uri == incident.file_uri
    &&& request.file_path == path
    &&& request.line == match incident.line_number {
        Some(l) => l,
        None => 0,
    }
    &&& request.code_snip == incident.code_snip
    &&& request.source is None
    &&& request.companion_test_files == tests
}

/// What an outcome gives is in the plan or in the report.
pub open spec fn outcome_is_kept(s: Planning, path: Seq<char>, o: Outcome, all: bool) -> bool {
    &&& o.fix matches Some(fix) ==> exists|wide: PlannedFixView| #[trigger]
        has_fix(s.plan.files, path, wide) && is_widened(fix, wide, all)
    &&& o.skip matches Some(skip) ==> s.report.skipped.contains(skip)
}

/// The labels say that tests are affected and nothing else.
pub open spec fn is_test_impact_only(labels: Seq<Seq<char>>) -> bool {
    &&& labels.contains("change-type=test-impact"@)
    &&& forall|k: int|
        0 <= k < labels.len() && begins(#[trigger] labels[k], "change-type="@) ==> labels[k]
            == "change-type=test-impact"@
}

/// The text of the CSS class or variable that an incident is about.
pub open spec fn class_text(incident: IncidentView) -> Seq<char> {
    if text_var(incident, "matchingText"@) is Some {
        text_var(incident, "matchingText"@)->Some_0
    } else if text_var(incident, "className"@) is Some {
        text_var(incident, "className"@)->Some_0
    } else {
        Seq::empty()
    }
}

/// One of the texts stands in `text`.
pub open spec fn is_among(text: Seq<char>, all: Seq<Seq<char>>) -> bool {
    exists|k: int| 0 <= k < all.len() && has_text(text, #[trigger] all[k])
}

/// What an incident must leave behind, by its strategy.
pub open spec fn incident_is_kept<L: LanguageFixProvider>(
    lang: &L,
    root: Seq<char>,
    ws: WorkspaceView,
    dead: Seq<Seq<char>>,
    rule_id: Seq<char>,
    labels: Seq<Seq<char>>,
    strategy: FixStrategyView,
    incident: IncidentView,
    s: Planning,
) -> bool {
    let path = uri_path(incident.file_uri, root);
    match strategy {
        FixStrategyView::Rename(mappings) => outcome_is_kept(
            s,
            path,
            planned_rename(lang, rule_id, incident, mappings, path, ws),
            has_var(incident, "importedName"@),
        ),
        FixStrategyView::RemoveAttribute => outcome_is_kept(
            s,
            path,
            lang.removal(rule_id, incident, path, ws),
            false,
        ),
        FixStrategyView::ImportPathChange { old_path, new_path } => outcome_is_kept(
            s,
            path,
            planned_import_path(rule_id, incident, old_path, new_path, path, ws),
            false,
        ),
        FixStrategyView::JavaImportRename { old_fqn, new_fqn } => outcome_is_kept(
            s,
            path,
            lang.import_rename(rule_id, incident, old_fqn, new_fqn, path, ws),
            false,
        ),
        FixStrategyView::CssVariablePrefix { old_prefix, new_prefix, exclude_patterns } => {
            let text = class_text(incident);
            if is_among(text, exclude_patterns) || (text.len() > 0 && is_among(
                replaced(text, old_prefix, new_prefix),
                dead,
            )) {
                exists|item: ManualFixItemView| #[trigger]
                    s.plan.manual.contains(item) && is_item_for(item, rule_id, incident)
            } else {
                outcome_is_kept(
                    s,
                    path,
                    planned_rename(
                        lang,
                        rule_id,
                        incident,
                        seq![RenameMappingView { old: old_prefix, new: new_prefix }],
                        path,
                        ws,
                    ),
                    true,
                )
            }
        },
        FixStrategyView::EnsureDependency { package, new_version, old_package } => {
            let ext = extension_of(path);
            if ext == Some("java"@) {
                true
            } else if ext == Some("tsx"@) || ext == Some("ts"@) || ext == Some("jsx"@) || ext
                == Some("js"@) {
                exists|request: LlmFixRequestView| #[trigger]
                    s.plan.pending_llm.contains(request) && is_request_for(
                        request,
                        rule_id,
                        incident,
                        path,
                        lang.companions(path, ws),
                    ) && request.labels.len() == 0 && request.message == moved_import_message(
                        incident,
                        package,
                        new_version,
                    )
            } else {
                let o = lang.dependency(rule_id, incident, package, new_version, path, ws);
                forall|k: int|
                    0 <= k < o.fixes.len() ==> has_fix(
                        s.plan.files,
                        uri_path((#[trigger] o.fixes[k]).file_uri, root),
                        o.fixes[k],
                    )
            }
        },
        FixStrategyView::Manual => exists|item: ManualFixItemView| #[trigger]
            s.plan.manual.contains(item) && is_item_for(item, rule_id, incident) && item.message
                == incident.message,
        FixStrategyView::Llm { context } => {
            let tests = lang.companions(path, ws);
            if is_test_impact_only(labels) && tests.len() == 0 {
                exists|item: ManualFixItemView| #[trigger]
                    s.plan.manual.contains(item) && is_item_for(item, rule_id, incident)
            } else {
                exists|request: LlmFixRequestView| #[trigger]
                    s.plan.pending_llm.contains(request) && is_request_for(
                        request,
                        rule_id,
                        incident,
                        path,
                        tests,
                    ) && request.labels == labels && request.message == enriched_message(
                        incident,
                        context,
                    )
            }
        },
    }
}

proof fn lemma_widened(s: Planning, path: Seq<char>, o: Outcome, all: bool)
    ensures
        all_kept(s, after_outcome(s, path, widened(o, all))),
        outcome_is_kept(after_outcome(s, path, widened(o, all)), path, o, all),
{
    let after = after_outcome(s, path, widened(o, all));
    lemma_outcome(s, path, widened(o, all));
    match o.fix {
        Some(fix) => {
            let wide = widened(o, all).fix->Some_0;
            assert(is_widened(fix, wide, all));
            assert(has_fix(after.plan.files, path, wide));
        },
        None => {},
    }
}

proof fn lemma_plain_outcome(s: Planning, path: Seq<char>, o: Outcome)
    ensures
        all_kept(s, after_outcome(s, path, o)),
        outcome_is_kept(after_outcome(s, path, o), path, o, false),
{
    lemma_outcome(s, path, o);
    match o.fix {
        Some(fix) => {
            assert(is_widened(fix, fix, false));
            assert(has_fix(after_outcome(s, path, o).plan.files, path, fix));
        },
        None => {},
    }
}

proof fn lemma_script_names()
    ensures
        "tsx"@.len() > 0,
        "ts"@.len() > 0,
        "jsx"@.len() > 0,
        "js"@.len() > 0,
        "java"@.len() > 0,
        "java"@ != "tsx"@ && "java"@ != "ts"@ && "java"@ != "jsx"@ && "java"@ != "js"@,
{
    reveal_strlit("tsx");
    reveal_strlit("ts");
    reveal_strlit("jsx");
    reveal_strlit("js");
    reveal_strlit("java");
    assert("java"@.len() == 4);
}

/// Planning for an incident keeps all there was and adds what the incident's
/// strategy asks for.
proof fn lemma_incident<L: LanguageFixProvider>(
    lang: &L,
    root: Seq<char>,
    ws: WorkspaceView,
    dead: Seq<Seq<char>>,
    rule_id: Seq<char>,
    labels: Seq<Seq<char>>,
    strategy: FixStrategyView,
    incident: IncidentView,
    s: Planning,
)
    ensures
        ({
            let after = after_incident(
                lang,
                root,
                ws,
                dead,
                rule_id,
                labels,
                strategy,
                incident,
                s,
            );
            &&& all_kept(s, after)
            &&& !lang.skips(uri_path(incident.file_uri, root)) ==> incident_is_kept(
                lang,
                root,
                ws,
                dead,
                rule_id,
                labels,
                strategy,
                incident,
                after,
            )
        }),
{
    let path = uri_path(incident.file_uri, root);
    let after = after_incident(lang, root, ws, dead, rule_id, labels, strategy, incident, s);
    if after.plan.manual.len() > 0 {
        lemma_pushed(s.plan.manual, after.plan.manual.last());
    }
    if after.plan.pending_llm.len() > 0 {
        lemma_pushed(s.plan.pending_llm, after.plan.pending_llm.last());
    }
    if !lang.skips(path) {
        match strategy {
            FixStrategyView::Rename(mappings) => {
                lemma_widened(
                    s,
                    path,
                    planned_rename(lang, rule_id, incident, mappings, path, ws),
                    has_var(incident, "importedName"@),
                );
            },
            FixStrategyView::RemoveAttribute => {
                lemma_plain_outcome(s, path, lang.removal(rule_id, incident, path, ws));
            },
            FixStrategyView::ImportPathChange { old_path, new_path } => {
                lemma_plain_outcome(
                    s,
                    path,
                    planned_import_path(rule_id, incident, old_path, new_path, path, ws),
                );
            },
            FixStrategyView::JavaImportRename { old_fqn, new_fqn } => {
                lemma_plain_outcome(
                    s,
                    path,
                    lang.import_rename(rule_id, incident, old_fqn, new_fqn, path, ws),
                );
            },
            FixStrategyView::CssVariablePrefix { old_prefix, new_prefix, exclude_patterns } => {
                let text = class_text(incident);
                assert(text == crate::engine::plan::css_text(incident));
                if is_among(text, exclude_patterns) || (text.len() > 0 && is_among(
                    replaced(text, old_prefix, new_prefix),
                    dead,
                )) {
                    assert(after.plan.manual.contains(after.plan.manual.last()));
                    assert(is_item_for(after.plan.manual.last(), rule_id, incident));
                } else {
                    lemma_widened(
                        s,
                        path,
                        planned_rename(
                            lang,
                            rule_id,
                            incident,
                            seq![RenameMappingView { old: old_prefix, new: new_prefix }],
                            path,
                            ws,
                        ),
                        true,
                    );
                }
            },
            FixStrategyView::EnsureDependency { package, new_version, old_package } => {
                lemma_script_names();
                let ext = extension_of(path);
                if ext == Some("java"@) {
                } else if ext == Some("tsx"@) || ext == Some("ts"@) || ext == Some("jsx"@) || ext
                    == Some("js"@) {
                    assert(after.plan.pending_llm.contains(after.plan.pending_llm.last()));
                } else {
                    lemma_outcomes(
                        s,
                        root,
                        lang.dependency(rule_id, incident, package, new_version, path, ws),
                    );
                }
            },
            FixStrategyView::Manual => {
                assert(after.plan.manual.contains(after.plan.manual.last()));
            },
            FixStrategyView::Llm { context } => {
                let tests = lang.companions(path, ws);
                assert(is_test_impact_only(labels) == crate::engine::plan::only_tests_affected(
                    labels,
                ));
                if is_test_impact_only(labels) && tests.len() == 0 {
                    assert(after.plan.manual.contains(after.plan.manual.last()));
                } else {
                    let request = after.plan.pending_llm.last();
                    assert(after.plan.pending_llm.contains(request));
                }
            },
        }
    }
}

/// What was kept stays kept.
proof fn lemma_still_kept<L: LanguageFixProvider>(
    lang: &L,
    root: Seq<char>,
    ws: WorkspaceView,
    dead: Seq<Seq<char>>,
    rule_id: Seq<char>,
    labels: Seq<Seq<char>>,
    strategy: FixStrategyView,
    incident: IncidentView,
    a: Planning,
    b: Planning,
)
    requires
        all_kept(a, b),
        incident_is_kept(lang, root, ws, dead, rule_id, labels, strategy, incident, a),
    ensures
        incident_is_kept(lang, root, ws, dead, rule_id, labels, strategy, incident, b),
{
}

proof fn lemma_incidents<L: LanguageFixProvider>(
    lang: &L,
    root: Seq<char>,
    ws: WorkspaceView,
    dead: Seq<Seq<char>>,
    rule_id: Seq<char>,
    labels: Seq<Seq<char>>,
    strategy: FixStrategyView,
    incidents: Seq<IncidentView>,
    n: int,
    s: Planning,
)
    requires
        0 <= n <= incidents.len(),
    ensures
        ({
            let after = after_incidents(
                lang,
                root,
                ws,
                dead,
                rule_id,
                labels,
                strategy,
                incidents,
                n,
                s,
            );
            &&& all_kept(s, after)
            &&& forall|j: int|
                0 <= j < n && !lang.skips(uri_path((#[trigger] incidents[j]).file_uri, root))
                    ==> incident_is_kept(
                    lang,
                    root,
                    ws,
                    dead,
                    rule_id,
                    labels,
                    strategy,
                    incidents[j],
                    after,
                )
        }),
    decreases n,
{
    if n > 0 {
        lemma_incidents(lang, root, ws, dead, rule_id, labels, strategy, incidents, n - 1, s);
        let before = after_incidents(
            lang,
            root,
            ws,
            dead,
            rule_id,
            labels,
            strategy,
            incidents,
            n - 1,
            s,
        );
        let last = incidents[n - 1];
        let after = after_incident(lang, root, ws, dead, rule_id, labels, strategy, last, before);
        lemma_incident(lang, root, ws, dead, rule_id, labels, strategy, last, before);
        assert forall|j: int|
            0 <= j < n && !lang.skips(uri_path((#[trigger] incidents[j]).file_uri, root)) implies
            incident_is_kept(
            lang,
            root,
            ws,
            dead,
            rule_id,
            labels,
            strategy,
            incidents[j],
            after,
        ) by {
            if j < n - 1 {
                lemma_still_kept(
                    lang,
                    root,
                    ws,
                    dead,
                    rule_id,
                    labels,
                    strategy,
                    incidents[j],
                    before,
                    after,
                );
            }
        }
    }
}

proof fn lemma_violations<L: LanguageFixProvider>(
    lang: &L,
    root: Seq<char>,
    ws: WorkspaceView,
    dead: Seq<Seq<char>>,
    strategies: Seq<(Seq<char>, FixStrategyView)>,
    violations: Seq<(Seq<char>, ViolationView)>,
    n: int,
    s: Planning,
    i: int,
    j: int,
)
    requires
        0 <= n <= violations.len(),
    ensures
        ({
            let after = after_violations(lang, root, ws, dead, strategies, violations, n, s);
            &&& all_kept(s, after)
            &&& 0 <= i < n && 0 <= j < violations[i].1.incidents.len() && !lang.skips(
                uri_path(violations[i].1.incidents[j].file_uri, root),
            ) ==> incident_is_kept(
                lang,
                root,
                ws,
                dead,
                violations[i].0,
                violations[i].1.labels,
                strategy_for(violations[i].0, violations[i].1.labels, strategies),
                violations[i].1.incidents[j],
                after,
            )
        }),
    decreases n,
{
    if n > 0 {
        lemma_violations(lang, root, ws, dead, strategies, violations, n - 1, s, i, j);
        let before = after_violations(lang, root, ws, dead, strategies, violations, n - 1, s);
        let after = after_violations(lang, root, ws, dead, strategies, violations, n, s);
        let rule_id = violations[n - 1].0;
        let v = violations[n - 1].1;
        let strategy = strategy_for(rule_id, v.labels, strategies);
        lemma_incidents(
            lang,
            root,
            ws,
            dead,
            rule_id,
            v.labels,
            strategy,
            v.incidents,
            v.incidents.len() as int,
            before,
        );
        if 0 <= i < n - 1 && 0 <= j < violations[i].1.incidents.len() && !lang.skips(
            uri_path(violations[i].1.incidents[j].file_uri, root),
        ) {
            lemma_still_kept(
                lang,
                root,
                ws,
                dead,
                violations[i].0,
                violations[i].1.labels,
                strategy_for(violations[i].0, violations[i].1.labels, strategies),
                violations[i].1.incidents[j],
                before,
                after,
            );
        }
    }
}

proof fn lemma_rule_sets<L: LanguageFixProvider>(
    lang: &L,
    root: Seq<char>,
    ws: WorkspaceView,
    dead: Seq<Seq<char>>,
    strategies: Seq<(Seq<char>, FixStrategyView)>,
    output: Seq<RuleFindingsView>,
    n: int,
    s: Planning,
    a: int,
    i: int,
    j: int,
)
    requires
        0 <= n <= output.len(),
    ensures
        ({
            let after = after_rule_sets(lang, root, ws, dead, strategies, output, n, s);
            &&& all_kept(s, after)
            &&& 0 <= a < n && 0 <= i < output[a].violations.len() && 0 <= j
                < output[a].violations[i].1.incidents.len() && !lang.skips(
                uri_path(output[a].violations[i].1.incidents[j].file_uri, root),
            ) ==> incident_is_kept(
                lang,
                root,
                ws,
                dead,
                output[a].violations[i].0,
                output[a].violations[i].1.labels,
                strategy_for(
                    output[a].violations[i].0,
                    output[a].violations[i].1.labels,
                    strategies,
                ),
                output[a].violations[i].1.incidents[j],
                after,
            )
        }),
    decreases n,
{
    if n > 0 {
        lemma_rule_sets(lang, root, ws, dead, strategies, output, n - 1, s, a, i, j);
        let before = after_rule_sets(lang, root, ws, dead, strategies, output, n - 1, s);
        let after = after_rule_sets(lang, root, ws, dead, strategies, output, n, s);
        let v = output[n - 1].violations;
        lemma_violations(lang, root, ws, dead, strategies, v, v.len() as int, before, i, j);
        if 0 <= a < n - 1 && 0 <= i < output[a].violations.len() && 0 <= j
            < output[a].violations[i].1.incidents.len() && !lang.skips(
            uri_path(output[a].violations[i].1.incidents[j].file_uri, root),
        ) {
            lemma_still_kept(
                lang,
                root,
                ws,
                dead,
                output[a].violations[i].0,
                output[a].violations[i].1.labels,
                strategy_for(
                    output[a].violations[i].0,
                    output[a].violations[i].1.labels,
                    strategies,
                ),
                output[a].violations[i].1.incidents[j],
                before,
                after,
            );
        }
    }
}

/// Some violation in the results of the analysis is of the rule.
pub open spec fn is_violated(output: Seq<RuleFindingsView>, rule_id: Seq<char>) -> bool {
    exists|a: int| 0 <= a < output.len() && lookup((#[trigger] output[a]).violations, rule_id) is Some
}

/// What strategy `k` must leave behind though no incident asks for it.
pub open spec fn strategy_is_kept<L: LanguageFixProvider>(
    lang: &L,
    root: Seq<char>,
    ws: WorkspaceView,
    output: Seq<RuleFindingsView>,
    strategies: Seq<(Seq<char>, FixStrategyView)>,
    k: int,
    s: Planning,
) -> bool {
    let rule_id = strategies[k].0;
    match strategies[k].1 {
        FixStrategyView::EnsureDependency { package, new_version, old_package } => {
            old_package matches Some(name) ==> (name.len() > 0 && !is_violated(output, rule_id)
                ==> ({
                let o = lang.proactive(rule_id, name, package, new_version, root, ws);
                forall|f: int|
                    0 <= f < o.fixes.len() ==> has_fix(
                        s.plan.files,
                        uri_path((#[trigger] o.fixes[f]).file_uri, root),
                        o.fixes[f],
                    )
            }))
        },
        FixStrategyView::JavaImportRename { old_fqn, new_fqn } => count_of(old_fqn, '.') >= 2
            ==> ({
            let o = lang.config_renames(rule_id, old_fqn, new_fqn, root, ws);
            forall|f: int|
                0 <= f < o.fixes.len() ==> has_fix(
                    s.plan.files,
                    uri_path((#[trigger] o.fixes[f]).file_uri, root),
                    o.fixes[f],
                )
        }),
        _ => true,
    }
}

proof fn lemma_proactive<L: LanguageFixProvider>(
    lang: &L,
    root: Seq<char>,
    ws: WorkspaceView,
    output: Seq<RuleFindingsView>,
    strategies: Seq<(Seq<char>, FixStrategyView)>,
    n: int,
    s: Planning,
    k: int,
)
    requires
        0 <= n <= strategies.len(),
    ensures
        all_kept(s, after_proactive(lang, root, ws, output, strategies, n, s)),
        0 <= k < n && !(strategies[k].1 is JavaImportRename) ==> strategy_is_kept(
            lang,
            root,
            ws,
            output,
            strategies,
            k,
            after_proactive(lang, root, ws, output, strategies, n, s),
        ),
    decreases n,
{
    if n > 0 {
        lemma_proactive(lang, root, ws, output, strategies, n - 1, s, k);
        let before = after_proactive(lang, root, ws, output, strategies, n - 1, s);
        let rule_id = strategies[n - 1].0;
        assert(is_violated(output, rule_id) == rule_matched(output, rule_id));
        match strategies[n - 1].1 {
            FixStrategyView::EnsureDependency { package, new_version, old_package } => {
                match old_package {
                    Some(name) => {
                        lemma_outcomes(
                            before,
                            root,
                            lang.proactive(rule_id, name, package, new_version, root, ws),
                        );
                    },
                    None => {},
                }
            },
            _ => {},
        }
    }
}

proof fn lemma_dots(s: Seq<char>, n: int)
    requires
        0 <= n <= s.len(),
    ensures
        dots(s, n) == count_of(s.take(n), '.'),
    decreases n,
{
    if n > 0 {
        lemma_dots(s, n - 1);
        assert(s.take(n).drop_last() =~= s.take(n - 1));
    }
}

proof fn lemma_config<L: LanguageFixProvider>(
    lang: &L,
    root: Seq<char>,
    ws: WorkspaceView,
    output: Seq<RuleFindingsView>,
    strategies: Seq<(Seq<char>, FixStrategyView)>,
    n: int,
    s: Planning,
    k: int,
)
    requires
        0 <= n <= strategies.len(),
    ensures
        all_kept(s, after_config(lang, root, ws, strategies, n, s)),
        0 <= k < n && strategies[k].1 is JavaImportRename ==> strategy_is_kept(
            lang,
            root,
            ws,
            output,
            strategies,
            k,
            after_config(lang, root, ws, strategies, n, s),
        ),
    decreases n,
{
    if n > 0 {
        lemma_config(lang, root, ws, output, strategies, n - 1, s, k);
        let before = after_config(lang, root, ws, strategies, n - 1, s);
        match strategies[n - 1].1 {
            FixStrategyView::JavaImportRename { old_fqn, new_fqn } => {
                lemma_dots(old_fqn, old_fqn.len() as int);
                assert(old_fqn.take(old_fqn.len() as int) =~= old_fqn);
                lemma_outcomes(
                    before,
                    root,
                    lang.config_renames(strategies[n - 1].0, old_fqn, new_fqn, root, ws),
                );
            },
            _ => {},
        }
    }
}

/// Planning reaches every incident: what the strategy of its rule asks for
/// is in what planning gathers, unless its file is one that the language
/// leaves alone.
pub proof fn law_every_incident_is_planned_for<L: LanguageFixProvider>(
    lang: &L,
    root: Seq<char>,
    ws: WorkspaceView,
    output: Seq<RuleFindingsView>,
    strategies: Seq<(Seq<char>, FixStrategyView)>,
    report: FixReportView,
    a: int,
    i: int,
    j: int,
)
    requires
        0 <= a < output.len(),
        0 <= i < output[a].violations.len(),
        0 <= j < output[a].violations[i].1.incidents.len(),
        !lang.skips(uri_path(output[a].violations[i].1.incidents[j].file_uri, root)),
    ensures
        incident_is_kept(
            lang,
            root,
            ws,
            dead_classes(output),
            output[a].violations[i].0,
            output[a].violations[i].1.labels,
            strategy_for(
                output[a].violations[i].0,
                output[a].violations[i].1.labels,
                strategies,
            ),
            output[a].violations[i].1.incidents[j],
            gathered_plan(lang, root, ws, output, strategies, report),
        ),
{
    let n = strategies.len() as int;
    let all = output.len() as int;
    let dead = dead_classes(output);
    let start = Planning { plan: empty_plan(), report };
    let matched = after_rule_sets(lang, root, ws, dead, strategies, output, all, start);
    let proactive = after_proactive(lang, root, ws, output, strategies, n, matched);
    let done = after_config(lang, root, ws, strategies, n, proactive);
    lemma_rule_sets(lang, root, ws, dead, strategies, output, all, start, a, i, j);
    lemma_proactive(lang, root, ws, output, strategies, n, matched, -1);
    lemma_config(lang, root, ws, output, strategies, n, proactive, -1);
    let v = output[a].violations[i];
    let strategy = strategy_for(v.0, v.1.labels, strategies);
    let incident = v.1.incidents[j];
    lemma_still_kept(
        lang,
        root,
        ws,
        dead,
        v.0,
        v.1.labels,
        strategy,
        incident,
        matched,
        proactive,
    );
    lemma_still_kept(
        lang,
        root,
        ws,
        dead,
        v.0,
        v.1.labels,
        strategy,
        incident,
        proactive,
        done,
    );
}

/// Dependencies whose rules matched nothing, and classes named in
/// configuration files, are planned for though no incident asks for them.
pub proof fn law_strategies_without_incidents_are_planned_for<L: LanguageFixProvider>(
    lang: &L,
    root: Seq<char>,
    ws: WorkspaceView,
    output: Seq<RuleFindingsView>,
    strategies: Seq<(Seq<char>, FixStrategyView)>,
    report: FixReportView,
    k: int,
)
    requires
        0 <= k < strategies.len(),
    ensures
        strategy_is_kept(
            lang,
            root,
            ws,
            output,
            strategies,
            k,
            gathered_plan(lang, root, ws, output, strategies, report),
        ),
{
    let n = strategies.len() as int;
    let all = output.len() as int;
    let dead = dead_classes(output);
    let start = Planning { plan: empty_plan(), report };
    let matched = after_rule_sets(lang, root, ws, dead, strategies, output, all, start);
    let proactive = after_proactive(lang, root, ws, output, strategies, n, matched);
    lemma_proactive(lang, root, ws, output, strategies, n, matched, k);
    lemma_config(lang, root, ws, output, strategies, n, proactive, k);
}

/// Strategy `k` asks for something of its own: it replaces a package though
/// no violation is of its rule, or renames a class by a name with at least
/// two dots.
pub open spec fn is_due(
    output: Seq<RuleFindingsView>,
    strategies: Seq<(Seq<char>, FixStrategyView)>,
    k: int,
) -> bool {
    match strategies[k].1 {
        FixStrategyView::EnsureDependency { package, new_version, old_package } => {
            old_package matches Some(name) && name.len() > 0 && !is_violated(
                output,
                strategies[k].0,
            )
        },
        FixStrategyView::JavaImportRename { old_fqn, new_fqn } => count_of(old_fqn, '.') >= 2,
        _ => false,
    }
}

/// A strategy that is not due adds nothing.
proof fn lemma_not_due<L: LanguageFixProvider>(
    lang: &L,
    root: Seq<char>,
    ws: WorkspaceView,
    output: Seq<RuleFindingsView>,
    strategies: Seq<(Seq<char>, FixStrategyView)>,
    n: int,
    s: Planning,
)
    requires
        0 <= n <= strategies.len(),
        forall|k: int| 0 <= k < strategies.len() ==> !#[trigger] is_due(output, strategies, k),
    ensures
        after_proactive(lang, root, ws, output, strategies, n, s) == s,
        after_config(lang, root, ws, strategies, n, s) == s,
    decreases n,
{
    if n > 0 {
        lemma_not_due(lang, root, ws, output, strategies, n - 1, s);
        assert(!is_due(output, strategies, n - 1));
        assert(is_violated(output, strategies[n - 1].0) == rule_matched(
            output,
            strategies[n - 1].0,
        ));
        match strategies[n - 1].1 {
            FixStrategyView::JavaImportRename { old_fqn, new_fqn } => {
                lemma_dots(old_fqn, old_fqn.len() as int);
                assert(old_fqn.take(old_fqn.len() as int) =~= old_fqn);
            },
            _ => {},
        }
    }
}

/// Where no strategy is due by itself, planning gathers what the incidents
/// give and nothing else: what a rule found is not acted on twice.
pub proof fn law_only_due_strategies_act_by_themselves<L: LanguageFixProvider>(
    lang: &L,
    root: Seq<char>,
    ws: WorkspaceView,
    output: Seq<RuleFindingsView>,
    strategies: Seq<(Seq<char>, FixStrategyView)>,
    report: FixReportView,
)
    requires
        forall|k: int| 0 <= k < strategies.len() ==> !#[trigger] is_due(output, strategies, k),
    ensures
        gathered_plan(lang, root, ws, output, strategies, report) == after_rule_sets(
            lang,
            root,
            ws,
            dead_classes(output),
            strategies,
            output,
            output.len() as int,
            Planning { plan: empty_plan(), report },
        ),
{
    let n = strategies.len() as int;
    let start = Planning { plan: empty_plan(), report };
    let matched = after_rule_sets(
        lang,
        root,
        ws,
        dead_classes(output),
        strategies,
        output,
        output.len() as int,
        start,
    );
    lemma_not_due(lang, root, ws, output, strategies, n, matched);
}

/// Putting edits in order and choosing among them leaves the items for a
/// person, the requests and the report as they were gathered.
pub proof fn law_requests_and_items_are_planned_as_gathered<L: LanguageFixProvider>(
    lang: &L,
    root: Seq<char>,
    ws: WorkspaceView,
    output: Seq<RuleFindingsView>,
    strategies: Seq<(Seq<char>, FixStrategyView)>,
    report: FixReportView,
)
    ensures
        ({
            let gathered = gathered_plan(lang, root, ws, output, strategies, report);
            let done = planned(lang, root, ws, output, strategies, report);
            &&& done.plan.manual == gathered.plan.manual
            &&& done.plan.pending_llm == gathered.plan.pending_llm
            &&& done.report == gathered.report
            &&& done.plan.files.len() == gathered.plan.files.len()
            &&& forall|k: int|
                0 <= k < gathered.plan.files.len() ==> (#[trigger] done.plan.files[k]).0
                    == gathered.plan.files[k].0
        }),
{
}

/// What is planned for a file are the fixes that were gathered for it, with
/// their inserts joined, from the bottom of the file up, and without the
/// edits that others make unnecessary.
pub proof fn law_fixes_are_planned_as_gathered<L: LanguageFixProvider>(
    lang: &L,
    root: Seq<char>,
    ws: WorkspaceView,
    output: Seq<RuleFindingsView>,
    strategies: Seq<(Seq<char>, FixStrategyView)>,
    report: FixReportView,
    k: int,
)
    requires
        0 <= k < gathered_plan(lang, root, ws, output, strategies, report).plan.files.len(),
    ensures
        ({
            let gathered = gathered_plan(lang, root, ws, output, strategies, report).plan;
            let done = planned(lang, root, ws, output, strategies, report).plan;
            exists|fixes: Seq<PlannedFixView>|
                done.files[k].1 == #[trigger] deduplicated(fixes) && fixes.to_multiset()
                    == merged_file(
                    gathered.files[k].0,
                    gathered.files[k].1,
                ).to_multiset() && forall|i: int, j: int|
                    0 <= i < j < fixes.len() ==> (#[trigger] fixes[i]).line >= (
                    #[trigger] fixes[j]).line
        }),
{
    let gathered = gathered_plan(lang, root, ws, output, strategies, report).plan;
    let done = planned(lang, root, ws, output, strategies, report).plan;
    let merged = merged_file(gathered.files[k].0, gathered.files[k].1);
    let n = merged.len() as int;
    let fixes = by_line(merged, n);
    law_fixes_go_from_the_bottom_up(merged, n);
    law_ordering_keeps_every_fix(merged, n);
    assert(merged.take(n) =~= merged);
    assert(done.files[k].1 == deduplicated(fixes));
}

// ---------------------------------------------------------------------
// Strategies
// ---------------------------------------------------------------------

/// The strategy of a rule is the one that the table has for it; where it has
/// none, the first label that says something decides: a removed property is
/// removed, and other changes of behaviour are left to a person; where no
/// label says anything, a language model is asked.
pub proof fn law_strategy_of_a_rule(
    rule_id: Seq<char>,
    labels: Seq<Seq<char>>,
    strategies: Seq<(Seq<char>, FixStrategyView)>,
    k: int,
)
    requires
        0 <= k <= labels.len(),
        forall|j: int| 0 <= j < k ==> !is_telling(#[trigger] labels[j]),
    ensures
        lookup(strategies, rule_id) matches Some(s) ==> strategy_for(rule_id, labels, strategies)
            == s,
        lookup(strategies, rule_id) is None ==> (if k == labels.len() {
            strategy_for(rule_id, labels, strategies) == (FixStrategyView::Llm { context: None })
        } else if labels[k] == "change-type=prop-removal"@ {
            strategy_for(rule_id, labels, strategies) == FixStrategyView::RemoveAttribute
        } else if is_telling(labels[k]) {
            strategy_for(rule_id, labels, strategies) == FixStrategyView::Manual
        } else {
            true
        }),
{
    lemma_label(labels, k, 0);
}

/// The label says what to do.
pub open spec fn is_telling(label: Seq<char>) -> bool {
    ||| label == "change-type=prop-removal"@
    ||| label == "change-type=dom-structure"@
    ||| label == "change-type=behavioral"@
    ||| label == "change-type=accessibility"@
    ||| label == "change-type=interface-removal"@
    ||| label == "change-type=module-export"@
    ||| label == "change-type=other"@
}

proof fn lemma_label(labels: Seq<Seq<char>>, k: int, i: int)
    requires
        0 <= i <= k <= labels.len(),
        forall|j: int| 0 <= j < k ==> !is_telling(#[trigger] labels[j]),
    ensures
        labels_strategy(labels, i) == labels_strategy(labels, k),
    decreases k - i,
{
    if i < k {
        assert(!is_telling(labels[i]));
        assert(label_strategy(labels[i]) is None);
        lemma_label(labels, k, i + 1);
    }
}

} // verus!
