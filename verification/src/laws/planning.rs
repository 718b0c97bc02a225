//! Planning as a whole.

use crate::engine::apply::repeated;
use crate::engine::dedup::all_edits;
use crate::engine::plan::{
    after_config, after_incident, after_incidents, after_outcome, after_outcomes, after_proactive,
    after_rule_sets, after_violations, dead_classes, gathered_plan, label_strategy,
    labels_strategy, planned, strategy_for, uri_path, with_fixes, Planning,
};
use crate::language::{LanguageFixProvider, Outcome, Outcomes};
use crate::laws::apply::law_deduplicated_edits_do_not_repeat;
use crate::model::{empty_plan, FixPlanView, FixReportView, PlannedFixView};
use crate::order::{ByText, KeyOrder};
use crate::report::{IncidentView, RuleFindingsView, ViolationView};
use crate::strategy::FixStrategyView;
use crate::table::{
    ascending, inserted, lemma_insert_then_lookup, lemma_inserted_ascending, lemma_place,
    lemma_place_of, lookup, place,
};
use crate::workspace::WorkspaceView;
use vstd::prelude::*;

verus! {

broadcast use vstd::string::group_string_axioms;

/// The second list begins with the first.
pub open spec fn grows<T>(a: Seq<T>, b: Seq<T>) -> bool {
    a.len() <= b.len() && b.take(a.len() as int) == a
}

/// Nothing that was recorded, left to a person or left to a language model
/// is lost between two states of planning.
pub open spec fn nothing_lost(a: Planning, b: Planning) -> bool {
    &&& grows(a.report.skipped, b.report.skipped)
    &&& a.report.warnings == b.report.warnings
    &&& grows(a.plan.manual, b.plan.manual)
    &&& grows(a.plan.pending_llm, b.plan.pending_llm)
}

proof fn lemma_grows<T>(a: Seq<T>, x: T)
    ensures
        grows(a, a),
        grows(a, a.push(x)),
{
    assert(a.take(a.len() as int) =~= a);
    assert(a.push(x).take(a.len() as int) =~= a);
}

proof fn lemma_grows_further<T>(a: Seq<T>, b: Seq<T>, c: Seq<T>)
    requires
        grows(a, b),
        grows(b, c),
    ensures
        grows(a, c),
{
    let n = a.len() as int;
    assert(c.take(n) =~= c.take(b.len() as int).take(n));
}

proof fn lemma_lost_nothing_further(a: Planning, b: Planning, c: Planning)
    requires
        nothing_lost(a, b),
        nothing_lost(b, c),
    ensures
        nothing_lost(a, c),
{
    lemma_grows_further(a.report.skipped, b.report.skipped, c.report.skipped);
    lemma_grows_further(a.plan.manual, b.plan.manual, c.plan.manual);
    lemma_grows_further(a.plan.pending_llm, b.plan.pending_llm, c.plan.pending_llm);
}

proof fn lemma_lost_nothing(s: Planning)
    ensures
        nothing_lost(s, s),
{
    assert(grows(s.report.skipped, s.report.skipped)) by {
        assert(s.report.skipped.take(s.report.skipped.len() as int) =~= s.report.skipped);
    }
    assert(s.plan.manual.take(s.plan.manual.len() as int) =~= s.plan.manual);
    assert(s.plan.pending_llm.take(s.plan.pending_llm.len() as int) =~= s.plan.pending_llm);
}

proof fn lemma_after_outcome(s: Planning, path: Seq<char>, o: Outcome)
    ensures
        nothing_lost(s, after_outcome(s, path, o)),
{
    lemma_lost_nothing(s);
    match o.skip {
        Some(skip) => lemma_grows(s.report.skipped, skip),
        None => {},
    }
}

proof fn lemma_with_fixes(plan: FixPlanView, root: Seq<char>, fixes: Seq<PlannedFixView>, n: int)
    ensures
        with_fixes(plan, root, fixes, n).manual == plan.manual,
        with_fixes(plan, root, fixes, n).pending_llm == plan.pending_llm,
    decreases n,
{
    if n > 0 {
        lemma_with_fixes(plan, root, fixes, n - 1);
    }
}

proof fn lemma_after_outcomes(s: Planning, root: Seq<char>, o: Outcomes)
    ensures
        nothing_lost(s, after_outcomes(s, root, o)),
{
    lemma_lost_nothing(s);
    lemma_with_fixes(s.plan, root, o.fixes, o.fixes.len() as int);
    match o.skip {
        Some(skip) => lemma_grows(s.report.skipped, skip),
        None => {},
    }
}

/// Planning for an incident loses nothing that was there before.
pub proof fn law_an_incident_only_adds<L: LanguageFixProvider>(
    lang: &L,
    root: Seq<char>,
    ws: WorkspaceView,
    dead: Seq<Seq<char>>,
    rule_id: Seq<char>,
    labels: Seq<Seq<char>>,
    strategy: FixStrategyView,
    incident: IncidentView,
    s: Planning,
)
    ensures
        nothing_lost(
            s,
            after_incident(lang, root, ws, dead, rule_id, labels, strategy, incident, s),
        ),
{
    let after = after_incident(lang, root, ws, dead, rule_id, labels, strategy, incident, s);
    let path = uri_path(incident.file_uri, root);
    lemma_lost_nothing(s);
    if after.plan.manual.len() > s.plan.manual.len() {
        lemma_grows(s.plan.manual, after.plan.manual.last());
    }
    if after.plan.pending_llm.len() > s.plan.pending_llm.len() {
        lemma_grows(s.plan.pending_llm, after.plan.pending_llm.last());
    }
    if !lang.skips(path) {
        match strategy {
            FixStrategyView::Rename(mappings) => {
                lemma_after_outcome(
                    s,
                    path,
                    crate::engine::plan::widened(
                        crate::engine::rename::planned_rename(
                            lang,
                            rule_id,
                            incident,
                            mappings,
                            path,
                            ws,
                        ),
                        crate::report::has_var(incident, "importedName"@),
                    ),
                );
            },
            FixStrategyView::RemoveAttribute => {
                lemma_after_outcome(s, path, lang.removal(rule_id, incident, path, ws));
            },
            FixStrategyView::ImportPathChange { old_path, new_path } => {
                lemma_after_outcome(
                    s,
                    path,
                    crate::engine::import_path::planned_import_path(
                        rule_id,
                        incident,
                        old_path,
                        new_path,
                        path,
                        ws,
                    ),
                );
            },
            FixStrategyView::JavaImportRename { old_fqn, new_fqn } => {
                lemma_after_outcome(
                    s,
                    path,
                    lang.import_rename(rule_id, incident, old_fqn, new_fqn, path, ws),
                );
            },
            FixStrategyView::CssVariablePrefix { old_prefix, new_prefix, exclude_patterns } => {
                let mappings = seq![
                    crate::model::RenameMappingView { old: old_prefix, new: new_prefix },
                ];
                lemma_after_outcome(
                    s,
                    path,
                    crate::engine::plan::widened(
                        crate::engine::rename::planned_rename(
                            lang,
                            rule_id,
                            incident,
                            mappings,
                            path,
                            ws,
                        ),
                        true,
                    ),
                );
            },
            FixStrategyView::EnsureDependency { package, new_version, old_package } => {
                lemma_after_outcomes(
                    s,
                    root,
                    lang.dependency(rule_id, incident, package, new_version, path, ws),
                );
            },
            FixStrategyView::Manual => {},
            FixStrategyView::Llm { context } => {},
        }
    }
}

/// An incident that is left to a person is one more item for a person, with
/// the message of the analysis.
pub proof fn law_manual_incidents_reach_a_person<L: LanguageFixProvider>(
    lang: &L,
    root: Seq<char>,
    ws: WorkspaceView,
    dead: Seq<Seq<char>>,
    rule_id: Seq<char>,
    labels: Seq<Seq<char>>,
    incident: IncidentView,
    s: Planning,
)
    requires
        !lang.skips(uri_path(incident.file_uri, root)),
    ensures
        ({
            let after = after_incident(
                lang,
                root,
                ws,
                dead,
                rule_id,
                labels,
                FixStrategyView::Manual,
                incident,
                s,
            );
            &&& after.plan.manual.len() == s.plan.manual.len() + 1
            &&& after.plan.manual.last().rule_id == rule_id
            &&& after.plan.manual.last().message == incident.message
            &&& after.plan.files == s.plan.files
        }),
{
}

/// An incident for a language model becomes one request or one item for a
/// person, never both and never neither.
pub proof fn law_model_incidents_are_not_lost<L: LanguageFixProvider>(
    lang: &L,
    root: Seq<char>,
    ws: WorkspaceView,
    dead: Seq<Seq<char>>,
    rule_id: Seq<char>,
    labels: Seq<Seq<char>>,
    context: Option<Seq<char>>,
    incident: IncidentView,
    s: Planning,
)
    requires
        !lang.skips(uri_path(incident.file_uri, root)),
    ensures
        ({
            let after = after_incident(
                lang,
                root,
                ws,
                dead,
                rule_id,
                labels,
                FixStrategyView::Llm { context },
                incident,
                s,
            );
            &&& after.plan.manual.len() + after.plan.pending_llm.len() == s.plan.manual.len()
                + s.plan.pending_llm.len() + 1
            &&& after.plan.files == s.plan.files
        }),
{
}

/// An incident in a path that the language leaves alone changes nothing.
pub proof fn law_skipped_paths_change_nothing<L: LanguageFixProvider>(
    lang: &L,
    root: Seq<char>,
    ws: WorkspaceView,
    dead: Seq<Seq<char>>,
    rule_id: Seq<char>,
    labels: Seq<Seq<char>>,
    strategy: FixStrategyView,
    incident: IncidentView,
    s: Planning,
)
    requires
        lang.skips(uri_path(incident.file_uri, root)),
    ensures
        after_incident(lang, root, ws, dead, rule_id, labels, strategy, incident, s) == s,
{
}

proof fn lemma_incidents<L: LanguageFixProvider>(
    lang: &L,
    root: Seq<char>,
    ws: WorkspaceView,
    dead: Seq<Seq<char>>,
    rule_id: Seq<char>,
    labels: Seq<Seq<char>>,
    strategy: FixStrategyView,
    incidents: Seq<IncidentView>,
    n: int,
    s: Planning,
)
    ensures
        nothing_lost(
            s,
            after_incidents(lang, root, ws, dead, rule_id, labels, strategy, incidents, n, s),
        ),
    decreases n,
{
    lemma_lost_nothing(s);
    if n > 0 {
        lemma_incidents(lang, root, ws, dead, rule_id, labels, strategy, incidents, n - 1, s);
        let before = after_incidents(
            lang,
            root,
            ws,
            dead,
            rule_id,
            labels,
            strategy,
            incidents,
            n - 1,
            s,
        );
        law_an_incident_only_adds(
            lang,
            root,
            ws,
            dead,
            rule_id,
            labels,
            strategy,
            incidents[n - 1],
            before,
        );
        lemma_lost_nothing_further(
            s,
            before,
            after_incidents(lang, root, ws, dead, rule_id, labels, strategy, incidents, n, s),
        );
    }
}

proof fn lemma_violations<L: LanguageFixProvider>(
    lang: &L,
    root: Seq<char>,
    ws: WorkspaceView,
    dead: Seq<Seq<char>>,
    strategies: Seq<(Seq<char>, FixStrategyView)>,
    violations: Seq<(Seq<char>, ViolationView)>,
    n: int,
    s: Planning,
)
    ensures
        nothing_lost(s, after_violations(lang, root, ws, dead, strategies, violations, n, s)),
    decreases n,
{
    lemma_lost_nothing(s);
    if n > 0 {
        lemma_violations(lang, root, ws, dead, strategies, violations, n - 1, s);
        let before = after_violations(lang, root, ws, dead, strategies, violations, n - 1, s);
        let rule_id = violations[n - 1].0;
        let v = violations[n - 1].1;
        lemma_incidents(
            lang,
            root,
            ws,
            dead,
            rule_id,
            v.labels,
            crate::engine::plan::strategy_for(rule_id, v.labels, strategies),
            v.incidents,
            v.incidents.len() as int,
            before,
        );
        lemma_lost_nothing_further(
            s,
            before,
            after_violations(lang, root, ws, dead, strategies, violations, n, s),
        );
    }
}

proof fn lemma_rule_sets<L: LanguageFixProvider>(
    lang: &L,
    root: Seq<char>,
    ws: WorkspaceView,
    dead: Seq<Seq<char>>,
    strategies: Seq<(Seq<char>, FixStrategyView)>,
    output: Seq<RuleFindingsView>,
    n: int,
    s: Planning,
)
    ensures
        nothing_lost(s, after_rule_sets(lang, root, ws, dead, strategies, output, n, s)),
    decreases n,
{
    lemma_lost_nothing(s);
    if n > 0 {
        lemma_rule_sets(lang, root, ws, dead, strategies, output, n - 1, s);
        let before = after_rule_sets(lang, root, ws, dead, strategies, output, n - 1, s);
        let v = output[n - 1].violations;
        lemma_violations(lang, root, ws, dead, strategies, v, v.len() as int, before);
        lemma_lost_nothing_further(
            s,
            before,
            after_rule_sets(lang, root, ws, dead, strategies, output, n, s),
        );
    }
}

proof fn lemma_proactive<L: LanguageFixProvider>(
    lang: &L,
    root: Seq<char>,
    ws: WorkspaceView,
    output: Seq<RuleFindingsView>,
    strategies: Seq<(Seq<char>, FixStrategyView)>,
    n: int,
    s: Planning,
)
    ensures
        nothing_lost(s, after_proactive(lang, root, ws, output, strategies, n, s)),
    decreases n,
{
    lemma_lost_nothing(s);
    if n > 0 {
        lemma_proactive(lang, root, ws, output, strategies, n - 1, s);
        let before = after_proactive(lang, root, ws, output, strategies, n - 1, s);
        let rule_id = strategies[n - 1].0;
        lemma_lost_nothing(before);
        match strategies[n - 1].1 {
            FixStrategyView::EnsureDependency { package, new_version, old_package } => {
                match old_package {
                    Some(old_name) => {
                        lemma_after_outcomes(
                            before,
                            root,
                            lang.proactive(rule_id, old_name, package, new_version, root, ws),
                        );
                    },
                    None => {},
                }
            },
            _ => {},
        }
        lemma_lost_nothing_further(
            s,
            before,
            after_proactive(lang, root, ws, output, strategies, n, s),
        );
    }
}

proof fn lemma_config<L: LanguageFixProvider>(
    lang: &L,
    root: Seq<char>,
    ws: WorkspaceView,
    strategies: Seq<(Seq<char>, FixStrategyView)>,
    n: int,
    s: Planning,
)
    ensures
        nothing_lost(s, after_config(lang, root, ws, strategies, n, s)),
    decreases n,
{
    lemma_lost_nothing(s);
    if n > 0 {
        lemma_config(lang, root, ws, strategies, n - 1, s);
        let before = after_config(lang, root, ws, strategies, n - 1, s);
        lemma_lost_nothing(before);
        match strategies[n - 1].1 {
            FixStrategyView::JavaImportRename { old_fqn, new_fqn } => {
                lemma_after_outcomes(
                    before,
                    root,
                    lang.config_renames(strategies[n - 1].0, old_fqn, new_fqn, root, ws),
                );
            },
            _ => {},
        }
        lemma_lost_nothing_further(s, before, after_config(lang, root, ws, strategies, n, s));
    }
}

/// Planning only adds to the report: what was recorded before stays, in its
/// order.
pub proof fn law_planning_only_adds_to_the_report<L: LanguageFixProvider>(
    lang: &L,
    root: Seq<char>,
    ws: WorkspaceView,
    output: Seq<RuleFindingsView>,
    strategies: Seq<(Seq<char>, FixStrategyView)>,
    report: FixReportView,
)
    ensures
        grows(
            report.skipped,
            planned(lang, root, ws, output, strategies, report).report.skipped,
        ),
        planned(lang, root, ws, output, strategies, report).report.warnings == report.warnings,
{
    let n = strategies.len() as int;
    let dead = dead_classes(output);
    let start = Planning { plan: empty_plan(), report };
    let all = output.len() as int;
    let matched = after_rule_sets(lang, root, ws, dead, strategies, output, all, start);
    let proactive = after_proactive(lang, root, ws, output, strategies, n, matched);
    lemma_rule_sets(lang, root, ws, dead, strategies, output, all, start);
    lemma_proactive(lang, root, ws, output, strategies, n, matched);
    lemma_config(lang, root, ws, strategies, n, proactive);
    lemma_lost_nothing_further(start, matched, proactive);
    lemma_lost_nothing_further(
        start,
        proactive,
        after_config(lang, root, ws, strategies, n, proactive),
    );
}

/// A plan has no edit that repeats another one of the same file.
pub proof fn law_planned_edits_do_not_repeat<L: LanguageFixProvider>(
    lang: &L,
    root: Seq<char>,
    ws: WorkspaceView,
    output: Seq<RuleFindingsView>,
    strategies: Seq<(Seq<char>, FixStrategyView)>,
    report: FixReportView,
    f: int,
    i: int,
)
    requires
        0 <= f < planned(lang, root, ws, output, strategies, report).plan.files.len(),
        ({
            let fixes = planned(lang, root, ws, output, strategies, report).plan.files[f].1;
            0 <= i < all_edits(fixes, fixes.len() as int).len()
        }),
    ensures
        ({
            let fixes = planned(lang, root, ws, output, strategies, report).plan.files[f].1;
            !repeated(all_edits(fixes, fixes.len() as int), i)
        }),
{
    let s = gathered_plan(lang, root, ws, output, strategies, report);
    let ordered = crate::engine::merge::ordered_plan(crate::engine::merge::merged_plan(s.plan));
    law_deduplicated_edits_do_not_repeat(ordered.files[f].1, i);
}

/// Without incidents and without strategies there is nothing to do.
pub proof fn law_nothing_to_do<L: LanguageFixProvider>(
    lang: &L,
    root: Seq<char>,
    ws: WorkspaceView,
    report: FixReportView,
)
    ensures
        ({
            let p = planned(lang, root, ws, Seq::empty(), Seq::empty(), report);
            &&& p.plan.files.len() == 0
            &&& p.plan.manual.len() == 0
            &&& p.plan.pending_llm.len() == 0
            &&& p.plan.edits_subsumed == 0
            &&& p.report == report
        }),
{
}

// ---------------------------------------------------------------------
// Completing the strategies
// ---------------------------------------------------------------------

/// The strategy for a rule that has none: the one that its labels suggest,
/// or a language model.
pub open spec fn fallback_strategy(labels: Seq<Seq<char>>) -> FixStrategyView {
    match labels_strategy(labels, 0) {
        Some(s) => s,
        None => FixStrategyView::Llm { context: None },
    }
}

/// The strategies, with the one to fall back to for each of the first `n`
/// violated rules of a rule set that has none.
pub open spec fn completed_in_set(
    strategies: Seq<(Seq<char>, FixStrategyView)>,
    violations: Seq<(Seq<char>, ViolationView)>,
    n: int,
) -> Seq<(Seq<char>, FixStrategyView)>
    decreases n,
{
    if n <= 0 {
        strategies
    } else {
        let before = completed_in_set(strategies, violations, n - 1);
        let rule_id = violations[n - 1].0;
        match lookup(before, rule_id) {
            Some(_) => before,
            None => inserted::<ByText, FixStrategyView>(
                before,
                rule_id,
                fallback_strategy(violations[n - 1].1.labels),
            ),
        }
    }
}

/// The strategies, with the one to fall back to for each violated rule of
/// the first `n` rule sets that has none.
pub open spec fn completed(
    strategies: Seq<(Seq<char>, FixStrategyView)>,
    output: Seq<RuleFindingsView>,
    n: int,
) -> Seq<(Seq<char>, FixStrategyView)>
    decreases n,
{
    if n <= 0 {
        strategies
    } else {
        completed_in_set(
            completed(strategies, output, n - 1),
            output[n - 1].violations,
            output[n - 1].violations.len() as int,
        )
    }
}

/// Wherever a rule is violated, it has the same labels.
pub open spec fn labels_agree(output: Seq<RuleFindingsView>) -> bool {
    forall|a: int, i: int, b: int, j: int|
        0 <= a < output.len() && 0 <= i < output[a].violations.len() && 0 <= b < output.len() && 0
            <= j < output[b].violations.len() && (#[trigger] output[a].violations[i]).0 == (
        #[trigger] output[b].violations[j]).0 ==> output[a].violations[i].1.labels
            == output[b].violations[j].1.labels
}

/// Where each rule is in one rule set only, its labels agree.
pub proof fn law_rules_in_one_set_have_one_list_of_labels(output: Seq<RuleFindingsView>)
    requires
        forall|a: int|
            0 <= a < output.len() ==> ascending::<ByText, ViolationView>(
                (#[trigger] output[a]).violations,
            ),
        forall|a: int, i: int, b: int, j: int|
            0 <= a < b < output.len() && 0 <= i < output[a].violations.len() && 0 <= j
                < output[b].violations.len() ==> (#[trigger] output[a].violations[i]).0 != (
            #[trigger] output[b].violations[j]).0,
    ensures
        labels_agree(output),
{
    assert forall|a: int, i: int, b: int, j: int|
        0 <= a < output.len() && 0 <= i < output[a].violations.len() && 0 <= b < output.len() && 0
            <= j < output[b].violations.len() && (#[trigger] output[a].violations[i]).0 == (
        #[trigger] output[b].violations[j]).0 implies output[a].violations[i].1.labels
        == output[b].violations[j].1.labels by {
        assert(a == b);
        let v = output[a].violations;
        ByText::order_laws(v[i].0, v[j].0, v[j].0);
        ByText::order_laws(v[j].0, v[i].0, v[i].0);
        assert(i == j);
    }
}

/// The strategies in `now` give every violated rule what those in `before`
/// give it.
spec fn same_strategies(
    before: Seq<(Seq<char>, FixStrategyView)>,
    now: Seq<(Seq<char>, FixStrategyView)>,
    output: Seq<RuleFindingsView>,
) -> bool {
    forall|a: int, i: int|
        0 <= a < output.len() && 0 <= i < output[a].violations.len() ==> strategy_for(
            (#[trigger] output[a].violations[i]).0,
            output[a].violations[i].1.labels,
            now,
        ) == strategy_for(
            output[a].violations[i].0,
            output[a].violations[i].1.labels,
            before,
        )
}

/// The strategy only concerns incidents.
spec fn only_for_incidents(s: FixStrategyView) -> bool {
    !(s is EnsureDependency) && !(s is JavaImportRename)
}

proof fn lemma_fallback_only_for_incidents(labels: Seq<Seq<char>>, i: int)
    ensures
        labels_strategy(labels, i) matches Some(s) ==> only_for_incidents(s),
    decreases labels.len() - i,
{
    if 0 <= i < labels.len() && label_strategy(labels[i]) is None {
        lemma_fallback_only_for_incidents(labels, i + 1);
    }
}

proof fn lemma_proactive_skips<L: LanguageFixProvider>(
    lang: &L,
    root: Seq<char>,
    ws: WorkspaceView,
    output: Seq<RuleFindingsView>,
    m: Seq<(Seq<char>, FixStrategyView)>,
    p: int,
    e: (Seq<char>, FixStrategyView),
    n: int,
    s: Planning,
)
    requires
        0 <= p <= m.len(),
        0 <= n <= m.len(),
        only_for_incidents(e.1),
    ensures
        n <= p ==> after_proactive(lang, root, ws, output, m.insert(p, e), n, s)
            == after_proactive(lang, root, ws, output, m, n, s),
        n >= p ==> after_proactive(lang, root, ws, output, m.insert(p, e), n + 1, s)
            == after_proactive(lang, root, ws, output, m, n, s),
    decreases n,
{
    let now = m.insert(p, e);
    if n > 0 {
        lemma_proactive_skips(lang, root, ws, output, m, p, e, n - 1, s);
        if n <= p {
            assert(now[n - 1] == m[n - 1]);
        }
        if n > p {
            assert(now[n] == m[n - 1]);
        }
    }
    if n == p {
        assert(now[n] == e);
        assert(after_proactive(lang, root, ws, output, now, n, s) == after_proactive(
            lang,
            root,
            ws,
            output,
            m,
            n,
            s,
        ));
        reveal_with_fuel(after_proactive, 2);
    }
}

proof fn lemma_config_skips<L: LanguageFixProvider>(
    lang: &L,
    root: Seq<char>,
    ws: WorkspaceView,
    m: Seq<(Seq<char>, FixStrategyView)>,
    p: int,
    e: (Seq<char>, FixStrategyView),
    n: int,
    s: Planning,
)
    requires
        0 <= p <= m.len(),
        0 <= n <= m.len(),
        only_for_incidents(e.1),
    ensures
        n <= p ==> after_config(lang, root, ws, m.insert(p, e), n, s) == after_config(
            lang,
            root,
            ws,
            m,
            n,
            s,
        ),
        n >= p ==> after_config(lang, root, ws, m.insert(p, e), n + 1, s) == after_config(
            lang,
            root,
            ws,
            m,
            n,
            s,
        ),
    decreases n,
{
    let now = m.insert(p, e);
    if n > 0 {
        lemma_config_skips(lang, root, ws, m, p, e, n - 1, s);
        if n <= p {
            assert(now[n - 1] == m[n - 1]);
        }
        if n > p {
            assert(now[n] == m[n - 1]);
        }
    }
    if n == p {
        assert(now[n] == e);
        assert(after_config(lang, root, ws, now, n, s) == after_config(lang, root, ws, m, n, s));
        reveal_with_fuel(after_config, 2);
    }
}

/// Two tables of strategies give the same in all that does not come from
/// incidents.
spec fn same_beside_incidents<L: LanguageFixProvider>(
    lang: &L,
    root: Seq<char>,
    ws: WorkspaceView,
    output: Seq<RuleFindingsView>,
    before: Seq<(Seq<char>, FixStrategyView)>,
    now: Seq<(Seq<char>, FixStrategyView)>,
) -> bool {
    &&& forall|s: Planning| #[trigger]
        after_proactive(lang, root, ws, output, now, now.len() as int, s) == after_proactive(
            lang,
            root,
            ws,
            output,
            before,
            before.len() as int,
            s,
        )
    &&& forall|s: Planning| #[trigger]
        after_config(lang, root, ws, now, now.len() as int, s) == after_config(
            lang,
            root,
            ws,
            before,
            before.len() as int,
            s,
        )
}

proof fn lemma_one_more<L: LanguageFixProvider>(
    lang: &L,
    root: Seq<char>,
    ws: WorkspaceView,
    output: Seq<RuleFindingsView>,
    m: Seq<(Seq<char>, FixStrategyView)>,
    a: int,
    i: int,
)
    requires
        ascending::<ByText, FixStrategyView>(m),
        labels_agree(output),
        0 <= a < output.len(),
        0 <= i < output[a].violations.len(),
        lookup(m, output[a].violations[i].0) is None,
    ensures
        ({
            let v = output[a].violations[i];
            let now = inserted::<ByText, FixStrategyView>(m, v.0, fallback_strategy(v.1.labels));
            &&& ascending::<ByText, FixStrategyView>(now)
            &&& same_strategies(m, now, output)
            &&& same_beside_incidents(lang, root, ws, output, m, now)
        }),
{
    let v = output[a].violations[i];
    let value = fallback_strategy(v.1.labels);
    let now = inserted::<ByText, FixStrategyView>(m, v.0, value);
    let p = place::<ByText, FixStrategyView>(m, v.0, 0);
    lemma_inserted_ascending::<ByText, FixStrategyView>(m, v.0, value);
    lemma_place::<ByText, FixStrategyView>(m, v.0, 0);
    lemma_place_of::<ByText, FixStrategyView>(m, v.0, 0);
    lemma_fallback_only_for_incidents(v.1.labels, 0);
    assert(now == m.insert(p, (v.0, value)));
    assert forall|b: int, j: int|
        0 <= b < output.len() && 0 <= j < output[b].violations.len() implies strategy_for(
        (#[trigger] output[b].violations[j]).0,
        output[b].violations[j].1.labels,
        now,
    ) == strategy_for(output[b].violations[j].0, output[b].violations[j].1.labels, m) by {
        let w = output[b].violations[j];
        lemma_insert_then_lookup::<ByText, FixStrategyView>(m, v.0, value, w.0);
        if w.0 == v.0 {
            assert(output[a].violations[i].1.labels == output[b].violations[j].1.labels);
        }
    }
    assert forall|s: Planning| #[trigger]
        after_proactive(lang, root, ws, output, now, now.len() as int, s) == after_proactive(
            lang,
            root,
            ws,
            output,
            m,
            m.len() as int,
            s,
        ) by {
        lemma_proactive_skips(lang, root, ws, output, m, p, (v.0, value), m.len() as int, s);
    }
    assert forall|s: Planning| #[trigger]
        after_config(lang, root, ws, now, now.len() as int, s) == after_config(
            lang,
            root,
            ws,
            m,
            m.len() as int,
            s,
        ) by {
        lemma_config_skips(lang, root, ws, m, p, (v.0, value), m.len() as int, s);
    }
}

proof fn lemma_completed_in_set<L: LanguageFixProvider>(
    lang: &L,
    root: Seq<char>,
    ws: WorkspaceView,
    output: Seq<RuleFindingsView>,
    m: Seq<(Seq<char>, FixStrategyView)>,
    a: int,
    n: int,
)
    requires
        ascending::<ByText, FixStrategyView>(m),
        labels_agree(output),
        0 <= a < output.len(),
        0 <= n <= output[a].violations.len(),
    ensures
        ({
            let now = completed_in_set(m, output[a].violations, n);
            &&& ascending::<ByText, FixStrategyView>(now)
            &&& same_strategies(m, now, output)
            &&& same_beside_incidents(lang, root, ws, output, m, now)
        }),
    decreases n,
{
    if n > 0 {
        lemma_completed_in_set(lang, root, ws, output, m, a, n - 1);
        let before = completed_in_set(m, output[a].violations, n - 1);
        if lookup(before, output[a].violations[n - 1].0) is None {
            lemma_one_more(lang, root, ws, output, before, a, n - 1);
        }
    }
}

proof fn lemma_completed<L: LanguageFixProvider>(
    lang: &L,
    root: Seq<char>,
    ws: WorkspaceView,
    output: Seq<RuleFindingsView>,
    m: Seq<(Seq<char>, FixStrategyView)>,
    n: int,
)
    requires
        ascending::<ByText, FixStrategyView>(m),
        labels_agree(output),
        0 <= n <= output.len(),
    ensures
        ({
            let now = completed(m, output, n);
            &&& ascending::<ByText, FixStrategyView>(now)
            &&& same_strategies(m, now, output)
            &&& same_beside_incidents(lang, root, ws, output, m, now)
        }),
    decreases n,
{
    if n > 0 {
        lemma_completed(lang, root, ws, output, m, n - 1);
        lemma_completed_in_set(
            lang,
            root,
            ws,
            output,
            completed(m, output, n - 1),
            n - 1,
            output[n - 1].violations.len() as int,
        );
    }
}

proof fn lemma_same_violations<L: LanguageFixProvider>(
    lang: &L,
    root: Seq<char>,
    ws: WorkspaceView,
    dead: Seq<Seq<char>>,
    before: Seq<(Seq<char>, FixStrategyView)>,
    now: Seq<(Seq<char>, FixStrategyView)>,
    output: Seq<RuleFindingsView>,
    a: int,
    n: int,
    s: Planning,
)
    requires
        same_strategies(before, now, output),
        0 <= a < output.len(),
        0 <= n <= output[a].violations.len(),
    ensures
        after_violations(lang, root, ws, dead, now, output[a].violations, n, s)
            == after_violations(lang, root, ws, dead, before, output[a].violations, n, s),
    decreases n,
{
    if n > 0 {
        lemma_same_violations(lang, root, ws, dead, before, now, output, a, n - 1, s);
        let v = output[a].violations[n - 1];
        assert(strategy_for(v.0, v.1.labels, now) == strategy_for(v.0, v.1.labels, before));
    }
}

proof fn lemma_same_rule_sets<L: LanguageFixProvider>(
    lang: &L,
    root: Seq<char>,
    ws: WorkspaceView,
    dead: Seq<Seq<char>>,
    before: Seq<(Seq<char>, FixStrategyView)>,
    now: Seq<(Seq<char>, FixStrategyView)>,
    output: Seq<RuleFindingsView>,
    n: int,
    s: Planning,
)
    requires
        same_strategies(before, now, output),
        0 <= n <= output.len(),
    ensures
        after_rule_sets(lang, root, ws, dead, now, output, n, s) == after_rule_sets(
            lang,
            root,
            ws,
            dead,
            before,
            output,
            n,
            s,
        ),
    decreases n,
{
    if n > 0 {
        lemma_same_rule_sets(lang, root, ws, dead, before, now, output, n - 1, s);
        lemma_same_violations(
            lang,
            root,
            ws,
            dead,
            before,
            now,
            output,
            n - 1,
            output[n - 1].violations.len() as int,
            after_rule_sets(lang, root, ws, dead, before, output, n - 1, s),
        );
    }
}

/// A strategy is looked up in the table first, then inferred from the
/// labels, and falls back to a language model: completing the table with
/// what the violated rules without a strategy fall back to changes neither
/// the plan nor the report.
pub proof fn law_completing_the_strategies_changes_nothing<L: LanguageFixProvider>(
    lang: &L,
    root: Seq<char>,
    ws: WorkspaceView,
    output: Seq<RuleFindingsView>,
    strategies: Seq<(Seq<char>, FixStrategyView)>,
    report: FixReportView,
)
    requires
        ascending::<ByText, FixStrategyView>(strategies),
        labels_agree(output),
    ensures
        planned(
            lang,
            root,
            ws,
            output,
            completed(strategies, output, output.len() as int),
            report,
        ) == planned(lang, root, ws, output, strategies, report),
{
    let now = completed(strategies, output, output.len() as int);
    lemma_completed(lang, root, ws, output, strategies, output.len() as int);
    let start = Planning { plan: empty_plan(), report };
    lemma_same_rule_sets(
        lang,
        root,
        ws,
        dead_classes(output),
        strategies,
        now,
        output,
        output.len() as int,
        start,
    );
}

proof fn lemma_in_completed_set(
    m: Seq<(Seq<char>, FixStrategyView)>,
    violations: Seq<(Seq<char>, ViolationView)>,
    n: int,
    k: Seq<char>,
)
    requires
        ascending::<ByText, FixStrategyView>(m),
    ensures
        ascending::<ByText, FixStrategyView>(completed_in_set(m, violations, n)),
        lookup(m, k) is Some ==> lookup(completed_in_set(m, violations, n), k) == lookup(m, k),
        forall|i: int|
            0 <= i < n && (#[trigger] violations[i]).0 == k ==> lookup(
                completed_in_set(m, violations, n),
                k,
            ) is Some,
    decreases n,
{
    if n > 0 {
        lemma_in_completed_set(m, violations, n - 1, k);
        let before = completed_in_set(m, violations, n - 1);
        let v = violations[n - 1];
        if lookup(before, v.0) is None {
            let value = fallback_strategy(v.1.labels);
            lemma_inserted_ascending::<ByText, FixStrategyView>(before, v.0, value);
            lemma_insert_then_lookup::<ByText, FixStrategyView>(before, v.0, value, k);
        }
    }
}

/// A completed table has a strategy for each violated rule, and those that
/// it had are as they were: an entry in the table wins over the labels.
pub proof fn law_completed_strategies_keep_the_known_ones(
    strategies: Seq<(Seq<char>, FixStrategyView)>,
    output: Seq<RuleFindingsView>,
    n: int,
    k: Seq<char>,
)
    requires
        ascending::<ByText, FixStrategyView>(strategies),
        0 <= n <= output.len(),
    ensures
        ascending::<ByText, FixStrategyView>(completed(strategies, output, n)),
        lookup(strategies, k) is Some ==> lookup(completed(strategies, output, n), k) == lookup(
            strategies,
            k,
        ),
        forall|a: int, i: int|
            0 <= a < n && 0 <= i < output[a].violations.len() && (
            #[trigger] output[a].violations[i]).0 == k ==> lookup(
                completed(strategies, output, n),
                k,
            ) is Some,
    decreases n,
{
    if n > 0 {
        law_completed_strategies_keep_the_known_ones(strategies, output, n - 1, k);
        lemma_in_completed_set(
            completed(strategies, output, n - 1),
            output[n - 1].violations,
            output[n - 1].violations.len() as int,
            k,
        );
    }
}

} // verus!
