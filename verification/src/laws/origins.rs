//! Where the items and requests of a plan come from, what they tell, and what
//! the languages decide.

use crate::engine::plan::{
    after_config, after_incident, after_incidents, after_outcomes, after_proactive, after_rule_sets,
    after_violations, dead_classes, enriched_message, gathered_plan, moved_import_message,
    strategy_for, uri_path, value_words, variable_lines, with_fixes, Planning,
};
use crate::java::provider::JavaFixProvider;
use crate::js::provider::JsFixProvider;
use crate::json::{json_string, json_text, JsonView};
use crate::language::{LanguageFixProvider, Outcomes};
use crate::laws::changes::lemma_inside;
use crate::laws::incidents::{is_item_for, is_request_for};
use crate::model::{
    empty_plan, FixPlanView, FixReportView, LlmFixRequestView, ManualFixItemView, PlannedFixView,
};
use crate::paths::components;
use crate::report::{has_var, text_var, IncidentView, RuleFindingsView};
use crate::strategy::FixStrategyView;
use crate::text::{has_text, lemma_has_text_reflexive};
use crate::workspace::WorkspaceView;
use vstd::prelude::*;

verus! {

broadcast use vstd::string::group_string_axioms;

// ---------------------------------------------------------------------
// Items and requests come from incidents
// ---------------------------------------------------------------------

/// What is new in a plan is about the incident.
spec fn adds_only<L: LanguageFixProvider>(
    lang: &L,
    root: Seq<char>,
    ws: WorkspaceView,
    rule_id: Seq<char>,
    incident: IncidentView,
    a: Planning,
    b: Planning,
) -> bool {
    let path = uri_path(incident.file_uri, root);
    &&& forall|x: ManualFixItemView| #[trigger]
        b.plan.manual.contains(x) ==> a.plan.manual.contains(x) || is_item_for(
            x,
            rule_id,
            incident,
        )
    &&& forall|x: LlmFixRequestView| #[trigger]
        b.plan.pending_llm.contains(x) ==> a.plan.pending_llm.contains(x) || is_request_for(
            x,
            rule_id,
            incident,
            path,
            lang.companions(path, ws),
        )
    &&& lang.skips(path) ==> a == b
}

proof fn lemma_push_from<T>(s: Seq<T>, x: T, y: T)
    ensures
        s.push(x).contains(y) ==> s.contains(y) || y == x,
{
    if s.push(x).contains(y) {
        let j = choose|j: int| 0 <= j < s.push(x).len() && s.push(x)[j] == y;
        if j < s.len() {
            assert(s[j] == y);
        }
    }
}

proof fn lemma_with_fixes(plan: FixPlanView, root: Seq<char>, fixes: Seq<PlannedFixView>, n: int)
    ensures
        with_fixes(plan, root, fixes, n).manual == plan.manual,
        with_fixes(plan, root, fixes, n).pending_llm == plan.pending_llm,
    decreases n,
{
    if n > 0 {
        lemma_with_fixes(plan, root, fixes, n - 1);
    }
}

proof fn lemma_outcomes(s: Planning, root: Seq<char>, o: Outcomes)
    ensures
        after_outcomes(s, root, o).plan.manual == s.plan.manual,
        after_outcomes(s, root, o).plan.pending_llm == s.plan.pending_llm,
{
    lemma_with_fixes(s.plan, root, o.fixes, o.fixes.len() as int);
}

proof fn lemma_incident<L: LanguageFixProvider>(
    lang: &L,
    root: Seq<char>,
    ws: WorkspaceView,
    dead: Seq<Seq<char>>,
    rule_id: Seq<char>,
    labels: Seq<Seq<char>>,
    strategy: FixStrategyView,
    incident: IncidentView,
    s: Planning,
)
    ensures
        adds_only(
            lang,
            root,
            ws,
            rule_id,
            incident,
            s,
            after_incident(lang, root, ws, dead, rule_id, labels, strategy, incident, s),
        ),
{
    let path = uri_path(incident.file_uri, root);
    let after = after_incident(lang, root, ws, dead, rule_id, labels, strategy, incident, s);
    match strategy {
        FixStrategyView::EnsureDependency { package, new_version, old_package } => {
            lemma_outcomes(
                s,
                root,
                lang.dependency(rule_id, incident, package, new_version, path, ws),
            );
        },
        _ => {},
    }
    assert forall|x: ManualFixItemView| #[trigger] after.plan.manual.contains(x) implies
        s.plan.manual.contains(x) || is_item_for(x, rule_id, incident) by {
        if after.plan.manual.len() > s.plan.manual.len() {
            lemma_push_from(s.plan.manual, after.plan.manual.last(), x);
        }
    }
    assert forall|x: LlmFixRequestView| #[trigger] after.plan.pending_llm.contains(x) implies
        s.plan.pending_llm.contains(x) || is_request_for(
        x,
        rule_id,
        incident,
        path,
        lang.companions(path, ws),
    ) by {
        if after.plan.pending_llm.len() > s.plan.pending_llm.len() {
            lemma_push_from(s.plan.pending_llm, after.plan.pending_llm.last(), x);
        }
    }
}

/// The item is about an incident of the first `n` rule sets.
pub open spec fn item_has_incident(
    output: Seq<RuleFindingsView>,
    n: int,
    x: ManualFixItemView,
) -> bool {
    exists|a: int, i: int, j: int|
        0 <= a < n && 0 <= i < output[a].violations.len() && 0 <= j
            < output[a].violations[i].1.incidents.len() && is_item_for(
            x,
            output[a].violations[i].0,
            #[trigger] output[a].violations[i].1.incidents[j],
        )
}

/// The request is about an incident of the first `n` rule sets.
pub open spec fn request_has_incident<L: LanguageFixProvider>(
    lang: &L,
    root: Seq<char>,
    ws: WorkspaceView,
    output: Seq<RuleFindingsView>,
    n: int,
    x: LlmFixRequestView,
) -> bool {
    exists|a: int, i: int, j: int|
        0 <= a < n && 0 <= i < output[a].violations.len() && 0 <= j
            < output[a].violations[i].1.incidents.len() && is_request_for(
            x,
            output[a].violations[i].0,
            #[trigger] output[a].violations[i].1.incidents[j],
            uri_path(output[a].violations[i].1.incidents[j].file_uri, root),
            lang.companions(
                uri_path(output[a].violations[i].1.incidents[j].file_uri, root),
                ws,
            ),
        )
}

spec fn all_from<L: LanguageFixProvider>(
    lang: &L,
    root: Seq<char>,
    ws: WorkspaceView,
    output: Seq<RuleFindingsView>,
    n: int,
    s: Planning,
) -> bool {
    &&& forall|x: ManualFixItemView| #[trigger]
        s.plan.manual.contains(x) ==> item_has_incident(output, n, x)
    &&& forall|x: LlmFixRequestView| #[trigger]
        s.plan.pending_llm.contains(x) ==> request_has_incident(lang, root, ws, output, n, x)
}

proof fn lemma_step<L: LanguageFixProvider>(
    lang: &L,
    root: Seq<char>,
    ws: WorkspaceView,
    output: Seq<RuleFindingsView>,
    n: int,
    i: int,
    j: int,
    s: Planning,
    next: Planning,
)
    requires
        0 <= n < output.len(),
        0 <= i < output[n].violations.len(),
        0 <= j < output[n].violations[i].1.incidents.len(),
        all_from(lang, root, ws, output, n + 1, s),
        adds_only(
            lang,
            root,
            ws,
            output[n].violations[i].0,
            output[n].violations[i].1.incidents[j],
            s,
            next,
        ),
    ensures
        all_from(lang, root, ws, output, n + 1, next),
{
    let incident = output[n].violations[i].1.incidents[j];
    assert forall|x: ManualFixItemView| #[trigger] next.plan.manual.contains(x) implies
        item_has_incident(output, n + 1, x) by {
        if !s.plan.manual.contains(x) {
            assert(is_item_for(
                x,
                output[n].violations[i].0,
                output[n].violations[i].1.incidents[j],
            ));
        }
    }
    assert forall|x: LlmFixRequestView| #[trigger] next.plan.pending_llm.contains(x) implies
        request_has_incident(lang, root, ws, output, n + 1, x) by {
        if !s.plan.pending_llm.contains(x) {
            assert(is_request_for(
                x,
                output[n].violations[i].0,
                output[n].violations[i].1.incidents[j],
                uri_path(incident.file_uri, root),
                lang.companions(uri_path(incident.file_uri, root), ws),
            ));
        }
    }
}

proof fn lemma_incidents<L: LanguageFixProvider>(
    lang: &L,
    root: Seq<char>,
    ws: WorkspaceView,
    dead: Seq<Seq<char>>,
    strategies: Seq<(Seq<char>, FixStrategyView)>,
    output: Seq<RuleFindingsView>,
    n: int,
    i: int,
    m: int,
    s: Planning,
)
    requires
        0 <= n < output.len(),
        0 <= i < output[n].violations.len(),
        0 <= m <= output[n].violations[i].1.incidents.len(),
        all_from(lang, root, ws, output, n + 1, s),
    ensures
        ({
            let v = output[n].violations[i];
            all_from(
                lang,
                root,
                ws,
                output,
                n + 1,
                after_incidents(
                    lang,
                    root,
                    ws,
                    dead,
                    v.0,
                    v.1.labels,
                    strategy_for(v.0, v.1.labels, strategies),
                    v.1.incidents,
                    m,
                    s,
                ),
            )
        }),
    decreases m,
{
    if m > 0 {
        lemma_incidents(lang, root, ws, dead, strategies, output, n, i, m - 1, s);
        let v = output[n].violations[i];
        let strategy = strategy_for(v.0, v.1.labels, strategies);
        let before = after_incidents(
            lang,
            root,
            ws,
            dead,
            v.0,
            v.1.labels,
            strategy,
            v.1.incidents,
            m - 1,
            s,
        );
        let next = after_incident(
            lang,
            root,
            ws,
            dead,
            v.0,
            v.1.labels,
            strategy,
            v.1.incidents[m - 1],
            before,
        );
        lemma_incident(
            lang,
            root,
            ws,
            dead,
            v.0,
            v.1.labels,
            strategy,
            v.1.incidents[m - 1],
            before,
        );
        lemma_step(lang, root, ws, output, n, i, m - 1, before, next);
    }
}

proof fn lemma_violations<L: LanguageFixProvider>(
    lang: &L,
    root: Seq<char>,
    ws: WorkspaceView,
    dead: Seq<Seq<char>>,
    strategies: Seq<(Seq<char>, FixStrategyView)>,
    output: Seq<RuleFindingsView>,
    n: int,
    m: int,
    s: Planning,
)
    requires
        0 <= n < output.len(),
        0 <= m <= output[n].violations.len(),
        all_from(lang, root, ws, output, n + 1, s),
    ensures
        all_from(
            lang,
            root,
            ws,
            output,
            n + 1,
            after_violations(lang, root, ws, dead, strategies, output[n].violations, m, s),
        ),
    decreases m,
{
    if m > 0 {
        lemma_violations(lang, root, ws, dead, strategies, output, n, m - 1, s);
        let before = after_violations(
            lang,
            root,
            ws,
            dead,
            strategies,
            output[n].violations,
            m - 1,
            s,
        );
        let v = output[n].violations[m - 1];
        lemma_incidents(
            lang,
            root,
            ws,
            dead,
            strategies,
            output,
            n,
            m - 1,
            v.1.incidents.len() as int,
            before,
        );
    }
}

proof fn lemma_wider<L: LanguageFixProvider>(
    lang: &L,
    root: Seq<char>,
    ws: WorkspaceView,
    output: Seq<RuleFindingsView>,
    n: int,
    s: Planning,
)
    requires
        0 <= n,
        all_from(lang, root, ws, output, n, s),
    ensures
        all_from(lang, root, ws, output, n + 1, s),
{
    assert forall|x: ManualFixItemView| #[trigger] s.plan.manual.contains(x) implies
        item_has_incident(output, n + 1, x) by {
        assert(item_has_incident(output, n, x));
        let (a, i, j) = choose|a: int, i: int, j: int|
            0 <= a < n && 0 <= i < output[a].violations.len() && 0 <= j
                < output[a].violations[i].1.incidents.len() && is_item_for(
                x,
                output[a].violations[i].0,
                #[trigger] output[a].violations[i].1.incidents[j],
            );
        assert(a < n + 1);
    }
    assert forall|x: LlmFixRequestView| #[trigger] s.plan.pending_llm.contains(x) implies
        request_has_incident(lang, root, ws, output, n + 1, x) by {
        assert(request_has_incident(lang, root, ws, output, n, x));
        let (a, i, j) = choose|a: int, i: int, j: int|
            0 <= a < n && 0 <= i < output[a].violations.len() && 0 <= j
                < output[a].violations[i].1.incidents.len() && is_request_for(
                x,
                output[a].violations[i].0,
                #[trigger] output[a].violations[i].1.incidents[j],
                uri_path(output[a].violations[i].1.incidents[j].file_uri, root),
                lang.companions(
                    uri_path(output[a].violations[i].1.incidents[j].file_uri, root),
                    ws,
                ),
            );
        assert(a < n + 1);
    }
}

proof fn lemma_rule_sets<L: LanguageFixProvider>(
    lang: &L,
    root: Seq<char>,
    ws: WorkspaceView,
    dead: Seq<Seq<char>>,
    strategies: Seq<(Seq<char>, FixStrategyView)>,
    output: Seq<RuleFindingsView>,
    n: int,
    report: FixReportView,
)
    requires
        0 <= n <= output.len(),
    ensures
        all_from(
            lang,
            root,
            ws,
            output,
            n,
            after_rule_sets(
                lang,
                root,
                ws,
                dead,
                strategies,
                output,
                n,
                Planning { plan: empty_plan(), report },
            ),
        ),
    decreases n,
{
    if n > 0 {
        let start = Planning { plan: empty_plan(), report };
        lemma_rule_sets(lang, root, ws, dead, strategies, output, n - 1, report);
        let before = after_rule_sets(lang, root, ws, dead, strategies, output, n - 1, start);
        lemma_wider(lang, root, ws, output, n - 1, before);
        let v = output[n - 1].violations;
        lemma_violations(
            lang,
            root,
            ws,
            dead,
            strategies,
            output,
            n - 1,
            v.len() as int,
            before,
        );
    }
}

proof fn lemma_later<L: LanguageFixProvider>(
    lang: &L,
    root: Seq<char>,
    ws: WorkspaceView,
    output: Seq<RuleFindingsView>,
    strategies: Seq<(Seq<char>, FixStrategyView)>,
    n: int,
    s: Planning,
)
    ensures
        after_proactive(lang, root, ws, output, strategies, n, s).plan.manual == s.plan.manual,
        after_proactive(lang, root, ws, output, strategies, n, s).plan.pending_llm
            == s.plan.pending_llm,
        after_config(lang, root, ws, strategies, n, s).plan.manual == s.plan.manual,
        after_config(lang, root, ws, strategies, n, s).plan.pending_llm == s.plan.pending_llm,
    decreases n,
{
    if n > 0 {
        lemma_later(lang, root, ws, output, strategies, n - 1, s);
        let a = after_proactive(lang, root, ws, output, strategies, n - 1, s);
        let b = after_config(lang, root, ws, strategies, n - 1, s);
        let rule_id = strategies[n - 1].0;
        match strategies[n - 1].1 {
            FixStrategyView::EnsureDependency { package, new_version, old_package } => {
                match old_package {
                    Some(name) => {
                        lemma_outcomes(
                            a,
                            root,
                            lang.proactive(rule_id, name, package, new_version, root, ws),
                        );
                    },
                    None => {},
                }
            },
            FixStrategyView::JavaImportRename { old_fqn, new_fqn } => {
                lemma_outcomes(
                    b,
                    root,
                    lang.config_renames(rule_id, old_fqn, new_fqn, root, ws),
                );
            },
            _ => {},
        }
    }
}

/// Nothing is left to a person, and nothing asked of a language model, but
/// for an incident of the analysis.
pub proof fn law_items_and_requests_come_from_incidents<L: LanguageFixProvider>(
    lang: &L,
    root: Seq<char>,
    ws: WorkspaceView,
    output: Seq<RuleFindingsView>,
    strategies: Seq<(Seq<char>, FixStrategyView)>,
    report: FixReportView,
)
    ensures
        ({
            let plan = gathered_plan(lang, root, ws, output, strategies, report).plan;
            let n = output.len() as int;
            &&& forall|x: ManualFixItemView| #[trigger]
                plan.manual.contains(x) ==> item_has_incident(output, n, x)
            &&& forall|x: LlmFixRequestView| #[trigger]
                plan.pending_llm.contains(x) ==> request_has_incident(
                    lang,
                    root,
                    ws,
                    output,
                    n,
                    x,
                )
        }),
{
    let all = output.len() as int;
    let n = strategies.len() as int;
    let dead = dead_classes(output);
    let start = Planning { plan: empty_plan(), report };
    let matched = after_rule_sets(lang, root, ws, dead, strategies, output, all, start);
    let proactive = after_proactive(lang, root, ws, output, strategies, n, matched);
    lemma_rule_sets(lang, root, ws, dead, strategies, output, all, report);
    lemma_later(lang, root, ws, output, strategies, n, matched);
    lemma_later(lang, root, ws, output, strategies, n, proactive);
    let done = after_config(lang, root, ws, strategies, n, proactive);
    assert(done == gathered_plan(lang, root, ws, output, strategies, report));
    assert(done.plan.manual == matched.plan.manual);
    assert(all_from(lang, root, ws, output, all, matched));
}

// ---------------------------------------------------------------------
// Messages
// ---------------------------------------------------------------------

/// A variable, as a message tells it.
pub open spec fn told_variable(v: (Seq<char>, JsonView)) -> Seq<char> {
    v.0 + ": "@ + match json_string(v.1) {
        Some(s) => s,
        None => json_text(v.1),
    }
}

proof fn lemma_behind(lead: Seq<char>, a: Seq<char>, b: Seq<char>, c: Seq<char>)
    ensures
        has_text(lead + a + b + c, a + b + c),
{
    let x = a + b + c;
    assert(lead + a + b + c =~= lead + x);
    lemma_has_text_reflexive(x);
    lemma_inside(lead, x, x);
}

proof fn lemma_variable(variables: Seq<(Seq<char>, JsonView)>, n: int, k: int)
    requires
        0 <= k < n <= variables.len(),
    ensures
        has_text(variable_lines(variables, n), told_variable(variables[k])),
    decreases n,
{
    let x = told_variable(variables[k]);
    let before = variable_lines(variables, n - 1);
    let last = variables[n - 1];
    let more = "\n  "@ + last.0 + ": "@ + value_words(last.1);
    if k == n - 1 {
        lemma_behind("\n  "@, last.0, ": "@, value_words(last.1));
    } else {
        lemma_variable(variables, n - 1, k);
    }
    lemma_inside(before, more, x);
}

/// The message for a language model tells what the rule says, each variable
/// of the incident, and what the strategy knows.
pub proof fn law_message_tells_the_incident(
    incident: IncidentView,
    context: Option<Seq<char>>,
    k: int,
)
    ensures
        has_text(enriched_message(incident, context), incident.message),
        0 <= k < incident.variables.len() ==> has_text(
            enriched_message(incident, context),
            told_variable(incident.variables[k]),
        ),
        context matches Some(c) ==> has_text(
            enriched_message(incident, context),
            "\n\nFix strategy:\n"@ + c,
        ),
{
    let n = incident.variables.len() as int;
    let a = incident.message;
    let b = if n > 0 {
        "\n\nIncident context:"@ + variable_lines(incident.variables, n)
    } else {
        Seq::empty()
    };
    let c = match context {
        Some(x) => "\n\nFix strategy:\n"@ + x,
        None => Seq::empty(),
    };
    assert(enriched_message(incident, context) == a + b + c);
    lemma_has_text_reflexive(a);
    lemma_inside(a, b, a);
    lemma_inside(a + b, c, a);
    if 0 <= k < n {
        let x = told_variable(incident.variables[k]);
        lemma_variable(incident.variables, n, k);
        lemma_inside("\n\nIncident context:"@, variable_lines(incident.variables, n), x);
        lemma_inside(a, b, x);
        lemma_inside(a + b, c, x);
    }
    if context is Some {
        lemma_has_text_reflexive(c);
        lemma_inside(a + b, c, c);
    }
}

/// The message about an import that moves tells the name, where it comes from
/// and where it goes, and what the rule says.
pub proof fn law_moved_import_is_told(
    incident: IncidentView,
    package: Seq<char>,
    new_version: Seq<char>,
    name: Seq<char>,
    module: Seq<char>,
)
    requires
        text_var(incident, "importedName"@) == Some(name),
        text_var(incident, "module"@) == Some(module),
    ensures
        ({
            let message = moved_import_message(incident, package, new_version);
            &&& has_text(message, "Import '"@ + name + "' is from '"@ + module + "'"@)
            &&& has_text(message, incident.message)
        }),
{
    let message = moved_import_message(incident, package, new_version);
    let first = "Import '"@ + name + "' is from '"@ + module;
    let x = first + "'"@;
    reveal_strlit("'");
    reveal_strlit("' but needs to move to '");
    assert(message.subrange(0, x.len() as int) =~= x);
    assert(crate::text::occurs_at(message, x, 0));
    let at = message.len() - incident.message.len();
    assert(message.subrange(at, at + incident.message.len()) =~= incident.message);
    assert(crate::text::occurs_at(message, incident.message, at));
}

// ---------------------------------------------------------------------
// Languages
// ---------------------------------------------------------------------

/// In scripts, a path with a `node_modules` component is left alone and no
/// other; an incident on an import is renamed in the whole file.
pub proof fn law_scripts(lang: &JsFixProvider, path: Seq<char>, incident: IncidentView)
    ensures
        lang.skips(path) <==> exists|k: int|
            0 <= k < components(path).len() && #[trigger] components(path)[k] == "node_modules"@,
        lang.renames_whole_file(incident) <==> has_var(incident, "importedName"@),
{
    if lang.skips(path) {
        let k = choose|k: int|
            0 <= k < components(path).len() && components(path)[k] == "node_modules"@;
        assert(components(path)[k] == "node_modules"@);
    }
}

/// In Java, an incident on an import or on a module is renamed in the whole
/// file, and no package manager runs.
pub proof fn law_java_sources(
    lang: &JavaFixProvider,
    incident: IncidentView,
    root: Seq<char>,
    modified: Seq<Seq<char>>,
    ws: WorkspaceView,
)
    ensures
        lang.renames_whole_file(incident) <==> has_var(incident, "importedName"@) || has_var(
            incident,
            "module"@,
        ),
        lang.installer(root, modified, ws) is None,
{
}

} // verus!
