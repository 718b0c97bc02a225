use fix_engine::engine::dedup::deduplicate_edits;
use fix_engine::engine::family::consolidate_family_requests;
use fix_engine::engine::import_path::plan_import_path_change;
use fix_engine::engine::plan::{infer_strategy_from_labels, uri_to_path};
use fix_engine::model::{
    FixConfidence, FixPlan, FixReport, FixSource, LlmFixRequest, PlannedFix, SkipReason, TextEdit,
};
use fix_engine::report::Incident;
use fix_engine::strategy::{FixStrategy, StrategyEntry};
use fix_engine::table::TextTable;
use fix_engine::workspace::{Node, Workspace};

fn workspace_with(path: &str, text: &str) -> Workspace {
    let mut ws = Workspace::new();
    ws.nodes
        .insert(path.to_string(), Node::File(text.to_string()));
    ws
}

#[test]
fn test_uri_to_path_absolute() {
    let path = uri_to_path("file:///home/user/project/src/App.tsx", "/ignored");
    assert_eq!(path, "/home/user/project/src/App.tsx");
}

#[test]
fn test_uri_to_path_relative() {
    let path = uri_to_path("src/App.tsx", "/home/user/project");
    assert_eq!(path, "/home/user/project/src/App.tsx");
}

#[test]
fn test_uri_to_path_no_file_prefix() {
    let path = uri_to_path("/absolute/path.tsx", "/root");
    assert_eq!(path, "/absolute/path.tsx");
}

#[test]
fn test_infer_prop_removal() {
    let labels = vec!["change-type=prop-removal".to_string()];
    let strategy = infer_strategy_from_labels(&labels);
    assert!(matches!(strategy, Some(FixStrategy::RemoveAttribute)));
}

#[test]
fn test_infer_dom_structure_manual() {
    let labels = vec!["change-type=dom-structure".to_string()];
    let strategy = infer_strategy_from_labels(&labels);
    assert!(matches!(strategy, Some(FixStrategy::Manual)));
}

#[test]
fn test_infer_unknown_label_returns_none() {
    let labels = vec!["change-type=rename".to_string()];
    let strategy = infer_strategy_from_labels(&labels);
    assert!(strategy.is_none());
}

#[test]
fn test_infer_empty_labels_returns_none() {
    let labels: Vec<String> = Vec::new();
    let strategy = infer_strategy_from_labels(&labels);
    assert!(strategy.is_none());
}

#[test]
fn test_infer_first_matching_label_wins() {
    let labels = vec![
        "framework=patternfly".to_string(),
        "change-type=prop-removal".to_string(),
        "change-type=dom-structure".to_string(),
    ];
    let strategy = infer_strategy_from_labels(&labels);
    assert!(matches!(strategy, Some(FixStrategy::RemoveAttribute)));
}

fn make_llm_request(rule_id: &str, file: &str, line: u32, labels: Vec<&str>) -> LlmFixRequest {
    LlmFixRequest {
        rule_id: rule_id.to_string(),
        file_uri: format!("file://{}", file),
        file_path: file.to_string(),
        line,
        message: format!("Rule {} triggered", rule_id),
        code_snip: Some(format!("// line {}", line)),
        source: None,
        labels: labels.into_iter().map(|s| s.to_string()).collect(),
        companion_test_files: Vec::new(),
    }
}

fn make_family_entry(target_structure: &str, new_imports: Vec<&str>) -> StrategyEntry {
    let mut entry = StrategyEntry::new("FamilyMigration");
    entry.target_structure = Some(target_structure.to_string());
    entry.new_imports = new_imports.into_iter().map(|s| s.to_string()).collect();
    entry.import_source = Some("@patternfly/react-core".to_string());
    entry
}

#[test]
fn test_consolidate_single_family_request() {
    let mut requests = vec![make_llm_request(
        "mastheadbrand-signature-changed",
        "/src/viewLayout.tsx",
        16,
        vec!["family=Masthead", "change-type=prop-type-changed"],
    )];

    let mut families = TextTable::new();
    families.insert(
        "family:Masthead".to_string(),
        make_family_entry(
            "<Masthead>\n  <MastheadMain>\n    <MastheadBrand>\n      <MastheadLogo />\n    </MastheadBrand>\n  </MastheadMain>\n</Masthead>",
            vec!["MastheadLogo", "MastheadMain"],
        ),
    );

    consolidate_family_requests(&mut requests, &families);

    assert_eq!(requests.len(), 1);
    assert_eq!(requests[0].rule_id, "family:Masthead");
    assert!(requests[0].message.contains("Masthead Family Migration"));
}

#[test]
fn test_consolidate_does_not_drop_all_incidents() {
    let mut request = make_llm_request(
        "mastheadbrand-signature-changed",
        "/src/viewLayout.tsx",
        16,
        vec!["family=Masthead", "change-type=signature-changed"],
    );
    request.message =
        "Interface 'MastheadBrandProps' base class changed from anchor to div".to_string();
    let mut requests = vec![request];

    let mut families = TextTable::new();
    families.insert(
        "family:Masthead".to_string(),
        make_family_entry("<Masthead>\n  <MastheadBrand>\n    <MastheadLogo />\n  </MastheadBrand>\n</Masthead>", vec![]),
    );

    consolidate_family_requests(&mut requests, &families);

    assert_eq!(requests.len(), 1);
    assert_eq!(requests[0].rule_id, "family:Masthead");
    assert!(requests[0]
        .message
        .contains("mastheadbrand-signature-changed"),);
}

fn make_incident(file_uri: &str, line: u32) -> Incident {
    Incident {
        file_uri: file_uri.to_string(),
        line_number: Some(line),
        message: String::new(),
        code_snip: None,
        variables: TextTable::new(),
    }
}

fn change_charts(name: &str, text: &str, line: u32) -> (Option<PlannedFix>, FixReport) {
    let path = format!("/project/{}", name);
    let ws = workspace_with(&path, text);
    let incident = make_incident(&format!("file://{}", name), line);
    let mut report = FixReport::new();
    let fix = plan_import_path_change(
        "test-rule",
        &incident,
        "@patternfly/react-charts",
        "@patternfly/react-charts/victory",
        &path,
        &ws,
        &mut report,
    );
    (fix, report)
}

#[test]
fn test_import_path_change_single_line() {
    let (fix, _) = change_charts(
        "single.tsx",
        "import { Chart } from '@patternfly/react-charts';\n",
        1,
    );

    let fix = fix.expect("should produce a fix for single-line import");
    assert_eq!(fix.edits.len(), 1);
    assert_eq!(fix.edits[0].line, 1);
    assert_eq!(fix.edits[0].old_text, "@patternfly/react-charts");
    assert_eq!(fix.edits[0].new_text, "@patternfly/react-charts/victory");
}

#[test]
fn test_import_path_change_multiline_specifier() {
    // The incident is on the second line, the from-clause on the fifth.
    let (fix, _) = change_charts(
        "multi.tsx",
        "\
import {
  Chart,
  ChartAxis,
  ChartBar,
} from '@patternfly/react-charts';
import { Button } from '@patternfly/react-core';
",
        2,
    );

    let fix = fix.expect("should produce a fix for multi-line import");
    assert_eq!(fix.edits.len(), 1);
    assert_eq!(
        fix.edits[0].line, 5,
        "edit should target the from-clause line"
    );
    assert_eq!(fix.edits[0].old_text, "@patternfly/react-charts");
    assert_eq!(fix.edits[0].new_text, "@patternfly/react-charts/victory");
}

#[test]
fn test_import_path_change_multiline_different_specifier() {
    let (fix, _) = change_charts(
        "multi2.tsx",
        "\
import {
  Chart,
  ChartAxis,
  ChartBar,
} from '@patternfly/react-charts';
",
        4,
    );

    let fix = fix.expect("should produce a fix for any specifier in multi-line import");
    assert_eq!(fix.edits[0].line, 5);
}

#[test]
fn test_import_path_change_already_migrated() {
    let (fix, report) = change_charts(
        "migrated.tsx",
        "import { Chart } from '@patternfly/react-charts/victory';\n",
        1,
    );

    assert!(fix.is_none(), "should skip already-migrated imports");
    assert_eq!(report.skipped.len(), 1);
    assert_eq!(report.skipped[0].reason, SkipReason::AlreadyMigrated);
}

#[test]
fn test_import_path_change_multiline_already_migrated() {
    let (fix, report) = change_charts(
        "migrated_multi.tsx",
        "\
import {
  Chart,
  ChartAxis,
} from '@patternfly/react-charts/victory';
",
        2,
    );

    assert!(
        fix.is_none(),
        "should skip already-migrated multi-line imports"
    );
    assert_eq!(report.skipped[0].reason, SkipReason::AlreadyMigrated);
}

#[test]
fn test_import_path_change_non_import_context() {
    let (fix, report) = change_charts(
        "jsx.tsx",
        "\
import { Chart } from '@patternfly/react-charts';

function App() {
  return <Chart />;
}
",
        4,
    );

    assert!(
        fix.is_none(),
        "should not produce a fix for non-import JSX usage"
    );
    assert_eq!(report.skipped[0].reason, SkipReason::TextNotFound);
}

#[test]
fn test_import_path_change_export_reexport() {
    let (fix, _) = change_charts(
        "reexport.tsx",
        "\
export {
  Chart,
  ChartAxis,
} from '@patternfly/react-charts';
",
        2,
    );

    let fix = fix.expect("should handle export re-exports");
    assert_eq!(fix.edits[0].line, 4);
    assert_eq!(fix.edits[0].old_text, "@patternfly/react-charts");
}

#[test]
fn import_path_change_says_why_it_gives_up() {
    let (fix, report) = change_charts("plain.tsx", "const a = 1;\nconst b = 2;\n", 2);
    assert!(fix.is_none());
    assert_eq!(report.skipped[0].reason, SkipReason::NotInImportBlock);

    let (fix, report) = change_charts("short.tsx", "const a = 1;\n", 9);
    assert!(fix.is_none());
    assert_eq!(report.skipped[0].reason, SkipReason::LineOutOfBounds);
    assert_eq!(
        report.skipped[0].detail.as_deref(),
        Some("file has 1 lines")
    );

    let (fix, report) = change_charts(
        "other.tsx",
        "import {\n  Chart,\n} from '@patternfly/react-core';\n",
        2,
    );
    assert!(fix.is_none());
    assert_eq!(report.skipped[0].reason, SkipReason::TextNotFound);
    assert_eq!(
        report.skipped[0].detail.as_deref(),
        Some("from clause does not contain '@patternfly/react-charts'")
    );

    let ws = Workspace::new();
    let mut incident = make_incident("file://a.tsx", 1);
    let mut report = FixReport::new();
    assert!(plan_import_path_change("r", &incident, "a", "b", "/a.tsx", &ws, &mut report).is_none());
    assert_eq!(report.skipped[0].reason, SkipReason::FileUnreadable);
    incident.line_number = None;
    assert!(plan_import_path_change("r", &incident, "a", "b", "/a.tsx", &ws, &mut report).is_none());
    assert_eq!(report.skipped[1].reason, SkipReason::NoLineNumber);
    assert_eq!(report.skipped[1].line, None);
}

#[test]
fn test_consolidate_preserves_fix_strategy_context() {
    let mut request = make_llm_request(
        "menutoggle-splitbuttonoptions-changed",
        "/src/ToolbarBulkSelector.tsx",
        134,
        vec!["family=MenuToggle", "change-type=prop-type-changed"],
    );
    request.message = "property splitButtonOptions was replaced by splitButtonItems\n\n\
        Incident context:\n  componentName: MenuToggle\n  propName: splitButtonOptions\n\n\
        Fix strategy:\nStrategy: PropTypeChange\nComponent: MenuToggle\n\
        Prop: splitButtonOptions\nFrom: property: splitButtonOptions: SplitButtonOptions\n\
        To: property: splitButtonItems: ReactNode[]"
        .to_string();
    let mut requests = vec![request];

    let mut families = TextTable::new();
    families.insert(
        "family:MenuToggle".to_string(),
        make_family_entry(
            "<MenuToggle splitButtonItems={...} />",
            vec!["MenuToggleAction"],
        ),
    );

    consolidate_family_requests(&mut requests, &families);

    assert_eq!(requests.len(), 1);
    assert_eq!(requests[0].rule_id, "family:MenuToggle");
    assert!(
        requests[0].message.contains("componentName: MenuToggle"),
        "incident context variables should be preserved"
    );
    assert!(
        requests[0].message.contains("Strategy: PropTypeChange"),
        "fix strategy type should be preserved"
    );
    assert!(
        requests[0]
            .message
            .contains("From: property: splitButtonOptions: SplitButtonOptions"),
        "fix strategy 'from' should be preserved"
    );
    assert!(
        requests[0]
            .message
            .contains("To: property: splitButtonItems: ReactNode[]"),
        "fix strategy 'to' should be preserved"
    );
}

fn make_edit(line: u32, old: &str, new: &str, replace_all: bool) -> PlannedFix {
    PlannedFix {
        edits: vec![TextEdit {
            line,
            old_text: old.into(),
            new_text: new.into(),
            rule_id: "test".into(),
            description: "test".into(),
            replace_all,
        }],
        confidence: FixConfidence::Exact,
        source: FixSource::Pattern,
        rule_id: "test".into(),
        file_uri: "file:///test.tsx".into(),
        line,
        description: "test".into(),
    }
}

fn deduplicate(fixes: Vec<PlannedFix>) -> (Vec<String>, usize) {
    let mut plan = FixPlan::default();
    plan.files.insert("/test.tsx".to_string(), fixes);
    deduplicate_edits(&mut plan);
    let left = plan
        .files
        .get("/test.tsx")
        .unwrap()
        .iter()
        .flat_map(|f| f.edits.iter())
        .map(|e| e.old_text.clone())
        .collect();
    (left, plan.edits_subsumed)
}

#[test]
fn test_dedup_replace_all_substring_edits_both_survive() {
    // className="pf-v5-c-form__label pf-v5-c-form__label-text"
    let (edits, subsumed) = deduplicate(vec![
        make_edit(10, "pf-v5-c-form__label-text", "pf-v6-c-form__label-text", true),
        make_edit(10, "pf-v5-c-form__label", "pf-v6-c-form__label", true),
    ]);
    assert_eq!(
        edits.len(),
        2,
        "Both replace_all edits should survive dedup, got {}",
        edits.len()
    );
    assert_eq!(subsumed, 0);
}

#[test]
fn test_dedup_non_replace_all_substring_still_subsumed() {
    let (edits, subsumed) = deduplicate(vec![
        make_edit(10, "FooBar", "BazBar", false),
        make_edit(10, "Foo", "Baz", false),
    ]);
    assert_eq!(
        edits.len(),
        1,
        "Non-replace_all shorter edit should be subsumed, got {}",
        edits.len()
    );
    assert_eq!(edits[0], "FooBar");
    assert_eq!(subsumed, 1);
}

#[test]
fn test_dedup_mixed_replace_all_substring_subsumed() {
    let (edits, _) = deduplicate(vec![
        make_edit(10, "pf-v5-c-form__label-text", "pf-v6-c-form__label-text", true),
        make_edit(10, "pf-v5-c-form__label", "pf-v6-c-form__label", false),
    ]);
    assert_eq!(
        edits.len(),
        1,
        "Mixed replace_all: shorter non-replace_all should be subsumed"
    );
    assert_eq!(edits[0], "pf-v5-c-form__label-text");
}

#[test]
fn test_dedup_triple_nesting_replace_all() {
    let (edits, subsumed) = deduplicate(vec![
        make_edit(10, "pf-v5-c-form__label-required", "pf-v6-c-form__label-required", true),
        make_edit(10, "pf-v5-c-form__label-text", "pf-v6-c-form__label-text", true),
        make_edit(10, "pf-v5-c-form__label", "pf-v6-c-form__label", true),
    ]);
    assert_eq!(
        edits.len(),
        3,
        "All three replace_all edits should survive, got {}",
        edits.len()
    );
    assert_eq!(subsumed, 0);
}

#[test]
fn test_dedup_exact_duplicate_still_removed() {
    let (edits, subsumed) = deduplicate(vec![
        make_edit(10, "pf-v5-c-form__label", "pf-v6-c-form__label", true),
        make_edit(10, "pf-v5-c-form__label", "pf-v6-c-form__label", true),
    ]);
    assert_eq!(edits.len(), 1, "Exact duplicate should be removed");
    assert_eq!(subsumed, 1);
}

#[test]
fn dedup_keeps_edits_on_other_lines() {
    let (edits, subsumed) = deduplicate(vec![
        make_edit(10, "FooBar", "BazBar", false),
        make_edit(11, "Foo", "Baz", false),
    ]);
    assert_eq!(edits, vec!["FooBar", "Foo"]);
    assert_eq!(subsumed, 0);
}

#[test]
fn dedup_a_second_time_removes_nothing() {
    let mut plan = FixPlan::default();
    plan.files.insert(
        "/test.tsx".to_string(),
        vec![
            make_edit(10, "Foo", "Baz", false),
            make_edit(10, "FooBar", "BazBar", false),
            make_edit(10, "Foo", "Qux", false),
        ],
    );
    deduplicate_edits(&mut plan);
    assert_eq!(plan.edits_subsumed, 2);
    deduplicate_edits(&mut plan);
    assert_eq!(plan.edits_subsumed, 0);
    assert_eq!(plan.files.get("/test.tsx").unwrap().len(), 1);
}

#[test]
fn requests_without_a_known_family_stay() {
    let mut requests = vec![
        make_llm_request("a", "/src/a.tsx", 1, vec!["family=Modal"]),
        make_llm_request("b", "/src/a.tsx", 2, vec![]),
    ];
    consolidate_family_requests(&mut requests, &TextTable::new());
    assert_eq!(requests.len(), 2);
    assert_eq!(requests[0].rule_id, "a");
    assert_eq!(requests[1].rule_id, "b");
}

#[test]
fn a_file_and_a_family_give_one_request() {
    let mut requests = vec![
        make_llm_request("a", "/src/b.tsx", 7, vec!["family=Modal", "x"]),
        make_llm_request("b", "/src/a.tsx", 2, vec!["family=Modal"]),
        make_llm_request("c", "/src/b.tsx", 3, vec!["family=Modal", "x"]),
        make_llm_request("d", "/src/b.tsx", 4, vec![]),
    ];
    let mut families = TextTable::new();
    families.insert("family:Modal".to_string(), make_family_entry("<Modal />", vec![]));
    consolidate_family_requests(&mut requests, &families);
    assert_eq!(requests.len(), 3);
    assert_eq!(requests[0].rule_id, "d");
    assert_eq!(requests[1].file_path, "/src/a.tsx");
    assert_eq!(requests[2].file_path, "/src/b.tsx");
    assert_eq!(requests[2].line, 3);
    assert_eq!(requests[2].labels, vec!["family=Modal", "x"]);
    assert!(requests[2].message.contains("Line 7: [a]"));
    assert!(requests[2].message.contains("Line 3: [c]"));
    assert!(requests[2].code_snip.is_none());
}
