use fix_engine::engine::apply::{apply_fixes, apply_to_text, note_hook, preview_fixes};
use fix_engine::engine::merge::{merge_dependency_inserts, order_fixes, sort_by_line};
use fix_engine::engine::plan::{collect_dead_css_classes, plan_fixes};
use fix_engine::engine::rename::plan_rename_in;
use fix_engine::engine::test_requests::generate_test_fix_requests;
use fix_engine::java::provider::JavaFixProvider;
use fix_engine::js::manifest::plan_ensure_npm_dependency_inner;
use fix_engine::js::provider::JsFixProvider;
use fix_engine::json::Json;
use fix_engine::language::NoOpLanguageFixProvider;
use fix_engine::model::{
    FailedEditReason, FixConfidence, FixPlan, FixReport, FixSource, LlmFixRequest, PlannedFix,
    RenameMapping, SkipReason, TextEdit,
};
use fix_engine::report::{Incident, RuleFindings, Violation};
use fix_engine::strategy::FixStrategy;
use fix_engine::table::TextTable;
use fix_engine::workspace::{Node, Workspace};

fn edit(line: u32, old: &str, new: &str) -> TextEdit {
    TextEdit {
        line,
        old_text: old.to_string(),
        new_text: new.to_string(),
        rule_id: "r".to_string(),
        description: "d".to_string(),
        replace_all: false,
    }
}

fn fix(line: u32, edits: Vec<TextEdit>) -> PlannedFix {
    PlannedFix {
        edits,
        confidence: FixConfidence::Exact,
        source: FixSource::Pattern,
        rule_id: "r".to_string(),
        file_uri: "file:///p/a.ts".to_string(),
        line,
        description: "d".to_string(),
    }
}

fn mapping(old: &str, new: &str) -> RenameMapping {
    RenameMapping {
        old: old.to_string(),
        new: new.to_string(),
    }
}

fn incident(uri: &str, line: u32, vars: Vec<(&str, &str)>) -> Incident {
    let mut variables = TextTable::new();
    for (k, v) in vars {
        variables.insert(
            k.to_string(),
            Json(serde_json::Value::String(v.to_string())),
        );
    }
    Incident {
        file_uri: uri.to_string(),
        line_number: Some(line),
        message: "message".to_string(),
        code_snip: None,
        variables,
    }
}

fn rule_set(violations: Vec<(&str, Vec<&str>, Vec<Incident>)>) -> RuleFindings {
    let mut table = TextTable::new();
    for (rule, labels, incidents) in violations {
        table.insert(
            rule.to_string(),
            Violation {
                labels: labels.into_iter().map(|s| s.to_string()).collect(),
                incidents,
            },
        );
    }
    RuleFindings {
        name: "rules".to_string(),
        violations: table,
        errors: TextTable::new(),
    }
}

fn workspace(files: Vec<(&str, &str)>) -> Workspace {
    let mut ws = Workspace::new();
    for (path, text) in files {
        ws.nodes
            .insert(path.to_string(), Node::File(text.to_string()));
    }
    ws
}

#[test]
fn edits_change_their_lines_and_nothing_else() {
    let done = apply_to_text(
        "/p/a.ts",
        "one\ntwo two\nthree\n",
        &vec![fix(2, vec![edit(2, "two", "zwei"), edit(9, "x", "y"), edit(1, "x", "y")])],
        &NoOpLanguageFixProvider,
    );
    assert_eq!(done.text.as_deref(), Some("one\nzwei two\nthree\n"));
    assert_eq!(done.applied, 1);
    assert_eq!(done.failed.len(), 2);
    assert!(matches!(
        done.failed[0].reason,
        FailedEditReason::LineOutOfBounds { total_lines: 3 }
    ));
    match &done.failed[1].reason {
        FailedEditReason::TextNotFoundOnLine { actual_line } => assert_eq!(actual_line, "one"),
        other => panic!("unexpected {:?}", other),
    }
    assert_eq!(done.failed[1].file, "/p/a.ts");
}

#[test]
fn replacing_all_and_replacing_the_first() {
    let mut all = edit(1, "a", "b");
    all.replace_all = true;
    let done = apply_to_text("/p", "a-a-a", &vec![fix(1, vec![all])], &NoOpLanguageFixProvider);
    assert_eq!(done.text.as_deref(), Some("b-b-b"));
    let once = apply_to_text(
        "/p",
        "a-a-a",
        &vec![fix(1, vec![edit(1, "a", "b"), edit(1, "a", "b")])],
        &NoOpLanguageFixProvider,
    );
    assert_eq!(once.text.as_deref(), Some("b-a-a"));
    assert_eq!(once.applied, 1);
    assert!(once.failed.is_empty());
}

#[test]
fn a_file_that_no_edit_changes_is_not_written() {
    let ws = workspace(vec![("/p/a.ts", "one\n"), ("/p/b.ts", "two\n")]);
    let mut plan = FixPlan::default();
    plan.files
        .insert("/p/a.ts".to_string(), vec![fix(1, vec![edit(1, "x", "y")])]);
    plan.files
        .insert("/p/b.ts".to_string(), vec![fix(1, vec![edit(1, "two", "2")])]);
    plan.files
        .insert("/p/c.ts".to_string(), vec![fix(1, vec![edit(1, "x", "y")])]);
    plan.edits_subsumed = 4;
    let (result, writes) = apply_fixes(&plan, &NoOpLanguageFixProvider, &ws);
    assert_eq!(writes, vec![("/p/b.ts".to_string(), "2\n".to_string())]);
    assert_eq!(result.files_modified, 1);
    assert_eq!(result.modified_files, vec!["/p/b.ts"]);
    assert_eq!(result.edits_applied, 1);
    assert_eq!(result.edits_skipped, 1);
    assert_eq!(result.edits_subsumed, 4);
    assert_eq!(result.errors.len(), 1);
    assert!(result.errors[0].starts_with("/p/c.ts: "));
}

#[test]
fn the_diff_shows_what_is_written() {
    let ws = workspace(vec![("/p/a.ts", "1\n2\n3\n4\n5\n6\n7\n8\n9\n")]);
    let mut plan = FixPlan::default();
    plan.files
        .insert("/p/a.ts".to_string(), vec![fix(5, vec![edit(5, "5", "five")])]);
    assert_eq!(
        preview_fixes(&plan, &NoOpLanguageFixProvider, &ws),
        "--- a//p/a.ts\n+++ b//p/a.ts\n@@ -2,7 +2,7 @@\n 2\n 3\n 4\n-5\n+five\n 6\n 7\n 8\n"
    );
    let nothing = FixPlan::default();
    assert_eq!(preview_fixes(&nothing, &NoOpLanguageFixProvider, &ws), "");
}

#[test]
fn imports_are_tidied_after_edits() {
    let done = apply_to_text(
        "/p/a.tsx",
        "import { Chip, Label } from 'x';\n",
        &vec![fix(1, vec![edit(1, "Chip", "Label")])],
        &JsFixProvider::new(),
    );
    assert_eq!(done.text.as_deref(), Some("import { Label } from 'x';\n"));
    let java = apply_to_text(
        "/p/A.java",
        "import a.B;\nimport a.C;\n",
        &vec![fix(1, vec![edit(1, "a.B", "a.C")])],
        &JavaFixProvider::new(),
    );
    assert_eq!(java.text.as_deref(), Some("import a.C;\n\n"));
}

#[test]
fn fixes_go_from_the_bottom_up() {
    let mut first = fix(3, vec![]);
    first.description = "first".to_string();
    let mut second = fix(3, vec![]);
    second.description = "second".to_string();
    let sorted = sort_by_line(&vec![fix(1, vec![]), first, fix(7, vec![]), second]);
    let lines: Vec<u32> = sorted.iter().map(|f| f.line).collect();
    assert_eq!(lines, vec![7, 3, 3, 1]);
    assert_eq!(sorted[1].description, "first");
    assert_eq!(sorted[2].description, "second");
    let mut plan = FixPlan::default();
    plan.files
        .insert("/p/a.ts".to_string(), vec![fix(1, vec![]), fix(2, vec![])]);
    order_fixes(&mut plan);
    assert_eq!(plan.files.get("/p/a.ts").unwrap()[0].line, 2);
}

fn insert_edit(name: &str) -> TextEdit {
    let mut e = edit(5, "  }", &format!("    \"{}\": \"1\"\n  }}", name));
    e.description = format!("Add {} 1 to dependencies", name);
    e
}

#[test]
fn inserts_before_the_same_brace_are_merged() {
    let mut plan = FixPlan::default();
    plan.files.insert(
        "/p/package.json".to_string(),
        vec![
            fix(5, vec![insert_edit("a")]),
            fix(5, vec![insert_edit("b")]),
            fix(5, vec![insert_edit("a")]),
        ],
    );
    merge_dependency_inserts(&mut plan);
    let fixes = plan.files.get("/p/package.json").unwrap();
    assert_eq!(
        fixes[0].edits[0].new_text,
        "    \"a\": \"1\",\n    \"b\": \"1\"\n  }"
    );
    assert_eq!(
        fixes[0].edits[0].description,
        "Add 2 dependencies to package.json"
    );
    assert_eq!(fixes[1].edits[0].old_text, "__MERGED_DEPENDENCY_INSERT__");
    assert_eq!(fixes[2].edits[0].old_text, "__MERGED_DEPENDENCY_INSERT__");

    let mut other = FixPlan::default();
    other.files.insert(
        "/p/other.json".to_string(),
        vec![fix(5, vec![insert_edit("a"), insert_edit("b")])],
    );
    merge_dependency_inserts(&mut other);
    assert_eq!(
        other.files.get("/p/other.json").unwrap()[0].edits[1].old_text,
        "  }"
    );
}

#[test]
fn whole_file_renames_take_longer_names_first() {
    let mut report = FixReport::new();
    let fix = plan_rename_in(
        "r",
        &incident("file:///p/a.tsx", 1, vec![]),
        &vec![mapping("Chip", "Label"), mapping("ChipGroup", "LabelGroup"), mapping("Same", "Same")],
        "Chip",
        true,
        Ok("import { ChipGroup } from 'x';\n<Chip Same />\n"),
        &mut report,
    )
    .unwrap();
    assert_eq!(fix.edits.len(), 2);
    assert_eq!(fix.edits[0].line, 1);
    assert_eq!(fix.edits[0].old_text, "ChipGroup");
    assert_eq!(fix.edits[1].line, 2);
    assert_eq!(fix.edits[1].old_text, "Chip");
    assert_eq!(
        fix.description,
        "Rename 'ChipGroup' -> 'LabelGroup', 'Chip' -> 'Label'"
    );
    assert!(report.skipped.is_empty());
}

#[test]
fn renames_say_why_they_give_up() {
    let mut report = FixReport::new();
    let at = incident("file:///p/a.tsx", 1, vec![]);
    let none = plan_rename_in(
        "r",
        &at,
        &vec![mapping("A", "A")],
        "A",
        false,
        Ok("A\n"),
        &mut report,
    );
    assert!(none.is_none());
    assert_eq!(report.skipped[0].reason, SkipReason::NoOpRename);
    let none = plan_rename_in(
        "r",
        &at,
        &vec![mapping("B", "C")],
        "",
        false,
        Ok("A\n"),
        &mut report,
    );
    assert!(none.is_none());
    assert_eq!(report.skipped[1].reason, SkipReason::TextNotFound);
    assert_eq!(
        report.skipped[1].detail.as_deref(),
        Some("none of the rename mappings matched text on line 1")
    );
    let none = plan_rename_in(
        "r",
        &at,
        &vec![mapping("B", "C")],
        "",
        false,
        Err("gone".to_string()),
        &mut report,
    );
    assert!(none.is_none());
    assert_eq!(report.skipped[2].reason, SkipReason::FileUnreadable);
    assert_eq!(report.skipped[2].detail.as_deref(), Some("gone"));
    let mut nowhere = incident("file:///p/a.tsx", 1, vec![]);
    nowhere.line_number = None;
    assert!(plan_rename_in(
        "r",
        &nowhere,
        &vec![mapping("B", "C")],
        "",
        false,
        Ok("B\n"),
        &mut report
    )
    .is_none());
    assert_eq!(report.skipped[3].reason, SkipReason::NoLineNumber);
}

#[test]
fn renames_reach_the_lines_around() {
    let mut report = FixReport::new();
    let fix = plan_rename_in(
        "r",
        &incident("file:///p/a.tsx", 3, vec![]),
        &vec![mapping("old", "fresh")],
        "old",
        false,
        Ok("old\n.\nold old\n.\nold\n.\n.\nold\nold\n"),
        &mut report,
    )
    .unwrap();
    let lines: Vec<u32> = fix.edits.iter().map(|e| e.line).collect();
    assert_eq!(lines, vec![3, 1, 5]);
}

#[test]
fn planning_maps_rules_to_strategies() {
    let ws = workspace(vec![
        ("/p/src/a.tsx", "import { Chip } from 'x';\n<Chip isActive />\n"),
        ("/p/node_modules/b.tsx", "Chip\n"),
    ]);
    let output = vec![rule_set(vec![
        (
            "rename",
            vec![],
            vec![incident("file:///p/src/a.tsx", 1, vec![("importedName", "Chip")])],
        ),
        (
            "removal",
            vec!["change-type=prop-removal"],
            vec![incident("file:///p/src/a.tsx", 2, vec![("propName", "isActive")])],
        ),
        (
            "structure",
            vec!["change-type=dom-structure"],
            vec![incident("file:///p/src/a.tsx", 2, vec![])],
        ),
        (
            "unknown",
            vec!["change-type=rename"],
            vec![
                incident("file:///p/src/a.tsx", 2, vec![("v", "w")]),
                incident("file:///p/node_modules/b.tsx", 1, vec![]),
            ],
        ),
    ])];
    let mut strategies = TextTable::new();
    strategies.insert(
        "rename".to_string(),
        FixStrategy::Rename(vec![mapping("Chip", "Label")]),
    );
    let mut report = FixReport::new();
    let plan = plan_fixes(&output, "/p", &strategies, &JsFixProvider::new(), &ws, &mut report);
    assert_eq!(plan.files.len(), 1);
    let fixes = plan.files.get("/p/src/a.tsx").unwrap();
    assert_eq!(fixes.len(), 2);
    assert_eq!(fixes[0].rule_id, "removal");
    assert_eq!(fixes[1].rule_id, "rename");
    assert!(fixes[1].edits.iter().all(|e| e.replace_all));
    assert_eq!(plan.manual.len(), 1);
    assert_eq!(plan.manual[0].rule_id, "structure");
    assert_eq!(plan.pending_llm.len(), 1);
    assert_eq!(
        plan.pending_llm[0].message,
        "message\n\nIncident context:\n  v: w"
    );
    assert!(report.skipped.is_empty());

    let (result, writes) = apply_fixes(&plan, &JsFixProvider::new(), &ws);
    assert_eq!(result.edits_applied, 3);
    assert_eq!(
        writes[0].1,
        "import { Label } from 'x';\n<Label />\n"
    );
}

#[test]
fn planning_only_adds_to_the_report() {
    let ws = workspace(vec![]);
    let output = vec![rule_set(vec![(
        "path",
        vec![],
        vec![incident("file:///p/gone.ts", 1, vec![])],
    )])];
    let mut strategies = TextTable::new();
    strategies.insert(
        "path".to_string(),
        FixStrategy::ImportPathChange {
            old_path: "a".to_string(),
            new_path: "b".to_string(),
        },
    );
    let mut report = FixReport::new();
    report.record_skip("earlier", "f", None, SkipReason::NoOpRename, None);
    let plan = plan_fixes(
        &output,
        "/p",
        &strategies,
        &NoOpLanguageFixProvider,
        &ws,
        &mut report,
    );
    assert!(plan.files.is_empty());
    assert_eq!(report.skipped.len(), 2);
    assert_eq!(report.skipped[0].rule_id, "earlier");
    assert_eq!(report.skipped[1].reason, SkipReason::FileUnreadable);
}

#[test]
fn css_prefixes_respect_classes_that_are_gone() {
    let ws = workspace(vec![("/p/a.css", ".pf-v5-c-a .pf-v5-c-b\n")]);
    let output = vec![rule_set(vec![
        (
            "css",
            vec![],
            vec![
                incident("file:///p/a.css", 1, vec![("matchingText", "pf-v5-c-a")]),
                incident("file:///p/a.css", 1, vec![("matchingText", "pf-v5-c-gone")]),
                incident("file:///p/a.css", 1, vec![("matchingText", "pf-v5-u-x")]),
            ],
        ),
        (
            "dead",
            vec!["change-type=css-dead-class"],
            vec![incident("file:///p/a.css", 1, vec![("className", "pf-v6-c-gone")])],
        ),
    ])];
    assert_eq!(collect_dead_css_classes(&output), vec!["pf-v6-c-gone"]);
    let mut strategies = TextTable::new();
    strategies.insert(
        "css".to_string(),
        FixStrategy::CssVariablePrefix {
            old_prefix: "pf-v5-".to_string(),
            new_prefix: "pf-v6-".to_string(),
            exclude_patterns: vec!["-u-".to_string()],
        },
    );
    strategies.insert("dead".to_string(), FixStrategy::Manual);
    let mut report = FixReport::new();
    let plan = plan_fixes(
        &output,
        "/p",
        &strategies,
        &NoOpLanguageFixProvider,
        &ws,
        &mut report,
    );
    assert_eq!(plan.files.len(), 1);
    let (_, writes) = apply_fixes(&plan, &NoOpLanguageFixProvider, &ws);
    assert_eq!(writes[0].1, ".pf-v6-c-a .pf-v6-c-b\n");
    assert_eq!(plan.manual.len(), 3);
    assert!(plan.manual[0].message.contains("swap suppressed — 'pf-v6-c-gone'"));
    assert!(plan.manual[1].message.starts_with("CSS class 'pf-v5-u-x' was removed"));
}

#[test]
fn dependencies_in_scripts_are_left_to_a_model() {
    let ws = workspace(vec![("/p/a.tsx", "x\n"), ("/p/package.json", "{}\n")]);
    let output = vec![rule_set(vec![(
        "dep",
        vec![],
        vec![incident(
            "file:///p/a.tsx",
            1,
            vec![("importedName", "Chart"), ("module", "charts")],
        )],
    )])];
    let mut strategies = TextTable::new();
    strategies.insert(
        "dep".to_string(),
        FixStrategy::EnsureDependency {
            package: "charts/victory".to_string(),
            new_version: "^8".to_string(),
            old_package: None,
        },
    );
    let mut report = FixReport::new();
    let plan = plan_fixes(&output, "/p", &strategies, &JsFixProvider::new(), &ws, &mut report);
    assert_eq!(plan.pending_llm.len(), 1);
    assert!(plan.pending_llm[0]
        .message
        .starts_with("Import 'Chart' is from 'charts' but needs to move to 'charts/victory' (version ^8)."));
}

#[test]
fn nothing_to_plan_gives_an_empty_plan() {
    let mut report = FixReport::new();
    let plan = plan_fixes(
        &Vec::new(),
        "/p",
        &TextTable::new(),
        &JsFixProvider::new(),
        &Workspace::new(),
        &mut report,
    );
    assert!(plan.files.is_empty());
    assert!(plan.manual.is_empty());
    assert!(plan.pending_llm.is_empty());
    assert_eq!(plan.edits_subsumed, 0);
    assert!(report.skipped.is_empty());
}

fn request(rule: &str, path: &str, labels: Vec<&str>, tests: Vec<&str>) -> LlmFixRequest {
    LlmFixRequest {
        rule_id: rule.to_string(),
        file_uri: format!("file://{}", path),
        file_path: path.to_string(),
        line: 4,
        message: "changes".to_string(),
        code_snip: None,
        source: None,
        labels: labels.into_iter().map(|s| s.to_string()).collect(),
        companion_test_files: tests.into_iter().map(|s| s.to_string()).collect(),
    }
}

#[test]
fn each_test_file_gets_one_request() {
    let requests = vec![
        request("a", "/p/A.tsx", vec!["change-type=test-impact"], vec!["/p/A.test.tsx", "/p/B.test.tsx"]),
        request("b", "/p/B.tsx", vec!["change-type=test-impact"], vec!["/p/B.test.tsx"]),
        request("c", "/p/C.tsx", vec![], vec!["/p/C.test.tsx"]),
    ];
    let made = generate_test_fix_requests(&requests);
    assert_eq!(made.len(), 2);
    assert_eq!(made[0].rule_id, "test-fix:a");
    assert_eq!(made[0].file_path, "/p/A.test.tsx");
    assert_eq!(made[0].file_uri, "file:///p/A.test.tsx");
    assert_eq!(made[0].line, 1);
    assert!(made[0].message.starts_with("The component file A.tsx was modified"));
    assert_eq!(made[1].file_path, "/p/B.test.tsx");
    assert_eq!(made[1].rule_id, "test-fix:a");
}

#[test]
fn a_planned_dependency_is_added() {
    let text = "{\n  \"dependencies\": {\n    \"x\": \"1.0.0\"\n  }\n}\n";
    let ws = workspace(vec![("/p/package.json", text)]);
    let fix =
        plan_ensure_npm_dependency_inner("r", "/p/package.json", "y", "^2.0.0", &ws).unwrap();
    let done = apply_to_text("/p/package.json", text, &vec![fix], &NoOpLanguageFixProvider);
    assert!(done.failed.is_empty());
    assert_eq!(
        done.text.as_deref(),
        Some("{\n  \"dependencies\": {\n    \"x\": \"1.0.0\",\n    \"y\": \"^2.0.0\"\n  }\n}\n")
    );
}

#[test]
fn every_edit_is_applied_or_recorded_or_repeated() {
    let edits = vec![
        edit(1, "a", "b"),
        edit(1, "a", "b"),
        edit(2, "z", "y"),
        edit(8, "a", "b"),
        edit(2, "c", "d"),
    ];
    let done = apply_to_text("/p", "a\nc\n", &vec![fix(1, edits)], &NoOpLanguageFixProvider);
    assert_eq!(done.applied, 2);
    assert_eq!(done.failed.len(), 2);
    assert_eq!(done.text.as_deref(), Some("b\nd\n"));
}

#[test]
fn a_failing_hook_is_one_more_error() {
    let ws = workspace(vec![("/p/a.ts", "one\n")]);
    let mut plan = FixPlan::default();
    plan.files
        .insert("/p/a.ts".to_string(), vec![fix(1, vec![edit(1, "one", "1")])]);
    plan.files
        .insert("/p/gone.ts".to_string(), vec![fix(1, vec![edit(1, "one", "1")])]);
    let (mut result, _) = apply_fixes(&plan, &NoOpLanguageFixProvider, &ws);
    note_hook(&mut result, Ok(()));
    assert_eq!(result.errors.len(), 1);
    note_hook(&mut result, Err("no npm".to_string()));
    assert_eq!(result.errors.len(), 2);
    assert_eq!(result.errors[1], "Post-apply hook failed: no npm");
    assert_eq!(result.modified_files, vec!["/p/a.ts"]);
    assert_eq!(result.edits_applied, 1);
}

#[test]
fn naming_the_fallback_strategies_changes_no_plan() {
    let ws = workspace(vec![("/p/a.tsx", "<A isOn />\n")]);
    let output = vec![rule_set(vec![
        (
            "labelled",
            vec!["change-type=prop-removal"],
            vec![incident("file:///p/a.tsx", 1, vec![("propName", "isOn")])],
        ),
        ("plain", vec![], vec![incident("file:///p/a.tsx", 1, vec![])]),
        (
            "known",
            vec!["change-type=prop-removal"],
            vec![incident("file:///p/a.tsx", 1, vec![("propName", "isOn")])],
        ),
    ])];
    let mut strategies = TextTable::new();
    strategies.insert("known".to_string(), FixStrategy::Manual);
    let mut report = FixReport::new();
    let plan = plan_fixes(&output, "/p", &strategies, &JsFixProvider::new(), &ws, &mut report);
    strategies.insert("labelled".to_string(), FixStrategy::RemoveAttribute);
    strategies.insert("plain".to_string(), FixStrategy::Llm { context: None });
    let mut again = FixReport::new();
    let same = plan_fixes(&output, "/p", &strategies, &JsFixProvider::new(), &ws, &mut again);
    assert_eq!(plan.manual.len(), 1);
    assert_eq!(plan.pending_llm.len(), 1);
    assert_eq!(plan.files.len(), 1);
    assert_eq!(format!("{:?}", plan), format!("{:?}", same));
}
