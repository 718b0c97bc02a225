use fix_engine::answers::parse_answer;
use fix_engine::cli::{
    accept_answer, apply_detail, count_pattern_fixes, count_totals, distinct_errors,
    is_json_input, leave_pending_to_person, manual_file_name, note_failure, note_goose_failures,
    partition_skips, plan_detail, reason_summary, requests_by_file, strategies_detail,
    summary_lines, ColorMode, FixOpts, LlmProvider, OutputFormat, PatternStage, RequestStage,
    Summary,
};
use fix_engine::model::{
    FixConfidence, FixPlan, FixReport, FixResult, FixSource, LlmFixRequest, PlannedFix, SkipReason,
    TextEdit,
};
use fix_engine::report::{Incident, RuleFindings, Violation};
use fix_engine::table::TextTable;

fn options() -> FixOpts {
    FixOpts {
        project: "/p".to_string(),
        input: "/in.yaml".to_string(),
        dry_run: false,
        llm_provider: None,
        llm_endpoint: None,
        strategies: Vec::new(),
        log_dir: None,
        verbose: false,
        quiet: false,
        output_format: OutputFormat::default(),
        color: ColorMode::default(),
    }
}

#[test]
fn defaults_of_the_options() {
    let mut opts = options();
    assert_eq!(opts.output_format, OutputFormat::Text);
    assert_eq!(opts.color, ColorMode::Auto);
    assert!(opts.should_apply());
    opts.dry_run = true;
    assert!(!opts.should_apply());
}

#[test]
fn an_endpoint_stands_for_its_provider() {
    let mut opts = options();
    assert_eq!(opts.effective_provider(), None);
    opts.llm_endpoint = Some("http://x".to_string());
    assert_eq!(opts.effective_provider(), Some(LlmProvider::Openai));
    opts.llm_provider = Some(LlmProvider::Goose);
    assert_eq!(opts.effective_provider(), Some(LlmProvider::Goose));
}

#[test]
fn json_begins_with_a_bracket_or_a_brace() {
    assert!(is_json_input("  \n[1]"));
    assert!(is_json_input("{}"));
    assert!(!is_json_input("- name: x"));
    assert!(!is_json_input(""));
}

fn bare_incident() -> Incident {
    Incident {
        file_uri: "file:///a".to_string(),
        line_number: None,
        message: String::new(),
        code_snip: None,
        variables: TextTable::new(),
    }
}

fn sets() -> Vec<RuleFindings> {
    let mut violations = TextTable::new();
    violations.insert(
        "a".to_string(),
        Violation {
            labels: Vec::new(),
            incidents: vec![bare_incident(), bare_incident()],
        },
    );
    violations.insert(
        "b".to_string(),
        Violation {
            labels: Vec::new(),
            incidents: vec![bare_incident()],
        },
    );
    let mut errors = TextTable::new();
    errors.insert("x".to_string(), "broken".to_string());
    errors.insert("y".to_string(), "other".to_string());
    let mut more = TextTable::new();
    more.insert("z".to_string(), "broken".to_string());
    vec![
        RuleFindings {
            name: "one".to_string(),
            violations,
            errors,
        },
        RuleFindings {
            name: "two".to_string(),
            violations: TextTable::new(),
            errors: more,
        },
    ]
}

#[test]
fn an_analysis_is_counted() {
    let totals = count_totals(&sets());
    assert_eq!(totals.violations, 2);
    assert_eq!(totals.incidents, 3);
    assert_eq!(totals.errors, 3);
    assert_eq!(distinct_errors(&sets()), vec!["broken", "other"]);
}

#[test]
fn details_of_a_run() {
    assert_eq!(strategies_detail(3, 0, 1), "3 strategies");
    assert_eq!(
        strategies_detail(3, 2, 2),
        "3 strategies, 2 families, 2 files merged"
    );
    assert_eq!(
        plan_detail(1, 2, 3, 4, 0),
        "1 pattern fixes (2 edits), 3 LLM, 4 manual"
    );
    assert_eq!(
        plan_detail(1, 2, 3, 4, 5),
        "1 pattern fixes (2 edits), 3 LLM, 4 manual, 5 family-consolidated"
    );
    let mut result = FixResult::default();
    result.files_modified = 2;
    result.edits_applied = 5;
    assert_eq!(apply_detail(&result), "2 files, 5 edits");
    result.edits_subsumed = 1;
    assert_eq!(apply_detail(&result), "2 files, 5 edits, 1 subsumed");
}

#[test]
fn file_names_of_manual_items() {
    assert_eq!(manual_file_name("file:///p/src/a.tsx"), "a.tsx");
    assert_eq!(manual_file_name("a.tsx"), "a.tsx");
    assert_eq!(manual_file_name("file:///p/"), "");
}

fn request(path: &str) -> LlmFixRequest {
    LlmFixRequest {
        rule_id: "rule".to_string(),
        file_uri: format!("file://{}", path),
        file_path: path.to_string(),
        line: 3,
        message: "m".to_string(),
        code_snip: Some("c".to_string()),
        source: None,
        labels: Vec::new(),
        companion_test_files: Vec::new(),
    }
}

fn answer(edits: usize, source: FixSource) -> PlannedFix {
    let mut list = Vec::new();
    for i in 0..edits {
        list.push(TextEdit {
            line: i as u32,
            old_text: "a".to_string(),
            new_text: "b".to_string(),
            rule_id: "rule".to_string(),
            description: String::new(),
            replace_all: false,
        });
    }
    PlannedFix {
        edits: list,
        confidence: FixConfidence::Medium,
        source,
        rule_id: "rule".to_string(),
        file_uri: "file:///a".to_string(),
        line: 3,
        description: String::new(),
    }
}

#[test]
fn pattern_fixes_are_counted() {
    let mut plan = FixPlan::default();
    plan.files.insert(
        "/a".to_string(),
        vec![
            answer(2, FixSource::Pattern),
            answer(7, FixSource::Llm),
            answer(1, FixSource::Pattern),
        ],
    );
    assert_eq!(count_pattern_fixes(&plan), (2, 3));
}

#[test]
fn answers_with_edits_go_into_the_plan() {
    let mut plan = FixPlan::default();
    let mut report = FixReport::new();
    let taken = accept_answer(
        &mut plan,
        &mut report,
        &request("/a"),
        vec![answer(0, FixSource::Llm), answer(2, FixSource::Llm)],
    );
    assert_eq!(taken, 1);
    assert_eq!(plan.files.get("/a").unwrap().len(), 1);
    assert!(plan.manual.is_empty());
    assert!(report.skipped.is_empty());
}

#[test]
fn empty_answers_are_left_to_a_person() {
    let mut plan = FixPlan::default();
    let mut report = FixReport::new();
    let taken = accept_answer(
        &mut plan,
        &mut report,
        &request("/a"),
        vec![answer(0, FixSource::Llm)],
    );
    assert_eq!(taken, 0);
    assert!(plan.files.is_empty());
    assert_eq!(plan.manual.len(), 1);
    assert_eq!(plan.manual[0].line, 3);
    assert_eq!(plan.manual[0].code_snip.as_deref(), Some("c"));
    assert_eq!(report.skipped[0].reason, SkipReason::EmptyLlmResponse);

    note_failure(
        &mut plan,
        &mut report,
        &request("/b"),
        SkipReason::LlmError,
        Some("refused".to_string()),
    );
    assert_eq!(plan.manual.len(), 2);
    assert_eq!(report.skipped[1].reason, SkipReason::LlmError);
    assert_eq!(report.skipped[1].detail.as_deref(), Some("refused"));
    assert_eq!(report.skipped[1].file, "file:///b");
}

#[test]
fn failed_files_are_left_to_a_person() {
    let requests = vec![request("/b"), request("/a"), request("/b")];
    let files = requests_by_file(&requests);
    assert_eq!(files.len(), 2);
    assert_eq!(files.key(0), "/a");
    assert_eq!(files.value(1).len(), 2);
    let mut plan = FixPlan::default();
    let mut report = FixReport::new();
    note_goose_failures(&mut plan, &mut report, &files, &vec![true, false]);
    assert_eq!(plan.manual.len(), 2);
    assert_eq!(report.skipped.len(), 2);
    assert_eq!(report.skipped[0].reason, SkipReason::GooseFailed);
    assert_eq!(report.skipped[0].file, "file:///b");
}

#[test]
fn pending_requests_are_left_to_a_person() {
    let mut plan = FixPlan::default();
    plan.pending_llm = vec![request("/a"), request("/b")];
    leave_pending_to_person(&mut plan);
    assert!(plan.pending_llm.is_empty());
    assert_eq!(plan.manual.len(), 2);
    assert_eq!(plan.manual[1].file_uri, "file:///b");
}

#[test]
fn skips_are_parted_by_reason() {
    let mut report = FixReport::new();
    for reason in [
        SkipReason::TextNotFound,
        SkipReason::AlreadyMigrated,
        SkipReason::NoOpRename,
        SkipReason::FileUnreadable,
        SkipReason::TextNotFound,
        SkipReason::VersionAlreadyCompatible,
    ] {
        report.record_skip("r", "f", Some(1), reason, None);
    }
    let (worth, done) = partition_skips(&report);
    assert_eq!(worth.len(), 3);
    assert_eq!(done, 2);
    assert_eq!(worth[1].reason, SkipReason::FileUnreadable);
    let summary = reason_summary(&worth);
    assert!(summary.contains(&format!("2 {}", SkipReason::TextNotFound.label())));
    assert!(summary.contains(&format!("1 {}", SkipReason::FileUnreadable.label())));
    assert_eq!(summary.matches(", ").count(), 1);
}

#[test]
fn fixes_are_written_or_shown() {
    let mut opts = options();
    assert_eq!(opts.pattern_stage(2), PatternStage::Apply);
    assert_eq!(opts.pattern_stage(0), PatternStage::Nothing);
    opts.dry_run = true;
    assert_eq!(opts.pattern_stage(2), PatternStage::Preview);
    assert_eq!(opts.pattern_stage(0), PatternStage::Preview);
}

#[test]
fn requests_go_to_the_provider_or_to_a_person() {
    let mut opts = options();
    assert_eq!(opts.request_stage(1), RequestStage::LeaveToPerson);
    opts.llm_endpoint = Some("http://x".to_string());
    assert_eq!(opts.request_stage(1), RequestStage::AskEndpoint);
    opts.llm_provider = Some(LlmProvider::Goose);
    assert_eq!(opts.request_stage(1), RequestStage::RunGoose);
    opts.dry_run = true;
    assert_eq!(opts.request_stage(1), RequestStage::ListForGoose);
    assert_eq!(opts.request_stage(0), RequestStage::Nothing);
}

#[test]
fn summary_leaves_out_what_did_not_happen() {
    let mut summary = Summary {
        applied: true,
        pattern_fixes: 0,
        pattern_edits: 0,
        files: 0,
        skipped: 0,
        done: 0,
        manual: 0,
        warnings: 0,
    };
    assert!(summary_lines(&summary).is_empty());
    summary.pattern_fixes = 3;
    summary.pattern_edits = 12;
    summary.files = 2;
    summary.manual = 4;
    assert_eq!(
        summary_lines(&summary),
        vec![
            "  Pattern fixes:  12 applied across 2 files",
            "  Manual review:  4 incidents remaining",
        ]
    );
    summary.applied = false;
    summary.skipped = 1;
    summary.done = 5;
    summary.manual = 0;
    summary.warnings = 2;
    assert_eq!(
        summary_lines(&summary),
        vec![
            "  Pattern fixes:  12 planned across 2 files",
            "  Skipped:        1 incidents",
            "  Already done:   5 incidents",
            "  Warnings:       2",
        ]
    );
}

#[test]
fn fix_blocks_of_an_answer_become_edits() {
    let reply = "Here you go:\nLINE:1\n```fix\nLINE: 7\nOLD:  <Old a />\nNEW:  <New a />\n```\n\n\
                 ```fix\nLINE:x\nOLD:a\nNEW:b\n```\n```fix\nLINE:9\nOLD:c\nNEW:\n```\n";
    let fixes = parse_answer(&request("/p/a.tsx"), reply);
    assert_eq!(fixes.len(), 1);
    let fix = &fixes[0];
    assert_eq!(fix.rule_id, "rule");
    assert_eq!(fix.file_uri, "file:///p/a.tsx");
    assert_eq!(fix.line, 3);
    assert_eq!(fix.source, FixSource::Llm);
    assert_eq!(fix.confidence, FixConfidence::Medium);
    assert_eq!(fix.edits.len(), 2);
    assert_eq!(fix.edits[0].line, 7);
    assert_eq!(fix.edits[0].old_text, "  <Old a />");
    assert_eq!(fix.edits[0].new_text, "  <New a />");
    assert_eq!(fix.edits[1].line, 9);
    assert_eq!(fix.edits[1].old_text, "c");
    assert_eq!(fix.edits[1].new_text, "");
}

#[test]
fn answer_without_blocks_has_no_edits() {
    let fixes = parse_answer(&request("/p/a.tsx"), "Nothing to change.");
    assert_eq!(fixes.len(), 1);
    assert!(fixes[0].edits.is_empty());
}
