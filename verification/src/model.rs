//! The data model of planned fixes: text edits grouped by file, manual items,
//! requests to a language model, results and reports.

use crate::table::PathTable;
use crate::text::owned;
use crate::views::{append_one, copy_option, copy_texts};
use vstd::prelude::*;

verus! {

broadcast use vstd::string::group_string_axioms;

/// How sure a fix is.
#[derive(Debug, Clone, Copy, PartialEq, Eq, Structural)]
pub enum FixConfidence {
    Exact,
    High,
    Medium,
    Low,
}

impl DeepView for FixConfidence {
    type V = FixConfidence;

    open spec fn deep_view(&self) -> FixConfidence {
        *self
    }
}

/// How a fix was made.
#[derive(Debug, Clone, Copy, PartialEq, Eq, Structural)]
pub enum FixSource {
    Pattern,
    Llm,
    Manual,
}

impl DeepView for FixSource {
    type V = FixSource;

    open spec fn deep_view(&self) -> FixSource {
        *self
    }
}

/// A single text replacement within a file.
#[derive(Debug)]
pub struct TextEdit {
    /// The line the edit applies to, counted from one.
    pub line: u32,
    /// The text to find on this line.
    pub old_text: String,
    /// The replacement text.
    pub new_text: String,
    /// The rule that generated this edit.
    pub rule_id: String,
    /// What this edit does.
    pub description: String,
    /// Replace all occurrences of `old_text` on the line, not just the first.
    pub replace_all: bool,
}

/// What a [`TextEdit`] holds.
#[verifier::ext_equal]
pub ghost struct TextEditView {
    pub line: u32,
    pub old_text: Seq<char>,
    pub new_text: Seq<char>,
    pub rule_id: Seq<char>,
    pub description: Seq<char>,
    pub replace_all: bool,
}

impl DeepView for TextEdit {
    type V = TextEditView;

    open spec fn deep_view(&self) -> TextEditView {
        TextEditView {
            line: self.line.deep_view(),
            old_text: self.old_text.deep_view(),
            new_text: self.new_text.deep_view(),
            rule_id: self.rule_id.deep_view(),
            description: self.description.deep_view(),
            replace_all: self.replace_all.deep_view(),
        }
    }
}

/// A planned fix for a single incident.
#[derive(Debug)]
pub struct PlannedFix {
    /// The text edits to apply.
    pub edits: Vec<TextEdit>,
    /// How sure the fix is.
    pub confidence: FixConfidence,
    /// How the fix was made.
    pub source: FixSource,
    /// The rule this fix addresses.
    pub rule_id: String,
    /// The file, as the incident names it.
    pub file_uri: String,
    /// The line, as the incident names it.
    pub line: u32,
    /// What this fix does.
    pub description: String,
}

/// What a [`PlannedFix`] holds.
#[verifier::ext_equal]
pub ghost struct PlannedFixView {
    pub edits: Seq<TextEditView>,
    pub confidence: FixConfidence,
    pub source: FixSource,
    pub rule_id: Seq<char>,
    pub file_uri: Seq<char>,
    pub line: u32,
    pub description: Seq<char>,
}

impl DeepView for PlannedFix {
    type V = PlannedFixView;

    open spec fn deep_view(&self) -> PlannedFixView {
        PlannedFixView {
            edits: self.edits.deep_view(),
            confidence: self.confidence.deep_view(),
            source: self.source.deep_view(),
            rule_id: self.rule_id.deep_view(),
            file_uri: self.file_uri.deep_view(),
            line: self.line.deep_view(),
            description: self.description.deep_view(),
        }
    }
}

/// An incident that a person has to fix.
#[derive(Debug)]
pub struct ManualFixItem {
    pub rule_id: String,
    pub file_uri: String,
    pub line: u32,
    pub message: String,
    pub code_snip: Option<String>,
}

/// What a [`ManualFixItem`] holds.
#[verifier::ext_equal]
pub ghost struct ManualFixItemView {
    pub rule_id: Seq<char>,
    pub file_uri: Seq<char>,
    pub line: u32,
    pub message: Seq<char>,
    pub code_snip: Option<Seq<char>>,
}

impl DeepView for ManualFixItem {
    type V = ManualFixItemView;

    open spec fn deep_view(&self) -> ManualFixItemView {
        ManualFixItemView {
            rule_id: self.rule_id.deep_view(),
            file_uri: self.file_uri.deep_view(),
            line: self.line.deep_view(),
            message: self.message.deep_view(),
            code_snip: self.code_snip.deep_view(),
        }
    }
}

/// A request to a language model for a fix.
#[derive(Debug)]
pub struct LlmFixRequest {
    pub rule_id: String,
    pub file_uri: String,
    pub file_path: String,
    pub line: u32,
    pub message: String,
    pub code_snip: Option<String>,
    /// The whole text of the file, for context.
    pub source: Option<String>,
    /// Labels of the violation, such as `family=Modal`.
    pub labels: Vec<String>,
    /// Test files that belong to the file.
    pub companion_test_files: Vec<String>,
}

/// What a [`LlmFixRequest`] holds.
#[verifier::ext_equal]
pub ghost struct LlmFixRequestView {
    pub rule_id: Seq<char>,
    pub file_uri: Seq<char>,
    pub file_path: Seq<char>,
    pub line: u32,
    pub message: Seq<char>,
    pub code_snip: Option<Seq<char>>,
    pub source: Option<Seq<char>>,
    pub labels: Seq<Seq<char>>,
    pub companion_test_files: Seq<Seq<char>>,
}

impl DeepView for LlmFixRequest {
    type V = LlmFixRequestView;

    open spec fn deep_view(&self) -> LlmFixRequestView {
        LlmFixRequestView {
            rule_id: self.rule_id.deep_view(),
            file_uri: self.file_uri.deep_view(),
            file_path: self.file_path.deep_view(),
            line: self.line.deep_view(),
            message: self.message.deep_view(),
            code_snip: self.code_snip.deep_view(),
            source: self.source.deep_view(),
            labels: self.labels.deep_view(),
            companion_test_files: self.companion_test_files.deep_view(),
        }
    }
}

/// All planned fixes, grouped by file.
#[derive(Debug)]
pub struct FixPlan {
    /// The fixes of each file.
    pub files: PathTable<Vec<PlannedFix>>,
    /// Incidents that need a person.
    pub manual: Vec<ManualFixItem>,
    /// Incidents that wait for a language model.
    pub pending_llm: Vec<LlmFixRequest>,
    /// Edits that a more specific edit on the same line made unnecessary.
    pub edits_subsumed: usize,
}

/// What a [`FixPlan`] holds.
#[verifier::ext_equal]
pub ghost struct FixPlanView {
    pub files: Seq<(Seq<char>, Seq<PlannedFixView>)>,
    pub manual: Seq<ManualFixItemView>,
    pub pending_llm: Seq<LlmFixRequestView>,
    pub edits_subsumed: usize,
}

impl DeepView for FixPlan {
    type V = FixPlanView;

    open spec fn deep_view(&self) -> FixPlanView {
        FixPlanView {
            files: self.files.deep_view(),
            manual: self.manual.deep_view(),
            pending_llm: self.pending_llm.deep_view(),
            edits_subsumed: self.edits_subsumed.deep_view(),
        }
    }
}

/// Why an edit could not be applied.
#[derive(Debug)]
pub enum FailedEditReason {
    TextNotFoundOnLine { actual_line: String },
    LineOutOfBounds { total_lines: usize },
}

/// What a [`FailedEditReason`] holds.
pub ghost enum FailedEditReasonView {
    TextNotFoundOnLine { actual_line: Seq<char> },
    LineOutOfBounds { total_lines: usize },
}

impl DeepView for FailedEditReason {
    type V = FailedEditReasonView;

    open spec fn deep_view(&self) -> FailedEditReasonView {
        match self {
            FailedEditReason::TextNotFoundOnLine {
                actual_line,
            } => FailedEditReasonView::TextNotFoundOnLine { actual_line: actual_line@ },
            FailedEditReason::LineOutOfBounds {
                total_lines,
            } => FailedEditReasonView::LineOutOfBounds { total_lines: *total_lines },
        }
    }
}

/// An edit that could not be applied.
#[derive(Debug)]
pub struct FailedEdit {
    pub file: String,
    pub line: u32,
    pub rule_id: String,
    pub old_text: String,
    pub reason: FailedEditReason,
}

/// What a [`FailedEdit`] holds.
#[verifier::ext_equal]
pub ghost struct FailedEditView {
    pub file: Seq<char>,
    pub line: u32,
    pub rule_id: Seq<char>,
    pub old_text: Seq<char>,
    pub reason: FailedEditReasonView,
}

impl DeepView for FailedEdit {
    type V = FailedEditView;

    open spec fn deep_view(&self) -> FailedEditView {
        FailedEditView {
            file: self.file.deep_view(),
            line: self.line.deep_view(),
            rule_id: self.rule_id.deep_view(),
            old_text: self.old_text.deep_view(),
            reason: self.reason.deep_view(),
        }
    }
}

/// What came of applying a fix plan.
#[derive(Debug)]
pub struct FixResult {
    /// How many files were changed.
    pub files_modified: usize,
    /// How many edits were applied.
    pub edits_applied: usize,
    /// How many edits were skipped: line out of bounds or text not found.
    pub edits_skipped: usize,
    /// How many edits a more specific edit made unnecessary.
    pub edits_subsumed: usize,
    /// Errors on the way.
    pub errors: Vec<String>,
    /// The edits that were skipped.
    pub failed_edits: Vec<FailedEdit>,
    /// The files that were changed.
    pub modified_files: Vec<String>,
}

/// What a [`FixResult`] holds.
#[verifier::ext_equal]
pub ghost struct FixResultView {
    pub files_modified: usize,
    pub edits_applied: usize,
    pub edits_skipped: usize,
    pub edits_subsumed: usize,
    pub errors: Seq<Seq<char>>,
    pub failed_edits: Seq<FailedEditView>,
    pub modified_files: Seq<Seq<char>>,
}

impl DeepView for FixResult {
    type V = FixResultView;

    open spec fn deep_view(&self) -> FixResultView {
        FixResultView {
            files_modified: self.files_modified.deep_view(),
            edits_applied: self.edits_applied.deep_view(),
            edits_skipped: self.edits_skipped.deep_view(),
            edits_subsumed: self.edits_subsumed.deep_view(),
            errors: self.errors.deep_view(),
            failed_edits: self.failed_edits.deep_view(),
            modified_files: self.modified_files.deep_view(),
        }
    }
}

/// A rename: old name to new name.
#[derive(Debug)]
pub struct RenameMapping {
    pub old: String,
    pub new: String,
}

/// What a [`RenameMapping`] holds.
#[verifier::ext_equal]
pub ghost struct RenameMappingView {
    pub old: Seq<char>,
    pub new: Seq<char>,
}

impl DeepView for RenameMapping {
    type V = RenameMappingView;

    open spec fn deep_view(&self) -> RenameMappingView {
        RenameMappingView {
            old: self.old.deep_view(),
            new: self.new.deep_view(),
        }
    }
}

/// Why an incident was passed over.
#[derive(Debug, Clone, Copy, PartialEq, Eq, Structural)]
pub enum SkipReason {
    NoLineNumber,
    FileUnreadable,
    LineOutOfBounds,
    TextNotFound,
    NotInImportBlock,
    AlreadyMigrated,
    VersionAlreadyCompatible,
    NoOpRename,
    GooseFailed,
    EmptyLlmResponse,
    LlmError,
}

impl DeepView for SkipReason {
    type V = SkipReason;

    open spec fn deep_view(&self) -> SkipReason {
        *self
    }
}

/// An incident that was passed over.
#[derive(Debug)]
pub struct SkippedIncident {
    pub rule_id: String,
    pub file: String,
    pub line: Option<u32>,
    pub reason: SkipReason,
    pub detail: Option<String>,
}

/// What a [`SkippedIncident`] holds.
#[verifier::ext_equal]
pub ghost struct SkippedIncidentView {
    pub rule_id: Seq<char>,
    pub file: Seq<char>,
    pub line: Option<u32>,
    pub reason: SkipReason,
    pub detail: Option<Seq<char>>,
}

impl DeepView for SkippedIncident {
    type V = SkippedIncidentView;

    open spec fn deep_view(&self) -> SkippedIncidentView {
        SkippedIncidentView {
            rule_id: self.rule_id.deep_view(),
            file: self.file.deep_view(),
            line: self.line.deep_view(),
            reason: self.reason.deep_view(),
            detail: self.detail.deep_view(),
        }
    }
}

/// Something worth a warning.
#[derive(Debug)]
pub struct ReportWarning {
    pub source: String,
    pub message: String,
}

/// What a [`ReportWarning`] holds.
#[verifier::ext_equal]
pub ghost struct ReportWarningView {
    pub source: Seq<char>,
    pub message: Seq<char>,
}

impl DeepView for ReportWarning {
    type V = ReportWarningView;

    open spec fn deep_view(&self) -> ReportWarningView {
        ReportWarningView {
            source: self.source.deep_view(),
            message: self.message.deep_view(),
        }
    }
}

/// What happened on the way: incidents passed over and warnings.
#[derive(Debug)]
pub struct FixReport {
    pub skipped: Vec<SkippedIncident>,
    pub warnings: Vec<ReportWarning>,
}

/// What a [`FixReport`] holds.
#[verifier::ext_equal]
pub ghost struct FixReportView {
    pub skipped: Seq<SkippedIncidentView>,
    pub warnings: Seq<ReportWarningView>,
}

impl DeepView for FixReport {
    type V = FixReportView;

    open spec fn deep_view(&self) -> FixReportView {
        FixReportView {
            skipped: self.skipped.deep_view(),
            warnings: self.warnings.deep_view(),
        }
    }
}


impl SkipReason {
    /// The reason in words.
    pub open spec fn words(&self) -> Seq<char> {
        match self {
            SkipReason::NoLineNumber => "no line number"@,
            SkipReason::FileUnreadable => "file unreadable"@,
            SkipReason::LineOutOfBounds => "line out of bounds"@,
            SkipReason::TextNotFound => "text not found"@,
            SkipReason::NotInImportBlock => "not in import block"@,
            SkipReason::AlreadyMigrated => "already migrated"@,
            SkipReason::VersionAlreadyCompatible => "version already compatible"@,
            SkipReason::NoOpRename => "no-op rename"@,
            SkipReason::GooseFailed => "goose failed"@,
            SkipReason::EmptyLlmResponse => "empty LLM response"@,
            SkipReason::LlmError => "LLM error"@,
        }
    }

    /// The reason in words.
    pub fn label(&self) -> (r: &'static str)
        ensures
            r@ == self.words(),
    {
        match self {
            SkipReason::NoLineNumber => "no line number",
            SkipReason::FileUnreadable => "file unreadable",
            SkipReason::LineOutOfBounds => "line out of bounds",
            SkipReason::TextNotFound => "text not found",
            SkipReason::NotInImportBlock => "not in import block",
            SkipReason::AlreadyMigrated => "already migrated",
            SkipReason::VersionAlreadyCompatible => "version already compatible",
            SkipReason::NoOpRename => "no-op rename",
            SkipReason::GooseFailed => "goose failed",
            SkipReason::EmptyLlmResponse => "empty LLM response",
            SkipReason::LlmError => "LLM error",
        }
    }
}

/// A plan with nothing in it.
pub open spec fn empty_plan() -> FixPlanView {
    FixPlanView {
        files: Seq::empty(),
        manual: Seq::empty(),
        pending_llm: Seq::empty(),
        edits_subsumed: 0,
    }
}

impl Default for FixPlan {
    fn default() -> (r: FixPlan)
        ensures
            r.deep_view() == empty_plan(),
            r.files.in_order(),
    {
        let r = FixPlan {
            files: PathTable::new(),
            manual: Vec::new(),
            pending_llm: Vec::new(),
            edits_subsumed: 0,
        };
        assert(r.deep_view() =~= empty_plan());
        r
    }
}

/// A result with nothing in it.
pub open spec fn empty_result() -> FixResultView {
    FixResultView {
        files_modified: 0,
        edits_applied: 0,
        edits_skipped: 0,
        edits_subsumed: 0,
        errors: Seq::empty(),
        failed_edits: Seq::empty(),
        modified_files: Seq::empty(),
    }
}

impl Default for FixResult {
    fn default() -> (r: FixResult)
        ensures
            r.deep_view() == empty_result(),
    {
        let r = FixResult {
            files_modified: 0,
            edits_applied: 0,
            edits_skipped: 0,
            edits_subsumed: 0,
            errors: Vec::new(),
            failed_edits: Vec::new(),
            modified_files: Vec::new(),
        };
        assert(r.deep_view() =~= empty_result());
        r
    }
}

/// A report with one more incident passed over.
pub open spec fn with_skip(report: FixReportView, skip: SkippedIncidentView) -> FixReportView {
    FixReportView { skipped: report.skipped.push(skip), warnings: report.warnings }
}

/// A report with an incident passed over, where there is one.
pub open spec fn noting(report: FixReportView, skip: Option<SkippedIncidentView>) -> FixReportView {
    match skip {
        Some(s) => with_skip(report, s),
        None => report,
    }
}

impl FixReport {
    /// A report with nothing in it.
    pub fn new() -> (r: FixReport)
        ensures
            r.deep_view() == (FixReportView { skipped: Seq::empty(), warnings: Seq::empty() }),
    {
        let r = FixReport { skipped: Vec::new(), warnings: Vec::new() };
        assert(r.deep_view() =~= FixReportView { skipped: Seq::empty(), warnings: Seq::empty() });
        r
    }

    /// Records an incident that was passed over.
    pub fn record_skip(
        &mut self,
        rule_id: &str,
        file: &str,
        line: Option<u32>,
        reason: SkipReason,
        detail: Option<String>,
    )
        ensures
            final(self).deep_view() == with_skip(
                old(self).deep_view(),
                SkippedIncidentView {
                    rule_id: rule_id@,
                    file: file@,
                    line: line,
                    reason: reason,
                    detail: detail.deep_view(),
                },
            ),
    {
        let skip = SkippedIncident {
            rule_id: owned(rule_id),
            file: owned(file),
            line,
            reason,
            detail,
        };
        append_one(&mut self.skipped, skip);
    }

    /// Records a warning.
    pub fn warn(&mut self, source: &str, message: String)
        ensures
            final(self).deep_view() == (FixReportView {
                skipped: old(self).deep_view().skipped,
                warnings: old(self).deep_view().warnings.push(
                    ReportWarningView { source: source@, message: message@ },
                ),
            }),
    {
        append_one(&mut self.warnings, ReportWarning { source: owned(source), message });
    }
}

// ---------------------------------------------------------------------
// Copies
// ---------------------------------------------------------------------

impl TextEdit {
    /// A copy of the edit.
    pub fn copy(&self) -> (r: TextEdit)
        ensures
            r.deep_view() == self.deep_view(),
    {
        TextEdit {
            line: self.line,
            old_text: self.old_text.clone(),
            new_text: self.new_text.clone(),
            rule_id: self.rule_id.clone(),
            description: self.description.clone(),
            replace_all: self.replace_all,
        }
    }
}

/// A copy of a list of edits.
pub fn copy_edits(v: &Vec<TextEdit>) -> (r: Vec<TextEdit>)
    ensures
        r.deep_view() == v.deep_view(),
{
    let mut r: Vec<TextEdit> = Vec::new();
    let mut i: usize = 0;
    while i < v.len()
        invariant
            i <= v@.len(),
            r@.len() == i,
            forall|k: int| 0 <= k < i ==> (#[trigger] r@[k]).deep_view() == v@[k].deep_view(),
        decreases v@.len() - i,
    {
        r.push(v[i].copy());
        i = i + 1;
    }
    assert(r.deep_view() =~= v.deep_view());
    r
}

impl PlannedFix {
    /// The fix with other edits.
    pub fn with_edits(&self, edits: Vec<TextEdit>) -> (r: PlannedFix)
        ensures
            r.deep_view() == (PlannedFixView { edits: edits.deep_view(), ..self.deep_view() }),
    {
        PlannedFix {
            edits,
            confidence: self.confidence,
            source: self.source,
            rule_id: self.rule_id.clone(),
            file_uri: self.file_uri.clone(),
            line: self.line,
            description: self.description.clone(),
        }
    }

    /// A copy of the fix.
    pub fn copy(&self) -> (r: PlannedFix)
        ensures
            r.deep_view() == self.deep_view(),
    {
        self.with_edits(copy_edits(&self.edits))
    }
}

impl LlmFixRequest {
    /// A copy of the request.
    pub fn copy(&self) -> (r: LlmFixRequest)
        ensures
            r.deep_view() == self.deep_view(),
    {
        LlmFixRequest {
            rule_id: self.rule_id.clone(),
            file_uri: self.file_uri.clone(),
            file_path: self.file_path.clone(),
            line: self.line,
            message: self.message.clone(),
            code_snip: copy_option(&self.code_snip),
            source: copy_option(&self.source),
            labels: copy_texts(&self.labels),
            companion_test_files: copy_texts(&self.companion_test_files),
        }
    }
}

} // verus!
