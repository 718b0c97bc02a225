//! What the command line decides and reports: the format of the input, the
//! numbers and the lines of a run, and what becomes of requests to a
//! language model.

use crate::engine::dedup::{count_up, counted};
use crate::model::{
    with_skip, FixPlan, FixPlanView, FixReport, FixReportView, FixResult, FixResultView, FixSource,
    LlmFixRequest, LlmFixRequestView, ManualFixItem, ManualFixItemView, PlannedFix, PlannedFixView,
    SkipReason, SkippedIncident, SkippedIncidentView,
};
use crate::order::{ByPath, ByText};
use crate::paths::{split, split_at_char};
use crate::report::{RuleFindings, RuleFindingsView};
use crate::table::{grown, PathTable};
use crate::text::{
    begins, cat2, cat3, cat7, decimal, decimal_of, join, joined, owned, same, starts_with,
    strip_prefix, trim_start, trimmed_start, without_prefix,
};
use crate::views::{append_one, copy_option, distinct, distinct_texts, only};
use vstd::prelude::*;

verus! {

broadcast use vstd::string::group_string_axioms;

// ---------------------------------------------------------------------
// Options
// ---------------------------------------------------------------------

/// Who makes the fixes that take a language model.
#[derive(Debug, Clone, Copy, PartialEq, Eq, Structural)]
pub enum LlmProvider {
    /// The goose program on this machine.
    Goose,
    /// An endpoint that speaks the OpenAI protocol.
    Openai,
}

/// How results are shown.
#[derive(Debug, Clone, Copy, PartialEq, Eq, Structural)]
pub enum OutputFormat {
    /// For people.
    Text,
    /// For programs.
    Json,
}

impl Default for OutputFormat {
    fn default() -> (r: OutputFormat)
        ensures
            r == OutputFormat::Text,
    {
        OutputFormat::Text
    }
}

/// Whether output is coloured.
#[derive(Debug, Clone, Copy, PartialEq, Eq, Structural)]
pub enum ColorMode {
    /// As the terminal allows.
    Auto,
    /// Always.
    Always,
    /// Never.
    Never,
}

impl Default for ColorMode {
    fn default() -> (r: ColorMode)
        ensures
            r == ColorMode::Auto,
    {
        ColorMode::Auto
    }
}

/// The options of the `fix` command.
#[derive(Debug)]
pub struct FixOpts {
    /// The project to fix.
    pub project: String,
    /// The analysis output.
    pub input: String,
    /// Show the changes without writing them.
    pub dry_run: bool,
    /// Who makes the fixes that take a language model.
    pub llm_provider: Option<LlmProvider>,
    /// The endpoint of the language model.
    pub llm_endpoint: Option<String>,
    /// Strategy files; later ones override earlier ones.
    pub strategies: Vec<String>,
    /// Where prompts and responses are kept.
    pub log_dir: Option<String>,
    /// Show details.
    pub verbose: bool,
    /// Show errors and the summary only.
    pub quiet: bool,
    /// How results are shown.
    pub output_format: OutputFormat,
    /// Whether output is coloured.
    pub color: ColorMode,
}

/// Who makes the fixes: the provider that was asked for, or the endpoint
/// where one is given.
pub open spec fn provider_of(
    provider: Option<LlmProvider>,
    endpoint: Option<Seq<char>>,
) -> Option<LlmProvider> {
    match provider {
        Some(p) => Some(p),
        None => if endpoint is Some {
            Some(LlmProvider::Openai)
        } else {
            None
        },
    }
}

impl FixOpts {
    /// Who makes the fixes that take a language model.
    pub fn effective_provider(&self) -> (r: Option<LlmProvider>)
        ensures
            r == provider_of(self.llm_provider, self.llm_endpoint.deep_view()),
    {
        match self.llm_provider {
            Some(p) => Some(p),
            None => {
                if self.llm_endpoint.is_some() {
                    Some(LlmProvider::Openai)
                } else {
                    None
                }
            },
        }
    }

    /// Whether changes are written.
    pub fn should_apply(&self) -> (r: bool)
        ensures
            r == !self.dry_run,
    {
        !self.dry_run
    }

    /// What to do with a plan that has fixes for the given number of files.
    pub fn pattern_stage(&self, files: usize) -> (r: PatternStage)
        ensures
            r == stage_for_patterns(self.dry_run, files as nat),
    {
        if self.dry_run {
            PatternStage::Preview
        } else if files > 0 {
            PatternStage::Apply
        } else {
            PatternStage::Nothing
        }
    }

    /// What to do with the given number of pending requests.
    pub fn request_stage(&self, pending: usize) -> (r: RequestStage)
        ensures
            r == stage_for_requests(
                provider_of(self.llm_provider, self.llm_endpoint.deep_view()),
                self.dry_run,
                pending as nat,
            ),
    {
        if pending == 0 {
            return RequestStage::Nothing;
        }
        match self.effective_provider() {
            Some(LlmProvider::Goose) => {
                if self.dry_run {
                    RequestStage::ListForGoose
                } else {
                    RequestStage::RunGoose
                }
            },
            Some(LlmProvider::Openai) => RequestStage::AskEndpoint,
            None => RequestStage::LeaveToPerson,
        }
    }
}

/// What to do with the fixes of a plan.
#[derive(Debug, Clone, Copy, PartialEq, Eq, Structural)]
pub enum PatternStage {
    /// Write them.
    Apply,
    /// Show them as a diff.
    Preview,
    /// Nothing.
    Nothing,
}

/// What to do with the fixes of a plan: a dry run shows them, and another
/// run writes them where there are any.
pub open spec fn stage_for_patterns(dry_run: bool, files: nat) -> PatternStage {
    if dry_run {
        PatternStage::Preview
    } else if files > 0 {
        PatternStage::Apply
    } else {
        PatternStage::Nothing
    }
}

/// What to do with pending requests.
#[derive(Debug, Clone, Copy, PartialEq, Eq, Structural)]
pub enum RequestStage {
    /// Show what goose would be asked.
    ListForGoose,
    /// Have goose work on them.
    RunGoose,
    /// Send them to the endpoint.
    AskEndpoint,
    /// Leave them to a person.
    LeaveToPerson,
    /// Nothing.
    Nothing,
}

/// What to do with pending requests. Goose writes files itself, so that a
/// dry run only lists what it would be asked.
pub open spec fn stage_for_requests(
    provider: Option<LlmProvider>,
    dry_run: bool,
    pending: nat,
) -> RequestStage {
    if pending == 0 {
        RequestStage::Nothing
    } else {
        match provider {
            Some(LlmProvider::Goose) => if dry_run {
                RequestStage::ListForGoose
            } else {
                RequestStage::RunGoose
            },
            Some(LlmProvider::Openai) => RequestStage::AskEndpoint,
            None => RequestStage::LeaveToPerson,
        }
    }
}

// ---------------------------------------------------------------------
// Input
// ---------------------------------------------------------------------

/// The text is JSON rather than YAML: it begins with a bracket or a brace.
pub open spec fn looks_like_json(content: Seq<char>) -> bool {
    begins(trimmed_start(content), "["@) || begins(trimmed_start(content), "{"@)
}

/// Whether the text is JSON rather than YAML.
pub fn is_json_input(content: &str) -> (r: bool)
    ensures
        r == looks_like_json(content@),
{
    let t = trim_start(content);
    starts_with(t, "[") || starts_with(t, "{")
}

/// How many violations the first `n` rule sets have.
pub open spec fn violations_in(output: Seq<RuleFindingsView>, n: int) -> nat
    decreases n,
{
    if n <= 0 {
        0
    } else {
        violations_in(output, n - 1) + output[n - 1].violations.len()
    }
}

/// How many incidents the first `n` violations have.
pub open spec fn incidents_of(
    violations: Seq<(Seq<char>, crate::report::ViolationView)>,
    n: int,
) -> nat
    decreases n,
{
    if n <= 0 {
        0
    } else {
        incidents_of(violations, n - 1) + violations[n - 1].1.incidents.len()
    }
}

/// How many incidents the first `n` rule sets have.
pub open spec fn incidents_in(output: Seq<RuleFindingsView>, n: int) -> nat
    decreases n,
{
    if n <= 0 {
        0
    } else {
        incidents_in(output, n - 1) + incidents_of(
            output[n - 1].violations,
            output[n - 1].violations.len() as int,
        )
    }
}

/// How many errors the first `n` rule sets have.
pub open spec fn errors_in(output: Seq<RuleFindingsView>, n: int) -> nat
    decreases n,
{
    if n <= 0 {
        0
    } else {
        errors_in(output, n - 1) + output[n - 1].errors.len()
    }
}

/// The numbers of an analysis.
#[derive(Debug, Clone, Copy, PartialEq, Eq, Structural)]
pub struct Totals {
    pub violations: usize,
    pub incidents: usize,
    pub errors: usize,
}

/// Counts the violations, incidents and errors of an analysis.
pub fn count_totals(output: &Vec<RuleFindings>) -> (r: Totals)
    ensures
        r.violations == counted(violations_in(output.deep_view(), output@.len() as int)),
        r.incidents == counted(incidents_in(output.deep_view(), output@.len() as int)),
        r.errors == counted(errors_in(output.deep_view(), output@.len() as int)),
{
    let ghost view = output.deep_view();
    let mut t = Totals { violations: 0, incidents: 0, errors: 0 };
    let mut i: usize = 0;
    while i < output.len()
        invariant
            i <= output@.len(),
            view == output.deep_view(),
            t.violations == counted(violations_in(view, i as int)),
            t.incidents == counted(incidents_in(view, i as int)),
            t.errors == counted(errors_in(view, i as int)),
        decreases output@.len() - i,
    {
        let set = &output[i];
        assert(view[i as int] == set.deep_view());
        t.violations = count_up(t.violations, set.violations.len());
        t.errors = count_up(t.errors, set.errors.len());
        let ghost violations = set.violations.deep_view();
        let ghost before = incidents_in(view, i as int);
        let mut j: usize = 0;
        while j < set.violations.len()
            invariant
                j <= violations.len(),
                violations == set.violations.deep_view(),
                t.violations == counted(violations_in(view, i + 1)),
                t.errors == counted(errors_in(view, i + 1)),
                t.incidents == counted(before + incidents_of(violations, j as int)),
            decreases violations.len() - j,
        {
            let more: usize = set.violations.value(j).incidents.len();
            assert(set.violations.deep_view()[j as int].1.incidents.len() == more);
            let ghost sum = before + incidents_of(violations, j as int);
            t.incidents = count_up(t.incidents, more);
            assert(t.incidents == counted(sum + more as nat));
            j = j + 1;
        }
        i = i + 1;
    }
    t
}

/// The messages of the rules that failed.
pub open spec fn messages_of(errors: Seq<(Seq<char>, Seq<char>)>) -> Seq<Seq<char>> {
    Seq::new(errors.len(), |i: int| errors[i].1)
}

/// The errors of the first `n` rule sets.
pub open spec fn all_errors(output: Seq<RuleFindingsView>, n: int) -> Seq<Seq<char>>
    decreases n,
{
    if n <= 0 {
        Seq::empty()
    } else {
        all_errors(output, n - 1) + messages_of(output[n - 1].errors)
    }
}

/// The errors of an analysis, each once.
pub fn distinct_errors(output: &Vec<RuleFindings>) -> (r: Vec<String>)
    ensures
        ({
            let all = all_errors(output.deep_view(), output@.len() as int);
            r.deep_view() == distinct(all, all.len() as int)
        }),
{
    let ghost view = output.deep_view();
    let mut all: Vec<String> = Vec::new();
    let mut i: usize = 0;
    assert(all.deep_view() =~= Seq::<Seq<char>>::empty());
    while i < output.len()
        invariant
            i <= output@.len(),
            view == output.deep_view(),
            all.deep_view() == all_errors(view, i as int),
        decreases output@.len() - i,
    {
        let set = &output[i];
        assert(view[i as int] == set.deep_view());
        let ghost errors = set.errors.deep_view();
        let ghost before = all.deep_view();
        let ghost messages = messages_of(errors);
        let mut j: usize = 0;
        assert(before + messages.take(0) =~= before);
        while j < set.errors.len()
            invariant
                j <= errors.len(),
                errors == set.errors.deep_view(),
                messages == messages_of(errors),
                all.deep_view() == before + messages.take(j as int),
            decreases errors.len() - j,
        {
            append_one(&mut all, set.errors.value(j).clone());
            assert(all.deep_view() =~= before + messages.take(j + 1));
            j = j + 1;
        }
        assert(messages.take(messages.len() as int) =~= messages);
        i = i + 1;
    }
    assert(all.deep_view().len() == all@.len());
    distinct_texts(&all)
}

// ---------------------------------------------------------------------
// Lines of a run
// ---------------------------------------------------------------------

/// A number and a word, as a list.
pub open spec fn numbered(n: nat, word: Seq<char>) -> Seq<Seq<char>> {
    seq![decimal(n) + word]
}

/// A number and a word, as a list, where the number is large enough.
pub open spec fn numbered_from(n: nat, least: nat, word: Seq<char>) -> Seq<Seq<char>> {
    if n >= least {
        numbered(n, word)
    } else {
        Seq::empty()
    }
}

fn add_numbered(parts: &mut Vec<String>, n: usize, least: usize, word: &str)
    ensures
        final(parts).deep_view() == old(parts).deep_view() + numbered_from(
            n as nat,
            least as nat,
            word@,
        ),
{
    if n >= least {
        let number = decimal_of(n as u64);
        append_one(parts, cat2(number.as_str(), word));
    }
    assert(parts.deep_view() =~= old(parts).deep_view() + numbered_from(
        n as nat,
        least as nat,
        word@,
    ));
}

/// What loading strategies gave: how many strategies, how many families
/// where there are any, and how many files where there are several.
pub fn strategies_detail(strategies: usize, families: usize, files: usize) -> (r: String)
    ensures
        r@ == joined(
            numbered(strategies as nat, " strategies"@) + numbered_from(
                families as nat,
                1,
                " families"@,
            ) + numbered_from(files as nat, 2, " files merged"@),
            ", "@,
        ),
{
    let number = decimal_of(strategies as u64);
    let mut parts = only(cat2(number.as_str(), " strategies"));
    add_numbered(&mut parts, families, 1, " families");
    add_numbered(&mut parts, files, 2, " files merged");
    join(&parts, ", ")
}

/// What applying a plan gave: files and edits, and the edits that were
/// unnecessary or failed where there are any.
pub open spec fn applied_words(r: FixResultView) -> Seq<char> {
    joined(
        numbered(r.files_modified as nat, " files"@) + numbered_from(
            r.edits_applied as nat,
            0,
            " edits"@,
        ) + numbered_from(r.edits_subsumed as nat, 1, " subsumed"@) + numbered_from(
            r.failed_edits.len(),
            1,
            " failed"@,
        ),
        ", "@,
    )
}

/// What applying a plan gave, in words.
pub fn apply_detail(result: &FixResult) -> (r: String)
    ensures
        r@ == applied_words(result.deep_view()),
{
    let number = decimal_of(result.files_modified as u64);
    let mut parts = only(cat2(number.as_str(), " files"));
    add_numbered(&mut parts, result.edits_applied, 0, " edits");
    add_numbered(&mut parts, result.edits_subsumed, 1, " subsumed");
    assert(result.failed_edits.deep_view().len() == result.failed_edits@.len());
    add_numbered(&mut parts, result.failed_edits.len(), 1, " failed");
    join(&parts, ", ")
}

/// How many of the first `n` fixes were made by a pattern.
pub open spec fn pattern_fixes_of(fixes: Seq<PlannedFixView>, n: int) -> nat
    decreases n,
{
    if n <= 0 {
        0
    } else if fixes[n - 1].source == FixSource::Pattern {
        pattern_fixes_of(fixes, n - 1) + 1
    } else {
        pattern_fixes_of(fixes, n - 1)
    }
}

/// How many edits those of the first `n` fixes have that were made by a
/// pattern.
pub open spec fn pattern_edits_of(fixes: Seq<PlannedFixView>, n: int) -> nat
    decreases n,
{
    if n <= 0 {
        0
    } else if fixes[n - 1].source == FixSource::Pattern {
        pattern_edits_of(fixes, n - 1) + fixes[n - 1].edits.len()
    } else {
        pattern_edits_of(fixes, n - 1)
    }
}

/// How many fixes of the first `n` files were made by a pattern.
pub open spec fn pattern_fixes_in(files: Seq<(Seq<char>, Seq<PlannedFixView>)>, n: int) -> nat
    decreases n,
{
    if n <= 0 {
        0
    } else {
        pattern_fixes_in(files, n - 1) + pattern_fixes_of(
            files[n - 1].1,
            files[n - 1].1.len() as int,
        )
    }
}

/// How many edits those fixes have.
pub open spec fn pattern_edits_in(files: Seq<(Seq<char>, Seq<PlannedFixView>)>, n: int) -> nat
    decreases n,
{
    if n <= 0 {
        0
    } else {
        pattern_edits_in(files, n - 1) + pattern_edits_of(
            files[n - 1].1,
            files[n - 1].1.len() as int,
        )
    }
}

/// How many fixes of a plan were made by a pattern, and how many edits they
/// have.
pub fn count_pattern_fixes(plan: &FixPlan) -> (r: (usize, usize))
    ensures
        r.0 == counted(
            pattern_fixes_in(plan.deep_view().files, plan.deep_view().files.len() as int),
        ),
        r.1 == counted(
            pattern_edits_in(plan.deep_view().files, plan.deep_view().files.len() as int),
        ),
{
    let ghost files = plan.files.deep_view();
    let mut fixes: usize = 0;
    let mut edits: usize = 0;
    let mut i: usize = 0;
    while i < plan.files.len()
        invariant
            i <= files.len(),
            files == plan.files.deep_view(),
            fixes == counted(pattern_fixes_in(files, i as int)),
            edits == counted(pattern_edits_in(files, i as int)),
        decreases files.len() - i,
    {
        let list = plan.files.value(i);
        let ghost view = list.deep_view();
        let ghost fixes_before = pattern_fixes_in(files, i as int);
        let ghost edits_before = pattern_edits_in(files, i as int);
        let mut j: usize = 0;
        while j < list.len()
            invariant
                j <= list@.len(),
                view == list.deep_view(),
                fixes == counted(fixes_before + pattern_fixes_of(view, j as int)),
                edits == counted(edits_before + pattern_edits_of(view, j as int)),
            decreases list@.len() - j,
        {
            let fix = &list[j];
            assert(view[j as int] == fix.deep_view());
            assert(fix.edits.deep_view().len() == fix.edits@.len());
            let ghost f = fixes_before + pattern_fixes_of(view, j as int);
            let ghost e = edits_before + pattern_edits_of(view, j as int);
            if fix.source == FixSource::Pattern {
                fixes = count_up(fixes, 1);
                edits = count_up(edits, fix.edits.len());
                assert(fixes == counted(f + 1));
                assert(edits == counted(e + fix.edits@.len()));
            }
            j = j + 1;
        }
        assert(view.len() == list@.len());
        i = i + 1;
    }
    (fixes, edits)
}

/// What planning gave, in words.
pub fn plan_detail(
    fixes: usize,
    edits: usize,
    pending: usize,
    manual: usize,
    consolidated: usize,
) -> (r: String)
    ensures
        r@ == decimal(fixes as nat) + " pattern fixes ("@ + decimal(edits as nat) + " edits), "@
            + decimal(pending as nat) + " LLM, "@ + decimal(manual as nat) + " manual"@ + (
        if consolidated > 0 {
            ", "@ + decimal(consolidated as nat) + " family-consolidated"@
        } else {
            Seq::empty()
        }),
{
    let f = decimal_of(fixes as u64);
    let e = decimal_of(edits as u64);
    let p = decimal_of(pending as u64);
    let m = decimal_of(manual as u64);
    let mut out = cat7(
        f.as_str(),
        " pattern fixes (",
        e.as_str(),
        " edits), ",
        p.as_str(),
        " LLM, ",
        m.as_str(),
    );
    out.append(" manual");
    let tail = if consolidated > 0 {
        let c = decimal_of(consolidated as u64);
        cat3(", ", c.as_str(), " family-consolidated")
    } else {
        String::new()
    };
    out.append(tail.as_str());
    out
}

/// What stands behind the last slash of a path.
pub open spec fn last_segment(path: Seq<char>) -> Seq<char> {
    split_at_char(path, '/').last()
}

/// The name of the file that a URI stands for.
pub open spec fn uri_file_name(uri: Seq<char>) -> Seq<char> {
    last_segment(
        match without_prefix(uri, "file://"@) {
            Some(rest) => rest,
            None => uri,
        },
    )
}

/// What stands behind the last slash of a path.
pub fn last_segment_of(path: &str) -> (r: String)
    ensures
        r@ == last_segment(path@),
{
    let parts = split(path, '/');
    let n: usize = parts.len();
    assert(parts.deep_view()[n - 1] == parts@[n - 1]@);
    assert(parts.deep_view().len() == n);
    parts[n - 1].clone()
}

/// The name of the file that a URI stands for.
pub fn manual_file_name(uri: &str) -> (r: String)
    ensures
        r@ == uri_file_name(uri@),
{
    match strip_prefix(uri, "file://") {
        Some(rest) => last_segment_of(rest),
        None => last_segment_of(uri),
    }
}

// ---------------------------------------------------------------------
// Incidents that were passed over
// ---------------------------------------------------------------------

/// The work was done already.
pub open spec fn is_done(reason: SkipReason) -> bool {
    reason == SkipReason::AlreadyMigrated || reason == SkipReason::VersionAlreadyCompatible
}

/// The incident is worth a warning.
pub open spec fn is_worth_warning(reason: SkipReason) -> bool {
    !is_done(reason) && reason != SkipReason::NoOpRename
}

/// Those of the first `n` incidents passed over that are worth a warning.
pub open spec fn real_skips_of(skipped: Seq<SkippedIncidentView>, n: int) -> Seq<
    SkippedIncidentView,
>
    decreases n,
{
    if n <= 0 {
        Seq::empty()
    } else if is_worth_warning(skipped[n - 1].reason) {
        real_skips_of(skipped, n - 1).push(skipped[n - 1])
    } else {
        real_skips_of(skipped, n - 1)
    }
}

/// How many of the first `n` incidents passed over were done already.
pub open spec fn done_skips_of(skipped: Seq<SkippedIncidentView>, n: int) -> nat
    decreases n,
{
    if n <= 0 {
        0
    } else if is_done(skipped[n - 1].reason) {
        done_skips_of(skipped, n - 1) + 1
    } else {
        done_skips_of(skipped, n - 1)
    }
}

/// The incidents passed over that are worth a warning, and how many were
/// done already.
pub fn partition_skips(report: &FixReport) -> (r: (Vec<&SkippedIncident>, usize))
    ensures
        r.0.deep_view() == real_skips_of(
            report.deep_view().skipped,
            report.deep_view().skipped.len() as int,
        ),
        r.1 == done_skips_of(
            report.deep_view().skipped,
            report.deep_view().skipped.len() as int,
        ),
{
    let ghost view = report.skipped.deep_view();
    let mut worth: Vec<&SkippedIncident> = Vec::new();
    let mut done: usize = 0;
    let mut i: usize = 0;
    assert(worth.deep_view() =~= Seq::<SkippedIncidentView>::empty());
    while i < report.skipped.len()
        invariant
            i <= report.skipped@.len(),
            view == report.skipped.deep_view(),
            worth.deep_view() == real_skips_of(view, i as int),
            done <= i,
            done == done_skips_of(view, i as int),
        decreases report.skipped@.len() - i,
    {
        let skip = &report.skipped[i];
        assert(view[i as int] == skip.deep_view());
        let is_done_already = skip.reason == SkipReason::AlreadyMigrated || skip.reason
            == SkipReason::VersionAlreadyCompatible;
        if is_done_already {
            done = done + 1;
        } else if skip.reason != SkipReason::NoOpRename {
            append_one(&mut worth, skip);
        }
        i = i + 1;
    }
    assert(view.len() == report.skipped@.len());
    (worth, done)
}

/// How many of the first `n` incidents were passed over for a reason.
pub open spec fn reason_count(skips: Seq<SkippedIncidentView>, words: Seq<char>, n: int) -> nat
    decreases n,
{
    if n <= 0 {
        0
    } else if skips[n - 1].reason.words() == words {
        reason_count(skips, words, n - 1) + 1
    } else {
        reason_count(skips, words, n - 1)
    }
}

/// The reasons of the incidents, in words.
pub open spec fn reasons_of(skips: Seq<SkippedIncidentView>) -> Seq<Seq<char>> {
    Seq::new(skips.len(), |i: int| skips[i].reason.words())
}

/// How often each reason occurs, in the order of the reasons.
pub open spec fn reason_words(skips: Seq<SkippedIncidentView>) -> Seq<char> {
    let n = skips.len() as int;
    let reasons = crate::table::key_set::<ByText>(reasons_of(skips), n);
    joined(
        Seq::new(
            reasons.len(),
            |i: int| decimal(reason_count(skips, reasons[i], n)) + " "@ + reasons[i],
        ),
        ", "@,
    )
}

/// How often each reason occurs, in the order of the reasons.
pub fn reason_summary(skips: &Vec<&SkippedIncident>) -> (r: String)
    ensures
        r@ == reason_words(skips.deep_view()),
{
    let ghost view = skips.deep_view();
    let mut words: Vec<String> = Vec::new();
    let mut i: usize = 0;
    while i < skips.len()
        invariant
            i <= skips@.len(),
            view == skips.deep_view(),
            words@.len() == i,
            forall|k: int| 0 <= k < i ==> (#[trigger] words@[k])@ == view[k].reason.words(),
        decreases skips@.len() - i,
    {
        assert(view[i as int] == skips@[i as int].deep_view());
        words.push(owned(skips[i].reason.label()));
        i = i + 1;
    }
    assert(view.len() == skips@.len());
    assert(words.deep_view() =~= reasons_of(view));
    let reasons = crate::table::sorted_keys::<ByText>(&words);
    let ghost names = reasons.deep_view();
    let mut parts: Vec<String> = Vec::new();
    i = 0;
    while i < reasons.len()
        invariant
            i <= reasons@.len(),
            view == skips.deep_view(),
            view.len() == skips@.len(),
            names == reasons.deep_view(),
            parts@.len() == i,
            forall|k: int|
                0 <= k < i ==> (#[trigger] parts@[k])@ == decimal(
                    reason_count(view, names[k], view.len() as int),
                ) + " "@ + names[k],
        decreases reasons@.len() - i,
    {
        assert(names[i as int] == reasons@[i as int]@);
        let mut count: usize = 0;
        let mut j: usize = 0;
        while j < skips.len()
            invariant
                j <= skips@.len(),
                i < reasons@.len(),
                view == skips.deep_view(),
                names[i as int] == reasons@[i as int]@,
                count <= j,
                count == reason_count(view, names[i as int], j as int),
            decreases skips@.len() - j,
        {
            assert(view[j as int] == skips@[j as int].deep_view());
            if same(skips[j].reason.label(), reasons[i].as_str()) {
                count = count + 1;
            }
            j = j + 1;
        }
        let number = decimal_of(count as u64);
        parts.push(cat3(number.as_str(), " ", reasons[i].as_str()));
        i = i + 1;
    }
    assert(names.len() == reasons@.len());
    assert(parts.deep_view() =~= Seq::new(
        names.len(),
        |k: int|
            decimal(reason_count(view, names[k], view.len() as int)) + " "@ + names[k],
    ));
    join(&parts, ", ")
}

// ---------------------------------------------------------------------
// Summary
// ---------------------------------------------------------------------

/// The numbers that end a run.
#[derive(Debug, Clone, Copy)]
pub struct Summary {
    pub applied: bool,
    pub pattern_fixes: usize,
    pub pattern_edits: usize,
    pub files: usize,
    pub skipped: usize,
    pub done: usize,
    pub manual: usize,
    pub warnings: usize,
}

/// A label, a number and what it counts, as a list, where the number is not
/// zero.
pub open spec fn counted_line(label: Seq<char>, n: nat, rest: Seq<char>) -> Seq<Seq<char>> {
    if n > 0 {
        seq![label + decimal(n) + rest]
    } else {
        Seq::empty()
    }
}

/// The lines that end a run, before the time it took. What did not happen is
/// left out.
pub open spec fn summary_words(s: Summary) -> Seq<Seq<char>> {
    (if s.pattern_fixes > 0 || s.pattern_edits > 0 {
        seq![
            "  Pattern fixes:  "@ + decimal(s.pattern_edits as nat) + " "@ + (if s.applied {
                "applied"@
            } else {
                "planned"@
            }) + " across "@ + decimal(s.files as nat) + " files"@,
        ]
    } else {
        Seq::empty()
    }) + counted_line("  Skipped:        "@, s.skipped as nat, " incidents"@) + counted_line(
        "  Already done:   "@,
        s.done as nat,
        " incidents"@,
    ) + counted_line("  Manual review:  "@, s.manual as nat, " incidents remaining"@)
        + counted_line("  Warnings:       "@, s.warnings as nat, ""@)
}

fn add_counted(out: &mut Vec<String>, label: &str, n: usize, rest: &str)
    ensures
        final(out).deep_view() == old(out).deep_view() + counted_line(label@, n as nat, rest@),
{
    if n > 0 {
        let number = decimal_of(n as u64);
        append_one(out, cat3(label, number.as_str(), rest));
    }
    assert(out.deep_view() =~= old(out).deep_view() + counted_line(label@, n as nat, rest@));
}

/// The lines that end a run, before the time it took.
pub fn summary_lines(s: &Summary) -> (r: Vec<String>)
    ensures
        r.deep_view() == summary_words(*s),
{
    let mut out: Vec<String> = Vec::new();
    assert(out.deep_view() =~= Seq::<Seq<char>>::empty());
    if s.pattern_fixes > 0 || s.pattern_edits > 0 {
        let edits = decimal_of(s.pattern_edits as u64);
        let files = decimal_of(s.files as u64);
        let action = if s.applied {
            "applied"
        } else {
            "planned"
        };
        let line = cat7(
            "  Pattern fixes:  ",
            edits.as_str(),
            " ",
            action,
            " across ",
            files.as_str(),
            " files",
        );
        out = only(line);
    }
    add_counted(&mut out, "  Skipped:        ", s.skipped, " incidents");
    add_counted(&mut out, "  Already done:   ", s.done, " incidents");
    add_counted(&mut out, "  Manual review:  ", s.manual, " incidents remaining");
    add_counted(&mut out, "  Warnings:       ", s.warnings, "");
    assert(out.deep_view() =~= summary_words(*s));
    out
}

// ---------------------------------------------------------------------
// Requests to a language model
// ---------------------------------------------------------------------

/// The item for a person that a request becomes.
pub open spec fn manual_from(r: LlmFixRequestView) -> ManualFixItemView {
    ManualFixItemView {
        rule_id: r.rule_id,
        file_uri: r.file_uri,
        line: r.line,
        message: r.message,
        code_snip: r.code_snip,
    }
}

/// A plan and a report once a request was not answered: it is left to a
/// person, and recorded with the reason.
pub open spec fn after_failure(
    plan: FixPlanView,
    report: FixReportView,
    request: LlmFixRequestView,
    reason: SkipReason,
    detail: Option<Seq<char>>,
) -> (FixPlanView, FixReportView) {
    (
        FixPlanView { manual: plan.manual.push(manual_from(request)), ..plan },
        with_skip(
            report,
            SkippedIncidentView {
                rule_id: request.rule_id,
                file: request.file_uri,
                line: Some(request.line),
                reason,
                detail,
            },
        ),
    )
}

fn make_manual(request: &LlmFixRequest) -> (r: ManualFixItem)
    ensures
        r.deep_view() == manual_from(request.deep_view()),
{
    ManualFixItem {
        rule_id: request.rule_id.clone(),
        file_uri: request.file_uri.clone(),
        line: request.line,
        message: request.message.clone(),
        code_snip: copy_option(&request.code_snip),
    }
}

/// Leaves a request that was not answered to a person.
pub fn note_failure(
    plan: &mut FixPlan,
    report: &mut FixReport,
    request: &LlmFixRequest,
    reason: SkipReason,
    detail: Option<String>,
)
    ensures
        (final(plan).deep_view(), final(report).deep_view()) == after_failure(
            old(plan).deep_view(),
            old(report).deep_view(),
            request.deep_view(),
            reason,
            detail.deep_view(),
        ),
        old(plan).files.in_order() ==> final(plan).files.in_order(),
{
    report.record_skip(
        request.rule_id.as_str(),
        request.file_uri.as_str(),
        Some(request.line),
        reason,
        detail,
    );
    append_one(&mut plan.manual, make_manual(request));
}

/// How many of the first `n` fixes have edits.
pub open spec fn useful_fixes(fixes: Seq<PlannedFixView>, n: int) -> nat
    decreases n,
{
    if n <= 0 {
        0
    } else if fixes[n - 1].edits.len() > 0 {
        useful_fixes(fixes, n - 1) + 1
    } else {
        useful_fixes(fixes, n - 1)
    }
}

/// The files of a plan with those of the first `n` fixes that have edits.
pub open spec fn with_useful(
    files: Seq<(Seq<char>, Seq<PlannedFixView>)>,
    path: Seq<char>,
    fixes: Seq<PlannedFixView>,
    n: int,
) -> Seq<(Seq<char>, Seq<PlannedFixView>)>
    decreases n,
{
    if n <= 0 {
        files
    } else if fixes[n - 1].edits.len() > 0 {
        grown::<ByPath, PlannedFixView>(
            with_useful(files, path, fixes, n - 1),
            path,
            fixes[n - 1],
        )
    } else {
        with_useful(files, path, fixes, n - 1)
    }
}

/// A plan and a report once a request was answered: the fixes with edits go
/// into the plan; an answer without any is as good as none.
pub open spec fn after_answer(
    plan: FixPlanView,
    report: FixReportView,
    request: LlmFixRequestView,
    fixes: Seq<PlannedFixView>,
) -> (FixPlanView, FixReportView) {
    let n = fixes.len() as int;
    if useful_fixes(fixes, n) == 0 {
        after_failure(plan, report, request, SkipReason::EmptyLlmResponse, None)
    } else {
        (
            FixPlanView { files: with_useful(plan.files, request.file_path, fixes, n), ..plan },
            report,
        )
    }
}

proof fn lemma_no_useful(
    files: Seq<(Seq<char>, Seq<PlannedFixView>)>,
    path: Seq<char>,
    fixes: Seq<PlannedFixView>,
    n: int,
)
    requires
        useful_fixes(fixes, n) == 0,
    ensures
        with_useful(files, path, fixes, n) == files,
    decreases n,
{
    if n > 0 {
        lemma_no_useful(files, path, fixes, n - 1);
    }
}

/// Takes the answer to a request: the fixes that have edits go into the
/// plan. Returns how many these are.
pub fn accept_answer(
    plan: &mut FixPlan,
    report: &mut FixReport,
    request: &LlmFixRequest,
    fixes: Vec<PlannedFix>,
) -> (r: usize)
    ensures
        (final(plan).deep_view(), final(report).deep_view()) == after_answer(
            old(plan).deep_view(),
            old(report).deep_view(),
            request.deep_view(),
            fixes.deep_view(),
        ),
        r == useful_fixes(fixes.deep_view(), fixes@.len() as int),
        old(plan).files.in_order() ==> final(plan).files.in_order(),
{
    let ghost view = fixes.deep_view();
    let ghost list = fixes@;
    let ghost begin = plan.deep_view();
    let total: usize = fixes.len();
    let mut count: usize = 0;
    for fix in it: fixes
        invariant
            it.seq() == list,
            total == list.len(),
            view == crate::views::views(list),
            begin == old(plan).deep_view(),
            count <= it.index(),
            count == useful_fixes(view, it.index() as int),
            plan.deep_view() == (FixPlanView {
                files: with_useful(
                    begin.files,
                    request.file_path@,
                    view,
                    it.index() as int,
                ),
                ..begin
            }),
            old(plan).files.in_order() ==> plan.files.in_order(),
    {
        assert(view[it.index() as int] == fix.deep_view());
        assert(fix.edits.deep_view().len() == fix.edits@.len());
        if fix.edits.len() > 0 {
            count = count + 1;
            plan.files.push_under(request.file_path.clone(), fix);
        }
    }
    assert(view.len() == list.len());
    if count == 0 {
        proof {
            lemma_no_useful(begin.files, request.file_path@, view, list.len() as int);
        }
        note_failure(plan, report, request, SkipReason::EmptyLlmResponse, None);
    }
    count
}

/// The items for a person that the first `n` requests become.
pub open spec fn manual_items(requests: Seq<LlmFixRequestView>) -> Seq<ManualFixItemView> {
    Seq::new(requests.len(), |i: int| manual_from(requests[i]))
}

/// Leaves all pending requests to a person.
pub fn leave_pending_to_person(plan: &mut FixPlan)
    ensures
        final(plan).deep_view() == (FixPlanView {
            manual: old(plan).deep_view().manual + manual_items(old(plan).deep_view().pending_llm),
            pending_llm: Seq::empty(),
            ..old(plan).deep_view()
        }),
        old(plan).files.in_order() ==> final(plan).files.in_order(),
{
    let ghost before = plan.manual.deep_view();
    let ghost requests = plan.pending_llm.deep_view();
    let ghost items = manual_items(requests);
    let mut i: usize = 0;
    assert(before + items.take(0) =~= before);
    while i < plan.pending_llm.len()
        invariant
            i <= plan.pending_llm@.len(),
            requests == plan.pending_llm.deep_view(),
            items == manual_items(requests),
            plan.manual.deep_view() == before + items.take(i as int),
            plan.files == old(plan).files,
            plan.edits_subsumed == old(plan).edits_subsumed,
        decreases plan.pending_llm@.len() - i,
    {
        assert(requests[i as int] == plan.pending_llm@[i as int].deep_view());
        let item = make_manual(&plan.pending_llm[i]);
        append_one(&mut plan.manual, item);
        assert(plan.manual.deep_view() =~= before + items.take(i + 1));
        i = i + 1;
    }
    assert(items.take(items.len() as int) =~= items);
    assert(requests.len() == plan.pending_llm@.len());
    plan.pending_llm = Vec::new();
    assert(plan.pending_llm.deep_view() =~= Seq::<LlmFixRequestView>::empty());
}

/// The first `n` requests, by file.
pub open spec fn by_file(requests: Seq<LlmFixRequestView>, n: int) -> Seq<
    (Seq<char>, Seq<LlmFixRequestView>),
>
    decreases n,
{
    if n <= 0 {
        Seq::empty()
    } else {
        grown::<ByPath, LlmFixRequestView>(
            by_file(requests, n - 1),
            requests[n - 1].file_path,
            requests[n - 1],
        )
    }
}

/// The requests, by file.
pub fn requests_by_file(requests: &Vec<LlmFixRequest>) -> (r: PathTable<Vec<LlmFixRequest>>)
    ensures
        r.deep_view() == by_file(requests.deep_view(), requests@.len() as int),
        r.in_order(),
{
    let ghost view = requests.deep_view();
    let mut table: PathTable<Vec<LlmFixRequest>> = PathTable::new();
    let mut i: usize = 0;
    while i < requests.len()
        invariant
            i <= requests@.len(),
            view == requests.deep_view(),
            table.deep_view() == by_file(view, i as int),
            table.in_order(),
        decreases requests@.len() - i,
    {
        assert(view[i as int] == requests@[i as int].deep_view());
        table.push_under(requests[i].file_path.clone(), requests[i].copy());
        i = i + 1;
    }
    table
}

/// A plan and a report once the first `n` requests of a file failed.
pub open spec fn after_failures(
    plan: FixPlanView,
    report: FixReportView,
    requests: Seq<LlmFixRequestView>,
    n: int,
) -> (FixPlanView, FixReportView)
    decreases n,
{
    if n <= 0 {
        (plan, report)
    } else {
        let before = after_failures(plan, report, requests, n - 1);
        after_failure(before.0, before.1, requests[n - 1], SkipReason::GooseFailed, None)
    }
}

/// A plan and a report once goose has worked on the first `n` files, where
/// each file either succeeded or failed.
pub open spec fn after_goose(
    plan: FixPlanView,
    report: FixReportView,
    files: Seq<(Seq<char>, Seq<LlmFixRequestView>)>,
    succeeded: Seq<bool>,
    n: int,
) -> (FixPlanView, FixReportView)
    decreases n,
{
    if n <= 0 {
        (plan, report)
    } else {
        let before = after_goose(plan, report, files, succeeded, n - 1);
        if succeeded[n - 1] {
            before
        } else {
            after_failures(
                before.0,
                before.1,
                files[n - 1].1,
                files[n - 1].1.len() as int,
            )
        }
    }
}

/// Leaves the requests of the files on which goose failed to a person. The
/// outcomes are those of the files in order; files without one are left
/// alone.
pub fn note_goose_failures(
    plan: &mut FixPlan,
    report: &mut FixReport,
    files: &PathTable<Vec<LlmFixRequest>>,
    succeeded: &Vec<bool>,
)
    ensures
        (final(plan).deep_view(), final(report).deep_view()) == after_goose(
            old(plan).deep_view(),
            old(report).deep_view(),
            files.deep_view(),
            succeeded@,
            if succeeded@.len() < files.deep_view().len() {
                succeeded@.len() as int
            } else {
                files.deep_view().len() as int
            },
        ),
        old(plan).files.in_order() ==> final(plan).files.in_order(),
{
    let ghost view = files.deep_view();
    let ghost plan0 = plan.deep_view();
    let ghost report0 = report.deep_view();
    let mut i: usize = 0;
    while i < files.len() && i < succeeded.len()
        invariant
            i <= view.len(),
            i <= succeeded@.len(),
            view == files.deep_view(),
            (plan.deep_view(), report.deep_view()) == after_goose(
                plan0,
                report0,
                view,
                succeeded@,
                i as int,
            ),
            old(plan).files.in_order() ==> plan.files.in_order(),
        decreases view.len() - i,
    {
        if !succeeded[i] {
            let requests = files.value(i);
            let ghost list = requests.deep_view();
            let ghost plan1 = plan.deep_view();
            let ghost report1 = report.deep_view();
            let mut j: usize = 0;
            while j < requests.len()
                invariant
                    j <= requests@.len(),
                    list == requests.deep_view(),
                    (plan.deep_view(), report.deep_view()) == after_failures(
                        plan1,
                        report1,
                        list,
                        j as int,
                    ),
                    old(plan).files.in_order() ==> plan.files.in_order(),
                decreases requests@.len() - j,
            {
                assert(list[j as int] == requests@[j as int].deep_view());
                note_failure(plan, report, &requests[j], SkipReason::GooseFailed, None);
                j = j + 1;
            }
            assert(list.len() == requests@.len());
        }
        i = i + 1;
    }
}

} // verus!
