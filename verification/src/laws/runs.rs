//! A run of the program: what becomes of requests and of incidents that
//! were passed over.

use crate::cli::{
    after_answer, after_failures, after_goose, done_skips_of,
    real_skips_of, useful_fixes,
};
use crate::model::{
    FixPlanView, FixReportView, LlmFixRequestView, PlannedFixView, SkipReason, SkippedIncidentView,
};
use vstd::prelude::*;

verus! {

/// How many of the first `n` incidents passed over were renames that keep
/// the name.
pub open spec fn kept_names_of(skipped: Seq<SkippedIncidentView>, n: int) -> nat
    decreases n,
{
    if n <= 0 {
        0
    } else if skipped[n - 1].reason == SkipReason::NoOpRename {
        kept_names_of(skipped, n - 1) + 1
    } else {
        kept_names_of(skipped, n - 1)
    }
}

/// Every incident that was passed over is worth a warning, or was done
/// already, or was a rename that keeps the name.
pub proof fn law_skips_are_counted_once(skipped: Seq<SkippedIncidentView>, n: int)
    requires
        0 <= n <= skipped.len(),
    ensures
        real_skips_of(skipped, n).len() + done_skips_of(skipped, n) + kept_names_of(skipped, n)
            == n,
    decreases n,
{
    if n > 0 {
        law_skips_are_counted_once(skipped, n - 1);
    }
}

/// A request that is answered without an edit is left to a person and
/// recorded; one that is answered with edits is neither.
pub proof fn law_answers_are_used_or_recorded(
    plan: FixPlanView,
    report: FixReportView,
    request: LlmFixRequestView,
    fixes: Seq<PlannedFixView>,
)
    ensures
        ({
            let after = after_answer(plan, report, request, fixes);
            if useful_fixes(fixes, fixes.len() as int) == 0 {
                &&& after.0.files == plan.files
                &&& after.0.manual.len() == plan.manual.len() + 1
                &&& after.1.skipped.len() == report.skipped.len() + 1
                &&& after.1.skipped.last().reason == SkipReason::EmptyLlmResponse
            } else {
                &&& after.0.manual == plan.manual
                &&& after.1 == report
            }
        }),
{
}

proof fn lemma_failures(
    plan: FixPlanView,
    report: FixReportView,
    requests: Seq<LlmFixRequestView>,
    n: int,
)
    requires
        0 <= n,
    ensures
        after_failures(plan, report, requests, n).0.manual.len() == plan.manual.len() + n,
        after_failures(plan, report, requests, n).1.skipped.len() == report.skipped.len() + n,
        after_failures(plan, report, requests, n).0.files == plan.files,
    decreases n,
{
    if n > 0 {
        lemma_failures(plan, report, requests, n - 1);
    }
}

/// How many requests belong to those of the first `n` files on which the
/// work failed.
pub open spec fn failed_requests(
    files: Seq<(Seq<char>, Seq<LlmFixRequestView>)>,
    succeeded: Seq<bool>,
    n: int,
) -> nat
    decreases n,
{
    if n <= 0 {
        0
    } else if succeeded[n - 1] {
        failed_requests(files, succeeded, n - 1)
    } else {
        failed_requests(files, succeeded, n - 1) + files[n - 1].1.len()
    }
}

/// Each request on a file on which the work failed is left to a person and
/// recorded; the others are not, and no file of the plan changes.
pub proof fn law_failed_files_are_left_to_a_person(
    plan: FixPlanView,
    report: FixReportView,
    files: Seq<(Seq<char>, Seq<LlmFixRequestView>)>,
    succeeded: Seq<bool>,
    n: int,
)
    requires
        0 <= n <= files.len(),
        n <= succeeded.len(),
    ensures
        ({
            let after = after_goose(plan, report, files, succeeded, n);
            let failed = failed_requests(files, succeeded, n);
            &&& after.0.manual.len() == plan.manual.len() + failed
            &&& after.1.skipped.len() == report.skipped.len() + failed
            &&& after.0.files == plan.files
        }),
    decreases n,
{
    if n > 0 {
        law_failed_files_are_left_to_a_person(plan, report, files, succeeded, n - 1);
        let before = after_goose(plan, report, files, succeeded, n - 1);
        lemma_failures(before.0, before.1, files[n - 1].1, files[n - 1].1.len() as int);
    }
}

} // verus!
