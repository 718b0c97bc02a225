//! Runs: what the answer of a language model asks for, what becomes of
//! requests, and what is counted and told at the end.

use crate::answers::{after_reply_line, answered, reading};
use crate::cli::{
    after_answer, after_failure, after_failures, after_goose, all_errors, by_file, counted_line,
    errors_in, incidents_in, incidents_of, is_worth_warning, last_segment, manual_items,
    pattern_edits_in, pattern_edits_of, pattern_fixes_in, pattern_fixes_of, provider_of,
    real_skips_of, reason_count, reason_words, reasons_of, stage_for_patterns, stage_for_requests,
    summary_words, uri_file_name, useful_fixes, violations_in, with_useful, LlmProvider,
    PatternStage, RequestStage, Summary,
};
use crate::laws::families::lemma_joined_holds;
use crate::laws::incidents::has_fix;
use crate::laws::releases::{law_numbers_are_read_back, law_splitting};
use crate::laws::tables::{has_key, law_keys_hold_each_key_once};
use crate::model::{
    FixPlanView, FixReportView, FixSource, LlmFixRequestView, ManualFixItemView, PlannedFixView,
    SkipReason, SkippedIncidentView, TextEditView,
};
use crate::order::{ByPath, ByText, KeyOrder};
use crate::paths::split_at_char;
use crate::report::{RuleFindingsView, ViolationView};
use crate::table::{key_set, lemma_place, place};
use crate::text::{begins, decimal, has_text, lines_of, trimmed, without_prefix};
use vstd::prelude::*;

verus! {

broadcast use vstd::string::group_string_axioms;

// ---------------------------------------------------------------------
// Answers of a language model
// ---------------------------------------------------------------------

proof fn lemma_reading_prefix(rule_id: Seq<char>, a: Seq<Seq<char>>, b: Seq<Seq<char>>, n: int)
    requires
        0 <= n <= a.len(),
    ensures
        reading(rule_id, a + b, n) == reading(rule_id, a, n),
    decreases n,
{
    if n > 0 {
        lemma_reading_prefix(rule_id, a, b, n - 1);
        assert((a + b)[n - 1] == a[n - 1]);
    }
}

/// The edits that the lines of an answer ask for.
pub open spec fn asked_edits(rule_id: Seq<char>, all: Seq<Seq<char>>) -> Seq<TextEditView> {
    reading(rule_id, all, all.len() as int).edits
}

/// The lines end inside of a block.
pub open spec fn ends_in_block(rule_id: Seq<char>, all: Seq<Seq<char>>) -> bool {
    reading(rule_id, all, all.len() as int).open
}

proof fn lemma_labels()
    ensures
        "```fix"@ != "```"@,
        forall|x: Seq<char>| #[trigger] begins("LINE:"@ + x, "LINE:"@),
        forall|x: Seq<char>| #[trigger] without_prefix("LINE:"@ + x, "LINE:"@) == Some(x),
        forall|x: Seq<char>| #[trigger] without_prefix("OLD:"@ + x, "OLD:"@) == Some(x),
        forall|x: Seq<char>| #[trigger] without_prefix("NEW:"@ + x, "NEW:"@) == Some(x),
        forall|x: Seq<char>| #[trigger] without_prefix("OLD:"@ + x, "LINE:"@) is None,
        forall|x: Seq<char>| #[trigger] without_prefix("NEW:"@ + x, "LINE:"@) is None,
        forall|x: Seq<char>| #[trigger] without_prefix("NEW:"@ + x, "OLD:"@) is None,
        trimmed("```fix"@) == "```fix"@,
        trimmed("```"@) == "```"@,
        forall|x: Seq<char>| trimmed(#[trigger] ("LINE:"@ + x)) != "```"@,
        forall|x: Seq<char>| trimmed(#[trigger] ("OLD:"@ + x)) != "```"@,
        forall|x: Seq<char>| trimmed(#[trigger] ("NEW:"@ + x)) != "```"@,
{
    reveal_strlit("```fix");
    reveal_strlit("```");
    reveal_strlit("LINE:");
    reveal_strlit("OLD:");
    reveal_strlit("NEW:");
    assert("```fix"@.len() == 6);
    assert("```"@.len() == 3);
    let line = "LINE:"@;
    let old_label = "OLD:"@;
    let new_label = "NEW:"@;
    assert forall|x: Seq<char>| #[trigger] begins(line + x, line) by {
        assert((line + x).subrange(0, 5) =~= line);
    }
    assert forall|x: Seq<char>| #[trigger] without_prefix(line + x, line) == Some(x) by {
        assert((line + x).subrange(0, 5) =~= line);
        assert((line + x).skip(5) =~= x);
    }
    assert forall|x: Seq<char>| #[trigger] without_prefix(old_label + x, old_label) == Some(x) by {
        assert((old_label + x).subrange(0, 4) =~= old_label);
        assert((old_label + x).skip(4) =~= x);
    }
    assert forall|x: Seq<char>| #[trigger] without_prefix(new_label + x, new_label) == Some(x) by {
        assert((new_label + x).subrange(0, 4) =~= new_label);
        assert((new_label + x).skip(4) =~= x);
    }
    assert forall|x: Seq<char>| #[trigger] without_prefix(old_label + x, line) is None by {
        if begins(old_label + x, line) {
            assert((old_label + x).subrange(0, 5)[0] == 'O');
        }
    }
    assert forall|x: Seq<char>| #[trigger] without_prefix(new_label + x, line) is None by {
        if begins(new_label + x, line) {
            assert((new_label + x).subrange(0, 5)[0] == 'N');
        }
    }
    assert forall|x: Seq<char>| #[trigger] without_prefix(new_label + x, old_label) is None by {
        if begins(new_label + x, old_label) {
            assert((new_label + x).subrange(0, 4)[0] == 'N');
        }
    }
    lemma_visible("```fix"@);
    lemma_visible("```"@);
    assert forall|x: Seq<char>| trimmed(#[trigger] (line + x)) != "```"@ by {
        lemma_first_stays(line + x);
        assert((line + x)[0] == 'L');
    }
    assert forall|x: Seq<char>| trimmed(#[trigger] (old_label + x)) != "```"@ by {
        lemma_first_stays(old_label + x);
        assert((old_label + x)[0] == 'O');
    }
    assert forall|x: Seq<char>| trimmed(#[trigger] (new_label + x)) != "```"@ by {
        lemma_first_stays(new_label + x);
        assert((new_label + x)[0] == 'N');
    }
}

proof fn lemma_visible(s: Seq<char>)
    requires
        s.len() > 0,
        !crate::text::is_space(s[0]),
        !crate::text::is_space(s.last()),
    ensures
        trimmed(s) == s,
{
    crate::laws::words::law_trimming(s);
    let (from, to) = choose|from: int, to: int| #[trigger]
        crate::laws::words::is_core(s, trimmed(s), from, to);
    if from > 0 {
        assert(crate::text::is_space(s[0]));
    }
    if to < s.len() {
        assert(crate::text::is_space(s[s.len() - 1]));
    }
    assert(s.subrange(0, s.len() as int) =~= s);
}

proof fn lemma_first_stays(s: Seq<char>)
    requires
        s.len() > 0,
        !crate::text::is_space(s[0]),
    ensures
        trimmed(s).len() > 0 && trimmed(s)[0] == s[0],
{
    crate::laws::words::law_trimming(s);
    let (from, to) = choose|from: int, to: int| #[trigger]
        crate::laws::words::is_core(s, trimmed(s), from, to);
    if from > 0 {
        assert(crate::text::is_space(s[0]));
    }
    if to == 0 {
        assert(crate::text::is_space(s[0]));
    }
}

/// A block of an answer that names a line, an old text and a new text asks
/// for that edit, behind those that the lines before it ask for.
pub proof fn law_fix_block_asks_for_its_edit(
    rule_id: Seq<char>,
    before: Seq<Seq<char>>,
    line: u32,
    old_text: Seq<char>,
    new_text: Seq<char>,
)
    requires
        !ends_in_block(rule_id, before),
    ensures
        ({
            let all = before + seq![
                "```fix"@,
                "LINE:"@ + decimal(line as nat),
                "OLD:"@ + old_text,
                "NEW:"@ + new_text,
                "```"@,
            ];
            let edits = asked_edits(rule_id, all);
            &&& !ends_in_block(rule_id, all)
            &&& edits.len() == asked_edits(rule_id, before).len() + 1
            &&& edits.drop_last() == asked_edits(rule_id, before)
            &&& edits.last().line == line
            &&& edits.last().old_text == old_text
            &&& edits.last().new_text == new_text
            &&& edits.last().rule_id == rule_id
            &&& !edits.last().replace_all
        }),
{
    let block = seq![
        "```fix"@,
        "LINE:"@ + decimal(line as nat),
        "OLD:"@ + old_text,
        "NEW:"@ + new_text,
        "```"@,
    ];
    let all = before + block;
    let n = before.len() as int;
    lemma_labels();
    lemma_reading_prefix(rule_id, before, block, n);
    let s0 = reading(rule_id, before, n);
    assert(reading(rule_id, all, n) == s0);
    assert(all[n] == block[0]);
    assert(all[n + 1] == block[1]);
    assert(all[n + 2] == block[2]);
    assert(all[n + 3] == block[3]);
    assert(all[n + 4] == block[4]);
    let s1 = after_reply_line(rule_id, s0, block[0]);
    assert(reading(rule_id, all, n + 1) == s1);
    assert(s1.open);
    let s2 = after_reply_line(rule_id, s1, block[1]);
    assert(reading(rule_id, all, n + 2) == s2);
    lemma_line_number(line);
    assert(without_prefix(block[1], "LINE:"@) == Some(decimal(line as nat)));
    assert(s2.line == Some(line));
    let s3 = after_reply_line(rule_id, s2, block[2]);
    assert(reading(rule_id, all, n + 3) == s3);
    assert(without_prefix(block[2], "LINE:"@) is None);
    assert(without_prefix(block[2], "OLD:"@) == Some(old_text));
    assert(s3.old_text == Some(old_text));
    let s4 = after_reply_line(rule_id, s3, block[3]);
    assert(reading(rule_id, all, n + 4) == s4);
    assert(without_prefix(block[3], "LINE:"@) is None);
    assert(without_prefix(block[3], "OLD:"@) is None);
    assert(without_prefix(block[3], "NEW:"@) == Some(new_text));
    let s5 = after_reply_line(rule_id, s4, block[4]);
    assert(reading(rule_id, all, n + 5) == s5);
    assert(s5.edits.drop_last() =~= s0.edits);
}

proof fn lemma_line_number(line: u32)
    ensures
        crate::answers::line_of(decimal(line as nat)) == Some(line),
{
    law_numbers_are_read_back(line as nat);
    let s = decimal(line as nat);
    crate::laws::releases::lemma_decimal_is_visible(line as nat);
    lemma_visible(s);
}

/// Within a block each of the three is noted where it stands, whatever their
/// order, and no other line changes them.
pub proof fn law_lines_of_a_block(
    rule_id: Seq<char>,
    before: Seq<Seq<char>>,
    x: Seq<char>,
    n: u32,
    other: Seq<char>,
)
    requires
        ends_in_block(rule_id, before),
        trimmed(other) != "```"@,
        !begins(other, "LINE:"@),
        !begins(other, "OLD:"@),
        !begins(other, "NEW:"@),
    ensures
        ({
            let s = reading(rule_id, before, before.len() as int);
            let at = before.len() as int + 1;
            let a = reading(rule_id, before.push("LINE:"@ + decimal(n as nat)), at);
            let b = reading(rule_id, before.push("OLD:"@ + x), at);
            let c = reading(rule_id, before.push("NEW:"@ + x), at);
            &&& a.line == Some(n) && a.old_text == s.old_text && a.new_text == s.new_text && a.open
            &&& b.line == s.line && b.old_text == Some(x) && b.new_text == s.new_text && b.open
            &&& c.line == s.line && c.old_text == s.old_text && c.new_text == Some(x) && c.open
            &&& reading(rule_id, before.push(other), at) == s
        }),
{
    let k = before.len() as int;
    let one = "LINE:"@ + decimal(n as nat);
    let two = "OLD:"@ + x;
    let three = "NEW:"@ + x;
    lemma_labels();
    lemma_line_number(n);
    assert(before.push(one) =~= before + seq![one]);
    assert(before.push(two) =~= before + seq![two]);
    assert(before.push(three) =~= before + seq![three]);
    assert(before.push(other) =~= before + seq![other]);
    lemma_reading_prefix(rule_id, before, seq![one], k);
    lemma_reading_prefix(rule_id, before, seq![two], k);
    lemma_reading_prefix(rule_id, before, seq![three], k);
    lemma_reading_prefix(rule_id, before, seq![other], k);
    assert(without_prefix(one, "LINE:"@) == Some(decimal(n as nat)));
    assert(without_prefix(two, "LINE:"@) is None);
    assert(without_prefix(two, "OLD:"@) == Some(x));
    assert(without_prefix(three, "LINE:"@) is None);
    assert(without_prefix(three, "OLD:"@) is None);
    assert(without_prefix(three, "NEW:"@) == Some(x));
}

/// Text outside of blocks asks for nothing.
pub proof fn law_text_outside_blocks_asks_for_nothing(
    rule_id: Seq<char>,
    before: Seq<Seq<char>>,
    line: Seq<char>,
)
    requires
        !ends_in_block(rule_id, before),
        trimmed(line) != "```fix"@,
    ensures
        asked_edits(rule_id, before.push(line)) == asked_edits(rule_id, before),
        !ends_in_block(rule_id, before.push(line)),
{
    assert(before.push(line) =~= before + seq![line]);
    lemma_reading_prefix(rule_id, before, seq![line], before.len() as int);
}

/// A block that ends without any of the three asks for nothing; no line
/// within a block asks for anything by itself.
pub proof fn law_incomplete_block_asks_for_nothing(
    rule_id: Seq<char>,
    before: Seq<Seq<char>>,
    line: Seq<char>,
)
    requires
        ends_in_block(rule_id, before),
        trimmed(line) != "```"@ || ({
            let s = reading(rule_id, before, before.len() as int);
            s.line is None || s.old_text is None || s.new_text is None
        }),
    ensures
        asked_edits(rule_id, before.push(line)) == asked_edits(rule_id, before),
        ends_in_block(rule_id, before.push(line)) == (trimmed(line) != "```"@),
{
    assert(before.push(line) =~= before + seq![line]);
    lemma_reading_prefix(rule_id, before, seq![line], before.len() as int);
}

/// The fix of an answer holds the edits that its lines ask for, and is for
/// the file and the rule of the request.
pub proof fn law_answer_is_for_its_request(request: LlmFixRequestView, reply: Seq<char>)
    ensures
        answered(request, reply).edits == asked_edits(request.rule_id, lines_of(reply)),
        answered(request, reply).rule_id == request.rule_id,
        answered(request, reply).file_uri == request.file_uri,
        answered(request, reply).line == request.line,
        answered(request, reply).source == FixSource::Llm,
{
}

// ---------------------------------------------------------------------
// What becomes of requests
// ---------------------------------------------------------------------

/// The item is the request, for a person.
pub open spec fn is_left_to_person(item: ManualFixItemView, r: LlmFixRequestView) -> bool {
    &&& item.rule_id == r.rule_id
    &&& item.file_uri == r.file_uri
    &&& item.line == r.line
    &&& item.message == r.message
    &&& item.code_snip == r.code_snip
}

/// The record is about the request.
pub open spec fn is_record_of(s: SkippedIncidentView, r: LlmFixRequestView, reason: SkipReason) -> bool {
    &&& s.rule_id == r.rule_id
    &&& s.file == r.file_uri
    &&& s.line == Some(r.line)
    &&& s.reason == reason
}

/// The request is left to a person and recorded.
pub open spec fn is_given_up(
    plan: FixPlanView,
    report: FixReportView,
    r: LlmFixRequestView,
    reason: SkipReason,
) -> bool {
    &&& exists|k: int|
        0 <= k < plan.manual.len() && is_left_to_person(#[trigger] plan.manual[k], r)
    &&& exists|k: int|
        0 <= k < report.skipped.len() && is_record_of(#[trigger] report.skipped[k], r, reason)
}

/// Nothing is taken from a plan and a report.
pub open spec fn only_grows(
    plan: FixPlanView,
    report: FixReportView,
    now: (FixPlanView, FixReportView),
) -> bool {
    &&& now.0.files == plan.files
    &&& now.0.pending_llm == plan.pending_llm
    &&& now.0.manual.len() >= plan.manual.len()
    &&& now.0.manual.take(plan.manual.len() as int) == plan.manual
    &&& now.1.skipped.len() >= report.skipped.len()
    &&& now.1.skipped.take(report.skipped.len() as int) == report.skipped
}

proof fn lemma_given_up(
    plan: FixPlanView,
    report: FixReportView,
    request: LlmFixRequestView,
    reason: SkipReason,
    detail: Option<Seq<char>>,
)
    ensures
        ({
            let now = after_failure(plan, report, request, reason, detail);
            is_given_up(now.0, now.1, request, reason) && only_grows(plan, report, now)
        }),
{
    let now = after_failure(plan, report, request, reason, detail);
    let m = plan.manual.len() as int;
    let s = report.skipped.len() as int;
    assert(is_left_to_person(now.0.manual[m], request));
    assert(is_record_of(now.1.skipped[s], request, reason));
    assert(now.0.manual.take(m) =~= plan.manual);
    assert(now.1.skipped.take(s) =~= report.skipped);
}

proof fn lemma_still_given_up(
    plan: FixPlanView,
    report: FixReportView,
    now: (FixPlanView, FixReportView),
    r: LlmFixRequestView,
    reason: SkipReason,
)
    requires
        is_given_up(plan, report, r, reason),
        only_grows(plan, report, now),
    ensures
        is_given_up(now.0, now.1, r, reason),
{
    let k = choose|k: int|
        0 <= k < plan.manual.len() && is_left_to_person(#[trigger] plan.manual[k], r);
    assert(now.0.manual[k] == now.0.manual.take(plan.manual.len() as int)[k]);
    let j = choose|j: int|
        0 <= j < report.skipped.len() && is_record_of(#[trigger] report.skipped[j], r, reason);
    assert(now.1.skipped[j] == now.1.skipped.take(report.skipped.len() as int)[j]);
}

proof fn lemma_grows_on(
    plan: FixPlanView,
    report: FixReportView,
    mid: (FixPlanView, FixReportView),
    now: (FixPlanView, FixReportView),
)
    requires
        only_grows(plan, report, mid),
        only_grows(mid.0, mid.1, now),
    ensures
        only_grows(plan, report, now),
{
    let m = plan.manual.len() as int;
    let s = report.skipped.len() as int;
    assert(now.0.manual.take(m) =~= now.0.manual.take(mid.0.manual.len() as int).take(m));
    assert(now.1.skipped.take(s) =~= now.1.skipped.take(mid.1.skipped.len() as int).take(s));
}

proof fn lemma_failures(
    plan: FixPlanView,
    report: FixReportView,
    requests: Seq<LlmFixRequestView>,
    n: int,
)
    requires
        0 <= n <= requests.len(),
    ensures
        only_grows(plan, report, after_failures(plan, report, requests, n)),
        forall|k: int|
            0 <= k < n ==> is_given_up(
                after_failures(plan, report, requests, n).0,
                after_failures(plan, report, requests, n).1,
                #[trigger] requests[k],
                SkipReason::GooseFailed,
            ),
    decreases n,
{
    if n <= 0 {
        assert(plan.manual.take(plan.manual.len() as int) =~= plan.manual);
        assert(report.skipped.take(report.skipped.len() as int) =~= report.skipped);
    } else {
        lemma_failures(plan, report, requests, n - 1);
        let before = after_failures(plan, report, requests, n - 1);
        let now = after_failures(plan, report, requests, n);
        lemma_given_up(before.0, before.1, requests[n - 1], SkipReason::GooseFailed, None);
        lemma_grows_on(plan, report, before, now);
        assert forall|k: int| 0 <= k < n implies is_given_up(
            now.0,
            now.1,
            #[trigger] requests[k],
            SkipReason::GooseFailed,
        ) by {
            if k < n - 1 {
                lemma_still_given_up(
                    before.0,
                    before.1,
                    now,
                    requests[k],
                    SkipReason::GooseFailed,
                );
            }
        }
    }
}

/// Each request of a file on which goose failed is left to a person and
/// recorded; nothing else changes.
pub proof fn law_each_failed_request_is_given_up(
    plan: FixPlanView,
    report: FixReportView,
    files: Seq<(Seq<char>, Seq<LlmFixRequestView>)>,
    succeeded: Seq<bool>,
    n: int,
)
    requires
        0 <= n <= files.len(),
        n <= succeeded.len(),
    ensures
        only_grows(plan, report, after_goose(plan, report, files, succeeded, n)),
        forall|f: int, k: int|
            0 <= f < n && !succeeded[f] && 0 <= k < files[f].1.len() ==> is_given_up(
                after_goose(plan, report, files, succeeded, n).0,
                after_goose(plan, report, files, succeeded, n).1,
                #[trigger] files[f].1[k],
                SkipReason::GooseFailed,
            ),
        (forall|f: int| 0 <= f < n ==> #[trigger] succeeded[f]) ==> after_goose(
            plan,
            report,
            files,
            succeeded,
            n,
        ) == (plan, report),
    decreases n,
{
    if n <= 0 {
        assert(plan.manual.take(plan.manual.len() as int) =~= plan.manual);
        assert(report.skipped.take(report.skipped.len() as int) =~= report.skipped);
    } else {
        law_each_failed_request_is_given_up(plan, report, files, succeeded, n - 1);
        let before = after_goose(plan, report, files, succeeded, n - 1);
        let now = after_goose(plan, report, files, succeeded, n);
        if !succeeded[n - 1] {
            let list = files[n - 1].1;
            lemma_failures(before.0, before.1, list, list.len() as int);
            lemma_grows_on(plan, report, before, now);
            assert forall|f: int, k: int|
                0 <= f < n && !succeeded[f] && 0 <= k < files[f].1.len() implies is_given_up(
                now.0,
                now.1,
                #[trigger] files[f].1[k],
                SkipReason::GooseFailed,
            ) by {
                if f < n - 1 {
                    lemma_still_given_up(
                        before.0,
                        before.1,
                        now,
                        files[f].1[k],
                        SkipReason::GooseFailed,
                    );
                }
            }
        }
    }
}

proof fn lemma_useful(
    files: Seq<(Seq<char>, Seq<PlannedFixView>)>,
    path: Seq<char>,
    fixes: Seq<PlannedFixView>,
    n: int,
)
    requires
        0 <= n <= fixes.len(),
    ensures
        forall|k: int|
            0 <= k < n && (#[trigger] fixes[k]).edits.len() > 0 ==> has_fix(
                with_useful(files, path, fixes, n),
                path,
                fixes[k],
            ),
        forall|p: Seq<char>, f: PlannedFixView| #[trigger]
            has_fix(files, p, f) ==> has_fix(with_useful(files, path, fixes, n), p, f),
        (useful_fixes(fixes, n) == 0) <==> forall|k: int|
            0 <= k < n ==> (#[trigger] fixes[k]).edits.len() == 0,
    decreases n,
{
    if n > 0 {
        lemma_useful(files, path, fixes, n - 1);
        let before = with_useful(files, path, fixes, n - 1);
        crate::laws::incidents::lemma_grown(before, path, fixes[n - 1]);
        if fixes[n - 1].edits.len() == 0 {
            assert(useful_fixes(fixes, n) == useful_fixes(fixes, n - 1));
        }
    }
}

/// Each fix of an answer that has edits is in the plan, for the file of the
/// request, beside what was there; an answer without any edit is given up.
pub proof fn law_answer_is_used(
    plan: FixPlanView,
    report: FixReportView,
    request: LlmFixRequestView,
    fixes: Seq<PlannedFixView>,
    k: int,
)
    requires
        0 <= k < fixes.len(),
    ensures
        ({
            let now = after_answer(plan, report, request, fixes);
            &&& fixes[k].edits.len() > 0 ==> has_fix(now.0.files, request.file_path, fixes[k])
            &&& forall|p: Seq<char>, f: PlannedFixView| #[trigger]
                has_fix(plan.files, p, f) ==> has_fix(now.0.files, p, f)
            &&& (forall|j: int| 0 <= j < fixes.len() ==> (#[trigger] fixes[j]).edits.len() == 0)
                ==> is_given_up(now.0, now.1, request, SkipReason::EmptyLlmResponse)
        }),
{
    lemma_useful(plan.files, request.file_path, fixes, fixes.len() as int);
    lemma_given_up(plan, report, request, SkipReason::EmptyLlmResponse, None);
}

/// Requests that nobody answers become items for a person, one for each.
pub proof fn law_unanswered_requests_are_left_to_a_person(
    requests: Seq<LlmFixRequestView>,
    k: int,
)
    requires
        0 <= k < requests.len(),
    ensures
        manual_items(requests).len() == requests.len(),
        is_left_to_person(manual_items(requests)[k], requests[k]),
{
}

/// The request is among those for its file.
pub open spec fn has_request(
    files: Seq<(Seq<char>, Seq<LlmFixRequestView>)>,
    r: LlmFixRequestView,
) -> bool {
    exists|k: int|
        0 <= k < files.len() && ByPath::same((#[trigger] files[k]).0, r.file_path)
            && files[k].1.contains(r)
}

/// Sorted by file, every request is among those for its file.
pub proof fn law_requests_go_by_file(requests: Seq<LlmFixRequestView>, n: int, i: int)
    requires
        0 <= i < n <= requests.len(),
    ensures
        has_request(by_file(requests, n), requests[i]),
    decreases n,
{
    let m = by_file(requests, n - 1);
    let r = requests[n - 1];
    let now = by_file(requests, n);
    let at = place::<ByPath, Seq<LlmFixRequestView>>(m, r.file_path, 0);
    lemma_place::<ByPath, Seq<LlmFixRequestView>>(m, r.file_path, 0);
    ByPath::order_laws(r.file_path, r.file_path, r.file_path);
    let updates = at < m.len() && ByPath::same(m[at].0, r.file_path);
    if updates {
        assert(now[at] == (m[at].0, m[at].1.push(r)));
        assert(m[at].1.push(r)[m[at].1.len() as int] == r);
    } else {
        assert(now[at] == (r.file_path, seq![r]));
        assert(seq![r][0] == r);
    }
    if i == n - 1 {
        assert(now[at].1.contains(r));
        assert(ByPath::same(now[at].0, r.file_path));
    } else {
        law_requests_go_by_file(requests, n - 1, i);
        let k = choose|k: int|
            0 <= k < m.len() && ByPath::same((#[trigger] m[k]).0, requests[i].file_path)
                && m[k].1.contains(requests[i]);
        if updates {
            if k == at {
                let j = choose|j: int| 0 <= j < m[k].1.len() && m[k].1[j] == requests[i];
                assert(now[at].1[j] == requests[i]);
            } else {
                assert(now[k] == m[k]);
            }
        } else if k < at {
            assert(now[k] == m[k]);
        } else {
            assert(now[k + 1] == m[k]);
        }
    }
}

// ---------------------------------------------------------------------
// Stages
// ---------------------------------------------------------------------

/// A dry run writes nothing: the fixes of patterns are only shown, and goose,
/// which writes files itself, is not run.
pub proof fn law_dry_run_writes_nothing(
    provider: Option<LlmProvider>,
    files: nat,
    pending: nat,
)
    ensures
        stage_for_patterns(true, files) == PatternStage::Preview,
        stage_for_requests(provider, true, pending) != RequestStage::RunGoose,
        stage_for_patterns(false, files) == PatternStage::Apply <==> files > 0,
        stage_for_patterns(false, files) != PatternStage::Preview,
{
}

/// Where requests are pending, whoever was asked for deals with them, and a
/// person where nobody was.
pub proof fn law_pending_requests_are_dealt_with(
    provider: Option<LlmProvider>,
    dry_run: bool,
    pending: nat,
)
    ensures
        stage_for_requests(provider, dry_run, pending) == RequestStage::Nothing <==> pending == 0,
        stage_for_requests(provider, dry_run, pending) == RequestStage::LeaveToPerson <==> pending
            > 0 && provider is None,
        stage_for_requests(provider, dry_run, pending) == RequestStage::AskEndpoint <==> pending > 0
            && provider == Some(LlmProvider::Openai),
        stage_for_requests(provider, dry_run, pending) == RequestStage::RunGoose <==> pending > 0
            && provider == Some(LlmProvider::Goose) && !dry_run,
        stage_for_requests(provider, dry_run, pending) == RequestStage::ListForGoose <==> pending
            > 0 && provider == Some(LlmProvider::Goose) && dry_run,
{
}

/// The provider that was asked for decides; an endpoint alone asks for the
/// one that speaks to endpoints.
pub proof fn law_provider(provider: Option<LlmProvider>, endpoint: Option<Seq<char>>)
    ensures
        provider is Some ==> provider_of(provider, endpoint) == provider,
        provider is None && endpoint is Some ==> provider_of(provider, endpoint) == Some(
            LlmProvider::Openai,
        ),
        provider is None && endpoint is None ==> provider_of(provider, endpoint) is None,
{
}

// ---------------------------------------------------------------------
// Counting
// ---------------------------------------------------------------------

proof fn lemma_counts_prefix(output: Seq<RuleFindingsView>, set: RuleFindingsView, n: int)
    requires
        0 <= n <= output.len(),
    ensures
        violations_in(output.push(set), n) == violations_in(output, n),
        incidents_in(output.push(set), n) == incidents_in(output, n),
        errors_in(output.push(set), n) == errors_in(output, n),
        all_errors(output.push(set), n) == all_errors(output, n),
    decreases n,
{
    if n > 0 {
        lemma_counts_prefix(output, set, n - 1);
        assert(output.push(set)[n - 1] == output[n - 1]);
    }
}

/// One more rule set adds its violations, their incidents and its errors to
/// what is counted, and without rule sets there is nothing to count.
pub proof fn law_counts_add_up(output: Seq<RuleFindingsView>, set: RuleFindingsView)
    ensures
        ({
            let n = output.len() as int;
            let more = output.push(set);
            &&& violations_in(more, n + 1) == violations_in(output, n) + set.violations.len()
            &&& errors_in(more, n + 1) == errors_in(output, n) + set.errors.len()
            &&& incidents_in(more, n + 1) == incidents_in(output, n) + incidents_of(
                set.violations,
                set.violations.len() as int,
            )
            &&& all_errors(more, n + 1).len() == all_errors(output, n).len() + set.errors.len()
            &&& forall|k: int|
                0 <= k < set.errors.len() ==> #[trigger] set.errors[k].1 == all_errors(
                    more,
                    n + 1,
                )[all_errors(output, n).len() + k]
            &&& violations_in(output, 0) == 0 && incidents_in(output, 0) == 0 && errors_in(
                output,
                0,
            ) == 0 && all_errors(output, 0).len() == 0
        }),
{
    let n = output.len() as int;
    let more = output.push(set);
    lemma_counts_prefix(output, set, n);
    assert(more[n] == set);
}

proof fn lemma_incidents_prefix(
    violations: Seq<(Seq<char>, ViolationView)>,
    v: (Seq<char>, ViolationView),
    n: int,
)
    requires
        0 <= n <= violations.len(),
    ensures
        incidents_of(violations.push(v), n) == incidents_of(violations, n),
    decreases n,
{
    if n > 0 {
        lemma_incidents_prefix(violations, v, n - 1);
        assert(violations.push(v)[n - 1] == violations[n - 1]);
    }
}

/// One more violation adds its incidents.
pub proof fn law_incidents_add_up(
    violations: Seq<(Seq<char>, ViolationView)>,
    v: (Seq<char>, ViolationView),
)
    ensures
        incidents_of(violations.push(v), violations.len() as int + 1) == incidents_of(
            violations,
            violations.len() as int,
        ) + v.1.incidents.len(),
        incidents_of(violations, 0) == 0,
{
    lemma_incidents_prefix(violations, v, violations.len() as int);
}

proof fn lemma_fixes_prefix(fixes: Seq<PlannedFixView>, fix: PlannedFixView, n: int)
    requires
        0 <= n <= fixes.len(),
    ensures
        pattern_fixes_of(fixes.push(fix), n) == pattern_fixes_of(fixes, n),
        pattern_edits_of(fixes.push(fix), n) == pattern_edits_of(fixes, n),
    decreases n,
{
    if n > 0 {
        lemma_fixes_prefix(fixes, fix, n - 1);
        assert(fixes.push(fix)[n - 1] == fixes[n - 1]);
    }
}

/// One more fix counts, with its edits, if and only if a pattern made it.
pub proof fn law_pattern_fixes_add_up(fixes: Seq<PlannedFixView>, fix: PlannedFixView)
    ensures
        ({
            let n = fixes.len() as int;
            let more = fixes.push(fix);
            let ours = fix.source == FixSource::Pattern;
            &&& pattern_fixes_of(more, n + 1) == pattern_fixes_of(fixes, n) + if ours {
                1nat
            } else {
                0
            }
            &&& pattern_edits_of(more, n + 1) == pattern_edits_of(fixes, n) + if ours {
                fix.edits.len()
            } else {
                0
            }
            &&& pattern_fixes_of(fixes, 0) == 0
            &&& pattern_edits_of(fixes, 0) == 0
        }),
{
    lemma_fixes_prefix(fixes, fix, fixes.len() as int);
}

proof fn lemma_files_prefix(
    files: Seq<(Seq<char>, Seq<PlannedFixView>)>,
    file: (Seq<char>, Seq<PlannedFixView>),
    n: int,
)
    requires
        0 <= n <= files.len(),
    ensures
        pattern_fixes_in(files.push(file), n) == pattern_fixes_in(files, n),
        pattern_edits_in(files.push(file), n) == pattern_edits_in(files, n),
    decreases n,
{
    if n > 0 {
        lemma_files_prefix(files, file, n - 1);
        assert(files.push(file)[n - 1] == files[n - 1]);
    }
}

/// One more file adds the fixes and the edits that patterns made in it.
pub proof fn law_pattern_files_add_up(
    files: Seq<(Seq<char>, Seq<PlannedFixView>)>,
    file: (Seq<char>, Seq<PlannedFixView>),
)
    ensures
        ({
            let n = files.len() as int;
            let more = files.push(file);
            let own = file.1.len() as int;
            &&& pattern_fixes_in(more, n + 1) == pattern_fixes_in(files, n) + pattern_fixes_of(
                file.1,
                own,
            )
            &&& pattern_edits_in(more, n + 1) == pattern_edits_in(files, n) + pattern_edits_of(
                file.1,
                own,
            )
            &&& pattern_fixes_in(files, 0) == 0
            &&& pattern_edits_in(files, 0) == 0
        }),
{
    lemma_files_prefix(files, file, files.len() as int);
}

/// The incidents that are worth a warning are those passed over for another
/// reason than that there was nothing to do.
pub proof fn law_warnings(skipped: Seq<SkippedIncidentView>, n: int, x: SkippedIncidentView)
    requires
        0 <= n <= skipped.len(),
    ensures
        real_skips_of(skipped, n).contains(x) <==> (skipped.take(n).contains(x) && x.reason
            != SkipReason::AlreadyMigrated && x.reason != SkipReason::VersionAlreadyCompatible
            && x.reason != SkipReason::NoOpRename),
    decreases n,
{
    if n > 0 {
        law_warnings(skipped, n - 1, x);
        let before = real_skips_of(skipped, n - 1);
        let now = real_skips_of(skipped, n);
        let early = skipped.take(n - 1);
        let late = skipped.take(n);
        let last = skipped[n - 1];
        assert(late =~= early.push(last));
        if early.contains(x) {
            let j = choose|j: int| 0 <= j < early.len() && early[j] == x;
            assert(late[j] == x);
        }
        if before.contains(x) {
            let j = choose|j: int| 0 <= j < before.len() && before[j] == x;
            assert(now[j] == x);
        }
        if last == x {
            assert(late[n - 1] == x);
            if is_worth_warning(x.reason) {
                assert(now[before.len() as int] == x);
            }
        }
        if now.contains(x) {
            let j = choose|j: int| 0 <= j < now.len() && now[j] == x;
            if j < before.len() {
                assert(before[j] == x);
            } else {
                assert(late[n - 1] == x);
            }
        }
        if late.contains(x) {
            let j = choose|j: int| 0 <= j < late.len() && late[j] == x;
            if j < n - 1 {
                assert(early[j] == x);
            }
        }
    }
}

/// Each reason for which an incident was passed over is told with how many
/// there are of it.
pub proof fn law_each_reason_is_told(skips: Seq<SkippedIncidentView>, i: int)
    requires
        0 <= i < skips.len(),
    ensures
        has_text(
            reason_words(skips),
            decimal(reason_count(skips, skips[i].reason.words(), skips.len() as int)) + seq![' ']
                + skips[i].reason.words(),
        ),
{
    let n = skips.len() as int;
    let all = reasons_of(skips);
    let reasons = key_set::<ByText>(all, n);
    law_keys_hold_each_key_once::<ByText>(all, n);
    let x = skips[i].reason.words();
    assert(all[i] == x);
    assert(has_key::<ByText>(reasons, all[i]));
    let j = choose|j: int| 0 <= j < reasons.len() && ByText::same(#[trigger] reasons[j], x);
    assert(reasons[j] == x);
    let parts = Seq::new(
        reasons.len(),
        |i: int| decimal(reason_count(skips, reasons[i], n)) + " "@ + reasons[i],
    );
    reveal_strlit(" ");
    assert(" "@ =~= seq![' ']);
    lemma_joined_holds(parts, ", "@, j);
}

/// How many incidents were passed over for a reason.
pub proof fn law_reasons_are_counted(
    skips: Seq<SkippedIncidentView>,
    words: Seq<char>,
    n: int,
)
    requires
        0 <= n <= skips.len(),
    ensures
        reason_count(skips, words, n) <= n,
        (forall|k: int| 0 <= k < n ==> (#[trigger] skips[k]).reason.words() == words)
            ==> reason_count(skips, words, n) == n,
        (forall|k: int| 0 <= k < n ==> (#[trigger] skips[k]).reason.words() != words)
            ==> reason_count(skips, words, n) == 0,
        n > 0 ==> reason_count(skips, words, n) == reason_count(skips, words, n - 1) + if skips[n
            - 1].reason.words() == words {
            1nat
        } else {
            0
        },
    decreases n,
{
    if n > 0 {
        law_reasons_are_counted(skips, words, n - 1);
    }
}

/// The name of a file is what stands behind the last slash of its URI.
pub proof fn law_file_name_of_a_uri(dir: Seq<char>, name: Seq<char>)
    requires
        !name.contains('/'),
    ensures
        last_segment(dir + seq!['/'] + name) == name,
        last_segment(name) == name,
        uri_file_name("file://"@ + dir + seq!['/'] + name) == name,
{
    lemma_last_segment(dir, name);
    law_splitting(name, '/', name);
    let uri = "file://"@ + dir + seq!['/'] + name;
    assert(uri.subrange(0, "file://"@.len() as int) =~= "file://"@);
    assert(uri.skip("file://"@.len() as int) =~= dir + seq!['/'] + name);
}

proof fn lemma_last_segment(dir: Seq<char>, name: Seq<char>)
    requires
        !name.contains('/'),
    ensures
        split_at_char(dir + seq!['/'] + name, '/').last() == name,
        split_at_char(dir + seq!['/'] + name, '/').len() > 0,
    decreases dir.len(),
{
    let s = dir + seq!['/'] + name;
    if dir.contains('/') {
        let k = crate::text::char_pos(dir, '/', 0);
        crate::text::lemma_char_pos(dir, '/', 0);
        lemma_first_slash(dir, 0);
        let a = dir.take(k);
        let b = dir.skip(k + 1);
        assert(!a.contains('/')) by {
            if a.contains('/') {
                let j = choose|j: int| 0 <= j < a.len() && a[j] == '/';
                assert(dir[j] == '/');
            }
        }
        assert(s =~= a + seq!['/'] + (b + seq!['/'] + name));
        law_splitting(a, '/', b + seq!['/'] + name);
        lemma_last_segment(b, name);
        let rest = split_at_char(b + seq!['/'] + name, '/');
        assert((seq![a] + rest).last() == rest.last());
    } else {
        law_splitting(dir, '/', name);
        law_splitting(name, '/', name);
        assert((seq![dir] + seq![name]).last() == name);
    }
}

proof fn lemma_first_slash(s: Seq<char>, i: int)
    requires
        0 <= i <= s.len(),
    ensures
        forall|j: int| i <= j < crate::text::char_pos(s, '/', i) ==> s[j] != '/',
        crate::text::char_pos(s, '/', i) == s.len() ==> forall|j: int| i <= j < s.len() ==> s[j]
            != '/',
    decreases s.len() - i,
{
    if i < s.len() && s[i] != '/' {
        lemma_first_slash(s, i + 1);
    }
}

/// What happened is told with its number, and what did not is left out.
pub proof fn law_summary_tells_what_happened(s: Summary)
    ensures
        s.skipped > 0 ==> summary_words(s).contains(
            "  Skipped:        "@ + decimal(s.skipped as nat) + " incidents"@,
        ),
        s.done > 0 ==> summary_words(s).contains(
            "  Already done:   "@ + decimal(s.done as nat) + " incidents"@,
        ),
        s.manual > 0 ==> summary_words(s).contains(
            "  Manual review:  "@ + decimal(s.manual as nat) + " incidents remaining"@,
        ),
        s.warnings > 0 ==> summary_words(s).contains(
            "  Warnings:       "@ + decimal(s.warnings as nat),
        ),
        summary_words(s).len() == (if s.pattern_fixes > 0 || s.pattern_edits > 0 {
            1int
        } else {
            0
        }) + (if s.skipped > 0 {
            1int
        } else {
            0
        }) + (if s.done > 0 {
            1int
        } else {
            0
        }) + (if s.manual > 0 {
            1int
        } else {
            0
        }) + (if s.warnings > 0 {
            1int
        } else {
            0
        }),
{
    let first: Seq<Seq<char>> = if s.pattern_fixes > 0 || s.pattern_edits > 0 {
        seq![
            "  Pattern fixes:  "@ + decimal(s.pattern_edits as nat) + " "@ + (if s.applied {
                "applied"@
            } else {
                "planned"@
            }) + " across "@ + decimal(s.files as nat) + " files"@,
        ]
    } else {
        Seq::empty()
    };
    let a = counted_line("  Skipped:        "@, s.skipped as nat, " incidents"@);
    let b = counted_line("  Already done:   "@, s.done as nat, " incidents"@);
    let c = counted_line("  Manual review:  "@, s.manual as nat, " incidents remaining"@);
    let d = counted_line("  Warnings:       "@, s.warnings as nat, ""@);
    let all = summary_words(s);
    assert(all == first + a + b + c + d);
    if s.skipped > 0 {
        assert(all[first.len() as int] == a[0]);
    }
    if s.done > 0 {
        assert(all[(first.len() + a.len()) as int] == b[0]);
    }
    if s.manual > 0 {
        assert(all[(first.len() + a.len() + b.len()) as int] == c[0]);
    }
    if s.warnings > 0 {
        reveal_strlit("");
        let x = "  Warnings:       "@ + decimal(s.warnings as nat);
        assert(x + ""@ =~= x);
        assert(all[(first.len() + a.len() + b.len() + c.len()) as int] == d[0]);
    }
}

} // verus!
