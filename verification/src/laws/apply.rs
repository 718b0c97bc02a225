//! Applying edits to files and showing them as a diff.

use crate::engine::apply::{
    applied_file, applied_files, applied_plan, file_diff, line_index, new_text_of, plan_diff,
    progress, repeated, sketch, with_hook,
};
use crate::engine::dedup::{all_edits, deduplicated};
use crate::language::LanguageFixProvider;
use crate::laws::edits::law_no_overlaps_are_left;
use crate::model::{FixPlanView, FixResultView, PlannedFixView, TextEditView};
use crate::text::lines_of;
use crate::workspace::{text_at, WorkspaceView};
use vstd::prelude::*;

verus! {

broadcast use vstd::string::group_string_axioms;

/// How many of the first `n` edits repeat an earlier one.
pub open spec fn repeated_count(edits: Seq<TextEditView>, n: int) -> nat
    decreases n,
{
    if n <= 0 {
        0
    } else if repeated(edits, n - 1) {
        repeated_count(edits, n - 1) + 1
    } else {
        repeated_count(edits, n - 1)
    }
}

/// Every edit is applied, recorded as failed, or a repetition.
pub proof fn law_every_edit_is_accounted_for(
    path: Seq<char>,
    source: Seq<Seq<char>>,
    edits: Seq<TextEditView>,
    n: int,
)
    requires
        0 <= n,
    ensures
        progress(path, source, edits, n).applied + progress(path, source, edits, n).failed.len()
            + repeated_count(edits, n) == n,
    decreases n,
{
    if n > 0 {
        law_every_edit_is_accounted_for(path, source, edits, n - 1);
    }
}

/// Applying edits keeps the number of lines, and a line that no edit is for
/// stays as it is.
pub proof fn law_only_edited_lines_change(
    path: Seq<char>,
    source: Seq<Seq<char>>,
    edits: Seq<TextEditView>,
    n: int,
    idx: int,
)
    requires
        0 <= n <= edits.len(),
        0 <= idx < source.len(),
    ensures
        progress(path, source, edits, n).lines.len() == source.len(),
        (forall|k: int| 0 <= k < n ==> line_index((#[trigger] edits[k]).line) != idx) ==> progress(
            path,
            source,
            edits,
            n,
        ).lines[idx] == source[idx],
    decreases n,
{
    if n > 0 {
        law_only_edited_lines_change(path, source, edits, n - 1, idx);
    }
}

/// Every failure is recorded with its file, and with the line, the rule and
/// the text of an edit.
pub proof fn law_failures_name_their_edit(
    path: Seq<char>,
    source: Seq<Seq<char>>,
    edits: Seq<TextEditView>,
    n: int,
    i: int,
)
    requires
        0 <= n <= edits.len(),
        0 <= i < progress(path, source, edits, n).failed.len(),
    ensures
        ({
            let failure = progress(path, source, edits, n).failed[i];
            &&& failure.file == path
            &&& exists|k: int|
                0 <= k < n && (#[trigger] edits[k]).line == failure.line && edits[k].rule_id
                    == failure.rule_id && edits[k].old_text == failure.old_text
        }),
    decreases n,
{
    if n > 0 {
        let before = progress(path, source, edits, n - 1);
        if i < before.failed.len() {
            law_failures_name_their_edit(path, source, edits, n - 1, i);
        } else {
            assert(edits[n - 1].line == progress(path, source, edits, n).failed[i].line);
        }
    }
}

/// A file that no edit changes is not written; one that an edit changes is.
pub proof fn law_written_if_and_only_if_edited<L: LanguageFixProvider>(
    lang: &L,
    path: Seq<char>,
    source: Seq<char>,
    fixes: Seq<PlannedFixView>,
)
    ensures
        new_text_of(lang, path, source, fixes) is Some <==> applied_file(
            path,
            source,
            fixes,
        ).applied > 0,
{
}

/// Only files of the plan that can be read are written, and each one that is
/// written is reported as modified.
pub proof fn law_writes_are_reported<L: LanguageFixProvider>(
    lang: &L,
    files: Seq<(Seq<char>, Seq<PlannedFixView>)>,
    ws: WorkspaceView,
    n: int,
)
    requires
        0 <= n <= files.len(),
    ensures
        ({
            let a = applied_files(lang, files, ws, n);
            &&& a.writes.len() == a.modified.len()
            &&& forall|i: int|
                0 <= i < a.writes.len() ==> {
                    &&& (#[trigger] a.writes[i]).0 == a.modified[i]
                    &&& text_at(ws, a.writes[i].0) is Ok
                    &&& exists|k: int| 0 <= k < n && (#[trigger] files[k]).0 == a.writes[i].0
                }
        }),
    decreases n,
{
    if n > 0 {
        law_writes_are_reported(lang, files, ws, n - 1);
        let before = applied_files(lang, files, ws, n - 1);
        let a = applied_files(lang, files, ws, n);
        assert forall|i: int| 0 <= i < a.writes.len() implies {
            &&& (#[trigger] a.writes[i]).0 == a.modified[i]
            &&& text_at(ws, a.writes[i].0) is Ok
            &&& exists|k: int| 0 <= k < n && (#[trigger] files[k]).0 == a.writes[i].0
        } by {
            if i < before.writes.len() {
                assert(a.writes[i] == before.writes[i]);
            } else {
                assert(files[n - 1].0 == a.writes[i].0);
            }
        }
    }
}

// ---------------------------------------------------------------------
// Diffs
// ---------------------------------------------------------------------

/// Before the first edit applies, both views of the file are the source.
proof fn lemma_nothing_happened(
    path: Seq<char>,
    source: Seq<Seq<char>>,
    edits: Seq<TextEditView>,
    n: int,
)
    requires
        0 <= n <= edits.len(),
    ensures
        sketch(source, edits, n).changed.len() == source.len(),
        sketch(source, edits, n).lines.len() == source.len(),
        progress(path, source, edits, n).applied == 0 <==> !sketch(
            source,
            edits,
            n,
        ).changed.contains(true),
        progress(path, source, edits, n).applied == 0 ==> {
            &&& progress(path, source, edits, n).lines == source
            &&& sketch(source, edits, n).lines == source
            &&& forall|k: int|
                #![trigger edits[k]]
                0 <= k < n ==> !(line_index(edits[k].line) < source.len() && crate::text::has_text(
                    source[line_index(edits[k].line)],
                    edits[k].old_text,
                ))
        },
    decreases n,
{
    if n > 0 {
        lemma_nothing_happened(path, source, edits, n - 1);
        let before = sketch(source, edits, n - 1);
        let now = sketch(source, edits, n);
        let e = edits[n - 1];
        let idx = line_index(e.line);
        if before.changed.contains(true) {
            let at = choose|at: int| 0 <= at < before.changed.len() && before.changed[at] == true;
            assert(now.changed[at] == true);
        } else if idx < source.len() && crate::text::has_text(source[idx], e.old_text) {
            assert(now.changed[idx] == true);
            if repeated(edits, n - 1) {
                let k = choose|k: int|
                    0 <= k < n - 1 && (#[trigger] edits[k]).line == e.line && edits[k].old_text
                        == e.old_text && edits[k].new_text == e.new_text;
                assert(false);
            }
        } else {
            assert(now == before);
        }
    } else {
        let none = sketch(source, edits, n).changed;
        assert(!none.contains(true));
    }
}

/// The diff shows a file if and only if applying its fixes changes it.
pub proof fn law_diff_shows_what_is_written<L: LanguageFixProvider>(
    lang: &L,
    path: Seq<char>,
    source: Seq<char>,
    fixes: Seq<PlannedFixView>,
)
    ensures
        file_diff(lang, path, source, fixes).len() > 0 <==> new_text_of(
            lang,
            path,
            source,
            fixes,
        ) is Some,
{
    let edits = all_edits(fixes, fixes.len() as int);
    lemma_nothing_happened(path, lines_of(source), edits, edits.len() as int);
    reveal_strlit("--- a/");
}

/// The diff of a plan is empty if and only if applying it writes nothing.
pub proof fn law_empty_diff_means_no_writes<L: LanguageFixProvider>(
    lang: &L,
    files: Seq<(Seq<char>, Seq<PlannedFixView>)>,
    ws: WorkspaceView,
    n: int,
)
    requires
        0 <= n <= files.len(),
    ensures
        plan_diff(lang, files, ws, n).len() == 0 <==> applied_files(
            lang,
            files,
            ws,
            n,
        ).writes.len() == 0,
    decreases n,
{
    if n > 0 {
        law_empty_diff_means_no_writes(lang, files, ws, n - 1);
        match text_at(ws, files[n - 1].0) {
            Ok(source) => {
                law_diff_shows_what_is_written(lang, files[n - 1].0, source, files[n - 1].1);
            },
            Err(_) => {},
        }
    }
}

/// Where no edit is a repetition, the diff shows the lines that applying
/// the edits gives.
pub proof fn law_diff_shows_the_applied_lines(
    path: Seq<char>,
    source: Seq<Seq<char>>,
    edits: Seq<TextEditView>,
    n: int,
)
    requires
        0 <= n <= edits.len(),
        forall|i: int| 0 <= i < edits.len() ==> !#[trigger] repeated(edits, i),
    ensures
        sketch(source, edits, n).lines == progress(path, source, edits, n).lines,
    decreases n,
{
    if n > 0 {
        law_diff_shows_the_applied_lines(path, source, edits, n - 1);
        assert(!repeated(edits, n - 1));
    }
}

/// Once overlaps are removed from the fixes of a file, no edit is a
/// repetition.
pub proof fn law_deduplicated_edits_do_not_repeat(fixes: Seq<PlannedFixView>, i: int)
    requires
        0 <= i < all_edits(deduplicated(fixes), deduplicated(fixes).len() as int).len(),
    ensures
        !repeated(all_edits(deduplicated(fixes), deduplicated(fixes).len() as int), i),
{
    let left = all_edits(deduplicated(fixes), deduplicated(fixes).len() as int);
    if repeated(left, i) {
        let k = choose|k: int|
            0 <= k < i && (#[trigger] left[k]).line == left[i].line && left[k].old_text
                == left[i].old_text && left[k].new_text == left[i].new_text;
        law_no_overlaps_are_left(fixes, k, i);
    }
}

/// A failing step after the writes adds one error at the end, and nothing
/// else of the result of a plan changes; one that succeeds changes nothing.
pub proof fn law_failing_hook_only_adds_an_error<L: LanguageFixProvider>(
    lang: &L,
    plan: FixPlanView,
    ws: WorkspaceView,
    reason: Seq<char>,
)
    ensures
        ({
            let done = applied_plan(lang, plan, ws);
            let after = with_hook(done, Err(reason));
            &&& after.errors == done.errors.push("Post-apply hook failed: "@ + reason)
            &&& after == (FixResultView { errors: after.errors, ..done })
            &&& with_hook(done, Ok(())) == done
        }),
{
}

} // verus!
