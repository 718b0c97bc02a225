//! Applying edits: what each of them does to its line, what is written, and
//! what the diff shows.

use crate::engine::apply::{
    applied_file, applied_files, applied_plan, diff_lines, edited_line, file_diff, hunk_end,
    hunk_head, hunk_start, hunks, new_text_of, plan_diff, progress, repeated, sketch, Sketch,
};
use crate::engine::dedup::all_edits;
use crate::language::LanguageFixProvider;
use crate::laws::words::{
    is_first_at, law_every_occurrence_is_replaced, law_the_first_occurrence_is_replaced,
};
use crate::model::{FailedEditReasonView, FixPlanView, PlannedFixView, TextEditView};
use crate::text::{decimal, ends, has_text, joined, lines_of, occurs_at};
use crate::workspace::{text_at, WorkspaceView};
use vstd::prelude::*;

verus! {

broadcast use vstd::string::group_string_axioms;

// ---------------------------------------------------------------------
// One edit
// ---------------------------------------------------------------------

/// An edit of one occurrence puts its new text in the place of the first
/// occurrence of its old text; an edit of all occurrences does so again and
/// again behind it. All else on the line stays.
pub proof fn law_edit_replaces_its_text(
    before: Seq<char>,
    e: TextEditView,
    after: Seq<char>,
)
    requires
        is_first_at(before + e.old_text + after, e.old_text, before.len() as int),
    ensures
        !e.replace_all ==> edited_line(before + e.old_text + after, e) == before + e.new_text
            + after,
        e.replace_all && e.old_text.len() > 0 ==> edited_line(before + e.old_text + after, e)
            == before + e.new_text + edited_line(after, e),
{
    if !e.replace_all {
        law_the_first_occurrence_is_replaced(before, e.old_text, e.new_text, after);
    } else if e.old_text.len() > 0 {
        law_every_occurrence_is_replaced(before, e.old_text, e.new_text, after);
    }
}

/// The edit is one of those before it.
pub open spec fn is_repetition(edits: Seq<TextEditView>, e: TextEditView) -> bool {
    exists|k: int|
        0 <= k < edits.len() && (#[trigger] edits[k]).line == e.line && edits[k].old_text
            == e.old_text && edits[k].new_text == e.new_text
}

proof fn lemma_progress_prefix(
    path: Seq<char>,
    source: Seq<Seq<char>>,
    edits: Seq<TextEditView>,
    e: TextEditView,
    n: int,
)
    requires
        0 <= n <= edits.len(),
    ensures
        progress(path, source, edits.push(e), n) == progress(path, source, edits, n),
    decreases n,
{
    if n > 0 {
        lemma_progress_prefix(path, source, edits, e, n - 1);
        let more = edits.push(e);
        assert(more[n - 1] == edits[n - 1]);
        assert(repeated(more, n - 1) == repeated(edits, n - 1)) by {
            if repeated(more, n - 1) {
                let k = choose|k: int|
                    0 <= k < n - 1 && (#[trigger] more[k]).line == more[n - 1].line
                        && more[k].old_text == more[n - 1].old_text && more[k].new_text
                        == more[n - 1].new_text;
                assert(edits[k] == more[k]);
            }
            if repeated(edits, n - 1) {
                let k = choose|k: int|
                    0 <= k < n - 1 && (#[trigger] edits[k]).line == edits[n - 1].line
                        && edits[k].old_text == edits[n - 1].old_text && edits[k].new_text
                        == edits[n - 1].new_text;
                assert(edits[k] == more[k]);
            }
        }
    }
}

/// One more edit: a repetition does nothing; one whose line holds its text
/// changes that line, no other, and counts as applied; any other is recorded
/// as failed, with the reason, and changes nothing.
pub proof fn law_one_more_edit(
    path: Seq<char>,
    source: Seq<Seq<char>>,
    edits: Seq<TextEditView>,
    e: TextEditView,
)
    ensures
        ({
            let p = progress(path, source, edits, edits.len() as int);
            let q = progress(path, source, edits.push(e), edits.len() as int + 1);
            let idx = if e.line > 0 {
                e.line - 1
            } else {
                0int
            };
            if is_repetition(edits, e) {
                q == p
            } else if idx < p.lines.len() && has_text(p.lines[idx], e.old_text) {
                &&& q.applied == p.applied + 1
                &&& q.failed == p.failed
                &&& q.lines.len() == p.lines.len()
                &&& q.lines[idx] == edited_line(p.lines[idx], e)
                &&& forall|k: int|
                    0 <= k < p.lines.len() && k != idx ==> #[trigger] q.lines[k] == p.lines[k]
            } else {
                &&& q.applied == p.applied
                &&& q.lines == p.lines
                &&& q.failed.len() == p.failed.len() + 1
                &&& q.failed.drop_last() == p.failed
                &&& q.failed.last().file == path
                &&& q.failed.last().line == e.line
                &&& q.failed.last().rule_id == e.rule_id
                &&& q.failed.last().old_text == e.old_text
                &&& q.failed.last().reason == if idx < p.lines.len() {
                    FailedEditReasonView::TextNotFoundOnLine { actual_line: p.lines[idx] }
                } else {
                    FailedEditReasonView::LineOutOfBounds { total_lines: p.lines.len() as usize }
                }
            }
        }),
{
    let n = edits.len() as int;
    let more = edits.push(e);
    let p = progress(path, source, edits, n);
    let q = progress(path, source, more, n + 1);
    lemma_progress_prefix(path, source, edits, e, n);
    assert(more[n] == e);
    assert(repeated(more, n) == is_repetition(edits, e)) by {
        if repeated(more, n) {
            let k = choose|k: int|
                0 <= k < n && (#[trigger] more[k]).line == more[n].line && more[k].old_text
                    == more[n].old_text && more[k].new_text == more[n].new_text;
            assert(edits[k] == more[k]);
        }
        if is_repetition(edits, e) {
            let k = choose|k: int|
                0 <= k < edits.len() && (#[trigger] edits[k]).line == e.line && edits[k].old_text
                    == e.old_text && edits[k].new_text == e.new_text;
            assert(edits[k] == more[k]);
        }
    }
    if q.failed.len() > p.failed.len() {
        assert(q.failed.drop_last() =~= p.failed);
    }
}

/// Without edits a file stays as it is.
pub proof fn law_no_edits_no_change(path: Seq<char>, source: Seq<Seq<char>>)
    ensures
        progress(path, source, Seq::empty(), 0).lines == source,
        progress(path, source, Seq::empty(), 0).applied == 0,
        progress(path, source, Seq::empty(), 0).failed.len() == 0,
{
}

// ---------------------------------------------------------------------
// Whole files
// ---------------------------------------------------------------------

/// What is written of a changed file are its lines, tidied, with a line feed
/// between them, and one at the end if and only if the file had one.
pub proof fn law_written_text<L: LanguageFixProvider>(
    lang: &L,
    path: Seq<char>,
    source: Seq<char>,
    fixes: Seq<PlannedFixView>,
)
    ensures
        new_text_of(lang, path, source, fixes) matches Some(text) ==> {
            let lines = lang.tidied(applied_file(path, source, fixes).lines);
            if source.len() > 0 && source.last() == '\n' {
                text == joined(lines, seq!['\n']) + seq!['\n']
            } else {
                text == joined(lines, seq!['\n'])
            }
        },
{
    reveal_strlit("\n");
    assert("\n"@ =~= seq!['\n']);
    if source.len() > 0 && source.last() == '\n' {
        assert(source.subrange(source.len() - 1, source.len() as int) =~= "\n"@);
    }
    if ends(source, "\n"@) {
        assert(source.subrange(source.len() - 1, source.len() as int)[0] == '\n');
    }
}

/// Each file of a plan is dealt with: one that cannot be read is an error
/// that names it; one that an edit changes is written with its new text and
/// reported as modified.
pub proof fn law_every_file_is_dealt_with<L: LanguageFixProvider>(
    lang: &L,
    files: Seq<(Seq<char>, Seq<PlannedFixView>)>,
    ws: WorkspaceView,
    n: int,
    k: int,
)
    requires
        0 <= k < n <= files.len(),
    ensures
        match text_at(ws, files[k].0) {
            Err(reason) => applied_files(lang, files, ws, n).errors.contains(
                files[k].0 + ": "@ + reason,
            ),
            Ok(source) => (new_text_of(lang, files[k].0, source, files[k].1) matches Some(text)
                ==> applied_files(lang, files, ws, n).writes.contains((files[k].0, text))
                && applied_files(lang, files, ws, n).modified.contains(files[k].0)) && forall|
                j: int,
            |
                0 <= j < applied_file(files[k].0, source, files[k].1).failed.len()
                    ==> applied_files(lang, files, ws, n).failed.contains(
                    #[trigger] applied_file(files[k].0, source, files[k].1).failed[j],
                ),
        },
    decreases n,
{
    let before = applied_files(lang, files, ws, n - 1);
    let now = applied_files(lang, files, ws, n);
    if k < n - 1 {
        law_every_file_is_dealt_with(lang, files, ws, n - 1, k);
        match text_at(ws, files[k].0) {
            Err(reason) => {
                let x = files[k].0 + ": "@ + reason;
                let j = choose|j: int| 0 <= j < before.errors.len() && before.errors[j] == x;
                assert(now.errors[j] == x);
            },
            Ok(source) => {
                match new_text_of(lang, files[k].0, source, files[k].1) {
                    Some(text) => {
                        let x = (files[k].0, text);
                        let j = choose|j: int| 0 <= j < before.writes.len() && before.writes[j] == x;
                        assert(now.writes[j] == x);
                        let m = choose|m: int|
                            0 <= m < before.modified.len() && before.modified[m] == files[k].0;
                        assert(now.modified[m] == files[k].0);
                    },
                    None => {},
                }
                let failed = applied_file(files[k].0, source, files[k].1).failed;
                assert forall|j: int| 0 <= j < failed.len() implies now.failed.contains(
                    #[trigger] failed[j],
                ) by {
                    let m = choose|m: int|
                        0 <= m < before.failed.len() && before.failed[m] == failed[j];
                    assert(now.failed[m] == failed[j]);
                }
            },
        }
    } else {
        match text_at(ws, files[k].0) {
            Err(reason) => {
                assert(now.errors.last() == files[k].0 + ": "@ + reason);
            },
            Ok(source) => {
                let p = applied_file(files[k].0, source, files[k].1);
                match new_text_of(lang, files[k].0, source, files[k].1) {
                    Some(text) => {
                        assert(now.writes.last() == (files[k].0, text));
                        assert(now.modified.last() == files[k].0);
                    },
                    None => {},
                }
                assert forall|j: int| 0 <= j < p.failed.len() implies now.failed.contains(
                    #[trigger] p.failed[j],
                ) by {
                    assert(now.failed[before.failed.len() + j] == p.failed[j]);
                }
            },
        }
    }
}

/// How many edits of the first `n` files find their text.
pub open spec fn applied_total(
    files: Seq<(Seq<char>, Seq<PlannedFixView>)>,
    ws: WorkspaceView,
    n: int,
) -> nat
    decreases n,
{
    if n <= 0 {
        0
    } else {
        applied_total(files, ws, n - 1) + match text_at(ws, files[n - 1].0) {
            Ok(source) => applied_file(files[n - 1].0, source, files[n - 1].1).applied,
            Err(_) => 0,
        }
    }
}

/// How many edits of the first `n` files fail.
pub open spec fn failed_total(
    files: Seq<(Seq<char>, Seq<PlannedFixView>)>,
    ws: WorkspaceView,
    n: int,
) -> nat
    decreases n,
{
    if n <= 0 {
        0
    } else {
        failed_total(files, ws, n - 1) + match text_at(ws, files[n - 1].0) {
            Ok(source) => applied_file(files[n - 1].0, source, files[n - 1].1).failed.len(),
            Err(_) => 0,
        }
    }
}

proof fn lemma_totals<L: LanguageFixProvider>(
    lang: &L,
    files: Seq<(Seq<char>, Seq<PlannedFixView>)>,
    ws: WorkspaceView,
    n: int,
)
    requires
        0 <= n <= files.len(),
    ensures
        applied_files(lang, files, ws, n).applied == applied_total(files, ws, n),
        applied_files(lang, files, ws, n).failed.len() == failed_total(files, ws, n),
        applied_files(lang, files, ws, n).modified.len() <= n,
        applied_files(lang, files, ws, n).modified.len() + applied_files(
            lang,
            files,
            ws,
            n,
        ).errors.len() <= n,
    decreases n,
{
    if n > 0 {
        lemma_totals(lang, files, ws, n - 1);
    }
}

/// The numbers that applying a plan reports are those of the edits that found
/// their texts, of those that did not, and of the files that changed.
pub proof fn law_result_counts<L: LanguageFixProvider>(
    lang: &L,
    plan: FixPlanView,
    ws: WorkspaceView,
)
    requires
        applied_total(plan.files, ws, plan.files.len() as int) <= usize::MAX,
        failed_total(plan.files, ws, plan.files.len() as int) <= usize::MAX,
        plan.files.len() <= usize::MAX,
    ensures
        applied_plan(lang, plan, ws).edits_applied == applied_total(
            plan.files,
            ws,
            plan.files.len() as int,
        ),
        applied_plan(lang, plan, ws).edits_skipped == failed_total(
            plan.files,
            ws,
            plan.files.len() as int,
        ),
        applied_plan(lang, plan, ws).failed_edits.len() == applied_plan(
            lang,
            plan,
            ws,
        ).edits_skipped,
        applied_plan(lang, plan, ws).modified_files.len() == applied_plan(
            lang,
            plan,
            ws,
        ).files_modified,
        applied_plan(lang, plan, ws).edits_subsumed == plan.edits_subsumed,
{
    lemma_totals(lang, plan.files, ws, plan.files.len() as int);
}

// ---------------------------------------------------------------------
// The diff
// ---------------------------------------------------------------------

pub proof fn lemma_inside(a: Seq<char>, b: Seq<char>, x: Seq<char>)
    requires
        has_text(a, x) || has_text(b, x),
    ensures
        has_text(a + b, x),
{
    let s = a + b;
    if has_text(a, x) {
        let i = choose|i: int| occurs_at(a, x, i);
        assert(s.subrange(i, i + x.len()) =~= a.subrange(i, i + x.len()));
        assert(occurs_at(s, x, i));
    } else {
        let i = choose|i: int| occurs_at(b, x, i);
        assert(s.subrange(a.len() + i, a.len() + i + x.len()) =~= b.subrange(i, i + x.len()));
        assert(occurs_at(s, x, a.len() + i));
    }
}

/// What the diff shows of line `k`: a changed line as it was and as it is,
/// and another one as it is.
pub open spec fn shown_line<L: LanguageFixProvider>(
    lang: &L,
    source: Seq<Seq<char>>,
    after: Seq<Seq<char>>,
    changed: bool,
    k: int,
) -> Seq<char> {
    if changed {
        seq!['-'] + source[k] + seq!['\n', '+'] + lang.tidied(seq![after[k]])[0] + seq!['\n']
    } else {
        seq![' '] + source[k] + seq!['\n']
    }
}

proof fn lemma_diff_lines<L: LanguageFixProvider>(
    lang: &L,
    source: Seq<Seq<char>>,
    s: Sketch,
    from: int,
    to: int,
    k: int,
)
    requires
        0 <= from <= k < to <= source.len(),
        s.changed.len() == source.len(),
    ensures
        has_text(
            diff_lines(lang, source, s, from, to),
            shown_line(lang, source, s.lines, s.changed[k], k),
        ),
    decreases to - from,
{
    reveal_strlit("-");
    reveal_strlit("\n+");
    reveal_strlit("\n");
    reveal_strlit(" ");
    assert("-"@ =~= seq!['-']);
    assert("\n+"@ =~= seq!['\n', '+']);
    assert("\n"@ =~= seq!['\n']);
    assert(" "@ =~= seq![' ']);
    let before = diff_lines(lang, source, s, from, to - 1);
    let x = shown_line(lang, source, s.lines, s.changed[k], k);
    let last = shown_line(lang, source, s.lines, s.changed[to - 1], to - 1);
    assert(diff_lines(lang, source, s, from, to) =~= before + last);
    if k == to - 1 {
        crate::text::lemma_has_text_reflexive(x);
        lemma_inside(before, last, x);
    } else {
        lemma_diff_lines(lang, source, s, from, to - 1, k);
        lemma_inside(before, last, x);
    }
}

proof fn lemma_hunks<L: LanguageFixProvider>(
    lang: &L,
    source: Seq<Seq<char>>,
    s: Sketch,
    n: int,
    idx: int,
    x: Seq<char>,
)
    requires
        0 <= idx < n <= source.len(),
        s.changed.len() == source.len(),
        s.changed[idx],
        has_text(
            diff_lines(
                lang,
                source,
                s,
                hunk_start(idx),
                hunk_end(idx, source.len() as int),
            ),
            x,
        ),
    ensures
        has_text(hunks(lang, source, s, n), x),
    decreases n,
{
    let before = hunks(lang, source, s, n - 1);
    let total = source.len() as int;
    let more = diff_lines(lang, source, s, hunk_start(n - 1), hunk_end(n - 1, total));
    if idx == n - 1 {
        lemma_inside(before + hunk_head(idx, total), more, x);
    } else {
        lemma_hunks(lang, source, s, n - 1, idx, x);
        if s.changed[n - 1] {
            lemma_inside(before, hunk_head(n - 1, total), x);
            lemma_inside(before + hunk_head(n - 1, total), more, x);
        }
    }
}

proof fn lemma_sketch(source: Seq<Seq<char>>, edits: Seq<TextEditView>, n: int)
    requires
        0 <= n <= edits.len(),
    ensures
        sketch(source, edits, n).lines.len() == source.len(),
        sketch(source, edits, n).changed.len() == source.len(),
        forall|k: int|
            0 <= k < source.len() && !(#[trigger] sketch(source, edits, n).changed[k]) ==> sketch(
                source,
                edits,
                n,
            ).lines[k] == source[k],
    decreases n,
{
    if n > 0 {
        lemma_sketch(source, edits, n - 1);
        let before = sketch(source, edits, n - 1);
        let now = sketch(source, edits, n);
        assert forall|k: int| 0 <= k < source.len() && !(#[trigger] now.changed[k]) implies
            now.lines[k] == source[k] by {
            assert(!before.changed[k]);
        }
    }
}

/// The diff of a file shows each changed line as it was and as it is, with
/// the three lines above and below it.
pub proof fn law_diff_shows_each_change_with_its_surroundings<L: LanguageFixProvider>(
    lang: &L,
    path: Seq<char>,
    source: Seq<char>,
    fixes: Seq<PlannedFixView>,
    idx: int,
    k: int,
)
    requires
        ({
            let edits = all_edits(fixes, fixes.len() as int);
            let s = sketch(lines_of(source), edits, edits.len() as int);
            0 <= idx < lines_of(source).len() && s.lines[idx] != lines_of(source)[idx]
        }),
        0 <= k < lines_of(source).len(),
        idx - 3 <= k <= idx + 3,
    ensures
        ({
            let edits = all_edits(fixes, fixes.len() as int);
            let s = sketch(lines_of(source), edits, edits.len() as int);
            &&& has_text(
                file_diff(lang, path, source, fixes),
                shown_line(lang, lines_of(source), s.lines, s.changed[k], k),
            )
            &&& s.lines[k] != lines_of(source)[k] ==> s.changed[k]
            &&& has_text(file_diff(lang, path, source, fixes), "--- a/"@ + path)
        }),
{
    let all = lines_of(source);
    let total = all.len() as int;
    let edits = all_edits(fixes, fixes.len() as int);
    let s = sketch(all, edits, edits.len() as int);
    lemma_sketch(all, edits, edits.len() as int);
    assert(s.changed[idx]);
    assert(s.changed.contains(true));
    let x = shown_line(lang, all, s.lines, s.changed[k], k);
    lemma_diff_lines(lang, all, s, hunk_start(idx), hunk_end(idx, total), k);
    lemma_hunks(lang, all, s, total, idx, x);
    let head = "--- a/"@ + path + "\n+++ b/"@ + path + "\n"@;
    lemma_inside(head, hunks(lang, all, s, total), x);
    let first = "--- a/"@ + path;
    crate::text::lemma_has_text_reflexive(first);
    lemma_inside(first, "\n+++ b/"@, first);
    lemma_inside(first + "\n+++ b/"@, path, first);
    lemma_inside(first + "\n+++ b/"@ + path, "\n"@, first);
    lemma_inside(head, hunks(lang, all, s, total), first);
}

proof fn lemma_hunk_head<L: LanguageFixProvider>(
    lang: &L,
    source: Seq<Seq<char>>,
    s: Sketch,
    n: int,
    idx: int,
)
    requires
        0 <= idx < n <= source.len(),
        s.changed.len() == source.len(),
        s.changed[idx],
    ensures
        has_text(hunks(lang, source, s, n), hunk_head(idx, source.len() as int)),
    decreases n,
{
    let before = hunks(lang, source, s, n - 1);
    let total = source.len() as int;
    let x = hunk_head(idx, total);
    let more = diff_lines(lang, source, s, hunk_start(n - 1), hunk_end(n - 1, total));
    if idx == n - 1 {
        crate::text::lemma_has_text_reflexive(x);
        lemma_inside(before, x, x);
        lemma_inside(before + x, more, x);
    } else {
        lemma_hunk_head(lang, source, s, n - 1, idx);
        if s.changed[n - 1] {
            lemma_inside(before, hunk_head(n - 1, total), x);
            lemma_inside(before + hunk_head(n - 1, total), more, x);
        }
    }
}

/// Each change of a file is headed by where it is: the number of the first
/// line that is shown and how many are, which is at most three above the
/// change and three below it, within the file.
pub proof fn law_diff_says_where_a_change_is<L: LanguageFixProvider>(
    lang: &L,
    path: Seq<char>,
    source: Seq<char>,
    fixes: Seq<PlannedFixView>,
    idx: int,
    first: int,
    last: int,
)
    requires
        ({
            let edits = all_edits(fixes, fixes.len() as int);
            let s = sketch(lines_of(source), edits, edits.len() as int);
            0 <= idx < lines_of(source).len() && s.lines[idx] != lines_of(source)[idx]
        }),
        0 <= first <= idx <= last < lines_of(source).len(),
        first == idx - 3 || (first == 0 && idx < 3),
        last == idx + 3 || (last == lines_of(source).len() - 1 && last < idx + 3),
    ensures
        has_text(
            file_diff(lang, path, source, fixes),
            "@@ -"@ + decimal((first + 1) as nat) + ","@ + decimal((last + 1 - first) as nat)
                + " +"@ + decimal((first + 1) as nat) + ","@ + decimal((last + 1 - first) as nat)
                + " @@\n"@,
        ),
{
    let all = lines_of(source);
    let total = all.len() as int;
    let edits = all_edits(fixes, fixes.len() as int);
    let s = sketch(all, edits, edits.len() as int);
    lemma_sketch(all, edits, edits.len() as int);
    assert(s.changed[idx]);
    assert(s.changed.contains(true));
    assert(hunk_start(idx) == first);
    assert(hunk_end(idx, total) == last + 1);
    lemma_hunk_head(lang, all, s, total, idx);
    let head = "--- a/"@ + path + "\n+++ b/"@ + path + "\n"@;
    lemma_inside(head, hunks(lang, all, s, total), hunk_head(idx, total));
}

/// The diff of a plan shows the diff of each of its files that can be read.
pub proof fn law_diff_shows_every_file<L: LanguageFixProvider>(
    lang: &L,
    files: Seq<(Seq<char>, Seq<PlannedFixView>)>,
    ws: WorkspaceView,
    n: int,
    k: int,
)
    requires
        0 <= k < n <= files.len(),
    ensures
        text_at(ws, files[k].0) matches Ok(source) ==> has_text(
            plan_diff(lang, files, ws, n),
            file_diff(lang, files[k].0, source, files[k].1),
        ),
    decreases n,
{
    if k < n - 1 {
        law_diff_shows_every_file(lang, files, ws, n - 1, k);
    }
    match text_at(ws, files[k].0) {
        Ok(source) => {
            let x = file_diff(lang, files[k].0, source, files[k].1);
            crate::text::lemma_has_text_reflexive(x);
            match text_at(ws, files[n - 1].0) {
                Ok(text) => {
                    lemma_inside(
                        plan_diff(lang, files, ws, n - 1),
                        file_diff(lang, files[n - 1].0, text, files[n - 1].1),
                        x,
                    );
                },
                Err(_) => {},
            }
        },
        Err(_) => {},
    }
}

} // verus!
