//! Applying the edits of a plan to the text of files, and showing them as a
//! diff.

use crate::engine::dedup::{all_edits, count_up, counted, flatten};
use crate::language::LanguageFixProvider;
use crate::model::{
    FailedEdit, FailedEditReason, FailedEditReasonView, FailedEditView, FixPlan, FixPlanView,
    FixResult, FixResultView, PlannedFix, PlannedFixView, TextEdit, TextEditView,
};
use crate::text::{
    cat2, cat3, cat5, cat9, contains, decimal, decimal_of, ends, ends_with, has_text, join,
    joined, lines, lines_of, owned, replace, replace_first, replaced, replaced_first, same,
};
use crate::views::{append_all, append_one, only};
use crate::workspace::{text_at, Workspace, WorkspaceView};
use vstd::prelude::*;

verus! {

broadcast use vstd::string::group_string_axioms;

// ---------------------------------------------------------------------
// One file
// ---------------------------------------------------------------------

/// Which line, counted from zero, an edit is for.
pub open spec fn line_index(line: u32) -> int {
    if line > 0 {
        line - 1
    } else {
        0
    }
}

/// Which line, counted from zero, an edit is for.
pub fn index_of_line(line: u32) -> (r: usize)
    ensures
        r == line_index(line),
{
    if line > 0 {
        (line - 1) as usize
    } else {
        0
    }
}

/// A line with an edit applied to it.
pub open spec fn edited_line(line: Seq<char>, e: TextEditView) -> Seq<char> {
    if e.replace_all {
        replaced(line, e.old_text, e.new_text)
    } else {
        replaced_first(line, e.old_text, e.new_text)
    }
}

/// The same replacement on the same line stands among the earlier edits.
pub open spec fn repeated(edits: Seq<TextEditView>, i: int) -> bool {
    exists|k: int|
        0 <= k < i && (#[trigger] edits[k]).line == edits[i].line && edits[k].old_text
            == edits[i].old_text && edits[k].new_text == edits[i].new_text
}

/// How far the application of edits to a file has come.
#[verifier::ext_equal]
pub ghost struct Progress {
    pub lines: Seq<Seq<char>>,
    pub applied: nat,
    pub failed: Seq<FailedEditView>,
}

/// What one more edit does: it changes its line where the line holds the
/// text it looks for, and is recorded as failed otherwise.
pub open spec fn after_edit(path: Seq<char>, p: Progress, e: TextEditView) -> Progress {
    let idx = line_index(e.line);
    if idx >= p.lines.len() {
        Progress {
            failed: p.failed.push(
                FailedEditView {
                    file: path,
                    line: e.line,
                    rule_id: e.rule_id,
                    old_text: e.old_text,
                    reason: FailedEditReasonView::LineOutOfBounds {
                        total_lines: p.lines.len() as usize,
                    },
                },
            ),
            ..p
        }
    } else if has_text(p.lines[idx], e.old_text) {
        Progress {
            lines: p.lines.update(idx, edited_line(p.lines[idx], e)),
            applied: p.applied + 1,
            ..p
        }
    } else {
        Progress {
            failed: p.failed.push(
                FailedEditView {
                    file: path,
                    line: e.line,
                    rule_id: e.rule_id,
                    old_text: e.old_text,
                    reason: FailedEditReasonView::TextNotFoundOnLine { actual_line: p.lines[idx] },
                },
            ),
            ..p
        }
    }
}

/// The file after its first `n` edits, each replacement once.
pub open spec fn progress(
    path: Seq<char>,
    source: Seq<Seq<char>>,
    edits: Seq<TextEditView>,
    n: int,
) -> Progress
    decreases n,
{
    if n <= 0 {
        Progress { lines: source, applied: 0, failed: Seq::empty() }
    } else if repeated(edits, n - 1) {
        progress(path, source, edits, n - 1)
    } else {
        after_edit(path, progress(path, source, edits, n - 1), edits[n - 1])
    }
}

/// The text of lines, each ended by a line feed except perhaps the last.
pub open spec fn text_of_lines(lines: Seq<Seq<char>>, final_feed: bool) -> Seq<char> {
    if final_feed {
        joined(lines, "\n"@) + "\n"@
    } else {
        joined(lines, "\n"@)
    }
}

/// The file once all edits of its fixes have been applied.
pub open spec fn applied_file(
    path: Seq<char>,
    source: Seq<char>,
    fixes: Seq<PlannedFixView>,
) -> Progress {
    let edits = all_edits(fixes, fixes.len() as int);
    progress(path, lines_of(source), edits, edits.len() as int)
}

/// The text that a file gets, where an edit changed it.
pub open spec fn new_text_of<L: LanguageFixProvider>(
    lang: &L,
    path: Seq<char>,
    source: Seq<char>,
    fixes: Seq<PlannedFixView>,
) -> Option<Seq<char>> {
    let p = applied_file(path, source, fixes);
    if p.applied > 0 {
        Some(text_of_lines(lang.tidied(p.lines), ends(source, "\n"@)))
    } else {
        None
    }
}

fn is_repeated(all: &Vec<&TextEdit>, i: usize) -> (r: bool)
    requires
        i < all@.len(),
    ensures
        r == repeated(all.deep_view(), i as int),
{
    let ghost edits = all.deep_view();
    let mut k: usize = 0;
    while k < i
        invariant
            k <= i < all@.len(),
            edits == all.deep_view(),
            forall|j: int|
                0 <= j < k ==> !((#[trigger] edits[j]).line == edits[i as int].line
                    && edits[j].old_text == edits[i as int].old_text && edits[j].new_text
                    == edits[i as int].new_text),
        decreases i - k,
    {
        let a = all[k];
        let b = all[i];
        assert(edits[k as int] == a.deep_view());
        assert(edits[i as int] == b.deep_view());
        if a.line == b.line && same(a.old_text.as_str(), b.old_text.as_str()) && same(
            a.new_text.as_str(),
            b.new_text.as_str(),
        ) {
            return true;
        }
        k = k + 1;
    }
    false
}

/// A line with an edit applied to it.
pub fn edit_line(line: &str, e: &TextEdit) -> (r: String)
    ensures
        r@ == edited_line(line@, e.deep_view()),
{
    if e.replace_all {
        replace(line, e.old_text.as_str(), e.new_text.as_str())
    } else {
        replace_first(line, e.old_text.as_str(), e.new_text.as_str())
    }
}

/// What applying the fixes of one file gives.
#[derive(Debug)]
pub struct AppliedFile {
    /// The new text, where an edit changed the file.
    pub text: Option<String>,
    /// How many edits were applied.
    pub applied: usize,
    /// The edits that were not.
    pub failed: Vec<FailedEdit>,
}

/// Applies the fixes of a file to its text.
pub fn apply_to_text<L: LanguageFixProvider>(
    file_path: &str,
    source: &str,
    fixes: &Vec<PlannedFix>,
    lang: &L,
) -> (r: AppliedFile)
    ensures
        r.text.deep_view() == new_text_of(lang, file_path@, source@, fixes.deep_view()),
        r.applied == applied_file(file_path@, source@, fixes.deep_view()).applied,
        r.failed.deep_view() == applied_file(file_path@, source@, fixes.deep_view()).failed,
{
    let all = flatten(fixes);
    let ghost edits = all.deep_view();
    let mut current = lines(source);
    let ghost begin = lines_of(source@);
    let mut applied: usize = 0;
    let mut failed: Vec<FailedEdit> = Vec::new();
    let mut i: usize = 0;
    assert(failed.deep_view() =~= Seq::<FailedEditView>::empty());
    while i < all.len()
        invariant
            i <= all@.len(),
            edits == all.deep_view(),
            applied <= i,
            current.deep_view() == progress(file_path@, begin, edits, i as int).lines,
            applied == progress(file_path@, begin, edits, i as int).applied,
            failed.deep_view() == progress(file_path@, begin, edits, i as int).failed,
        decreases all@.len() - i,
    {
        let e = all[i];
        assert(edits[i as int] == e.deep_view());
        if !is_repeated(&all, i) {
            let idx = index_of_line(e.line);
            let total: usize = current.len();
            assert(current.deep_view().len() == total);
            if idx < total {
                assert(current.deep_view()[idx as int] == current@[idx as int]@);
                if contains(current[idx].as_str(), e.old_text.as_str()) {
                    let ghost before = current.deep_view();
                    let changed = edit_line(current[idx].as_str(), e);
                    current.set(idx, changed);
                    assert(current.deep_view() =~= before.update(idx as int, changed@));
                    applied = applied + 1;
                } else {
                    let failure = FailedEdit {
                        file: owned(file_path),
                        line: e.line,
                        rule_id: e.rule_id.clone(),
                        old_text: e.old_text.clone(),
                        reason: FailedEditReason::TextNotFoundOnLine {
                            actual_line: current[idx].clone(),
                        },
                    };
                    append_one(&mut failed, failure);
                }
            } else {
                let failure = FailedEdit {
                    file: owned(file_path),
                    line: e.line,
                    rule_id: e.rule_id.clone(),
                    old_text: e.old_text.clone(),
                    reason: FailedEditReason::LineOutOfBounds { total_lines: total },
                };
                append_one(&mut failed, failure);
            }
        }
        i = i + 1;
    }
    if applied > 0 {
        lang.post_process_lines(&mut current);
        let mut output = join(&current, "\n");
        if ends_with(source, "\n") {
            output.append("\n");
        }
        AppliedFile { text: Some(output), applied, failed }
    } else {
        AppliedFile { text: None, applied, failed }
    }
}

// ---------------------------------------------------------------------
// A whole plan
// ---------------------------------------------------------------------

/// What applying the fixes of some files gives.
#[verifier::ext_equal]
pub ghost struct AppliedFiles {
    pub errors: Seq<Seq<char>>,
    pub failed: Seq<FailedEditView>,
    pub applied: nat,
    pub modified: Seq<Seq<char>>,
    pub writes: Seq<(Seq<char>, Seq<char>)>,
}

/// What applying the fixes of the first `n` files gives. A file that cannot
/// be read is an error; one that no edit changes is not written.
pub open spec fn applied_files<L: LanguageFixProvider>(
    lang: &L,
    files: Seq<(Seq<char>, Seq<PlannedFixView>)>,
    ws: WorkspaceView,
    n: int,
) -> AppliedFiles
    decreases n,
{
    if n <= 0 {
        AppliedFiles {
            errors: Seq::empty(),
            failed: Seq::empty(),
            applied: 0,
            modified: Seq::empty(),
            writes: Seq::empty(),
        }
    } else {
        let before = applied_files(lang, files, ws, n - 1);
        let path = files[n - 1].0;
        match text_at(ws, path) {
            Err(reason) => AppliedFiles {
                errors: before.errors.push(path + ": "@ + reason),
                ..before
            },
            Ok(source) => {
                let p = applied_file(path, source, files[n - 1].1);
                match new_text_of(lang, path, source, files[n - 1].1) {
                    Some(text) => AppliedFiles {
                        errors: before.errors,
                        failed: before.failed + p.failed,
                        applied: before.applied + p.applied,
                        modified: before.modified.push(path),
                        writes: before.writes.push((path, text)),
                    },
                    None => AppliedFiles { failed: before.failed + p.failed, ..before },
                }
            },
        }
    }
}

/// The result of applying a plan.
pub open spec fn applied_plan<L: LanguageFixProvider>(
    lang: &L,
    plan: FixPlanView,
    ws: WorkspaceView,
) -> FixResultView {
    let a = applied_files(lang, plan.files, ws, plan.files.len() as int);
    FixResultView {
        files_modified: a.modified.len() as usize,
        edits_applied: counted(a.applied),
        edits_skipped: a.failed.len() as usize,
        edits_subsumed: plan.edits_subsumed,
        errors: a.errors,
        failed_edits: a.failed,
        modified_files: a.modified,
    }
}

/// Applies a plan to the files of a workspace. The result comes with the
/// texts to write: for each changed file its path and its new text.
pub fn apply_fixes<L: LanguageFixProvider>(plan: &FixPlan, lang: &L, ws: &Workspace) -> (r: (
    FixResult,
    Vec<(String, String)>,
))
    ensures
        r.0.deep_view() == applied_plan(lang, plan.deep_view(), ws.deep_view()),
        r.1.deep_view() == applied_files(
            lang,
            plan.deep_view().files,
            ws.deep_view(),
            plan.deep_view().files.len() as int,
        ).writes,
{
    let mut result = FixResult::default();
    let mut writes: Vec<(String, String)> = Vec::new();
    let ghost files = plan.deep_view().files;
    let ghost view = ws.deep_view();
    let mut i: usize = 0;
    assert(writes.deep_view() =~= Seq::<(Seq<char>, Seq<char>)>::empty());
    while i < plan.files.len()
        invariant
            i <= files.len(),
            files == plan.files.deep_view(),
            view == ws.deep_view(),
            result.errors.deep_view() == applied_files(lang, files, view, i as int).errors,
            result.failed_edits.deep_view() == applied_files(lang, files, view, i as int).failed,
            result.modified_files.deep_view() == applied_files(
                lang,
                files,
                view,
                i as int,
            ).modified,
            result.edits_applied == counted(applied_files(lang, files, view, i as int).applied),
            writes.deep_view() == applied_files(lang, files, view, i as int).writes,
        decreases files.len() - i,
    {
        let path = plan.files.key(i).as_str();
        match ws.read(path) {
            Err(reason) => {
                append_one(&mut result.errors, cat3(path, ": ", reason.as_str()));
            },
            Ok(source) => {
                let done = apply_to_text(path, source, plan.files.value(i), lang);
                append_all(&mut result.failed_edits, done.failed);
                match done.text {
                    Some(text) => {
                        result.edits_applied = count_up(result.edits_applied, done.applied);
                        append_one(&mut result.modified_files, owned(path));
                        append_one(&mut writes, (owned(path), text));
                    },
                    None => {},
                }
            },
        }
        i = i + 1;
    }
    result.files_modified = result.modified_files.len();
    result.edits_skipped = result.failed_edits.len();
    result.edits_subsumed = plan.edits_subsumed;
    assert(result.modified_files.deep_view().len() == result.modified_files@.len());
    assert(result.failed_edits.deep_view().len() == result.failed_edits@.len());
    (result, writes)
}

/// A result once the step after the writes has been taken: its failure is one
/// more error, and nothing else changes.
pub open spec fn with_hook(result: FixResultView, hook: Result<(), Seq<char>>) -> FixResultView {
    match hook {
        Ok(_) => result,
        Err(reason) => FixResultView {
            errors: result.errors.push("Post-apply hook failed: "@ + reason),
            ..result
        },
    }
}

/// Notes what came of the step that follows the writes, such as an
/// installation of packages.
pub fn note_hook(result: &mut FixResult, hook: Result<(), String>)
    ensures
        final(result).deep_view() == with_hook(
            old(result).deep_view(),
            match hook {
                Ok(_) => Ok(()),
                Err(reason) => Err(reason@),
            },
        ),
{
    match hook {
        Ok(_) => {},
        Err(reason) => {
            append_one(&mut result.errors, cat2("Post-apply hook failed: ", reason.as_str()));
        },
    }
}

// ---------------------------------------------------------------------
// Preview
// ---------------------------------------------------------------------

/// The lines of a file as the edits leave them, and which of them changed.
#[verifier::ext_equal]
pub ghost struct Sketch {
    pub lines: Seq<Seq<char>>,
    pub changed: Seq<bool>,
}

/// The lines of a file after its first `n` edits.
pub open spec fn sketch(source: Seq<Seq<char>>, edits: Seq<TextEditView>, n: int) -> Sketch
    decreases n,
{
    if n <= 0 {
        Sketch { lines: source, changed: Seq::new(source.len(), |i: int| false) }
    } else {
        let before = sketch(source, edits, n - 1);
        let e = edits[n - 1];
        let idx = line_index(e.line);
        if idx < before.lines.len() && has_text(before.lines[idx], e.old_text) {
            Sketch {
                lines: before.lines.update(idx, edited_line(before.lines[idx], e)),
                changed: before.changed.update(idx, true),
            }
        } else {
            before
        }
    }
}

/// The lines from `from` up to `to` as a diff shows them: a changed line
/// as it was and as it is, another one as it is.
pub open spec fn diff_lines<L: LanguageFixProvider>(
    lang: &L,
    source: Seq<Seq<char>>,
    s: Sketch,
    from: int,
    to: int,
) -> Seq<char>
    decreases to - from,
{
    if to <= from {
        Seq::empty()
    } else if s.changed[to - 1] {
        diff_lines(lang, source, s, from, to - 1) + ("-"@ + source[to - 1] + "\n+"@ + lang.tidied(
            seq![s.lines[to - 1]],
        )[0] + "\n"@)
    } else {
        diff_lines(lang, source, s, from, to - 1) + (" "@ + source[to - 1] + "\n"@)
    }
}

/// The first line that a diff shows around line `idx`.
pub open spec fn hunk_start(idx: int) -> int {
    if idx > 3 {
        idx - 3
    } else {
        0
    }
}

/// The line before which a diff around line `idx` of `total` lines stops.
pub open spec fn hunk_end(idx: int, total: int) -> int {
    if idx + 4 < total {
        idx + 4
    } else {
        total
    }
}

/// The heading of the diff around line `idx`.
pub open spec fn hunk_head(idx: int, total: int) -> Seq<char> {
    let first = decimal((hunk_start(idx) + 1) as nat);
    let count = decimal((hunk_end(idx, total) - hunk_start(idx)) as nat);
    "@@ -"@ + first + ","@ + count + " +"@ + first + ","@ + count + " @@\n"@
}

/// The diff around each changed line among the first `n`.
pub open spec fn hunks<L: LanguageFixProvider>(
    lang: &L,
    source: Seq<Seq<char>>,
    s: Sketch,
    n: int,
) -> Seq<char>
    decreases n,
{
    if n <= 0 {
        Seq::empty()
    } else if s.changed[n - 1] {
        let total = source.len() as int;
        hunks(lang, source, s, n - 1) + hunk_head(n - 1, total) + diff_lines(
            lang,
            source,
            s,
            hunk_start(n - 1),
            hunk_end(n - 1, total),
        )
    } else {
        hunks(lang, source, s, n - 1)
    }
}

/// The diff of a file: nothing where no line changed.
pub open spec fn file_diff<L: LanguageFixProvider>(
    lang: &L,
    path: Seq<char>,
    source: Seq<char>,
    fixes: Seq<PlannedFixView>,
) -> Seq<char> {
    let all = lines_of(source);
    let edits = all_edits(fixes, fixes.len() as int);
    let s = sketch(all, edits, edits.len() as int);
    if s.changed.contains(true) {
        "--- a/"@ + path + "\n+++ b/"@ + path + "\n"@ + hunks(lang, all, s, all.len() as int)
    } else {
        Seq::empty()
    }
}

/// The diff of the first `n` files. A file that cannot be read is left out.
pub open spec fn plan_diff<L: LanguageFixProvider>(
    lang: &L,
    files: Seq<(Seq<char>, Seq<PlannedFixView>)>,
    ws: WorkspaceView,
    n: int,
) -> Seq<char>
    decreases n,
{
    if n <= 0 {
        Seq::empty()
    } else {
        match text_at(ws, files[n - 1].0) {
            Ok(source) => plan_diff(lang, files, ws, n - 1) + file_diff(
                lang,
                files[n - 1].0,
                source,
                files[n - 1].1,
            ),
            Err(_) => plan_diff(lang, files, ws, n - 1),
        }
    }
}

proof fn lemma_sketch_len(source: Seq<Seq<char>>, edits: Seq<TextEditView>, n: int)
    ensures
        sketch(source, edits, n).lines.len() == source.len(),
        sketch(source, edits, n).changed.len() == source.len(),
    decreases n,
{
    if n > 0 {
        lemma_sketch_len(source, edits, n - 1);
    }
}

fn tidy_line<L: LanguageFixProvider>(line: &str, lang: &L) -> (r: String)
    ensures
        r@ == lang.tidied(seq![line@])[0],
{
    let mut single = only(owned(line));
    lang.post_process_lines(&mut single);
    assert(single.deep_view()[0] == single@[0]@);
    single[0].clone()
}

fn show_hunk<L: LanguageFixProvider>(
    all: &Vec<String>,
    current: &Vec<String>,
    changed: &Vec<bool>,
    idx: usize,
    lang: &L,
    Ghost(s): Ghost<Sketch>,
) -> (r: String)
    requires
        idx < all@.len(),
        current@.len() == all@.len(),
        changed@.len() == all@.len(),
        s.lines == current.deep_view(),
        s.changed == changed@,
    ensures
        r@ == hunk_head(idx as int, all@.len() as int) + diff_lines(
            lang,
            all.deep_view(),
            s,
            hunk_start(idx as int),
            hunk_end(idx as int, all@.len() as int),
        ),
{
    let total: usize = all.len();
    let start: usize = if idx > 3 {
        idx - 3
    } else {
        0
    };
    let end: usize = if total - idx > 4 {
        idx + 4
    } else {
        total
    };
    let first = decimal_of((start + 1) as u64);
    let count = decimal_of((end - start) as u64);
    let head = cat9(
        "@@ -",
        first.as_str(),
        ",",
        count.as_str(),
        " +",
        first.as_str(),
        ",",
        count.as_str(),
        " @@\n",
    );
    let mut body = String::new();
    let mut i: usize = start;
    while i < end
        invariant
            start <= i <= end <= all@.len(),
            current@.len() == all@.len(),
            changed@.len() == all@.len(),
            s.lines == current.deep_view(),
            s.changed == changed@,
            body@ == diff_lines(lang, all.deep_view(), s, start as int, i as int),
        decreases end - i,
    {
        assert(all.deep_view()[i as int] == all@[i as int]@);
        assert(current.deep_view()[i as int] == current@[i as int]@);
        if changed[i] {
            let tidy = tidy_line(current[i].as_str(), lang);
            let two = cat5("-", all[i].as_str(), "\n+", tidy.as_str(), "\n");
            body.append(two.as_str());
        } else {
            let one = cat3(" ", all[i].as_str(), "\n");
            body.append(one.as_str());
        }
        i = i + 1;
    }
    cat2(head.as_str(), body.as_str())
}

/// The diff of a file.
pub fn preview_file<L: LanguageFixProvider>(
    file_path: &str,
    source: &str,
    fixes: &Vec<PlannedFix>,
    lang: &L,
) -> (r: String)
    ensures
        r@ == file_diff(lang, file_path@, source@, fixes.deep_view()),
{
    let edits = flatten(fixes);
    let all = lines(source);
    let mut current = lines(source);
    let ghost begin = lines_of(source@);
    let ghost list = edits.deep_view();
    let mut changed: Vec<bool> = Vec::new();
    let mut i: usize = 0;
    while i < all.len()
        invariant
            i <= all@.len(),
            changed@ == Seq::new(i as nat, |k: int| false),
        decreases all@.len() - i,
    {
        changed.push(false);
        i = i + 1;
        assert(changed@ =~= Seq::new(i as nat, |k: int| false));
    }
    assert(all.deep_view().len() == all@.len());
    assert(changed@ =~= Seq::new(begin.len(), |k: int| false));
    i = 0;
    while i < edits.len()
        invariant
            i <= edits@.len(),
            list == edits.deep_view(),
            current.deep_view() == sketch(begin, list, i as int).lines,
            changed@ == sketch(begin, list, i as int).changed,
        decreases edits@.len() - i,
    {
        let e = edits[i];
        assert(list[i as int] == e.deep_view());
        proof {
            lemma_sketch_len(begin, list, i as int);
        }
        let idx = index_of_line(e.line);
        assert(current.deep_view().len() == current@.len());
        if idx < current.len() {
            assert(current.deep_view()[idx as int] == current@[idx as int]@);
            if contains(current[idx].as_str(), e.old_text.as_str()) {
                let ghost before = current.deep_view();
                let line = edit_line(current[idx].as_str(), e);
                current.set(idx, line);
                assert(current.deep_view() =~= before.update(idx as int, line@));
                changed.set(idx, true);
            }
        }
        i = i + 1;
    }
    let ghost s = sketch(begin, list, list.len() as int);
    proof {
        lemma_sketch_len(begin, list, list.len() as int);
        assert(current.deep_view().len() == current@.len());
    }
    let mut body = String::new();
    let mut any = false;
    i = 0;
    while i < all.len()
        invariant
            i <= all@.len(),
            all.deep_view() == begin,
            current@.len() == all@.len(),
            changed@.len() == all@.len(),
            s.lines == current.deep_view(),
            s.changed == changed@,
            any == (exists|k: int| 0 <= k < i && s.changed[k]),
            body@ == hunks(lang, begin, s, i as int),
        decreases all@.len() - i,
    {
        if changed[i] {
            any = true;
            assert(s.changed[i as int]);
            let one = show_hunk(&all, &current, &changed, i, lang, Ghost(s));
            let ghost before = body@;
            body.append(one.as_str());
            assert(body@ =~= hunks(lang, begin, s, i + 1));
        }
        i = i + 1;
    }
    if any {
        proof {
            let k = choose|k: int| 0 <= k < i && s.changed[k];
            assert(s.changed[k] == true);
        }
        let head = cat5("--- a/", file_path, "\n+++ b/", file_path, "\n");
        cat2(head.as_str(), body.as_str())
    } else {
        String::new()
    }
}

/// The plan as a diff against the files of a workspace.
pub fn preview_fixes<L: LanguageFixProvider>(plan: &FixPlan, lang: &L, ws: &Workspace) -> (r:
    String)
    ensures
        r@ == plan_diff(
            lang,
            plan.deep_view().files,
            ws.deep_view(),
            plan.deep_view().files.len() as int,
        ),
{
    let mut output = String::new();
    let ghost files = plan.deep_view().files;
    let mut i: usize = 0;
    while i < plan.files.len()
        invariant
            i <= files.len(),
            files == plan.files.deep_view(),
            output@ == plan_diff(lang, files, ws.deep_view(), i as int),
        decreases files.len() - i,
    {
        let path = plan.files.key(i).as_str();
        match ws.read(path) {
            Ok(source) => {
                let diff = preview_file(path, source, plan.files.value(i), lang);
                output.append(diff.as_str());
            },
            Err(_) => {},
        }
        i = i + 1;
    }
    output
}

} // verus!
