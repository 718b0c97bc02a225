//! Renames: which lines of a file get which replacement.

use crate::engine::apply::{index_of_line, line_index};
use crate::language::{LanguageFixProvider, Outcome};
use crate::model::{
    noting, FixConfidence, FixReport, FixSource, PlannedFix, PlannedFixView, RenameMapping,
    RenameMappingView, SkipReason, SkippedIncidentView, TextEdit, TextEditView,
};
use crate::report::{Incident, IncidentView};
use crate::text::{
    byte_len, byte_length, cat2, cat5, contains, decimal, decimal_of, has_text, join, joined,
    lines, lines_of, owned, same,
};
use crate::views::{append_all, append_one};
use crate::workspace::{text_at, Workspace, WorkspaceView};
use vstd::prelude::*;

verus! {

broadcast use vstd::string::group_string_axioms;

/// The replacement that a rename makes on a line.
pub open spec fn rename_edit(rule_id: Seq<char>, m: RenameMappingView, line: u32) -> TextEditView {
    TextEditView {
        line,
        old_text: m.old,
        new_text: m.new,
        rule_id,
        description: "Rename '"@ + m.old + "' to '"@ + m.new + "'"@,
        replace_all: false,
    }
}

/// The first place from `i` on whose old name is shorter than that of `x`.
pub open spec fn length_place(s: Seq<RenameMappingView>, x: RenameMappingView, i: int) -> int
    decreases s.len() - i,
{
    if 0 <= i < s.len() && byte_len(s[i].old) >= byte_len(x.old) {
        length_place(s, x, i + 1)
    } else {
        i
    }
}

/// Those of the first `n` renames that change something, longer old names
/// first; renames of the same length keep their order.
pub open spec fn longest_first(mappings: Seq<RenameMappingView>, n: int) -> Seq<RenameMappingView>
    decreases n,
{
    if n <= 0 {
        Seq::empty()
    } else if mappings[n - 1].old == mappings[n - 1].new {
        longest_first(mappings, n - 1)
    } else {
        let sorted = longest_first(mappings, n - 1);
        sorted.insert(length_place(sorted, mappings[n - 1], 0), mappings[n - 1])
    }
}

/// Some edit looks for a text that holds `text`.
pub open spec fn covered(edits: Seq<TextEditView>, text: Seq<char>) -> bool {
    exists|k: int| 0 <= k < edits.len() && has_text((#[trigger] edits[k]).old_text, text)
}

/// The edits that the first `n` renames make on one line of a file that is
/// renamed as a whole: a rename is left out where an earlier one on the
/// line covers its old name.
pub open spec fn line_renames(
    rule_id: Seq<char>,
    text: Seq<char>,
    line: u32,
    mappings: Seq<RenameMappingView>,
    n: int,
) -> Seq<TextEditView>
    decreases n,
{
    if n <= 0 {
        Seq::empty()
    } else {
        let before = line_renames(rule_id, text, line, mappings, n - 1);
        let m = mappings[n - 1];
        if has_text(text, m.old) && !covered(before, m.old) {
            before.push(rename_edit(rule_id, m, line))
        } else {
            before
        }
    }
}

/// The edits on the first `n` lines of a file that is renamed as a whole.
pub open spec fn whole_file_renames(
    rule_id: Seq<char>,
    lines: Seq<Seq<char>>,
    mappings: Seq<RenameMappingView>,
    n: int,
) -> Seq<TextEditView>
    decreases n,
{
    if n <= 0 {
        Seq::empty()
    } else {
        whole_file_renames(rule_id, lines, mappings, n - 1) + line_renames(
            rule_id,
            lines[n - 1],
            n as u32,
            mappings,
            mappings.len() as int,
        )
    }
}

/// The edits that the first `n` renames make on one line, without the
/// rename number `exempt`.
pub open spec fn plain_renames(
    rule_id: Seq<char>,
    text: Seq<char>,
    line: u32,
    mappings: Seq<RenameMappingView>,
    exempt: int,
    n: int,
) -> Seq<TextEditView>
    decreases n,
{
    if n <= 0 {
        Seq::empty()
    } else {
        let before = plain_renames(rule_id, text, line, mappings, exempt, n - 1);
        let m = mappings[n - 1];
        if m.old != m.new && n - 1 != exempt && has_text(text, m.old) {
            before.push(rename_edit(rule_id, m, line))
        } else {
            before
        }
    }
}

/// The edits on the lines from `from` up to `to`. On the line `own` the
/// rename number `primary` is left out.
pub open spec fn window_renames(
    rule_id: Seq<char>,
    lines: Seq<Seq<char>>,
    mappings: Seq<RenameMappingView>,
    own: u32,
    primary: int,
    from: int,
    to: int,
) -> Seq<TextEditView>
    decreases to - from,
{
    if to <= from {
        Seq::empty()
    } else {
        window_renames(rule_id, lines, mappings, own, primary, from, to - 1) + plain_renames(
            rule_id,
            lines[to - 1],
            to as u32,
            mappings,
            if to as u32 == own {
                primary
            } else {
                -1
            },
            mappings.len() as int,
        )
    }
}

/// The first place from `i` on of a rename whose old name is `text`.
pub open spec fn mapping_of(mappings: Seq<RenameMappingView>, text: Seq<char>, i: int) -> Option<
    int,
>
    decreases mappings.len() - i,
{
    if i < 0 || i >= mappings.len() {
        None
    } else if mappings[i].old == text {
        Some(i)
    } else {
        mapping_of(mappings, text, i + 1)
    }
}

/// The first line of a window that begins `before` lines above line `idx`.
pub open spec fn window_start(idx: int, before: int) -> int {
    if idx > before {
        idx - before
    } else {
        0
    }
}

/// The line before which a window around line `idx` of `total` lines ends.
pub open spec fn window_end(idx: int, total: int) -> int {
    if idx + 5 < total {
        idx + 5
    } else {
        total
    }
}

/// The edits of a rename.
///
/// A rename of the whole file goes over every line. Otherwise the rename of
/// the matched text is made on the line of the incident, and all renames on
/// the lines around it; where no rename is for the matched text, the lines
/// around the incident decide.
pub open spec fn rename_edits(
    rule_id: Seq<char>,
    source: Seq<char>,
    line: u32,
    mappings: Seq<RenameMappingView>,
    matched: Seq<char>,
    whole: bool,
) -> Seq<TextEditView> {
    let all = lines_of(source);
    let total = all.len() as int;
    let idx = line_index(line);
    if whole {
        whole_file_renames(
            rule_id,
            all,
            longest_first(mappings, mappings.len() as int),
            total,
        )
    } else {
        match mapping_of(mappings, matched, 0) {
            Some(p) => seq![rename_edit(rule_id, mappings[p], line)] + window_renames(
                rule_id,
                all,
                mappings,
                line,
                p,
                window_start(idx, 3),
                window_end(idx, total),
            ),
            None => window_renames(
                rule_id,
                all,
                mappings,
                line,
                -1,
                window_start(idx, 1),
                window_end(idx, total),
            ),
        }
    }
}

/// An edit in words.
pub open spec fn change_words(e: TextEditView) -> Seq<char> {
    "'"@ + e.old_text + "' -> '"@ + e.new_text + "'"@
}

/// The edits in words.
pub open spec fn changes_in_words(edits: Seq<TextEditView>) -> Seq<char> {
    "Rename "@ + joined(Seq::new(edits.len(), |i: int| change_words(edits[i])), ", "@)
}

/// What comes of a rename, given what reading the file gave.
pub open spec fn rename_outcome(
    rule_id: Seq<char>,
    incident: IncidentView,
    mappings: Seq<RenameMappingView>,
    matched: Seq<char>,
    whole: bool,
    read: Result<Seq<char>, Seq<char>>,
) -> Outcome {
    match incident.line_number {
        None => Outcome {
            fix: None,
            skip: Some(
                SkippedIncidentView {
                    rule_id,
                    file: incident.file_uri,
                    line: None,
                    reason: SkipReason::NoLineNumber,
                    detail: None,
                },
            ),
        },
        Some(line) => match read {
            Err(reason) => Outcome {
                fix: None,
                skip: Some(
                    SkippedIncidentView {
                        rule_id,
                        file: incident.file_uri,
                        line: Some(line),
                        reason: SkipReason::FileUnreadable,
                        detail: Some(reason),
                    },
                ),
            },
            Ok(source) => {
                let edits = rename_edits(rule_id, source, line, mappings, matched, whole);
                let primary = mapping_of(mappings, matched, 0);
                if !whole && (primary matches Some(p) && mappings[p].old == mappings[p].new) {
                    Outcome {
                        fix: None,
                        skip: Some(
                            SkippedIncidentView {
                                rule_id,
                                file: incident.file_uri,
                                line: Some(line),
                                reason: SkipReason::NoOpRename,
                                detail: None,
                            },
                        ),
                    }
                } else if edits.len() == 0 {
                    Outcome {
                        fix: None,
                        skip: Some(
                            SkippedIncidentView {
                                rule_id,
                                file: incident.file_uri,
                                line: Some(line),
                                reason: SkipReason::TextNotFound,
                                detail: Some(
                                    "none of the rename mappings matched text on line "@ + decimal(
                                        line as nat,
                                    ),
                                ),
                            },
                        ),
                    }
                } else {
                    Outcome {
                        fix: Some(
                            PlannedFixView {
                                edits,
                                confidence: FixConfidence::Exact,
                                source: FixSource::Pattern,
                                rule_id,
                                file_uri: incident.file_uri,
                                line,
                                description: changes_in_words(edits),
                            },
                        ),
                        skip: None,
                    }
                }
            },
        },
    }
}

// ---------------------------------------------------------------------

fn make_edit(rule_id: &str, m: &RenameMapping, line: u32) -> (r: TextEdit)
    ensures
        r.deep_view() == rename_edit(rule_id@, m.deep_view(), line),
{
    TextEdit {
        line,
        old_text: m.old.clone(),
        new_text: m.new.clone(),
        rule_id: owned(rule_id),
        description: cat5("Rename '", m.old.as_str(), "' to '", m.new.as_str(), "'"),
        replace_all: false,
    }
}

fn sort_mappings(mappings: &Vec<RenameMapping>) -> (r: Vec<&RenameMapping>)
    ensures
        r.deep_view() == longest_first(mappings.deep_view(), mappings@.len() as int),
{
    let mut out: Vec<&RenameMapping> = Vec::new();
    let mut n: usize = 0;
    assert(out.deep_view() =~= Seq::<RenameMappingView>::empty());
    while n < mappings.len()
        invariant
            n <= mappings@.len(),
            out.deep_view() == longest_first(mappings.deep_view(), n as int),
        decreases mappings@.len() - n,
    {
        let x = &mappings[n];
        let ghost sorted = out.deep_view();
        assert(mappings.deep_view()[n as int] == x.deep_view());
        if !same(x.old.as_str(), x.new.as_str()) {
            let size = byte_length(x.old.as_str());
            let mut i: usize = 0;
            while i < out.len() && byte_length(out[i].old.as_str()) >= size
                invariant
                    i <= out@.len(),
                    sorted == out.deep_view(),
                    size == byte_len(x.old@),
                    length_place(sorted, x.deep_view(), 0) == length_place(
                        sorted,
                        x.deep_view(),
                        i as int,
                    ),
                decreases out@.len() - i,
            {
                assert(sorted[i as int] == out@[i as int].deep_view());
                i = i + 1;
            }
            assert(i < out@.len() ==> sorted[i as int] == out@[i as int].deep_view());
            out.insert(i, x);
            assert(out.deep_view() =~= sorted.insert(i as int, x.deep_view()));
        }
        n = n + 1;
    }
    out
}

fn is_covered(edits: &Vec<TextEdit>, text: &str) -> (r: bool)
    ensures
        r == covered(edits.deep_view(), text@),
{
    let mut k: usize = 0;
    while k < edits.len()
        invariant
            k <= edits@.len(),
            forall|j: int|
                0 <= j < k ==> !has_text((#[trigger] edits.deep_view()[j]).old_text, text@),
        decreases edits@.len() - k,
    {
        assert(edits.deep_view()[k as int] == edits@[k as int].deep_view());
        if contains(edits[k].old_text.as_str(), text) {
            return true;
        }
        k = k + 1;
    }
    false
}

fn rename_line(rule_id: &str, text: &str, line: u32, mappings: &Vec<&RenameMapping>) -> (r: Vec<
    TextEdit,
>)
    ensures
        r.deep_view() == line_renames(
            rule_id@,
            text@,
            line,
            mappings.deep_view(),
            mappings@.len() as int,
        ),
{
    let mut out: Vec<TextEdit> = Vec::new();
    let mut n: usize = 0;
    assert(out.deep_view() =~= Seq::<TextEditView>::empty());
    while n < mappings.len()
        invariant
            n <= mappings@.len(),
            out.deep_view() == line_renames(
                rule_id@,
                text@,
                line,
                mappings.deep_view(),
                n as int,
            ),
        decreases mappings@.len() - n,
    {
        let m = mappings[n];
        assert(mappings.deep_view()[n as int] == m.deep_view());
        if contains(text, m.old.as_str()) && !is_covered(&out, m.old.as_str()) {
            append_one(&mut out, make_edit(rule_id, m, line));
        }
        n = n + 1;
    }
    out
}

fn rename_whole_file(rule_id: &str, all: &Vec<String>, mappings: &Vec<RenameMapping>) -> (r: Vec<
    TextEdit,
>)
    ensures
        r.deep_view() == whole_file_renames(
            rule_id@,
            all.deep_view(),
            longest_first(mappings.deep_view(), mappings@.len() as int),
            all@.len() as int,
        ),
{
    let sorted = sort_mappings(mappings);
    let mut out: Vec<TextEdit> = Vec::new();
    let mut n: usize = 0;
    assert(out.deep_view() =~= Seq::<TextEditView>::empty());
    while n < all.len()
        invariant
            n <= all@.len(),
            out.deep_view() == whole_file_renames(
                rule_id@,
                all.deep_view(),
                sorted.deep_view(),
                n as int,
            ),
        decreases all@.len() - n,
    {
        assert(all.deep_view()[n as int] == all@[n as int]@);
        assert(sorted.deep_view().len() == sorted@.len());
        let more = rename_line(rule_id, all[n].as_str(), (n + 1) as u32, &sorted);
        append_all(&mut out, more);
        n = n + 1;
    }
    out
}

fn rename_plain(
    rule_id: &str,
    text: &str,
    line: u32,
    mappings: &Vec<RenameMapping>,
    exempt: Option<usize>,
) -> (r: Vec<TextEdit>)
    ensures
        r.deep_view() == plain_renames(
            rule_id@,
            text@,
            line,
            mappings.deep_view(),
            match exempt {
                Some(p) => p as int,
                None => -1,
            },
            mappings@.len() as int,
        ),
{
    let ghost left_out: int = match exempt {
        Some(p) => p as int,
        None => -1,
    };
    let mut out: Vec<TextEdit> = Vec::new();
    let mut n: usize = 0;
    assert(out.deep_view() =~= Seq::<TextEditView>::empty());
    while n < mappings.len()
        invariant
            n <= mappings@.len(),
            left_out == (match exempt {
                Some(p) => p as int,
                None => -1,
            }),
            out.deep_view() == plain_renames(
                rule_id@,
                text@,
                line,
                mappings.deep_view(),
                left_out,
                n as int,
            ),
        decreases mappings@.len() - n,
    {
        let m = &mappings[n];
        assert(mappings.deep_view()[n as int] == m.deep_view());
        let is_exempt = match exempt {
            Some(p) => p == n,
            None => false,
        };
        if !is_exempt && !same(m.old.as_str(), m.new.as_str()) && contains(text, m.old.as_str()) {
            append_one(&mut out, make_edit(rule_id, m, line));
        }
        n = n + 1;
    }
    out
}

fn rename_window(
    rule_id: &str,
    all: &Vec<String>,
    mappings: &Vec<RenameMapping>,
    own: u32,
    primary: Option<usize>,
    before: usize,
) -> (r: Vec<TextEdit>)
    ensures
        r.deep_view() == window_renames(
            rule_id@,
            all.deep_view(),
            mappings.deep_view(),
            own,
            match primary {
                Some(p) => p as int,
                None => -1,
            },
            window_start(line_index(own), before as int),
            window_end(line_index(own), all@.len() as int),
        ),
{
    let ghost chosen: int = match primary {
        Some(p) => p as int,
        None => -1,
    };
    let idx = index_of_line(own);
    let total: usize = all.len();
    let start: usize = if idx > before {
        idx - before
    } else {
        0
    };
    let end: usize = if idx < total && total - idx > 5 {
        idx + 5
    } else {
        total
    };
    let mut out: Vec<TextEdit> = Vec::new();
    assert(out.deep_view() =~= Seq::<TextEditView>::empty());
    if start >= end {
        return out;
    }
    let mut n: usize = start;
    while n < end
        invariant
            start <= n <= end <= all@.len(),
            chosen == (match primary {
                Some(p) => p as int,
                None => -1,
            }),
            out.deep_view() == window_renames(
                rule_id@,
                all.deep_view(),
                mappings.deep_view(),
                own,
                chosen,
                start as int,
                n as int,
            ),
        decreases end - n,
    {
        assert(all.deep_view()[n as int] == all@[n as int]@);
        assert(mappings.deep_view().len() == mappings@.len());
        let number = (n + 1) as u32;
        let exempt: Option<usize> = if number == own {
            primary
        } else {
            None
        };
        let more = rename_plain(rule_id, all[n].as_str(), number, mappings, exempt);
        append_all(&mut out, more);
        n = n + 1;
    }
    out
}

/// Where the rename of a text stands.
pub fn find_mapping(mappings: &Vec<RenameMapping>, text: &str) -> (r: Option<usize>)
    ensures
        mapping_of(mappings.deep_view(), text@, 0) == (match r {
            Some(p) => Some(p as int),
            None => None,
        }),
        r matches Some(p) ==> p < mappings@.len(),
{
    let mut i: usize = 0;
    while i < mappings.len()
        invariant
            i <= mappings@.len(),
            mapping_of(mappings.deep_view(), text@, 0) == mapping_of(
                mappings.deep_view(),
                text@,
                i as int,
            ),
        decreases mappings@.len() - i,
    {
        assert(mappings.deep_view()[i as int] == mappings@[i as int].deep_view());
        if same(mappings[i].old.as_str(), text) {
            return Some(i);
        }
        i = i + 1;
    }
    None
}

fn words_of(edits: &Vec<TextEdit>) -> (r: String)
    ensures
        r@ == changes_in_words(edits.deep_view()),
{
    let mut words: Vec<String> = Vec::new();
    let ghost view = edits.deep_view();
    let mut i: usize = 0;
    while i < edits.len()
        invariant
            i <= edits@.len(),
            view == edits.deep_view(),
            words@.len() == i,
            forall|k: int| 0 <= k < i ==> (#[trigger] words@[k])@ == change_words(view[k]),
        decreases edits@.len() - i,
    {
        assert(view[i as int] == edits@[i as int].deep_view());
        words.push(
            cat5("'", edits[i].old_text.as_str(), "' -> '", edits[i].new_text.as_str(), "'"),
        );
        i = i + 1;
    }
    assert(words.deep_view() =~= Seq::new(view.len(), |k: int| change_words(view[k])));
    let list = join(&words, ", ");
    cat2("Rename ", list.as_str())
}

/// Plans a rename, given the matched text, whether the rename concerns the
/// whole file, and what reading the file gave.
pub fn plan_rename_in(
    rule_id: &str,
    incident: &Incident,
    mappings: &Vec<RenameMapping>,
    matched_text: &str,
    is_whole_file_rename: bool,
    read: Result<&str, String>,
    report: &mut FixReport,
) -> (r: Option<PlannedFix>)
    ensures
        ({
            let o = rename_outcome(
                rule_id@,
                incident.deep_view(),
                mappings.deep_view(),
                matched_text@,
                is_whole_file_rename,
                match read {
                    Ok(text) => Ok(text@),
                    Err(reason) => Err(reason@),
                },
            );
            &&& r.deep_view() == o.fix
            &&& final(report).deep_view() == noting(old(report).deep_view(), o.skip)
        }),
{
    let line: u32 = match incident.line_number {
        Some(l) => l,
        None => {
            report.record_skip(
                rule_id,
                incident.file_uri.as_str(),
                None,
                SkipReason::NoLineNumber,
                None,
            );
            return None;
        },
    };
    let primary = find_mapping(mappings, matched_text);
    let source = match read {
        Ok(s) => s,
        Err(e) => {
            report.record_skip(
                rule_id,
                incident.file_uri.as_str(),
                Some(line),
                SkipReason::FileUnreadable,
                Some(e),
            );
            return None;
        },
    };
    let all = lines(source);
    assert(all.deep_view().len() == all@.len());
    assert(mappings.deep_view().len() == mappings@.len());
    let edits: Vec<TextEdit> = if is_whole_file_rename {
        rename_whole_file(rule_id, &all, mappings)
    } else {
        match primary {
            Some(p) => {
                let mapping = &mappings[p];
                assert(mappings.deep_view()[p as int] == mapping.deep_view());
                if same(mapping.old.as_str(), mapping.new.as_str()) {
                    report.record_skip(
                        rule_id,
                        incident.file_uri.as_str(),
                        Some(line),
                        SkipReason::NoOpRename,
                        None,
                    );
                    return None;
                }
                let mut edits = crate::views::only(make_edit(rule_id, mapping, line));
                let more = rename_window(rule_id, &all, mappings, line, Some(p), 3);
                append_all(&mut edits, more);
                edits
            },
            None => rename_window(rule_id, &all, mappings, line, None, 1),
        }
    };
    assert(edits.deep_view() == rename_edits(
        rule_id@,
        source@,
        line,
        mappings.deep_view(),
        matched_text@,
        is_whole_file_rename,
    ));
    assert(edits.deep_view().len() == edits@.len());
    if edits.len() == 0 {
        let number = decimal_of(line as u64);
        report.record_skip(
            rule_id,
            incident.file_uri.as_str(),
            Some(line),
            SkipReason::TextNotFound,
            Some(cat2("none of the rename mappings matched text on line ", number.as_str())),
        );
        return None;
    }
    let description = words_of(&edits);
    Some(
        PlannedFix {
            edits,
            confidence: FixConfidence::Exact,
            source: FixSource::Pattern,
            rule_id: owned(rule_id),
            file_uri: incident.file_uri.clone(),
            line,
            description,
        },
    )
}

/// What comes of a rename in a workspace.
pub open spec fn planned_rename<L: LanguageFixProvider>(
    lang: &L,
    rule_id: Seq<char>,
    incident: IncidentView,
    mappings: Seq<RenameMappingView>,
    path: Seq<char>,
    ws: WorkspaceView,
) -> Outcome {
    rename_outcome(
        rule_id,
        incident,
        mappings,
        lang.matched_for_rename(incident, mappings),
        lang.renames_whole_file(incident),
        text_at(ws, path),
    )
}

/// Plans a rename.
pub fn plan_rename<L: LanguageFixProvider>(
    rule_id: &str,
    incident: &Incident,
    mappings: &Vec<RenameMapping>,
    file_path: &str,
    lang: &L,
    ws: &Workspace,
    report: &mut FixReport,
) -> (r: Option<PlannedFix>)
    ensures
        ({
            let o = planned_rename(
                lang,
                rule_id@,
                incident.deep_view(),
                mappings.deep_view(),
                file_path@,
                ws.deep_view(),
            );
            &&& r.deep_view() == o.fix
            &&& final(report).deep_view() == noting(old(report).deep_view(), o.skip)
        }),
{
    let matched_text = lang.get_matched_text_for_rename(incident, mappings);
    let whole = lang.is_whole_file_rename(incident);
    plan_rename_in(
        rule_id,
        incident,
        mappings,
        matched_text.as_str(),
        whole,
        ws.read(file_path),
        report,
    )
}

} // verus!
