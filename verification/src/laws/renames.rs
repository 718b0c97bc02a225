//! Renames and changes of import paths.

use crate::engine::apply::{edited_line, line_index};
use crate::engine::import_path::{from_line, import_path_outcome};
use crate::engine::rename::{
    covered, length_place, line_renames, longest_first, plain_renames, rename_edits, rename_outcome,
    whole_file_renames, window_end, window_renames, window_start,
};
use crate::laws::texts::law_applied_edit_leaves_its_text;
use crate::model::{RenameMappingView, TextEditView};
use crate::report::IncidentView;
use crate::text::{byte_len, has_text, lines_of};
use vstd::prelude::*;

verus! {

broadcast use vstd::string::group_string_axioms;

// ---------------------------------------------------------------------
// Renames
// ---------------------------------------------------------------------

proof fn lemma_length_place(s: Seq<RenameMappingView>, x: RenameMappingView, i: int)
    requires
        0 <= i <= s.len(),
        forall|j: int| 0 <= j < i ==> byte_len((#[trigger] s[j]).old) >= byte_len(x.old),
    ensures
        i <= length_place(s, x, i) <= s.len(),
        forall|j: int|
            0 <= j < length_place(s, x, i) ==> byte_len((#[trigger] s[j]).old) >= byte_len(x.old),
        length_place(s, x, i) < s.len() ==> byte_len(s[length_place(s, x, i)].old) < byte_len(x.old),
    decreases s.len() - i,
{
    if i < s.len() && byte_len(s[i].old) >= byte_len(x.old) {
        lemma_length_place(s, x, i + 1);
    }
}

/// Renames are tried with longer names first, and one that keeps its name is
/// never tried.
pub proof fn law_longer_names_are_renamed_first(mappings: Seq<RenameMappingView>, n: int)
    requires
        0 <= n <= mappings.len(),
    ensures
        forall|i: int, j: int|
            0 <= i < j < longest_first(mappings, n).len() ==> byte_len(
                (#[trigger] longest_first(mappings, n)[i]).old,
            ) >= byte_len((#[trigger] longest_first(mappings, n)[j]).old),
        forall|i: int|
            0 <= i < longest_first(mappings, n).len() ==> (#[trigger] longest_first(
                mappings,
                n,
            )[i]).old != longest_first(mappings, n)[i].new,
    decreases n,
{
    if n > 0 {
        law_longer_names_are_renamed_first(mappings, n - 1);
        let sorted = longest_first(mappings, n - 1);
        let x = mappings[n - 1];
        if x.old != x.new {
            lemma_length_place(sorted, x, 0);
            let p = length_place(sorted, x, 0);
            let now = longest_first(mappings, n);
            assert forall|i: int, j: int| 0 <= i < j < now.len() implies byte_len(
                (#[trigger] now[i]).old,
            ) >= byte_len((#[trigger] now[j]).old) by {
                let a = if i <= p { i } else { i - 1 };
                let b = if j <= p { j } else { j - 1 };
                if i == p {
                    assert(now[j] == sorted[j - 1]);
                    assert(byte_len(sorted[p].old) >= byte_len(sorted[j - 1].old));
                } else if j == p {
                    assert(now[i] == sorted[i]);
                } else {
                    assert(now[i] == sorted[a]);
                    assert(now[j] == sorted[b]);
                }
            }
            assert forall|i: int| 0 <= i < now.len() implies (#[trigger] now[i]).old
                != now[i].new by {
                if i < p {
                    assert(now[i] == sorted[i]);
                } else if i > p {
                    assert(now[i] == sorted[i - 1]);
                }
            }
        }
    }
}

proof fn lemma_line_renames(
    rule_id: Seq<char>,
    text: Seq<char>,
    line: u32,
    mappings: Seq<RenameMappingView>,
    n: int,
)
    requires
        0 <= n <= mappings.len(),
        forall|i: int| 0 <= i < n ==> (#[trigger] mappings[i]).old != mappings[i].new,
    ensures
        ({
            let edits = line_renames(rule_id, text, line, mappings, n);
            &&& forall|i: int|
                0 <= i < edits.len() ==> {
                    &&& (#[trigger] edits[i]).line == line
                    &&& edits[i].old_text != edits[i].new_text
                    &&& has_text(text, edits[i].old_text)
                }
            &&& forall|i: int, j: int|
                0 <= i < j < edits.len() ==> !has_text(
                    (#[trigger] edits[i]).old_text,
                    (#[trigger] edits[j]).old_text,
                )
        }),
    decreases n,
{
    if n > 0 {
        lemma_line_renames(rule_id, text, line, mappings, n - 1);
        let m = mappings[n - 1];
        let before = line_renames(rule_id, text, line, mappings, n - 1);
        if has_text(text, m.old) && !covered(before, m.old) {
            assert forall|i: int| 0 <= i < before.len() implies !has_text(
                (#[trigger] before[i]).old_text,
                m.old,
            ) by {}
        }
    }
}

/// On one line of a file that is renamed as a whole, no rename touches a
/// name that an earlier one on the line has changed: `Chip` is not renamed
/// inside `ChipGroup`.
pub proof fn law_no_rename_inside_another(
    rule_id: Seq<char>,
    text: Seq<char>,
    line: u32,
    mappings: Seq<RenameMappingView>,
    i: int,
    j: int,
)
    requires
        ({
            let sorted = longest_first(mappings, mappings.len() as int);
            0 <= i < j < line_renames(rule_id, text, line, sorted, sorted.len() as int).len()
        }),
    ensures
        ({
            let sorted = longest_first(mappings, mappings.len() as int);
            let edits = line_renames(rule_id, text, line, sorted, sorted.len() as int);
            !has_text(edits[i].old_text, edits[j].old_text)
        }),
{
    law_longer_names_are_renamed_first(mappings, mappings.len() as int);
    let sorted = longest_first(mappings, mappings.len() as int);
    lemma_line_renames(rule_id, text, line, sorted, sorted.len() as int);
}

/// The edit changes something that stands on its line.
pub open spec fn finds_its_text(e: TextEditView, all: Seq<Seq<char>>) -> bool {
    &&& e.old_text != e.new_text
    &&& line_index(e.line) < all.len()
    &&& has_text(all[line_index(e.line)], e.old_text)
}

proof fn lemma_whole_file(
    rule_id: Seq<char>,
    all: Seq<Seq<char>>,
    mappings: Seq<RenameMappingView>,
    n: int,
)
    requires
        0 <= n <= all.len() <= u32::MAX,
        forall|i: int| 0 <= i < mappings.len() ==> (#[trigger] mappings[i]).old != mappings[i].new,
    ensures
        forall|i: int|
            0 <= i < whole_file_renames(rule_id, all, mappings, n).len() ==> finds_its_text(
                #[trigger] whole_file_renames(rule_id, all, mappings, n)[i],
                all,
            ),
    decreases n,
{
    if n > 0 {
        lemma_whole_file(rule_id, all, mappings, n - 1);
        lemma_line_renames(rule_id, all[n - 1], n as u32, mappings, mappings.len() as int);
        let before = whole_file_renames(rule_id, all, mappings, n - 1);
        let more = line_renames(rule_id, all[n - 1], n as u32, mappings, mappings.len() as int);
        let now = whole_file_renames(rule_id, all, mappings, n);
        assert forall|i: int| 0 <= i < now.len() implies finds_its_text(#[trigger] now[i], all) by {
            if i < before.len() {
                assert(now[i] == before[i]);
            } else {
                assert(now[i] == more[i - before.len()]);
            }
        }
    }
}

proof fn lemma_plain(
    rule_id: Seq<char>,
    text: Seq<char>,
    line: u32,
    mappings: Seq<RenameMappingView>,
    exempt: int,
    n: int,
)
    requires
        0 <= n <= mappings.len(),
    ensures
        forall|i: int|
            0 <= i < plain_renames(rule_id, text, line, mappings, exempt, n).len() ==> {
                let e = #[trigger] plain_renames(rule_id, text, line, mappings, exempt, n)[i];
                e.line == line && e.old_text != e.new_text && has_text(text, e.old_text)
            },
    decreases n,
{
    if n > 0 {
        lemma_plain(rule_id, text, line, mappings, exempt, n - 1);
        let before = plain_renames(rule_id, text, line, mappings, exempt, n - 1);
        let now = plain_renames(rule_id, text, line, mappings, exempt, n);
        assert forall|i: int| 0 <= i < now.len() implies {
            let e = #[trigger] now[i];
            e.line == line && e.old_text != e.new_text && has_text(text, e.old_text)
        } by {
            if i < before.len() {
                assert(now[i] == before[i]);
            }
        }
    }
}

proof fn lemma_window(
    rule_id: Seq<char>,
    all: Seq<Seq<char>>,
    mappings: Seq<RenameMappingView>,
    own: u32,
    primary: int,
    from: int,
    to: int,
)
    requires
        0 <= from,
        to <= all.len() <= u32::MAX,
    ensures
        forall|i: int|
            0 <= i < window_renames(rule_id, all, mappings, own, primary, from, to).len()
                ==> finds_its_text(
                #[trigger] window_renames(rule_id, all, mappings, own, primary, from, to)[i],
                all,
            ),
    decreases to - from,
{
    if from < to {
        lemma_window(rule_id, all, mappings, own, primary, from, to - 1);
        let exempt = if to as u32 == own { primary } else { -1 };
        let n = mappings.len() as int;
        lemma_plain(rule_id, all[to - 1], to as u32, mappings, exempt, n);
        let before = window_renames(rule_id, all, mappings, own, primary, from, to - 1);
        let more = plain_renames(rule_id, all[to - 1], to as u32, mappings, exempt, n);
        let now = window_renames(rule_id, all, mappings, own, primary, from, to);
        assert forall|i: int| 0 <= i < now.len() implies finds_its_text(#[trigger] now[i], all) by {
            if i < before.len() {
                assert(now[i] == before[i]);
            } else {
                assert(now[i] == more[i - before.len()]);
            }
        }
    }
}

/// No planned rename keeps the name it looks for.
pub proof fn law_renames_change_the_name(
    rule_id: Seq<char>,
    incident: IncidentView,
    mappings: Seq<RenameMappingView>,
    matched: Seq<char>,
    whole: bool,
    source: Seq<char>,
    i: int,
)
    requires
        lines_of(source).len() <= u32::MAX,
        rename_outcome(rule_id, incident, mappings, matched, whole, Ok(source)).fix is Some,
        0 <= i < rename_outcome(
            rule_id,
            incident,
            mappings,
            matched,
            whole,
            Ok(source),
        ).fix->Some_0.edits.len(),
    ensures
        ({
            let e = rename_outcome(
                rule_id,
                incident,
                mappings,
                matched,
                whole,
                Ok(source),
            ).fix->Some_0.edits[i];
            e.old_text != e.new_text
        }),
{
    lemma_rename_edits(rule_id, source, incident.line_number->Some_0, mappings, matched, whole);
    let edits = rename_edits(
        rule_id,
        source,
        incident.line_number->Some_0,
        mappings,
        matched,
        whole,
    );
    if i > 0 || whole || crate::engine::rename::mapping_of(mappings, matched, 0) is None {
        assert(finds_its_text(edits[i], lines_of(source)));
    }
}

proof fn lemma_rename_edits(
    rule_id: Seq<char>,
    source: Seq<char>,
    line: u32,
    mappings: Seq<RenameMappingView>,
    matched: Seq<char>,
    whole: bool,
)
    requires
        lines_of(source).len() <= u32::MAX,
    ensures
        ({
            let edits = rename_edits(rule_id, source, line, mappings, matched, whole);
            let first = if !whole && crate::engine::rename::mapping_of(
                mappings,
                matched,
                0,
            ) is Some {
                1int
            } else {
                0
            };
            forall|i: int|
                first <= i < edits.len() ==> finds_its_text(#[trigger] edits[i], lines_of(source))
        }),
{
    let all = lines_of(source);
    let total = all.len() as int;
    let idx = line_index(line);
    let edits = rename_edits(rule_id, source, line, mappings, matched, whole);
    if whole {
        law_longer_names_are_renamed_first(mappings, mappings.len() as int);
        lemma_whole_file(
            rule_id,
            all,
            longest_first(mappings, mappings.len() as int),
            total,
        );
    } else {
        match crate::engine::rename::mapping_of(mappings, matched, 0) {
            Some(p) => {
                let from = window_start(idx, 3);
                let to = window_end(idx, total);
                lemma_window(rule_id, all, mappings, line, p, from, to);
                let more = window_renames(rule_id, all, mappings, line, p, from, to);
                assert forall|i: int| 1 <= i < edits.len() implies finds_its_text(
                    #[trigger] edits[i],
                    all,
                ) by {
                    assert(edits[i] == more[i - 1]);
                }
            },
            None => {
                lemma_window(
                    rule_id,
                    all,
                    mappings,
                    line,
                    -1,
                    window_start(idx, 1),
                    window_end(idx, total),
                );
            },
        }
    }
}

/// Every edit of a rename of the whole file finds its text on its line.
pub proof fn law_whole_file_renames_apply(
    rule_id: Seq<char>,
    source: Seq<char>,
    line: u32,
    mappings: Seq<RenameMappingView>,
    matched: Seq<char>,
    i: int,
)
    requires
        lines_of(source).len() <= u32::MAX,
        0 <= i < rename_edits(rule_id, source, line, mappings, matched, true).len(),
    ensures
        finds_its_text(
            rename_edits(rule_id, source, line, mappings, matched, true)[i],
            lines_of(source),
        ),
{
    lemma_rename_edits(rule_id, source, line, mappings, matched, true);
}

/// A rename gives a fix, or else records why it gives none.
pub proof fn law_rename_gives_a_fix_or_a_reason(
    rule_id: Seq<char>,
    incident: IncidentView,
    mappings: Seq<RenameMappingView>,
    matched: Seq<char>,
    whole: bool,
    read: Result<Seq<char>, Seq<char>>,
)
    ensures
        ({
            let o = rename_outcome(rule_id, incident, mappings, matched, whole, read);
            o.fix is Some <==> o.skip is None
        }),
{
}

// ---------------------------------------------------------------------
// Import paths
// ---------------------------------------------------------------------

/// A change of an import path gives a fix, or else records why it gives
/// none.
pub proof fn law_path_change_gives_a_fix_or_a_reason(
    rule_id: Seq<char>,
    incident: IncidentView,
    old_path: Seq<char>,
    new_path: Seq<char>,
    read: Result<Seq<char>, Seq<char>>,
)
    ensures
        ({
            let o = import_path_outcome(rule_id, incident, old_path, new_path, read);
            o.fix is Some <==> o.skip is None
        }),
{
}

proof fn lemma_from_line(all: Seq<Seq<char>>, i: int, to: int)
    requires
        0 <= i,
    ensures
        from_line(all, i, to) matches Some(k) ==> i <= k < to,
    decreases to - i,
{
    if i < to {
        lemma_from_line(all, i + 1, to);
    }
}

/// A planned change of an import path finds the old path on its line, and
/// the new path does not stand there yet.
pub proof fn law_path_change_finds_the_old_path(
    rule_id: Seq<char>,
    incident: IncidentView,
    old_path: Seq<char>,
    new_path: Seq<char>,
    source: Seq<char>,
)
    requires
        lines_of(source).len() <= u32::MAX,
        import_path_outcome(rule_id, incident, old_path, new_path, Ok(source)).fix is Some,
    ensures
        ({
            let fix = import_path_outcome(
                rule_id,
                incident,
                old_path,
                new_path,
                Ok(source),
            ).fix->Some_0;
            let all = lines_of(source);
            &&& fix.edits.len() == 1
            &&& line_index(fix.edits[0].line) < all.len()
            &&& has_text(all[line_index(fix.edits[0].line)], old_path)
            &&& !has_text(all[line_index(fix.edits[0].line)], new_path)
        }),
{
    let all = lines_of(source);
    let total = all.len() as int;
    let idx = line_index(incident.line_number->Some_0);
    if idx < total && !has_text(all[idx], old_path) {
        lemma_from_line(
            all,
            idx,
            if idx + 50 < total {
                idx + 50
            } else {
                total
            },
        );
    }
}

/// The path of an import is never changed twice: once a planned change has
/// been applied, no incident leads to another change on that line.
pub proof fn law_path_is_not_changed_twice(
    rule_id: Seq<char>,
    first: IncidentView,
    second: IncidentView,
    old_path: Seq<char>,
    new_path: Seq<char>,
    source: Seq<char>,
    after: Seq<char>,
)
    requires
        lines_of(source).len() <= u32::MAX,
        import_path_outcome(rule_id, first, old_path, new_path, Ok(source)).fix is Some,
        ({
            let e = import_path_outcome(
                rule_id,
                first,
                old_path,
                new_path,
                Ok(source),
            ).fix->Some_0.edits[0];
            let all = lines_of(source);
            let idx = line_index(e.line);
            lines_of(after) == all.update(idx, edited_line(all[idx], e))
        }),
    ensures
        ({
            let e = import_path_outcome(
                rule_id,
                first,
                old_path,
                new_path,
                Ok(source),
            ).fix->Some_0.edits[0];
            import_path_outcome(rule_id, second, old_path, new_path, Ok(after)).fix matches Some(
                again,
            ) ==> line_index(again.edits[0].line) != line_index(e.line)
        }),
{
    let e = import_path_outcome(
        rule_id,
        first,
        old_path,
        new_path,
        Ok(source),
    ).fix->Some_0.edits[0];
    let all = lines_of(source);
    let idx = line_index(e.line);
    law_path_change_finds_the_old_path(rule_id, first, old_path, new_path, source);
    law_applied_edit_leaves_its_text(all[idx], e);
    if import_path_outcome(rule_id, second, old_path, new_path, Ok(after)).fix is Some {
        law_path_change_finds_the_old_path(rule_id, second, old_path, new_path, after);
    }
}

} // verus!
