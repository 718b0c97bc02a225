//! Which lines a rename reaches: every line on which an old name stands.

use crate::engine::apply::line_index;
use crate::engine::rename::{
    covered, length_place, line_renames, longest_first, mapping_of, plain_renames, rename_edit,
    rename_edits, rename_outcome, whole_file_renames, window_end, window_renames, window_start,
};
use crate::laws::renames::law_longer_names_are_renamed_first;
use crate::model::{PlannedFixView, RenameMappingView, SkipReason, TextEditView};
use crate::report::IncidentView;
use crate::text::{byte_len, has_text, lemma_has_text_reflexive, lines_of};
use vstd::prelude::*;

verus! {

broadcast use vstd::string::group_string_axioms;

/// The edit renames by `m` on the line at place `idx` of a file.
pub open spec fn renames_at(
    e: TextEditView,
    rule_id: Seq<char>,
    m: RenameMappingView,
    idx: int,
) -> bool {
    &&& e.line == idx + 1
    &&& e.old_text == m.old
    &&& e.new_text == m.new
    &&& e.rule_id == rule_id
    &&& !e.replace_all
}

/// Some edit renames by `m` on the line at place `idx`.
pub open spec fn is_renamed(
    edits: Seq<TextEditView>,
    rule_id: Seq<char>,
    m: RenameMappingView,
    idx: int,
) -> bool {
    exists|k: int| 0 <= k < edits.len() && renames_at(#[trigger] edits[k], rule_id, m, idx)
}

/// Some edit on the line at place `idx` looks for a text that holds `name`.
pub open spec fn is_reached(edits: Seq<TextEditView>, name: Seq<char>, idx: int) -> bool {
    exists|k: int|
        0 <= k < edits.len() && (#[trigger] edits[k]).line == idx + 1 && has_text(
            edits[k].old_text,
            name,
        )
}

/// Rename `i` is the one to make on a line that holds its old name: of the
/// other renames whose old names are on the line, none is for a longer name
/// around it, and none before it is for the same name.
pub open spec fn is_foremost(mappings: Seq<RenameMappingView>, text: Seq<char>, i: int) -> bool {
    forall|k: int|
        0 <= k < mappings.len() && k != i && (#[trigger] mappings[k]).old != mappings[k].new
            && has_text(text, mappings[k].old) && has_text(mappings[k].old, mappings[i].old)
            ==> k > i && mappings[k].old == mappings[i].old
}

/// Rename `k` changes its name and, if it is for the same name as rename
/// `i`, comes before it.
spec fn comes_before(mappings: Seq<RenameMappingView>, k: int, i: int) -> bool {
    &&& 0 <= k < mappings.len()
    &&& mappings[k].old != mappings[k].new
    &&& mappings[k].old == mappings[i].old ==> k < i
}

/// The rename is one that comes before rename `i`.
spec fn is_earlier(mappings: Seq<RenameMappingView>, m: RenameMappingView, i: int) -> bool {
    exists|k: int| #[trigger] comes_before(mappings, k, i) && mappings[k] == m
}

spec fn place_in_order(mappings: Seq<RenameMappingView>, n: int, i: int, p: int) -> bool {
    let sorted = longest_first(mappings, n);
    &&& 0 <= p < sorted.len()
    &&& sorted[p] == mappings[i]
    &&& forall|q: int| 0 <= q < p ==> is_earlier(mappings, #[trigger] sorted[q], i)
}

proof fn lemma_place_bounds(s: Seq<RenameMappingView>, x: RenameMappingView, i: int)
    requires
        0 <= i <= s.len(),
    ensures
        i <= length_place(s, x, i) <= s.len(),
        length_place(s, x, i) < s.len() ==> byte_len(s[length_place(s, x, i)].old) < byte_len(
            x.old,
        ),
    decreases s.len() - i,
{
    if i < s.len() && byte_len(s[i].old) >= byte_len(x.old) {
        lemma_place_bounds(s, x, i + 1);
    }
}

/// Every mapping tried is one of those given.
proof fn lemma_sorted_from(mappings: Seq<RenameMappingView>, n: int, q: int)
    requires
        0 <= n <= mappings.len(),
        0 <= q < longest_first(mappings, n).len(),
    ensures
        exists|k: int|
            0 <= k < n && #[trigger] mappings[k] == longest_first(mappings, n)[q]
                && mappings[k].old != mappings[k].new,
    decreases n,
{
    if n > 0 {
        let x = mappings[n - 1];
        let before = longest_first(mappings, n - 1);
        if x.old == x.new {
            lemma_sorted_from(mappings, n - 1, q);
        } else {
            let at = length_place(before, x, 0);
            lemma_place_bounds(before, x, 0);
            let now = longest_first(mappings, n);
            if q < at {
                assert(now[q] == before[q]);
                lemma_sorted_from(mappings, n - 1, q);
            } else if q > at {
                assert(now[q] == before[q - 1]);
                lemma_sorted_from(mappings, n - 1, q - 1);
            } else {
                assert(now[q] == mappings[n - 1]);
            }
        }
    }
}

/// A rename that changes its name has its place in the order.
proof fn lemma_sorted_place(mappings: Seq<RenameMappingView>, n: int, i: int)
    requires
        0 <= i < n <= mappings.len(),
        mappings[i].old != mappings[i].new,
    ensures
        exists|p: int| #[trigger] place_in_order(mappings, n, i, p),
    decreases n,
{
    let x = mappings[n - 1];
    let before = longest_first(mappings, n - 1);
    let now = longest_first(mappings, n);
    let at = length_place(before, x, 0);
    lemma_place_bounds(before, x, 0);
    law_longer_names_are_renamed_first(mappings, n - 1);
    if i == n - 1 {
        assert forall|q: int| 0 <= q < at implies is_earlier(
                mappings,
                #[trigger] now[q],
                i,
            ) by {
            assert(now[q] == before[q]);
            lemma_sorted_from(mappings, n - 1, q);
            let k = choose|k: int|
                0 <= k < n - 1 && #[trigger] mappings[k] == before[q] && mappings[k].old
                    != mappings[k].new;
            assert(comes_before(mappings, k, i));
        }
        assert(now == before.insert(at, x));
        assert(now[at] == mappings[i]);
        assert(place_in_order(mappings, n, i, at));
    } else {
        lemma_sorted_place(mappings, n - 1, i);
        let p = choose|p: int| #[trigger] place_in_order(mappings, n - 1, i, p);
        if x.old == x.new {
            assert(place_in_order(mappings, n, i, p));
        } else if at <= p {
            assert(byte_len(before[p].old) <= byte_len(before[at].old)) by {
                if at < p {
                    assert(byte_len(before[at].old) >= byte_len(before[p].old));
                }
            }
            assert(now[p + 1] == before[p]);
            assert forall|q: int| 0 <= q < p + 1 implies is_earlier(
                mappings,
                #[trigger] now[q],
                i,
            ) by {
                if q < at {
                    assert(now[q] == before[q]);
                } else if q > at {
                    assert(now[q] == before[q - 1]);
                } else {
                    assert(comes_before(mappings, n - 1, i));
                    assert(mappings[n - 1] == now[q]);
                }
            }
            assert(place_in_order(mappings, n, i, p + 1));
        } else {
            assert(now[p] == before[p]);
            assert forall|q: int| 0 <= q < p implies is_earlier(
                mappings,
                #[trigger] now[q],
                i,
            ) by {
                assert(now[q] == before[q]);
            }
            assert(place_in_order(mappings, n, i, p));
        }
    }
}

proof fn lemma_line_edits_from(
    rule_id: Seq<char>,
    text: Seq<char>,
    line: u32,
    sorted: Seq<RenameMappingView>,
    n: int,
    j: int,
)
    requires
        0 <= n <= sorted.len(),
        0 <= j < line_renames(rule_id, text, line, sorted, n).len(),
    ensures
        exists|q: int|
            0 <= q < n && has_text(text, (#[trigger] sorted[q]).old) && line_renames(
                rule_id,
                text,
                line,
                sorted,
                n,
            )[j] == rename_edit(rule_id, sorted[q], line),
    decreases n,
{
    if n > 0 {
        let before = line_renames(rule_id, text, line, sorted, n - 1);
        let now = line_renames(rule_id, text, line, sorted, n);
        if j < before.len() {
            assert(now[j] == before[j]);
            lemma_line_edits_from(rule_id, text, line, sorted, n - 1, j);
        } else {
            assert(now[j] == rename_edit(rule_id, sorted[n - 1], line));
        }
    }
}

/// On a line that holds its old name, a rename is reached, and made if none
/// before it reaches it.
proof fn lemma_line_reached(
    rule_id: Seq<char>,
    text: Seq<char>,
    idx: int,
    sorted: Seq<RenameMappingView>,
    n: int,
    p: int,
)
    requires
        0 <= p < n <= sorted.len(),
        0 <= idx < u32::MAX,
        has_text(text, sorted[p].old),
    ensures
        is_reached(
            line_renames(rule_id, text, (idx + 1) as u32, sorted, n),
            sorted[p].old,
            idx,
        ),
        (forall|q: int|
            0 <= q < p && has_text(text, (#[trigger] sorted[q]).old) ==> !has_text(
                sorted[q].old,
                sorted[p].old,
            )) ==> is_renamed(
            line_renames(rule_id, text, (idx + 1) as u32, sorted, n),
            rule_id,
            sorted[p],
            idx,
        ),
    decreases n,
{
    let line = (idx + 1) as u32;
    let before = line_renames(rule_id, text, line, sorted, n - 1);
    let now = line_renames(rule_id, text, line, sorted, n);
    let free = forall|q: int|
        0 <= q < p && has_text(text, (#[trigger] sorted[q]).old) ==> !has_text(
            sorted[q].old,
            sorted[p].old,
        );
    if p == n - 1 {
        if covered(before, sorted[p].old) {
            let k = choose|k: int|
                0 <= k < before.len() && has_text((#[trigger] before[k]).old_text, sorted[p].old);
            lemma_line_edits_from(rule_id, text, line, sorted, n - 1, k);
            assert(now[k].line == idx + 1);
        } else {
            assert(now[before.len() as int] == rename_edit(rule_id, sorted[p], line));
            lemma_has_text_reflexive(sorted[p].old);
            assert(renames_at(now[before.len() as int], rule_id, sorted[p], idx));
        }
    } else {
        lemma_line_reached(rule_id, text, idx, sorted, n - 1, p);
        let k = choose|k: int|
            0 <= k < before.len() && (#[trigger] before[k]).line == idx + 1 && has_text(
                before[k].old_text,
                sorted[p].old,
            );
        assert(now[k] == before[k]);
        if free {
            let k = choose|k: int|
                0 <= k < before.len() && renames_at(#[trigger] before[k], rule_id, sorted[p], idx);
            assert(now[k] == before[k]);
        }
    }
}

/// What the edits of one line hold, the edits of the file hold.
proof fn lemma_line_in_file(
    rule_id: Seq<char>,
    all: Seq<Seq<char>>,
    sorted: Seq<RenameMappingView>,
    n: int,
    idx: int,
    j: int,
)
    requires
        0 <= idx < n <= all.len() <= u32::MAX,
        0 <= j < line_renames(
            rule_id,
            all[idx],
            (idx + 1) as u32,
            sorted,
            sorted.len() as int,
        ).len(),
    ensures
        whole_file_renames(rule_id, all, sorted, n).contains(
            line_renames(rule_id, all[idx], (idx + 1) as u32, sorted, sorted.len() as int)[j],
        ),
    decreases n,
{
    let before = whole_file_renames(rule_id, all, sorted, n - 1);
    let now = whole_file_renames(rule_id, all, sorted, n);
    let e = line_renames(rule_id, all[idx], (idx + 1) as u32, sorted, sorted.len() as int)[j];
    if idx == n - 1 {
        assert(now[before.len() + j] == e);
    } else {
        lemma_line_in_file(rule_id, all, sorted, n - 1, idx, j);
        let k = choose|k: int| 0 <= k < before.len() && before[k] == e;
        assert(now[k] == e);
    }
}

proof fn lemma_file_edits_from(
    rule_id: Seq<char>,
    all: Seq<Seq<char>>,
    sorted: Seq<RenameMappingView>,
    n: int,
    j: int,
)
    requires
        0 <= n <= all.len() <= u32::MAX,
        0 <= j < whole_file_renames(rule_id, all, sorted, n).len(),
    ensures
        exists|idx: int, q: int|
            0 <= idx < n && 0 <= q < sorted.len() && has_text(#[trigger] all[idx], sorted[q].old)
                && renames_at(
                whole_file_renames(rule_id, all, sorted, n)[j],
                rule_id,
                #[trigger] sorted[q],
                idx,
            ),
    decreases n,
{
    if n > 0 {
        let before = whole_file_renames(rule_id, all, sorted, n - 1);
        let more = line_renames(rule_id, all[n - 1], n as u32, sorted, sorted.len() as int);
        let now = whole_file_renames(rule_id, all, sorted, n);
        if j < before.len() {
            assert(now[j] == before[j]);
            lemma_file_edits_from(rule_id, all, sorted, n - 1, j);
        } else {
            let at = j - before.len();
            assert(now[j] == more[at]);
            lemma_line_edits_from(rule_id, all[n - 1], n as u32, sorted, sorted.len() as int, at);
            let q = choose|q: int|
                0 <= q < sorted.len() && has_text(all[n - 1], (#[trigger] sorted[q]).old)
                    && more[at] == rename_edit(rule_id, sorted[q], n as u32);
            assert(renames_at(now[j], rule_id, sorted[q], n - 1));
            assert(has_text(all[n - 1], sorted[q].old));
        }
    }
}

/// The edits of a planned rename of the whole file.
pub open spec fn whole_file_edits(
    rule_id: Seq<char>,
    incident: IncidentView,
    mappings: Seq<RenameMappingView>,
    matched: Seq<char>,
    source: Seq<char>,
) -> Seq<TextEditView> {
    match rename_outcome(rule_id, incident, mappings, matched, true, Ok(source)).fix {
        Some(fix) => fix.edits,
        None => Seq::empty(),
    }
}

/// A rename of the whole file reaches every line: where the old name of a
/// rename that changes something stands on a line, a planned edit of that
/// line looks for a text that holds it; and where no other old name on the
/// line holds it, that edit is the rename itself.
pub proof fn law_whole_file_rename_reaches_every_name(
    rule_id: Seq<char>,
    incident: IncidentView,
    mappings: Seq<RenameMappingView>,
    matched: Seq<char>,
    source: Seq<char>,
    idx: int,
    i: int,
)
    requires
        incident.line_number is Some,
        lines_of(source).len() <= u32::MAX,
        0 <= idx < lines_of(source).len(),
        0 <= i < mappings.len(),
        mappings[i].old != mappings[i].new,
        has_text(lines_of(source)[idx], mappings[i].old),
    ensures
        is_reached(
            whole_file_edits(rule_id, incident, mappings, matched, source),
            mappings[i].old,
            idx,
        ),
        is_foremost(mappings, lines_of(source)[idx], i) ==> is_renamed(
            whole_file_edits(rule_id, incident, mappings, matched, source),
            rule_id,
            mappings[i],
            idx,
        ),
{
    let all = lines_of(source);
    let text = all[idx];
    let total = all.len() as int;
    let sorted = longest_first(mappings, mappings.len() as int);
    let size = sorted.len() as int;
    let line = (idx + 1) as u32;
    lemma_sorted_place(mappings, mappings.len() as int, i);
    let p = choose|p: int| #[trigger] place_in_order(mappings, mappings.len() as int, i, p);
    lemma_line_reached(rule_id, text, idx, sorted, size, p);
    let own = line_renames(rule_id, text, line, sorted, size);
    let edits = whole_file_renames(rule_id, all, sorted, total);
    let k = choose|k: int|
        0 <= k < own.len() && (#[trigger] own[k]).line == idx + 1 && has_text(
            own[k].old_text,
            mappings[i].old,
        );
    lemma_line_in_file(rule_id, all, sorted, total, idx, k);
    let at = choose|at: int| 0 <= at < edits.len() && edits[at] == own[k];
    assert(edits == rename_edits(
        rule_id,
        source,
        incident.line_number->Some_0,
        mappings,
        matched,
        true,
    ));
    assert(edits.len() > 0);
    assert(whole_file_edits(rule_id, incident, mappings, matched, source) == edits);
    assert(edits[at].line == idx + 1);
    if is_foremost(mappings, text, i) {
        assert forall|q: int| 0 <= q < p && has_text(text, (#[trigger] sorted[q]).old) implies
            !has_text(sorted[q].old, sorted[p].old) by {
            let k = choose|k: int| #[trigger]
                comes_before(mappings, k, i) && mappings[k] == sorted[q];
            if k == i {
                assert(mappings[k].old == mappings[i].old);
            }
        }
        let k = choose|k: int|
            0 <= k < own.len() && renames_at(#[trigger] own[k], rule_id, mappings[i], idx);
        lemma_line_in_file(rule_id, all, sorted, total, idx, k);
        let at = choose|at: int| 0 <= at < edits.len() && edits[at] == own[k];
        assert(renames_at(edits[at], rule_id, mappings[i], idx));
    }
}

/// A rename of the whole file makes no edit but by a rename that changes
/// something, on a line where its old name stands.
pub proof fn law_whole_file_rename_makes_no_other_edit(
    rule_id: Seq<char>,
    incident: IncidentView,
    mappings: Seq<RenameMappingView>,
    matched: Seq<char>,
    source: Seq<char>,
    j: int,
)
    requires
        lines_of(source).len() <= u32::MAX,
        0 <= j < whole_file_edits(rule_id, incident, mappings, matched, source).len(),
    ensures
        exists|idx: int, i: int|
            0 <= idx < lines_of(source).len() && 0 <= i < mappings.len() && has_text(
                #[trigger] lines_of(source)[idx],
                mappings[i].old,
            ) && mappings[i].old != mappings[i].new && renames_at(
                whole_file_edits(rule_id, incident, mappings, matched, source)[j],
                rule_id,
                #[trigger] mappings[i],
                idx,
            ),
{
    let all = lines_of(source);
    let sorted = longest_first(mappings, mappings.len() as int);
    let total = all.len() as int;
    let edits = whole_file_renames(rule_id, all, sorted, total);
    lemma_file_edits_from(rule_id, all, sorted, total, j);
    let (idx, q) = choose|idx: int, q: int|
        0 <= idx < total && 0 <= q < sorted.len() && has_text(#[trigger] all[idx], sorted[q].old)
            && renames_at(edits[j], rule_id, #[trigger] sorted[q], idx);
    lemma_sorted_from(mappings, mappings.len() as int, q);
    let i = choose|i: int|
        0 <= i < mappings.len() && #[trigger] mappings[i] == sorted[q] && mappings[i].old
            != mappings[i].new;
    assert(renames_at(edits[j], rule_id, mappings[i], idx));
    assert(has_text(all[idx], mappings[i].old));
}

// ---------------------------------------------------------------------
// Around an incident
// ---------------------------------------------------------------------

proof fn lemma_plain_complete(
    rule_id: Seq<char>,
    text: Seq<char>,
    idx: int,
    mappings: Seq<RenameMappingView>,
    exempt: int,
    n: int,
    i: int,
)
    requires
        0 <= idx < u32::MAX,
        0 <= i < n <= mappings.len(),
        i != exempt,
        mappings[i].old != mappings[i].new,
        has_text(text, mappings[i].old),
    ensures
        is_renamed(
            plain_renames(rule_id, text, (idx + 1) as u32, mappings, exempt, n),
            rule_id,
            mappings[i],
            idx,
        ),
    decreases n,
{
    let line = (idx + 1) as u32;
    let before = plain_renames(rule_id, text, line, mappings, exempt, n - 1);
    let now = plain_renames(rule_id, text, line, mappings, exempt, n);
    if i == n - 1 {
        assert(renames_at(now[before.len() as int], rule_id, mappings[i], idx));
    } else {
        lemma_plain_complete(rule_id, text, idx, mappings, exempt, n - 1, i);
        let k = choose|k: int|
            0 <= k < before.len() && renames_at(#[trigger] before[k], rule_id, mappings[i], idx);
        assert(now[k] == before[k]);
    }
}

proof fn lemma_plain_from(
    rule_id: Seq<char>,
    text: Seq<char>,
    idx: int,
    mappings: Seq<RenameMappingView>,
    exempt: int,
    n: int,
    j: int,
)
    requires
        0 <= idx < u32::MAX,
        0 <= n <= mappings.len(),
        0 <= j < plain_renames(rule_id, text, (idx + 1) as u32, mappings, exempt, n).len(),
    ensures
        exists|i: int|
            0 <= i < n && i != exempt && has_text(text, mappings[i].old) && mappings[i].old
                != mappings[i].new && renames_at(
                plain_renames(rule_id, text, (idx + 1) as u32, mappings, exempt, n)[j],
                rule_id,
                #[trigger] mappings[i],
                idx,
            ),
    decreases n,
{
    if n > 0 {
        let line = (idx + 1) as u32;
        let before = plain_renames(rule_id, text, line, mappings, exempt, n - 1);
        let now = plain_renames(rule_id, text, line, mappings, exempt, n);
        if j < before.len() {
            assert(now[j] == before[j]);
            lemma_plain_from(rule_id, text, idx, mappings, exempt, n - 1, j);
        } else {
            assert(renames_at(now[j], rule_id, mappings[n - 1], idx));
        }
    }
}

proof fn lemma_window_complete(
    rule_id: Seq<char>,
    all: Seq<Seq<char>>,
    mappings: Seq<RenameMappingView>,
    own: u32,
    primary: int,
    from: int,
    to: int,
    idx: int,
    i: int,
)
    requires
        0 <= from <= idx < to <= all.len() <= u32::MAX,
        0 <= i < mappings.len(),
        mappings[i].old != mappings[i].new,
        has_text(all[idx], mappings[i].old),
        !(idx + 1 == own && i == primary),
    ensures
        is_renamed(
            window_renames(rule_id, all, mappings, own, primary, from, to),
            rule_id,
            mappings[i],
            idx,
        ),
    decreases to - from,
{
    let before = window_renames(rule_id, all, mappings, own, primary, from, to - 1);
    let now = window_renames(rule_id, all, mappings, own, primary, from, to);
    let exempt = if to as u32 == own { primary } else { -1 };
    let size = mappings.len() as int;
    let more = plain_renames(rule_id, all[to - 1], to as u32, mappings, exempt, size);
    if idx == to - 1 {
        lemma_plain_complete(rule_id, all[idx], idx, mappings, exempt, size, i);
        let k = choose|k: int|
            0 <= k < more.len() && renames_at(#[trigger] more[k], rule_id, mappings[i], idx);
        assert(now[before.len() + k] == more[k]);
    } else {
        lemma_window_complete(rule_id, all, mappings, own, primary, from, to - 1, idx, i);
        let k = choose|k: int|
            0 <= k < before.len() && renames_at(#[trigger] before[k], rule_id, mappings[i], idx);
        assert(now[k] == before[k]);
    }
}

proof fn lemma_window_from(
    rule_id: Seq<char>,
    all: Seq<Seq<char>>,
    mappings: Seq<RenameMappingView>,
    own: u32,
    primary: int,
    from: int,
    to: int,
    j: int,
)
    requires
        0 <= from,
        to <= all.len() <= u32::MAX,
        0 <= j < window_renames(rule_id, all, mappings, own, primary, from, to).len(),
    ensures
        exists|idx: int, i: int|
            from <= idx < to && 0 <= i < mappings.len() && !(idx + 1 == own && i == primary)
                && has_text(#[trigger] all[idx], mappings[i].old) && mappings[i].old
                != mappings[i].new && renames_at(
                window_renames(rule_id, all, mappings, own, primary, from, to)[j],
                rule_id,
                #[trigger] mappings[i],
                idx,
            ),
    decreases to - from,
{
    if from < to {
        let before = window_renames(rule_id, all, mappings, own, primary, from, to - 1);
        let now = window_renames(rule_id, all, mappings, own, primary, from, to);
        let exempt = if to as u32 == own { primary } else { -1 };
        let size = mappings.len() as int;
        let more = plain_renames(rule_id, all[to - 1], to as u32, mappings, exempt, size);
        if j < before.len() {
            assert(now[j] == before[j]);
            lemma_window_from(rule_id, all, mappings, own, primary, from, to - 1, j);
        } else {
            let at = j - before.len();
            assert(now[j] == more[at]);
            lemma_plain_from(rule_id, all[to - 1], to - 1, mappings, exempt, size, at);
            let i = choose|i: int|
                0 <= i < size && i != exempt && has_text(all[to - 1], mappings[i].old)
                    && mappings[i].old != mappings[i].new && renames_at(
                    more[at],
                    rule_id,
                    #[trigger] mappings[i],
                    to - 1,
                );
            assert(renames_at(now[j], rule_id, mappings[i], to - 1));
            assert(has_text(all[to - 1], mappings[i].old));
        }
    }
}

/// Rename `p` is the first for the matched text.
pub open spec fn is_matched(
    mappings: Seq<RenameMappingView>,
    matched: Seq<char>,
    p: int,
) -> bool {
    &&& 0 <= p < mappings.len()
    &&& mappings[p].old == matched
    &&& forall|k: int| 0 <= k < p ==> (#[trigger] mappings[k]).old != matched
}

proof fn lemma_matched(mappings: Seq<RenameMappingView>, matched: Seq<char>, p: int, i: int)
    requires
        is_matched(mappings, matched, p),
        0 <= i <= p,
    ensures
        mapping_of(mappings, matched, i) == Some(p),
    decreases p - i,
{
    if i < p {
        lemma_matched(mappings, matched, p, i + 1);
    }
}

proof fn lemma_unmatched(mappings: Seq<RenameMappingView>, matched: Seq<char>, i: int)
    requires
        0 <= i <= mappings.len(),
        forall|k: int| 0 <= k < mappings.len() ==> (#[trigger] mappings[k]).old != matched,
    ensures
        mapping_of(mappings, matched, i) is None,
    decreases mappings.len() - i,
{
    if i < mappings.len() {
        lemma_unmatched(mappings, matched, i + 1);
    }
}

/// The fix of a rename that is not of the whole file.
pub open spec fn near_fix(
    rule_id: Seq<char>,
    incident: IncidentView,
    mappings: Seq<RenameMappingView>,
    matched: Seq<char>,
    source: Seq<char>,
) -> Option<PlannedFixView> {
    rename_outcome(rule_id, incident, mappings, matched, false, Ok(source)).fix
}

/// Where a rename is for the matched text, it is made on the line of the
/// incident, before anything else; every other rename is made on each line
/// from three above the incident to four below it on which its old name
/// stands, and nothing else is done.
pub proof fn law_matched_name_is_renamed_with_its_neighbours(
    rule_id: Seq<char>,
    incident: IncidentView,
    mappings: Seq<RenameMappingView>,
    matched: Seq<char>,
    source: Seq<char>,
    p: int,
)
    requires
        incident.line_number is Some,
        lines_of(source).len() <= u32::MAX,
        is_matched(mappings, matched, p),
    ensures
        near_fix(rule_id, incident, mappings, matched, source) is Some <==> mappings[p].old
            != mappings[p].new,
        near_fix(rule_id, incident, mappings, matched, source) matches Some(fix) ==> ({
            let line = incident.line_number->Some_0;
            let all = lines_of(source);
            let own = line_index(line);
            &&& fix.line == line
            &&& fix.edits.len() > 0
            &&& fix.edits[0].line == line
            &&& fix.edits[0].old_text == matched
            &&& fix.edits[0].new_text == mappings[p].new
            &&& forall|idx: int, i: int|
                0 <= idx < all.len() && own - 3 <= idx < own + 5 && 0 <= i < mappings.len()
                    && mappings[i].old != mappings[i].new && has_text(
                    #[trigger] all[idx],
                    (#[trigger] mappings[i]).old,
                ) && !(idx + 1 == line && i == p) ==> is_renamed(
                    fix.edits,
                    rule_id,
                    mappings[i],
                    idx,
                )
            &&& forall|j: int|
                1 <= j < fix.edits.len() ==> exists|idx: int, i: int|
                    0 <= idx < all.len() && own - 3 <= idx < own + 5 && 0 <= i < mappings.len()
                        && !(idx + 1 == line && i == p) && mappings[i].old != mappings[i].new
                        && has_text(#[trigger] all[idx], mappings[i].old) && renames_at(
                        #[trigger] fix.edits[j],
                        rule_id,
                        #[trigger] mappings[i],
                        idx,
                    )
        }),
{
    let all = lines_of(source);
    let total = all.len() as int;
    let line = incident.line_number->Some_0;
    let own = line_index(line);
    lemma_matched(mappings, matched, p, 0);
    let from = window_start(own, 3);
    let to = window_end(own, total);
    let more = window_renames(rule_id, all, mappings, line, p, from, to);
    let edits = rename_edits(rule_id, source, line, mappings, matched, false);
    assert(edits == seq![rename_edit(rule_id, mappings[p], line)] + more);
    assert(edits[0] == rename_edit(rule_id, mappings[p], line));
    assert forall|idx: int, i: int|
        0 <= idx < all.len() && own - 3 <= idx < own + 5 && 0 <= i < mappings.len()
            && mappings[i].old != mappings[i].new && has_text(
            #[trigger] all[idx],
            (#[trigger] mappings[i]).old,
        ) && !(idx + 1 == line && i == p) implies is_renamed(edits, rule_id, mappings[i], idx) by {
        lemma_window_complete(rule_id, all, mappings, line, p, from, to, idx, i);
        let k = choose|k: int|
            0 <= k < more.len() && renames_at(#[trigger] more[k], rule_id, mappings[i], idx);
        assert(edits[k + 1] == more[k]);
    }
    assert forall|j: int| 1 <= j < edits.len() implies exists|idx: int, i: int|
        0 <= idx < all.len() && own - 3 <= idx < own + 5 && 0 <= i < mappings.len() && !(idx + 1
            == line && i == p) && mappings[i].old != mappings[i].new && has_text(
            #[trigger] all[idx],
            mappings[i].old,
        ) && renames_at(#[trigger] edits[j], rule_id, #[trigger] mappings[i], idx) by {
        assert(edits[j] == more[j - 1]);
        lemma_window_from(rule_id, all, mappings, line, p, from, to, j - 1);
    }
}

/// Where no rename is for the matched text, each is made on every line from
/// the one above the incident to four below it on which its old name stands;
/// where there is no such line there is no fix, and the reason says so.
pub proof fn law_unmatched_names_are_renamed_nearby(
    rule_id: Seq<char>,
    incident: IncidentView,
    mappings: Seq<RenameMappingView>,
    matched: Seq<char>,
    source: Seq<char>,
)
    requires
        incident.line_number is Some,
        lines_of(source).len() <= u32::MAX,
        forall|k: int| 0 <= k < mappings.len() ==> (#[trigger] mappings[k]).old != matched,
    ensures
        ({
            let line = incident.line_number->Some_0;
            let all = lines_of(source);
            let own = line_index(line);
            let outcome = rename_outcome(rule_id, incident, mappings, matched, false, Ok(source));
            let edits = match outcome.fix {
                Some(fix) => fix.edits,
                None => Seq::empty(),
            };
            &&& outcome.fix is None ==> outcome.skip is Some && outcome.skip->Some_0.reason
                == SkipReason::TextNotFound
            &&& forall|idx: int, i: int|
                0 <= idx < all.len() && own - 1 <= idx < own + 5 && 0 <= i < mappings.len()
                    && mappings[i].old != mappings[i].new && has_text(
                    #[trigger] all[idx],
                    (#[trigger] mappings[i]).old,
                ) ==> is_renamed(edits, rule_id, mappings[i], idx)
            &&& forall|j: int|
                0 <= j < edits.len() ==> exists|idx: int, i: int|
                    0 <= idx < all.len() && own - 1 <= idx < own + 5 && 0 <= i < mappings.len()
                        && mappings[i].old != mappings[i].new && has_text(
                        #[trigger] all[idx],
                        mappings[i].old,
                    ) && renames_at(#[trigger] edits[j], rule_id, #[trigger] mappings[i], idx)
        }),
{
    let all = lines_of(source);
    let total = all.len() as int;
    let line = incident.line_number->Some_0;
    let own = line_index(line);
    lemma_unmatched(mappings, matched, 0);
    let from = window_start(own, 1);
    let to = window_end(own, total);
    let edits = rename_edits(rule_id, source, line, mappings, matched, false);
    assert(edits == window_renames(rule_id, all, mappings, line, -1, from, to));
    let outcome = rename_outcome(rule_id, incident, mappings, matched, false, Ok(source));
    let planned = match outcome.fix {
        Some(fix) => fix.edits,
        None => Seq::empty(),
    };
    assert(planned =~= edits);
    assert forall|idx: int, i: int|
        0 <= idx < all.len() && own - 1 <= idx < own + 5 && 0 <= i < mappings.len()
            && mappings[i].old != mappings[i].new && has_text(
            #[trigger] all[idx],
            (#[trigger] mappings[i]).old,
        ) implies is_renamed(edits, rule_id, mappings[i], idx) by {
        lemma_window_complete(rule_id, all, mappings, line, -1, from, to, idx, i);
    }
    assert forall|j: int| 0 <= j < edits.len() implies exists|idx: int, i: int|
        0 <= idx < all.len() && own - 1 <= idx < own + 5 && 0 <= i < mappings.len()
            && mappings[i].old != mappings[i].new && has_text(#[trigger] all[idx], mappings[i].old)
            && renames_at(#[trigger] edits[j], rule_id, #[trigger] mappings[i], idx) by {
        lemma_window_from(rule_id, all, mappings, line, -1, from, to, j);
    }
}

} // verus!
