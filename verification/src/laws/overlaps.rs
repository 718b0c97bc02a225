//! What choosing among overlapping edits keeps and what it takes away, told
//! by the texts that the edits look for.

use crate::engine::dedup::{
    all_edits, deduplicated, deduplicated_plan, file_removed, outranks, staying, staying_fixes,
    survives, total_removed,
};
use crate::laws::edits::{
    kept, kept_places, law_deduplication_counts_every_edit, law_deduplication_keeps_survivors,
    law_no_overlaps_are_left,
};
use crate::model::{FixPlanView, PlannedFixView, TextEditView};
use crate::text::{has_text, lemma_has_text_reflexive};
use vstd::prelude::*;

verus! {

broadcast use vstd::string::group_string_axioms;

/// All edits of the fixes of a file, one after the other.
pub open spec fn edits_in(fixes: Seq<PlannedFixView>) -> Seq<TextEditView> {
    all_edits(fixes, fixes.len() as int)
}

/// Edit `b` looks for its text on the line of edit `a`, inside the text that
/// `a` looks for.
pub open spec fn holds_text_of(a: TextEditView, b: TextEditView) -> bool {
    a.line == b.line && has_text(a.old_text, b.old_text)
}

proof fn lemma_places_complete(edits: Seq<TextEditView>, n: int, k: int)
    requires
        0 <= k < n <= edits.len(),
        survives(edits, k),
    ensures
        exists|j: int| 0 <= j < kept_places(edits, n).len() && #[trigger] kept_places(edits, n)[j] == k,
    decreases n,
{
    let now = kept_places(edits, n);
    if k == n - 1 {
        assert(now[now.len() - 1] == k);
    } else {
        lemma_places_complete(edits, n - 1, k);
        let before = kept_places(edits, n - 1);
        let j = choose|j: int| 0 <= j < before.len() && #[trigger] before[j] == k;
        assert(now[j] == k);
    }
}

/// An edit that survives is among those that are left.
proof fn lemma_survivor_is_left(fixes: Seq<PlannedFixView>, k: int)
    requires
        0 <= k < edits_in(fixes).len(),
        survives(edits_in(fixes), k),
    ensures
        exists|j: int|
            0 <= j < edits_in(deduplicated(fixes)).len() && #[trigger] edits_in(
                deduplicated(fixes),
            )[j] == edits_in(fixes)[k],
{
    let edits = edits_in(fixes);
    let n = edits.len() as int;
    law_deduplication_keeps_survivors(fixes);
    lemma_places_complete(edits, n, k);
    let j = choose|j: int| 0 <= j < kept_places(edits, n).len() && #[trigger] kept_places(edits, n)[j] == k;
    assert(kept(edits, n)[j] == edits[k]);
    assert(edits_in(deduplicated(fixes))[j] == edits[k]);
}

/// No text is lost: for every edit of a file, one is left on its line whose
/// text holds the text that it looks for.
pub proof fn law_every_text_is_still_looked_for(fixes: Seq<PlannedFixView>, i: int)
    requires
        0 <= i < edits_in(fixes).len(),
    ensures
        exists|k: int|
            0 <= k < edits_in(deduplicated(fixes)).len() && holds_text_of(
                #[trigger] edits_in(deduplicated(fixes))[k],
                edits_in(fixes)[i],
            ),
{
    let edits = edits_in(fixes);
    let left = edits_in(deduplicated(fixes));
    lemma_has_text_reflexive(edits[i].old_text);
    if survives(edits, i) {
        lemma_survivor_is_left(fixes, i);
        let j = choose|j: int| 0 <= j < left.len() && #[trigger] left[j] == edits[i];
        assert(holds_text_of(left[j], edits[i]));
    } else {
        let k = choose|k: int| #[trigger] outranks(edits, k, i) && survives(edits, k);
        lemma_survivor_is_left(fixes, k);
        let j = choose|j: int| 0 <= j < left.len() && #[trigger] left[j] == edits[k];
        assert(holds_text_of(left[j], edits[i]));
    }
}

/// An edit whose text stands in the text of no other edit on its line stays.
pub proof fn law_lone_edit_stays(fixes: Seq<PlannedFixView>, i: int)
    requires
        0 <= i < edits_in(fixes).len(),
        forall|k: int|
            0 <= k < edits_in(fixes).len() && k != i ==> !holds_text_of(
                #[trigger] edits_in(fixes)[k],
                edits_in(fixes)[i],
            ),
    ensures
        edits_in(deduplicated(fixes)).contains(edits_in(fixes)[i]),
{
    let edits = edits_in(fixes);
    let left = edits_in(deduplicated(fixes));
    assert forall|k: int| !(#[trigger] outranks(edits, k, i)) by {
        if 0 <= k < edits.len() && k != i {
            assert(!holds_text_of(edits[k], edits[i]));
            lemma_has_text_reflexive(edits[i].old_text);
        }
    }
    lemma_survivor_is_left(fixes, i);
    let j = choose|j: int| 0 <= j < left.len() && #[trigger] left[j] == edits[i];
}

/// Edits that replace all occurrences stay beside each other, whatever their
/// texts hold, as long as no earlier one looks for the same text and no edit
/// that replaces one occurrence looks for a longer one.
pub proof fn law_edits_of_all_occurrences_stay(fixes: Seq<PlannedFixView>, i: int)
    requires
        0 <= i < edits_in(fixes).len(),
        edits_in(fixes)[i].replace_all,
        forall|k: int|
            0 <= k < edits_in(fixes).len() && k != i && holds_text_of(
                #[trigger] edits_in(fixes)[k],
                edits_in(fixes)[i],
            ) ==> edits_in(fixes)[k].replace_all && (edits_in(fixes)[k].old_text
                == edits_in(fixes)[i].old_text ==> k > i),
    ensures
        edits_in(deduplicated(fixes)).contains(edits_in(fixes)[i]),
{
    let edits = edits_in(fixes);
    let left = edits_in(deduplicated(fixes));
    assert forall|k: int| !(#[trigger] outranks(edits, k, i)) by {
        if 0 <= k < edits.len() && k != i {
            lemma_has_text_reflexive(edits[i].old_text);
            if holds_text_of(edits[k], edits[i]) {
                assert(edits[k].replace_all);
            }
        }
    }
    lemma_survivor_is_left(fixes, i);
    let j = choose|j: int| 0 <= j < left.len() && #[trigger] left[j] == edits[i];
}

/// Edit `p` is the first of its kind that looks for its text on its line.
pub open spec fn is_first(edits: Seq<TextEditView>, p: int) -> bool {
    &&& 0 <= p < edits.len()
    &&& forall|k: int|
        0 <= k < p ==> !((#[trigger] edits[k]).line == edits[p].line && edits[k].old_text
            == edits[p].old_text && edits[k].replace_all == edits[p].replace_all)
}

/// Of the edits that look for the same text on a line, in the same way, only
/// the first can be left.
pub proof fn law_the_first_of_equal_edits_is_left(fixes: Seq<PlannedFixView>, j: int)
    requires
        0 <= j < edits_in(deduplicated(fixes)).len(),
    ensures
        exists|p: int| #[trigger]
            is_first(edits_in(fixes), p) && edits_in(fixes)[p] == edits_in(
                deduplicated(fixes),
            )[j],
{
    let edits = edits_in(fixes);
    let left = edits_in(deduplicated(fixes));
    let n = edits.len() as int;
    law_deduplication_keeps_survivors(fixes);
    lemma_places(edits, n);
    let p = kept_places(edits, n)[j];
    assert(left[j] == edits[p]);
    assert(is_first(edits, p)) by {
        assert forall|k: int| 0 <= k < p implies !((#[trigger] edits[k]).line == edits[p].line
            && edits[k].old_text == edits[p].old_text && edits[k].replace_all
            == edits[p].replace_all) by {
            if edits[k].line == edits[p].line && edits[k].old_text == edits[p].old_text
                && edits[k].replace_all == edits[p].replace_all {
                lemma_later_twin_goes(edits, k, p);
            }
        }
    }
}

/// An edit with an earlier twin goes.
proof fn lemma_later_twin_goes(edits: Seq<TextEditView>, k: int, p: int)
    requires
        0 <= k < p < edits.len(),
        edits[k].line == edits[p].line,
        edits[k].old_text == edits[p].old_text,
        edits[k].replace_all == edits[p].replace_all,
    ensures
        !survives(edits, p),
{
    assert(outranks(edits, k, p));
    if !survives(edits, k) {
        let q = choose|q: int| #[trigger] outranks(edits, q, k) && survives(edits, q);
        assert(outranks(edits, q, p));
    }
}

/// Of two edits that are left on one line neither looks for a text inside the
/// text of the other, unless both replace all occurrences and the texts
/// differ.
pub proof fn law_left_edits_do_not_overlap(fixes: Seq<PlannedFixView>, a: int, b: int)
    requires
        0 <= a < edits_in(deduplicated(fixes)).len(),
        0 <= b < edits_in(deduplicated(fixes)).len(),
        a != b,
        holds_text_of(edits_in(deduplicated(fixes))[a], edits_in(deduplicated(fixes))[b]),
    ensures
        edits_in(deduplicated(fixes))[a].replace_all,
        edits_in(deduplicated(fixes))[b].replace_all,
        edits_in(deduplicated(fixes))[a].old_text != edits_in(deduplicated(fixes))[b].old_text,
{
    law_no_overlaps_are_left(fixes, a, b);
    law_no_overlaps_are_left(fixes, b, a);
    let left = edits_in(deduplicated(fixes));
    assert(!outranks(left, a, b));
    assert(!outranks(left, b, a));
}

proof fn lemma_places(edits: Seq<TextEditView>, n: int)
    requires
        0 <= n <= edits.len(),
    ensures
        forall|i: int|
            0 <= i < kept_places(edits, n).len() ==> 0 <= #[trigger] kept_places(edits, n)[i] < n
                && survives(edits, kept_places(edits, n)[i]),
    decreases n,
{
    if n > 0 {
        lemma_places(edits, n - 1);
        let before = kept_places(edits, n - 1);
        let now = kept_places(edits, n);
        assert forall|i: int| 0 <= i < now.len() implies 0 <= #[trigger] now[i] < n && survives(
            edits,
            now[i],
        ) by {
            if i < before.len() {
                assert(now[i] == before[i]);
            }
        }
    }
}

/// An edit goes only where one is left on its line that looks for the same
/// text, or for a longer one that holds it without both replacing all
/// occurrences.
pub proof fn law_an_edit_goes_for_a_reason(fixes: Seq<PlannedFixView>, i: int)
    requires
        0 <= i < edits_in(fixes).len(),
        !edits_in(deduplicated(fixes)).contains(edits_in(fixes)[i]),
    ensures
        exists|k: int|
            0 <= k < edits_in(deduplicated(fixes)).len() && holds_text_of(
                #[trigger] edits_in(deduplicated(fixes))[k],
                edits_in(fixes)[i],
            ) && (edits_in(deduplicated(fixes))[k].old_text == edits_in(fixes)[i].old_text || !(
            edits_in(deduplicated(fixes))[k].replace_all && edits_in(fixes)[i].replace_all)),
{
    let edits = edits_in(fixes);
    let left = edits_in(deduplicated(fixes));
    lemma_has_text_reflexive(edits[i].old_text);
    if survives(edits, i) {
        lemma_survivor_is_left(fixes, i);
        let j = choose|j: int| 0 <= j < left.len() && #[trigger] left[j] == edits[i];
    } else {
        let k = choose|k: int| #[trigger] outranks(edits, k, i) && survives(edits, k);
        lemma_survivor_is_left(fixes, k);
        let j = choose|j: int| 0 <= j < left.len() && #[trigger] left[j] == edits[k];
        assert(holds_text_of(left[j], edits[i]));
    }
}

/// Fix `b` is fix `a` with fewer edits, in their order.
pub open spec fn thinned(a: PlannedFixView, b: PlannedFixView) -> bool {
    &&& b.confidence == a.confidence
    &&& b.source == a.source
    &&& b.rule_id == a.rule_id
    &&& b.file_uri == a.file_uri
    &&& b.line == a.line
    &&& b.description == a.description
    &&& b.edits.len() <= a.edits.len()
    &&& forall|k: int| 0 <= k < b.edits.len() ==> a.edits.contains(#[trigger] b.edits[k])
}

proof fn lemma_staying(edits: Seq<TextEditView>, fix: Seq<TextEditView>, from: int, n: int)
    requires
        0 <= n <= fix.len(),
    ensures
        staying(edits, fix, from, n).len() <= n,
        forall|k: int|
            0 <= k < staying(edits, fix, from, n).len() ==> fix.contains(
                #[trigger] staying(edits, fix, from, n)[k],
            ),
    decreases n,
{
    if n > 0 {
        lemma_staying(edits, fix, from, n - 1);
        let before = staying(edits, fix, from, n - 1);
        let now = staying(edits, fix, from, n);
        assert forall|k: int| 0 <= k < now.len() implies fix.contains(#[trigger] now[k]) by {
            if k < before.len() {
                assert(now[k] == before[k]);
            } else {
                assert(now[k] == fix[n - 1]);
            }
        }
    }
}

proof fn lemma_staying_fixes(edits: Seq<TextEditView>, fixes: Seq<PlannedFixView>, n: int, j: int)
    requires
        0 <= n <= fixes.len(),
        0 <= j < staying_fixes(edits, fixes, n).len(),
    ensures
        exists|i: int|
            0 <= i < n && thinned(#[trigger] fixes[i], staying_fixes(edits, fixes, n)[j]),
        staying_fixes(edits, fixes, n)[j].edits.len() > 0,
    decreases n,
{
    if n > 0 {
        let before = staying_fixes(edits, fixes, n - 1);
        let fix = fixes[n - 1];
        let from = all_edits(fixes, n - 1).len() as int;
        lemma_staying(edits, fix.edits, from, fix.edits.len() as int);
        if j < before.len() {
            lemma_staying_fixes(edits, fixes, n - 1, j);
            assert(staying_fixes(edits, fixes, n)[j] == before[j]);
        } else {
            assert(thinned(fixes[n - 1], staying_fixes(edits, fixes, n)[j]));
        }
    }
}

/// A fix that is left is a fix of the file, with no edit that it did not
/// have, and all else about it unchanged.
pub proof fn law_left_fixes_are_thinned(fixes: Seq<PlannedFixView>, j: int)
    requires
        0 <= j < deduplicated(fixes).len(),
    ensures
        exists|i: int|
            0 <= i < fixes.len() && thinned(#[trigger] fixes[i], deduplicated(fixes)[j]),
{
    let edits = edits_in(fixes);
    if file_removed(fixes) == 0 {
        assert(thinned(fixes[j], deduplicated(fixes)[j]));
    } else {
        lemma_staying_fixes(edits, fixes, fixes.len() as int, j);
    }
}

/// How many edits the first `n` files have.
pub open spec fn edit_total(files: Seq<(Seq<char>, Seq<PlannedFixView>)>, n: int) -> nat
    decreases n,
{
    if n <= 0 {
        0
    } else {
        edit_total(files, n - 1) + edits_in(files[n - 1].1).len()
    }
}

proof fn lemma_totals(plan: FixPlanView, n: int)
    requires
        0 <= n <= plan.files.len(),
    ensures
        edit_total(deduplicated_plan(plan).files, n) + total_removed(plan.files, n) == edit_total(
            plan.files,
            n,
        ),
    decreases n,
{
    if n > 0 {
        lemma_totals(plan, n - 1);
        law_deduplication_counts_every_edit(plan.files[n - 1].1);
    }
}

/// Choosing among the edits of a plan goes file by file, leaves the notes for
/// manual work and for later alone, and counts the edits that went.
pub proof fn law_deduplication_goes_file_by_file(plan: FixPlanView)
    ensures
        deduplicated_plan(plan).files.len() == plan.files.len(),
        forall|i: int|
            0 <= i < plan.files.len() ==> (#[trigger] deduplicated_plan(plan).files[i]).0
                == plan.files[i].0 && deduplicated_plan(plan).files[i].1 == deduplicated(
                plan.files[i].1,
            ),
        deduplicated_plan(plan).manual == plan.manual,
        deduplicated_plan(plan).pending_llm == plan.pending_llm,
        edit_total(plan.files, plan.files.len() as int) <= usize::MAX ==> edit_total(
            plan.files,
            plan.files.len() as int,
        ) == edit_total(deduplicated_plan(plan).files, plan.files.len() as int)
            + deduplicated_plan(plan).edits_subsumed,
{
    lemma_totals(plan, plan.files.len() as int);
}

} // verus!
