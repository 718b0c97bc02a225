//! Edits that overlap, and the order in which fixes are applied.

use crate::engine::dedup::{
    all_edits, deduplicated, file_removed, outranks, removed_count, staying, staying_fixes,
    survives,
};
use crate::engine::merge::{
    by_line, gathered, inserts_at, inserts_before, is_insert, line_place, merged_edit, new_lines,
};
use crate::laws::tables::law_distinct_holds_each_value_once;
use crate::text::joined;
use crate::views::distinct;
use crate::model::{PlannedFixView, TextEditView};
use vstd::prelude::*;

verus! {

/// The places of those of the first `n` edits that stay.
pub open spec fn kept_places(edits: Seq<TextEditView>, n: int) -> Seq<int>
    decreases n,
{
    if n <= 0 {
        Seq::empty()
    } else if survives(edits, n - 1) {
        kept_places(edits, n - 1).push(n - 1)
    } else {
        kept_places(edits, n - 1)
    }
}

/// Those of the first `n` edits that stay.
pub open spec fn kept(edits: Seq<TextEditView>, n: int) -> Seq<TextEditView> {
    kept_places(edits, n).map(|i: int, p: int| edits[p])
}

proof fn lemma_kept_places(edits: Seq<TextEditView>, n: int)
    requires
        0 <= n <= edits.len(),
    ensures
        kept_places(edits, n).len() + removed_count(edits, n) == n,
        forall|i: int|
            0 <= i < kept_places(edits, n).len() ==> 0 <= #[trigger] kept_places(edits, n)[i] < n
                && survives(edits, kept_places(edits, n)[i]),
        forall|i: int, j: int|
            0 <= i < j < kept_places(edits, n).len() ==> #[trigger] kept_places(edits, n)[i]
                < #[trigger] kept_places(edits, n)[j],
    decreases n,
{
    if n > 0 {
        lemma_kept_places(edits, n - 1);
    }
}

/// The edits of a fix that stay are those of the file that stand between its
/// first and its last one.
proof fn lemma_staying(edits: Seq<TextEditView>, fix: Seq<TextEditView>, from: int, n: int)
    requires
        0 <= from,
        0 <= n <= fix.len(),
        from + fix.len() <= edits.len(),
        forall|j: int| 0 <= j < fix.len() ==> fix[j] == #[trigger] edits[from + j],
    ensures
        kept(edits, from + n) == kept(edits, from) + staying(edits, fix, from, n),
    decreases n,
{
    if n > 0 {
        lemma_staying(edits, fix, from, n - 1);
        assert(edits[from + (n - 1)] == fix[n - 1]);
        if survives(edits, from + n - 1) {
            assert(kept(edits, from + n) =~= kept(edits, from + n - 1).push(fix[n - 1]));
        }
        assert(kept(edits, from + n) =~= kept(edits, from) + staying(edits, fix, from, n));
    } else {
        assert(kept(edits, from + n) =~= kept(edits, from) + staying(edits, fix, from, n));
    }
}

proof fn lemma_edits_prefix(fixes: Seq<PlannedFixView>, m: int, n: int)
    requires
        0 <= m <= n <= fixes.len(),
    ensures
        all_edits(fixes, m).len() <= all_edits(fixes, n).len(),
        forall|i: int|
            0 <= i < all_edits(fixes, m).len() ==> #[trigger] all_edits(fixes, n)[i] == all_edits(
                fixes,
                m,
            )[i],
    decreases n,
{
    if m < n {
        lemma_edits_prefix(fixes, m, n - 1);
    }
}

proof fn lemma_staying_fixes(fixes: Seq<PlannedFixView>, n: int)
    requires
        0 <= n <= fixes.len(),
    ensures
        ({
            let edits = all_edits(fixes, fixes.len() as int);
            let left = staying_fixes(edits, fixes, n);
            all_edits(left, left.len() as int) == kept(edits, all_edits(fixes, n).len() as int)
        }),
    decreases n,
{
    let edits = all_edits(fixes, fixes.len() as int);
    let left = staying_fixes(edits, fixes, n);
    if n > 0 {
        lemma_staying_fixes(fixes, n - 1);
        let fix = fixes[n - 1];
        let from = all_edits(fixes, n - 1).len() as int;
        lemma_edits_prefix(fixes, n, fixes.len() as int);
        assert forall|j: int| 0 <= j < fix.edits.len() implies fix.edits[j]
            == #[trigger] edits[from + j] by {
            assert(all_edits(fixes, n)[from + j] == fix.edits[j]);
        }
        lemma_staying(edits, fix.edits, from, fix.edits.len() as int);
        let stay = staying(edits, fix.edits, from, fix.edits.len() as int);
        let before = staying_fixes(edits, fixes, n - 1);
        if stay.len() == 0 {
            assert(kept(edits, from) + stay =~= kept(edits, from));
        } else {
            lemma_edits_of_push(before, PlannedFixView { edits: stay, ..fix });
        }
    } else {
        assert(kept(edits, 0) =~= Seq::<TextEditView>::empty());
    }
}

proof fn lemma_edits_agree(a: Seq<PlannedFixView>, b: Seq<PlannedFixView>, n: int)
    requires
        0 <= n <= a.len(),
        n <= b.len(),
        forall|i: int| 0 <= i < n ==> a[i] == b[i],
    ensures
        all_edits(a, n) == all_edits(b, n),
    decreases n,
{
    if n > 0 {
        lemma_edits_agree(a, b, n - 1);
    }
}

proof fn lemma_edits_of_push(fixes: Seq<PlannedFixView>, fix: PlannedFixView)
    ensures
        all_edits(fixes.push(fix), fixes.len() as int + 1) == all_edits(
            fixes,
            fixes.len() as int,
        ) + fix.edits,
{
    lemma_edits_agree(fixes.push(fix), fixes, fixes.len() as int);
}

proof fn lemma_nothing_removed(edits: Seq<TextEditView>, n: int)
    requires
        0 <= n <= edits.len(),
        removed_count(edits, n) == 0,
    ensures
        forall|i: int| 0 <= i < n ==> #[trigger] survives(edits, i),
    decreases n,
{
    if n > 0 {
        lemma_nothing_removed(edits, n - 1);
    }
}

proof fn lemma_all_survive(edits: Seq<TextEditView>, n: int)
    requires
        0 <= n <= edits.len(),
        forall|k: int, i: int| 0 <= i < edits.len() ==> !#[trigger] outranks(edits, k, i),
    ensures
        removed_count(edits, n) == 0,
    decreases n,
{
    if n > 0 {
        lemma_all_survive(edits, n - 1);
        assert(survives(edits, n - 1));
    }
}

/// The edits of a file that stay are those that survive, in their order.
pub proof fn law_deduplication_keeps_survivors(fixes: Seq<PlannedFixView>)
    ensures
        ({
            let edits = all_edits(fixes, fixes.len() as int);
            let left = deduplicated(fixes);
            all_edits(left, left.len() as int) == kept(edits, edits.len() as int)
        }),
{
    let edits = all_edits(fixes, fixes.len() as int);
    if file_removed(fixes) == 0 {
        lemma_nothing_removed(edits, edits.len() as int);
        lemma_keeps_all(edits, edits.len() as int);
    } else {
        lemma_staying_fixes(fixes, fixes.len() as int);
    }
}

proof fn lemma_keeps_all(edits: Seq<TextEditView>, n: int)
    requires
        0 <= n <= edits.len(),
        forall|i: int| 0 <= i < n ==> #[trigger] survives(edits, i),
    ensures
        kept_places(edits, n) == Seq::new(n as nat, |i: int| i),
        n == edits.len() ==> kept(edits, n) == edits,
    decreases n,
{
    if n > 0 {
        lemma_keeps_all(edits, n - 1);
    }
    assert(kept_places(edits, n) =~= Seq::new(n as nat, |i: int| i));
    if n == edits.len() {
        assert(kept(edits, n) =~= edits);
    }
}

/// Every edit that goes is made unnecessary by one that stays.
pub proof fn law_removed_edit_has_a_survivor(edits: Seq<TextEditView>, i: int)
    requires
        0 <= i < edits.len(),
        !survives(edits, i),
    ensures
        exists|k: int| #[trigger] outranks(edits, k, i) && survives(edits, k),
{
}

/// No edit that is left makes another one unnecessary. In particular no two
/// of them look for the same text on the same line.
pub proof fn law_no_overlaps_are_left(fixes: Seq<PlannedFixView>, k: int, i: int)
    requires
        0 <= i < all_edits(deduplicated(fixes), deduplicated(fixes).len() as int).len(),
        0 <= k < all_edits(deduplicated(fixes), deduplicated(fixes).len() as int).len(),
    ensures
        ({
            let left = all_edits(deduplicated(fixes), deduplicated(fixes).len() as int);
            &&& !outranks(left, k, i)
            &&& k != i ==> !(left[k].line == left[i].line && left[k].old_text == left[i].old_text)
        }),
{
    let edits = all_edits(fixes, fixes.len() as int);
    let n = edits.len() as int;
    let left = all_edits(deduplicated(fixes), deduplicated(fixes).len() as int);
    law_deduplication_keeps_survivors(fixes);
    lemma_kept_places(edits, n);
    let places = kept_places(edits, n);
    assert(left[k] == edits[places[k]]);
    assert(left[i] == edits[places[i]]);
    assert(survives(edits, places[k]));
    assert(survives(edits, places[i]));
    assert(!outranks(edits, places[k], places[i]));
    assert(!outranks(edits, places[i], places[k]));
    if k < i {
        assert(places[k] < places[i]);
    } else if i < k {
        assert(places[i] < places[k]);
    }
}

/// Removing overlaps a second time changes nothing.
pub proof fn law_deduplication_is_idempotent(fixes: Seq<PlannedFixView>)
    ensures
        file_removed(deduplicated(fixes)) == 0,
        deduplicated(deduplicated(fixes)) == deduplicated(fixes),
{
    let left = all_edits(deduplicated(fixes), deduplicated(fixes).len() as int);
    assert forall|k: int, i: int| 0 <= i < left.len() implies !#[trigger] outranks(left, k, i) by {
        if 0 <= k < left.len() {
            law_no_overlaps_are_left(fixes, k, i);
        }
    }
    lemma_all_survive(left, left.len() as int);
}

/// The edits that are left and the edits that went are all there were.
pub proof fn law_deduplication_counts_every_edit(fixes: Seq<PlannedFixView>)
    ensures
        all_edits(deduplicated(fixes), deduplicated(fixes).len() as int).len() + file_removed(
            fixes,
        ) == all_edits(fixes, fixes.len() as int).len(),
{
    let edits = all_edits(fixes, fixes.len() as int);
    law_deduplication_keeps_survivors(fixes);
    lemma_kept_places(edits, edits.len() as int);
}

// ---------------------------------------------------------------------
// Merged inserts
// ---------------------------------------------------------------------

proof fn lemma_gathered(
    edits: Seq<TextEditView>,
    line: u32,
    old_text: Seq<char>,
    n: int,
    k: int,
    x: Seq<char>,
)
    requires
        0 <= k < n <= edits.len(),
        inserts_at(edits[k], line, old_text),
        new_lines(edits[k]).contains(x),
    ensures
        gathered(edits, line, old_text, n).contains(x),
    decreases n,
{
    let now = gathered(edits, line, old_text, n);
    let before = gathered(edits, line, old_text, n - 1);
    if k == n - 1 {
        let more = new_lines(edits[k]);
        let j = choose|j: int| 0 <= j < more.len() && more[j] == x;
        assert(now[before.len() + j] == x);
    } else {
        lemma_gathered(edits, line, old_text, n - 1, k, x);
        let j = choose|j: int| 0 <= j < before.len() && before[j] == x;
        assert(now[j] == x);
    }
}

/// Where several edits insert dependencies before the same brace, the first
/// of them inserts every line that any of them inserts, each once.
pub proof fn law_merged_insert_holds_every_line(edits: Seq<TextEditView>, i: int, k: int, x: Seq<char>)
    requires
        0 <= i < edits.len(),
        0 <= k < edits.len(),
        is_insert(edits[i]),
        inserts_before(edits, edits[i].line, edits[i].old_text, edits.len() as int) > 1,
        inserts_before(edits, edits[i].line, edits[i].old_text, i) == 0,
        inserts_at(edits[k], edits[i].line, edits[i].old_text),
        new_lines(edits[k]).contains(x),
    ensures
        ({
            let every = gathered(
                edits,
                edits[i].line,
                edits[i].old_text,
                edits.len() as int,
            );
            let once = distinct(every, every.len() as int);
            &&& once.no_duplicates()
            &&& once.contains(x)
            &&& merged_edit(edits, i).new_text == joined(once, ",\n"@) + "\n"@ + edits[i].old_text
        }),
{
    let n = edits.len() as int;
    let every = gathered(edits, edits[i].line, edits[i].old_text, n);
    lemma_gathered(edits, edits[i].line, edits[i].old_text, n, k, x);
    law_distinct_holds_each_value_once(every, every.len() as int);
    assert(every.take(every.len() as int) =~= every);
    assert(distinct(every, every.len() as int).contains(x));
}

// ---------------------------------------------------------------------
// Order of application
// ---------------------------------------------------------------------

proof fn lemma_line_place(s: Seq<PlannedFixView>, x: PlannedFixView, i: int)
    requires
        0 <= i <= s.len(),
        forall|j: int| 0 <= j < i ==> (#[trigger] s[j]).line >= x.line,
    ensures
        i <= line_place(s, x, i) <= s.len(),
        forall|j: int| 0 <= j < line_place(s, x, i) ==> (#[trigger] s[j]).line >= x.line,
        line_place(s, x, i) < s.len() ==> s[line_place(s, x, i)].line < x.line,
    decreases s.len() - i,
{
    if i < s.len() && s[i].line >= x.line {
        lemma_line_place(s, x, i + 1);
    }
}

/// Fixes are applied from the bottom of a file up.
pub proof fn law_fixes_go_from_the_bottom_up(fixes: Seq<PlannedFixView>, n: int)
    requires
        0 <= n <= fixes.len(),
    ensures
        forall|i: int, j: int|
            0 <= i < j < by_line(fixes, n).len() ==> (#[trigger] by_line(fixes, n)[i]).line >= (
            #[trigger] by_line(fixes, n)[j]).line,
    decreases n,
{
    if n > 0 {
        law_fixes_go_from_the_bottom_up(fixes, n - 1);
        let sorted = by_line(fixes, n - 1);
        let x = fixes[n - 1];
        lemma_line_place(sorted, x, 0);
        let p = line_place(sorted, x, 0);
        let now = by_line(fixes, n);
        assert forall|i: int, j: int| 0 <= i < j < now.len() implies (#[trigger] now[i]).line >= (
        #[trigger] now[j]).line by {
            let a = if i <= p { i } else { i - 1 };
            let b = if j <= p { j } else { j - 1 };
            if i == p {
                assert(now[j] == sorted[j - 1]);
                assert(sorted[p].line >= sorted[j - 1].line);
            } else if j == p {
                assert(now[i] == sorted[i]);
            } else {
                assert(now[i] == sorted[a]);
                assert(now[j] == sorted[b]);
            }
        }
    }
}

/// Putting fixes in order neither adds nor loses one.
pub proof fn law_ordering_keeps_every_fix(fixes: Seq<PlannedFixView>, n: int)
    requires
        0 <= n <= fixes.len(),
    ensures
        by_line(fixes, n).to_multiset() == fixes.take(n).to_multiset(),
    decreases n,
{
    broadcast use vstd::seq_lib::group_to_multiset_ensures;

    if n > 0 {
        law_ordering_keeps_every_fix(fixes, n - 1);
        let sorted = by_line(fixes, n - 1);
        lemma_line_place(sorted, fixes[n - 1], 0);
        assert(fixes.take(n) =~= fixes.take(n - 1).push(fixes[n - 1]));
    } else {
        assert(by_line(fixes, n) =~= fixes.take(n));
    }
}

/// Fixes on the same line keep their order.
pub proof fn law_ordering_is_stable(fixes: Seq<PlannedFixView>, line: u32, n: int)
    requires
        0 <= n <= fixes.len(),
    ensures
        by_line(fixes, n).filter(|f: PlannedFixView| f.line == line) == fixes.take(n).filter(
            |f: PlannedFixView| f.line == line,
        ),
    decreases n,
{
    let on = |f: PlannedFixView| f.line == line;
    if n > 0 {
        law_ordering_is_stable(fixes, line, n - 1);
        law_fixes_go_from_the_bottom_up(fixes, n - 1);
        let sorted = by_line(fixes, n - 1);
        let x = fixes[n - 1];
        lemma_line_place(sorted, x, 0);
        let p = line_place(sorted, x, 0);
        let top = sorted.take(p);
        let rest = sorted.skip(p);
        assert(sorted =~= top + rest);
        assert(by_line(fixes, n) =~= (top + seq![x]) + rest);
        assert(fixes.take(n) =~= fixes.take(n - 1) + seq![x]);
        Seq::filter_distributes_over_add(top, rest, on);
        Seq::filter_distributes_over_add(top + seq![x], rest, on);
        Seq::filter_distributes_over_add(top, seq![x], on);
        Seq::filter_distributes_over_add(fixes.take(n - 1), seq![x], on);
        lemma_filter_one(x, on);
        if x.line == line {
            assert forall|j: int| 0 <= j < rest.len() implies !#[trigger] on(rest[j]) by {
                assert(rest[j] == sorted[p + j]);
                assert(sorted[p].line >= sorted[p + j].line);
            }
            lemma_filter_none(rest, on);
        }
        assert(by_line(fixes, n).filter(on) =~= fixes.take(n).filter(on));
    } else {
        assert(by_line(fixes, n) =~= fixes.take(n));
    }
}

proof fn lemma_filter_none<T>(s: Seq<T>, on: spec_fn(T) -> bool)
    requires
        forall|j: int| 0 <= j < s.len() ==> !#[trigger] on(s[j]),
    ensures
        s.filter(on) == Seq::<T>::empty(),
    decreases s.len(),
{
    reveal(Seq::filter);
    if s.len() > 0 {
        lemma_filter_none(s.drop_last(), on);
    }
}

proof fn lemma_filter_one<T>(x: T, on: spec_fn(T) -> bool)
    ensures
        seq![x].filter(on) == if on(x) {
            seq![x]
        } else {
            Seq::<T>::empty()
        },
{
    reveal(Seq::filter);
    reveal_with_fuel(Seq::filter, 3);
    assert(seq![x].drop_last() =~= Seq::<T>::empty());
    assert(seq![x].filter(on) =~= if on(x) {
        seq![x]
    } else {
        Seq::<T>::empty()
    });
}

} // verus!
