//! Choosing among edits that overlap on a line: the more specific one wins.

use crate::model::{
    FixPlan, FixPlanView, PlannedFix, PlannedFixView, TextEdit, TextEditView,
};
use crate::text::{contains, has_text, same};
use crate::views::append_one;
use vstd::prelude::*;

verus! {

broadcast use vstd::string::group_string_axioms;

/// The edits of the first `n` fixes, one after the other.
pub open spec fn all_edits(fixes: Seq<PlannedFixView>, n: int) -> Seq<TextEditView>
    decreases n,
{
    if n <= 0 {
        Seq::empty()
    } else {
        all_edits(fixes, n - 1) + fixes[n - 1].edits
    }
}

/// Edit `k` makes edit `i` unnecessary: both are on the same line, and
/// either both look for the same text and `k` comes first, or `k` looks for
/// a longer text that holds the one `i` looks for. Two edits that replace
/// all occurrences can both stay: the longer text is replaced first, and the
/// shorter one then finds what is left.
pub open spec fn outranks(edits: Seq<TextEditView>, k: int, i: int) -> bool {
    &&& 0 <= k < edits.len()
    &&& edits[k].line == edits[i].line
    &&& if edits[k].old_text == edits[i].old_text {
        k < i
    } else {
        has_text(edits[k].old_text, edits[i].old_text) && !(edits[i].replace_all
            && edits[k].replace_all)
    }
}

/// The length of the longest text that one of the first `n` edits looks for.
pub open spec fn longest(edits: Seq<TextEditView>, n: int) -> int
    decreases n,
{
    if n <= 0 {
        0
    } else if edits[n - 1].old_text.len() > longest(edits, n - 1) {
        edits[n - 1].old_text.len() as int
    } else {
        longest(edits, n - 1)
    }
}

/// Edit `i` stays: no edit that stays makes it unnecessary.
pub open spec fn survives(edits: Seq<TextEditView>, i: int) -> bool
    decreases longest(edits, edits.len() as int) - edits[i].old_text.len(), i,
    when 0 <= i < edits.len()
    via survives_decreases
{
    !exists|k: int| #[trigger] outranks(edits, k, i) && survives(edits, k)
}

#[via_fn]
proof fn survives_decreases(edits: Seq<TextEditView>, i: int) {
    assert forall|k: int| #[trigger] outranks(edits, k, i) implies 0 <= k < edits.len() && (
    edits[k].old_text.len() > edits[i].old_text.len() || (edits[k].old_text.len()
        == edits[i].old_text.len() && k < i)) && edits[k].old_text.len() <= longest(
        edits,
        edits.len() as int,
    ) by {
        lemma_outranks_is_longer(edits, k, i);
        lemma_longest(edits, edits.len() as int, k);
    }
}

proof fn lemma_longest(edits: Seq<TextEditView>, n: int, k: int)
    requires
        0 <= k < n,
    ensures
        edits[k].old_text.len() <= longest(edits, n),
    decreases n,
{
    if k < n - 1 {
        lemma_longest(edits, n - 1, k);
    }
}

/// What makes an edit unnecessary looks for a longer text, or for the same
/// text and comes first.
proof fn lemma_outranks_is_longer(edits: Seq<TextEditView>, k: int, i: int)
    requires
        outranks(edits, k, i),
    ensures
        edits[k].old_text.len() > edits[i].old_text.len() || (edits[k].old_text
            == edits[i].old_text && k < i),
{
    let a = edits[k].old_text;
    let b = edits[i].old_text;
    if a != b && a.len() <= b.len() {
        let at = choose|at: int| crate::text::occurs_at(a, b, at);
        assert(a.subrange(at, at + b.len()) =~= a);
    }
}

/// How many of the first `n` edits do not stay.
pub open spec fn removed_count(edits: Seq<TextEditView>, n: int) -> nat
    decreases n,
{
    if n <= 0 {
        0
    } else if survives(edits, n - 1) {
        removed_count(edits, n - 1)
    } else {
        removed_count(edits, n - 1) + 1
    }
}

/// Of the first `n` edits of a fix whose edits begin at place `from` among
/// all edits, those that stay.
pub open spec fn staying(
    edits: Seq<TextEditView>,
    fix: Seq<TextEditView>,
    from: int,
    n: int,
) -> Seq<TextEditView>
    decreases n,
{
    if n <= 0 {
        Seq::empty()
    } else if survives(edits, from + n - 1) {
        staying(edits, fix, from, n - 1).push(fix[n - 1])
    } else {
        staying(edits, fix, from, n - 1)
    }
}

/// The first `n` fixes with the edits that stay, without the fixes that have
/// no edit left.
pub open spec fn staying_fixes(
    edits: Seq<TextEditView>,
    fixes: Seq<PlannedFixView>,
    n: int,
) -> Seq<PlannedFixView>
    decreases n,
{
    if n <= 0 {
        Seq::empty()
    } else {
        let fix = fixes[n - 1];
        let left = staying(
            edits,
            fix.edits,
            all_edits(fixes, n - 1).len() as int,
            fix.edits.len() as int,
        );
        if left.len() == 0 {
            staying_fixes(edits, fixes, n - 1)
        } else {
            staying_fixes(edits, fixes, n - 1).push(PlannedFixView { edits: left, ..fix })
        }
    }
}

/// How many edits of a file do not stay.
pub open spec fn file_removed(fixes: Seq<PlannedFixView>) -> nat {
    let edits = all_edits(fixes, fixes.len() as int);
    removed_count(edits, edits.len() as int)
}

/// The fixes of a file once the edits that do not stay are gone. A file
/// from which nothing goes is left as it is.
pub open spec fn deduplicated(fixes: Seq<PlannedFixView>) -> Seq<PlannedFixView> {
    let edits = all_edits(fixes, fixes.len() as int);
    if file_removed(fixes) == 0 {
        fixes
    } else {
        staying_fixes(edits, fixes, fixes.len() as int)
    }
}

/// The number, or the largest one that a counter holds.
pub open spec fn counted(n: nat) -> usize {
    if n <= usize::MAX {
        n as usize
    } else {
        usize::MAX
    }
}

/// How many edits of the first `n` files do not stay.
pub open spec fn total_removed(files: Seq<(Seq<char>, Seq<PlannedFixView>)>, n: int) -> nat
    decreases n,
{
    if n <= 0 {
        0
    } else {
        total_removed(files, n - 1) + file_removed(files[n - 1].1)
    }
}

/// The plan once the edits that do not stay are gone from each file.
pub open spec fn deduplicated_plan(plan: FixPlanView) -> FixPlanView {
    FixPlanView {
        files: Seq::new(
            plan.files.len(),
            |i: int| (plan.files[i].0, deduplicated(plan.files[i].1)),
        ),
        edits_subsumed: counted(total_removed(plan.files, plan.files.len() as int)),
        ..plan
    }
}

/// The counter with `more` added.
pub fn count_up(n: usize, more: usize) -> (r: usize)
    ensures
        forall|k: nat| n == counted(k) ==> r == #[trigger] counted(k + more as nat),
{
    if more <= usize::MAX - n {
        n + more
    } else {
        usize::MAX
    }
}

/// The edits of the fixes, one after the other.
pub fn flatten(fixes: &Vec<PlannedFix>) -> (r: Vec<&TextEdit>)
    ensures
        r.deep_view() == all_edits(fixes.deep_view(), fixes@.len() as int),
{
    let mut out: Vec<&TextEdit> = Vec::new();
    let mut i: usize = 0;
    assert(out.deep_view() =~= Seq::<TextEditView>::empty());
    while i < fixes.len()
        invariant
            i <= fixes@.len(),
            out.deep_view() == all_edits(fixes.deep_view(), i as int),
        decreases fixes@.len() - i,
    {
        let fix = &fixes[i];
        assert(fixes.deep_view()[i as int] == fix.deep_view());
        let ghost before = out.deep_view();
        let ghost more = fix.edits.deep_view();
        let mut j: usize = 0;
        assert(before + more.take(0) =~= before);
        while j < fix.edits.len()
            invariant
                j <= fix.edits@.len(),
                more == fix.edits.deep_view(),
                out.deep_view() == before + more.take(j as int),
            decreases fix.edits@.len() - j,
        {
            append_one(&mut out, &fix.edits[j]);
            assert(fix.edits.deep_view()[j as int] == fix.edits@[j as int].deep_view());
            assert(out.deep_view() =~= before + more.take(j + 1));
            j = j + 1;
        }
        assert(more.take(more.len() as int) =~= more);
        i = i + 1;
    }
    out
}

fn length_of(all: &Vec<&TextEdit>, i: usize) -> (r: usize)
    requires
        i < all@.len(),
    ensures
        r == all.deep_view()[i as int].old_text.len(),
{
    all[i].old_text.as_str().unicode_len()
}

fn longest_of(all: &Vec<&TextEdit>) -> (r: usize)
    ensures
        r == longest(all.deep_view(), all@.len() as int),
{
    let mut best: usize = 0;
    let mut i: usize = 0;
    while i < all.len()
        invariant
            i <= all@.len(),
            best == longest(all.deep_view(), i as int),
        decreases all@.len() - i,
    {
        let n = length_of(all, i);
        if n > best {
            best = n;
        }
        i = i + 1;
    }
    best
}

fn is_outranked(all: &Vec<&TextEdit>, keep: &Vec<bool>, i: usize) -> (r: bool)
    requires
        i < all@.len(),
        keep@.len() == all@.len(),
        forall|k: int| #[trigger]
            outranks(all.deep_view(), k, i as int) ==> keep@[k] == survives(all.deep_view(), k),
    ensures
        r == !survives(all.deep_view(), i as int),
{
    let ghost edits = all.deep_view();
    let mut k: usize = 0;
    while k < all.len()
        invariant
            k <= all@.len(),
            i < all@.len(),
            keep@.len() == all@.len(),
            edits == all.deep_view(),
            forall|j: int| #[trigger]
                outranks(edits, j, i as int) ==> keep@[j] == survives(edits, j),
            forall|j: int| 0 <= j < k && #[trigger] outranks(edits, j, i as int) ==> !survives(edits, j),
        decreases all@.len() - k,
    {
        let a = all[k];
        let b = all[i];
        assert(edits[k as int] == a.deep_view());
        assert(edits[i as int] == b.deep_view());
        let wins = a.line == b.line && (if same(a.old_text.as_str(), b.old_text.as_str()) {
            k < i
        } else {
            contains(a.old_text.as_str(), b.old_text.as_str()) && !(b.replace_all && a.replace_all)
        });
        assert(wins == outranks(edits, k as int, i as int));
        if wins && keep[k] {
            return true;
        }
        k = k + 1;
    }
    false
}

fn surviving(all: &Vec<&TextEdit>) -> (r: Vec<bool>)
    ensures
        r@.len() == all@.len(),
        forall|i: int| 0 <= i < all@.len() ==> r@[i] == survives(all.deep_view(), i),
{
    let ghost edits = all.deep_view();
    let mut keep: Vec<bool> = Vec::new();
    let mut i: usize = 0;
    while i < all.len()
        invariant
            i <= all@.len(),
            keep@.len() == i,
        decreases all@.len() - i,
    {
        keep.push(true);
        i = i + 1;
    }
    let top = longest_of(all);
    let mut down: usize = 0;
    assert forall|j: int| 0 <= j < all@.len() implies edits[j].old_text.len() <= top by {
        lemma_longest(edits, edits.len() as int, j);
    }
    // Longer texts are decided before shorter ones.
    loop
        invariant
            down <= top,
            edits == all.deep_view(),
            top == longest(edits, edits.len() as int),
            keep@.len() == all@.len(),
            forall|j: int|
                0 <= j < all@.len() && edits[j].old_text.len() > top - down ==> keep@[j]
                    == survives(edits, j),
        decreases top - down,
    {
        let size: usize = top - down;
        let mut i: usize = 0;
        while i < all.len()
            invariant
                i <= all@.len(),
                edits == all.deep_view(),
                keep@.len() == all@.len(),
                forall|j: int|
                    0 <= j < all@.len() && (edits[j].old_text.len() > size || (
                    edits[j].old_text.len() == size && j < i)) ==> keep@[j] == survives(edits, j),
            decreases all@.len() - i,
        {
            if length_of(all, i) == size {
                assert forall|k: int| #[trigger] outranks(edits, k, i as int) implies keep@[k]
                    == survives(edits, k) by {
                    lemma_outranks_is_longer(edits, k, i as int);
                }
                let gone = is_outranked(all, &keep, i);
                keep.set(i, !gone);
            }
            i = i + 1;
        }
        if down == top {
            return keep;
        }
        down = down + 1;
    }
}

fn count_removed(keep: &Vec<bool>, all: &Vec<&TextEdit>) -> (r: usize)
    requires
        keep@.len() == all@.len(),
        forall|i: int| 0 <= i < all@.len() ==> keep@[i] == survives(all.deep_view(), i),
    ensures
        r == removed_count(all.deep_view(), all@.len() as int),
{
    let mut n: usize = 0;
    let mut i: usize = 0;
    while i < keep.len()
        invariant
            i <= keep@.len(),
            n <= i,
            keep@.len() == all@.len(),
            forall|i: int| 0 <= i < all@.len() ==> keep@[i] == survives(all.deep_view(), i),
            n == removed_count(all.deep_view(), i as int),
        decreases keep@.len() - i,
    {
        if !keep[i] {
            n = n + 1;
        }
        i = i + 1;
    }
    n
}

/// The fixes of a file once the edits that do not stay are gone, and how
/// many went.
pub fn deduplicate_fixes(fixes: &Vec<PlannedFix>) -> (r: (Vec<PlannedFix>, usize))
    ensures
        r.0.deep_view() == deduplicated(fixes.deep_view()),
        r.1 == file_removed(fixes.deep_view()),
{
    let all = flatten(fixes);
    let ghost edits = all.deep_view();
    let ghost whole = fixes.deep_view();
    let keep = surviving(&all);
    let removed = count_removed(&keep, &all);
    let mut out: Vec<PlannedFix> = Vec::new();
    let mut from: usize = 0;
    let mut i: usize = 0;
    if removed == 0 {
        while i < fixes.len()
            invariant
                i <= fixes@.len(),
                out@.len() == i,
                forall|k: int| 0 <= k < i ==> (#[trigger] out@[k]).deep_view() == fixes@[k].deep_view(),
            decreases fixes@.len() - i,
        {
            out.push(fixes[i].copy());
            i = i + 1;
        }
        assert(out.deep_view() =~= whole);
        return (out, removed);
    }
    assert(out.deep_view() =~= Seq::<PlannedFixView>::empty());
    while i < fixes.len()
        invariant
            i <= fixes@.len(),
            whole == fixes.deep_view(),
            edits == all_edits(whole, fixes@.len() as int),
            edits == all.deep_view(),
            keep@.len() == edits.len(),
            forall|k: int| 0 <= k < edits.len() ==> keep@[k] == survives(edits, k),
            from == all_edits(whole, i as int).len(),
            from <= edits.len(),
            out.deep_view() == staying_fixes(edits, whole, i as int),
        decreases fixes@.len() - i,
    {
        let fix = &fixes[i];
        assert(whole[i as int] == fix.deep_view());
        proof {
            lemma_all_edits_grow(whole, i + 1, fixes@.len() as int);
        }
        let total: usize = keep.len();
        let ghost list = fix.edits.deep_view();
        let mut left: Vec<TextEdit> = Vec::new();
        let mut j: usize = 0;
        assert(left.deep_view() =~= Seq::<TextEditView>::empty());
        while j < fix.edits.len()
            invariant
                j <= fix.edits@.len(),
                list == fix.edits.deep_view(),
                from + list.len() <= edits.len(),
                total == keep@.len(),
                keep@.len() == edits.len(),
                forall|k: int| 0 <= k < edits.len() ==> keep@[k] == survives(edits, k),
                left.deep_view() == staying(edits, list, from as int, j as int),
            decreases fix.edits@.len() - j,
        {
            assert(list[j as int] == fix.edits@[j as int].deep_view());
            if keep[from + j] {
                append_one(&mut left, fix.edits[j].copy());
            }
            j = j + 1;
        }
        assert(left.deep_view().len() == left@.len());
        from = from + fix.edits.len();
        if left.len() > 0 {
            append_one(&mut out, fix.with_edits(left));
        }
        i = i + 1;
    }
    (out, removed)
}

/// More fixes have no fewer edits.
pub proof fn lemma_all_edits_grow(fixes: Seq<PlannedFixView>, m: int, n: int)
    requires
        0 <= m <= n,
    ensures
        all_edits(fixes, m).len() <= all_edits(fixes, n).len(),
    decreases n,
{
    if m < n {
        lemma_all_edits_grow(fixes, m, n - 1);
    }
}

/// Removes the edits that a more specific edit on the same line makes
/// unnecessary, and counts them.
pub fn deduplicate_edits(plan: &mut FixPlan)
    ensures
        final(plan).deep_view() == deduplicated_plan(old(plan).deep_view()),
        old(plan).files.in_order() ==> final(plan).files.in_order(),
{
    let ghost before = plan.deep_view();
    let mut total: usize = 0;
    let mut i: usize = 0;
    let ghost goal = deduplicated_plan(before);
    while i < plan.files.len()
        invariant
            i <= before.files.len(),
            plan.files.deep_view().len() == before.files.len(),
            goal == deduplicated_plan(before),
            plan.manual.deep_view() == before.manual,
            plan.pending_llm.deep_view() == before.pending_llm,
            forall|k: int| 0 <= k < i ==> #[trigger] plan.files.deep_view()[k] == goal.files[k],
            forall|k: int|
                i <= k < before.files.len() ==> #[trigger] plan.files.deep_view()[k]
                    == before.files[k],
            total == counted(total_removed(before.files, i as int)),
            old(plan).files.in_order() ==> plan.files.in_order(),
        decreases before.files.len() - i,
    {
        let (fixes, removed) = deduplicate_fixes(plan.files.value(i));
        plan.files.set_value(i, fixes);
        total = count_up(total, removed);
        i = i + 1;
    }
    plan.edits_subsumed = total;
    assert(plan.files.deep_view() =~= goal.files);
}

} // verus!
