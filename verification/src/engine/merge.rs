//! Joining the edits that insert dependencies before the same closing
//! brace of a `package.json`, and putting fixes in the order in which they
//! are applied.

use crate::engine::dedup::{all_edits, flatten};
use crate::model::{FixPlan, FixPlanView, PlannedFix, PlannedFixView, TextEdit, TextEditView};
use crate::paths::{file_name, name_of};
use crate::text::{
    begins, cat3, chars_of, contains, decimal, decimal_of, has_text, join, joined, lines, lines_of,
    owned, piece, rfind, rfind_text, same, starts_with, trim, trimmed,
};
use crate::views::{append_all, append_one, distinct, distinct_texts};
use vstd::prelude::*;

verus! {

broadcast use vstd::string::group_string_axioms;

/// The edit inserts a dependency before a closing brace.
pub open spec fn is_insert(e: TextEditView) -> bool {
    &&& begins(e.description, "Add "@)
    &&& begins(trimmed(e.old_text), "}"@)
    &&& has_text(e.new_text, trimmed(e.old_text))
}

/// The edit inserts a dependency before the closing brace `old` on `line`.
pub open spec fn inserts_at(e: TextEditView, line: u32, old: Seq<char>) -> bool {
    is_insert(e) && e.line == line && e.old_text == old
}

/// How many of the first `n` edits insert before that brace.
pub open spec fn inserts_before(
    edits: Seq<TextEditView>,
    line: u32,
    old: Seq<char>,
    n: int,
) -> nat
    decreases n,
{
    if n <= 0 {
        0
    } else if inserts_at(edits[n - 1], line, old) {
        inserts_before(edits, line, old, n - 1) + 1
    } else {
        inserts_before(edits, line, old, n - 1)
    }
}

/// Those of the first `n` lines that are not blank.
pub open spec fn nonblank(all: Seq<Seq<char>>, n: int) -> Seq<Seq<char>>
    decreases n,
{
    if n <= 0 {
        Seq::empty()
    } else if trimmed(all[n - 1]).len() > 0 {
        nonblank(all, n - 1).push(all[n - 1])
    } else {
        nonblank(all, n - 1)
    }
}

/// The lines that an edit inserts: what stands in its new text before the
/// last closing brace, without blank lines.
pub open spec fn new_lines(e: TextEditView) -> Seq<Seq<char>> {
    match rfind_text(e.new_text, trimmed(e.old_text)) {
        Some(pos) => {
            let all = lines_of(e.new_text.take(pos));
            nonblank(all, all.len() as int)
        },
        None => Seq::empty(),
    }
}

/// The lines that those of the first `n` edits insert that insert before the
/// brace `old` on `line`.
pub open spec fn gathered(
    edits: Seq<TextEditView>,
    line: u32,
    old: Seq<char>,
    n: int,
) -> Seq<Seq<char>>
    decreases n,
{
    if n <= 0 {
        Seq::empty()
    } else if inserts_at(edits[n - 1], line, old) {
        gathered(edits, line, old, n - 1) + new_lines(edits[n - 1])
    } else {
        gathered(edits, line, old, n - 1)
    }
}

/// What becomes of edit `i`. Where several edits insert before the same
/// brace, the first one inserts the lines of all of them, each once, and
/// the others look for a text that no line holds.
pub open spec fn merged_edit(edits: Seq<TextEditView>, i: int) -> TextEditView {
    let e = edits[i];
    let n = edits.len() as int;
    let every = gathered(edits, e.line, e.old_text, n);
    let once = distinct(every, every.len() as int);
    if !is_insert(e) || inserts_before(edits, e.line, e.old_text, n) <= 1 || every.len() == 0 {
        e
    } else if inserts_before(edits, e.line, e.old_text, i) == 0 {
        TextEditView {
            new_text: joined(once, ",\n"@) + "\n"@ + e.old_text,
            description: "Add "@ + decimal(once.len()) + " dependencies to package.json"@,
            ..e
        }
    } else {
        TextEditView { old_text: "__MERGED_DEPENDENCY_INSERT__"@, ..e }
    }
}

/// The fixes of a `package.json` with their inserts merged.
pub open spec fn merged_fixes(fixes: Seq<PlannedFixView>) -> Seq<PlannedFixView> {
    let edits = all_edits(fixes, fixes.len() as int);
    Seq::new(
        fixes.len(),
        |f: int|
            PlannedFixView {
                edits: Seq::new(
                    fixes[f].edits.len(),
                    |j: int| merged_edit(edits, all_edits(fixes, f).len() + j),
                ),
                ..fixes[f]
            },
    )
}

/// The fixes of a file with their inserts merged, where the file is a
/// `package.json`.
pub open spec fn merged_file(path: Seq<char>, fixes: Seq<PlannedFixView>) -> Seq<PlannedFixView> {
    if name_of(path) == Some("package.json"@) {
        merged_fixes(fixes)
    } else {
        fixes
    }
}

fn check_insert(e: &TextEdit) -> (r: bool)
    ensures
        r == is_insert(e.deep_view()),
{
    let closing = trim(e.old_text.as_str());
    starts_with(e.description.as_str(), "Add ") && starts_with(closing, "}") && contains(
        e.new_text.as_str(),
        closing,
    )
}

fn lines_inserted(e: &TextEdit) -> (r: Vec<String>)
    ensures
        r.deep_view() == new_lines(e.deep_view()),
{
    let new_text = chars_of(e.new_text.as_str());
    let closing = chars_of(trim(e.old_text.as_str()));
    let mut out: Vec<String> = Vec::new();
    assert(out.deep_view() =~= Seq::<Seq<char>>::empty());
    match rfind(&new_text, &closing) {
        Some(pos) => {
            let before = piece(&new_text, 0, pos);
            assert(before@ =~= e.new_text@.take(pos as int));
            let all = lines(before.as_str());
            let mut i: usize = 0;
            while i < all.len()
                invariant
                    i <= all@.len(),
                    out.deep_view() == nonblank(all.deep_view(), i as int),
                decreases all@.len() - i,
            {
                assert(all.deep_view()[i as int] == all@[i as int]@);
                if trim(all[i].as_str()).unicode_len() > 0 {
                    append_one(&mut out, all[i].clone());
                }
                i = i + 1;
            }
            out
        },
        None => out,
    }
}

fn merge_one(all: &Vec<&TextEdit>, i: usize) -> (r: TextEdit)
    requires
        i < all@.len(),
    ensures
        r.deep_view() == merged_edit(all.deep_view(), i as int),
{
    let e = all[i];
    let ghost edits = all.deep_view();
    assert(edits[i as int] == e.deep_view());
    if !check_insert(e) {
        return e.copy();
    }
    let mut count: usize = 0;
    let mut earlier: usize = 0;
    let mut every: Vec<String> = Vec::new();
    let mut k: usize = 0;
    assert(every.deep_view() =~= Seq::<Seq<char>>::empty());
    while k < all.len()
        invariant
            k <= all@.len(),
            i < all@.len(),
            edits == all.deep_view(),
            edits[i as int] == e.deep_view(),
            count <= k,
            count == inserts_before(edits, e.line, e.old_text@, k as int),
            k <= i ==> earlier == count,
            k > i ==> earlier == inserts_before(edits, e.line, e.old_text@, i as int),
            every.deep_view() == gathered(edits, e.line, e.old_text@, k as int),
        decreases all@.len() - k,
    {
        let other = all[k];
        assert(edits[k as int] == other.deep_view());
        if check_insert(other) && other.line == e.line && same(
            other.old_text.as_str(),
            e.old_text.as_str(),
        ) {
            count = count + 1;
            append_all(&mut every, lines_inserted(other));
        }
        k = k + 1;
        if k <= i {
            earlier = count;
        }
    }
    assert(every.deep_view().len() == every@.len());
    if count <= 1 || every.len() == 0 {
        return e.copy();
    }
    let mut merged = e.copy();
    if earlier == 0 {
        let once = distinct_texts(&every);
        let body = join(&once, ",\n");
        merged.new_text = cat3(body.as_str(), "\n", e.old_text.as_str());
        let number = decimal_of(once.len() as u64);
        merged.description = cat3("Add ", number.as_str(), " dependencies to package.json");
        assert(once.deep_view().len() == once@.len());
    } else {
        merged.old_text = owned("__MERGED_DEPENDENCY_INSERT__");
    }
    merged
}

/// The fixes of a `package.json` with their inserts merged.
pub fn merge_fixes(fixes: &Vec<PlannedFix>) -> (r: Vec<PlannedFix>)
    ensures
        r.deep_view() == merged_fixes(fixes.deep_view()),
{
    let all = flatten(fixes);
    let ghost whole = fixes.deep_view();
    let ghost edits = all.deep_view();
    let ghost goal = merged_fixes(whole);
    let mut out: Vec<PlannedFix> = Vec::new();
    let mut from: usize = 0;
    let mut i: usize = 0;
    while i < fixes.len()
        invariant
            i <= fixes@.len(),
            whole == fixes.deep_view(),
            edits == all.deep_view(),
            edits == all_edits(whole, fixes@.len() as int),
            goal == merged_fixes(whole),
            from == all_edits(whole, i as int).len(),
            from <= edits.len(),
            out@.len() == i,
            forall|k: int| 0 <= k < i ==> (#[trigger] out@[k]).deep_view() == goal[k],
        decreases fixes@.len() - i,
    {
        let fix = &fixes[i];
        assert(whole[i as int] == fix.deep_view());
        proof {
            crate::engine::dedup::lemma_all_edits_grow(whole, i + 1, fixes@.len() as int);
        }
        let total: usize = all.len();
        assert(all.deep_view().len() == total);
        let mut list: Vec<TextEdit> = Vec::new();
        let mut j: usize = 0;
        while j < fix.edits.len()
            invariant
                j <= fix.edits@.len(),
                total == all@.len(),
                edits == all.deep_view(),
                from + fix.edits@.len() <= all@.len(),
                list@.len() == j,
                forall|k: int|
                    0 <= k < j ==> (#[trigger] list@[k]).deep_view() == merged_edit(
                        edits,
                        from + k,
                    ),
            decreases fix.edits@.len() - j,
        {
            list.push(merge_one(&all, from + j));
            j = j + 1;
        }
        assert(list.deep_view() =~= goal[i as int].edits);
        from = from + fix.edits.len();
        out.push(fix.with_edits(list));
        i = i + 1;
    }
    assert(out.deep_view() =~= goal);
    out
}

/// The plan with the dependency inserts of each `package.json` merged.
pub open spec fn merged_plan(plan: FixPlanView) -> FixPlanView {
    FixPlanView {
        files: Seq::new(
            plan.files.len(),
            |i: int| (plan.files[i].0, merged_file(plan.files[i].0, plan.files[i].1)),
        ),
        ..plan
    }
}

/// Merges the edits that insert dependencies before the same closing brace
/// of a `package.json`.
pub fn merge_dependency_inserts(plan: &mut FixPlan)
    ensures
        final(plan).deep_view() == merged_plan(old(plan).deep_view()),
        old(plan).files.in_order() ==> final(plan).files.in_order(),
{
    let ghost before = plan.deep_view();
    let ghost goal = merged_plan(before);
    let mut i: usize = 0;
    while i < plan.files.len()
        invariant
            i <= before.files.len(),
            plan.files.deep_view().len() == before.files.len(),
            goal == merged_plan(before),
            plan.manual.deep_view() == before.manual,
            plan.pending_llm.deep_view() == before.pending_llm,
            plan.edits_subsumed == before.edits_subsumed,
            forall|k: int| 0 <= k < i ==> #[trigger] plan.files.deep_view()[k] == goal.files[k],
            forall|k: int|
                i <= k < before.files.len() ==> #[trigger] plan.files.deep_view()[k]
                    == before.files[k],
            old(plan).files.in_order() ==> plan.files.in_order(),
        decreases before.files.len() - i,
    {
        let is_manifest = match file_name(plan.files.key(i).as_str()) {
            Some(name) => same(name.as_str(), "package.json"),
            None => false,
        };
        if is_manifest {
            let fixes = merge_fixes(plan.files.value(i));
            plan.files.set_value(i, fixes);
        }
        i = i + 1;
    }
    assert(plan.files.deep_view() =~= goal.files);
}

// ---------------------------------------------------------------------
// Order of application
// ---------------------------------------------------------------------

/// The first place from `i` on whose fix is on a line above that of `x`.
pub open spec fn line_place(s: Seq<PlannedFixView>, x: PlannedFixView, i: int) -> int
    decreases s.len() - i,
{
    if 0 <= i < s.len() && s[i].line >= x.line {
        line_place(s, x, i + 1)
    } else {
        i
    }
}

/// The first `n` fixes, those on later lines first; fixes on the same line
/// keep their order.
pub open spec fn by_line(fixes: Seq<PlannedFixView>, n: int) -> Seq<PlannedFixView>
    decreases n,
{
    if n <= 0 {
        Seq::empty()
    } else {
        let sorted = by_line(fixes, n - 1);
        sorted.insert(line_place(sorted, fixes[n - 1], 0), fixes[n - 1])
    }
}

/// The fixes, those on later lines first.
pub fn sort_by_line(fixes: &Vec<PlannedFix>) -> (r: Vec<PlannedFix>)
    ensures
        r.deep_view() == by_line(fixes.deep_view(), fixes@.len() as int),
{
    let mut out: Vec<PlannedFix> = Vec::new();
    let mut n: usize = 0;
    assert(out.deep_view() =~= Seq::<PlannedFixView>::empty());
    while n < fixes.len()
        invariant
            n <= fixes@.len(),
            out.deep_view() == by_line(fixes.deep_view(), n as int),
        decreases fixes@.len() - n,
    {
        let x = fixes[n].copy();
        let ghost sorted = out.deep_view();
        assert(fixes.deep_view()[n as int] == x.deep_view());
        let mut i: usize = 0;
        while i < out.len() && out[i].line >= x.line
            invariant
                i <= out@.len(),
                sorted == out.deep_view(),
                line_place(sorted, x.deep_view(), 0) == line_place(sorted, x.deep_view(), i as int),
            decreases out@.len() - i,
        {
            assert(sorted[i as int] == out@[i as int].deep_view());
            i = i + 1;
        }
        assert(i < out@.len() ==> sorted[i as int] == out@[i as int].deep_view());
        let ghost xv = x.deep_view();
        out.insert(i, x);
        assert(out.deep_view() =~= sorted.insert(i as int, xv));
        n = n + 1;
    }
    out
}

/// The plan with the fixes of each file in the order of application.
pub open spec fn ordered_plan(plan: FixPlanView) -> FixPlanView {
    FixPlanView {
        files: Seq::new(
            plan.files.len(),
            |i: int| (plan.files[i].0, by_line(plan.files[i].1, plan.files[i].1.len() as int)),
        ),
        ..plan
    }
}

/// Puts the fixes of each file in the order of application: from the bottom
/// of the file up.
pub fn order_fixes(plan: &mut FixPlan)
    ensures
        final(plan).deep_view() == ordered_plan(old(plan).deep_view()),
        old(plan).files.in_order() ==> final(plan).files.in_order(),
{
    let ghost before = plan.deep_view();
    let ghost goal = ordered_plan(before);
    let mut i: usize = 0;
    while i < plan.files.len()
        invariant
            i <= before.files.len(),
            plan.files.deep_view().len() == before.files.len(),
            goal == ordered_plan(before),
            plan.manual.deep_view() == before.manual,
            plan.pending_llm.deep_view() == before.pending_llm,
            plan.edits_subsumed == before.edits_subsumed,
            forall|k: int| 0 <= k < i ==> #[trigger] plan.files.deep_view()[k] == goal.files[k],
            forall|k: int|
                i <= k < before.files.len() ==> #[trigger] plan.files.deep_view()[k]
                    == before.files[k],
            old(plan).files.in_order() ==> plan.files.in_order(),
        decreases before.files.len() - i,
    {
        let fixes = sort_by_line(plan.files.value(i));
        plan.files.set_value(i, fixes);
        i = i + 1;
    }
    assert(plan.files.deep_view() =~= goal.files);
}

} // verus!
