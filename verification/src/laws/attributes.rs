//! Removing a JSX attribute: which lines become empty, and how brackets are
//! counted.

use crate::engine::apply::{applied_file, edited_line, line_index, progress, repeated};
use crate::engine::dedup::all_edits;
use crate::js::props::{
    closing_line, net_depth, prop_pattern, removal_outcome, removed_lines, scan, scan_step, Scan,
};
use crate::model::{FixConfidence, PlannedFixView, TextEditView};
use crate::pattern::{is_pattern, regex_found};
use crate::report::{text_var, IncidentView};
use crate::text::{
    begins, find_from, has_text, lemma_has_text_reflexive, lines_of, occurs_at, trimmed,
};
use vstd::prelude::*;

verus! {

broadcast use vstd::string::group_string_axioms;

/// The planned removal of an attribute from the file `source`.
pub open spec fn removal_of(
    rule_id: Seq<char>,
    incident: IncidentView,
    source: Seq<char>,
) -> Option<PlannedFixView> {
    removal_outcome(rule_id, incident, Ok(source)).fix
}

/// The attribute is to be removed from line `idx` of the file.
pub open spec fn removes_at(
    incident: IncidentView,
    prop: Seq<char>,
    source: Seq<char>,
    idx: int,
) -> bool {
    &&& incident.line_number is Some
    &&& text_var(incident, "propName"@) == Some(prop)
    &&& idx == line_index(incident.line_number->Some_0)
    &&& 0 <= idx < lines_of(source).len() <= u32::MAX
}

/// The lines from `from` up to `to` are empty now, and all others as before.
pub open spec fn emptied(
    before: Seq<Seq<char>>,
    after: Seq<Seq<char>>,
    from: int,
    to: int,
) -> bool {
    &&& after.len() == before.len()
    &&& forall|k: int|
        0 <= k < before.len() ==> #[trigger] after[k] == if from <= k < to {
            Seq::empty()
        } else {
            before[k]
        }
}

proof fn lemma_whole_line_goes(text: Seq<char>, e: TextEditView)
    requires
        e.old_text == text,
        e.new_text == Seq::<char>::empty(),
        !e.replace_all,
    ensures
        has_text(text, e.old_text),
        edited_line(text, e) == Seq::<char>::empty(),
{
    lemma_has_text_reflexive(text);
    assert(text.subrange(0, text.len() as int) =~= text);
    assert(occurs_at(text, text, 0));
    assert(find_from(text, text, 0) == Some(0int));
    assert(edited_line(text, e) =~= Seq::empty());
}

/// An attribute that begins a line whose brackets balance takes the whole
/// line with it: applied to the file, the removal leaves that line empty and
/// every other line as it was.
pub proof fn law_attribute_on_its_own_line_empties_the_line(
    rule_id: Seq<char>,
    incident: IncidentView,
    prop: Seq<char>,
    path: Seq<char>,
    source: Seq<char>,
    idx: int,
)
    requires
        removes_at(incident, prop, source, idx),
        begins(trimmed(lines_of(source)[idx]), prop),
        net_depth(lines_of(source)[idx]) == 0,
    ensures
        removal_of(rule_id, incident, source) matches Some(fix) && {
            &&& fix.edits.len() == 1
            &&& fix.edits[0].line == incident.line_number->Some_0
            &&& fix.edits[0].old_text == lines_of(source)[idx]
            &&& fix.edits[0].new_text == Seq::<char>::empty()
            &&& fix.confidence == FixConfidence::High
            &&& emptied(
                lines_of(source),
                applied_file(path, source, seq![fix]).lines,
                idx,
                idx + 1,
            )
            &&& applied_file(path, source, seq![fix]).applied == 1
            &&& applied_file(path, source, seq![fix]).failed.len() == 0
        },
{
    let all = lines_of(source);
    let fix = removal_of(rule_id, incident, source)->Some_0;
    let fixes = seq![fix];
    reveal_with_fuel(all_edits, 2);
    assert(all_edits(fixes, 1) =~= fix.edits);
    lemma_whole_line_goes(all[idx], fix.edits[0]);
    reveal_with_fuel(progress, 2);
    assert(!repeated(fix.edits, 0));
}

/// The brackets that the lines from `from` up to `to` open more than they
/// close.
pub open spec fn depth_over(all: Seq<Seq<char>>, from: int, to: int) -> int
    decreases to - from,
{
    if to <= from {
        0
    } else {
        depth_over(all, from, to - 1) + net_depth(all[to - 1])
    }
}

/// A value that starts on line `from` ends on line `end`: there, and on no
/// line between, as many brackets are closed as were opened.
pub open spec fn value_ends(all: Seq<Seq<char>>, from: int, end: int) -> bool {
    &&& from < end < all.len()
    &&& depth_over(all, from, end + 1) <= 0
    &&& forall|k: int| from < k < end ==> #[trigger] depth_over(all, from, k + 1) > 0
}

proof fn lemma_closing(all: Seq<Seq<char>>, from: int, i: int, end: int)
    requires
        0 <= from <= i < end,
        value_ends(all, from, end),
    ensures
        closing_line(all, i, depth_over(all, from, i + 1)) == (end, depth_over(all, from, end + 1)),
    decreases end - i,
{
    assert(depth_over(all, from, i + 2) == depth_over(all, from, i + 1) + net_depth(all[i + 1]));
    if i + 1 < end {
        assert(depth_over(all, from, (i + 1) + 1) > 0);
        lemma_closing(all, from, i + 1, end);
    }
}

proof fn lemma_never_closing(all: Seq<Seq<char>>, from: int, i: int)
    requires
        0 <= from <= i < all.len(),
        forall|k: int| from < k < all.len() ==> #[trigger] depth_over(all, from, k + 1) > 0,
    ensures
        closing_line(all, i, depth_over(all, from, i + 1)) == (
            all.len() - 1,
            depth_over(all, from, all.len() as int),
        ),
    decreases all.len() - i,
{
    if i + 1 < all.len() {
        assert(depth_over(all, from, (i + 1) + 1) > 0);
        lemma_never_closing(all, from, i + 1);
    }
}

proof fn lemma_removed_lines(
    rule_id: Seq<char>,
    prop: Seq<char>,
    all: Seq<Seq<char>>,
    first: int,
    to: int,
)
    requires
        0 <= first <= to <= all.len() <= u32::MAX,
    ensures
        removed_lines(rule_id, prop, all, first, to).len() == to - first,
        forall|k: int|
            0 <= k < to - first ==> {
                let e = #[trigger] removed_lines(rule_id, prop, all, first, to)[k];
                &&& e.line == first + k + 1
                &&& e.old_text == all[first + k]
                &&& e.new_text == Seq::<char>::empty()
                &&& !e.replace_all
            },
    decreases to - first,
{
    if first < to {
        lemma_removed_lines(rule_id, prop, all, first, to - 1);
        let before = removed_lines(rule_id, prop, all, first, to - 1);
        let now = removed_lines(rule_id, prop, all, first, to);
        assert forall|k: int| 0 <= k < to - first implies {
            let e = #[trigger] now[k];
            &&& e.line == first + k + 1
            &&& e.old_text == all[first + k]
            &&& e.new_text == Seq::<char>::empty()
            &&& !e.replace_all
        } by {
            if k < before.len() {
                assert(now[k] == before[k]);
            }
        }
    }
}

proof fn lemma_lines_go(
    path: Seq<char>,
    all: Seq<Seq<char>>,
    edits: Seq<TextEditView>,
    first: int,
    n: int,
)
    requires
        0 <= n <= edits.len(),
        0 <= first,
        first + edits.len() <= all.len() <= u32::MAX,
        forall|k: int|
            0 <= k < edits.len() ==> {
                let e = #[trigger] edits[k];
                &&& e.line == first + k + 1
                &&& e.old_text == all[first + k]
                &&& e.new_text == Seq::<char>::empty()
                &&& !e.replace_all
            },
    ensures
        emptied(all, progress(path, all, edits, n).lines, first, first + n),
        progress(path, all, edits, n).applied == n,
        progress(path, all, edits, n).failed.len() == 0,
    decreases n,
{
    if n > 0 {
        lemma_lines_go(path, all, edits, first, n - 1);
        let before = progress(path, all, edits, n - 1);
        let e = edits[n - 1];
        assert(!repeated(edits, n - 1)) by {
            if repeated(edits, n - 1) {
                let k = choose|k: int|
                    0 <= k < n - 1 && (#[trigger] edits[k]).line == edits[n - 1].line
                        && edits[k].old_text == edits[n - 1].old_text && edits[k].new_text
                        == edits[n - 1].new_text;
                assert(edits[k].line == first + k + 1);
            }
        }
        assert(before.lines[first + n - 1] == all[first + n - 1]);
        lemma_whole_line_goes(all[first + n - 1], e);
    }
}

/// An attribute that begins a line and whose value spreads over more lines
/// takes with it every line up to the one on which its brackets are closed:
/// applied to the file, the removal leaves these lines empty and every other
/// line as it was.
pub proof fn law_attribute_over_many_lines_empties_them(
    rule_id: Seq<char>,
    incident: IncidentView,
    prop: Seq<char>,
    path: Seq<char>,
    source: Seq<char>,
    idx: int,
    end: int,
)
    requires
        removes_at(incident, prop, source, idx),
        begins(trimmed(lines_of(source)[idx]), prop),
        net_depth(lines_of(source)[idx]) != 0,
        value_ends(lines_of(source), idx, end),
    ensures
        removal_of(rule_id, incident, source) matches Some(fix) && {
            &&& fix.edits.len() == end + 1 - idx
            &&& fix.confidence == FixConfidence::High
            &&& emptied(
                lines_of(source),
                applied_file(path, source, seq![fix]).lines,
                idx,
                end + 1,
            )
            &&& applied_file(path, source, seq![fix]).failed.len() == 0
        },
{
    let all = lines_of(source);
    reveal_with_fuel(depth_over, 2);
    assert(depth_over(all, idx, idx + 1) == net_depth(all[idx]));
    lemma_closing(all, idx, idx, end);
    lemma_removed_lines(rule_id, prop, all, idx, end + 1);
    let fix = removal_of(rule_id, incident, source)->Some_0;
    let fixes = seq![fix];
    reveal_with_fuel(all_edits, 2);
    assert(all_edits(fixes, 1) =~= fix.edits);
    lemma_lines_go(path, all, fix.edits, idx, fix.edits.len() as int);
}

/// An attribute that begins a line and whose brackets are never closed is
/// left to a person: the fix makes no edit.
pub proof fn law_unclosed_attribute_is_left_alone(
    rule_id: Seq<char>,
    incident: IncidentView,
    prop: Seq<char>,
    source: Seq<char>,
    idx: int,
)
    requires
        removes_at(incident, prop, source, idx),
        begins(trimmed(lines_of(source)[idx]), prop),
        net_depth(lines_of(source)[idx]) > 0,
        forall|k: int|
            idx < k < lines_of(source).len() ==> #[trigger] depth_over(
                lines_of(source),
                idx,
                k + 1,
            ) > 0,
    ensures
        removal_of(rule_id, incident, source) matches Some(fix) && fix.edits.len() == 0
            && fix.confidence == FixConfidence::Low,
{
    let all = lines_of(source);
    reveal_with_fuel(depth_over, 2);
    assert(depth_over(all, idx, idx + 1) == net_depth(all[idx]));
    lemma_never_closing(all, idx, idx);
    if idx + 1 < all.len() {
        assert(depth_over(all, idx, (all.len() - 1) + 1) > 0);
    }
}

/// An attribute among other things on its line: white space, the name and a
/// value are searched for, and what is found goes where its brackets
/// balance; otherwise the fix makes no edit.
pub proof fn law_inline_attribute_goes_as_found(
    rule_id: Seq<char>,
    incident: IncidentView,
    prop: Seq<char>,
    source: Seq<char>,
    idx: int,
    pattern: Seq<char>,
)
    requires
        removes_at(incident, prop, source, idx),
        !begins(trimmed(lines_of(source)[idx]), prop),
        pattern == r"\s+"@ + prop + r#"(?:=\{[^}]*\}|="[^"]*"|='[^']*'|=\{.*?\})?"#@,
    ensures
        !is_pattern(pattern) ==> removal_of(rule_id, incident, source) is None,
        is_pattern(pattern) ==> (removal_of(rule_id, incident, source) matches Some(fix)
            && match regex_found(pattern, lines_of(source)[idx]) {
            Some((before, found, after)) => if net_depth(found) == 0 {
                &&& fix.edits.len() == 1
                &&& fix.edits[0].line == incident.line_number->Some_0
                &&& fix.edits[0].old_text == found
                &&& fix.edits[0].new_text == Seq::<char>::empty()
                &&& !fix.edits[0].replace_all
                &&& fix.confidence == FixConfidence::High
            } else {
                fix.edits.len() == 0 && fix.confidence == FixConfidence::Low
            },
            None => fix.edits.len() == 0 && fix.confidence == FixConfidence::Low,
        }),
{
    assert(pattern == prop_pattern(prop));
}

// ---------------------------------------------------------------------
// Brackets
// ---------------------------------------------------------------------

/// How many of the first `n` characters open a bracket, less those that
/// close one.
pub open spec fn opened(s: Seq<char>, n: int) -> int
    decreases n,
{
    if n <= 0 {
        0
    } else if s[n - 1] == '(' || s[n - 1] == '[' || s[n - 1] == '{' {
        opened(s, n - 1) + 1
    } else if s[n - 1] == ')' || s[n - 1] == ']' || s[n - 1] == '}' {
        opened(s, n - 1) - 1
    } else {
        opened(s, n - 1)
    }
}

pub open spec fn is_quote(c: char) -> bool {
    c == '"' || c == '\'' || c == '`'
}

pub open spec fn has_no_quotes(s: Seq<char>) -> bool {
    forall|i: int| 0 <= i < s.len() ==> !is_quote(#[trigger] s[i])
}

proof fn lemma_plain_scan(s: Seq<char>, n: int)
    requires
        0 <= n <= s.len(),
        has_no_quotes(s),
    ensures
        scan(s, n).depth == opened(s, n),
        !scan(s, n).single && !scan(s, n).double && !scan(s, n).back,
        n > 0 ==> scan(s, n).prev == s[n - 1],
    decreases n,
{
    if n > 0 {
        lemma_plain_scan(s, n - 1);
        assert(!is_quote(s[n - 1]));
    }
}

/// On a line without quotes the depth is the number of opening brackets less
/// the number of closing ones.
pub proof fn law_depth_counts_brackets(s: Seq<char>)
    requires
        has_no_quotes(s),
    ensures
        net_depth(s) == opened(s, s.len() as int),
{
    lemma_plain_scan(s, s.len() as int);
}

/// The scan of a prefix is the scan of the whole, so far.
proof fn lemma_scan_prefix(a: Seq<char>, b: Seq<char>, n: int)
    requires
        0 <= n <= a.len(),
    ensures
        scan(a + b, n) == scan(a, n),
    decreases n,
{
    if n > 0 {
        lemma_scan_prefix(a, b, n - 1);
        assert((a + b)[n - 1] == a[n - 1]);
    }
}

spec fn quote_is_open(s: Scan, q: char) -> bool {
    &&& s.single == (q == '\'')
    &&& s.double == (q == '"')
    &&& s.back == (q == '`')
}

/// Inside quotes nothing counts.
proof fn lemma_scan_quoted(a: Seq<char>, q: char, inner: Seq<char>, rest: Seq<char>, n: int)
    requires
        is_quote(q),
        has_no_quotes(a),
        a.len() > 0 ==> a.last() != '\\',
        !inner.contains(q),
        0 <= n <= inner.len(),
    ensures
        ({
            let s = a.push(q) + inner + rest;
            let at = scan(s, a.len() + 1 + n);
            &&& at.depth == opened(a, a.len() as int)
            &&& quote_is_open(at, q)
            &&& at.prev == if n == 0 {
                q
            } else {
                inner[n - 1]
            }
        }),
    decreases n,
{
    let s = a.push(q) + inner + rest;
    if n == 0 {
        lemma_plain_scan(a, a.len() as int);
        lemma_scan_prefix(a, seq![q] + inner + rest, a.len() as int);
        assert(a + (seq![q] + inner + rest) =~= s);
        assert(s[a.len() as int] == q);
        assert(scan(s, a.len() as int + 1) == scan_step(scan(s, a.len() as int), q));
        if a.len() == 0 {
            assert(scan(s, 0).prev == '\0');
        }
    } else {
        lemma_scan_quoted(a, q, inner, rest, n - 1);
        assert(s[a.len() + n] == inner[n - 1]);
        assert(inner.contains(inner[n - 1]));
        assert(scan(s, a.len() + 1 + n) == scan_step(scan(s, a.len() + n), inner[n - 1]));
    }
}

proof fn lemma_scan_after(s: Seq<char>, from: int, b: Seq<char>, n: int)
    requires
        0 <= from,
        from + b.len() == s.len(),
        s.skip(from) == b,
        has_no_quotes(b),
        0 <= n <= b.len(),
        !scan(s, from).single && !scan(s, from).double && !scan(s, from).back,
    ensures
        scan(s, from + n).depth == scan(s, from).depth + opened(b, n),
        !scan(s, from + n).single && !scan(s, from + n).double && !scan(s, from + n).back,
    decreases n,
{
    if n > 0 {
        lemma_scan_after(s, from, b, n - 1);
        assert(s[from + n - 1] == s.skip(from)[n - 1]);
        assert(!is_quote(b[n - 1]));
    }
}

/// Brackets between quotes do not count: of `a "inner" b` only the brackets
/// of `a` and `b` do, whatever the kind of the quotes.
pub proof fn law_quoted_brackets_do_not_count(
    a: Seq<char>,
    q: char,
    inner: Seq<char>,
    b: Seq<char>,
)
    requires
        is_quote(q),
        has_no_quotes(a),
        a.len() > 0 ==> a.last() != '\\',
        !inner.contains(q),
        inner.len() > 0 ==> inner.last() != '\\',
        has_no_quotes(b),
    ensures
        net_depth(a.push(q) + inner + seq![q] + b) == opened(a, a.len() as int) + opened(
            b,
            b.len() as int,
        ),
{
    let rest = seq![q] + b;
    let s = a.push(q) + inner + rest;
    assert(s =~= a.push(q) + inner + seq![q] + b);
    let n = inner.len() as int;
    lemma_scan_quoted(a, q, inner, rest, n);
    let from = a.len() + n + 2;
    assert(s[from - 1] == q);
    assert(scan(s, from) == scan_step(scan(s, from - 1), q));
    assert(s.skip(from) =~= b);
    lemma_scan_after(s, from, b, b.len() as int);
}

} // verus!
