//! Joining the edits that add dependencies before the same closing brace.

use crate::engine::dedup::all_edits;
use crate::engine::merge::{
    gathered, inserts_at, inserts_before, is_insert, merged_edit, merged_file, merged_fixes,
    new_lines, nonblank,
};
use crate::laws::tables::law_distinct_holds_each_value_once;
use crate::laws::words::{
    is_blank, is_core, is_last_at, law_a_line_feed_ends_a_line,
    law_search_from_the_end_finds_the_last_place, law_trimming,
};
use crate::model::{PlannedFixView, TextEditView};
use crate::paths::name_of;
use crate::text::{begins, has_text, is_space, joined, lines_of, occurs_at, trimmed};
use crate::views::distinct;
use vstd::prelude::*;

verus! {

broadcast use vstd::string::group_string_axioms;

/// The edit adds `entry` on a line of its own before the brace `closing` on
/// `line`.
pub open spec fn adds_entry(
    e: TextEditView,
    line: u32,
    closing: Seq<char>,
    entry: Seq<char>,
) -> bool {
    &&& e.line == line
    &&& e.old_text == closing
    &&& e.new_text == entry + seq!['\n'] + closing
    &&& begins(e.description, "Add "@)
    &&& begins(trimmed(closing), seq!['}'])
    &&& !closing.contains('\n')
    &&& (closing.len() > 0 ==> closing.last() != '\r')
    &&& !entry.contains('\n')
    &&& exists|k: int| 0 <= k < entry.len() && !is_space(#[trigger] entry[k])
    &&& entry.last() != '\r'
}

proof fn lemma_blank_line(line: Seq<char>)
    ensures
        (trimmed(line).len() == 0) == is_blank(line, 0, line.len() as int),
{
    law_trimming(line);
    let (from, to) = choose|from: int, to: int| #[trigger] is_core(line, trimmed(line), from, to);
    if trimmed(line).len() > 0 {
        assert(trimmed(line)[0] == line[from]);
        assert(!is_space(line[from]));
    }
}

proof fn lemma_closing_is_last(entry: Seq<char>, closing: Seq<char>, from: int, to: int)
    requires
        is_core(closing, trimmed(closing), from, to),
        from < to,
        !is_space(trimmed(closing).last()),
    ensures
        is_last_at(
            entry + seq!['\n'] + closing,
            trimmed(closing),
            entry.len() + 1 + from,
        ),
{
    let s = entry + seq!['\n'] + closing;
    let t = trimmed(closing);
    let at = entry.len() + 1 + from;
    assert(s.subrange(at, at + t.len()) =~= closing.subrange(from, to));
    assert forall|j: int| at < j implies !#[trigger] occurs_at(s, t, j) by {
        if occurs_at(s, t, j) {
            let last = j + t.len() - 1;
            assert(s.subrange(j, j + t.len())[t.len() - 1] == s[last]);
            assert(s[last] == closing[last - entry.len() - 1]);
            assert(is_space(closing[last - entry.len() - 1]));
        }
    }
}

/// The line that such an edit inserts is the entry.
proof fn lemma_entry_line(e: TextEditView, line: u32, closing: Seq<char>, entry: Seq<char>)
    requires
        adds_entry(e, line, closing, entry),
    ensures
        inserts_at(e, line, closing),
        new_lines(e) == seq![entry],
{
    reveal_strlit("}");
    assert("}"@ =~= seq!['}']);
    law_trimming(closing);
    let t = trimmed(closing);
    let (from, to) = choose|from: int, to: int| #[trigger] is_core(closing, t, from, to);
    assert(t.len() > 0);
    lemma_closing_is_last(entry, closing, from, to);
    let at = entry.len() + 1 + from;
    law_search_from_the_end_finds_the_last_place(e.new_text, t, at);
    assert(has_text(e.new_text, t));
    let indent = closing.take(from);
    assert(e.new_text.take(at) =~= entry + seq!['\n'] + indent);
    law_a_line_feed_ends_a_line(entry, indent);
    let all = lines_of(e.new_text.take(at));
    assert(all == seq![entry] + lines_of(indent));
    lemma_blank_line(entry);
    assert(trimmed(entry).len() > 0);
    reveal_with_fuel(nonblank, 4);
    lemma_indent_lines(indent);
    lemma_blank_line(indent);
    if indent.len() == 0 {
        assert(all =~= seq![entry]);
    } else {
        assert(all =~= seq![entry, indent]);
    }
    assert(new_lines(e) =~= seq![entry]);
}

proof fn lemma_indent_lines(indent: Seq<char>)
    requires
        is_blank(indent, 0, indent.len() as int),
        !indent.contains('\n'),
    ensures
        indent.len() == 0 ==> lines_of(indent) == Seq::<Seq<char>>::empty(),
        indent.len() > 0 ==> lines_of(indent) == seq![indent],
{
    if indent.len() > 0 {
        assert forall|j: int| 0 <= j < indent.len() implies indent[j] != '\n' by {
            assert(indent.contains(indent[j]));
        }
        lemma_one_line(indent, 0);
        assert(indent.subrange(0, indent.len() as int) =~= indent);
    }
}

proof fn lemma_one_line(s: Seq<char>, i: int)
    requires
        0 <= i <= s.len(),
        forall|j: int| i <= j < s.len() ==> s[j] != '\n',
    ensures
        crate::text::char_pos(s, '\n', i) == s.len(),
    decreases s.len() - i,
{
    if i < s.len() {
        lemma_one_line(s, i + 1);
    }
}

proof fn lemma_gathered(
    edits: Seq<TextEditView>,
    line: u32,
    closing: Seq<char>,
    entries: Seq<Seq<char>>,
    n: int,
)
    requires
        entries.len() == edits.len(),
        0 <= n <= edits.len(),
        forall|k: int|
            0 <= k < edits.len() ==> adds_entry(#[trigger] edits[k], line, closing, entries[k]),
    ensures
        gathered(edits, line, closing, n) == entries.take(n),
        inserts_before(edits, line, closing, n) == n,
    decreases n,
{
    if n > 0 {
        lemma_gathered(edits, line, closing, entries, n - 1);
        lemma_entry_line(edits[n - 1], line, closing, entries[n - 1]);
        assert(gathered(edits, line, closing, n) =~= entries.take(n));
    } else {
        assert(gathered(edits, line, closing, n) =~= entries.take(n));
    }
}

/// Where two or more edits each add an entry before the same brace, the
/// first adds the entries of all of them, each once and in their order, with
/// a comma between them, and the others look for a text of their own that
/// stands for nothing.
pub proof fn law_entries_are_added_together(
    edits: Seq<TextEditView>,
    line: u32,
    closing: Seq<char>,
    entries: Seq<Seq<char>>,
    once: Seq<Seq<char>>,
    i: int,
)
    requires
        edits.len() >= 2,
        entries.len() == edits.len(),
        forall|k: int|
            0 <= k < edits.len() ==> adds_entry(#[trigger] edits[k], line, closing, entries[k]),
        once == distinct(entries, entries.len() as int),
        0 <= i < edits.len(),
    ensures
        once.no_duplicates(),
        forall|k: int| 0 <= k < entries.len() ==> once.contains(#[trigger] entries[k]),
        merged_edit(edits, i).line == line,
        i == 0 ==> merged_edit(edits, i).old_text == closing && merged_edit(edits, i).new_text
            == joined(once, seq![',', '\n']) + seq!['\n'] + closing,
        i > 0 ==> merged_edit(edits, i).old_text == "__MERGED_DEPENDENCY_INSERT__"@,
{
    let n = edits.len() as int;
    lemma_gathered(edits, line, closing, entries, n);
    lemma_gathered(edits, line, closing, entries, i);
    assert(entries.take(n) =~= entries);
    lemma_entry_line(edits[i], line, closing, entries[i]);
    law_distinct_holds_each_value_once(entries, n);
    reveal_strlit(",\n");
    reveal_strlit("\n");
    assert(",\n"@ =~= seq![',', '\n']);
    assert("\n"@ =~= seq!['\n']);
    assert forall|k: int| 0 <= k < entries.len() implies once.contains(#[trigger] entries[k]) by {
        assert(entries.contains(entries[k]));
    }
}

/// An edit that adds no dependency, or is alone before its brace, stays as it
/// is.
pub proof fn law_other_edits_stay(edits: Seq<TextEditView>, i: int)
    requires
        0 <= i < edits.len(),
        !begins(edits[i].description, "Add "@) || !begins(trimmed(edits[i].old_text), "}"@) || forall|
            k: int,
        |
            0 <= k < edits.len() && k != i ==> (#[trigger] edits[k]).line != edits[i].line
                || edits[k].old_text != edits[i].old_text,
    ensures
        merged_edit(edits, i) == edits[i],
{
    if is_insert(edits[i]) {
        lemma_alone(edits, i, edits.len() as int);
    }
}

proof fn lemma_alone(edits: Seq<TextEditView>, i: int, n: int)
    requires
        0 <= i < edits.len(),
        0 <= n <= edits.len(),
        forall|k: int|
            0 <= k < edits.len() && k != i ==> (#[trigger] edits[k]).line != edits[i].line
                || edits[k].old_text != edits[i].old_text,
    ensures
        inserts_before(edits, edits[i].line, edits[i].old_text, n) <= if n > i {
            1int
        } else {
            0
        },
    decreases n,
{
    if n > 0 {
        lemma_alone(edits, i, n - 1);
        if n - 1 != i {
            assert(edits[n - 1].line != edits[i].line || edits[n - 1].old_text
                != edits[i].old_text);
        }
    }
}

/// Joining changes only what edits of a `package.json` look for and put: the
/// fixes, their number, their edits' lines and rules stay, and a file of
/// another name is left alone.
pub proof fn law_joining_keeps_the_fixes(path: Seq<char>, fixes: Seq<PlannedFixView>)
    ensures
        merged_file(path, fixes).len() == fixes.len(),
        name_of(path) != Some("package.json"@) ==> merged_file(path, fixes) == fixes,
        forall|f: int|
            0 <= f < fixes.len() ==> {
                let a = #[trigger] fixes[f];
                let b = merged_file(path, fixes)[f];
                &&& b.line == a.line
                &&& b.rule_id == a.rule_id
                &&& b.file_uri == a.file_uri
                &&& b.confidence == a.confidence
                &&& b.source == a.source
                &&& b.description == a.description
                &&& b.edits.len() == a.edits.len()
                &&& forall|j: int|
                    0 <= j < a.edits.len() ==> (#[trigger] b.edits[j]).line == a.edits[j].line
                        && b.edits[j].rule_id == a.edits[j].rule_id && b.edits[j].replace_all
                        == a.edits[j].replace_all
            },
{
    if name_of(path) == Some("package.json"@) {
        let edits = all_edits(fixes, fixes.len() as int);
        assert forall|f: int| 0 <= f < fixes.len() implies {
            let a = #[trigger] fixes[f];
            let b = merged_fixes(fixes)[f];
            &&& b.edits.len() == a.edits.len()
            &&& forall|j: int|
                0 <= j < a.edits.len() ==> (#[trigger] b.edits[j]).line == a.edits[j].line
                    && b.edits[j].rule_id == a.edits[j].rule_id && b.edits[j].replace_all
                    == a.edits[j].replace_all
        } by {
            let a = fixes[f];
            let b = merged_fixes(fixes)[f];
            let from = all_edits(fixes, f).len();
            assert forall|j: int| 0 <= j < a.edits.len() implies (#[trigger] b.edits[j]).line
                == a.edits[j].line && b.edits[j].rule_id == a.edits[j].rule_id
                && b.edits[j].replace_all == a.edits[j].replace_all by {
                lemma_edit_at(fixes, fixes.len() as int, f, j);
                assert(b.edits[j] == merged_edit(edits, from + j));
            }
        }
    }
}

proof fn lemma_edit_at(fixes: Seq<PlannedFixView>, n: int, f: int, j: int)
    requires
        0 <= f < n <= fixes.len(),
        0 <= j < fixes[f].edits.len(),
    ensures
        all_edits(fixes, f).len() + j < all_edits(fixes, n).len(),
        all_edits(fixes, n)[all_edits(fixes, f).len() + j] == fixes[f].edits[j],
    decreases n,
{
    if f < n - 1 {
        lemma_edit_at(fixes, n - 1, f, j);
    }
}

} // verus!
