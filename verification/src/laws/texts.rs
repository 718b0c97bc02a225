//! Texts and their lines.

use crate::engine::apply::{edited_line, text_of_lines};
use crate::model::TextEditView;
use crate::text::{
    char_pos, ends, find_from, has_text, joined, lemma_char_pos, lemma_find_from,
    lemma_has_text_is_found, lemma_replace_absent, lines_from, lines_of, occurs_at, replaced,
    replaced_first, replaced_from, spread,
};
use vstd::prelude::*;

verus! {

broadcast use vstd::string::group_string_axioms;

proof fn lemma_holds_middle(a: Seq<char>, b: Seq<char>, c: Seq<char>)
    ensures
        has_text(a + b + c, b),
{
    let s = a + b + c;
    assert(s.subrange(a.len() as int, (a.len() + b.len()) as int) =~= b);
    assert(occurs_at(s, b, a.len() as int));
}

/// Where a text is found and replaced, the new text stands in the result.
pub proof fn law_replacing_leaves_the_new_text(hay: Seq<char>, old: Seq<char>, new: Seq<char>)
    requires
        has_text(hay, old),
    ensures
        has_text(replaced_first(hay, old, new), new),
        has_text(replaced(hay, old, new), new),
{
    lemma_has_text_is_found(hay, old);
    lemma_find_from(hay, old, 0);
    let k = find_from(hay, old, 0)->Some_0;
    lemma_holds_middle(hay.take(k), new, hay.skip(k + old.len()));
    if old.len() == 0 {
        lemma_holds_middle(spread(hay, new), new, Seq::empty());
        assert(spread(hay, new) + new + Seq::<char>::empty() =~= spread(hay, new) + new);
    } else {
        lemma_holds_middle(hay.subrange(0, k), new, replaced_from(hay, old, new, k + old.len()));
    }
}

/// An edit that finds its text leaves its new text on the line; one that
/// does not leaves the line alone.
pub proof fn law_applied_edit_leaves_its_text(line: Seq<char>, e: TextEditView)
    ensures
        has_text(line, e.old_text) ==> has_text(edited_line(line, e), e.new_text),
        !has_text(line, e.old_text) ==> edited_line(line, e) == line,
{
    if has_text(line, e.old_text) {
        law_replacing_leaves_the_new_text(line, e.old_text, e.new_text);
    } else {
        lemma_replace_absent(line, e.old_text, e.new_text);
    }
}

/// Joining from the front.
proof fn lemma_joined_front(first: Seq<char>, rest: Seq<Seq<char>>, sep: Seq<char>)
    requires
        rest.len() > 0,
    ensures
        joined(seq![first] + rest, sep) == first + sep + joined(rest, sep),
    decreases rest.len(),
{
    let all = seq![first] + rest;
    assert(all.drop_last() =~= seq![first] + rest.drop_last());
    assert(all.last() == rest.last());
    if rest.len() == 1 {
        assert(all.drop_last() =~= seq![first]);
        assert(joined(seq![first], sep) == first);
        assert(joined(rest, sep) == rest[0]);
    } else {
        lemma_joined_front(first, rest.drop_last(), sep);
        assert(joined(all, sep) =~= first + sep + joined(rest, sep));
    }
}

proof fn lemma_line_text(s: Seq<char>, i: int)
    requires
        !s.contains('\r'),
        0 <= i < s.len(),
    ensures
        text_of_lines(lines_from(s, i), ends(s, "\n"@)) == s.skip(i),
        lines_from(s, i).len() > 0,
    decreases s.len() - i,
{
    reveal_strlit("\n");
    lemma_char_pos(s, '\n', i);
    let k = char_pos(s, '\n', i);
    let feed = ends(s, "\n"@);
    assert(feed == (s.last() == '\n')) by {
        if s.last() == '\n' {
            assert(s.subrange(s.len() - 1, s.len() as int) =~= "\n"@);
        }
        if feed {
            assert(s.subrange(s.len() - 1, s.len() as int)[0] == '\n');
        }
    }
    if k < s.len() {
        assert(forall|j: int| 0 <= j < s.len() ==> s[j] != '\r');
        let body = s.subrange(i, k);
        let rest = lines_from(s, k + 1);
        if k + 1 < s.len() {
            lemma_line_text(s, k + 1);
            lemma_joined_front(body, rest, "\n"@);
            assert(text_of_lines(lines_from(s, i), feed) =~= body + "\n"@ + text_of_lines(rest, feed));
            assert(s.skip(i) =~= body + "\n"@ + s.skip(k + 1));
        } else {
            assert(lines_from(s, i) =~= seq![body]);
            assert(joined(seq![body], "\n"@) == body);
            assert(text_of_lines(lines_from(s, i), feed) =~= s.skip(i));
        }
    } else {
        assert(text_of_lines(lines_from(s, i), feed) =~= s.skip(i));
    }
}

/// A text without carriage returns is the text of its lines: taking a file
/// apart and putting it together again changes nothing.
pub proof fn law_lines_give_back_the_text(s: Seq<char>)
    requires
        !s.contains('\r'),
    ensures
        text_of_lines(lines_of(s), ends(s, "\n"@)) == s,
{
    reveal_strlit("\n");
    if s.len() > 0 {
        lemma_line_text(s, 0);
        assert(s.skip(0) =~= s);
    } else {
        assert(text_of_lines(lines_of(s), ends(s, "\n"@)) =~= s);
    }
}

/// The line can be written and read back: it holds no line feed and does
/// not end in a carriage return.
pub open spec fn is_plain_line(line: Seq<char>) -> bool {
    !line.contains('\n') && (line.len() > 0 ==> line.last() != '\r')
}

proof fn lemma_char_pos_shift(a: Seq<char>, t: Seq<char>, c: char, i: int)
    requires
        0 <= i <= t.len(),
    ensures
        char_pos(a + t, c, a.len() + i) == a.len() + char_pos(t, c, i),
    decreases t.len() - i,
{
    if i < t.len() {
        assert((a + t)[a.len() + i] == t[i]);
        if t[i] != c {
            lemma_char_pos_shift(a, t, c, i + 1);
        }
    }
}

proof fn lemma_lines_shift(a: Seq<char>, t: Seq<char>, i: int)
    requires
        0 <= i <= t.len(),
    ensures
        lines_from(a + t, a.len() + i) == lines_from(t, i),
    decreases t.len() - i,
{
    let s = a + t;
    let n = a.len() as int;
    lemma_char_pos_shift(a, t, '\n', i);
    lemma_char_pos(t, '\n', i);
    let k = char_pos(t, '\n', i);
    if i < t.len() {
        if k < t.len() {
            lemma_lines_shift(a, t, k + 1);
            assert(s.subrange(n + i, n + k) =~= t.subrange(i, k));
            if i < k {
                assert(s[n + k - 1] == t[k - 1]);
                assert(s.subrange(n + i, n + k - 1) =~= t.subrange(i, k - 1));
            }
            assert(n + k + 1 == n + (k + 1));
        } else {
            assert(s.subrange(n + i, s.len() as int) =~= t.subrange(i, t.len() as int));
        }
    }
}

/// A line and a line feed in front of a text are its first line.
proof fn lemma_first_line(line: Seq<char>, t: Seq<char>)
    requires
        is_plain_line(line),
    ensures
        lines_of(line + "\n"@ + t) == seq![line] + lines_of(t),
{
    reveal_strlit("\n");
    let head = line + "\n"@;
    let s = head + t;
    lemma_char_pos(s, '\n', 0);
    let k = char_pos(s, '\n', 0);
    assert(s[line.len() as int] == '\n');
    assert(k == line.len()) by {
        if k < line.len() {
            assert(line[k] == s[k]);
            assert(line.contains('\n'));
        }
    }
    lemma_lines_shift(head, t, 0);
    assert(s.subrange(0, k) =~= line);
    if k > 0 {
        assert(s[k - 1] == line.last());
    }
}

/// Plain lines that are written with a line feed behind each of them are
/// read back as they were.
pub proof fn law_written_lines_read_back(all: Seq<Seq<char>>)
    requires
        all.len() > 0,
        forall|i: int| 0 <= i < all.len() ==> is_plain_line(#[trigger] all[i]),
    ensures
        lines_of(text_of_lines(all, true)) == all,
    decreases all.len(),
{
    let rest = all.drop_first();
    assert(all =~= seq![all[0]] + rest);
    assert(is_plain_line(all[0]));
    if rest.len() == 0 {
        lemma_first_line(all[0], Seq::empty());
        assert(text_of_lines(all, true) =~= all[0] + "\n"@ + Seq::<char>::empty());
        assert(lines_of(Seq::<char>::empty()) =~= Seq::<Seq<char>>::empty());
        assert(lines_of(text_of_lines(all, true)) =~= all);
    } else {
        assert forall|i: int| 0 <= i < rest.len() implies is_plain_line(#[trigger] rest[i]) by {
            assert(rest[i] == all[i + 1]);
        }
        law_written_lines_read_back(rest);
        lemma_joined_front(all[0], rest, "\n"@);
        assert(text_of_lines(all, true) =~= all[0] + "\n"@ + text_of_lines(rest, true));
        lemma_first_line(all[0], text_of_lines(rest, true));
    }
}

} // verus!
