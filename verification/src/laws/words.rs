//! Searching, trimming, replacing and taking lines apart, by what the results
//! must be.

use crate::text::{
    char_pos, find_from, has_text, is_space, lemma_char_pos, lemma_find_from, lines_from, lines_of,
    occurs_at, replaced, replaced_first, replaced_from, rfind_from, rfind_text, space_end,
    space_start, trimmed, trimmed_end, trimmed_start,
};
use vstd::prelude::*;

verus! {

broadcast use vstd::string::group_string_axioms;

// ---------------------------------------------------------------------
// White space
// ---------------------------------------------------------------------

/// The text holds nothing but white space from `from` up to `to`.
pub open spec fn is_blank(s: Seq<char>, from: int, to: int) -> bool {
    forall|i: int| from <= i < to ==> is_space(#[trigger] s[i])
}

/// `t` is `s` between `from` and `to`, with nothing but white space around.
pub open spec fn is_core(s: Seq<char>, t: Seq<char>, from: int, to: int) -> bool {
    &&& 0 <= from <= to <= s.len()
    &&& t == s.subrange(from, to)
    &&& is_blank(s, 0, from)
    &&& is_blank(s, to, s.len() as int)
}

pub proof fn lemma_space_end(s: Seq<char>, i: int)
    requires
        0 <= i <= s.len(),
    ensures
        i <= space_end(s, i) <= s.len(),
        is_blank(s, i, space_end(s, i)),
        space_end(s, i) < s.len() ==> !is_space(s[space_end(s, i)]),
    decreases s.len() - i,
{
    if i < s.len() && is_space(s[i]) {
        lemma_space_end(s, i + 1);
    }
}

pub proof fn lemma_space_start(s: Seq<char>, i: int)
    requires
        0 <= i <= s.len(),
    ensures
        0 <= space_start(s, i) <= i,
        is_blank(s, space_start(s, i), i),
        space_start(s, i) > 0 ==> !is_space(s[space_start(s, i) - 1]),
    decreases i,
{
    if i > 0 && is_space(s[i - 1]) {
        lemma_space_start(s, i - 1);
    }
}

/// Trimming at the front takes the leading white space, and nothing else.
pub proof fn law_trimming_the_start(s: Seq<char>)
    ensures
        trimmed_start(s).len() <= s.len(),
        is_core(s, trimmed_start(s), s.len() - trimmed_start(s).len(), s.len() as int),
        trimmed_start(s).len() > 0 ==> !is_space(trimmed_start(s)[0]),
{
    lemma_space_end(s, 0);
}

/// Trimming at the end takes the trailing white space, and nothing else.
pub proof fn law_trimming_the_end(s: Seq<char>)
    ensures
        is_core(s, trimmed_end(s), 0, trimmed_end(s).len() as int),
        trimmed_end(s).len() > 0 ==> !is_space(trimmed_end(s).last()),
{
    lemma_space_start(s, s.len() as int);
}

/// Trimming takes the white space at both ends, and nothing else.
pub proof fn law_trimming(s: Seq<char>)
    ensures
        exists|from: int, to: int| #[trigger] is_core(s, trimmed(s), from, to),
        trimmed(s).len() > 0 ==> !is_space(trimmed(s)[0]) && !is_space(trimmed(s).last()),
{
    let t = trimmed_end(s);
    law_trimming_the_end(s);
    law_trimming_the_start(t);
    let from = t.len() - trimmed(s).len();
    let to = t.len() as int;
    assert forall|i: int| 0 <= i < from implies is_space(#[trigger] s[i]) by {
        assert(t[i] == s[i]);
    }
    assert(trimmed(s) =~= s.subrange(from, to));
    assert(is_core(s, trimmed(s), from, to));
    if trimmed(s).len() > 0 {
        assert(trimmed(s).last() == t.last());
    }
}

/// The white space is that of blanks, tabs, line ends and their wider kin;
/// letters, digits and punctuation are none.
pub proof fn law_visible_ascii_is_not_white_space(c: char)
    ensures
        c as u32 <= 0x7f ==> (is_space(c) <==> c as u32 == 0x20 || 9 <= c as u32 <= 13),
{
}

// ---------------------------------------------------------------------
// Searching
// ---------------------------------------------------------------------

/// Position `k` is the first at which `needle` stands.
pub open spec fn is_first_at(hay: Seq<char>, needle: Seq<char>, k: int) -> bool {
    occurs_at(hay, needle, k) && forall|j: int| 0 <= j < k ==> !#[trigger] occurs_at(hay, needle, j)
}

/// Position `k` is the last at which `needle` stands.
pub open spec fn is_last_at(hay: Seq<char>, needle: Seq<char>, k: int) -> bool {
    occurs_at(hay, needle, k) && forall|j: int| k < j ==> !#[trigger] occurs_at(hay, needle, j)
}

pub proof fn lemma_first_from(hay: Seq<char>, needle: Seq<char>, i: int, k: int)
    requires
        0 <= i <= k,
        occurs_at(hay, needle, k),
        forall|j: int| i <= j < k ==> !#[trigger] occurs_at(hay, needle, j),
    ensures
        find_from(hay, needle, i) == Some(k),
    decreases k - i,
{
    if i < k {
        assert(!occurs_at(hay, needle, i));
        lemma_first_from(hay, needle, i + 1, k);
    }
}

/// A search finds the first place at which the text stands.
pub proof fn law_search_finds_the_first_place(hay: Seq<char>, needle: Seq<char>, k: int)
    requires
        is_first_at(hay, needle, k),
    ensures
        find_from(hay, needle, 0) == Some(k),
{
    lemma_first_from(hay, needle, 0, k);
}

proof fn lemma_last_from(hay: Seq<char>, needle: Seq<char>, i: int, k: int)
    requires
        0 <= k <= i,
        occurs_at(hay, needle, k),
        forall|j: int| k < j ==> !#[trigger] occurs_at(hay, needle, j),
    ensures
        rfind_from(hay, needle, i) == Some(k),
    decreases i - k,
{
    if k < i {
        assert(!occurs_at(hay, needle, i));
        lemma_last_from(hay, needle, i - 1, k);
    }
}

proof fn lemma_none_from(hay: Seq<char>, needle: Seq<char>, i: int)
    requires
        !has_text(hay, needle),
    ensures
        rfind_from(hay, needle, i) is None,
    decreases i + 1,
{
    if i >= 0 {
        assert(!occurs_at(hay, needle, i));
        lemma_none_from(hay, needle, i - 1);
    }
}

/// A search from the end finds the last place at which the text stands, and
/// nothing where it stands nowhere.
pub proof fn law_search_from_the_end_finds_the_last_place(
    hay: Seq<char>,
    needle: Seq<char>,
    k: int,
)
    ensures
        is_last_at(hay, needle, k) ==> rfind_text(hay, needle) == Some(k),
        !has_text(hay, needle) ==> rfind_text(hay, needle) is None,
{
    if is_last_at(hay, needle, k) {
        lemma_last_from(hay, needle, hay.len() as int, k);
    } else if !has_text(hay, needle) {
        lemma_none_from(hay, needle, hay.len() as int);
    }
}

// ---------------------------------------------------------------------
// Replacing
// ---------------------------------------------------------------------

/// Replacing once puts the new text in the place of the first occurrence and
/// keeps what stands before and after it.
pub proof fn law_the_first_occurrence_is_replaced(
    before: Seq<char>,
    old_text: Seq<char>,
    new_text: Seq<char>,
    after: Seq<char>,
)
    requires
        is_first_at(before + old_text + after, old_text, before.len() as int),
    ensures
        replaced_first(before + old_text + after, old_text, new_text) == before + new_text + after,
{
    let hay = before + old_text + after;
    law_search_finds_the_first_place(hay, old_text, before.len() as int);
    assert(hay.take(before.len() as int) =~= before);
    assert(hay.skip(before.len() as int + old_text.len()) =~= after);
}

proof fn lemma_occurs_shifted(a: Seq<char>, b: Seq<char>, needle: Seq<char>, i: int)
    requires
        0 <= i,
    ensures
        occurs_at(a + b, needle, a.len() + i) == occurs_at(b, needle, i),
{
    let s = a + b;
    if i + needle.len() <= b.len() {
        assert(s.subrange(a.len() + i, a.len() + i + needle.len()) =~= b.subrange(
            i,
            i + needle.len(),
        ));
    }
}

proof fn lemma_find_shifted(a: Seq<char>, b: Seq<char>, needle: Seq<char>, i: int)
    requires
        0 <= i <= b.len() + 1,
    ensures
        find_from(a + b, needle, a.len() + i) == match find_from(b, needle, i) {
            Some(k) => Some(a.len() + k),
            None => None,
        },
    decreases b.len() - i + 1,
{
    lemma_occurs_shifted(a, b, needle, i);
    if i + needle.len() <= b.len() {
        lemma_find_shifted(a, b, needle, i + 1);
    }
}

proof fn lemma_replaced_shifted(
    a: Seq<char>,
    b: Seq<char>,
    old_text: Seq<char>,
    new_text: Seq<char>,
    i: int,
)
    requires
        0 <= i <= b.len(),
        old_text.len() > 0,
    ensures
        replaced_from(a + b, old_text, new_text, a.len() + i) == replaced_from(
            b,
            old_text,
            new_text,
            i,
        ),
    decreases b.len() - i,
{
    let s = a + b;
    lemma_find_shifted(a, b, old_text, i);
    lemma_find_from(b, old_text, i);
    assert(s.skip(a.len() + i) =~= b.skip(i));
    match find_from(b, old_text, i) {
        Some(k) => {
            assert(s.subrange(a.len() + i, a.len() + k) =~= b.subrange(i, k));
            lemma_replaced_shifted(a, b, old_text, new_text, k + old_text.len());
            assert(a.len() + k + old_text.len() == a.len() + (k + old_text.len()));
        },
        None => {},
    }
}

/// Replacing everywhere puts the new text in the place of the first
/// occurrence and goes on behind it.
pub proof fn law_every_occurrence_is_replaced(
    before: Seq<char>,
    old_text: Seq<char>,
    new_text: Seq<char>,
    after: Seq<char>,
)
    requires
        old_text.len() > 0,
        is_first_at(before + old_text + after, old_text, before.len() as int),
    ensures
        replaced(before + old_text + after, old_text, new_text) == before + new_text + replaced(
            after,
            old_text,
            new_text,
        ),
{
    let hay = before + old_text + after;
    law_search_finds_the_first_place(hay, old_text, before.len() as int);
    assert(hay.subrange(0, before.len() as int) =~= before);
    lemma_replaced_shifted(before + old_text, after, old_text, new_text, 0);
}

// ---------------------------------------------------------------------
// Lines
// ---------------------------------------------------------------------

proof fn lemma_pos_shifted(a: Seq<char>, b: Seq<char>, c: char, i: int)
    requires
        0 <= i <= b.len(),
    ensures
        char_pos(a + b, c, a.len() + i) == a.len() + char_pos(b, c, i),
    decreases b.len() - i,
{
    if i < b.len() {
        assert((a + b)[a.len() + i] == b[i]);
        if b[i] != c {
            lemma_pos_shifted(a, b, c, i + 1);
        }
    }
}

proof fn lemma_lines_shifted(a: Seq<char>, b: Seq<char>, i: int)
    requires
        0 <= i <= b.len(),
    ensures
        lines_from(a + b, a.len() + i) == lines_from(b, i),
    decreases b.len() - i,
{
    let s = a + b;
    if i < b.len() {
        lemma_pos_shifted(a, b, '\n', i);
        lemma_char_pos(b, '\n', i);
        let k = char_pos(b, '\n', i);
        if k < b.len() {
            lemma_lines_shifted(a, b, k + 1);
            assert(s.subrange(a.len() + i, a.len() + k) =~= b.subrange(i, k));
            if i < k {
                assert(s[a.len() + k - 1] == b[k - 1]);
                assert(s.subrange(a.len() + i, a.len() + k - 1) =~= b.subrange(i, k - 1));
            }
            assert(a.len() + (k + 1) == a.len() + k + 1);
        } else {
            assert(s.subrange(a.len() + i, s.len() as int) =~= b.subrange(i, b.len() as int));
        }
    }
}

proof fn lemma_pos_of(s: Seq<char>, c: char, i: int, k: int)
    requires
        0 <= i <= k <= s.len(),
        forall|j: int| i <= j < k ==> s[j] != c,
        k < s.len() ==> s[k] == c,
    ensures
        char_pos(s, c, i) == k,
    decreases k - i,
{
    if i < k {
        lemma_pos_of(s, c, i + 1, k);
    }
}

/// A line feed ends a line, together with a carriage return before it; the
/// lines behind it are those of the rest.
pub proof fn law_a_line_feed_ends_a_line(line: Seq<char>, rest: Seq<char>)
    requires
        !line.contains('\n'),
        line.len() > 0 ==> line.last() != '\r',
    ensures
        lines_of(line + seq!['\n'] + rest) == seq![line] + lines_of(rest),
        lines_of(line + seq!['\r', '\n'] + rest) == seq![line] + lines_of(rest),
        line.len() > 0 ==> lines_of(line) == seq![line],
        lines_of(Seq::<char>::empty()) == Seq::<Seq<char>>::empty(),
{
    let n = line.len() as int;
    assert forall|j: int| 0 <= j < n implies line[j] != '\n' by {
        assert(line.contains(line[j]));
    }
    let a = line + seq!['\n'];
    let s = a + rest;
    lemma_pos_of(s, '\n', 0, n);
    lemma_lines_shifted(a, rest, 0);
    if n > 0 {
        assert(s[n - 1] == line.last());
    }
    assert(s.subrange(0, n) =~= line);
    let b = line + seq!['\r', '\n'];
    let t = b + rest;
    lemma_pos_of(t, '\n', 0, n + 1);
    lemma_lines_shifted(b, rest, 0);
    assert(t[n] == '\r');
    assert(t.subrange(0, n) =~= line);
    if n > 0 {
        lemma_pos_of(line, '\n', 0, n);
        assert(line.subrange(0, n) =~= line);
    }
}

// ---------------------------------------------------------------------
// Counting
// ---------------------------------------------------------------------

/// How often `c` stands in the text.
pub open spec fn count_of(s: Seq<char>, c: char) -> nat
    decreases s.len(),
{
    if s.len() == 0 {
        0
    } else if s.last() == c {
        count_of(s.drop_last(), c) + 1
    } else {
        count_of(s.drop_last(), c)
    }
}

/// Counting in two parts.
pub proof fn lemma_count_parts(a: Seq<char>, b: Seq<char>, c: char)
    ensures
        count_of(a + b, c) == count_of(a, c) + count_of(b, c),
    decreases b.len(),
{
    if b.len() > 0 {
        assert((a + b).drop_last() =~= a + b.drop_last());
        lemma_count_parts(a, b.drop_last(), c);
    } else {
        assert(a + b =~= a);
    }
}

proof fn lemma_count_in_blank(s: Seq<char>, c: char)
    requires
        is_blank(s, 0, s.len() as int),
        !is_space(c),
    ensures
        count_of(s, c) == 0,
    decreases s.len(),
{
    if s.len() > 0 {
        let t = s.drop_last();
        assert forall|i: int| 0 <= i < t.len() implies is_space(#[trigger] t[i]) by {
            assert(is_space(s[i]));
        }
        lemma_count_in_blank(t, c);
    }
}

/// Trimming changes no count but that of white space.
pub proof fn lemma_count_trimmed(s: Seq<char>, c: char)
    requires
        !is_space(c),
    ensures
        count_of(trimmed(s), c) == count_of(s, c),
{
    law_trimming(s);
    let (from, to) = choose|from: int, to: int| #[trigger] is_core(s, trimmed(s), from, to);
    let a = s.take(from);
    let b = s.skip(to);
    assert forall|i: int| 0 <= i < a.len() implies is_space(#[trigger] a[i]) by {
        assert(is_space(s[i]));
    }
    assert forall|i: int| 0 <= i < b.len() implies is_space(#[trigger] b[i]) by {
        assert(is_space(s[to + i]));
    }
    lemma_count_in_blank(a, c);
    lemma_count_in_blank(b, c);
    lemma_count_parts(a, trimmed(s), c);
    lemma_count_parts(a + trimmed(s), b, c);
    assert(a + trimmed(s) + b =~= s);
}

} // verus!
