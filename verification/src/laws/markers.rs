//! Markers that ask for imports: what is written with them is read back.

use crate::java::annotations::markers;
use crate::java::imports::{marked_end, marked_name, marked_names, unless_empty, unmarked};
use crate::laws::words::{is_core, law_trimming, lemma_first_from};
use crate::text::{
    char_pos, find_from, has_text, is_space, lemma_find_from, occurs_at, trimmed,
};
use vstd::prelude::*;

verus! {

broadcast use vstd::string::group_string_axioms;

/// The name can stand behind a marker: it has no white space and no slash.
pub open spec fn is_markable(name: Seq<char>) -> bool {
    name.len() > 0 && forall|i: int|
        0 <= i < name.len() ==> !is_space(#[trigger] name[i]) && name[i] != '/'
}

spec fn marker() -> Seq<char> {
    "// __ADD_IMPORT:"@
}

proof fn lemma_marker()
    ensures
        marker().len() == 16,
        marker()[0] == '/',
        marker()[1] == '/',
        marker()[2] == ' ',
        marker()[3] == '_',
        forall|t: int| 0 <= t < 16 && t != 2 ==> #[trigger] marker()[t] != ' ',
        " // __ADD_IMPORT:"@ == seq![' '] + marker(),
{
    reveal_strlit("// __ADD_IMPORT:");
    reveal_strlit(" // __ADD_IMPORT:");
    let m = "// __ADD_IMPORT:"@;
    assert(m[0] == '/' && m[1] == '/' && m[2] == ' ' && m[3] == '_' && m[4] == '_' && m[5] == 'A'
        && m[6] == 'D' && m[7] == 'D' && m[8] == '_' && m[9] == 'I' && m[10] == 'M' && m[11] == 'P'
        && m[12] == 'O' && m[13] == 'R' && m[14] == 'T' && m[15] == ':');
    assert(" // __ADD_IMPORT:"@ =~= seq![' '] + m);
}

/// The markers of the names from `k` on.
spec fn tail(names: Seq<Seq<char>>, k: int) -> Seq<char>
    decreases names.len() - k,
{
    if k < 0 || k >= names.len() {
        Seq::empty()
    } else {
        seq![' '] + marker() + names[k] + tail(names, k + 1)
    }
}

proof fn lemma_tail(names: Seq<Seq<char>>, k: int)
    requires
        0 <= k <= names.len(),
    ensures
        markers(names, k) + tail(names, k) == tail(names, 0),
    decreases k,
{
    lemma_marker();
    if k > 0 {
        lemma_tail(names, k - 1);
        let a = markers(names, k - 1);
        assert(markers(names, k) + tail(names, k) =~= a + (seq![' '] + marker() + names[k - 1]
            + tail(names, k)));
    } else {
        assert(markers(names, 0) + tail(names, 0) =~= tail(names, 0));
    }
}

proof fn lemma_not_at(s: Seq<char>, j: int)
    requires
        0 <= j < s.len(),
        s[j] != '/',
    ensures
        !occurs_at(s, marker(), j),
{
    lemma_marker();
    if occurs_at(s, marker(), j) {
        assert(s.subrange(j, j + 16)[0] == s[j]);
    }
}

/// A text that holds no marker, followed by one, holds its first marker
/// there.
proof fn lemma_first_marker(line: Seq<char>, rest: Seq<char>)
    requires
        !has_text(line, marker()),
    ensures
        find_from(line + (seq![' '] + marker() + rest), marker(), 0) == Some(line.len() as int + 1),
{
    lemma_marker();
    let s = line + (seq![' '] + marker() + rest);
    let n = line.len() as int;
    assert(s.subrange(n + 1, n + 17) =~= marker());
    assert forall|j: int| 0 <= j < n + 1 implies !#[trigger] occurs_at(s, marker(), j) by {
        if occurs_at(s, marker(), j) {
            let part = s.subrange(j, j + 16);
            if j == n {
                assert(part[0] == s[n]);
            } else if j + 16 <= n {
                assert(line.subrange(j, j + 16) =~= part);
                assert(occurs_at(line, marker(), j));
            } else {
                let t = n - j;
                assert(part[t] == s[n]);
                assert(marker()[t] == ' ');
                assert(t == 2);
                assert(part[3] == s[n + 1]);
                assert(s[n + 1] == marker()[0]);
            }
        }
    }
    lemma_first_from(s, marker(), 0, n + 1);
}

proof fn lemma_name_read(name: Seq<char>, more: bool)
    requires
        is_markable(name),
    ensures
        marked_name(if more {
            name + seq![' ']
        } else {
            name
        }) == name,
{
    let text = if more {
        name + seq![' ']
    } else {
        name
    };
    let n = name.len() as int;
    law_trimming(text);
    let t = trimmed(text);
    let (from, to) = choose|from: int, to: int| #[trigger] is_core(text, t, from, to);
    assert(text[0] == name[0]);
    assert(text[n - 1] == name[n - 1]);
    if from > 0 {
        assert(is_space(text[0]));
    }
    if to < n {
        assert(is_space(text[n - 1]));
    }
    if to > n {
        assert(t.last() == text[n]);
    }
    assert(t =~= name);
    lemma_no_blank(name, 0);
    assert(name.take(n) =~= name);
}

proof fn lemma_no_blank(name: Seq<char>, i: int)
    requires
        0 <= i <= name.len(),
        is_markable(name),
    ensures
        char_pos(name, ' ', i) == name.len(),
    decreases name.len() - i,
{
    if i < name.len() {
        assert(!is_space(name[i]));
        lemma_no_blank(name, i + 1);
    }
}

/// Reading on from `i`, where the next marker is that of name `k`.
proof fn lemma_read(s: Seq<char>, pre: Seq<char>, names: Seq<Seq<char>>, k: int, i: int)
    requires
        0 <= k <= names.len(),
        forall|j: int| 0 <= j < names.len() ==> is_markable(#[trigger] names[j]),
        s == pre + tail(names, k),
        k < names.len() ==> 0 <= i <= s.len() && find_from(s, marker(), i) == Some(pre.len() as int + 1),
        k == names.len() ==> i == s.len(),
    ensures
        marked_names(s, i) == names.skip(k),
    decreases names.len() - k,
{
    lemma_marker();
    if k == names.len() {
        lemma_find_from(s, marker(), i);
        assert(find_from(s, marker(), i) is None);
        assert(names.skip(k) =~= Seq::empty());
    } else {
        let name = names[k];
        let p = pre.len() as int + 1;
        let from = p + 16;
        let pre2 = pre + (seq![' '] + marker() + name);
        let rest = tail(names, k + 1);
        assert(s =~= pre2 + rest);
        let stop = from + name.len();
        assert(pre2.len() == stop);
        assert forall|j: int| from <= j < stop implies s[j] == name[j - from] by {}
        let more = k + 1 < names.len();
        let end = marked_end(s, from);
        if more {
            assert(rest == seq![' '] + marker() + names[k + 1] + tail(names, k + 2));
            assert(s[stop] == ' ');
            assert(s.subrange(stop + 1, stop + 17) =~= marker());
            assert forall|j: int| from <= j < stop + 1 implies !#[trigger] occurs_at(
                s,
                marker(),
                j,
            ) by {
                if j < stop {
                    assert(s[j] == name[j - from]);
                    assert(name[j - from] != '/');
                }
                lemma_not_at(s, j);
            }
            lemma_first_from(s, marker(), from, stop + 1);
            assert(end == stop + 1);
            assert(s.subrange(from, end) =~= name + seq![' ']);
            lemma_name_read(name, true);
            lemma_first_from(s, marker(), end, stop + 1);
            lemma_read(s, pre2, names, k + 1, end);
        } else {
            assert(rest =~= Seq::empty());
            assert(s.len() == stop);
            lemma_find_from(s, marker(), from);
            match find_from(s, marker(), from) {
                Some(q) => {
                    assert(s[q] == name[q - from]);
                    assert(name[q - from] != '/');
                    lemma_not_at(s, q);
                },
                None => {},
            }
            assert(end == stop);
            assert(s.subrange(from, end) =~= name);
            lemma_name_read(name, false);
            lemma_read(s, pre2, names, k + 1, end);
        }
        assert(unless_empty(name) == seq![name]);
        assert(seq![name] + names.skip(k + 1) =~= names.skip(k));
    }
}

/// The names that the markers behind a line ask for are read back, in their
/// order, and without its markers the line is as it was.
pub proof fn law_markers_are_read_back(line: Seq<char>, names: Seq<Seq<char>>)
    requires
        !has_text(line, "// __ADD_IMPORT:"@),
        forall|j: int| 0 <= j < names.len() ==> is_markable(#[trigger] names[j]),
    ensures
        marked_names(line + markers(names, names.len() as int), 0) == names,
        unmarked(line + markers(names, names.len() as int)) == line,
{
    let n = names.len() as int;
    let s = line + markers(names, n);
    lemma_marker();
    lemma_tail(names, n);
    assert(markers(names, n) + tail(names, n) =~= markers(names, n));
    assert(s == line + tail(names, 0));
    if n > 0 {
        let rest = names[0] + tail(names, 1);
        assert(tail(names, 0) =~= seq![' '] + marker() + rest);
        lemma_first_marker(line, rest);
        assert(s == line + (seq![' '] + marker() + rest));
        lemma_read(s, line, names, 0, 0);
        assert(names.skip(0) =~= names);
        assert(s[line.len() as int] == ' ');
        assert(s.take(line.len() as int) =~= line);
    } else {
        assert(s =~= line);
        lemma_find_from(line, marker(), 0);
        assert(find_from(line, marker(), 0) is None);
        assert(names =~= Seq::empty());
    }
}

} // verus!
