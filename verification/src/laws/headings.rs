//! The headings of a `yarn.lock`: which package an entry is for.

use crate::js::lockfile::{
    first_specifier, protocol_at, unquoted, without_head, without_tail,
    yarn_entry_name,
};
use crate::laws::releases::law_splitting;
use crate::laws::words::{
    is_core, is_last_at, law_search_from_the_end_finds_the_last_place, law_trimming,
};
use crate::paths::split_at_char;
use crate::text::{char_pos, has_text, is_space, trimmed};
use vstd::prelude::*;

verus! {

broadcast use vstd::string::group_string_axioms;

/// The text can stand as a specifier in a heading: it is not empty, has no
/// quote and no comma, no white space at its ends, and does not end in a
/// colon.
pub open spec fn is_specifier(x: Seq<char>) -> bool {
    &&& x.len() > 0
    &&& !x.contains('"')
    &&& !x.contains(',')
    &&& !is_space(x[0])
    &&& !is_space(x.last())
    &&& x.last() != ':'
}

proof fn lemma_visible(s: Seq<char>)
    requires
        s.len() > 0,
        !is_space(s[0]),
        !is_space(s.last()),
    ensures
        trimmed(s) == s,
{
    law_trimming(s);
    let (from, to) = choose|from: int, to: int| #[trigger] is_core(s, trimmed(s), from, to);
    if from > 0 {
        assert(is_space(s[0]));
    }
    if to < s.len() {
        assert(is_space(s[s.len() - 1]));
    }
    assert(s.subrange(0, s.len() as int) =~= s);
}

proof fn lemma_tail_stays(s: Seq<char>, c: char)
    requires
        s.len() > 0 ==> s.last() != c,
    ensures
        without_tail(s, c) == s,
        without_tail(s.push(c), c) == s,
{
    assert(s.push(c).drop_last() =~= s);
}

proof fn lemma_head_stays(s: Seq<char>, c: char)
    requires
        s.len() > 0 ==> s[0] != c,
    ensures
        without_head(s, c) == s,
        without_head(seq![c] + s, c) == s,
{
    let t = seq![c] + s;
    assert(t.skip(1) =~= s);
    assert(without_head(s, c) == s);
    assert(without_head(t, c) == without_head(s, c));
}

proof fn lemma_unquoted(x: Seq<char>)
    requires
        x.len() > 0,
        x[0] != '"',
        x.last() != '"',
    ensures
        unquoted(x) == x,
        unquoted(seq!['"'] + x + seq!['"']) == x,
{
    lemma_head_stays(x, '"');
    lemma_tail_stays(x, '"');
    let y = x + seq!['"'];
    assert(seq!['"'] + x + seq!['"'] =~= seq!['"'] + y);
    assert(y[0] == x[0]);
    lemma_head_stays(y, '"');
    assert(y =~= x.push('"'));
}

proof fn lemma_no_quotes(x: Seq<char>)
    requires
        is_specifier(x),
    ensures
        x[0] != '"',
        x.last() != '"',
{
    assert(x.contains(x[0]));
    assert(x.contains(x.last()));
}

/// The first specifier of a heading is read whether or not the heading is in
/// quotes, and with others behind it.
pub proof fn law_first_specifier(x: Seq<char>, y: Seq<char>)
    requires
        is_specifier(x),
        is_specifier(y),
    ensures
        first_specifier(x + seq![':']) == x,
        first_specifier(seq!['"'] + x + seq!['"', ':']) == x,
        first_specifier(seq!['"'] + x + seq![',', ' '] + y + seq!['"', ':']) == x,
{
    lemma_no_quotes(x);
    lemma_no_quotes(y);
    lemma_visible(x);
    lemma_unquoted(x);
    law_splitting(x, ',', seq![' '] + y);
    // Without quotes
    let a = x + seq![':'];
    assert(a[0] == x[0]);
    assert(a.last() == ':');
    lemma_visible(a);
    lemma_tail_stays(x, ':');
    assert(a =~= x.push(':'));
    assert(seq![x][0] == x);
    // In quotes
    let q = seq!['"'] + x + seq!['"'];
    let b = seq!['"'] + x + seq!['"', ':'];
    assert(b =~= q.push(':'));
    assert(b[0] == '"');
    assert(b.last() == ':');
    lemma_visible(b);
    assert(q.last() == '"');
    lemma_tail_stays(q, ':');
    // With others behind it
    let z = x + seq![','] + (seq![' '] + y);
    let p = seq!['"'] + z + seq!['"'];
    let c = seq!['"'] + x + seq![',', ' '] + y + seq!['"', ':'];
    assert(c =~= p.push(':'));
    assert(c[0] == '"');
    assert(c.last() == ':');
    lemma_visible(c);
    assert(p.last() == '"');
    lemma_tail_stays(p, ':');
    assert(z[0] == x[0]);
    assert(z.last() == y.last());
    lemma_unquoted(z);
    assert((seq![x] + split_at_char(seq![' '] + y, ','))[0] == x);
}

proof fn lemma_pos(s: Seq<char>, c: char, i: int, k: int)
    requires
        0 <= i <= k <= s.len(),
        forall|j: int| i <= j < k ==> s[j] != c,
        k < s.len() ==> s[k] == c,
    ensures
        char_pos(s, c, i) == k,
    decreases k - i,
{
    if i < k {
        lemma_pos(s, c, i + 1, k);
    }
}

/// The name of an entry is what stands before the protocol of its first
/// specifier, and before the `@` of the version where there is no protocol;
/// the `@` of a scope belongs to the name.
pub proof fn law_name_of_a_yarn_entry(
    line: Seq<char>,
    scope: Seq<char>,
    name: Seq<char>,
    version: Seq<char>,
)
    requires
        name.len() > 0,
        !name.contains('@'),
        !scope.contains('/'),
        !has_text(first_specifier(line), "@npm:"@),
        !has_text(first_specifier(line), "@workspace:"@),
    ensures
        first_specifier(line) == name + seq!['@'] + version ==> yarn_entry_name(line) == Some(name),
        first_specifier(line) == seq!['@'] + scope + seq!['/'] + name + seq!['@'] + version
            ==> yarn_entry_name(line) == Some(seq!['@'] + scope + seq!['/'] + name),
{
    let s = first_specifier(line);
    law_search_from_the_end_finds_the_last_place(s, "@npm:"@, 0);
    law_search_from_the_end_finds_the_last_place(s, "@workspace:"@, 0);
    assert(protocol_at(s) is None);
    let n = name.len() as int;
    assert forall|j: int| 0 <= j < n implies name[j] != '@' by {
        assert(name.contains(name[j]));
    }
    assert forall|j: int| 0 <= j < scope.len() implies scope[j] != '/' by {
        assert(scope.contains(scope[j]));
    }
    if s == name + seq!['@'] + version {
        assert(s[0] == name[0]);
        lemma_pos(s, '@', 0, n);
        assert(s.take(n) =~= name);
    }
    let whole = seq!['@'] + scope + seq!['/'] + name;
    if s == whole + seq!['@'] + version {
        let slash = scope.len() as int + 1;
        let at = slash + 1 + n;
        assert(s[0] == '@');
        assert forall|j: int| 0 <= j < slash implies s[j] != '/' by {
            if j > 0 {
                assert(s[j] == scope[j - 1]);
            }
        }
        assert(s[slash] == '/');
        lemma_pos(s, '/', 0, slash);
        assert forall|j: int| slash <= j < at implies s[j] != '@' by {
            if j > slash {
                assert(s[j] == name[j - slash - 1]);
            }
        }
        assert(s[at] == '@');
        lemma_pos(s, '@', slash, at);
        assert(s.take(at) =~= whole);
    }
}

/// The same where the specifier names a protocol.
pub proof fn law_name_before_a_protocol(line: Seq<char>, p: int)
    requires
        p > 0,
        is_last_at(first_specifier(line), "@npm:"@, p) || (!has_text(
            first_specifier(line),
            "@npm:"@,
        ) && is_last_at(first_specifier(line), "@workspace:"@, p)),
    ensures
        yarn_entry_name(line) == Some(first_specifier(line).take(p)),
{
    let s = first_specifier(line);
    law_search_from_the_end_finds_the_last_place(s, "@npm:"@, p);
    law_search_from_the_end_finds_the_last_place(s, "@workspace:"@, p);
}

} // verus!
