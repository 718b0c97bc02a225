//! Text as a sequence of characters: searching, replacing, splitting and
//! joining, each stated on `Seq<char>` and computed on `str`.

use crate::views::append_one;
use vstd::prelude::*;

verus! {

broadcast use vstd::string::group_string_axioms;

/// Appends the given character to the end of the string (`String::push`).
pub assume_specification[ String::push ](s: &mut String, c: char)
    ensures
        final(s)@ == old(s)@.push(c),
;

// ---------------------------------------------------------------------
// Searching
// ---------------------------------------------------------------------

/// `needle` stands in `hay` at position `i`.
pub open spec fn occurs_at(hay: Seq<char>, needle: Seq<char>, i: int) -> bool {
    0 <= i && i + needle.len() <= hay.len() && hay.subrange(i, i + needle.len()) == needle
}

/// `needle` stands somewhere in `hay`.
pub open spec fn has_text(hay: Seq<char>, needle: Seq<char>) -> bool {
    exists|i: int| occurs_at(hay, needle, i)
}

/// The first position from `i` on at which `needle` stands in `hay`.
pub open spec fn find_from(hay: Seq<char>, needle: Seq<char>, i: int) -> Option<int>
    decreases hay.len() - i + 1,
{
    if i < 0 || i + needle.len() > hay.len() {
        None
    } else if occurs_at(hay, needle, i) {
        Some(i)
    } else {
        find_from(hay, needle, i + 1)
    }
}

/// The last position up to `i` at which `needle` stands in `hay`.
pub open spec fn rfind_from(hay: Seq<char>, needle: Seq<char>, i: int) -> Option<int>
    decreases i + 1,
{
    if i < 0 {
        None
    } else if occurs_at(hay, needle, i) {
        Some(i)
    } else {
        rfind_from(hay, needle, i - 1)
    }
}

/// The last position at which `needle` stands in `hay`.
pub open spec fn rfind_text(hay: Seq<char>, needle: Seq<char>) -> Option<int> {
    rfind_from(hay, needle, hay.len() as int)
}

/// What `find_from` finds is the first occurrence at or after `i`.
pub proof fn lemma_find_from(hay: Seq<char>, needle: Seq<char>, i: int)
    requires
        0 <= i,
    ensures
        match find_from(hay, needle, i) {
            Some(k) => i <= k && occurs_at(hay, needle, k) && forall|j: int|
                i <= j < k ==> !occurs_at(hay, needle, j),
            None => forall|j: int| i <= j ==> !occurs_at(hay, needle, j),
        },
    decreases hay.len() - i + 1,
{
    if i + needle.len() <= hay.len() && !occurs_at(hay, needle, i) {
        lemma_find_from(hay, needle, i + 1);
    }
}

/// A text holds another exactly when a search from its start finds it.
pub proof fn lemma_has_text_is_found(hay: Seq<char>, needle: Seq<char>)
    ensures
        has_text(hay, needle) <==> find_from(hay, needle, 0) is Some,
{
    lemma_find_from(hay, needle, 0);
}

/// Every text holds itself and the empty text.
pub proof fn lemma_has_text_reflexive(a: Seq<char>)
    ensures
        has_text(a, a),
        has_text(a, Seq::empty()),
{
    assert(a.subrange(0, a.len() as int) =~= a);
    assert(occurs_at(a, a, 0));
    assert(a.subrange(0, 0) =~= Seq::empty());
    assert(occurs_at(a, Seq::empty(), 0));
}

/// The characters of `s`.
pub fn chars_of(s: &str) -> (v: Vec<char>)
    ensures
        v@ == s@,
{
    let mut v: Vec<char> = Vec::new();
    for c in it: s.chars()
        invariant
            v@ == s@.take(it.index() as int),
            it.seq() == s@,
    {
        v.push(c);
        assert(v@ =~= s@.take(it.index() as int + 1));
    }
    assert(s@.take(s@.len() as int) =~= s@);
    v
}

/// The characters of `v` from `from` up to `to`, as a string.
pub fn piece(v: &Vec<char>, from: usize, to: usize) -> (s: String)
    requires
        from <= to <= v@.len(),
    ensures
        s@ == v@.subrange(from as int, to as int),
{
    let mut s = String::new();
    let mut i: usize = from;
    while i < to
        invariant
            from <= i <= to <= v@.len(),
            s@ == v@.subrange(from as int, i as int),
        decreases to - i,
    {
        s.push(v[i]);
        i = i + 1;
        assert(s@ =~= v@.subrange(from as int, i as int));
    }
    s
}

/// A string with the text of `s`.
pub fn owned(s: &str) -> (r: String)
    ensures
        r@ == s@,
{
    s.to_owned()
}

fn stands_at(hay: &Vec<char>, needle: &Vec<char>, i: usize) -> (r: bool)
    ensures
        r == occurs_at(hay@, needle@, i as int),
{
    if needle.len() > hay.len() || i > hay.len() - needle.len() {
        return false;
    }
    let mut j: usize = 0;
    let total: usize = hay.len();
    while j < needle.len()
        invariant
            total == hay@.len(),
            i + needle@.len() <= hay@.len(),
            j <= needle@.len(),
            forall|k: int| 0 <= k < j ==> hay@[i + k] == needle@[k],
        decreases needle@.len() - j,
    {
        if hay[i + j] != needle[j] {
            assert(hay@.subrange(i as int, i + needle@.len())[j as int] != needle@[j as int]);
            return false;
        }
        j = j + 1;
    }
    assert(hay@.subrange(i as int, i + needle@.len()) =~= needle@);
    true
}

/// The first position from `from` on at which `needle` stands in `hay`.
pub fn find_at(hay: &Vec<char>, needle: &Vec<char>, from: usize) -> (r: Option<usize>)
    ensures
        find_from(hay@, needle@, from as int) == (match r {
            Some(k) => Some(k as int),
            None => None,
        }),
        r matches Some(k) ==> from <= k && k + needle@.len() <= hay@.len(),
{
    let mut i: usize = from;
    while needle.len() <= hay.len() && i <= hay.len() - needle.len()
        invariant
            from <= i,
            find_from(hay@, needle@, from as int) == find_from(hay@, needle@, i as int),
        decreases hay@.len() + 1 - i,
    {
        if stands_at(hay, needle, i) {
            return Some(i);
        }
        if i == hay.len() - needle.len() {
            assert(find_from(hay@, needle@, i + 1) is None);
            return None;
        }
        i = i + 1;
    }
    None
}

/// Whether `needle` stands somewhere in `hay`.
pub fn contains(hay: &str, needle: &str) -> (r: bool)
    ensures
        r == has_text(hay@, needle@),
{
    let h = chars_of(hay);
    let n = chars_of(needle);
    proof {
        lemma_has_text_is_found(hay@, needle@);
    }
    find_at(&h, &n, 0).is_some()
}

/// Where `needle` stands last in `hay`.
pub fn rfind(hay: &Vec<char>, needle: &Vec<char>) -> (r: Option<usize>)
    ensures
        rfind_text(hay@, needle@) == (match r {
            Some(k) => Some(k as int),
            None => None,
        }),
        r matches Some(k) ==> occurs_at(hay@, needle@, k as int),
{
    let mut i: usize = hay.len();
    loop
        invariant
            i <= hay@.len(),
            rfind_text(hay@, needle@) == rfind_from(hay@, needle@, i as int),
        decreases i,
    {
        if stands_at(hay, needle, i) {
            return Some(i);
        }
        if i == 0 {
            assert(rfind_from(hay@, needle@, -1) is None);
            return None;
        }
        i = i - 1;
    }
}

/// Whether the two texts are the same.
pub fn same(a: &str, b: &str) -> (r: bool)
    ensures
        r == (a@ == b@),
{
    let x = chars_of(a);
    let y = chars_of(b);
    if x.len() != y.len() {
        return false;
    }
    let mut i: usize = 0;
    while i < x.len()
        invariant
            i <= x@.len(),
            x@.len() == y@.len(),
            x@ == a@,
            y@ == b@,
            forall|k: int| 0 <= k < i ==> x@[k] == y@[k],
        decreases x@.len() - i,
    {
        if x[i] != y[i] {
            return false;
        }
        i = i + 1;
    }
    assert(a@ =~= b@);
    true
}


// ---------------------------------------------------------------------
// Prefixes and suffixes
// ---------------------------------------------------------------------

/// `s` begins with `prefix`.
pub open spec fn begins(s: Seq<char>, prefix: Seq<char>) -> bool {
    occurs_at(s, prefix, 0)
}

/// `s` ends with `suffix`.
pub open spec fn ends(s: Seq<char>, suffix: Seq<char>) -> bool {
    occurs_at(s, suffix, s.len() - suffix.len())
}

/// `s` without `prefix`, where it begins with it.
pub open spec fn without_prefix(s: Seq<char>, prefix: Seq<char>) -> Option<Seq<char>> {
    if begins(s, prefix) {
        Some(s.skip(prefix.len() as int))
    } else {
        None
    }
}

/// Whether `s` begins with `prefix`.
pub fn starts_with(s: &str, prefix: &str) -> (r: bool)
    ensures
        r == begins(s@, prefix@),
{
    let h = chars_of(s);
    let n = chars_of(prefix);
    stands_at(&h, &n, 0)
}

/// Whether `s` ends with `suffix`.
pub fn ends_with(s: &str, suffix: &str) -> (r: bool)
    ensures
        r == ends(s@, suffix@),
{
    let h = chars_of(s);
    let n = chars_of(suffix);
    if n.len() > h.len() {
        return false;
    }
    stands_at(&h, &n, h.len() - n.len())
}

/// `s` without `prefix`, where it begins with it.
pub fn strip_prefix<'a>(s: &'a str, prefix: &str) -> (r: Option<&'a str>)
    ensures
        without_prefix(s@, prefix@) == (match r {
            Some(t) => Some(t@),
            None => None,
        }),
{
    if starts_with(s, prefix) {
        let total: usize = s.unicode_len();
        let from: usize = prefix.unicode_len();
        let rest = s.substring_char(from, total);
        assert(rest@ =~= s@.skip(prefix@.len() as int));
        Some(rest)
    } else {
        None
    }
}

// ---------------------------------------------------------------------
// White space
// ---------------------------------------------------------------------

/// The characters with the Unicode property `White_Space`.
pub open spec fn is_space(c: char) -> bool {
    ||| '\u{9}' <= c <= '\u{d}'
    ||| c == '\u{20}'
    ||| c == '\u{85}'
    ||| c == '\u{a0}'
    ||| c == '\u{1680}'
    ||| '\u{2000}' <= c <= '\u{200a}'
    ||| c == '\u{2028}'
    ||| c == '\u{2029}'
    ||| c == '\u{202f}'
    ||| c == '\u{205f}'
    ||| c == '\u{3000}'
}

/// The number of leading characters of `s` from `i` on that are white space.
pub open spec fn space_end(s: Seq<char>, i: int) -> int
    decreases s.len() - i,
{
    if 0 <= i < s.len() && is_space(s[i]) {
        space_end(s, i + 1)
    } else {
        i
    }
}

/// The position after the last character of `s.take(i)` that is not white space.
pub open spec fn space_start(s: Seq<char>, i: int) -> int
    decreases i,
{
    if 0 < i <= s.len() && is_space(s[i - 1]) {
        space_start(s, i - 1)
    } else {
        i
    }
}

/// `s` without leading white space.
pub open spec fn trimmed_start(s: Seq<char>) -> Seq<char> {
    s.subrange(space_end(s, 0), s.len() as int)
}

/// `s` without trailing white space.
pub open spec fn trimmed_end(s: Seq<char>) -> Seq<char> {
    s.subrange(0, space_start(s, s.len() as int))
}

/// `s` without white space at either end.
pub open spec fn trimmed(s: Seq<char>) -> Seq<char> {
    trimmed_start(trimmed_end(s))
}

/// Whether the character is white space.
pub fn is_whitespace(c: char) -> (r: bool)
    ensures
        r == is_space(c),
{
    ('\u{9}' <= c && c <= '\u{d}') || c == '\u{20}' || c == '\u{85}' || c == '\u{a0}' || c
        == '\u{1680}' || ('\u{2000}' <= c && c <= '\u{200a}') || c == '\u{2028}' || c == '\u{2029}'
        || c == '\u{202f}' || c == '\u{205f}' || c == '\u{3000}'
}

/// The number of leading characters that are white space.
pub fn leading_spaces(v: &Vec<char>) -> (r: usize)
    ensures
        r == space_end(v@, 0),
        r <= v@.len(),
{
    let mut i: usize = 0;
    while i < v.len() && is_whitespace(v[i])
        invariant
            i <= v@.len(),
            space_end(v@, 0) == space_end(v@, i as int),
        decreases v@.len() - i,
    {
        i = i + 1;
    }
    i
}

/// `s` without leading white space.
pub fn trim_start(s: &str) -> (r: &str)
    ensures
        r@ == trimmed_start(s@),
{
    let v = chars_of(s);
    let n = leading_spaces(&v);
    s.substring_char(n, v.len())
}

/// `s` without trailing white space.
pub fn trim_end(s: &str) -> (r: &str)
    ensures
        r@ == trimmed_end(s@),
{
    let v = chars_of(s);
    let mut i: usize = v.len();
    while i > 0 && is_whitespace(v[i - 1])
        invariant
            i <= v@.len(),
            v@ == s@,
            space_start(s@, s@.len() as int) == space_start(s@, i as int),
        decreases i,
    {
        i = i - 1;
    }
    s.substring_char(0, i)
}

/// `s` without white space at either end.
pub fn trim(s: &str) -> (r: &str)
    ensures
        r@ == trimmed(s@),
{
    trim_start(trim_end(s))
}

// ---------------------------------------------------------------------
// Replacing
// ---------------------------------------------------------------------

/// The rest of `hay` from `i` on, with every occurrence of `old` replaced,
/// taken from left to right without overlap.
pub open spec fn replaced_from(hay: Seq<char>, old: Seq<char>, new: Seq<char>, i: int) -> Seq<char>
    decreases hay.len() - i + 1,
{
    match find_from(hay, old, i) {
        Some(k) => if i <= k && 0 < old.len() && k + old.len() <= hay.len() {
            hay.subrange(i, k) + new + replaced_from(hay, old, new, k + old.len())
        } else {
            hay.skip(i)
        },
        None => hay.skip(i),
    }
}

/// `s` with `new` before each character.
pub open spec fn spread(s: Seq<char>, new: Seq<char>) -> Seq<char>
    decreases s.len(),
{
    if s.len() == 0 {
        Seq::empty()
    } else {
        spread(s.drop_last(), new) + new.push(s.last())
    }
}

/// `hay` with every occurrence of `old` replaced by `new`. The empty text
/// occurs once before each character and once at the end.
pub open spec fn replaced(hay: Seq<char>, old: Seq<char>, new: Seq<char>) -> Seq<char> {
    if old.len() == 0 {
        spread(hay, new) + new
    } else {
        replaced_from(hay, old, new, 0)
    }
}

/// `hay` with the first occurrence of `old` replaced by `new`.
pub open spec fn replaced_first(hay: Seq<char>, old: Seq<char>, new: Seq<char>) -> Seq<char> {
    match find_from(hay, old, 0) {
        Some(k) => hay.take(k) + new + hay.skip(k + old.len()),
        None => hay,
    }
}

/// A text that does not hold `old` is left as it is.
pub proof fn lemma_replace_absent(hay: Seq<char>, old: Seq<char>, new: Seq<char>)
    requires
        !has_text(hay, old),
    ensures
        replaced(hay, old, new) == hay,
        replaced_first(hay, old, new) == hay,
{
    lemma_has_text_is_found(hay, old);
    lemma_has_text_reflexive(hay);
    assert(old.len() == 0 ==> old =~= Seq::empty());
    assert(hay.skip(0) =~= hay);
}

/// `hay` with every occurrence of `old` replaced by `new`.
pub fn replace(hay: &str, old: &str, new: &str) -> (r: String)
    ensures
        r@ == replaced(hay@, old@, new@),
{
    let h = chars_of(hay);
    let o = chars_of(old);
    let mut out = String::new();
    let mut pos: usize = 0;
    if o.len() == 0 {
        while pos < h.len()
            invariant
                pos <= h@.len(),
                h@ == hay@,
                out@ == spread(hay@.take(pos as int), new@),
            decreases h@.len() - pos,
        {
            out.append(new);
            out.push(h[pos]);
            assert(hay@.take(pos + 1).drop_last() =~= hay@.take(pos as int));
            assert(out@ =~= spread(hay@.take(pos as int), new@) + new@.push(hay@[pos as int]));
            pos = pos + 1;
        }
        assert(hay@.take(hay@.len() as int) =~= hay@);
        out.append(new);
        return out;
    }
    assert(out@ + replaced_from(hay@, old@, new@, 0) =~= replaced(hay@, old@, new@));
    let total: usize = h.len();
    loop
        invariant
            total == h@.len(),
            pos <= h@.len(),
            h@ == hay@,
            o@ == old@,
            o@.len() > 0,
            out@ + replaced_from(hay@, old@, new@, pos as int) == replaced(hay@, old@, new@),
        decreases h@.len() - pos,
    {
        match find_at(&h, &o, pos) {
            Some(k) => {
                let ghost before = out@;
                let kept = piece(&h, pos, k);
                out.append(kept.as_str());
                out.append(new);
                assert(out@ + replaced_from(hay@, old@, new@, k + old@.len()) =~= before + (
                hay@.subrange(pos as int, k as int) + new@ + replaced_from(
                    hay@,
                    old@,
                    new@,
                    k + old@.len(),
                )));
                pos = k + o.len();
            },
            None => {
                let rest = piece(&h, pos, h.len());
                out.append(rest.as_str());
                assert(rest@ =~= hay@.skip(pos as int));
                return out;
            },
        }
    }
}

/// `hay` with the first occurrence of `old` replaced by `new`.
pub fn replace_first(hay: &str, old: &str, new: &str) -> (r: String)
    ensures
        r@ == replaced_first(hay@, old@, new@),
{
    let h = chars_of(hay);
    let o = chars_of(old);
    match find_at(&h, &o, 0) {
        Some(k) => {
            let mut out = piece(&h, 0, k);
            out.append(new);
            let total: usize = h.len();
            let rest = piece(&h, k + o.len(), total);
            out.append(rest.as_str());
            assert(hay@.subrange(0, k as int) =~= hay@.take(k as int));
            assert(rest@ =~= hay@.skip(k + old@.len()));
            out
        },
        None => owned(hay),
    }
}


// ---------------------------------------------------------------------
// Lines
// ---------------------------------------------------------------------

/// The first position from `i` on that holds `c`, or the end of `s`.
pub open spec fn char_pos(s: Seq<char>, c: char, i: int) -> int
    decreases s.len() - i,
{
    if 0 <= i < s.len() && s[i] != c {
        char_pos(s, c, i + 1)
    } else {
        i
    }
}

/// The line that stands in `s` from `from` up to the line feed at `to`: a
/// carriage return right before the line feed belongs to the line's end.
pub open spec fn line_body(s: Seq<char>, from: int, to: int) -> Seq<char> {
    if from < to && s[to - 1] == '\r' {
        s.subrange(from, to - 1)
    } else {
        s.subrange(from, to)
    }
}

/// The lines of `s` from position `i` on. Each line ends in a line feed; the
/// last one may do without, and then a carriage return at its end stays.
pub open spec fn lines_from(s: Seq<char>, i: int) -> Seq<Seq<char>>
    decreases s.len() - i,
{
    if i < 0 || i >= s.len() {
        Seq::empty()
    } else {
        let k = char_pos(s, '\n', i);
        if k < i || k >= s.len() {
            seq![s.subrange(i, s.len() as int)]
        } else {
            seq![line_body(s, i, k)] + lines_from(s, k + 1)
        }
    }
}

/// The lines of `s`.
pub open spec fn lines_of(s: Seq<char>) -> Seq<Seq<char>> {
    lines_from(s, 0)
}

/// `char_pos` is the first place of the character, or the end.
pub proof fn lemma_char_pos(s: Seq<char>, c: char, i: int)
    requires
        0 <= i <= s.len(),
    ensures
        i <= char_pos(s, c, i) <= s.len(),
        char_pos(s, c, i) < s.len() ==> s[char_pos(s, c, i)] == c,
        forall|j: int| i <= j < char_pos(s, c, i) ==> s[j] != c,
    decreases s.len() - i,
{
    if i < s.len() && s[i] != c {
        lemma_char_pos(s, c, i + 1);
    }
}

/// The first position from `from` on that holds `c`, or the end.
pub fn position_of(v: &Vec<char>, c: char, from: usize) -> (r: usize)
    requires
        from <= v@.len(),
    ensures
        r == char_pos(v@, c, from as int),
        from <= r <= v@.len(),
{
    let mut i: usize = from;
    while i < v.len() && v[i] != c
        invariant
            from <= i <= v@.len(),
            char_pos(v@, c, from as int) == char_pos(v@, c, i as int),
        decreases v@.len() - i,
    {
        i = i + 1;
    }
    i
}

/// The lines of `s`.
pub fn lines(s: &str) -> (r: Vec<String>)
    ensures
        r.deep_view() == lines_of(s@),
{
    let v = chars_of(s);
    let mut out: Vec<String> = Vec::new();
    let mut i: usize = 0;
    assert(out.deep_view() + lines_from(s@, 0) =~= lines_of(s@));
    while i < v.len()
        invariant
            i <= v@.len(),
            v@ == s@,
            out.deep_view() + lines_from(s@, i as int) == lines_of(s@),
        decreases v@.len() - i,
    {
        let k = position_of(&v, '\n', i);
        let ghost before = out.deep_view();
        if k < v.len() {
            let end: usize = if i < k && v[k - 1] == '\r' {
                k - 1
            } else {
                k
            };
            let line = piece(&v, i, end);
            append_one(&mut out, line);
            assert(out.deep_view() + lines_from(s@, k + 1) =~= before + (seq![line@] + lines_from(
                s@,
                k + 1,
            )));
            i = k + 1;
        } else {
            let line = piece(&v, i, k);
            append_one(&mut out, line);
            assert(out.deep_view() =~= before + seq![line@]);
            return out;
        }
    }
    assert(out.deep_view() + lines_from(s@, i as int) =~= out.deep_view());
    out
}

// ---------------------------------------------------------------------
// Joining
// ---------------------------------------------------------------------

/// The texts one after the other, with `sep` between each two.
pub open spec fn joined(parts: Seq<Seq<char>>, sep: Seq<char>) -> Seq<char>
    decreases parts.len(),
{
    if parts.len() == 0 {
        Seq::empty()
    } else if parts.len() == 1 {
        parts[0]
    } else {
        joined(parts.drop_last(), sep) + sep + parts.last()
    }
}

/// The texts one after the other, with `sep` between each two.
pub fn join(parts: &Vec<String>, sep: &str) -> (r: String)
    ensures
        r@ == joined(parts.deep_view(), sep@),
{
    let mut out = String::new();
    let mut i: usize = 0;
    while i < parts.len()
        invariant
            i <= parts@.len(),
            out@ == joined(parts.deep_view().take(i as int), sep@),
        decreases parts@.len() - i,
    {
        if i > 0 {
            out.append(sep);
        }
        out.append(parts[i].as_str());
        assert(parts.deep_view().take(i + 1).drop_last() =~= parts.deep_view().take(i as int));
        i = i + 1;
        assert(out@ =~= joined(parts.deep_view().take(i as int), sep@));
    }
    assert(parts.deep_view().take(parts@.len() as int) =~= parts.deep_view());
    out
}

// ---------------------------------------------------------------------
// Numbers
// ---------------------------------------------------------------------

/// The digit `d` as a character.
pub open spec fn digit(d: nat) -> char {
    ('0' as u32 + d) as u32 as char
}

/// The number in decimal, without leading zeros.
pub open spec fn decimal(n: nat) -> Seq<char>
    decreases n,
{
    if n < 10 {
        seq![digit(n)]
    } else {
        decimal(n / 10).push(digit(n % 10))
    }
}

fn digit_char(d: u64) -> (c: char)
    requires
        d < 10,
    ensures
        c == digit(d as nat),
{
    let table = ['0', '1', '2', '3', '4', '5', '6', '7', '8', '9'];
    table[d as usize]
}

/// The number in decimal.
pub fn decimal_of(n: u64) -> (r: String)
    ensures
        r@ == decimal(n as nat),
    decreases n,
{
    if n < 10 {
        let mut s = String::new();
        s.push(digit_char(n));
        assert(s@ =~= seq![digit(n as nat)]);
        s
    } else {
        let mut s = decimal_of(n / 10);
        s.push(digit_char(n % 10));
        s
    }
}


/// How many bytes a text takes in UTF-8.
pub open spec fn byte_len(s: Seq<char>) -> usize {
    vstd::utf8::encode_utf8(s).len() as usize
}

/// How many bytes a text takes in UTF-8.
pub fn byte_length(s: &str) -> (r: usize)
    ensures
        r == byte_len(s@),
{
    s.len()
}

// ---------------------------------------------------------------------
// Putting texts together
// ---------------------------------------------------------------------

/// The two texts one after the other.
pub fn cat2(a: &str, b: &str) -> (s: String)
    ensures
        s@ == a@ + b@,
{
    let mut s = owned(a);
    s.append(b);
    s
}

/// The three texts one after the other.
pub fn cat3(a: &str, b: &str, c: &str) -> (s: String)
    ensures
        s@ == a@ + b@ + c@,
{
    let mut s = owned(a);
    s.append(b);
    s.append(c);
    s
}

/// The four texts one after the other.
pub fn cat4(a: &str, b: &str, c: &str, d: &str) -> (s: String)
    ensures
        s@ == a@ + b@ + c@ + d@,
{
    let mut s = owned(a);
    s.append(b);
    s.append(c);
    s.append(d);
    s
}

/// The five texts one after the other.
pub fn cat5(a: &str, b: &str, c: &str, d: &str, e: &str) -> (s: String)
    ensures
        s@ == a@ + b@ + c@ + d@ + e@,
{
    let mut s = owned(a);
    s.append(b);
    s.append(c);
    s.append(d);
    s.append(e);
    s
}

/// The six texts one after the other.
pub fn cat6(a: &str, b: &str, c: &str, d: &str, e: &str, f: &str) -> (s: String)
    ensures
        s@ == a@ + b@ + c@ + d@ + e@ + f@,
{
    let mut s = owned(a);
    s.append(b);
    s.append(c);
    s.append(d);
    s.append(e);
    s.append(f);
    s
}

/// The seven texts one after the other.
pub fn cat7(a: &str, b: &str, c: &str, d: &str, e: &str, f: &str, g: &str) -> (s: String)
    ensures
        s@ == a@ + b@ + c@ + d@ + e@ + f@ + g@,
{
    let mut s = owned(a);
    s.append(b);
    s.append(c);
    s.append(d);
    s.append(e);
    s.append(f);
    s.append(g);
    s
}

/// The eight texts one after the other.
pub fn cat8(a: &str, b: &str, c: &str, d: &str, e: &str, f: &str, g: &str, h: &str) -> (s: String)
    ensures
        s@ == a@ + b@ + c@ + d@ + e@ + f@ + g@ + h@,
{
    let mut s = owned(a);
    s.append(b);
    s.append(c);
    s.append(d);
    s.append(e);
    s.append(f);
    s.append(g);
    s.append(h);
    s
}

/// The nine texts one after the other.
pub fn cat9(a: &str, b: &str, c: &str, d: &str, e: &str, f: &str, g: &str, h: &str, i: &str) -> (s: String)
    ensures
        s@ == a@ + b@ + c@ + d@ + e@ + f@ + g@ + h@ + i@,
{
    let mut s = owned(a);
    s.append(b);
    s.append(c);
    s.append(d);
    s.append(e);
    s.append(f);
    s.append(g);
    s.append(h);
    s.append(i);
    s
}

} // verus!
