//! Paths with `/` between their components, as text.
//!
//! Repeated separators and `.` components do not count, except for a `.`
//! at the start of a relative path; a trailing separator does not count
//! either.

use crate::text::{cat2, cat3, char_pos, chars_of, owned, piece, position_of, same};
use crate::views::append_one;
use vstd::prelude::*;

verus! {

broadcast use vstd::string::group_string_axioms;

/// The stretches of `s` from position `i` on between the occurrences of `c`.
pub open spec fn split_from(s: Seq<char>, c: char, i: int) -> Seq<Seq<char>>
    decreases s.len() - i,
{
    if i < 0 || i > s.len() {
        Seq::empty()
    } else {
        let k = char_pos(s, c, i);
        if k < i || k >= s.len() {
            seq![s.subrange(i, s.len() as int)]
        } else {
            seq![s.subrange(i, k)] + split_from(s, c, k + 1)
        }
    }
}

/// The stretches of `s` between the occurrences of `c`.
pub open spec fn split_at_char(s: Seq<char>, c: char) -> Seq<Seq<char>> {
    split_from(s, c, 0)
}

/// The stretches of `s` between the occurrences of `c`.
pub fn split(s: &str, c: char) -> (r: Vec<String>)
    ensures
        r.deep_view() == split_at_char(s@, c),
        r@.len() > 0,
{
    let v = chars_of(s);
    let mut out: Vec<String> = Vec::new();
    let mut i: usize = 0;
    assert(out.deep_view() + split_from(s@, c, 0) =~= split_at_char(s@, c));
    loop
        invariant
            i <= v@.len(),
            v@ == s@,
            out.deep_view() + split_from(s@, c, i as int) == split_at_char(s@, c),
        decreases v@.len() - i,
    {
        let k = position_of(&v, c, i);
        let ghost before = out.deep_view();
        let one = piece(&v, i, k);
        append_one(&mut out, one);
        if k >= v.len() {
            assert(out.deep_view() =~= before + seq![one@]);
            return out;
        }
        assert(out.deep_view() + split_from(s@, c, k + 1) =~= before + (seq![one@] + split_from(
            s@,
            c,
            k + 1,
        )));
        i = k + 1;
    }
}

/// `path` starts at the root.
pub open spec fn rooted(path: Seq<char>) -> bool {
    path.len() > 0 && path[0] == '/'
}

/// The stretch with the given number among those of a path is a component.
pub open spec fn is_component(one: Seq<char>, number: int) -> bool {
    one.len() > 0 && (one != "."@ || number == 0)
}

/// The components among the first `n` stretches.
pub open spec fn kept(all: Seq<Seq<char>>, n: int) -> Seq<Seq<char>>
    decreases n,
{
    if n <= 0 {
        Seq::empty()
    } else if is_component(all[n - 1], n - 1) {
        kept(all, n - 1).push(all[n - 1])
    } else {
        kept(all, n - 1)
    }
}

/// The components of a path; the root is the component `/`.
pub open spec fn components(path: Seq<char>) -> Seq<Seq<char>> {
    let all = split_at_char(path, '/');
    let names = kept(all, all.len() as int);
    if rooted(path) {
        seq!["/"@] + names
    } else {
        names
    }
}

/// The components of a path; the root is the component `/`.
pub fn parts(path: &str) -> (r: Vec<String>)
    ensures
        r.deep_view() == components(path@),
{
    let v = chars_of(path);
    let all = split(path, '/');
    let mut out: Vec<String> = Vec::new();
    let ghost mut front: Seq<Seq<char>> = Seq::empty();
    if v.len() > 0 && v[0] == '/' {
        append_one(&mut out, owned("/"));
        proof {
            front = seq!["/"@];
        }
        assert(out.deep_view() =~= seq!["/"@]);
    }
    let mut i: usize = 0;
    assert(out.deep_view() =~= front + kept(all.deep_view(), 0));
    while i < all.len()
        invariant
            i <= all@.len(),
            out.deep_view() == front + kept(all.deep_view(), i as int),
        decreases all@.len() - i,
    {
        assert(all.deep_view()[i as int] == all@[i as int]@);
        let ghost before = out.deep_view();
        let one = all[i].as_str();
        if one.unicode_len() > 0 && (i == 0 || !same(one, ".")) {
            append_one(&mut out, owned(one));
            assert(out.deep_view() =~= front + kept(all.deep_view(), i + 1));
        }
        i = i + 1;
    }
    assert(Seq::<Seq<char>>::empty() + kept(all.deep_view(), all@.len() as int) =~= kept(
        all.deep_view(),
        all@.len() as int,
    ));
    out
}

// ---------------------------------------------------------------------
// The last component
// ---------------------------------------------------------------------

/// A relative path that starts with a `.` component.
pub open spec fn dotted(path: Seq<char>) -> bool {
    path.len() > 0 && path[0] == '.' && (path.len() == 1 || path[1] == '/')
}

/// How many characters the root or the leading `.` takes.
pub open spec fn start_len(path: Seq<char>) -> int {
    if rooted(path) || dotted(path) {
        1
    } else {
        0
    }
}

/// The last position from `from` on and before `e` that holds a separator.
pub open spec fn last_slash(path: Seq<char>, from: int, e: int) -> Option<int>
    decreases e,
{
    if e <= from || e <= 0 {
        None
    } else if path[e - 1] == '/' {
        Some(e - 1)
    } else {
        last_slash(path, from, e - 1)
    }
}

/// Where the last stretch of the first `e` characters begins.
pub open spec fn stretch_start(path: Seq<char>, e: int) -> int {
    match last_slash(path, start_len(path), e) {
        Some(q) => q + 1,
        None => start_len(path),
    }
}

/// Where the path ends once the last stretch of the first `e` characters
/// and the separator before it are gone.
pub open spec fn before_stretch(path: Seq<char>, e: int) -> int {
    match last_slash(path, start_len(path), e) {
        Some(q) => q,
        None => start_len(path),
    }
}

/// The end of the last component among the first `e` characters.
pub open spec fn component_end(path: Seq<char>, e: int) -> int
    decreases e,
    when 0 <= e
    via component_end_decreases
{
    if e <= start_len(path) {
        e
    } else {
        let last = path.subrange(stretch_start(path, e), e);
        if last.len() == 0 || last == "."@ {
            component_end(path, before_stretch(path, e))
        } else {
            e
        }
    }
}

#[via_fn]
proof fn component_end_decreases(path: Seq<char>, e: int) {
    lemma_last_slash(path, start_len(path), e);
    reveal_strlit(".");
}

proof fn lemma_last_slash(path: Seq<char>, from: int, e: int)
    requires
        0 <= from,
    ensures
        match last_slash(path, from, e) {
            Some(q) => from <= q < e && path[q] == '/',
            None => true,
        },
    decreases e,
{
    if from < e && path[e - 1] != '/' {
        lemma_last_slash(path, from, e - 1);
    }
}

/// The name at the end of a path: its last component, unless that is the
/// root, `.` or `..`.
pub open spec fn name_of(path: Seq<char>) -> Option<Seq<char>> {
    let e = component_end(path, path.len() as int);
    if e <= start_len(path) {
        None
    } else {
        let last = path.subrange(stretch_start(path, e), e);
        if last == ".."@ {
            None
        } else {
            Some(last)
        }
    }
}

/// The path without its last component.
pub open spec fn parent_of(path: Seq<char>) -> Option<Seq<char>> {
    let e = component_end(path, path.len() as int);
    if e > start_len(path) {
        Some(path.take(component_end(path, before_stretch(path, e))))
    } else if dotted(path) && !rooted(path) {
        Some(Seq::empty())
    } else {
        None
    }
}

proof fn lemma_component_end(path: Seq<char>, e: int)
    requires
        0 <= e,
    ensures
        0 <= component_end(path, e) <= e,
    decreases e,
{
    if e > start_len(path) {
        lemma_last_slash(path, start_len(path), e);
        let last = path.subrange(stretch_start(path, e), e);
        if last.len() == 0 || last == "."@ {
            lemma_component_end(path, before_stretch(path, e));
        }
    }
}

/// A parent is shorter.
pub proof fn lemma_parent_is_shorter(path: Seq<char>)
    ensures
        parent_of(path) matches Some(p) ==> p.len() < path.len(),
{
    let e = component_end(path, path.len() as int);
    lemma_component_end(path, path.len() as int);
    if e > start_len(path) {
        lemma_last_slash(path, start_len(path), e);
        lemma_component_end(path, before_stretch(path, e));
    }
}

fn start_of(v: &Vec<char>) -> (r: usize)
    ensures
        r == start_len(v@),
        r <= v@.len(),
{
    if v.len() > 0 && (v[0] == '/' || (v[0] == '.' && (v.len() == 1 || v[1] == '/'))) {
        1
    } else {
        0
    }
}

fn slash_before(v: &Vec<char>, from: usize, e: usize) -> (r: Option<usize>)
    requires
        e <= v@.len(),
    ensures
        last_slash(v@, from as int, e as int) == (match r {
            Some(q) => Some(q as int),
            None => None,
        }),
        r matches Some(q) ==> from <= q < e,
{
    let mut i: usize = e;
    while i > from
        invariant
            i <= e <= v@.len(),
            last_slash(v@, from as int, e as int) == last_slash(v@, from as int, i as int),
        decreases i,
    {
        if v[i - 1] == '/' {
            return Some(i - 1);
        }
        i = i - 1;
    }
    None
}

fn end_of_component(v: &Vec<char>, from: usize) -> (r: usize)
    requires
        from <= v@.len(),
    ensures
        r == component_end(v@, from as int),
        r <= from,
        r > start_len(v@) ==> stretch_start(v@, r as int) < r,
{
    let start = start_of(v);
    let mut e: usize = from;
    while e > start
        invariant
            start == start_len(v@),
            e <= from <= v@.len(),
            component_end(v@, from as int) == component_end(v@, e as int),
        ensures
            e <= from,
            e == component_end(v@, from as int),
            e > start_len(v@) ==> stretch_start(v@, e as int) < e,
        decreases e,
    {
        let found = slash_before(v, start, e);
        let begin: usize = match found {
            Some(q) => q + 1,
            None => start,
        };
        if begin < e {
            let last = piece(v, begin, e);
            if !same(last.as_str(), ".") {
                break;
            }
        }
        proof {
            assert(v@.subrange(begin as int, e as int).len() == e - begin);
        }
        e = match found {
            Some(q) => q,
            None => start,
        };
    }
    e
}

/// The name at the end of a path.
pub fn file_name(path: &str) -> (r: Option<String>)
    ensures
        r.deep_view() == name_of(path@),
{
    let v = chars_of(path);
    let e = end_of_component(&v, v.len());
    let start = start_of(&v);
    if e <= start {
        return None;
    }
    let begin: usize = match slash_before(&v, start, e) {
        Some(q) => q + 1,
        None => start,
    };
    let last = piece(&v, begin, e);
    if same(last.as_str(), "..") {
        None
    } else {
        Some(last)
    }
}

/// The path without its last component.
pub fn parent(path: &str) -> (r: Option<String>)
    ensures
        r.deep_view() == parent_of(path@),
        r matches Some(p) ==> p@.len() < path@.len(),
{
    let v = chars_of(path);
    let e = end_of_component(&v, v.len());
    let start = start_of(&v);
    if e > start {
        let cut: usize = match slash_before(&v, start, e) {
            Some(q) => q,
            None => start,
        };
        let stop = end_of_component(&v, cut);
        let p = piece(&v, 0, stop);
        assert(p@ =~= path@.take(stop as int));
        Some(p)
    } else if v.len() > 0 && v[0] == '.' && (v.len() == 1 || v[1] == '/') {
        let p = String::new();
        assert(p@ =~= Seq::<char>::empty());
        Some(p)
    } else {
        None
    }
}

// ---------------------------------------------------------------------
// Extension and stem
// ---------------------------------------------------------------------

/// The last position before `i` that holds a dot.
pub open spec fn last_dot(s: Seq<char>, i: int) -> int
    decreases i,
{
    if i <= 0 {
        -1
    } else if s[i - 1] == '.' {
        i - 1
    } else {
        last_dot(s, i - 1)
    }
}

/// The extension of a path's name: what follows its last dot, unless the
/// name has no dot or only one at its start.
pub open spec fn extension_of(path: Seq<char>) -> Option<Seq<char>> {
    match name_of(path) {
        Some(name) => {
            let k = last_dot(name, name.len() as int);
            if k > 0 {
                Some(name.skip(k + 1))
            } else {
                None
            }
        },
        None => None,
    }
}

/// A path's name without its extension.
pub open spec fn stem_of(path: Seq<char>) -> Option<Seq<char>> {
    match name_of(path) {
        Some(name) => {
            let k = last_dot(name, name.len() as int);
            if k > 0 {
                Some(name.take(k))
            } else {
                Some(name)
            }
        },
        None => None,
    }
}

fn dot_at(v: &Vec<char>) -> (r: Option<usize>)
    ensures
        last_dot(v@, v@.len() as int) == (match r {
            Some(k) => k as int,
            None => -1int,
        }),
        r matches Some(k) ==> k < v@.len(),
{
    let mut i: usize = v.len();
    while i > 0
        invariant
            i <= v@.len(),
            last_dot(v@, v@.len() as int) == last_dot(v@, i as int),
        decreases i,
    {
        if v[i - 1] == '.' {
            return Some(i - 1);
        }
        i = i - 1;
    }
    None
}

/// The extension of a path's name.
pub fn extension(path: &str) -> (r: Option<String>)
    ensures
        r.deep_view() == extension_of(path@),
{
    match file_name(path) {
        Some(name) => {
            let v = chars_of(name.as_str());
            match dot_at(&v) {
                Some(k) => {
                    if k > 0 {
                        let e = piece(&v, k + 1, v.len());
                        assert(e@ =~= name@.skip(k + 1));
                        Some(e)
                    } else {
                        None
                    }
                },
                None => None,
            }
        },
        None => None,
    }
}

/// A path's name without its extension.
pub fn file_stem(path: &str) -> (r: Option<String>)
    ensures
        r.deep_view() == stem_of(path@),
{
    match file_name(path) {
        Some(name) => {
            let v = chars_of(name.as_str());
            match dot_at(&v) {
                Some(k) => {
                    if k > 0 {
                        let e = piece(&v, 0, k);
                        assert(e@ =~= name@.take(k as int));
                        Some(e)
                    } else {
                        Some(name)
                    }
                },
                None => Some(name),
            }
        },
        None => None,
    }
}

// ---------------------------------------------------------------------
// Joining
// ---------------------------------------------------------------------

/// `more` seen from `base`: itself when it starts at the root, else both
/// with one separator between them.
pub open spec fn joined_path(base: Seq<char>, more: Seq<char>) -> Seq<char> {
    if rooted(more) {
        more
    } else if base.len() > 0 && base.last() != '/' {
        base + "/"@ + more
    } else {
        base + more
    }
}

/// Whether `path` starts at the root.
pub fn is_absolute(path: &str) -> (r: bool)
    ensures
        r == rooted(path@),
{
    path.unicode_len() > 0 && path.get_char(0) == '/'
}

/// `more` seen from `base`.
pub fn join(base: &str, more: &str) -> (r: String)
    ensures
        r@ == joined_path(base@, more@),
{
    if is_absolute(more) {
        owned(more)
    } else {
        let n: usize = base.unicode_len();
        if n > 0 && base.get_char(n - 1) != '/' {
            cat3(base, "/", more)
        } else {
            cat2(base, more)
        }
    }
}

/// Whether some component of `path` is `name`.
pub fn has_component(path: &str, name: &str) -> (r: bool)
    ensures
        r == components(path@).contains(name@),
{
    let all = parts(path);
    crate::views::has_entry(&all, name)
}

} // verus!
