//! Java import lines: adding the ones that rewritten annotations need and
//! keeping each one once.

use crate::order::ByText;
use crate::table::{key_set, sorted_keys};
use crate::text::{
    begins, cat3, char_pos, chars_of, ends, ends_with, find_at, find_from, lemma_find_from, owned,
    piece, position_of, same, starts_with, trim, trimmed,
};
use crate::views::{append_all, append_one};
use vstd::prelude::*;

verus! {

broadcast use vstd::string::group_string_axioms;

/// The line is an import.
pub open spec fn is_import(line: Seq<char>) -> bool {
    begins(trimmed(line), "import "@) && ends(trimmed(line), ";"@)
}

fn check_import(line: &str) -> (r: bool)
    ensures
        r == is_import(line@),
{
    let t = trim(line);
    starts_with(t, "import ") && ends_with(t, ";")
}

// ---------------------------------------------------------------------
// Pending imports
// ---------------------------------------------------------------------

/// Where the text that begins at `from` behind a marker ends.
pub open spec fn marked_end(line: Seq<char>, from: int) -> int {
    match find_from(line, "// __ADD_IMPORT:"@, from) {
        Some(q) => q,
        None => line.len() as int,
    }
}

/// The name in the text behind a marker: it ends at a space.
pub open spec fn marked_name(text: Seq<char>) -> Seq<char> {
    trimmed(text).take(char_pos(trimmed(text), ' ', 0))
}

/// A text as a list, or an empty list where it is empty.
pub open spec fn unless_empty(s: Seq<char>) -> Seq<Seq<char>> {
    if s.len() > 0 {
        seq![s]
    } else {
        Seq::empty()
    }
}

/// The names that the markers from position `i` on ask to import.
pub open spec fn marked_names(line: Seq<char>, i: int) -> Seq<Seq<char>>
    decreases line.len() - i,
    via marked_names_decreases
{
    if i < 0 || i > line.len() {
        Seq::empty()
    } else {
        match find_from(line, "// __ADD_IMPORT:"@, i) {
            Some(p) => {
                let from = p + "// __ADD_IMPORT:"@.len();
                let end = marked_end(line, from);
                unless_empty(marked_name(line.subrange(from, end))) + marked_names(line, end)
            },
            None => Seq::empty(),
        }
    }
}

#[via_fn]
proof fn marked_names_decreases(line: Seq<char>, i: int) {
    reveal_strlit("// __ADD_IMPORT:");
    if 0 <= i <= line.len() {
        lemma_find_from(line, "// __ADD_IMPORT:"@, i);
        match find_from(line, "// __ADD_IMPORT:"@, i) {
            Some(p) => {
                let from = p + "// __ADD_IMPORT:"@.len();
                lemma_find_from(line, "// __ADD_IMPORT:"@, from);
            },
            None => {},
        }
    }
}

/// A line without its markers: what stands before the first one and the space
/// in front of it.
pub open spec fn unmarked(line: Seq<char>) -> Seq<char> {
    match find_from(line, "// __ADD_IMPORT:"@, 0) {
        Some(p) => if p > 0 && line[p - 1] == ' ' {
            line.take(p - 1)
        } else {
            line.take(p)
        },
        None => line,
    }
}

/// The names that the markers on the first `n` lines ask to import.
pub open spec fn all_marked(all: Seq<Seq<char>>, n: int) -> Seq<Seq<char>>
    decreases n,
{
    if n <= 0 {
        Seq::empty()
    } else {
        all_marked(all, n - 1) + marked_names(all[n - 1], 0)
    }
}

/// The lines without their markers.
pub open spec fn all_unmarked(all: Seq<Seq<char>>) -> Seq<Seq<char>> {
    Seq::new(all.len(), |i: int| unmarked(all[i]))
}

/// Some line imports the name.
pub open spec fn imports_name(all: Seq<Seq<char>>, name: Seq<char>) -> bool {
    exists|k: int|
        0 <= k < all.len() && is_import(#[trigger] all[k]) && trimmed(all[k]) == "import "@ + name
            + ";"@
}

/// The imports of those of the first `n` names that no line imports yet.
pub open spec fn missing_imports(all: Seq<Seq<char>>, names: Seq<Seq<char>>, n: int) -> Seq<
    Seq<char>,
>
    decreases n,
{
    if n <= 0 {
        Seq::empty()
    } else if imports_name(all, names[n - 1]) {
        missing_imports(all, names, n - 1)
    } else {
        missing_imports(all, names, n - 1).push("import "@ + names[n - 1] + ";"@)
    }
}

/// The place after the last import among the first `n` lines; after the
/// first line where there is none.
pub open spec fn import_place(all: Seq<Seq<char>>, n: int) -> int
    decreases n,
{
    if n <= 0 {
        1
    } else if is_import(all[n - 1]) {
        n
    } else {
        import_place(all, n - 1)
    }
}

/// The lines without markers, and with the imports that the markers ask for
/// behind the imports that are there. The new imports are in order, each
/// once, and none is there already.
pub open spec fn resolved_lines(all: Seq<Seq<char>>) -> Seq<Seq<char>> {
    let marked = all_marked(all, all.len() as int);
    let names = key_set::<ByText>(marked, marked.len() as int);
    let plain = all_unmarked(all);
    let new = missing_imports(plain, names, names.len() as int);
    let at = import_place(plain, plain.len() as int);
    if new.len() == 0 {
        plain
    } else {
        plain.subrange(0, at) + new + plain.subrange(at, plain.len() as int)
    }
}

fn name_in(text: &str) -> (r: String)
    ensures
        r@ == marked_name(text@),
{
    let v = chars_of(trim(text));
    let n = position_of(&v, ' ', 0);
    let r = piece(&v, 0, n);
    assert(r@ =~= marked_name(text@));
    r
}

fn names_on_line(line: &str) -> (r: Vec<String>)
    ensures
        r.deep_view() == marked_names(line@, 0),
{
    let v = chars_of(line);
    let marker = chars_of("// __ADD_IMPORT:");
    proof {
        reveal_strlit("// __ADD_IMPORT:");
    }
    let size: usize = marker.len();
    let total: usize = v.len();
    let mut out: Vec<String> = Vec::new();
    let mut i: usize = 0;
    assert(out.deep_view() + marked_names(line@, 0) =~= marked_names(line@, 0));
    loop
        invariant
            i <= total,
            total == v@.len(),
            size == marker@.len(),
            size > 0,
            v@ == line@,
            marker@ == "// __ADD_IMPORT:"@,
            out.deep_view() + marked_names(line@, i as int) == marked_names(line@, 0),
        decreases total - i,
    {
        match find_at(&v, &marker, i) {
            Some(p) => {
                let from: usize = p + size;
                let end: usize = match find_at(&v, &marker, from) {
                    Some(q) => q,
                    None => total,
                };
                let text = piece(&v, from, end);
                let name = name_in(text.as_str());
                let ghost before = out.deep_view();
                if name.as_str().unicode_len() > 0 {
                    append_one(&mut out, name.clone());
                }
                assert(out.deep_view() =~= before + unless_empty(name@));
                assert(out.deep_view() + marked_names(line@, end as int) =~= before + (unless_empty(
                    name@,
                ) + marked_names(line@, end as int)));
                i = end;
            },
            None => {
                assert(out.deep_view() + marked_names(line@, i as int) =~= out.deep_view());
                return out;
            },
        }
    }
}

fn unmark(line: &str) -> (r: String)
    ensures
        r@ == unmarked(line@),
{
    let v = chars_of(line);
    let marker = chars_of("// __ADD_IMPORT:");
    match find_at(&v, &marker, 0) {
        Some(p) => {
            let end: usize = if p > 0 && v[p - 1] == ' ' {
                p - 1
            } else {
                p
            };
            let r = piece(&v, 0, end);
            assert(r@ =~= unmarked(line@));
            r
        },
        None => owned(line),
    }
}

fn is_imported(all: &Vec<String>, name: &str) -> (r: bool)
    ensures
        r == imports_name(all.deep_view(), name@),
{
    let ghost view = all.deep_view();
    let wanted = cat3("import ", name, ";");
    let mut k: usize = 0;
    while k < all.len()
        invariant
            k <= all@.len(),
            view == all.deep_view(),
            wanted@ == "import "@ + name@ + ";"@,
            forall|j: int|
                0 <= j < k ==> !(is_import(#[trigger] view[j]) && trimmed(view[j]) == "import "@
                    + name@ + ";"@),
        decreases all@.len() - k,
    {
        assert(view[k as int] == all@[k as int]@);
        if check_import(all[k].as_str()) && same(trim(all[k].as_str()), wanted.as_str()) {
            return true;
        }
        k = k + 1;
    }
    false
}

fn find_import_place(all: &Vec<String>) -> (r: usize)
    ensures
        r == import_place(all.deep_view(), all@.len() as int),
{
    let ghost view = all.deep_view();
    let mut n: usize = all.len();
    while n > 0
        invariant
            n <= all@.len(),
            view == all.deep_view(),
            import_place(view, all@.len() as int) == import_place(view, n as int),
        decreases n,
    {
        assert(view[n - 1] == all@[n - 1]@);
        if check_import(all[n - 1].as_str()) {
            return n;
        }
        n = n - 1;
    }
    1
}

/// Resolves the markers that rewritten annotations leave: takes them off the
/// lines and adds the imports that they ask for and that are not there yet.
pub fn resolve_pending_imports(lines: &mut Vec<String>)
    ensures
        final(lines).deep_view() == resolved_lines(old(lines).deep_view()),
        final(lines)@.len() >= old(lines)@.len(),
{
    let ghost all = lines.deep_view();
    let mut marked: Vec<String> = Vec::new();
    let mut plain: Vec<String> = Vec::new();
    let mut i: usize = 0;
    assert(marked.deep_view() =~= Seq::<Seq<char>>::empty());
    while i < lines.len()
        invariant
            i <= lines@.len(),
            all == lines.deep_view(),
            marked.deep_view() == all_marked(all, i as int),
            plain@.len() == i,
            forall|k: int| 0 <= k < i ==> (#[trigger] plain@[k])@ == unmarked(all[k]),
        decreases lines@.len() - i,
    {
        assert(all[i as int] == lines@[i as int]@);
        append_all(&mut marked, names_on_line(lines[i].as_str()));
        plain.push(unmark(lines[i].as_str()));
        i = i + 1;
    }
    assert(all.len() == lines@.len());
    assert(plain.deep_view() =~= all_unmarked(all));
    assert(marked.deep_view().len() == marked@.len());
    let names = sorted_keys::<ByText>(&marked);
    assert(names.deep_view().len() == names@.len());
    let mut new: Vec<String> = Vec::new();
    let ghost bare = plain.deep_view();
    i = 0;
    assert(new.deep_view() =~= Seq::<Seq<char>>::empty());
    while i < names.len()
        invariant
            i <= names@.len(),
            bare == plain.deep_view(),
            new.deep_view() == missing_imports(bare, names.deep_view(), i as int),
        decreases names@.len() - i,
    {
        assert(names.deep_view()[i as int] == names@[i as int]@);
        if !is_imported(&plain, names[i].as_str()) {
            append_one(&mut new, cat3("import ", names[i].as_str(), ";"));
        }
        i = i + 1;
    }
    assert(new.deep_view().len() == new@.len());
    assert(bare.len() == plain@.len());
    if new.len() == 0 {
        *lines = plain;
        return;
    }
    proof {
        assert(all.len() > 0) by {
            if all.len() == 0 {
                assert(all_marked(all, 0).len() == 0);
                assert(key_set::<ByText>(marked.deep_view(), 0).len() == 0);
            }
        }
        lemma_import_place(bare, bare.len() as int);
    }
    let at = find_import_place(&plain);
    let mut out: Vec<String> = Vec::new();
    i = 0;
    while i < at
        invariant
            i <= at <= plain@.len(),
            bare == plain.deep_view(),
            out@.len() == i,
            forall|k: int| 0 <= k < i ==> (#[trigger] out@[k])@ == bare[k],
        decreases at - i,
    {
        assert(bare[i as int] == plain@[i as int]@);
        out.push(plain[i].clone());
        i = i + 1;
    }
    assert(out.deep_view() =~= bare.subrange(0, at as int));
    append_all(&mut out, new);
    let ghost front = out.deep_view();
    assert(front =~= bare.subrange(0, at as int) + missing_imports(
        bare,
        names.deep_view(),
        names@.len() as int,
    ));
    assert(front + bare.subrange(at as int, at as int) =~= front);
    while i < plain.len()
        invariant
            at <= i <= plain@.len(),
            bare == plain.deep_view(),
            bare.len() == plain@.len(),
            out.deep_view() == front + bare.subrange(at as int, i as int),
        decreases plain@.len() - i,
    {
        assert(bare[i as int] == plain@[i as int]@);
        append_one(&mut out, plain[i].clone());
        assert(out.deep_view() =~= front + bare.subrange(at as int, i + 1));
        i = i + 1;
    }
    assert(out.deep_view().len() == out@.len());
    assert(out@.len() >= bare.len());
    *lines = out;
}

proof fn lemma_import_place(all: Seq<Seq<char>>, n: int)
    requires
        0 <= n,
    ensures
        1 <= import_place(all, n),
        import_place(all, n) <= n || import_place(all, n) == 1,
    decreases n,
{
    if n > 0 && !is_import(all[n - 1]) {
        lemma_import_place(all, n - 1);
    }
}

// ---------------------------------------------------------------------
// Each import once
// ---------------------------------------------------------------------

/// Line `i` is an import that stands on an earlier line already.
pub open spec fn import_repeated(all: Seq<Seq<char>>, i: int) -> bool {
    is_import(all[i]) && exists|k: int|
        0 <= k < i && trimmed(#[trigger] all[k]) == trimmed(all[i])
}

/// The lines with repeated imports blanked out.
pub open spec fn imports_once(all: Seq<Seq<char>>) -> Seq<Seq<char>> {
    Seq::new(
        all.len(),
        |i: int|
            if import_repeated(all, i) {
                Seq::empty()
            } else {
                all[i]
            },
    )
}

fn stands_above(all: &Vec<String>, i: usize) -> (r: bool)
    requires
        i < all@.len(),
    ensures
        r == import_repeated(all.deep_view(), i as int),
{
    let ghost view = all.deep_view();
    assert(view[i as int] == all@[i as int]@);
    if !check_import(all[i].as_str()) {
        return false;
    }
    let own = trim(all[i].as_str());
    let mut k: usize = 0;
    while k < i
        invariant
            k <= i < all@.len(),
            view == all.deep_view(),
            is_import(view[i as int]),
            own@ == trimmed(view[i as int]),
            forall|j: int| 0 <= j < k ==> trimmed(#[trigger] view[j]) != trimmed(view[i as int]),
        decreases i - k,
    {
        assert(view[k as int] == all@[k as int]@);
        if same(trim(all[k].as_str()), own) {
            return true;
        }
        k = k + 1;
    }
    false
}

/// Blanks out the imports that stand on an earlier line already.
pub fn dedup_java_imports(lines: &mut Vec<String>)
    ensures
        final(lines).deep_view() == imports_once(old(lines).deep_view()),
        final(lines)@.len() == old(lines)@.len(),
{
    let ghost all = lines.deep_view();
    let ghost goal = imports_once(all);
    let mut out: Vec<String> = Vec::new();
    let mut i: usize = 0;
    while i < lines.len()
        invariant
            i <= lines@.len(),
            all == lines.deep_view(),
            goal == imports_once(all),
            out@.len() == i,
            forall|k: int| 0 <= k < i ==> (#[trigger] out@[k])@ == goal[k],
        decreases lines@.len() - i,
    {
        assert(all[i as int] == lines@[i as int]@);
        if stands_above(lines, i) {
            out.push(String::new());
        } else {
            out.push(lines[i].clone());
        }
        i = i + 1;
    }
    assert(out.deep_view() =~= goal);
    *lines = out;
}

} // verus!
