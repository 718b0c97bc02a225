//! Java sources: imports and words.

use crate::java::imports::{
    all_marked, all_unmarked, import_place, import_repeated, imports_name, imports_once,
    is_import, missing_imports, resolved_lines, unmarked,
};
use crate::java::rename::{has_word, stands_alone, word_replacement, words_replaced};
use crate::laws::tables::{has_key, law_keys_hold_each_key_once};
use crate::order::ByText;
use crate::table::key_set;
use crate::text::{
    find_from, has_text, is_space, lemma_find_from, lemma_has_text_is_found,
    occurs_at, space_end, space_start, trimmed, trimmed_end, trimmed_start,
};
use vstd::prelude::*;

verus! {

broadcast use vstd::string::group_string_axioms;

// ---------------------------------------------------------------------
// Repeated imports
// ---------------------------------------------------------------------

/// Once repeated imports are blanked out, no import is repeated, and the
/// number of lines is the same.
pub proof fn law_each_import_is_left_once(all: Seq<Seq<char>>, i: int)
    requires
        0 <= i < all.len(),
    ensures
        imports_once(all).len() == all.len(),
        !import_repeated(imports_once(all), i),
{
    let once = imports_once(all);
    reveal_strlit("import ");
    if import_repeated(once, i) {
        let k = choose|k: int| 0 <= k < i && trimmed(#[trigger] once[k]) == trimmed(once[i]);
        let none = Seq::<char>::empty();
        assert(trimmed(none) =~= none);
        assert(once[i] == all[i]) by {
            if import_repeated(all, i) {
                assert(once[i] =~= none);
            }
        }
        if import_repeated(all, k) {
            assert(once[k] =~= none);
        } else {
            assert(trimmed(all[k]) == trimmed(all[i]));
        }
    }
}

/// Blanking out repeated imports a second time changes nothing.
pub proof fn law_blanking_imports_is_idempotent(all: Seq<Seq<char>>)
    ensures
        imports_once(imports_once(all)) == imports_once(all),
{
    let once = imports_once(all);
    assert forall|i: int| 0 <= i < once.len() implies imports_once(once)[i] == once[i] by {
        law_each_import_is_left_once(all, i);
    }
    assert(imports_once(once) =~= once);
}

// ---------------------------------------------------------------------
// Markers
// ---------------------------------------------------------------------

/// A line without its markers holds no marker.
pub proof fn law_no_marker_is_left(line: Seq<char>)
    ensures
        !has_text(unmarked(line), "// __ADD_IMPORT:"@),
{
    let marker = "// __ADD_IMPORT:"@;
    lemma_has_text_is_found(line, marker);
    lemma_find_from(line, marker, 0);
    match find_from(line, marker, 0) {
        Some(p) => {
            let rest = unmarked(line);
            if has_text(rest, marker) {
                reveal_strlit("// __ADD_IMPORT:");
                let i = choose|i: int| occurs_at(rest, marker, i);
                assert(line.subrange(i, i + marker.len()) =~= rest.subrange(
                    i,
                    i + marker.len(),
                ));
                assert(occurs_at(line, marker, i));
            }
        },
        None => {},
    }
}

/// A text that neither begins nor ends in white space is left alone.
proof fn lemma_trimmed_is_itself(s: Seq<char>)
    requires
        s.len() > 0,
        !is_space(s[0]),
        !is_space(s.last()),
    ensures
        trimmed(s) == s,
{
    assert(space_start(s, s.len() as int) == s.len());
    assert(trimmed_end(s) =~= s);
    assert(space_end(s, 0) == 0);
    assert(trimmed_start(s) =~= s);
}

/// The line that imports a name.
pub open spec fn import_line(name: Seq<char>) -> Seq<char> {
    "import "@ + name + ";"@
}

proof fn lemma_import_line(name: Seq<char>)
    ensures
        is_import(import_line(name)),
        trimmed(import_line(name)) == import_line(name),
{
    reveal_strlit("import ");
    reveal_strlit(";");
    let line = import_line(name);
    assert(line[0] == 'i');
    assert(line.last() == ';');
    lemma_trimmed_is_itself(line);
    assert(line.subrange(0, "import "@.len() as int) =~= "import "@);
    assert(occurs_at(line, "import "@, 0));
    assert(line.subrange(line.len() - 1, line.len() as int) =~= ";"@);
    assert(occurs_at(line, ";"@, line.len() - 1));
}

proof fn lemma_missing(all: Seq<Seq<char>>, names: Seq<Seq<char>>, n: int, k: int)
    requires
        0 <= k < n <= names.len(),
    ensures
        imports_name(all, names[k]) || missing_imports(all, names, n).contains(
            import_line(names[k]),
        ),
    decreases n,
{
    let now = missing_imports(all, names, n);
    if k == n - 1 {
        if !imports_name(all, names[k]) {
            assert(now.last() == import_line(names[k]));
        }
    } else {
        lemma_missing(all, names, n - 1, k);
        let before = missing_imports(all, names, n - 1);
        if before.contains(import_line(names[k])) {
            let j = choose|j: int| 0 <= j < before.len() && before[j] == import_line(names[k]);
            assert(now[j] == import_line(names[k]));
        }
    }
}

proof fn lemma_import_place(all: Seq<Seq<char>>, n: int)
    requires
        0 <= n <= all.len(),
        all.len() > 0,
    ensures
        1 <= import_place(all, n) <= all.len(),
    decreases n,
{
    if n > 0 && !is_import(all[n - 1]) {
        lemma_import_place(all, n - 1);
    }
}

/// Every name that a marker asks for is imported once the markers are
/// resolved.
pub proof fn law_marked_names_are_imported(all: Seq<Seq<char>>, name: Seq<char>)
    requires
        all_marked(all, all.len() as int).contains(name),
    ensures
        imports_name(resolved_lines(all), name),
{
    let marked = all_marked(all, all.len() as int);
    let names = key_set::<ByText>(marked, marked.len() as int);
    let plain = all_unmarked(all);
    let new = missing_imports(plain, names, names.len() as int);
    let at = import_place(plain, plain.len() as int);
    let done = resolved_lines(all);
    law_keys_hold_each_key_once::<ByText>(marked, marked.len() as int);
    let m = choose|m: int| 0 <= m < marked.len() && marked[m] == name;
    assert(has_key::<ByText>(names, marked[m]));
    let k = choose|k: int|
        0 <= k < names.len() && <ByText as crate::order::KeyOrder>::same(#[trigger] names[k], name);
    assert(names[k] == name);
    lemma_missing(plain, names, names.len() as int, k);
    lemma_import_line(name);
    assert(all.len() > 0) by {
        if all.len() == 0 {
            assert(marked.len() == 0);
        }
    }
    lemma_import_place(plain, plain.len() as int);
    if imports_name(plain, name) {
        let j = choose|j: int|
            0 <= j < plain.len() && is_import(#[trigger] plain[j]) && trimmed(plain[j])
                == import_line(name);
        if new.len() == 0 || j < at {
            assert(done[j] == plain[j]);
        } else {
            assert(done[j + new.len()] == plain[j]);
        }
    } else {
        let j = choose|j: int| 0 <= j < new.len() && new[j] == import_line(name);
        assert(done[at + j] == new[j]);
    }
}

/// Resolving markers keeps every other line: the lines without their markers
/// stand in the result in their order, around the new imports.
pub proof fn law_resolving_keeps_the_lines(all: Seq<Seq<char>>, i: int)
    requires
        0 <= i < all.len(),
    ensures
        ({
            let done = resolved_lines(all);
            let added = done.len() - all.len();
            &&& added >= 0
            &&& done[i] == unmarked(all[i]) || done[i + added] == unmarked(all[i])
        }),
{
    let marked = all_marked(all, all.len() as int);
    let names = key_set::<ByText>(marked, marked.len() as int);
    let plain = all_unmarked(all);
    let new = missing_imports(plain, names, names.len() as int);
    let at = import_place(plain, plain.len() as int);
    let done = resolved_lines(all);
    lemma_import_place(plain, plain.len() as int);
    assert(plain[i] == unmarked(all[i]));
    if new.len() > 0 {
        if i < at {
            assert(done[i] == plain[i]);
        } else {
            assert(done[i + new.len()] == plain[i]);
        }
    }
}

// ---------------------------------------------------------------------
// Words
// ---------------------------------------------------------------------

/// A line on which a text does not stand has no such word.
pub proof fn law_absent_word_is_not_replaced(line: Seq<char>, old: Seq<char>, new: Seq<char>)
    requires
        !has_text(line, old),
    ensures
        word_replacement(line, old, new) is None,
{
    lemma_has_text_is_found(line, old);
}

proof fn lemma_words_by_themselves(line: Seq<char>, old: Seq<char>, i: int)
    requires
        0 <= i <= line.len(),
    ensures
        words_replaced(line, old, old, i) == line.skip(i),
    decreases line.len() - i + 1,
{
    lemma_find_from(line, old, i);
    match find_from(line, old, i) {
        Some(k) => {
            if 0 < old.len() {
                lemma_words_by_themselves(line, old, k + old.len());
                assert(line.subrange(k, k + old.len()) =~= old);
                assert(words_replaced(line, old, old, i) =~= line.skip(i));
            }
        },
        None => {},
    }
}

/// Replacing a word by itself changes nothing.
pub proof fn law_word_replaced_by_itself(line: Seq<char>, old: Seq<char>)
    ensures
        word_replacement(line, old, old) matches Some(r) ==> r == line,
{
    lemma_words_by_themselves(line, old, 0);
    assert(line.skip(0) =~= line);
}

proof fn lemma_has_word(line: Seq<char>, old: Seq<char>, i: int)
    requires
        0 <= i <= line.len(),
        has_word(line, old, i),
    ensures
        exists|k: int| i <= k && #[trigger] occurs_at(line, old, k) && stands_alone(
            line,
            k,
            old.len() as int,
        ),
    decreases line.len() - i + 1,
{
    lemma_find_from(line, old, i);
    let k = find_from(line, old, i)->Some_0;
    if !stands_alone(line, k, old.len() as int) {
        lemma_has_word(line, old, k + old.len());
    }
}

/// A word is replaced only where it stands on its own: on a line on which
/// the text is always a part of a longer word nothing is replaced.
pub proof fn law_parts_of_words_are_left_alone(line: Seq<char>, old: Seq<char>, new: Seq<char>)
    requires
        forall|k: int| #[trigger]
            occurs_at(line, old, k) ==> !stands_alone(line, k, old.len() as int),
    ensures
        word_replacement(line, old, new) is None,
{
    if has_word(line, old, 0) {
        lemma_has_word(line, old, 0);
    }
}

} // verus!
