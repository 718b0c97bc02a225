//! Renaming a Java class: every line that names it, and what each of them
//! becomes.

use crate::java::rename::{
    class_edits, has_word, import_edits, import_rename_edits, import_rename_outcome, is_word_char,
    simple_name, stands_alone, word_replacement, words_replaced,
};
use crate::laws::words::{is_core, law_trimming};
use crate::model::TextEditView;
use crate::paths::last_dot;
use crate::report::IncidentView;
use crate::text::{
    begins, find_from, has_text, is_space, lemma_find_from, lines_of, occurs_at, replaced,
    replaced_from, trimmed,
};
use vstd::prelude::*;

verus! {

broadcast use vstd::string::group_string_axioms;

// ---------------------------------------------------------------------
// Words
// ---------------------------------------------------------------------

/// The character is an ASCII letter or digit, or the underscore.
pub open spec fn is_name_char(c: char) -> bool {
    ||| 0x30 <= c as u32 <= 0x39
    ||| 0x41 <= c as u32 <= 0x5a
    ||| c as u32 == 0x5f
    ||| 0x61 <= c as u32 <= 0x7a
}

/// The text is made of such characters.
pub open spec fn is_name(s: Seq<char>) -> bool {
    s.len() > 0 && forall|i: int| 0 <= i < s.len() ==> is_name_char(#[trigger] s[i])
}

/// The text stands on the line at `i`, and is no part of a longer name.
pub open spec fn word_at(line: Seq<char>, word: Seq<char>, i: int) -> bool {
    &&& occurs_at(line, word, i)
    &&& i > 0 ==> !is_name_char(line[i - 1])
    &&& i + word.len() < line.len() ==> !is_name_char(line[i + word.len()])
}

/// The line from `i` on, character by character, with `new` wherever the
/// word stands.
pub open spec fn rewritten(line: Seq<char>, word: Seq<char>, new: Seq<char>, i: int) -> Seq<char>
    decreases line.len() - i,
{
    if i < 0 || i >= line.len() {
        Seq::empty()
    } else if word.len() > 0 && word_at(line, word, i) {
        new + rewritten(line, word, new, i + word.len())
    } else {
        seq![line[i]] + rewritten(line, word, new, i + 1)
    }
}

proof fn lemma_copied(line: Seq<char>, word: Seq<char>, new: Seq<char>, i: int, k: int)
    requires
        0 <= i <= k <= line.len(),
        forall|j: int| i <= j < k ==> !#[trigger] word_at(line, word, j),
    ensures
        rewritten(line, word, new, i) == line.subrange(i, k) + rewritten(line, word, new, k),
    decreases k - i,
{
    if i < k {
        assert(!word_at(line, word, i));
        lemma_copied(line, word, new, i + 1, k);
        assert(line.subrange(i, k) =~= seq![line[i]] + line.subrange(i + 1, k));
        assert(rewritten(line, word, new, i) =~= line.subrange(i, k) + rewritten(
            line,
            word,
            new,
            k,
        ));
    } else {
        assert(line.subrange(i, k) + rewritten(line, word, new, k) =~= rewritten(
            line,
            word,
            new,
            k,
        ));
    }
}

proof fn lemma_name_char(c: char)
    ensures
        is_word_char(c) == is_name_char(c),
{
    assert('a' as u32 == 0x61);
    assert('z' as u32 == 0x7a);
    assert('A' as u32 == 0x41);
    assert('Z' as u32 == 0x5a);
    assert('0' as u32 == 0x30);
    assert('9' as u32 == 0x39);
    assert('_' as u32 == 0x5f);
}

proof fn lemma_alone(line: Seq<char>, word: Seq<char>, k: int)
    requires
        occurs_at(line, word, k),
    ensures
        stands_alone(line, k, word.len() as int) == word_at(line, word, k),
{
    if k > 0 {
        lemma_name_char(line[k - 1]);
    }
    if k + word.len() < line.len() {
        lemma_name_char(line[k + word.len()]);
    }
}

/// A word cannot begin inside an occurrence of itself.
proof fn lemma_no_word_inside(line: Seq<char>, word: Seq<char>, k: int, j: int)
    requires
        is_name(word),
        occurs_at(line, word, k),
        k < j < k + word.len(),
    ensures
        !word_at(line, word, j),
{
    assert(line.subrange(k, k + word.len())[j - 1 - k] == line[j - 1]);
    assert(is_name_char(word[j - 1 - k]));
}

proof fn lemma_rewritten(line: Seq<char>, word: Seq<char>, new: Seq<char>, i: int)
    requires
        is_name(word),
        0 <= i <= line.len(),
    ensures
        words_replaced(line, word, new, i) == rewritten(line, word, new, i),
        has_word(line, word, i) == exists|k: int| i <= k && #[trigger] word_at(line, word, k),
    decreases line.len() - i + 1,
{
    lemma_find_from(line, word, i);
    match find_from(line, word, i) {
        Some(k) => {
            let next = k + word.len();
            lemma_rewritten(line, word, new, next);
            lemma_alone(line, word, k);
            assert forall|j: int| i <= j < k implies !#[trigger] word_at(line, word, j) by {
                assert(!occurs_at(line, word, j));
            }
            lemma_copied(line, word, new, i, k);
            assert forall|j: int| k < j < next implies !#[trigger] word_at(line, word, j) by {
                lemma_no_word_inside(line, word, k, j);
            }
            if word_at(line, word, k) {
                assert(words_replaced(line, word, new, i) =~= rewritten(line, word, new, i));
            } else {
                lemma_copied(line, word, new, k, next);
                assert(line.subrange(k, next) == word);
                assert(words_replaced(line, word, new, i) =~= rewritten(line, word, new, i));
                if has_word(line, word, i) {
                    let m = choose|m: int| next <= m && #[trigger] word_at(line, word, m);
                    assert(i <= m);
                }
                if exists|m: int| i <= m && #[trigger] word_at(line, word, m) {
                    let m = choose|m: int| i <= m && #[trigger] word_at(line, word, m);
                    assert(next <= m);
                }
            }
        },
        None => {
            assert forall|j: int| i <= j implies !#[trigger] word_at(line, word, j) by {
                assert(!occurs_at(line, word, j));
            }
            lemma_copied(line, word, new, i, line.len() as int);
            assert(line.subrange(i, line.len() as int) =~= line.skip(i));
            assert(rewritten(line, word, new, i) =~= line.skip(i));
        },
    }
}

/// Replacing a word changes a line if and only if the word stands on it on
/// its own, and then puts the new text in each such place and keeps all else.
pub proof fn law_each_word_is_replaced(line: Seq<char>, word: Seq<char>, new: Seq<char>)
    requires
        is_name(word),
    ensures
        (exists|k: int| #[trigger] word_at(line, word, k)) ==> word_replacement(line, word, new)
            == Some(rewritten(line, word, new, 0)),
        !(exists|k: int| #[trigger] word_at(line, word, k)) ==> word_replacement(
            line,
            word,
            new,
        ) is None,
{
    lemma_rewritten(line, word, new, 0);
    if exists|k: int| #[trigger] word_at(line, word, k) {
        let k = choose|k: int| #[trigger] word_at(line, word, k);
        assert(0 <= k);
    }
}

// ---------------------------------------------------------------------
// Names
// ---------------------------------------------------------------------

proof fn lemma_last_dot(s: Seq<char>, i: int, k: int)
    requires
        -1 <= k < i <= s.len(),
        k >= 0 ==> s[k] == '.',
        forall|j: int| k < j < i ==> s[j] != '.',
    ensures
        last_dot(s, i) == k,
    decreases i,
{
    if k < i - 1 {
        lemma_last_dot(s, i - 1, k);
    } else if k < 0 {
        assert(i == 0);
    }
}

/// The simple name is what stands behind the last dot.
pub proof fn law_simple_name(package: Seq<char>, name: Seq<char>)
    requires
        !name.contains('.'),
    ensures
        simple_name(package + seq!['.'] + name) == name,
        simple_name(name) == name,
{
    let s = package + seq!['.'] + name;
    assert forall|j: int| 0 <= j < name.len() implies name[j] != '.' by {
        assert(name.contains(name[j]));
    }
    let n = package.len() as int;
    assert forall|j: int| n < j < s.len() implies s[j] != '.' by {
        assert(s[j] == name[j - n - 1]);
    }
    lemma_last_dot(s, s.len() as int, n);
    assert(s.skip(n + 1) =~= name);
    if name.len() > 0 {
        lemma_last_dot(name, name.len() as int, -1);
    }
    assert(name.skip(0) =~= name);
}

// ---------------------------------------------------------------------
// Replacing changes something
// ---------------------------------------------------------------------

spec fn occurrences(hay: Seq<char>, old_text: Seq<char>, i: int) -> nat
    decreases hay.len() - i + 1,
{
    match find_from(hay, old_text, i) {
        Some(k) => if i <= k && 0 < old_text.len() && k + old_text.len() <= hay.len() {
            1 + occurrences(hay, old_text, k + old_text.len())
        } else {
            0
        },
        None => 0,
    }
}

proof fn lemma_replaced_len(hay: Seq<char>, old_text: Seq<char>, new_text: Seq<char>, i: int)
    requires
        0 <= i <= hay.len(),
        old_text.len() > 0,
    ensures
        replaced_from(hay, old_text, new_text, i).len() == hay.len() - i + occurrences(
            hay,
            old_text,
            i,
        ) * (new_text.len() - old_text.len()),
    decreases hay.len() - i + 1,
{
    lemma_find_from(hay, old_text, i);
    match find_from(hay, old_text, i) {
        Some(k) => {
            let next = k + old_text.len();
            lemma_replaced_len(hay, old_text, new_text, next);
            let c = occurrences(hay, old_text, next);
            let d = new_text.len() - old_text.len();
            assert(occurrences(hay, old_text, i) == 1 + c);
            assert((1 + c) * d == d + c * d) by (nonlinear_arith);
        },
        None => {
            assert(occurrences(hay, old_text, i) == 0);
        },
    }
}

/// Replacing a text that stands on a line by another one changes the line.
pub proof fn law_replacing_changes_the_line(
    hay: Seq<char>,
    old_text: Seq<char>,
    new_text: Seq<char>,
)
    requires
        old_text.len() > 0,
        has_text(hay, old_text),
        old_text != new_text,
    ensures
        replaced(hay, old_text, new_text) != hay,
{
    lemma_find_from(hay, old_text, 0);
    let at = choose|at: int| occurs_at(hay, old_text, at);
    let k = find_from(hay, old_text, 0)->Some_0;
    let r = replaced(hay, old_text, new_text);
    lemma_replaced_len(hay, old_text, new_text, 0);
    if old_text.len() == new_text.len() {
        let rest = replaced_from(hay, old_text, new_text, k + old_text.len());
        assert(r == hay.subrange(0, k) + new_text + rest);
        assert(r.subrange(k, k + old_text.len()) =~= new_text);
        if r == hay {
            assert(hay.subrange(k, k + old_text.len()) == old_text);
        }
    } else {
        let c = occurrences(hay, old_text, 0);
        let d = new_text.len() - old_text.len();
        assert(c > 0);
        assert(c * d != 0) by (nonlinear_arith)
            requires
                c > 0,
                d != 0,
        ;
    }
}

// ---------------------------------------------------------------------
// The edits of a rename
// ---------------------------------------------------------------------

/// The edit replaces the whole line at place `idx` by another text.
pub open spec fn rewrites_line(
    e: TextEditView,
    rule_id: Seq<char>,
    all: Seq<Seq<char>>,
    idx: int,
    new_line: Seq<char>,
) -> bool {
    &&& e.line == idx + 1
    &&& e.old_text == all[idx]
    &&& e.new_text == new_line
    &&& e.rule_id == rule_id
    &&& !e.replace_all
}

/// Some edit does so.
pub open spec fn line_is_rewritten(
    edits: Seq<TextEditView>,
    rule_id: Seq<char>,
    all: Seq<Seq<char>>,
    idx: int,
    new_line: Seq<char>,
) -> bool {
    exists|k: int|
        0 <= k < edits.len() && rewrites_line(#[trigger] edits[k], rule_id, all, idx, new_line)
}

/// The line is an import.
pub open spec fn is_import_line(line: Seq<char>) -> bool {
    begins(trimmed(line), "import "@)
}

proof fn lemma_class_complete(
    rule_id: Seq<char>,
    all: Seq<Seq<char>>,
    old_class: Seq<char>,
    new_class: Seq<char>,
    n: int,
    idx: int,
)
    requires
        0 <= idx < n <= all.len() <= u32::MAX,
        !is_import_line(all[idx]),
        trimmed(all[idx]).len() > 0,
        word_replacement(all[idx], old_class, new_class) is Some,
    ensures
        line_is_rewritten(
            class_edits(rule_id, all, old_class, new_class, n),
            rule_id,
            all,
            idx,
            word_replacement(all[idx], old_class, new_class)->Some_0,
        ),
    decreases n,
{
    let before = class_edits(rule_id, all, old_class, new_class, n - 1);
    let now = class_edits(rule_id, all, old_class, new_class, n);
    let new_line = word_replacement(all[idx], old_class, new_class)->Some_0;
    if idx == n - 1 {
        assert(rewrites_line(now[before.len() as int], rule_id, all, idx, new_line));
    } else {
        lemma_class_complete(rule_id, all, old_class, new_class, n - 1, idx);
        let k = choose|k: int|
            0 <= k < before.len() && rewrites_line(
                #[trigger] before[k],
                rule_id,
                all,
                idx,
                new_line,
            );
        assert(now[k] == before[k]);
    }
}

proof fn lemma_import_complete(
    rule_id: Seq<char>,
    all: Seq<Seq<char>>,
    old_fqn: Seq<char>,
    new_fqn: Seq<char>,
    n: int,
    idx: int,
)
    requires
        0 <= idx < n <= all.len() <= u32::MAX,
        is_import_line(all[idx]),
        has_text(trimmed(all[idx]), old_fqn),
        replaced(all[idx], old_fqn, new_fqn) != all[idx],
    ensures
        line_is_rewritten(
            import_edits(rule_id, all, old_fqn, new_fqn, n),
            rule_id,
            all,
            idx,
            replaced(all[idx], old_fqn, new_fqn),
        ),
    decreases n,
{
    let before = import_edits(rule_id, all, old_fqn, new_fqn, n - 1);
    let now = import_edits(rule_id, all, old_fqn, new_fqn, n);
    let new_line = replaced(all[idx], old_fqn, new_fqn);
    if idx == n - 1 {
        assert(rewrites_line(now[before.len() as int], rule_id, all, idx, new_line));
    } else {
        lemma_import_complete(rule_id, all, old_fqn, new_fqn, n - 1, idx);
        let k = choose|k: int|
            0 <= k < before.len() && rewrites_line(
                #[trigger] before[k],
                rule_id,
                all,
                idx,
                new_line,
            );
        assert(now[k] == before[k]);
    }
}

proof fn lemma_class_sound(
    rule_id: Seq<char>,
    all: Seq<Seq<char>>,
    old_class: Seq<char>,
    new_class: Seq<char>,
    n: int,
    j: int,
)
    requires
        0 <= n <= all.len() <= u32::MAX,
        0 <= j < class_edits(rule_id, all, old_class, new_class, n).len(),
    ensures
        exists|idx: int|
            0 <= idx < n && !is_import_line(#[trigger] all[idx]) && (word_replacement(
                all[idx],
                old_class,
                new_class,
            ) matches Some(new_line) && rewrites_line(
                class_edits(rule_id, all, old_class, new_class, n)[j],
                rule_id,
                all,
                idx,
                new_line,
            )),
    decreases n,
{
    if n > 0 {
        let before = class_edits(rule_id, all, old_class, new_class, n - 1);
        let now = class_edits(rule_id, all, old_class, new_class, n);
        if j < before.len() {
            assert(now[j] == before[j]);
            lemma_class_sound(rule_id, all, old_class, new_class, n - 1, j);
        } else {
            let new_line = word_replacement(all[n - 1], old_class, new_class)->Some_0;
            assert(rewrites_line(now[j], rule_id, all, n - 1, new_line));
        }
    }
}

proof fn lemma_import_sound(
    rule_id: Seq<char>,
    all: Seq<Seq<char>>,
    old_fqn: Seq<char>,
    new_fqn: Seq<char>,
    n: int,
    j: int,
)
    requires
        0 <= n <= all.len() <= u32::MAX,
        0 <= j < import_edits(rule_id, all, old_fqn, new_fqn, n).len(),
    ensures
        exists|idx: int|
            0 <= idx < n && is_import_line(#[trigger] all[idx]) && has_text(
                trimmed(all[idx]),
                old_fqn,
            ) && rewrites_line(
                import_edits(rule_id, all, old_fqn, new_fqn, n)[j],
                rule_id,
                all,
                idx,
                replaced(all[idx], old_fqn, new_fqn),
            ),
    decreases n,
{
    if n > 0 {
        let before = import_edits(rule_id, all, old_fqn, new_fqn, n - 1);
        let now = import_edits(rule_id, all, old_fqn, new_fqn, n);
        if j < before.len() {
            assert(now[j] == before[j]);
            lemma_import_sound(rule_id, all, old_fqn, new_fqn, n - 1, j);
        } else {
            assert(rewrites_line(
                now[j],
                rule_id,
                all,
                n - 1,
                replaced(all[n - 1], old_fqn, new_fqn),
            ));
        }
    }
}

/// The edits that renaming an import plans for a file.
pub open spec fn planned_edits(
    rule_id: Seq<char>,
    incident: IncidentView,
    old_fqn: Seq<char>,
    new_fqn: Seq<char>,
    source: Seq<char>,
) -> Seq<TextEditView> {
    match import_rename_outcome(rule_id, incident, old_fqn, new_fqn, Ok(source)).fix {
        Some(fix) => fix.edits,
        None => Seq::empty(),
    }
}

proof fn lemma_planned(
    rule_id: Seq<char>,
    incident: IncidentView,
    old_fqn: Seq<char>,
    new_fqn: Seq<char>,
    source: Seq<char>,
)
    ensures
        planned_edits(rule_id, incident, old_fqn, new_fqn, source) == import_rename_edits(
            rule_id,
            lines_of(source),
            old_fqn,
            new_fqn,
        ),
{
    let edits = import_rename_edits(rule_id, lines_of(source), old_fqn, new_fqn);
    if lines_of(source).len() == 0 {
        assert(edits.len() == 0);
    }
    assert(planned_edits(rule_id, incident, old_fqn, new_fqn, source) =~= edits);
}

proof fn lemma_in_second(
    a: Seq<TextEditView>,
    b: Seq<TextEditView>,
    rule_id: Seq<char>,
    all: Seq<Seq<char>>,
    idx: int,
    new_line: Seq<char>,
)
    ensures
        line_is_rewritten(b, rule_id, all, idx, new_line) ==> line_is_rewritten(
            a + b,
            rule_id,
            all,
            idx,
            new_line,
        ),
        line_is_rewritten(a, rule_id, all, idx, new_line) ==> line_is_rewritten(
            a + b,
            rule_id,
            all,
            idx,
            new_line,
        ),
{
    if line_is_rewritten(b, rule_id, all, idx, new_line) {
        let k = choose|k: int|
            0 <= k < b.len() && rewrites_line(#[trigger] b[k], rule_id, all, idx, new_line);
        assert((a + b)[a.len() + k] == b[k]);
    }
    if line_is_rewritten(a, rule_id, all, idx, new_line) {
        let k = choose|k: int|
            0 <= k < a.len() && rewrites_line(#[trigger] a[k], rule_id, all, idx, new_line);
        assert((a + b)[k] == a[k]);
    }
}

/// A line with a word on it is not blank.
proof fn lemma_word_is_visible(line: Seq<char>, word: Seq<char>, k: int)
    requires
        is_name(word),
        word_at(line, word, k),
    ensures
        trimmed(line).len() > 0,
{
    law_trimming(line);
    let (from, to) = choose|from: int, to: int| #[trigger] is_core(line, trimmed(line), from, to);
    assert(line.subrange(k, k + word.len())[0] == line[k]);
    assert(is_name_char(word[0]));
    assert(!is_space(line[k]));
    if from == to {
        assert(is_space(line[k]));
    }
}

/// Renaming a class reaches every line: where the simple name changes, each
/// line that is no import and on which the old simple name stands on its own
/// gets an edit that puts the new one in each of these places.
pub proof fn law_class_rename_reaches_every_line(
    rule_id: Seq<char>,
    incident: IncidentView,
    old_fqn: Seq<char>,
    new_fqn: Seq<char>,
    source: Seq<char>,
    idx: int,
    k: int,
)
    requires
        lines_of(source).len() <= u32::MAX,
        0 <= idx < lines_of(source).len(),
        simple_name(old_fqn) != simple_name(new_fqn),
        is_name(simple_name(old_fqn)),
        !is_import_line(lines_of(source)[idx]),
        word_at(lines_of(source)[idx], simple_name(old_fqn), k),
    ensures
        line_is_rewritten(
            planned_edits(rule_id, incident, old_fqn, new_fqn, source),
            rule_id,
            lines_of(source),
            idx,
            rewritten(lines_of(source)[idx], simple_name(old_fqn), simple_name(new_fqn), 0),
        ),
{
    let all = lines_of(source);
    let old_class = simple_name(old_fqn);
    let new_class = simple_name(new_fqn);
    let n = all.len() as int;
    lemma_planned(rule_id, incident, old_fqn, new_fqn, source);
    lemma_word_is_visible(all[idx], old_class, k);
    law_each_word_is_replaced(all[idx], old_class, new_class);
    lemma_class_complete(rule_id, all, old_class, new_class, n, idx);
    lemma_in_second(
        import_edits(rule_id, all, old_fqn, new_fqn, n),
        class_edits(rule_id, all, old_class, new_class, n),
        rule_id,
        all,
        idx,
        rewritten(all[idx], old_class, new_class, 0),
    );
}

/// The same for a name of any characters, by what replacing it on the line
/// gives.
pub proof fn law_class_rename_reaches_every_replacement(
    rule_id: Seq<char>,
    incident: IncidentView,
    old_fqn: Seq<char>,
    new_fqn: Seq<char>,
    source: Seq<char>,
    idx: int,
    new_line: Seq<char>,
)
    requires
        lines_of(source).len() <= u32::MAX,
        0 <= idx < lines_of(source).len(),
        simple_name(old_fqn) != simple_name(new_fqn),
        !is_import_line(lines_of(source)[idx]),
        trimmed(lines_of(source)[idx]).len() > 0,
        word_replacement(lines_of(source)[idx], simple_name(old_fqn), simple_name(new_fqn))
            == Some(new_line),
    ensures
        line_is_rewritten(
            planned_edits(rule_id, incident, old_fqn, new_fqn, source),
            rule_id,
            lines_of(source),
            idx,
            new_line,
        ),
{
    let all = lines_of(source);
    let old_class = simple_name(old_fqn);
    let new_class = simple_name(new_fqn);
    let n = all.len() as int;
    lemma_planned(rule_id, incident, old_fqn, new_fqn, source);
    lemma_class_complete(rule_id, all, old_class, new_class, n, idx);
    lemma_in_second(
        import_edits(rule_id, all, old_fqn, new_fqn, n),
        class_edits(rule_id, all, old_class, new_class, n),
        rule_id,
        all,
        idx,
        new_line,
    );
}

/// Renaming an import reaches every import of the old name: each line gets
/// an edit that puts the new name in the place of the old one.
pub proof fn law_import_rename_reaches_every_import(
    rule_id: Seq<char>,
    incident: IncidentView,
    old_fqn: Seq<char>,
    new_fqn: Seq<char>,
    source: Seq<char>,
    idx: int,
)
    requires
        lines_of(source).len() <= u32::MAX,
        0 <= idx < lines_of(source).len(),
        old_fqn.len() > 0,
        old_fqn != new_fqn,
        is_import_line(lines_of(source)[idx]),
        has_text(trimmed(lines_of(source)[idx]), old_fqn),
    ensures
        line_is_rewritten(
            planned_edits(rule_id, incident, old_fqn, new_fqn, source),
            rule_id,
            lines_of(source),
            idx,
            replaced(lines_of(source)[idx], old_fqn, new_fqn),
        ),
{
    let all = lines_of(source);
    let line = all[idx];
    let n = all.len() as int;
    lemma_planned(rule_id, incident, old_fqn, new_fqn, source);
    law_trimming(line);
    let (from, to) = choose|from: int, to: int| #[trigger] is_core(line, trimmed(line), from, to);
    let at = choose|at: int| occurs_at(trimmed(line), old_fqn, at);
    assert(line.subrange(from + at, from + at + old_fqn.len()) =~= trimmed(line).subrange(
        at,
        at + old_fqn.len(),
    ));
    assert(occurs_at(line, old_fqn, from + at));
    law_replacing_changes_the_line(line, old_fqn, new_fqn);
    lemma_import_complete(rule_id, all, old_fqn, new_fqn, n, idx);
    lemma_in_second(
        import_edits(rule_id, all, old_fqn, new_fqn, n),
        class_edits(rule_id, all, simple_name(old_fqn), simple_name(new_fqn), n),
        rule_id,
        all,
        idx,
        replaced(line, old_fqn, new_fqn),
    );
}

/// Renaming an import plans nothing else: each edit rewrites an import line
/// that holds the old name, or, where the simple name changes, a line that is
/// no import and on which the old simple name stands on its own.
pub proof fn law_import_rename_makes_no_other_edit(
    rule_id: Seq<char>,
    incident: IncidentView,
    old_fqn: Seq<char>,
    new_fqn: Seq<char>,
    source: Seq<char>,
    j: int,
)
    requires
        lines_of(source).len() <= u32::MAX,
        0 <= j < planned_edits(rule_id, incident, old_fqn, new_fqn, source).len(),
    ensures
        ({
            let all = lines_of(source);
            let e = planned_edits(rule_id, incident, old_fqn, new_fqn, source)[j];
            exists|idx: int|
                0 <= idx < all.len() && if is_import_line(#[trigger] all[idx]) {
                    has_text(trimmed(all[idx]), old_fqn) && rewrites_line(
                        e,
                        rule_id,
                        all,
                        idx,
                        replaced(all[idx], old_fqn, new_fqn),
                    )
                } else {
                    simple_name(old_fqn) != simple_name(new_fqn) && (word_replacement(
                        all[idx],
                        simple_name(old_fqn),
                        simple_name(new_fqn),
                    ) matches Some(new_line) && rewrites_line(e, rule_id, all, idx, new_line))
                }
        }),
{
    let all = lines_of(source);
    let old_class = simple_name(old_fqn);
    let new_class = simple_name(new_fqn);
    let n = all.len() as int;
    lemma_planned(rule_id, incident, old_fqn, new_fqn, source);
    let edits = import_rename_edits(rule_id, all, old_fqn, new_fqn);
    let imports = import_edits(rule_id, all, old_fqn, new_fqn, n);
    if j < imports.len() {
        assert(edits[j] == imports[j]);
        lemma_import_sound(rule_id, all, old_fqn, new_fqn, n, j);
    } else {
        let more = class_edits(rule_id, all, old_class, new_class, n);
        assert(edits[j] == more[j - imports.len()]);
        lemma_class_sound(rule_id, all, old_class, new_class, n, j - imports.len());
    }
}

} // verus!
