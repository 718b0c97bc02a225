//! Renaming a Java import and the class that it brings in.

use crate::engine::import_path::passed_over;
use crate::language::{nothing, Outcome};
use crate::model::{
    noting, FixConfidence, FixReport, FixSource, PlannedFix, PlannedFixView, SkipReason, TextEdit,
    TextEditView,
};
use crate::report::{Incident, IncidentView};
use crate::text::{
    begins, cat3, cat4, cat8, chars_of, contains, find_at, find_from, has_text, lines, lines_of,
    owned, piece, replace, replaced, same, starts_with, trim, trimmed,
};
use crate::views::{append_all, append_one};
use crate::workspace::{text_at, Workspace};
use vstd::prelude::*;

verus! {

broadcast use vstd::string::group_string_axioms;

// ---------------------------------------------------------------------
// Whole words
// ---------------------------------------------------------------------

/// The character can stand in a word: a letter, a digit or an underscore.
pub open spec fn is_word_char(c: char) -> bool {
    ('a' <= c <= 'z') || ('A' <= c <= 'Z') || ('0' <= c <= '9') || c == '_'
}

/// The stretch of `len` characters at `k` is no part of a longer word.
pub open spec fn stands_alone(line: Seq<char>, k: int, len: int) -> bool {
    (k <= 0 || !is_word_char(line[k - 1])) && (k + len >= line.len() || !is_word_char(
        line[k + len],
    ))
}

/// The rest of a line from `i` on with each occurrence of `old` that stands
/// alone replaced, where occurrences are taken from left to right without
/// overlap.
pub open spec fn words_replaced(line: Seq<char>, old: Seq<char>, new: Seq<char>, i: int) -> Seq<
    char,
>
    decreases line.len() - i + 1,
{
    match find_from(line, old, i) {
        Some(k) => if i <= k && 0 < old.len() && k + old.len() <= line.len() {
            line.subrange(i, k) + (if stands_alone(line, k, old.len() as int) {
                new
            } else {
                old
            }) + words_replaced(line, old, new, k + old.len())
        } else {
            line.skip(i)
        },
        None => line.skip(i),
    }
}

/// One of these occurrences from `i` on stands alone.
pub open spec fn has_word(line: Seq<char>, old: Seq<char>, i: int) -> bool
    decreases line.len() - i + 1,
{
    match find_from(line, old, i) {
        Some(k) => if i <= k && 0 < old.len() && k + old.len() <= line.len() {
            stands_alone(line, k, old.len() as int) || has_word(line, old, k + old.len())
        } else {
            false
        },
        None => false,
    }
}

/// The line with each word `old` replaced, where there is one.
pub open spec fn word_replacement(line: Seq<char>, old: Seq<char>, new: Seq<char>) -> Option<
    Seq<char>,
> {
    if old.len() > 0 && has_word(line, old, 0) {
        Some(words_replaced(line, old, new, 0))
    } else {
        None
    }
}

fn is_part_of_word(c: char) -> (r: bool)
    ensures
        r == is_word_char(c),
{
    ('a' <= c && c <= 'z') || ('A' <= c && c <= 'Z') || ('0' <= c && c <= '9') || c == '_'
}

/// Replaces each occurrence of `old` that is no part of a longer word.
/// Nothing where there is none.
pub fn replace_at_word_boundary(line: &str, old: &str, new: &str) -> (r: Option<String>)
    ensures
        r.deep_view() == word_replacement(line@, old@, new@),
{
    let v = chars_of(line);
    let o = chars_of(old);
    let size: usize = o.len();
    let total: usize = v.len();
    if size == 0 {
        return None;
    }
    let mut out = String::new();
    let mut changed = false;
    let mut pos: usize = 0;
    assert(out@ + words_replaced(line@, old@, new@, 0) =~= words_replaced(line@, old@, new@, 0));
    loop
        invariant
            pos <= total,
            total == v@.len(),
            size == o@.len(),
            size > 0,
            v@ == line@,
            o@ == old@,
            (changed || has_word(line@, old@, pos as int)) == has_word(line@, old@, 0),
            out@ + words_replaced(line@, old@, new@, pos as int) == words_replaced(
                line@,
                old@,
                new@,
                0,
            ),
        decreases total - pos,
    {
        match find_at(&v, &o, pos) {
            Some(k) => {
                let end: usize = k + size;
                let alone = (k == 0 || !is_part_of_word(v[k - 1])) && (end >= total
                    || !is_part_of_word(v[end]));
                let ghost before = out@;
                let kept = piece(&v, pos, k);
                out.append(kept.as_str());
                let ghost middle: Seq<char> = if alone {
                    new@
                } else {
                    old@
                };
                if alone {
                    out.append(new);
                    changed = true;
                } else {
                    out.append(old);
                }
                assert(out@ + words_replaced(line@, old@, new@, end as int) =~= before + (
                line@.subrange(pos as int, k as int) + middle + words_replaced(
                    line@,
                    old@,
                    new@,
                    end as int,
                )));
                pos = end;
            },
            None => {
                let rest = piece(&v, pos, total);
                out.append(rest.as_str());
                assert(rest@ =~= line@.skip(pos as int));
                if changed {
                    return Some(out);
                }
                return None;
            },
        }
    }
}

// ---------------------------------------------------------------------
// Planning
// ---------------------------------------------------------------------

/// What stands behind the last dot; everything where there is no dot.
pub open spec fn simple_name(fqn: Seq<char>) -> Seq<char> {
    fqn.skip(crate::paths::last_dot(fqn, fqn.len() as int) + 1)
}

/// What stands behind the last dot; everything where there is no dot.
pub fn simple_name_of(fqn: &str) -> (r: String)
    ensures
        r@ == simple_name(fqn@),
{
    let v = chars_of(fqn);
    let mut i: usize = v.len();
    while i > 0
        invariant
            i <= v@.len(),
            v@ == fqn@,
            crate::paths::last_dot(fqn@, fqn@.len() as int) == crate::paths::last_dot(
                fqn@,
                i as int,
            ),
        ensures
            crate::paths::last_dot(fqn@, fqn@.len() as int) == i - 1,
            i <= v@.len(),
        decreases i,
    {
        if v[i - 1] == '.' {
            break;
        }
        i = i - 1;
    }
    let r = piece(&v, i, v.len());
    assert(r@ =~= simple_name(fqn@));
    r
}

/// An edit that replaces a whole line.
pub open spec fn line_edit(
    rule_id: Seq<char>,
    line: u32,
    old_line: Seq<char>,
    new_line: Seq<char>,
    description: Seq<char>,
) -> TextEditView {
    TextEditView {
        line,
        old_text: old_line,
        new_text: new_line,
        rule_id,
        description,
        replace_all: false,
    }
}

/// An edit that replaces a whole line.
pub fn make_line_edit(
    rule_id: &str,
    line: u32,
    old_line: &str,
    new_line: String,
    description: String,
) -> (r: TextEdit)
    ensures
        r.deep_view() == line_edit(rule_id@, line, old_line@, new_line@, description@),
{
    TextEdit {
        line,
        old_text: owned(old_line),
        new_text: new_line,
        rule_id: owned(rule_id),
        description,
        replace_all: false,
    }
}

/// The line imports something whose name holds `fqn`.
pub open spec fn imports_from(line: Seq<char>, fqn: Seq<char>) -> bool {
    begins(trimmed(line), "import "@) && has_text(trimmed(line), fqn)
}

/// The edits of the import lines among the first `n` lines.
pub open spec fn import_edits(
    rule_id: Seq<char>,
    all: Seq<Seq<char>>,
    old_fqn: Seq<char>,
    new_fqn: Seq<char>,
    n: int,
) -> Seq<TextEditView>
    decreases n,
{
    if n <= 0 {
        Seq::empty()
    } else {
        let before = import_edits(rule_id, all, old_fqn, new_fqn, n - 1);
        let line = all[n - 1];
        let new_line = replaced(line, old_fqn, new_fqn);
        if imports_from(line, old_fqn) && new_line != line {
            before.push(
                line_edit(
                    rule_id,
                    n as u32,
                    line,
                    new_line,
                    "Replace import: "@ + old_fqn + " → "@ + new_fqn,
                ),
            )
        } else {
            before
        }
    }
}

/// The edits of the other lines among the first `n` on which the class is
/// named.
pub open spec fn class_edits(
    rule_id: Seq<char>,
    all: Seq<Seq<char>>,
    old_class: Seq<char>,
    new_class: Seq<char>,
    n: int,
) -> Seq<TextEditView>
    decreases n,
{
    if n <= 0 {
        Seq::empty()
    } else {
        let before = class_edits(rule_id, all, old_class, new_class, n - 1);
        let line = all[n - 1];
        match word_replacement(line, old_class, new_class) {
            Some(new_line) => if begins(trimmed(line), "import "@) || trimmed(line).len() == 0 {
                before
            } else {
                before.push(
                    line_edit(
                        rule_id,
                        n as u32,
                        line,
                        new_line,
                        "Rename class: "@ + old_class + " → "@ + new_class,
                    ),
                )
            },
            None => before,
        }
    }
}

/// The edits of an import rename: the import lines, and the lines that name
/// the class where its simple name changes.
pub open spec fn import_rename_edits(
    rule_id: Seq<char>,
    all: Seq<Seq<char>>,
    old_fqn: Seq<char>,
    new_fqn: Seq<char>,
) -> Seq<TextEditView> {
    let n = all.len() as int;
    let imports = import_edits(rule_id, all, old_fqn, new_fqn, n);
    if simple_name(old_fqn) != simple_name(new_fqn) {
        imports + class_edits(rule_id, all, simple_name(old_fqn), simple_name(new_fqn), n)
    } else {
        imports
    }
}

/// What comes of renaming an import, given what reading the file gave.
pub open spec fn import_rename_outcome(
    rule_id: Seq<char>,
    incident: IncidentView,
    old_fqn: Seq<char>,
    new_fqn: Seq<char>,
    read: Result<Seq<char>, Seq<char>>,
) -> Outcome {
    match read {
        Err(_) => nothing(),
        Ok(source) => {
            let all = lines_of(source);
            let edits = import_rename_edits(rule_id, all, old_fqn, new_fqn);
            let old_class = simple_name(old_fqn);
            let new_class = simple_name(new_fqn);
            if all.len() == 0 {
                nothing()
            } else if edits.len() == 0 {
                passed_over(
                    rule_id,
                    incident,
                    SkipReason::TextNotFound,
                    Some("import "@ + old_fqn + " not found in file"@),
                )
            } else {
                Outcome {
                    fix: Some(
                        PlannedFixView {
                            edits,
                            confidence: FixConfidence::High,
                            source: FixSource::Pattern,
                            rule_id,
                            file_uri: incident.file_uri,
                            line: match incident.line_number {
                                Some(l) => l,
                                None => 1,
                            },
                            description: if old_class != new_class {
                                "Rename import "@ + old_fqn + " → "@ + new_fqn + " and class "@
                                    + old_class + " → "@ + new_class
                            } else {
                                "Rename import "@ + old_fqn + " → "@ + new_fqn
                            },
                        },
                    ),
                    skip: None,
                }
            }
        },
    }
}

fn plan_import_lines(rule_id: &str, all: &Vec<String>, old_fqn: &str, new_fqn: &str) -> (r: Vec<
    TextEdit,
>)
    ensures
        r.deep_view() == import_edits(
            rule_id@,
            all.deep_view(),
            old_fqn@,
            new_fqn@,
            all@.len() as int,
        ),
{
    let mut out: Vec<TextEdit> = Vec::new();
    let mut i: usize = 0;
    assert(out.deep_view() =~= Seq::<TextEditView>::empty());
    while i < all.len()
        invariant
            i <= all@.len(),
            out.deep_view() == import_edits(
                rule_id@,
                all.deep_view(),
                old_fqn@,
                new_fqn@,
                i as int,
            ),
        decreases all@.len() - i,
    {
        assert(all.deep_view()[i as int] == all@[i as int]@);
        let line = all[i].as_str();
        let t = trim(line);
        if starts_with(t, "import ") && contains(t, old_fqn) {
            let new_line = replace(line, old_fqn, new_fqn);
            if !same(new_line.as_str(), line) {
                let description = cat4("Replace import: ", old_fqn, " → ", new_fqn);
                append_one(
                    &mut out,
                    make_line_edit(rule_id, (i + 1) as u32, line, new_line, description),
                );
            }
        }
        i = i + 1;
    }
    out
}

fn plan_class_lines(rule_id: &str, all: &Vec<String>, old_class: &str, new_class: &str) -> (r: Vec<
    TextEdit,
>)
    ensures
        r.deep_view() == class_edits(
            rule_id@,
            all.deep_view(),
            old_class@,
            new_class@,
            all@.len() as int,
        ),
{
    let mut out: Vec<TextEdit> = Vec::new();
    let mut i: usize = 0;
    assert(out.deep_view() =~= Seq::<TextEditView>::empty());
    while i < all.len()
        invariant
            i <= all@.len(),
            out.deep_view() == class_edits(
                rule_id@,
                all.deep_view(),
                old_class@,
                new_class@,
                i as int,
            ),
        decreases all@.len() - i,
    {
        assert(all.deep_view()[i as int] == all@[i as int]@);
        let line = all[i].as_str();
        let t = trim(line);
        if !starts_with(t, "import ") && t.unicode_len() > 0 {
            match replace_at_word_boundary(line, old_class, new_class) {
                Some(new_line) => {
                    let description = cat4("Rename class: ", old_class, " → ", new_class);
                    append_one(
                        &mut out,
                        make_line_edit(rule_id, (i + 1) as u32, line, new_line, description),
                    );
                },
                None => {},
            }
        }
        i = i + 1;
    }
    out
}

/// Plans the renaming of an import and of the class that it brings in.
pub fn plan_java_import_rename(
    rule_id: &str,
    incident: &Incident,
    old_fqn: &str,
    new_fqn: &str,
    file_path: &str,
    ws: &Workspace,
    report: &mut FixReport,
) -> (r: Option<PlannedFix>)
    ensures
        ({
            let o = import_rename_outcome(
                rule_id@,
                incident.deep_view(),
                old_fqn@,
                new_fqn@,
                text_at(ws.deep_view(), file_path@),
            );
            &&& r.deep_view() == o.fix
            &&& final(report).deep_view() == noting(old(report).deep_view(), o.skip)
        }),
{
    let source = match ws.read(file_path) {
        Ok(s) => s,
        Err(_) => {
            return None;
        },
    };
    let all = lines(source);
    assert(all.deep_view().len() == all@.len());
    if all.len() == 0 {
        return None;
    }
    let old_class = simple_name_of(old_fqn);
    let new_class = simple_name_of(new_fqn);
    let class_changed = !same(old_class.as_str(), new_class.as_str());
    let mut edits = plan_import_lines(rule_id, &all, old_fqn, new_fqn);
    if class_changed {
        let more = plan_class_lines(rule_id, &all, old_class.as_str(), new_class.as_str());
        append_all(&mut edits, more);
    }
    assert(edits.deep_view().len() == edits@.len());
    if edits.len() == 0 {
        report.record_skip(
            rule_id,
            incident.file_uri.as_str(),
            incident.line_number,
            SkipReason::TextNotFound,
            Some(cat3("import ", old_fqn, " not found in file")),
        );
        return None;
    }
    let description = if class_changed {
        cat8(
            "Rename import ",
            old_fqn,
            " → ",
            new_fqn,
            " and class ",
            old_class.as_str(),
            " → ",
            new_class.as_str(),
        )
    } else {
        cat4("Rename import ", old_fqn, " → ", new_fqn)
    };
    Some(
        PlannedFix {
            edits,
            confidence: FixConfidence::High,
            source: FixSource::Pattern,
            rule_id: owned(rule_id),
            file_uri: incident.file_uri.clone(),
            line: match incident.line_number {
                Some(l) => l,
                None => 1,
            },
            description,
        },
    )
}

} // verus!
