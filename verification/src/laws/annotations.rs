//! Java annotations: which lines rewriting a parameter and removing an
//! annotation change, and into what.

use crate::java::annotations::{
    annotation_name, annotation_outcome, annotation_removal, blanked, closing, closing_place,
    has_import_line, is_consumer_class, line_rewrite, markers, param_matches, param_pattern,
    removal_edits, rewrite_edits, rewrite_imports, rewrite_outcome, rewritten_line, with_markers,
    Closing,
};
use crate::java::rename::simple_name;
use crate::js::imports::group;
use crate::laws::classes::{law_replacing_changes_the_line, rewrites_line};
use crate::laws::tables::law_distinct_holds_each_value_once;
use crate::laws::words::{
    is_first_at, law_every_occurrence_is_replaced, law_the_first_occurrence_is_replaced,
};
use crate::model::{SkipReason, TextEditView};
use crate::pattern::{is_pattern, regex_escaped, regex_found, regex_groups};
use crate::report::{has_var, text_var, IncidentView};
use crate::text::{
    begins, has_text, lines_of, occurs_at, replaced, replaced_first, trimmed, trimmed_start,
};
use crate::views::distinct;
use vstd::prelude::*;

verus! {

broadcast use vstd::string::group_string_axioms;

// ---------------------------------------------------------------------
// Rewriting a parameter
// ---------------------------------------------------------------------

/// The value is the full name of a class that is not one of Hibernate's own.
pub open spec fn is_class_to_name(value: Seq<char>) -> bool {
    &&& has_text(value, seq!['.'])
    &&& !begins(value, "org.hibernate"@) || has_text(value, "candlepin"@) || has_text(
        value,
        "redhat"@,
    )
}

/// Matching the line finds the parameter, what stands around its equals sign,
/// and its value.
pub open spec fn finds_param(
    groups: Option<Seq<Option<Seq<char>>>>,
    spacing: Seq<char>,
    value: Seq<char>,
) -> bool {
    groups matches Some(g) && g.len() > 2 && g[1] == Some(spacing) && g[2] == Some(value)
}

/// The parameter with its value, as it stands on a line.
pub open spec fn quoted_param(param: Seq<char>, spacing: Seq<char>, value: Seq<char>) -> Seq<char> {
    param + spacing + seq!['"'] + value + seq!['"']
}

/// The parameter with a class as its value.
pub open spec fn class_param(param: Seq<char>, spacing: Seq<char>, value: Seq<char>) -> Seq<char> {
    param + spacing + simple_name(value) + ".class"@
}

proof fn lemma_quoted_param(param: Seq<char>, spacing: Seq<char>, value: Seq<char>)
    ensures
        param + spacing + "\""@ + value + "\""@ == quoted_param(param, spacing, value),
{
    reveal_strlit("\"");
    assert("\""@ =~= seq!['"']);
}

proof fn lemma_consumer(value: Seq<char>)
    ensures
        is_consumer_class(value) == is_class_to_name(value),
{
    reveal_strlit(".");
    assert("."@ =~= seq!['.']);
}

/// A parameter that is renamed keeps its spacing and its value, and all else
/// on the line stays.
pub proof fn law_param_is_renamed(
    before: Seq<char>,
    old_param: Seq<char>,
    new_param: Seq<char>,
    spacing: Seq<char>,
    value: Seq<char>,
    after: Seq<char>,
)
    requires
        is_first_at(
            before + quoted_param(old_param, spacing, value) + after,
            quoted_param(old_param, spacing, value),
            before.len() as int,
        ),
    ensures
        rewritten_line(
            before + quoted_param(old_param, spacing, value) + after,
            old_param,
            new_param,
            false,
            spacing,
            value,
        ) == before + quoted_param(new_param, spacing, value) + after,
        rewritten_line(
            before + quoted_param(old_param, spacing, value) + after,
            old_param,
            new_param,
            true,
            spacing,
            value,
        ) == before + class_param(new_param, spacing, value) + replaced(
            after,
            quoted_param(old_param, spacing, value),
            class_param(new_param, spacing, value),
        ),
{
    lemma_quoted_param(old_param, spacing, value);
    lemma_quoted_param(new_param, spacing, value);
    let a = quoted_param(old_param, spacing, value);
    law_the_first_occurrence_is_replaced(
        before,
        a,
        quoted_param(new_param, spacing, value),
        after,
    );
    assert(a.len() > 0);
    law_every_occurrence_is_replaced(before, a, class_param(new_param, spacing, value), after);
}

proof fn lemma_rewrite_complete(
    rule_id: Seq<char>,
    all: Seq<Seq<char>>,
    old_param: Seq<char>,
    new_param: Seq<char>,
    literal: bool,
    matches: Seq<Option<Seq<Option<Seq<char>>>>>,
    n: int,
    idx: int,
)
    requires
        0 <= idx < n <= all.len() <= u32::MAX,
        line_rewrite(all, idx, old_param, new_param, literal, matches[idx]).line is Some,
    ensures
        exists|k: int|
            0 <= k < rewrite_edits(
                rule_id,
                all,
                old_param,
                new_param,
                literal,
                matches,
                n,
            ).len() && rewrites_line(
                #[trigger] rewrite_edits(
                    rule_id,
                    all,
                    old_param,
                    new_param,
                    literal,
                    matches,
                    n,
                )[k],
                rule_id,
                all,
                idx,
                line_rewrite(all, idx, old_param, new_param, literal, matches[idx]).line->Some_0,
            ),
    decreases n,
{
    let before = rewrite_edits(rule_id, all, old_param, new_param, literal, matches, n - 1);
    let now = rewrite_edits(rule_id, all, old_param, new_param, literal, matches, n);
    let new_line = line_rewrite(all, idx, old_param, new_param, literal, matches[idx]).line->Some_0;
    if idx == n - 1 {
        assert(rewrites_line(now[before.len() as int], rule_id, all, idx, new_line));
    } else {
        lemma_rewrite_complete(
            rule_id,
            all,
            old_param,
            new_param,
            literal,
            matches,
            n - 1,
            idx,
        );
        let k = choose|k: int|
            0 <= k < before.len() && rewrites_line(
                #[trigger] before[k],
                rule_id,
                all,
                idx,
                new_line,
            );
        assert(now[k] == before[k]);
    }
}

proof fn lemma_rewrite_sound(
    rule_id: Seq<char>,
    all: Seq<Seq<char>>,
    old_param: Seq<char>,
    new_param: Seq<char>,
    literal: bool,
    matches: Seq<Option<Seq<Option<Seq<char>>>>>,
    n: int,
    j: int,
)
    requires
        0 <= n <= all.len() <= u32::MAX,
        0 <= j < rewrite_edits(rule_id, all, old_param, new_param, literal, matches, n).len(),
    ensures
        exists|idx: int|
            0 <= idx < n && (line_rewrite(
                all,
                idx,
                old_param,
                new_param,
                literal,
                #[trigger] matches[idx],
            ).line matches Some(new_line) && rewrites_line(
                rewrite_edits(rule_id, all, old_param, new_param, literal, matches, n)[j],
                rule_id,
                all,
                idx,
                new_line,
            )),
    decreases n,
{
    if n > 0 {
        let before = rewrite_edits(rule_id, all, old_param, new_param, literal, matches, n - 1);
        let now = rewrite_edits(rule_id, all, old_param, new_param, literal, matches, n);
        if j < before.len() {
            assert(now[j] == before[j]);
            lemma_rewrite_sound(
                rule_id,
                all,
                old_param,
                new_param,
                literal,
                matches,
                n - 1,
                j,
            );
        } else {
            let rewrite = line_rewrite(
                all,
                n - 1,
                old_param,
                new_param,
                literal,
                matches[n - 1],
            );
            assert(rewrites_line(now[j], rule_id, all, n - 1, rewrite.line->Some_0));
        }
    }
}

/// The edit rewrites the line; where it is the first one, the markers of the
/// imports to add follow the new text.
pub open spec fn rewrites_with_markers(
    e: TextEditView,
    all: Seq<Seq<char>>,
    idx: int,
    new_line: Seq<char>,
) -> bool {
    &&& e.line == idx + 1
    &&& e.old_text == all[idx]
    &&& begins(e.new_text, new_line)
    &&& !e.replace_all
}

/// A parameter that is found on a line is renamed there.
pub proof fn law_each_param_is_renamed(
    rule_id: Seq<char>,
    incident: IncidentView,
    old_param: Seq<char>,
    new_param: Seq<char>,
    value_transform: Seq<char>,
    line: u32,
    all: Seq<Seq<char>>,
    matches: Seq<Option<Seq<Option<Seq<char>>>>>,
    idx: int,
    spacing: Seq<char>,
    value: Seq<char>,
)
    requires
        0 <= idx < all.len() <= u32::MAX,
        matches.len() == all.len(),
        finds_param(matches[idx], spacing, value),
        has_text(all[idx], quoted_param(old_param, spacing, value)),
        old_param != new_param,
        value_transform != "StringFqnToClassLiteral"@,
    ensures
        ({
            let new_line = replaced_first(
                all[idx],
                quoted_param(old_param, spacing, value),
                quoted_param(new_param, spacing, value),
            );
            rewrite_outcome(
                rule_id,
                incident,
                old_param,
                new_param,
                value_transform,
                line,
                all,
                matches,
            ).fix matches Some(fix) && exists|k: int|
                0 <= k < fix.edits.len() && rewrites_with_markers(
                    #[trigger] fix.edits[k],
                    all,
                    idx,
                    new_line,
                )
        }),
{
    let n = all.len() as int;
    let a = quoted_param(old_param, spacing, value);
    let b = quoted_param(new_param, spacing, value);
    lemma_quoted_param(old_param, spacing, value);
    lemma_quoted_param(new_param, spacing, value);
    let new_line = replaced_first(all[idx], a, b);
    lemma_param_within(all[idx], old_param, spacing, value);
    assert(new_line != all[idx]) by {
        lemma_first_changes(all[idx], a, b);
        lemma_params_differ(old_param, new_param, spacing, value);
    }
    lemma_rewrite_complete(rule_id, all, old_param, new_param, false, matches, n, idx);
    let edits = rewrite_edits(rule_id, all, old_param, new_param, false, matches, n);
    let k = choose|k: int|
        0 <= k < edits.len() && rewrites_line(#[trigger] edits[k], rule_id, all, idx, new_line);
    let imports = rewrite_imports(all, old_param, new_param, false, matches, n);
    let names = distinct(imports, imports.len() as int);
    lemma_marked_edit(edits, names, all, rule_id, idx, new_line, k);
    let fix = rewrite_outcome(
        rule_id,
        incident,
        old_param,
        new_param,
        value_transform,
        line,
        all,
        matches,
    ).fix->Some_0;
    assert(fix.edits == with_markers(edits, names));
    assert(rewrites_with_markers(fix.edits[k], all, idx, new_line));
}

proof fn lemma_marked_edit(
    edits: Seq<TextEditView>,
    names: Seq<Seq<char>>,
    all: Seq<Seq<char>>,
    rule_id: Seq<char>,
    idx: int,
    new_line: Seq<char>,
    k: int,
)
    requires
        0 <= k < edits.len(),
        rewrites_line(edits[k], rule_id, all, idx, new_line),
    ensures
        rewrites_with_markers(with_markers(edits, names)[k], all, idx, new_line),
{
    let more = markers(names, names.len() as int);
    let e = with_markers(edits, names)[k];
    if k == 0 {
        assert(e.new_text == new_line + more);
        assert(e.new_text.subrange(0, new_line.len() as int) =~= new_line);
    } else {
        assert(e == edits[k]);
        assert(e.new_text.subrange(0, new_line.len() as int) =~= new_line);
    }
}

/// A class literal is written in the place of a full name in quotes, wherever
/// the parameter stands on the line with it, and the class is asked to be
/// imported where no line imports it.
pub proof fn law_each_class_is_named(
    rule_id: Seq<char>,
    incident: IncidentView,
    old_param: Seq<char>,
    new_param: Seq<char>,
    line: u32,
    all: Seq<Seq<char>>,
    matches: Seq<Option<Seq<Option<Seq<char>>>>>,
    idx: int,
    spacing: Seq<char>,
    value: Seq<char>,
)
    requires
        0 <= idx < all.len() <= u32::MAX,
        matches.len() == all.len(),
        finds_param(matches[idx], spacing, value),
        has_text(all[idx], quoted_param(old_param, spacing, value)),
        is_class_to_name(value),
        quoted_param(old_param, spacing, value) != class_param(new_param, spacing, value),
    ensures
        ({
            let new_line = replaced(
                all[idx],
                quoted_param(old_param, spacing, value),
                class_param(new_param, spacing, value),
            );
            rewrite_outcome(
                rule_id,
                incident,
                old_param,
                new_param,
                "StringFqnToClassLiteral"@,
                line,
                all,
                matches,
            ).fix matches Some(fix) && (exists|k: int|
                0 <= k < fix.edits.len() && rewrites_with_markers(
                    #[trigger] fix.edits[k],
                    all,
                    idx,
                    new_line,
                )) && (is_imported(all, value) || has_text(
                fix.edits[0].new_text,
                "// __ADD_IMPORT:"@ + value,
            ))
        }),
{
    let n = all.len() as int;
    let a = quoted_param(old_param, spacing, value);
    let b = class_param(new_param, spacing, value);
    lemma_quoted_param(old_param, spacing, value);
    lemma_consumer(value);
    let new_line = replaced(all[idx], a, b);
    lemma_param_within(all[idx], old_param, spacing, value);
    assert(a.len() > 0);
    law_replacing_changes_the_line(all[idx], a, b);
    lemma_rewrite_complete(rule_id, all, old_param, new_param, true, matches, n, idx);
    let edits = rewrite_edits(rule_id, all, old_param, new_param, true, matches, n);
    let k = choose|k: int|
        0 <= k < edits.len() && rewrites_line(#[trigger] edits[k], rule_id, all, idx, new_line);
    let imports = rewrite_imports(all, old_param, new_param, true, matches, n);
    let names = distinct(imports, imports.len() as int);
    lemma_marked_edit(edits, names, all, rule_id, idx, new_line, k);
    let fix = rewrite_outcome(
        rule_id,
        incident,
        old_param,
        new_param,
        "StringFqnToClassLiteral"@,
        line,
        all,
        matches,
    ).fix->Some_0;
    assert(fix.edits == with_markers(edits, names));
    assert(rewrites_with_markers(fix.edits[k], all, idx, new_line));
    if !is_imported(all, value) {
        assert(!has_import_line(all, value)) by {
            if has_import_line(all, value) {
                let j = choose|j: int|
                    0 <= j < all.len() && trimmed(#[trigger] all[j]) == "import "@ + value + ";"@;
                assert(is_imported(all, value));
            }
        }
        lemma_import_asked(all, old_param, new_param, matches, n, idx, value);
        law_distinct_holds_each_value_once(imports, imports.len() as int);
        assert(imports.take(imports.len() as int) =~= imports);
        assert(names.contains(value));
        let m = choose|m: int| 0 <= m < names.len() && names[m] == value;
        lemma_marker_there(names, names.len() as int, m);
        crate::laws::changes::lemma_inside(
            edits[0].new_text,
            markers(names, names.len() as int),
            "// __ADD_IMPORT:"@ + value,
        );
    }
}

/// Some line is the import of the class.
pub open spec fn is_imported(all: Seq<Seq<char>>, value: Seq<char>) -> bool {
    exists|j: int| 0 <= j < all.len() && trimmed(#[trigger] all[j]) == "import "@ + value + ";"@
}

proof fn lemma_import_asked(
    all: Seq<Seq<char>>,
    old_param: Seq<char>,
    new_param: Seq<char>,
    matches: Seq<Option<Seq<Option<Seq<char>>>>>,
    n: int,
    idx: int,
    value: Seq<char>,
)
    requires
        0 <= idx < n <= all.len(),
        line_rewrite(all, idx, old_param, new_param, true, matches[idx]).import == Some(value),
    ensures
        rewrite_imports(all, old_param, new_param, true, matches, n).contains(value),
    decreases n,
{
    let before = rewrite_imports(all, old_param, new_param, true, matches, n - 1);
    let now = rewrite_imports(all, old_param, new_param, true, matches, n);
    if idx == n - 1 {
        assert(now[before.len() as int] == value);
    } else {
        lemma_import_asked(all, old_param, new_param, matches, n - 1, idx, value);
        let j = choose|j: int| 0 <= j < before.len() && before[j] == value;
        assert(now[j] == value);
    }
}

proof fn lemma_marker_there(names: Seq<Seq<char>>, n: int, m: int)
    requires
        0 <= m < n <= names.len(),
    ensures
        has_text(markers(names, n), "// __ADD_IMPORT:"@ + names[m]),
    decreases n,
{
    let x = "// __ADD_IMPORT:"@ + names[m];
    let before = markers(names, n - 1);
    let lead = " // __ADD_IMPORT:"@;
    if m == n - 1 {
        reveal_strlit(" // __ADD_IMPORT:");
        reveal_strlit("// __ADD_IMPORT:");
        assert(lead =~= seq![' '] + "// __ADD_IMPORT:"@);
        let s = before + lead + names[m];
        let at = before.len() + 1;
        assert(s.subrange(at as int, (at + x.len()) as int) =~= x);
        assert(occurs_at(s, x, at as int));
    } else {
        lemma_marker_there(names, n - 1, m);
        crate::laws::changes::lemma_inside(before, lead, x);
        crate::laws::changes::lemma_inside(before + lead, names[n - 1], x);
    }
}

proof fn lemma_param_within(
    line: Seq<char>,
    param: Seq<char>,
    spacing: Seq<char>,
    value: Seq<char>,
)
    requires
        has_text(line, quoted_param(param, spacing, value)),
    ensures
        has_text(line, param),
{
    let a = quoted_param(param, spacing, value);
    assert(a.subrange(0, param.len() as int) =~= param);
    assert(occurs_at(a, param, 0));
    crate::laws::families::lemma_within(line, a, param);
}

proof fn lemma_params_differ(
    a: Seq<char>,
    b: Seq<char>,
    spacing: Seq<char>,
    value: Seq<char>,
)
    requires
        a != b,
    ensures
        quoted_param(a, spacing, value) != quoted_param(b, spacing, value),
{
    let x = quoted_param(a, spacing, value);
    let y = quoted_param(b, spacing, value);
    assert(x.len() == a.len() + spacing.len() + value.len() + 2);
    assert(y.len() == b.len() + spacing.len() + value.len() + 2);
    if x == y {
        assert(x.subrange(0, a.len() as int) =~= a);
        assert(y.subrange(0, b.len() as int) =~= b);
    }
}

proof fn lemma_first_changes(hay: Seq<char>, old_text: Seq<char>, new_text: Seq<char>)
    requires
        has_text(hay, old_text),
    ensures
        old_text != new_text ==> replaced_first(hay, old_text, new_text) != hay,
{
    crate::text::lemma_find_from(hay, old_text, 0);
    let at = choose|at: int| occurs_at(hay, old_text, at);
    let k = crate::text::find_from(hay, old_text, 0)->Some_0;
    let r = replaced_first(hay, old_text, new_text);
    assert(r == hay.take(k) + new_text + hay.skip(k + old_text.len()));
    if old_text.len() == new_text.len() {
        assert(r.subrange(k, k + old_text.len()) =~= new_text);
    }
}

/// Nothing else is rewritten: each edit is of a line on which the parameter
/// was found and stands, and where a class is asked for, of a class to name
/// so.
pub proof fn law_nothing_else_is_rewritten(
    rule_id: Seq<char>,
    incident: IncidentView,
    old_param: Seq<char>,
    new_param: Seq<char>,
    value_transform: Seq<char>,
    line: u32,
    all: Seq<Seq<char>>,
    matches: Seq<Option<Seq<Option<Seq<char>>>>>,
    j: int,
)
    requires
        all.len() <= u32::MAX,
        matches.len() == all.len(),
        rewrite_outcome(
            rule_id,
            incident,
            old_param,
            new_param,
            value_transform,
            line,
            all,
            matches,
        ).fix matches Some(fix) && 0 <= j < fix.edits.len(),
    ensures
        ({
            let e = rewrite_outcome(
                rule_id,
                incident,
                old_param,
                new_param,
                value_transform,
                line,
                all,
                matches,
            ).fix->Some_0.edits[j];
            exists|idx: int, spacing: Seq<char>, value: Seq<char>|
                0 <= idx < all.len() && #[trigger] finds_param(matches[idx], spacing, value)
                    && e.line == idx + 1 && e.old_text == all[idx] && has_text(
                    all[idx],
                    old_param,
                ) && (value_transform == "StringFqnToClassLiteral"@ ==> is_class_to_name(value))
        }),
{
    let n = all.len() as int;
    let literal = value_transform == "StringFqnToClassLiteral"@;
    let edits = rewrite_edits(rule_id, all, old_param, new_param, literal, matches, n);
    lemma_rewrite_sound(rule_id, all, old_param, new_param, literal, matches, n, j);
    let idx = choose|idx: int|
        0 <= idx < n && (line_rewrite(
            all,
            idx,
            old_param,
            new_param,
            literal,
            #[trigger] matches[idx],
        ).line matches Some(new_line) && rewrites_line(edits[j], rule_id, all, idx, new_line));
    let g = matches[idx]->Some_0;
    let spacing = group(g, 1)->Some_0;
    let value = group(g, 2)->Some_0;
    lemma_consumer(value);
    assert(finds_param(matches[idx], spacing, value));
}

proof fn lemma_imports_from(
    all: Seq<Seq<char>>,
    old_param: Seq<char>,
    new_param: Seq<char>,
    literal: bool,
    matches: Seq<Option<Seq<Option<Seq<char>>>>>,
    n: int,
    j: int,
)
    requires
        0 <= n <= all.len(),
        0 <= j < rewrite_imports(all, old_param, new_param, literal, matches, n).len(),
    ensures
        literal,
        !is_imported(all, rewrite_imports(all, old_param, new_param, literal, matches, n)[j]),
    decreases n,
{
    if n > 0 {
        let before = rewrite_imports(all, old_param, new_param, literal, matches, n - 1);
        let now = rewrite_imports(all, old_param, new_param, literal, matches, n);
        if j < before.len() {
            assert(now[j] == before[j]);
            lemma_imports_from(all, old_param, new_param, literal, matches, n - 1, j);
        } else {
            let value = now[j];
            if is_imported(all, value) {
                let k = choose|k: int|
                    0 <= k < all.len() && trimmed(#[trigger] all[k]) == "import "@ + value + ";"@;
                assert(has_import_line(all, value));
            }
        }
    }
}

/// No import is asked for that is there already, and none at all where no
/// class literal is written: without one the new line is all that an edit
/// puts.
pub proof fn law_no_import_is_asked_for_in_vain(
    rule_id: Seq<char>,
    incident: IncidentView,
    old_param: Seq<char>,
    new_param: Seq<char>,
    value_transform: Seq<char>,
    line: u32,
    all: Seq<Seq<char>>,
    matches: Seq<Option<Seq<Option<Seq<char>>>>>,
)
    requires
        all.len() <= u32::MAX,
        matches.len() == all.len(),
        rewrite_outcome(
            rule_id,
            incident,
            old_param,
            new_param,
            value_transform,
            line,
            all,
            matches,
        ).fix is Some,
    ensures
        ({
            let literal = value_transform == "StringFqnToClassLiteral"@;
            let n = all.len() as int;
            let fix = rewrite_outcome(
                rule_id,
                incident,
                old_param,
                new_param,
                value_transform,
                line,
                all,
                matches,
            ).fix->Some_0;
            let plain = rewrite_edits(rule_id, all, old_param, new_param, literal, matches, n);
            exists|names: Seq<Seq<char>>|
                (forall|j: int|
                    0 <= j < names.len() ==> literal && !is_imported(all, #[trigger] names[j]))
                    && fix.edits.len() == plain.len() && fix.edits[0].new_text
                    == plain[0].new_text + #[trigger] markers(names, names.len() as int)
                    && forall|k: int|
                    0 < k < plain.len() ==> #[trigger] fix.edits[k] == plain[k]
        }),
{
    let literal = value_transform == "StringFqnToClassLiteral"@;
    let n = all.len() as int;
    let imports = rewrite_imports(all, old_param, new_param, literal, matches, n);
    let names = distinct(imports, imports.len() as int);
    law_distinct_holds_each_value_once(imports, imports.len() as int);
    assert(imports.take(imports.len() as int) =~= imports);
    assert forall|j: int| 0 <= j < names.len() implies literal && !is_imported(
        all,
        #[trigger] names[j],
    ) by {
        assert(names.contains(names[j]));
        let i = choose|i: int| 0 <= i < imports.len() && imports[i] == names[j];
        lemma_imports_from(all, old_param, new_param, literal, matches, n, i);
    }
    let fix = rewrite_outcome(
        rule_id,
        incident,
        old_param,
        new_param,
        value_transform,
        line,
        all,
        matches,
    ).fix->Some_0;
    let plain = rewrite_edits(rule_id, all, old_param, new_param, literal, matches, n);
    assert(fix.edits == with_markers(plain, names));
    assert(fix.edits[0].new_text == plain[0].new_text + markers(names, names.len() as int));
}

/// The parameter is searched for on every line, as its name, an equals sign
/// with white space around it, and a value in quotes.
pub proof fn law_param_is_searched_on_every_line(
    rule_id: Seq<char>,
    incident: IncidentView,
    old_param: Seq<char>,
    new_param: Seq<char>,
    value_transform: Seq<char>,
    source: Seq<char>,
    pattern: Seq<char>,
    matches: Seq<Option<Seq<Option<Seq<char>>>>>,
)
    requires
        pattern == regex_escaped(old_param) + r#"(\s*=\s*)"([^"]+)""#@,
        is_pattern(pattern),
        incident.line_number matches Some(line) && line > 0,
        lines_of(source).len() > 0,
        matches.len() == lines_of(source).len(),
        forall|k: int|
            0 <= k < matches.len() ==> #[trigger] matches[k] == regex_groups(
                pattern,
                lines_of(source)[k],
            ),
    ensures
        annotation_outcome(
            rule_id,
            incident,
            old_param,
            new_param,
            value_transform,
            Ok(source),
        ) == rewrite_outcome(
            rule_id,
            incident,
            old_param,
            new_param,
            value_transform,
            incident.line_number->Some_0,
            lines_of(source),
            matches,
        ),
{
    assert(matches =~= param_matches(param_pattern(old_param), lines_of(source)));
}

// ---------------------------------------------------------------------
// Parentheses
// ---------------------------------------------------------------------

/// How many of the characters from `from` up to `to` open a parenthesis, less
/// those that close one.
pub open spec fn nesting(s: Seq<char>, from: int, to: int) -> int
    decreases to - from,
{
    if to <= from {
        0
    } else if s[to - 1] == '(' {
        nesting(s, from, to - 1) + 1
    } else if s[to - 1] == ')' {
        nesting(s, from, to - 1) - 1
    } else {
        nesting(s, from, to - 1)
    }
}

pub open spec fn has_no_string(s: Seq<char>, from: int) -> bool {
    forall|i: int| from <= i < s.len() ==> #[trigger] s[i] != '"' && s[i] != '\''
}

/// Character `p` closes the parameters: it is the first closing parenthesis
/// with which none is open any more.
pub open spec fn closes_at(s: Seq<char>, from: int, depth: int, p: int) -> bool {
    &&& from <= p < s.len()
    &&& s[p] == ')'
    &&& depth + nesting(s, from, p) <= 1
    &&& forall|j: int|
        from <= j < p && #[trigger] s[j] == ')' ==> depth + nesting(s, from, j) > 1
}

proof fn lemma_nesting_front(s: Seq<char>, from: int, to: int)
    requires
        0 <= from < to <= s.len(),
    ensures
        nesting(s, from, to) == nesting(s, from + 1, to) + if s[from] == '(' {
            1int
        } else if s[from] == ')' {
            -1
        } else {
            0
        },
    decreases to - from,
{
    reveal_with_fuel(nesting, 2);
    if from + 1 < to {
        lemma_nesting_front(s, from, to - 1);
    }
}

proof fn lemma_closing(s: Seq<char>, i: int, depth: nat, p: int)
    requires
        0 <= i <= s.len(),
        has_no_string(s, i),
        closes_at(s, i, depth as int, p),
    ensures
        closing(s, i, depth, None) == Closing::At(p),
    decreases s.len() - i,
{
    if i < p {
        lemma_nesting_front(s, i, p);
        let next: int = if s[i] == '(' {
            depth as int + 1
        } else if s[i] == ')' {
            depth as int - 1
        } else {
            depth as int
        };
        if s[i] == ')' {
            assert(depth + nesting(s, i, i) > 1);
        }
        assert forall|j: int| i + 1 <= j < p && #[trigger] s[j] == ')' implies next + nesting(
            s,
            i + 1,
            j,
        ) > 1 by {
            lemma_nesting_front(s, i, j);
        }
        assert(has_no_string(s, i + 1));
        assert(s[i] != '"' && s[i] != '\'');
        lemma_closing(s, i + 1, next as nat, p);
    }
}

/// Outside of strings the parameters end at the first closing parenthesis
/// with which none is open any more.
pub proof fn law_parameters_end_where_they_balance(s: Seq<char>, depth: nat, p: int)
    requires
        has_no_string(s, 0),
        closes_at(s, 0, depth as int, p),
    ensures
        closing(s, 0, depth, None) == Closing::At(p),
{
    lemma_closing(s, 0, depth, p);
}

proof fn lemma_skip_string(s: Seq<char>, i: int, q: char, depth: nat, end: int)
    requires
        0 <= i <= end < s.len(),
        s[end] == q,
        forall|j: int| i <= j < end ==> #[trigger] s[j] != q && s[j] != '\\',
        q == '"' || q == '\'',
    ensures
        closing(s, i, depth, Some(q)) == closing(s, end + 1, depth, None),
    decreases end - i,
{
    if i < end {
        lemma_skip_string(s, i + 1, q, depth, end);
    }
}

/// What stands between quotes does not count: reading goes on behind the
/// closing quote with as many open parentheses as before.
pub proof fn law_strings_do_not_end_parameters(
    s: Seq<char>,
    i: int,
    depth: nat,
    end: int,
)
    requires
        0 <= i < end < s.len(),
        s[i] == '"' || s[i] == '\'',
        s[end] == s[i],
        forall|j: int| i < j < end ==> #[trigger] s[j] != s[i] && s[j] != '\\',
    ensures
        closing(s, i, depth, None) == closing(s, end + 1, depth, None),
{
    lemma_skip_string(s, i + 1, s[i], depth, end);
}

// ---------------------------------------------------------------------
// Removing an annotation
// ---------------------------------------------------------------------

/// The annotation is to go from line `idx`, where it stands as `text` between
/// `before` and `after`.
pub open spec fn annotation_found(
    incident: IncidentView,
    name: Seq<char>,
    source: Seq<char>,
    idx: int,
    before: Seq<char>,
    text: Seq<char>,
    after: Seq<char>,
) -> bool {
    let all = lines_of(source);
    let short = "@"@ + regex_escaped(name);
    let full = "@"@ + regex_escaped(name) + r"\s*(?:\([^)]*\))?\s*\n?"@;
    &&& annotation_name(incident) == Some(name)
    &&& idx + 1 == match incident.line_number {
        Some(l) => l,
        None => 1,
    }
    &&& 0 <= idx < all.len() <= u32::MAX
    &&& is_pattern(short)
    &&& is_pattern(full)
    &&& regex_found(short, all[idx]) is Some
    &&& regex_found(full, all[idx]) == Some((before, text, after))
}

/// The edits of a removal.
pub open spec fn removal_plan(
    rule_id: Seq<char>,
    incident: IncidentView,
    source: Seq<char>,
) -> Seq<TextEditView> {
    match annotation_removal(rule_id, incident, Ok(source)).fix {
        Some(fix) => fix.edits,
        None => Seq::empty(),
    }
}

/// An annotation without parameters, or with parameters that end where its
/// match ends, goes from its line and leaves the rest of the line.
pub proof fn law_annotation_goes_from_its_line(
    rule_id: Seq<char>,
    incident: IncidentView,
    name: Seq<char>,
    source: Seq<char>,
    idx: int,
    before: Seq<char>,
    text: Seq<char>,
    after: Seq<char>,
)
    requires
        annotation_found(incident, name, source, idx, before, text, after),
        (!has_text(text, "("@) && !begins(after, "("@)) || closing(text, 0, 0, None) is At,
    ensures
        removal_plan(rule_id, incident, source).len() == 1,
        rewrites_line(
            removal_plan(rule_id, incident, source)[0],
            rule_id,
            lines_of(source),
            idx,
            trimmed(before + after),
        ),
{
}

/// Parameters that the match leaves open and that end later on the same line
/// go with the annotation, up to the parenthesis that closes them.
pub proof fn law_parameters_go_with_the_annotation(
    rule_id: Seq<char>,
    incident: IncidentView,
    name: Seq<char>,
    source: Seq<char>,
    idx: int,
    before: Seq<char>,
    text: Seq<char>,
    after: Seq<char>,
    p: int,
)
    requires
        annotation_found(incident, name, source, idx, before, text, after),
        has_text(text, "("@) || begins(after, "("@),
        !(closing(text, 0, 0, None) is At),
        closing(text + after, 0, 0, None) == Closing::At(p),
    ensures
        removal_plan(rule_id, incident, source).len() == 1,
        rewrites_line(
            removal_plan(rule_id, incident, source)[0],
            rule_id,
            lines_of(source),
            idx,
            trimmed(before + trimmed_start((text + after).skip(p + 1))),
        ),
{
}

proof fn lemma_blanked(
    rule_id: Seq<char>,
    all: Seq<Seq<char>>,
    words: Seq<char>,
    from: int,
    to: int,
)
    requires
        0 <= from <= to <= all.len() <= u32::MAX,
    ensures
        blanked(rule_id, all, words, from, to).len() == to - from,
        forall|k: int|
            0 <= k < to - from ==> rewrites_line(
                #[trigger] blanked(rule_id, all, words, from, to)[k],
                rule_id,
                all,
                from + k,
                Seq::empty(),
            ),
    decreases to - from,
{
    if from < to {
        lemma_blanked(rule_id, all, words, from, to - 1);
        let before = blanked(rule_id, all, words, from, to - 1);
        let now = blanked(rule_id, all, words, from, to);
        assert forall|k: int| 0 <= k < to - from implies rewrites_line(
            #[trigger] now[k],
            rule_id,
            all,
            from + k,
            Seq::empty(),
        ) by {
            if k < before.len() {
                assert(now[k] == before[k]);
            }
        }
    }
}

/// Line `end` is where the parameters end that `depth` parentheses are open
/// of before line `i`, at character `p`.
pub open spec fn is_end_of_parameters(
    all: Seq<Seq<char>>,
    i: int,
    depth: nat,
    end: int,
    p: int,
) -> bool
    decreases end - i,
{
    &&& i <= end < all.len()
    &&& if i < end {
        closing(all[i], 0, depth, None) is Open && is_end_of_parameters(
            all,
            i + 1,
            closing(all[i], 0, depth, None)->Open_0,
            end,
            p,
        )
    } else {
        closing(all[i], 0, depth, None) == Closing::At(p)
    }
}

proof fn lemma_end(all: Seq<Seq<char>>, i: int, depth: nat, end: int, p: int)
    requires
        0 <= i,
        is_end_of_parameters(all, i, depth, end, p),
    ensures
        closing_place(all, i, depth) == Some((end, p)),
    decreases end - i,
{
    if i < end {
        lemma_end(all, i + 1, closing(all[i], 0, depth, None)->Open_0, end, p);
    }
}

/// Parameters that go on over the following lines go with the annotation:
/// the lines between become empty, and of the line on which they end only
/// what stands behind them is left. Every other line stays.
pub proof fn law_parameters_over_lines_go_with_the_annotation(
    rule_id: Seq<char>,
    incident: IncidentView,
    name: Seq<char>,
    source: Seq<char>,
    idx: int,
    before: Seq<char>,
    text: Seq<char>,
    after: Seq<char>,
    end: int,
    p: int,
)
    requires
        annotation_found(incident, name, source, idx, before, text, after),
        has_text(text, "("@) || begins(after, "("@),
        !(closing(text, 0, 0, None) is At),
        closing(text + after, 0, 0, None) is Open,
        is_end_of_parameters(
            lines_of(source),
            idx + 1,
            closing(text + after, 0, 0, None)->Open_0,
            end,
            p,
        ),
    ensures
        removal_plan(rule_id, incident, source).len() == end + 1 - idx,
        rewrites_line(
            removal_plan(rule_id, incident, source)[0],
            rule_id,
            lines_of(source),
            idx,
            trimmed(before),
        ),
        forall|k: int|
            0 < k < end - idx ==> rewrites_line(
                #[trigger] removal_plan(rule_id, incident, source)[k],
                rule_id,
                lines_of(source),
                idx + k,
                Seq::empty(),
            ),
        rewrites_line(
            removal_plan(rule_id, incident, source)[end - idx],
            rule_id,
            lines_of(source),
            end,
            trimmed(lines_of(source)[end].skip(p + 1)),
        ),
{
    let all = lines_of(source);
    let depth = closing(text + after, 0, 0, None)->Open_0;
    lemma_end(all, idx + 1, depth, end, p);
    let words = "Remove @"@ + name + " annotation"@;
    let plan = removal_plan(rule_id, incident, source);
    lemma_blanked(rule_id, all, words, idx + 1, end);
    let between = blanked(rule_id, all, words, idx + 1, end);
    assert(plan == removal_edits(rule_id, all, idx, words, before, text, after));
    assert forall|k: int| 0 < k < end - idx implies rewrites_line(
        #[trigger] plan[k],
        rule_id,
        all,
        idx + k,
        Seq::empty(),
    ) by {
        assert(plan[k] == between[k - 1]);
    }
}

/// The annotation that an incident is about is the one that it names, or else
/// the last part of the text that it matched, without the `@`.
pub proof fn law_annotation_of_an_incident(incident: IncidentView, text: Seq<char>)
    ensures
        has_var(incident, "annotationName"@) ==> annotation_name(incident) == text_var(
            incident,
            "annotationName"@,
        ),
        !has_var(incident, "annotationName"@) && text_var(incident, "matchingText"@) is None
            ==> annotation_name(incident) is None,
        !has_var(incident, "annotationName"@) && text_var(incident, "matchingText"@) == Some(text)
            && !begins(text, "@"@) ==> annotation_name(incident) == Some(simple_name(text)),
        !has_var(incident, "annotationName"@) && text_var(incident, "matchingText"@) == Some(
            "@"@ + text,
        ) ==> annotation_name(incident) == Some(simple_name(text)),
{
    let full = "@"@ + text;
    assert(full.subrange(0, "@"@.len() as int) =~= "@"@);
    assert(full.skip("@"@.len() as int) =~= text);
}

/// Where the line is not in the file, or the annotation is not on it, nothing
/// is removed, and the reason says so.
pub proof fn law_missing_annotation_is_reported(
    rule_id: Seq<char>,
    incident: IncidentView,
    name: Seq<char>,
    source: Seq<char>,
)
    requires
        annotation_name(incident) == Some(name),
    ensures
        ({
            let outcome = annotation_removal(rule_id, incident, Ok(source));
            let line = match incident.line_number {
                Some(l) => l,
                None => 1,
            };
            let short = "@"@ + regex_escaped(name);
            &&& line == 0 || line > lines_of(source).len() ==> outcome.fix is None
                && outcome.skip is Some && outcome.skip->Some_0.reason
                == SkipReason::LineOutOfBounds
            &&& 0 < line <= lines_of(source).len() && is_pattern(short) && regex_found(
                short,
                lines_of(source)[line - 1],
            ) is None ==> outcome.fix is None && outcome.skip is Some
                && outcome.skip->Some_0.reason == SkipReason::TextNotFound
        }),
{
}

} // verus!
