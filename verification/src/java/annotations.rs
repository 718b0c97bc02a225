//! Java annotations: rewriting a parameter, and removing an annotation.

use crate::engine::import_path::passed_over;
use crate::java::rename::{line_edit, make_line_edit, simple_name, simple_name_of};
use crate::js::imports::{group, group_of};
use crate::language::{nothing, Outcome};
use crate::model::{
    noting, FixConfidence, FixReport, FixSource, PlannedFix, PlannedFixView, SkipReason, TextEdit,
    TextEditView,
};
use crate::pattern::{
    captures, compiles, escape, find, is_pattern, regex_escaped, regex_found, regex_groups,
};
use crate::report::{has_var, text_var, Incident, IncidentView};
use crate::text::{
    begins, cat2, cat3, cat4, cat5, cat7, chars_of, contains, decimal, decimal_of,
    has_text, lines, lines_of, owned, piece, replace, replace_first, replaced,
    replaced_first, same, starts_with, strip_prefix, trim, trim_start, trimmed,
    trimmed_start, without_prefix,
};
use crate::views::{append_one, distinct, distinct_texts, only};
use crate::workspace::{text_at, Workspace};
use vstd::prelude::*;

verus! {

broadcast use vstd::string::group_string_axioms;

// ---------------------------------------------------------------------
// Rewriting a parameter
// ---------------------------------------------------------------------

/// A parameter with a value in quotes: its first group is what stands
/// between the name and the value, its second one the value.
pub open spec fn param_pattern(param: Seq<char>) -> Seq<char> {
    regex_escaped(param) + r#"(\s*=\s*)"([^"]+)""#@
}

/// The value names a class of the project: a full name that is not one of
/// Hibernate's.
pub open spec fn is_consumer_class(value: Seq<char>) -> bool {
    has_text(value, "."@) && (has_text(value, "candlepin"@) || has_text(value, "redhat"@) || !begins(
        value,
        "org.hibernate"@,
    ))
}

/// A line with the parameter rewritten. A full name in quotes becomes a
/// class literal where the transform asks for it; otherwise only the name
/// of the parameter changes, where it stands before its value.
pub open spec fn rewritten_line(
    line: Seq<char>,
    old_param: Seq<char>,
    new_param: Seq<char>,
    literal: bool,
    spacing: Seq<char>,
    value: Seq<char>,
) -> Seq<char> {
    if literal {
        replaced(
            line,
            old_param + spacing + "\""@ + value + "\""@,
            new_param + spacing + simple_name(value) + ".class"@,
        )
    } else {
        replaced_first(
            line,
            old_param + spacing + "\""@ + value + "\""@,
            new_param + spacing + "\""@ + value + "\""@,
        )
    }
}

/// What comes of one line: the rewritten line, where there is one, and the
/// class to import.
#[verifier::ext_equal]
pub ghost struct Rewrite {
    pub line: Option<Seq<char>>,
    pub import: Option<Seq<char>>,
}

/// Some line is the import of the name.
pub open spec fn has_import_line(all: Seq<Seq<char>>, name: Seq<char>) -> bool {
    exists|k: int| 0 <= k < all.len() && trimmed(#[trigger] all[k]) == "import "@ + name + ";"@
}

/// What comes of line `i`, given the groups that matching it gave. A class
/// literal is written for classes of the project only, and the class is to
/// be imported where it is not yet.
pub open spec fn line_rewrite(
    all: Seq<Seq<char>>,
    i: int,
    old_param: Seq<char>,
    new_param: Seq<char>,
    literal: bool,
    groups: Option<Seq<Option<Seq<char>>>>,
) -> Rewrite {
    let none = Rewrite { line: None, import: None };
    match groups {
        Some(g) => match (group(g, 1), group(g, 2)) {
            (Some(spacing), Some(value)) => {
                let new_line = rewritten_line(
                    all[i],
                    old_param,
                    new_param,
                    literal,
                    spacing,
                    value,
                );
                if !has_text(all[i], old_param) || (literal && !is_consumer_class(value)) {
                    none
                } else {
                    Rewrite {
                        line: if new_line != all[i] {
                            Some(new_line)
                        } else {
                            None
                        },
                        import: if literal && !has_import_line(all, value) {
                            Some(value)
                        } else {
                            None
                        },
                    }
                }
            },
            _ => none,
        },
        None => none,
    }
}

/// The edits of the first `n` lines.
pub open spec fn rewrite_edits(
    rule_id: Seq<char>,
    all: Seq<Seq<char>>,
    old_param: Seq<char>,
    new_param: Seq<char>,
    literal: bool,
    matches: Seq<Option<Seq<Option<Seq<char>>>>>,
    n: int,
) -> Seq<TextEditView>
    decreases n,
{
    if n <= 0 {
        Seq::empty()
    } else {
        let before = rewrite_edits(
            rule_id,
            all,
            old_param,
            new_param,
            literal,
            matches,
            n - 1,
        );
        match line_rewrite(all, n - 1, old_param, new_param, literal, matches[n - 1]).line {
            Some(new_line) => before.push(
                line_edit(
                    rule_id,
                    n as u32,
                    all[n - 1],
                    new_line,
                    "Rewrite annotation param: "@ + old_param + " → "@ + new_param,
                ),
            ),
            None => before,
        }
    }
}

/// The classes to import for the first `n` lines.
pub open spec fn rewrite_imports(
    all: Seq<Seq<char>>,
    old_param: Seq<char>,
    new_param: Seq<char>,
    literal: bool,
    matches: Seq<Option<Seq<Option<Seq<char>>>>>,
    n: int,
) -> Seq<Seq<char>>
    decreases n,
{
    if n <= 0 {
        Seq::empty()
    } else {
        let before = rewrite_imports(all, old_param, new_param, literal, matches, n - 1);
        match line_rewrite(all, n - 1, old_param, new_param, literal, matches[n - 1]).import {
            Some(name) => before.push(name),
            None => before,
        }
    }
}

/// The markers that ask for the first `n` imports.
pub open spec fn markers(names: Seq<Seq<char>>, n: int) -> Seq<char>
    decreases n,
{
    if n <= 0 {
        Seq::empty()
    } else {
        markers(names, n - 1) + " // __ADD_IMPORT:"@ + names[n - 1]
    }
}

/// The edits with the markers on the first one.
pub open spec fn with_markers(edits: Seq<TextEditView>, names: Seq<Seq<char>>) -> Seq<
    TextEditView,
> {
    if edits.len() == 0 {
        edits
    } else {
        edits.update(
            0,
            TextEditView {
                new_text: edits[0].new_text + markers(names, names.len() as int),
                ..edits[0]
            },
        )
    }
}

/// What comes of rewriting a parameter in a file, given the groups that
/// matching each line gave.
pub open spec fn rewrite_outcome(
    rule_id: Seq<char>,
    incident: IncidentView,
    old_param: Seq<char>,
    new_param: Seq<char>,
    value_transform: Seq<char>,
    line: u32,
    all: Seq<Seq<char>>,
    matches: Seq<Option<Seq<Option<Seq<char>>>>>,
) -> Outcome {
    let literal = value_transform == "StringFqnToClassLiteral"@;
    let n = all.len() as int;
    let imports = rewrite_imports(all, old_param, new_param, literal, matches, n);
    let edits = with_markers(
        rewrite_edits(rule_id, all, old_param, new_param, literal, matches, n),
        distinct(imports, imports.len() as int),
    );
    if edits.len() == 0 {
        passed_over(
            rule_id,
            incident,
            SkipReason::TextNotFound,
            Some(
                "Annotation param '"@ + old_param + "' not found near line "@ + decimal(
                    line as nat,
                ),
            ),
        )
    } else {
        Outcome {
            fix: Some(
                PlannedFixView {
                    edits,
                    confidence: FixConfidence::High,
                    source: FixSource::Pattern,
                    rule_id,
                    file_uri: incident.file_uri,
                    line,
                    description: "Rewrite annotation: "@ + old_param + " → "@ + new_param + " ("@
                        + value_transform + ")"@,
                },
            ),
            skip: None,
        }
    }
}

/// The groups that matching each line gives.
pub open spec fn param_matches(pattern: Seq<char>, all: Seq<Seq<char>>) -> Seq<
    Option<Seq<Option<Seq<char>>>>,
> {
    Seq::new(all.len(), |i: int| regex_groups(pattern, all[i]))
}

/// What comes of rewriting a parameter, given what reading the file gave.
pub open spec fn annotation_outcome(
    rule_id: Seq<char>,
    incident: IncidentView,
    old_param: Seq<char>,
    new_param: Seq<char>,
    value_transform: Seq<char>,
    read: Result<Seq<char>, Seq<char>>,
) -> Outcome {
    match (read, incident.line_number) {
        (Ok(source), Some(line)) => {
            let all = lines_of(source);
            let pattern = param_pattern(old_param);
            if line == 0 || all.len() == 0 || !is_pattern(pattern) {
                nothing()
            } else {
                rewrite_outcome(
                    rule_id,
                    incident,
                    old_param,
                    new_param,
                    value_transform,
                    line,
                    all,
                    param_matches(pattern, all),
                )
            }
        },
        _ => nothing(),
    }
}

fn names_consumer_class(value: &str) -> (r: bool)
    ensures
        r == is_consumer_class(value@),
{
    contains(value, ".") && (contains(value, "candlepin") || contains(value, "redhat")
        || !starts_with(value, "org.hibernate"))
}

fn find_import_line(all: &Vec<String>, name: &str) -> (r: bool)
    ensures
        r == has_import_line(all.deep_view(), name@),
{
    let ghost view = all.deep_view();
    let wanted = cat3("import ", name, ";");
    let mut k: usize = 0;
    while k < all.len()
        invariant
            k <= all@.len(),
            view == all.deep_view(),
            wanted@ == "import "@ + name@ + ";"@,
            forall|j: int| 0 <= j < k ==> trimmed(#[trigger] view[j]) != "import "@ + name@ + ";"@,
        decreases all@.len() - k,
    {
        assert(view[k as int] == all@[k as int]@);
        if same(trim(all[k].as_str()), wanted.as_str()) {
            return true;
        }
        k = k + 1;
    }
    false
}

fn rewrite_text(
    line: &str,
    old_param: &str,
    new_param: &str,
    literal: bool,
    spacing: &str,
    value: &str,
) -> (r: String)
    ensures
        r@ == rewritten_line(line@, old_param@, new_param@, literal, spacing@, value@),
{
    let old_text = cat5(old_param, spacing, "\"", value, "\"");
    if literal {
        let class = simple_name_of(value);
        let new_text = cat4(new_param, spacing, class.as_str(), ".class");
        replace(line, old_text.as_str(), new_text.as_str())
    } else {
        let new_text = cat5(new_param, spacing, "\"", value, "\"");
        replace_first(line, old_text.as_str(), new_text.as_str())
    }
}

fn rewrite_line(
    all: &Vec<String>,
    i: usize,
    old_param: &str,
    new_param: &str,
    literal: bool,
    groups: &Option<Vec<Option<String>>>,
) -> (r: (Option<String>, Option<String>))
    requires
        i < all@.len(),
    ensures
        ({
            let o = line_rewrite(
                all.deep_view(),
                i as int,
                old_param@,
                new_param@,
                literal,
                groups.deep_view(),
            );
            r.0.deep_view() == o.line && r.1.deep_view() == o.import
        }),
{
    let line = all[i].as_str();
    assert(all.deep_view()[i as int] == line@);
    let g = match groups {
        Some(g) => g,
        None => {
            return (None, None);
        },
    };
    let (spacing, value) = match (group_of(g, 1), group_of(g, 2)) {
        (Some(s), Some(v)) => (s.as_str(), v.as_str()),
        _ => {
            return (None, None);
        },
    };
    if !contains(line, old_param) || (literal && !names_consumer_class(value)) {
        return (None, None);
    }
    let new_line = rewrite_text(line, old_param, new_param, literal, spacing, value);
    let import = if literal && !find_import_line(all, value) {
        Some(owned(value))
    } else {
        None
    };
    if same(new_line.as_str(), line) {
        (None, import)
    } else {
        (Some(new_line), import)
    }
}

fn mark_first(edits: Vec<TextEdit>, names: &Vec<String>) -> (r: Vec<TextEdit>)
    ensures
        r.deep_view() == with_markers(edits.deep_view(), names.deep_view()),
{
    let ghost view = edits.deep_view();
    assert(view.len() == edits@.len());
    if edits.len() == 0 {
        return edits;
    }
    let mut marks = String::new();
    let mut i: usize = 0;
    while i < names.len()
        invariant
            i <= names@.len(),
            marks@ == markers(names.deep_view(), i as int),
        decreases names@.len() - i,
    {
        assert(names.deep_view()[i as int] == names@[i as int]@);
        marks.append(" // __ADD_IMPORT:");
        marks.append(names[i].as_str());
        i = i + 1;
    }
    assert(names.deep_view().len() == names@.len());
    let mut edits = edits;
    let mut first = edits[0].copy();
    assert(view[0] == edits@[0].deep_view());
    first.new_text = cat2(first.new_text.as_str(), marks.as_str());
    let ghost changed = first.deep_view();
    edits.set(0, first);
    assert(edits.deep_view() =~= view.update(0, changed));
    edits
}

/// Plans the rewriting of a parameter in the lines of a file, given the
/// groups that matching each line gave.
pub fn plan_param_rewrite_in(
    rule_id: &str,
    incident: &Incident,
    old_param: &str,
    new_param: &str,
    value_transform: &str,
    line: u32,
    all: &Vec<String>,
    matches: &Vec<Option<Vec<Option<String>>>>,
    report: &mut FixReport,
) -> (r: Option<PlannedFix>)
    requires
        matches@.len() == all@.len(),
    ensures
        ({
            let o = rewrite_outcome(
                rule_id@,
                incident.deep_view(),
                old_param@,
                new_param@,
                value_transform@,
                line,
                all.deep_view(),
                matches.deep_view(),
            );
            &&& r.deep_view() == o.fix
            &&& final(report).deep_view() == noting(old(report).deep_view(), o.skip)
        }),
{
    let literal = same(value_transform, "StringFqnToClassLiteral");
    let ghost view = all.deep_view();
    let ghost found = matches.deep_view();
    let mut edits: Vec<TextEdit> = Vec::new();
    let mut imports: Vec<String> = Vec::new();
    let mut i: usize = 0;
    assert(edits.deep_view() =~= Seq::<TextEditView>::empty());
    assert(imports.deep_view() =~= Seq::<Seq<char>>::empty());
    while i < all.len()
        invariant
            i <= all@.len(),
            matches@.len() == all@.len(),
            view == all.deep_view(),
            found == matches.deep_view(),
            edits.deep_view() == rewrite_edits(
                rule_id@,
                view,
                old_param@,
                new_param@,
                literal,
                found,
                i as int,
            ),
            imports.deep_view() == rewrite_imports(
                view,
                old_param@,
                new_param@,
                literal,
                found,
                i as int,
            ),
        decreases all@.len() - i,
    {
        assert(view[i as int] == all@[i as int]@);
        assert(found[i as int] == matches@[i as int].deep_view());
        let (new_line, import) = rewrite_line(all, i, old_param, new_param, literal, &matches[i]);
        match new_line {
            Some(text) => {
                let description = cat4(
                    "Rewrite annotation param: ",
                    old_param,
                    " → ",
                    new_param,
                );
                append_one(
                    &mut edits,
                    make_line_edit(rule_id, (i + 1) as u32, all[i].as_str(), text, description),
                );
            },
            None => {},
        }
        match import {
            Some(name) => {
                append_one(&mut imports, name);
            },
            None => {},
        }
        i = i + 1;
    }
    assert(view.len() == all@.len());
    assert(imports.deep_view().len() == imports@.len());
    let names = distinct_texts(&imports);
    let edits = mark_first(edits, &names);
    assert(edits.deep_view().len() == edits@.len());
    if edits.len() == 0 {
        let number = decimal_of(line as u64);
        report.record_skip(
            rule_id,
            incident.file_uri.as_str(),
            incident.line_number,
            SkipReason::TextNotFound,
            Some(
                cat4("Annotation param '", old_param, "' not found near line ", number.as_str()),
            ),
        );
        return None;
    }
    Some(
        PlannedFix {
            edits,
            confidence: FixConfidence::High,
            source: FixSource::Pattern,
            rule_id: owned(rule_id),
            file_uri: incident.file_uri.clone(),
            line,
            description: cat7(
                "Rewrite annotation: ",
                old_param,
                " → ",
                new_param,
                " (",
                value_transform,
                ")",
            ),
        },
    )
}

fn match_lines(pattern: &str, all: &Vec<String>) -> (r: Vec<Option<Vec<Option<String>>>>)
    requires
        is_pattern(pattern@),
    ensures
        r.deep_view() == param_matches(pattern@, all.deep_view()),
        r@.len() == all@.len(),
{
    let ghost goal = param_matches(pattern@, all.deep_view());
    let mut out: Vec<Option<Vec<Option<String>>>> = Vec::new();
    let mut i: usize = 0;
    while i < all.len()
        invariant
            i <= all@.len(),
            is_pattern(pattern@),
            goal == param_matches(pattern@, all.deep_view()),
            out@.len() == i,
            forall|k: int| 0 <= k < i ==> (#[trigger] out@[k]).deep_view() == goal[k],
        decreases all@.len() - i,
    {
        assert(all.deep_view()[i as int] == all@[i as int]@);
        out.push(captures(pattern, all[i].as_str()));
        i = i + 1;
    }
    assert(out.deep_view() =~= goal);
    out
}

/// Plans the rewriting of an annotation's parameter.
pub fn plan_java_annotation_param_rewrite(
    rule_id: &str,
    incident: &Incident,
    old_param: &str,
    new_param: &str,
    value_transform: &str,
    file_path: &str,
    ws: &Workspace,
    report: &mut FixReport,
) -> (r: Option<PlannedFix>)
    ensures
        ({
            let o = annotation_outcome(
                rule_id@,
                incident.deep_view(),
                old_param@,
                new_param@,
                value_transform@,
                text_at(ws.deep_view(), file_path@),
            );
            &&& r.deep_view() == o.fix
            &&& final(report).deep_view() == noting(old(report).deep_view(), o.skip)
        }),
{
    let source = match ws.read(file_path) {
        Ok(s) => s,
        Err(_) => {
            return None;
        },
    };
    let all = lines(source);
    let line: u32 = match incident.line_number {
        Some(l) => l,
        None => {
            return None;
        },
    };
    assert(all.deep_view().len() == all@.len());
    if line == 0 || all.len() == 0 {
        return None;
    }
    let escaped = escape(old_param);
    let pattern = cat2(escaped.as_str(), r#"(\s*=\s*)"([^"]+)""#);
    if !compiles(pattern.as_str()) {
        return None;
    }
    let matches = match_lines(pattern.as_str(), &all);
    plan_param_rewrite_in(
        rule_id,
        incident,
        old_param,
        new_param,
        value_transform,
        line,
        &all,
        &matches,
        report,
    )
}

// ---------------------------------------------------------------------
// Removing an annotation
// ---------------------------------------------------------------------

/// The annotation that an incident is about: the one that it names, or the
/// last part of the matched text without its `@`.
pub open spec fn annotation_name(incident: IncidentView) -> Option<Seq<char>> {
    if has_var(incident, "annotationName"@) {
        text_var(incident, "annotationName"@)
    } else {
        match text_var(incident, "matchingText"@) {
            Some(text) => Some(
                simple_name(
                    match without_prefix(text, "@"@) {
                        Some(rest) => rest,
                        None => text,
                    },
                ),
            ),
            None => None,
        }
    }
}

/// The annotation that an incident is about.
pub fn get_annotation_name(incident: &Incident) -> (r: Option<String>)
    ensures
        r.deep_view() == annotation_name(incident.deep_view()),
{
    if incident.has_variable("annotationName") {
        return match incident.text_variable("annotationName") {
            Some(s) => Some(owned(s)),
            None => None,
        };
    }
    match incident.text_variable("matchingText") {
        Some(text) => {
            let name = match strip_prefix(text, "@") {
                Some(rest) => rest,
                None => text,
            };
            Some(simple_name_of(name))
        },
        None => None,
    }
}

/// The annotation by its name.
pub open spec fn name_pattern(name: Seq<char>) -> Seq<char> {
    "@"@ + regex_escaped(name)
}

/// The annotation with its parameters, where they end on the same line, and
/// the white space behind it.
pub open spec fn full_pattern(name: Seq<char>) -> Seq<char> {
    "@"@ + regex_escaped(name) + r"\s*(?:\([^)]*\))?\s*\n?"@
}

/// What reading a line for the parenthesis that closes the open ones comes
/// to: its place, or how many are open at the end of the line.
pub ghost enum Closing {
    At(int),
    Open(nat),
}

/// What reading a line from `i` on comes to, where `depth` parentheses are
/// open and the character stands for the quotes that are open. What stands
/// in quotes does not count.
pub open spec fn closing(s: Seq<char>, i: int, depth: nat, quote: Option<char>) -> Closing
    decreases s.len() - i + 1,
{
    if i < 0 || i >= s.len() {
        Closing::Open(depth)
    } else {
        match quote {
            Some(q) => if s[i] == '\\' {
                closing(s, i + 2, depth, quote)
            } else if s[i] == q {
                closing(s, i + 1, depth, None)
            } else {
                closing(s, i + 1, depth, quote)
            },
            None => if s[i] == '"' || s[i] == '\'' {
                closing(s, i + 1, depth, Some(s[i]))
            } else if s[i] == '(' {
                closing(s, i + 1, depth + 1, None)
            } else if s[i] == ')' && depth <= 1 {
                Closing::At(i)
            } else if s[i] == ')' {
                closing(s, i + 1, (depth - 1) as nat, None)
            } else {
                closing(s, i + 1, depth, None)
            },
        }
    }
}

/// The line from `i` on, and the place in it, of the parenthesis that closes
/// the `depth` open ones.
pub open spec fn closing_place(all: Seq<Seq<char>>, i: int, depth: nat) -> Option<(int, int)>
    decreases all.len() - i,
{
    if i < 0 || i >= all.len() {
        None
    } else {
        match closing(all[i], 0, depth, None) {
            Closing::At(p) => Some((i, p)),
            Closing::Open(d) => closing_place(all, i + 1, d),
        }
    }
}

/// Where the parameters of an annotation end that its match leaves open: the
/// line, and how much of it stands up to the closing parenthesis. On the line
/// of the annotation that is counted from the match on. The match leaves them
/// open where parentheses stand in parentheses or in quotes, and where the
/// parameters go on over the following lines.
pub open spec fn params_end(
    all: Seq<Seq<char>>,
    idx: int,
    text: Seq<char>,
    after: Seq<char>,
) -> Option<(int, int)> {
    if !(has_text(text, "("@) || begins(after, "("@)) || closing(text, 0, 0, None) is At {
        None
    } else {
        match closing(text + after, 0, 0, None) {
            Closing::At(p) => Some((idx, p + 1)),
            Closing::Open(depth) => match closing_place(all, idx + 1, depth) {
                Some((end, p)) => Some((end, p + 1)),
                None => None,
            },
        }
    }
}

/// The edits that blank out the lines from `from` up to `to`.
pub open spec fn blanked(
    rule_id: Seq<char>,
    all: Seq<Seq<char>>,
    words: Seq<char>,
    from: int,
    to: int,
) -> Seq<TextEditView>
    decreases to - from,
{
    if to <= from {
        Seq::empty()
    } else {
        blanked(rule_id, all, words, from, to - 1).push(
            line_edit(rule_id, to as u32, all[to - 1], Seq::empty(), words),
        )
    }
}

/// The edits that take an annotation off line `idx`, given what stands
/// before it, the match and what stands after it there. Its parameters go
/// with it, up to the parenthesis that closes them.
pub open spec fn removal_edits(
    rule_id: Seq<char>,
    all: Seq<Seq<char>>,
    idx: int,
    words: Seq<char>,
    before: Seq<char>,
    text: Seq<char>,
    after: Seq<char>,
) -> Seq<TextEditView> {
    let number = (idx + 1) as u32;
    match params_end(all, idx, text, after) {
        None => seq![line_edit(rule_id, number, all[idx], trimmed(before + after), words)],
        Some((end, n)) => if end == idx {
            let rest = trimmed_start((text + after).skip(n));
            seq![line_edit(rule_id, number, all[idx], trimmed(before + rest), words)]
        } else {
            seq![line_edit(rule_id, number, all[idx], trimmed(before), words)] + blanked(
                rule_id,
                all,
                words,
                idx + 1,
                end,
            ) + seq![
                line_edit(rule_id, (end + 1) as u32, all[end], trimmed(all[end].skip(n)), words),
            ]
        },
    }
}

/// The fix that takes an annotation off line `idx`, given what searching the
/// line found.
pub open spec fn removal_fix(
    rule_id: Seq<char>,
    incident: IncidentView,
    name: Seq<char>,
    all: Seq<Seq<char>>,
    idx: int,
    found: Option<(Seq<char>, Seq<char>, Seq<char>)>,
) -> Option<PlannedFixView> {
    let words = "Remove @"@ + name + " annotation"@;
    match found {
        Some(m) => Some(
            PlannedFixView {
                edits: removal_edits(rule_id, all, idx, words, m.0, m.1, m.2),
                confidence: FixConfidence::High,
                source: FixSource::Pattern,
                rule_id,
                file_uri: incident.file_uri,
                line: (idx + 1) as u32,
                description: words,
            },
        ),
        None => None,
    }
}

/// What comes of removing an annotation, given what reading the file gave.
pub open spec fn annotation_removal(
    rule_id: Seq<char>,
    incident: IncidentView,
    read: Result<Seq<char>, Seq<char>>,
) -> Outcome {
    match (annotation_name(incident), read) {
        (Some(name), Ok(source)) => {
            let all = lines_of(source);
            let line = match incident.line_number {
                Some(l) => l,
                None => 1,
            };
            let idx = line - 1;
            if line == 0 || line > all.len() {
                passed_over(rule_id, incident, SkipReason::LineOutOfBounds, None)
            } else if !is_pattern(name_pattern(name)) {
                nothing()
            } else if regex_found(name_pattern(name), all[idx]) is None {
                passed_over(
                    rule_id,
                    incident,
                    SkipReason::TextNotFound,
                    Some("@"@ + name + " not found on line "@ + decimal(line as nat)),
                )
            } else if !is_pattern(full_pattern(name)) {
                nothing()
            } else {
                Outcome {
                    fix: removal_fix(
                        rule_id,
                        incident,
                        name,
                        all,
                        idx,
                        regex_found(full_pattern(name), all[idx]),
                    ),
                    skip: None,
                }
            }
        },
        _ => nothing(),
    }
}

/// What reading a line comes to: whether the parenthesis that closes the
/// open ones is on it, and its place or how many are open at the end.
fn find_closing(v: &Vec<char>, depth: u128) -> (r: (bool, usize, u128))
    requires
        depth + 0xffff_ffff_ffff_ffff <= u128::MAX,
    ensures
        closing(v@, 0, depth as nat, None) == (if r.0 {
            Closing::At(r.1 as int)
        } else {
            Closing::Open(r.2 as nat)
        }),
        r.0 ==> r.1 < v@.len() && r.1 < usize::MAX,
        r.2 <= depth + 0xffff_ffff_ffff_ffff,
{
    let total: usize = v.len();
    let mut open: u128 = depth;
    let mut quote: Option<char> = None;
    let mut i: usize = 0;
    while i < total
        invariant
            i <= total,
            total == v@.len(),
            depth + 0xffff_ffff_ffff_ffff <= u128::MAX,
            open <= depth + i,
            closing(v@, 0, depth as nat, None) == closing(v@, i as int, open as nat, quote),
        decreases total - i,
    {
        let c = v[i];
        match quote {
            Some(q) => {
                if c == '\\' {
                    if i + 1 >= total {
                        assert(closing(v@, i + 2, open as nat, quote) == Closing::Open(
                            open as nat,
                        ));
                        return (false, 0, open);
                    }
                    i = i + 2;
                } else {
                    if c == q {
                        quote = None;
                    }
                    i = i + 1;
                }
            },
            None => {
                if c == '"' || c == '\'' {
                    quote = Some(c);
                } else if c == '(' {
                    open = open + 1;
                } else if c == ')' {
                    if open <= 1 {
                        return (true, i, 0);
                    }
                    open = open - 1;
                }
                i = i + 1;
            },
        }
    }
    (false, 0, open)
}

/// The line from `from` on with the parenthesis that closes the open ones, and
/// how much of it stands up to there.
fn find_closing_place(all: &Vec<String>, from: usize, depth: u128) -> (r: Option<(usize, usize)>)
    requires
        from <= all@.len(),
        depth <= 0xffff_ffff_ffff_ffff,
    ensures
        closing_place(all.deep_view(), from as int, depth as nat) == (match r {
            Some(p) => Some((p.0 as int, p.1 - 1)),
            None => None,
        }),
        r matches Some(p) ==> from <= p.0 < all@.len() && p.1 <= all@[p.0 as int]@.len(),
{
    let ghost view = all.deep_view();
    let total: usize = all.len();
    let mut open: u128 = depth;
    let mut i: usize = from;
    while i < total
        invariant
            from <= i <= total,
            total == all@.len(),
            view == all.deep_view(),
            open <= (i - from + 1) * 0xffff_ffff_ffff_ffff,
            closing_place(view, from as int, depth as nat) == closing_place(
                view,
                i as int,
                open as nat,
            ),
        decreases total - i,
    {
        assert(view[i as int] == all@[i as int]@);
        let v = chars_of(all[i].as_str());
        let (found, at, left) = find_closing(&v, open);
        if found {
            return Some((i, at + 1));
        }
        open = left;
        i = i + 1;
    }
    None
}

fn find_params_end(all: &Vec<String>, idx: usize, text: &str, after: &str) -> (r: Option<
    (usize, usize),
>)
    requires
        idx < all@.len(),
    ensures
        params_end(all.deep_view(), idx as int, text@, after@) == (match r {
            Some(p) => Some((p.0 as int, p.1 as int)),
            None => None,
        }),
        r matches Some(p) ==> if p.0 == idx {
            p.1 <= (text@ + after@).len()
        } else {
            idx < p.0 < all@.len() && p.1 <= all@[p.0 as int]@.len()
        },
{
    if !contains(text, "(") && !starts_with(after, "(") {
        return None;
    }
    let matched = chars_of(text);
    if find_closing(&matched, 0).0 {
        return None;
    }
    let joined = cat2(text, after);
    let v = chars_of(joined.as_str());
    let (found, at, open) = find_closing(&v, 0);
    if found {
        return Some((idx, at + 1));
    }
    let total: usize = all.len();
    find_closing_place(all, idx + 1, open)
}

/// The fix that takes an annotation off line `idx`, given what searching the
/// line found: the text before it, the annotation and the text after it.
pub fn plan_annotation_removal(
    rule_id: &str,
    incident: &Incident,
    name: &str,
    all: &Vec<String>,
    idx: usize,
    found: Option<(String, String, String)>,
) -> (r: Option<PlannedFix>)
    requires
        idx < all@.len(),
    ensures
        r.deep_view() == removal_fix(
            rule_id@,
            incident.deep_view(),
            name@,
            all.deep_view(),
            idx as int,
            found.deep_view(),
        ),
{
    let ghost view = all.deep_view();
    let (before, text, after) = match found {
        Some(m) => m,
        None => {
            return None;
        },
    };
    let total: usize = all.len();
    let words = cat3("Remove @", name, " annotation");
    assert(view[idx as int] == all@[idx as int]@);
    let line = all[idx].as_str();
    let number = (idx + 1) as u32;
    let edits: Vec<TextEdit> = match find_params_end(all, idx, text.as_str(), after.as_str()) {
        Some((end, n)) if end == idx => {
            let joined = cat2(text.as_str(), after.as_str());
            let v = chars_of(joined.as_str());
            let size: usize = v.len();
            let tail = piece(&v, n, size);
            assert(tail@ =~= (text@ + after@).skip(n as int));
            let whole = cat2(before.as_str(), trim_start(tail.as_str()));
            let rest = owned(trim(whole.as_str()));
            only(make_line_edit(rule_id, number, line, rest, words.clone()))
        },
        Some((end, n)) => {
            let rest = owned(trim(before.as_str()));
            let mut edits = only(make_line_edit(rule_id, number, line, rest, words.clone()));
            let ghost first = edits.deep_view();
            let mut i: usize = idx + 1;
            assert(first + blanked(rule_id@, view, words@, idx + 1, idx + 1) =~= first);
            while i < end
                invariant
                    idx < i <= end < total,
                    total == all@.len(),
                    view == all.deep_view(),
                    edits.deep_view() == first + blanked(
                        rule_id@,
                        view,
                        words@,
                        idx + 1,
                        i as int,
                    ),
                decreases end - i,
            {
                assert(view[i as int] == all@[i as int]@);
                append_one(
                    &mut edits,
                    make_line_edit(
                        rule_id,
                        (i + 1) as u32,
                        all[i].as_str(),
                        String::new(),
                        words.clone(),
                    ),
                );
                assert(edits.deep_view() =~= first + blanked(
                    rule_id@,
                    view,
                    words@,
                    idx + 1,
                    i + 1,
                ));
                i = i + 1;
            }
            assert(view[end as int] == all@[end as int]@);
            let v = chars_of(all[end].as_str());
            let size: usize = v.len();
            let tail = piece(&v, n, size);
            assert(tail@ =~= view[end as int].skip(n as int));
            let rest = owned(trim(tail.as_str()));
            append_one(
                &mut edits,
                make_line_edit(rule_id, (end + 1) as u32, all[end].as_str(), rest, words.clone()),
            );
            assert(edits.deep_view() =~= removal_edits(
                rule_id@,
                view,
                idx as int,
                words@,
                before@,
                text@,
                after@,
            ));
            edits
        },
        None => {
            let joined = cat2(before.as_str(), after.as_str());
            let rest = owned(trim(joined.as_str()));
            only(make_line_edit(rule_id, number, line, rest, words.clone()))
        },
    };
    Some(
        PlannedFix {
            edits,
            confidence: FixConfidence::High,
            source: FixSource::Pattern,
            rule_id: owned(rule_id),
            file_uri: incident.file_uri.clone(),
            line: number,
            description: words,
        },
    )
}

/// Plans the removal of an annotation: one without parameters, one with
/// parameters on its line, or one whose parameters spread over several
/// lines.
pub fn plan_remove_annotation(
    rule_id: &str,
    incident: &Incident,
    file_path: &str,
    ws: &Workspace,
    report: &mut FixReport,
) -> (r: Option<PlannedFix>)
    ensures
        ({
            let o = annotation_removal(
                rule_id@,
                incident.deep_view(),
                text_at(ws.deep_view(), file_path@),
            );
            &&& r.deep_view() == o.fix
            &&& final(report).deep_view() == noting(old(report).deep_view(), o.skip)
        }),
{
    let name = match get_annotation_name(incident) {
        Some(n) => n,
        None => {
            return None;
        },
    };
    let source = match ws.read(file_path) {
        Ok(s) => s,
        Err(_) => {
            return None;
        },
    };
    let line: u32 = match incident.line_number {
        Some(l) => l,
        None => 1,
    };
    let all = lines(source);
    assert(all.deep_view().len() == all@.len());
    let uri = incident.file_uri.as_str();
    if line == 0 || (line as usize) > all.len() {
        report.record_skip(rule_id, uri, incident.line_number, SkipReason::LineOutOfBounds, None);
        return None;
    }
    let idx: usize = (line - 1) as usize;
    assert(all.deep_view()[idx as int] == all@[idx as int]@);
    let escaped = escape(name.as_str());
    let by_name = cat2("@", escaped.as_str());
    if !compiles(by_name.as_str()) {
        return None;
    }
    if find(by_name.as_str(), all[idx].as_str()).is_none() {
        let number = decimal_of(line as u64);
        let detail = cat4("@", name.as_str(), " not found on line ", number.as_str());
        report.record_skip(
            rule_id,
            uri,
            incident.line_number,
            SkipReason::TextNotFound,
            Some(detail),
        );
        return None;
    }
    let full = cat3("@", escaped.as_str(), r"\s*(?:\([^)]*\))?\s*\n?");
    if !compiles(full.as_str()) {
        return None;
    }
    let found = find(full.as_str(), all[idx].as_str());
    plan_annotation_removal(rule_id, incident, name.as_str(), &all, idx, found)
}

} // verus!
