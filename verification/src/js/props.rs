//! Removing a JSX attribute.

use crate::engine::apply::{index_of_line, line_index};
use crate::language::{nothing, Outcome};
use crate::model::{
    FixConfidence, FixSource, PlannedFix, PlannedFixView, TextEdit, TextEditView,
};
use crate::pattern::{compiles, find, is_pattern, regex_found};
use crate::report::{text_var, Incident, IncidentView};
use crate::text::{
    begins, cat3, cat5, chars_of, decimal, decimal_of, lines, lines_from, lines_of, owned,
    starts_with, trim, trimmed,
};
use crate::views::{append_one, only};
use crate::workspace::{text_at, Workspace};
use vstd::prelude::*;

verus! {

broadcast use vstd::string::group_string_axioms;

// ---------------------------------------------------------------------
// Brackets
// ---------------------------------------------------------------------

/// How far counting brackets has come: the depth, the quotes that are open,
/// and the last character.
#[verifier::ext_equal]
pub ghost struct Scan {
    pub depth: int,
    pub single: bool,
    pub double: bool,
    pub back: bool,
    pub prev: char,
}

/// One more character. A quote opens or closes unless another kind of quote
/// is open or a backslash stands before it; brackets count outside quotes.
pub open spec fn scan_step(s: Scan, c: char) -> Scan {
    let free = !s.single && !s.double && !s.back;
    if c == '\'' && !s.double && !s.back && s.prev != '\\' {
        Scan { single: !s.single, prev: c, ..s }
    } else if c == '"' && !s.single && !s.back && s.prev != '\\' {
        Scan { double: !s.double, prev: c, ..s }
    } else if c == '`' && !s.single && !s.double && s.prev != '\\' {
        Scan { back: !s.back, prev: c, ..s }
    } else if (c == '(' || c == '{' || c == '[') && free {
        Scan { depth: s.depth + 1, prev: c, ..s }
    } else if (c == ')' || c == '}' || c == ']') && free {
        Scan { depth: s.depth - 1, prev: c, ..s }
    } else {
        Scan { prev: c, ..s }
    }
}

/// The first `n` characters.
pub open spec fn scan(s: Seq<char>, n: int) -> Scan
    decreases n,
{
    if n <= 0 {
        Scan { depth: 0, single: false, double: false, back: false, prev: '\0' }
    } else {
        scan_step(scan(s, n - 1), s[n - 1])
    }
}

/// How many more brackets a line opens than it closes, outside quotes.
pub open spec fn net_depth(s: Seq<char>) -> int {
    scan(s, s.len() as int).depth
}

/// How many more brackets a line opens than it closes, outside quotes.
pub fn bracket_depth(line: &str) -> (r: i128)
    ensures
        r == net_depth(line@),
        -line@.len() <= r <= line@.len(),
{
    let v = chars_of(line);
    let mut depth: i128 = 0;
    let mut single = false;
    let mut double = false;
    let mut back = false;
    let mut prev = '\0';
    let mut i: usize = 0;
    while i < v.len()
        invariant
            i <= v@.len(),
            v@ == line@,
            -(i as int) <= depth <= i,
            scan(line@, i as int) == (Scan { depth: depth as int, single, double, back, prev }),
        decreases v@.len() - i,
    {
        let c = v[i];
        let free = !single && !double && !back;
        if c == '\'' && !double && !back && prev != '\\' {
            single = !single;
        } else if c == '"' && !single && !back && prev != '\\' {
            double = !double;
        } else if c == '`' && !single && !double && prev != '\\' {
            back = !back;
        } else if (c == '(' || c == '{' || c == '[') && free {
            depth = depth + 1;
        } else if (c == ')' || c == '}' || c == ']') && free {
            depth = depth - 1;
        }
        prev = c;
        i = i + 1;
    }
    depth
}

/// Where a value that is open at the end of line `i` ends, with the depth
/// there: the first line below on which as many brackets are closed as were
/// opened, or the last line.
pub open spec fn closing_line(all: Seq<Seq<char>>, i: int, depth: int) -> (int, int)
    decreases all.len() - i,
{
    if i + 1 >= all.len() {
        (i, depth)
    } else {
        let next = depth + net_depth(all[i + 1]);
        if next <= 0 {
            (i + 1, next)
        } else {
            closing_line(all, i + 1, next)
        }
    }
}

/// How many characters the lines from `i` on have.
pub open spec fn total_len(all: Seq<Seq<char>>, i: int) -> nat
    decreases all.len() - i,
{
    if i < 0 || i >= all.len() {
        0
    } else {
        all[i].len() + total_len(all, i + 1)
    }
}

proof fn lemma_total_len_cons(first: Seq<char>, rest: Seq<Seq<char>>, i: int)
    requires
        0 <= i,
    ensures
        total_len(seq![first] + rest, i + 1) == total_len(rest, i),
    decreases rest.len() - i,
{
    let all = seq![first] + rest;
    if i < rest.len() {
        assert(all[i + 1] == rest[i]);
        lemma_total_len_cons(first, rest, i + 1);
    }
}

/// The lines of a text have no more characters than the text.
proof fn lemma_lines_len(s: Seq<char>, i: int)
    requires
        0 <= i <= s.len(),
    ensures
        total_len(lines_from(s, i), 0) <= s.len() - i,
    decreases s.len() - i,
{
    if i < s.len() {
        let k = crate::text::char_pos(s, '\n', i);
        crate::text::lemma_char_pos(s, '\n', i);
        if k < s.len() {
            let first = crate::text::line_body(s, i, k);
            let rest = lines_from(s, k + 1);
            lemma_lines_len(s, k + 1);
            lemma_total_len_cons(first, rest, 0);
            assert((seq![first] + rest)[0] == first);
        } else {
            let one = seq![s.subrange(i, s.len() as int)];
            assert(total_len(one, 1) == 0);
        }
    }
}

/// The lines of a text, with a bound on their characters.
pub fn bounded_lines(source: &str) -> (r: Vec<String>)
    ensures
        r.deep_view() == lines_of(source@),
        total_len(r.deep_view(), 0) <= usize::MAX,
{
    let size: usize = source.unicode_len();
    proof {
        lemma_lines_len(source@, 0);
        assert(size == source@.len());
    }
    lines(source)
}

fn find_closing_line(all: &Vec<String>, from: usize, depth: i128) -> (r: (usize, i128))
    requires
        from < all@.len(),
        total_len(all.deep_view(), from + 1) <= usize::MAX,
        -(usize::MAX as int) <= depth <= usize::MAX,
    ensures
        closing_line(all.deep_view(), from as int, depth as int) == (r.0 as int, r.1 as int),
        from <= r.0 < all@.len(),
{
    let ghost view = all.deep_view();
    let mut i: usize = from;
    let mut sum: i128 = depth;
    let total: usize = all.len();
    while i + 1 < total
        invariant
            total == all@.len(),
            from <= i < all@.len(),
            view == all.deep_view(),
            total_len(view, from + 1) <= usize::MAX,
            total_len(view, i + 1) <= total_len(view, from + 1),
            -(usize::MAX as int) <= depth <= usize::MAX,
            depth - (total_len(view, from + 1) - total_len(view, i + 1)) <= sum,
            sum <= depth + (total_len(view, from + 1) - total_len(view, i + 1)),
            closing_line(view, from as int, depth as int) == closing_line(
                view,
                i as int,
                sum as int,
            ),
        decreases all@.len() - i,
    {
        assert(view[i + 1] == all@[i + 1]@);
        let more = bracket_depth(all[i + 1].as_str());
        sum = sum + more;
        i = i + 1;
        if sum <= 0 {
            return (i, sum);
        }
    }
    (i, sum)
}

// ---------------------------------------------------------------------
// Planning
// ---------------------------------------------------------------------

/// An edit that removes a text.
pub open spec fn removing_edit(
    rule_id: Seq<char>,
    line: u32,
    text: Seq<char>,
    description: Seq<char>,
) -> TextEditView {
    TextEditView {
        line,
        old_text: text,
        new_text: Seq::empty(),
        rule_id,
        description,
        replace_all: false,
    }
}

/// A removal, as a fix. One without edits is left to a person.
pub open spec fn removal_fix(
    rule_id: Seq<char>,
    incident: IncidentView,
    line: u32,
    edits: Seq<TextEditView>,
    sure: bool,
    description: Seq<char>,
) -> PlannedFixView {
    PlannedFixView {
        edits,
        confidence: if sure {
            FixConfidence::High
        } else {
            FixConfidence::Low
        },
        source: FixSource::Pattern,
        rule_id,
        file_uri: incident.file_uri,
        line,
        description,
    }
}

/// The edits that remove the lines from `from` up to `to`, counted from
/// `first`.
pub open spec fn removed_lines(
    rule_id: Seq<char>,
    prop: Seq<char>,
    all: Seq<Seq<char>>,
    first: int,
    to: int,
) -> Seq<TextEditView>
    decreases to - first,
{
    if to <= first {
        Seq::empty()
    } else {
        removed_lines(rule_id, prop, all, first, to - 1).push(
            removing_edit(
                rule_id,
                to as u32,
                all[to - 1],
                "Remove prop '"@ + prop + "' (line "@ + decimal((to - first) as nat)
                    + " of multi-line)"@,
            ),
        )
    }
}

/// The pattern of an attribute among other things on a line: white space,
/// the name, and a value where there is one.
pub open spec fn prop_pattern(prop: Seq<char>) -> Seq<char> {
    r"\s+"@ + prop + r#"(?:=\{[^}]*\}|="[^"]*"|='[^']*'|=\{.*?\})?"#@
}

/// The fix for an attribute among other things on a line, given what
/// searching the line for it found.
pub open spec fn inline_fix(
    rule_id: Seq<char>,
    incident: IncidentView,
    prop: Seq<char>,
    line: u32,
    found: Option<Seq<char>>,
) -> PlannedFixView {
    match found {
        Some(text) => if net_depth(text) != 0 {
            removal_fix(
                rule_id,
                incident,
                line,
                Seq::empty(),
                false,
                "Remove prop '"@ + prop + "' (multi-line inline, manual)"@,
            )
        } else {
            removal_fix(
                rule_id,
                incident,
                line,
                seq![removing_edit(rule_id, line, text, "Remove prop '"@ + prop + "'"@)],
                true,
                "Remove prop '"@ + prop + "'"@,
            )
        },
        None => removal_fix(
            rule_id,
            incident,
            line,
            Seq::empty(),
            false,
            "Remove prop '"@ + prop + "' (manual)"@,
        ),
    }
}

/// The fix for an attribute that starts line `idx`: the line goes, and with
/// it the lines over which the value spreads.
pub open spec fn own_line_fix(
    rule_id: Seq<char>,
    incident: IncidentView,
    prop: Seq<char>,
    line: u32,
    all: Seq<Seq<char>>,
    idx: int,
) -> PlannedFixView {
    let depth = net_depth(all[idx]);
    let (end, left) = closing_line(all, idx, depth);
    if depth == 0 {
        removal_fix(
            rule_id,
            incident,
            line,
            seq![
                removing_edit(
                    rule_id,
                    line,
                    all[idx],
                    "Remove prop '"@ + prop + "' (entire line)"@,
                ),
            ],
            true,
            "Remove prop '"@ + prop + "'"@,
        )
    } else if left > 0 {
        removal_fix(
            rule_id,
            incident,
            line,
            Seq::empty(),
            false,
            "Remove prop '"@ + prop + "' (unbalanced brackets, manual)"@,
        )
    } else {
        removal_fix(
            rule_id,
            incident,
            line,
            removed_lines(rule_id, prop, all, idx, end + 1),
            true,
            "Remove prop '"@ + prop + "' ("@ + decimal((end - idx + 1) as nat) + " lines)"@,
        )
    }
}

/// The part of a search's outcome that matched.
pub open spec fn matched_part(found: Option<(Seq<char>, Seq<char>, Seq<char>)>) -> Option<
    Seq<char>,
> {
    match found {
        Some(m) => Some(m.1),
        None => None,
    }
}

/// What comes of removing an attribute, given what reading the file gave.
pub open spec fn removal_outcome(
    rule_id: Seq<char>,
    incident: IncidentView,
    read: Result<Seq<char>, Seq<char>>,
) -> Outcome {
    match (incident.line_number, text_var(incident, "propName"@), read) {
        (Some(line), Some(prop), Ok(source)) => {
            let all = lines_of(source);
            let idx = line_index(line);
            if idx >= all.len() {
                nothing()
            } else if begins(trimmed(all[idx]), prop) {
                Outcome {
                    fix: Some(own_line_fix(rule_id, incident, prop, line, all, idx)),
                    skip: None,
                }
            } else if is_pattern(prop_pattern(prop)) {
                Outcome {
                    fix: Some(
                        inline_fix(
                            rule_id,
                            incident,
                            prop,
                            line,
                            matched_part(regex_found(prop_pattern(prop), all[idx])),
                        ),
                    ),
                    skip: None,
                }
            } else {
                nothing()
            }
        },
        _ => nothing(),
    }
}

fn make_removing_edit(rule_id: &str, line: u32, text: &str, description: String) -> (r: TextEdit)
    ensures
        r.deep_view() == removing_edit(rule_id@, line, text@, description@),
{
    TextEdit {
        line,
        old_text: owned(text),
        new_text: String::new(),
        rule_id: owned(rule_id),
        description,
        replace_all: false,
    }
}

fn make_removal(
    rule_id: &str,
    incident: &Incident,
    line: u32,
    edits: Vec<TextEdit>,
    sure: bool,
    description: String,
) -> (r: PlannedFix)
    ensures
        r.deep_view() == removal_fix(
            rule_id@,
            incident.deep_view(),
            line,
            edits.deep_view(),
            sure,
            description@,
        ),
{
    PlannedFix {
        edits,
        confidence: if sure {
            FixConfidence::High
        } else {
            FixConfidence::Low
        },
        source: FixSource::Pattern,
        rule_id: owned(rule_id),
        file_uri: incident.file_uri.clone(),
        line,
        description,
    }
}

fn no_edits() -> (r: Vec<TextEdit>)
    ensures
        r.deep_view() == Seq::<TextEditView>::empty(),
{
    let none: Vec<TextEdit> = Vec::new();
    assert(none.deep_view() =~= Seq::<TextEditView>::empty());
    none
}

/// The fix for an attribute among other things on a line, given the text
/// that searching the line for it found.
pub fn plan_inline_prop(
    rule_id: &str,
    incident: &Incident,
    prop_name: &str,
    line: u32,
    found: Option<String>,
) -> (r: PlannedFix)
    ensures
        r.deep_view() == inline_fix(
            rule_id@,
            incident.deep_view(),
            prop_name@,
            line,
            found.deep_view(),
        ),
{
    match found {
        Some(text) => {
            if bracket_depth(text.as_str()) != 0 {
                let description = cat3(
                    "Remove prop '",
                    prop_name,
                    "' (multi-line inline, manual)",
                );
                make_removal(rule_id, incident, line, no_edits(), false, description)
            } else {
                let edit = make_removing_edit(
                    rule_id,
                    line,
                    text.as_str(),
                    cat3("Remove prop '", prop_name, "'"),
                );
                let description = cat3("Remove prop '", prop_name, "'");
                make_removal(rule_id, incident, line, only(edit), true, description)
            }
        },
        None => {
            let description = cat3("Remove prop '", prop_name, "' (manual)");
            make_removal(rule_id, incident, line, no_edits(), false, description)
        },
    }
}

fn plan_own_line_prop(
    rule_id: &str,
    incident: &Incident,
    prop_name: &str,
    line: u32,
    all: &Vec<String>,
    idx: usize,
) -> (r: PlannedFix)
    requires
        idx < all@.len(),
        total_len(all.deep_view(), 0) <= usize::MAX,
    ensures
        r.deep_view() == own_line_fix(
            rule_id@,
            incident.deep_view(),
            prop_name@,
            line,
            all.deep_view(),
            idx as int,
        ),
{
    let ghost view = all.deep_view();
    assert(view[idx as int] == all@[idx as int]@);
    let first = all[idx].as_str();
    let depth = bracket_depth(first);
    proof {
        lemma_total_len_falls(view, 0, idx as int);
        lemma_total_len_falls(view, idx as int, idx + 1);
    }
    if depth == 0 {
        let edit = make_removing_edit(
            rule_id,
            line,
            first,
            cat3("Remove prop '", prop_name, "' (entire line)"),
        );
        let description = cat3("Remove prop '", prop_name, "'");
        return make_removal(rule_id, incident, line, only(edit), true, description);
    }
    let (end, left) = find_closing_line(all, idx, depth);
    if left > 0 {
        let description = cat3("Remove prop '", prop_name, "' (unbalanced brackets, manual)");
        return make_removal(rule_id, incident, line, no_edits(), false, description);
    }
    let mut edits = no_edits();
    let mut i: usize = idx;
    let total: usize = all.len();
    while i <= end
        invariant
            total == all@.len(),
            idx <= i <= end + 1,
            end < all@.len(),
            view == all.deep_view(),
            edits.deep_view() == removed_lines(rule_id@, prop_name@, view, idx as int, i as int),
        decreases end + 1 - i,
    {
        assert(view[i as int] == all@[i as int]@);
        let number = decimal_of((i - idx + 1) as u64);
        let description = cat5(
            "Remove prop '",
            prop_name,
            "' (line ",
            number.as_str(),
            " of multi-line)",
        );
        let edit = make_removing_edit(rule_id, (i + 1) as u32, all[i].as_str(), description);
        append_one(&mut edits, edit);
        i = i + 1;
    }
    let count = decimal_of((end - idx + 1) as u64);
    let description = cat5("Remove prop '", prop_name, "' (", count.as_str(), " lines)");
    make_removal(rule_id, incident, line, edits, true, description)
}

proof fn lemma_total_len_falls(all: Seq<Seq<char>>, i: int, j: int)
    requires
        0 <= i <= j <= all.len(),
    ensures
        total_len(all, j) <= total_len(all, i),
        i < j ==> all[i].len() <= total_len(all, i),
    decreases j - i,
{
    if i < j {
        lemma_total_len_falls(all, i + 1, j);
    }
}

/// Plans the removal of an attribute.
pub fn plan_remove_prop(
    rule_id: &str,
    incident: &Incident,
    file_path: &str,
    ws: &Workspace,
) -> (r: Option<PlannedFix>)
    ensures
        r.deep_view() == removal_outcome(
            rule_id@,
            incident.deep_view(),
            text_at(ws.deep_view(), file_path@),
        ).fix,
{
    let line: u32 = match incident.line_number {
        Some(l) => l,
        None => {
            return None;
        },
    };
    let prop_name = match incident.text_variable("propName") {
        Some(p) => p,
        None => {
            return None;
        },
    };
    let source = match ws.read(file_path) {
        Ok(s) => s,
        Err(_) => {
            return None;
        },
    };
    let all = bounded_lines(source);
    let idx = index_of_line(line);
    assert(all.deep_view().len() == all@.len());
    if idx >= all.len() {
        return None;
    }
    assert(all.deep_view()[idx as int] == all@[idx as int]@);
    if starts_with(trim(all[idx].as_str()), prop_name) {
        return Some(plan_own_line_prop(rule_id, incident, prop_name, line, &all, idx));
    }
    let pattern = cat3(
        r"\s+",
        prop_name,
        r#"(?:=\{[^}]*\}|="[^"]*"|='[^']*'|=\{.*?\})?"#,
    );
    if !compiles(pattern.as_str()) {
        return None;
    }
    let found = match find(pattern.as_str(), all[idx].as_str()) {
        Some(m) => Some(m.1),
        None => None,
    };
    Some(plan_inline_prop(rule_id, incident, prop_name, line, found))
}

} // verus!
