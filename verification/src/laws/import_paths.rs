//! Changing the path of an import: on which line the change is made, and when
//! none is.

use crate::engine::import_path::{block_opened, from_line, import_path_outcome, opens_block};
use crate::model::SkipReason;
use crate::report::IncidentView;
use crate::text::{begins, has_text, lines_of, trimmed_start};
use vstd::prelude::*;

verus! {

broadcast use vstd::string::group_string_axioms;

/// The line begins an import or an export, or holds an opening brace.
pub open spec fn begins_names(line: Seq<char>) -> bool {
    has_text(line, seq!['{']) || begins(trimmed_start(line), "import"@) || begins(
        trimmed_start(line),
        "export"@,
    )
}

/// The line says where the imported names come from.
pub open spec fn names_source(line: Seq<char>) -> bool {
    let t = trimmed_start(line);
    begins(t, "} from "@) || begins(t, "from "@) || has_text(t, " from '"@) || has_text(
        t,
        " from \""@,
    )
}

/// One of the fifty lines above line `idx` begins a list of names.
pub open spec fn is_inside_names(all: Seq<Seq<char>>, idx: int) -> bool {
    exists|i: int| 0 <= i < idx && idx - 50 <= i && begins_names(#[trigger] all[i])
}

/// Line `i` is the first of the fifty from line `idx` on that says where the
/// names come from.
pub open spec fn is_source_of(all: Seq<Seq<char>>, idx: int, i: int) -> bool {
    &&& idx <= i < idx + 50
    &&& i < all.len()
    &&& names_source(all[i])
    &&& forall|j: int| idx <= j < i ==> !names_source(#[trigger] all[j])
}

proof fn lemma_same_opening(line: Seq<char>)
    ensures
        begins_names(line) == opens_block(line),
{
    reveal_strlit("{");
    assert("{"@ =~= seq!['{']);
}

proof fn lemma_from_line(all: Seq<Seq<char>>, i: int, to: int)
    requires
        0 <= i,
        to <= all.len(),
    ensures
        match from_line(all, i, to) {
            Some(k) => i <= k < to && names_source(all[k]) && forall|j: int|
                i <= j < k ==> !names_source(#[trigger] all[j]),
            None => forall|j: int| i <= j < to ==> !names_source(#[trigger] all[j]),
        },
    decreases to - i,
{
    if i < to {
        lemma_from_line(all, i + 1, to);
    }
}

/// The incident is on line `idx` of the file.
pub open spec fn is_on_line(incident: IncidentView, source: Seq<char>, idx: int) -> bool {
    &&& incident.line_number matches Some(line) && idx == if line > 0 {
        line - 1
    } else {
        0int
    }
    &&& 0 <= idx < lines_of(source).len() <= u32::MAX
}

/// The path of an import is changed on line `i`, and nowhere else, or is
/// found to be changed already.
pub open spec fn path_is_changed_on(
    rule_id: Seq<char>,
    incident: IncidentView,
    old_path: Seq<char>,
    new_path: Seq<char>,
    source: Seq<char>,
    line: int,
    text: Seq<char>,
) -> bool {
    let outcome = import_path_outcome(rule_id, incident, old_path, new_path, Ok(source));
    if has_text(text, new_path) {
        &&& outcome.fix is None
        &&& outcome.skip is Some
        &&& outcome.skip->Some_0.reason == SkipReason::AlreadyMigrated
    } else {
        &&& outcome.skip is None
        &&& outcome.fix is Some
        &&& outcome.fix->Some_0.edits.len() == 1
        &&& outcome.fix->Some_0.edits[0].line == line
        &&& outcome.fix->Some_0.edits[0].old_text == old_path
        &&& outcome.fix->Some_0.edits[0].new_text == new_path
        &&& !outcome.fix->Some_0.edits[0].replace_all
        &&& outcome.fix->Some_0.line == line
        &&& outcome.fix->Some_0.file_uri == incident.file_uri
    }
}

/// Where the old path stands on the line of the incident, it is changed
/// there.
pub proof fn law_path_is_changed_on_its_line(
    rule_id: Seq<char>,
    incident: IncidentView,
    old_path: Seq<char>,
    new_path: Seq<char>,
    source: Seq<char>,
    idx: int,
)
    requires
        is_on_line(incident, source, idx),
        has_text(lines_of(source)[idx], old_path),
    ensures
        path_is_changed_on(
            rule_id,
            incident,
            old_path,
            new_path,
            source,
            incident.line_number->Some_0 as int,
            lines_of(source)[idx],
        ),
{
}

/// Where the incident is on one of the imported names, the old path is
/// changed on the line that says where the names come from.
pub proof fn law_path_is_changed_below_the_names(
    rule_id: Seq<char>,
    incident: IncidentView,
    old_path: Seq<char>,
    new_path: Seq<char>,
    source: Seq<char>,
    idx: int,
    i: int,
)
    requires
        is_on_line(incident, source, idx),
        !has_text(lines_of(source)[idx], old_path),
        is_inside_names(lines_of(source), idx),
        is_source_of(lines_of(source), idx, i),
    ensures
        has_text(lines_of(source)[i], old_path) ==> path_is_changed_on(
            rule_id,
            incident,
            old_path,
            new_path,
            source,
            i + 1,
            lines_of(source)[i],
        ),
        !has_text(lines_of(source)[i], old_path) ==> ({
            let outcome = import_path_outcome(rule_id, incident, old_path, new_path, Ok(source));
            outcome.fix is None && outcome.skip is Some && outcome.skip->Some_0.reason
                == SkipReason::TextNotFound
        }),
{
    let all = lines_of(source);
    let total = all.len() as int;
    lemma_opened(all, idx);
    let to = if idx + 50 < total {
        idx + 50
    } else {
        total
    };
    lemma_from_line(all, idx, to);
    assert(from_line(all, idx, to) == Some(i)) by {
        match from_line(all, idx, to) {
            Some(k) => {
                if k < i {
                    assert(!names_source(all[k]));
                } else if i < k {
                    assert(!names_source(all[i]));
                }
            },
            None => {
                assert(!names_source(all[i]));
            },
        }
    }
}

proof fn lemma_opened(all: Seq<Seq<char>>, idx: int)
    requires
        0 <= idx <= all.len(),
    ensures
        is_inside_names(all, idx) == block_opened(
            all,
            if idx > 50 {
                idx - 50
            } else {
                0
            },
            idx,
        ),
{
    let from = if idx > 50 {
        idx - 50
    } else {
        0
    };
    if is_inside_names(all, idx) {
        let i = choose|i: int| 0 <= i < idx && idx - 50 <= i && begins_names(#[trigger] all[i]);
        lemma_same_opening(all[i]);
        assert(opens_block(all[i]));
    }
    if block_opened(all, from, idx) {
        let i = choose|i: int| from <= i < idx && opens_block(#[trigger] all[i]);
        lemma_same_opening(all[i]);
        assert(begins_names(all[i]));
    }
}

/// Where the line of the incident does not hold the old path and is not
/// among imported names, or nothing says where the names come from, nothing
/// is changed, and the reason says which of the two it is.
pub proof fn law_path_is_not_changed_elsewhere(
    rule_id: Seq<char>,
    incident: IncidentView,
    old_path: Seq<char>,
    new_path: Seq<char>,
    source: Seq<char>,
    idx: int,
)
    requires
        is_on_line(incident, source, idx),
        !has_text(lines_of(source)[idx], old_path),
        !is_inside_names(lines_of(source), idx) || forall|i: int|
            !#[trigger] is_source_of(lines_of(source), idx, i),
    ensures
        ({
            let outcome = import_path_outcome(rule_id, incident, old_path, new_path, Ok(source));
            &&& outcome.fix is None
            &&& outcome.skip is Some
            &&& outcome.skip->Some_0.reason == if is_inside_names(lines_of(source), idx) {
                SkipReason::TextNotFound
            } else {
                SkipReason::NotInImportBlock
            }
        }),
{
    let all = lines_of(source);
    let total = all.len() as int;
    lemma_opened(all, idx);
    let to = if idx + 50 < total {
        idx + 50
    } else {
        total
    };
    lemma_from_line(all, idx, to);
    match from_line(all, idx, to) {
        Some(k) => {
            assert(is_source_of(all, idx, k));
        },
        None => {},
    }
}

/// Without a line, without the file, or with a line that the file does not
/// have, nothing is changed, and the reason says so.
pub proof fn law_path_is_not_changed_without_a_line(
    rule_id: Seq<char>,
    incident: IncidentView,
    old_path: Seq<char>,
    new_path: Seq<char>,
    read: Result<Seq<char>, Seq<char>>,
)
    ensures
        ({
            let outcome = import_path_outcome(rule_id, incident, old_path, new_path, read);
            &&& incident.line_number is None ==> outcome.fix is None && outcome.skip is Some
                && outcome.skip->Some_0.reason == SkipReason::NoLineNumber
            &&& incident.line_number is Some && read is Err ==> outcome.fix is None
                && outcome.skip is Some && outcome.skip->Some_0.reason
                == SkipReason::FileUnreadable && outcome.skip->Some_0.detail == Some(
                read->Err_0,
            )
            &&& incident.line_number is Some && (read matches Ok(source)
                && incident.line_number->Some_0 > lines_of(source).len()) ==> outcome.fix is None
                && outcome.skip is Some && outcome.skip->Some_0.reason
                == SkipReason::LineOutOfBounds
        }),
{
}

} // verus!
