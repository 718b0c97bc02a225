//! Changing the path of an import, also where the import spreads over
//! several lines.

use crate::engine::apply::{index_of_line, line_index};
use crate::language::Outcome;
use crate::model::{
    noting, FixConfidence, FixReport, FixSource, PlannedFix, PlannedFixView, SkipReason,
    SkippedIncidentView, TextEdit, TextEditView,
};
use crate::report::{Incident, IncidentView};
use crate::text::{
    begins, cat3, cat5, contains, decimal, decimal_of, has_text, lines, lines_of, owned,
    starts_with, trim_start, trimmed_start,
};
use crate::views::only;
use crate::workspace::{text_at, Workspace, WorkspaceView};
use vstd::prelude::*;

verus! {

broadcast use vstd::string::group_string_axioms;

/// The line can open a block of imported or exported names.
pub open spec fn opens_block(line: Seq<char>) -> bool {
    has_text(line, "{"@) || begins(trimmed_start(line), "import"@) || begins(
        trimmed_start(line),
        "export"@,
    )
}

/// The line holds the `from` clause of an import.
pub open spec fn has_from_clause(line: Seq<char>) -> bool {
    let t = trimmed_start(line);
    begins(t, "} from "@) || begins(t, "from "@) || has_text(t, " from '"@) || has_text(
        t,
        " from \""@,
    )
}

/// One of the lines from `from` up to `to` opens a block.
pub open spec fn block_opened(all: Seq<Seq<char>>, from: int, to: int) -> bool {
    exists|i: int| from <= i < to && opens_block(#[trigger] all[i])
}

/// The first line from `i` on and before `to` with a `from` clause.
pub open spec fn from_line(all: Seq<Seq<char>>, i: int, to: int) -> Option<int>
    decreases to - i,
{
    if i >= to {
        None
    } else if has_from_clause(all[i]) {
        Some(i)
    } else {
        from_line(all, i + 1, to)
    }
}

/// An incident that was passed over, as a record.
pub open spec fn passed_over(
    rule_id: Seq<char>,
    incident: IncidentView,
    reason: SkipReason,
    detail: Option<Seq<char>>,
) -> Outcome {
    Outcome {
        fix: None,
        skip: Some(
            SkippedIncidentView {
                rule_id,
                file: incident.file_uri,
                line: incident.line_number,
                reason,
                detail,
            },
        ),
    }
}

/// The fix that changes the path on a line.
pub open spec fn path_fix(
    rule_id: Seq<char>,
    incident: IncidentView,
    old_path: Seq<char>,
    new_path: Seq<char>,
    line: u32,
) -> Outcome {
    Outcome {
        fix: Some(
            PlannedFixView {
                edits: seq![
                    TextEditView {
                        line,
                        old_text: old_path,
                        new_text: new_path,
                        rule_id,
                        description: "Change import path '"@ + old_path + "' -> '"@ + new_path
                            + "'"@,
                        replace_all: false,
                    },
                ],
                confidence: FixConfidence::Exact,
                source: FixSource::Pattern,
                rule_id,
                file_uri: incident.file_uri,
                line,
                description: "Change import path to '"@ + new_path + "'"@,
            },
        ),
        skip: None,
    }
}

/// What comes of changing the path of an import, given what reading the
/// file gave.
///
/// The path stands on the line of the incident, or on the `from` line below
/// it when the incident is on one of the imported names. A line that
/// already holds the new path is left alone.
pub open spec fn import_path_outcome(
    rule_id: Seq<char>,
    incident: IncidentView,
    old_path: Seq<char>,
    new_path: Seq<char>,
    read: Result<Seq<char>, Seq<char>>,
) -> Outcome {
    match incident.line_number {
        None => passed_over(rule_id, incident, SkipReason::NoLineNumber, None),
        Some(line) => match read {
            Err(reason) => passed_over(
                rule_id,
                incident,
                SkipReason::FileUnreadable,
                Some(reason),
            ),
            Ok(source) => {
                let all = lines_of(source);
                let total = all.len() as int;
                let idx = line_index(line);
                if idx >= total {
                    passed_over(
                        rule_id,
                        incident,
                        SkipReason::LineOutOfBounds,
                        Some("file has "@ + decimal(all.len()) + " lines"@),
                    )
                } else if has_text(all[idx], old_path) {
                    if has_text(all[idx], new_path) {
                        passed_over(rule_id, incident, SkipReason::AlreadyMigrated, None)
                    } else {
                        path_fix(rule_id, incident, old_path, new_path, line)
                    }
                } else if !block_opened(
                    all,
                    if idx > 50 {
                        idx - 50
                    } else {
                        0
                    },
                    idx,
                ) {
                    passed_over(rule_id, incident, SkipReason::NotInImportBlock, None)
                } else {
                    match from_line(
                        all,
                        idx,
                        if idx + 50 < total {
                            idx + 50
                        } else {
                            total
                        },
                    ) {
                        None => passed_over(
                            rule_id,
                            incident,
                            SkipReason::TextNotFound,
                            Some("could not find 'from' clause in import block"@),
                        ),
                        Some(i) => if !has_text(all[i], old_path) {
                            passed_over(
                                rule_id,
                                incident,
                                SkipReason::TextNotFound,
                                Some("from clause does not contain '"@ + old_path + "'"@),
                            )
                        } else if has_text(all[i], new_path) {
                            passed_over(rule_id, incident, SkipReason::AlreadyMigrated, None)
                        } else {
                            path_fix(rule_id, incident, old_path, new_path, (i + 1) as u32)
                        },
                    }
                }
            },
        },
    }
}

fn line_opens_block(line: &str) -> (r: bool)
    ensures
        r == opens_block(line@),
{
    let t = trim_start(line);
    contains(line, "{") || starts_with(t, "import") || starts_with(t, "export")
}

fn line_has_from_clause(line: &str) -> (r: bool)
    ensures
        r == has_from_clause(line@),
{
    let t = trim_start(line);
    starts_with(t, "} from ") || starts_with(t, "from ") || contains(t, " from '") || contains(
        t,
        " from \"",
    )
}

fn is_block_opened(all: &Vec<String>, from: usize, to: usize) -> (r: bool)
    requires
        from <= to <= all@.len(),
    ensures
        r == block_opened(all.deep_view(), from as int, to as int),
{
    let mut i: usize = from;
    while i < to
        invariant
            from <= i <= to <= all@.len(),
            forall|k: int| from <= k < i ==> !opens_block(#[trigger] all.deep_view()[k]),
        decreases to - i,
    {
        assert(all.deep_view()[i as int] == all@[i as int]@);
        if line_opens_block(all[i].as_str()) {
            return true;
        }
        i = i + 1;
    }
    false
}

fn find_from_line(all: &Vec<String>, from: usize, to: usize) -> (r: Option<usize>)
    requires
        from <= to <= all@.len(),
    ensures
        from_line(all.deep_view(), from as int, to as int) == (match r {
            Some(i) => Some(i as int),
            None => None,
        }),
        r matches Some(i) ==> i < to,
{
    let mut i: usize = from;
    while i < to
        invariant
            from <= i <= to <= all@.len(),
            from_line(all.deep_view(), from as int, to as int) == from_line(
                all.deep_view(),
                i as int,
                to as int,
            ),
        decreases to - i,
    {
        assert(all.deep_view()[i as int] == all@[i as int]@);
        if line_has_from_clause(all[i].as_str()) {
            return Some(i);
        }
        i = i + 1;
    }
    None
}

fn make_path_fix(
    rule_id: &str,
    incident: &Incident,
    old_path: &str,
    new_path: &str,
    line: u32,
) -> (r: PlannedFix)
    ensures
        path_fix(rule_id@, incident.deep_view(), old_path@, new_path@, line).fix == Some(
            r.deep_view(),
        ),
{
    let edit = TextEdit {
        line,
        old_text: owned(old_path),
        new_text: owned(new_path),
        rule_id: owned(rule_id),
        description: cat5("Change import path '", old_path, "' -> '", new_path, "'"),
        replace_all: false,
    };
    PlannedFix {
        edits: only(edit),
        confidence: FixConfidence::Exact,
        source: FixSource::Pattern,
        rule_id: owned(rule_id),
        file_uri: incident.file_uri.clone(),
        line,
        description: cat3("Change import path to '", new_path, "'"),
    }
}

/// Plans the change of an import's path, given what reading the file gave.
pub fn plan_import_path_change_in(
    rule_id: &str,
    incident: &Incident,
    old_path: &str,
    new_path: &str,
    read: Result<&str, String>,
    report: &mut FixReport,
) -> (r: Option<PlannedFix>)
    ensures
        ({
            let o = import_path_outcome(
                rule_id@,
                incident.deep_view(),
                old_path@,
                new_path@,
                match read {
                    Ok(text) => Ok(text@),
                    Err(reason) => Err(reason@),
                },
            );
            &&& r.deep_view() == o.fix
            &&& final(report).deep_view() == noting(old(report).deep_view(), o.skip)
        }),
{
    let uri = incident.file_uri.as_str();
    let line: u32 = match incident.line_number {
        Some(l) => l,
        None => {
            report.record_skip(rule_id, uri, None, SkipReason::NoLineNumber, None);
            return None;
        },
    };
    let source = match read {
        Ok(s) => s,
        Err(e) => {
            report.record_skip(rule_id, uri, Some(line), SkipReason::FileUnreadable, Some(e));
            return None;
        },
    };
    let all = lines(source);
    let idx = index_of_line(line);
    let total: usize = all.len();
    assert(all.deep_view().len() == total);
    if idx >= total {
        let number = decimal_of(total as u64);
        let detail = cat3("file has ", number.as_str(), " lines");
        report.record_skip(rule_id, uri, Some(line), SkipReason::LineOutOfBounds, Some(detail));
        return None;
    }
    assert(all.deep_view()[idx as int] == all@[idx as int]@);
    if contains(all[idx].as_str(), old_path) {
        if contains(all[idx].as_str(), new_path) {
            report.record_skip(rule_id, uri, Some(line), SkipReason::AlreadyMigrated, None);
            return None;
        }
        return Some(make_path_fix(rule_id, incident, old_path, new_path, line));
    }
    let back: usize = if idx > 50 {
        idx - 50
    } else {
        0
    };
    if !is_block_opened(&all, back, idx) {
        report.record_skip(rule_id, uri, Some(line), SkipReason::NotInImportBlock, None);
        return None;
    }
    let ahead: usize = if total - idx > 50 {
        idx + 50
    } else {
        total
    };
    let i: usize = match find_from_line(&all, idx, ahead) {
        Some(i) => i,
        None => {
            let detail = owned("could not find 'from' clause in import block");
            report.record_skip(rule_id, uri, Some(line), SkipReason::TextNotFound, Some(detail));
            return None;
        },
    };
    assert(all.deep_view()[i as int] == all@[i as int]@);
    if !contains(all[i].as_str(), old_path) {
        let detail = cat3("from clause does not contain '", old_path, "'");
        report.record_skip(rule_id, uri, Some(line), SkipReason::TextNotFound, Some(detail));
        return None;
    }
    if contains(all[i].as_str(), new_path) {
        report.record_skip(rule_id, uri, Some(line), SkipReason::AlreadyMigrated, None);
        return None;
    }
    Some(make_path_fix(rule_id, incident, old_path, new_path, (i + 1) as u32))
}

/// What comes of changing the path of an import in a workspace.
pub open spec fn planned_import_path(
    rule_id: Seq<char>,
    incident: IncidentView,
    old_path: Seq<char>,
    new_path: Seq<char>,
    path: Seq<char>,
    ws: WorkspaceView,
) -> Outcome {
    import_path_outcome(rule_id, incident, old_path, new_path, text_at(ws, path))
}

/// Plans the change of an import's path.
pub fn plan_import_path_change(
    rule_id: &str,
    incident: &Incident,
    old_path: &str,
    new_path: &str,
    file_path: &str,
    ws: &Workspace,
    report: &mut FixReport,
) -> (r: Option<PlannedFix>)
    ensures
        ({
            let o = planned_import_path(
                rule_id@,
                incident.deep_view(),
                old_path@,
                new_path@,
                file_path@,
                ws.deep_view(),
            );
            &&& r.deep_view() == o.fix
            &&& final(report).deep_view() == noting(old(report).deep_view(), o.skip)
        }),
{
    plan_import_path_change_in(rule_id, incident, old_path, new_path, ws.read(file_path), report)
}

} // verus!
