//! Java build files and configuration files: replacing coordinates and full
//! class names.

use crate::java::rename::{line_edit, make_line_edit};
use crate::js::imports::{group, group_of};
use crate::language::{none_planned, Outcomes};
use crate::model::{
    noting, FixConfidence, FixReport, FixSource, PlannedFix, PlannedFixView, SkipReason,
    SkippedIncidentView, TextEdit, TextEditView,
};
use crate::paths::{extension, extension_of, join, joined_path};
use crate::pattern::{captures, compiles, is_pattern, regex_groups};
use crate::text::{
    cat2, cat3, cat4, cat6, chars_of, contains, find_at, find_from, has_text, lines, lines_of,
    owned, piece, replace, replaced, same,
};
use crate::views::{append_all, append_one};
use crate::workspace::{directory_at, names_in, present, text_at, Workspace, WorkspaceView};
use vstd::prelude::*;

verus! {

broadcast use vstd::string::group_string_axioms;

// ---------------------------------------------------------------------
// One line of a build file
// ---------------------------------------------------------------------

/// A coordinate of three parts in quotes; its first group is the coordinate.
pub open spec fn coordinate_pattern() -> Seq<char> {
    r#""([^"]+:[^"]+:[^"]+)""#@
}

/// The first quote from `i` on, or the end.
pub open spec fn quote_pos(s: Seq<char>, i: int) -> int
    decreases s.len() - i,
{
    if 0 <= i < s.len() && s[i] != '"' && s[i] != '\'' {
        quote_pos(s, i + 1)
    } else {
        i
    }
}

/// A line with a coordinate whose version is brought to another: the version
/// stands between a colon behind the coordinate and the next quote.
pub open spec fn with_version(line: Seq<char>, package: Seq<char>, version: Seq<char>) -> Seq<
    char,
> {
    match find_from(line, package, 0) {
        Some(p) => {
            let from = p + package.len();
            let end = quote_pos(line, from + 1);
            if from < line.len() && line[from] == ':' && end < line.len() {
                replaced(
                    line,
                    package + ":"@ + line.subrange(from + 1, end),
                    package + ":"@ + version,
                )
            } else {
                line
            }
        },
        None => line,
    }
}

/// A line with the coordinate `old` replaced, and its version with it where
/// the new one is a coordinate too.
pub open spec fn coordinate_line(
    line: Seq<char>,
    old: Seq<char>,
    new: Seq<char>,
    version: Seq<char>,
) -> Seq<char> {
    if has_text(new, ":"@) {
        with_version(replaced(line, old, new), new, version)
    } else {
        replaced(line, old, new)
    }
}

/// What becomes of a line of a build file.
#[verifier::ext_equal]
pub ghost struct BuildChange {
    pub line: Seq<char>,
    pub subject: Seq<char>,
}

/// What becomes of a line, given the groups that looking for a coordinate
/// gave. An old coordinate is replaced where it stands; for an old package
/// the whole coordinate that holds it is replaced.
pub open spec fn build_change(
    line: Seq<char>,
    old: Seq<char>,
    new: Seq<char>,
    version: Seq<char>,
    groups: Option<Seq<Option<Seq<char>>>>,
) -> Option<BuildChange> {
    if !has_text(line, old) {
        None
    } else if has_text(old, ":"@) {
        let new_line = coordinate_line(line, old, new, version);
        if new_line != line {
            Some(BuildChange { line: new_line, subject: old })
        } else {
            None
        }
    } else if has_text(new, ":"@) {
        match groups {
            Some(g) => match group(g, 1) {
                Some(coordinate) => {
                    let new_line = replaced(line, coordinate, new + ":"@ + version);
                    if has_text(coordinate, old) && new_line != line {
                        Some(BuildChange { line: new_line, subject: coordinate })
                    } else {
                        None
                    }
                },
                None => None,
            },
            None => None,
        }
    } else {
        None
    }
}

fn quote_at(v: &Vec<char>, from: usize) -> (r: usize)
    requires
        from <= v@.len(),
    ensures
        r == quote_pos(v@, from as int),
        from <= r <= v@.len(),
{
    let mut i: usize = from;
    while i < v.len() && v[i] != '"' && v[i] != '\''
        invariant
            from <= i <= v@.len(),
            quote_pos(v@, from as int) == quote_pos(v@, i as int),
        decreases v@.len() - i,
    {
        i = i + 1;
    }
    i
}

fn set_version(line: &str, package: &str, version: &str) -> (r: String)
    ensures
        r@ == with_version(line@, package@, version@),
{
    let v = chars_of(line);
    let p = chars_of(package);
    let total: usize = v.len();
    match find_at(&v, &p, 0) {
        Some(at) => {
            let from: usize = at + p.len();
            if from < total && v[from] == ':' {
                let end = quote_at(&v, from + 1);
                if end < total {
                    let current = piece(&v, from + 1, end);
                    let old_text = cat3(package, ":", current.as_str());
                    let new_text = cat3(package, ":", version);
                    return replace(line, old_text.as_str(), new_text.as_str());
                }
            }
            owned(line)
        },
        None => owned(line),
    }
}

/// What becomes of a line of a build file, given the groups that looking for
/// a coordinate gave: the new line, and what was replaced.
pub fn change_build_line(
    line: &str,
    old_package: &str,
    new_package: &str,
    new_version: &str,
    groups: Option<Vec<Option<String>>>,
) -> (r: Option<(String, String)>)
    ensures
        build_change(line@, old_package@, new_package@, new_version@, groups.deep_view()) == (
        match r {
            Some(c) => Some(BuildChange { line: c.0@, subject: c.1@ }),
            None => None,
        }),
{
    if !contains(line, old_package) {
        return None;
    }
    if contains(old_package, ":") {
        let swapped = replace(line, old_package, new_package);
        let new_line = if contains(new_package, ":") {
            set_version(swapped.as_str(), new_package, new_version)
        } else {
            swapped
        };
        if same(new_line.as_str(), line) {
            return None;
        }
        return Some((new_line, owned(old_package)));
    }
    if !contains(new_package, ":") {
        return None;
    }
    match groups {
        Some(g) => match group_of(&g, 1) {
            Some(coordinate) => {
                if !contains(coordinate.as_str(), old_package) {
                    return None;
                }
                let wanted = cat3(new_package, ":", new_version);
                let new_line = replace(line, coordinate.as_str(), wanted.as_str());
                if same(new_line.as_str(), line) {
                    None
                } else {
                    Some((new_line, coordinate.clone()))
                }
            },
            None => None,
        },
        None => None,
    }
}

// ---------------------------------------------------------------------
// Build files
// ---------------------------------------------------------------------

/// The groups that looking for a coordinate on a line gives.
pub open spec fn coordinate_groups(line: Seq<char>) -> Option<Seq<Option<Seq<char>>>> {
    if is_pattern(coordinate_pattern()) {
        regex_groups(coordinate_pattern(), line)
    } else {
        None
    }
}

/// The edits of the first `n` lines of a build file.
pub open spec fn build_edits(
    rule_id: Seq<char>,
    all: Seq<Seq<char>>,
    old: Seq<char>,
    new: Seq<char>,
    version: Seq<char>,
    n: int,
) -> Seq<TextEditView>
    decreases n,
{
    if n <= 0 {
        Seq::empty()
    } else {
        let before = build_edits(rule_id, all, old, new, version, n - 1);
        match build_change(all[n - 1], old, new, version, coordinate_groups(all[n - 1])) {
            Some(c) => before.push(
                line_edit(
                    rule_id,
                    n as u32,
                    all[n - 1],
                    c.line,
                    "Update dependency: "@ + c.subject + " → "@ + new + ":"@ + version,
                ),
            ),
            None => before,
        }
    }
}

/// A fix with the given edits, at the line of the first one.
pub open spec fn edits_fix(
    rule_id: Seq<char>,
    path: Seq<char>,
    edits: Seq<TextEditView>,
    description: Seq<char>,
) -> PlannedFixView {
    PlannedFixView {
        edits,
        confidence: FixConfidence::High,
        source: FixSource::Pattern,
        rule_id,
        file_uri: "file://"@ + path,
        line: edits[0].line,
        description,
    }
}

/// The fixes of the first `n` build files.
pub open spec fn build_fixes(
    rule_id: Seq<char>,
    paths: Seq<Seq<char>>,
    old: Seq<char>,
    new: Seq<char>,
    version: Seq<char>,
    ws: WorkspaceView,
    n: int,
) -> Seq<PlannedFixView>
    decreases n,
{
    if n <= 0 {
        Seq::empty()
    } else {
        let before = build_fixes(rule_id, paths, old, new, version, ws, n - 1);
        match text_at(ws, paths[n - 1]) {
            Err(_) => before,
            Ok(source) => {
                let all = lines_of(source);
                let edits = build_edits(rule_id, all, old, new, version, all.len() as int);
                if edits.len() == 0 {
                    before
                } else {
                    before.push(
                        edits_fix(
                            rule_id,
                            paths[n - 1],
                            edits,
                            "Proactive dependency update: "@ + old + " → "@ + new + ":"@ + version,
                        ),
                    )
                }
            },
        }
    }
}

/// A path as a list, where something stands there.
pub open spec fn where_present(ws: WorkspaceView, path: Seq<char>) -> Seq<Seq<char>> {
    if present(ws, path) {
        seq![path]
    } else {
        Seq::empty()
    }
}

/// The build files in a directory.
pub open spec fn build_files_in(ws: WorkspaceView, dir: Seq<char>) -> Seq<Seq<char>> {
    where_present(ws, joined_path(dir, "dependencies.gradle"@)) + where_present(
        ws,
        joined_path(dir, "build.gradle"@),
    ) + where_present(ws, joined_path(dir, "build.gradle.kts"@)) + where_present(
        ws,
        joined_path(dir, "pom.xml"@),
    )
}

/// The build files in the first `n` directories directly below the root.
pub open spec fn build_files_below(
    ws: WorkspaceView,
    root: Seq<char>,
    names: Seq<Seq<char>>,
    n: int,
) -> Seq<Seq<char>>
    decreases n,
{
    if n <= 0 {
        Seq::empty()
    } else {
        let before = build_files_below(ws, root, names, n - 1);
        let dir = joined_path(root, names[n - 1]);
        if directory_at(ws, dir) {
            before + build_files_in(ws, dir)
        } else {
            before
        }
    }
}

/// The build files of a project: those in its root, and those directly below
/// it.
pub open spec fn build_files(ws: WorkspaceView, root: Seq<char>) -> Seq<Seq<char>> {
    let names = names_in(ws, root);
    build_files_in(ws, root) + build_files_below(ws, root, names, names.len() as int)
}

/// The fixes that replace a dependency in the build files of a project, and
/// the record where there are none.
pub open spec fn proactive_outcomes(
    rule_id: Seq<char>,
    old: Seq<char>,
    new: Seq<char>,
    version: Seq<char>,
    root: Seq<char>,
    ws: WorkspaceView,
) -> Outcomes {
    let paths = build_files(ws, root);
    let fixes = build_fixes(rule_id, paths, old, new, version, ws, paths.len() as int);
    Outcomes {
        fixes,
        skip: if fixes.len() == 0 {
            Some(
                SkippedIncidentView {
                    rule_id,
                    file: "file://"@ + root,
                    line: None,
                    reason: SkipReason::TextNotFound,
                    detail: Some("No manifest file found containing '"@ + old + "'"@),
                },
            )
        } else {
            None
        },
    }
}

fn add_if_present(out: &mut Vec<String>, dir: &str, name: &str, ws: &Workspace)
    ensures
        final(out).deep_view() == old(out).deep_view() + where_present(
            ws.deep_view(),
            joined_path(dir@, name@),
        ),
{
    let path = join(dir, name);
    if ws.has(path.as_str()) {
        append_one(out, path);
    }
    assert(out.deep_view() =~= old(out).deep_view() + where_present(
        ws.deep_view(),
        joined_path(dir@, name@),
    ));
}

fn find_build_files_in(dir: &str, ws: &Workspace) -> (r: Vec<String>)
    ensures
        r.deep_view() == build_files_in(ws.deep_view(), dir@),
{
    let mut out: Vec<String> = Vec::new();
    add_if_present(&mut out, dir, "dependencies.gradle", ws);
    assert(out.deep_view() =~= where_present(
        ws.deep_view(),
        joined_path(dir@, "dependencies.gradle"@),
    ));
    add_if_present(&mut out, dir, "build.gradle", ws);
    add_if_present(&mut out, dir, "build.gradle.kts", ws);
    add_if_present(&mut out, dir, "pom.xml", ws);
    out
}

fn find_build_files(root: &str, ws: &Workspace) -> (r: Vec<String>)
    ensures
        r.deep_view() == build_files(ws.deep_view(), root@),
{
    let mut out = find_build_files_in(root, ws);
    let ghost first = out.deep_view();
    let names = ws.list(root);
    let ghost view = names.deep_view();
    let mut i: usize = 0;
    assert(first + build_files_below(ws.deep_view(), root@, view, 0) =~= first);
    while i < names.len()
        invariant
            i <= names@.len(),
            view == names.deep_view(),
            out.deep_view() == first + build_files_below(ws.deep_view(), root@, view, i as int),
        decreases names@.len() - i,
    {
        assert(view[i as int] == names@[i as int]@);
        let dir = join(root, names[i].as_str());
        if ws.is_dir(dir.as_str()) {
            let more = find_build_files_in(dir.as_str(), ws);
            append_all(&mut out, more);
            assert(out.deep_view() =~= first + build_files_below(
                ws.deep_view(),
                root@,
                view,
                i + 1,
            ));
        }
        i = i + 1;
    }
    assert(view.len() == names@.len());
    out
}

fn find_coordinate(line: &str) -> (r: Option<Vec<Option<String>>>)
    ensures
        r.deep_view() == coordinate_groups(line@),
{
    let pattern = r#""([^"]+:[^"]+:[^"]+)""#;
    if compiles(pattern) {
        captures(pattern, line)
    } else {
        None
    }
}

fn plan_build_edits(
    rule_id: &str,
    all: &Vec<String>,
    old_package: &str,
    new_package: &str,
    new_version: &str,
) -> (r: Vec<TextEdit>)
    ensures
        r.deep_view() == build_edits(
            rule_id@,
            all.deep_view(),
            old_package@,
            new_package@,
            new_version@,
            all@.len() as int,
        ),
{
    let mut out: Vec<TextEdit> = Vec::new();
    let mut i: usize = 0;
    assert(out.deep_view() =~= Seq::<TextEditView>::empty());
    while i < all.len()
        invariant
            i <= all@.len(),
            out.deep_view() == build_edits(
                rule_id@,
                all.deep_view(),
                old_package@,
                new_package@,
                new_version@,
                i as int,
            ),
        decreases all@.len() - i,
    {
        assert(all.deep_view()[i as int] == all@[i as int]@);
        let line = all[i].as_str();
        let groups = find_coordinate(line);
        match change_build_line(line, old_package, new_package, new_version, groups) {
            Some((new_line, subject)) => {
                let description = cat6(
                    "Update dependency: ",
                    subject.as_str(),
                    " → ",
                    new_package,
                    ":",
                    new_version,
                );
                append_one(
                    &mut out,
                    make_line_edit(rule_id, (i + 1) as u32, line, new_line, description),
                );
            },
            None => {},
        }
        i = i + 1;
    }
    out
}

fn make_edits_fix(rule_id: &str, path: &str, edits: Vec<TextEdit>, description: String) -> (r:
    PlannedFix)
    requires
        edits@.len() > 0,
    ensures
        r.deep_view() == edits_fix(rule_id@, path@, edits.deep_view(), description@),
{
    let line: u32 = edits[0].line;
    assert(edits.deep_view()[0] == edits@[0].deep_view());
    PlannedFix {
        edits,
        confidence: FixConfidence::High,
        source: FixSource::Pattern,
        rule_id: owned(rule_id),
        file_uri: cat2("file://", path),
        line,
        description,
    }
}

/// Plans the replacement of a dependency in the build files of a project:
/// `dependencies.gradle`, `build.gradle`, `build.gradle.kts` and `pom.xml`
/// in its root and directly below it.
pub fn plan_proactive_java_dependency(
    rule_id: &str,
    old_package: &str,
    new_package: &str,
    new_version: &str,
    project_root: &str,
    ws: &Workspace,
    report: &mut FixReport,
) -> (r: Vec<PlannedFix>)
    ensures
        ({
            let o = proactive_outcomes(
                rule_id@,
                old_package@,
                new_package@,
                new_version@,
                project_root@,
                ws.deep_view(),
            );
            &&& r.deep_view() == o.fixes
            &&& final(report).deep_view() == noting(old(report).deep_view(), o.skip)
        }),
{
    let paths = find_build_files(project_root, ws);
    let ghost view = paths.deep_view();
    let mut fixes = none_planned();
    let mut i: usize = 0;
    while i < paths.len()
        invariant
            i <= paths@.len(),
            view == paths.deep_view(),
            fixes.deep_view() == build_fixes(
                rule_id@,
                view,
                old_package@,
                new_package@,
                new_version@,
                ws.deep_view(),
                i as int,
            ),
        decreases paths@.len() - i,
    {
        assert(view[i as int] == paths@[i as int]@);
        let path = paths[i].as_str();
        match ws.read(path) {
            Ok(source) => {
                let all = lines(source);
                assert(all.deep_view().len() == all@.len());
                let edits = plan_build_edits(rule_id, &all, old_package, new_package, new_version);
                assert(edits.deep_view().len() == edits@.len());
                if edits.len() > 0 {
                    let description = cat6(
                        "Proactive dependency update: ",
                        old_package,
                        " → ",
                        new_package,
                        ":",
                        new_version,
                    );
                    append_one(&mut fixes, make_edits_fix(rule_id, path, edits, description));
                }
            },
            Err(_) => {},
        }
        i = i + 1;
    }
    assert(view.len() == paths@.len());
    assert(fixes.deep_view().len() == fixes@.len());
    if fixes.len() == 0 {
        let file = cat2("file://", project_root);
        report.record_skip(
            rule_id,
            file.as_str(),
            None,
            SkipReason::TextNotFound,
            Some(cat3("No manifest file found containing '", old_package, "'")),
        );
    }
    fixes
}

// ---------------------------------------------------------------------
// Configuration files
// ---------------------------------------------------------------------

/// The extension is that of a configuration file.
pub open spec fn is_config_extension(ext: Option<Seq<char>>) -> bool {
    ext == Some("xml"@) || ext == Some("properties"@) || ext == Some("yml"@) || ext == Some(
        "yaml"@,
    ) || ext == Some("cfg"@) || ext == Some("conf"@)
}

/// The edits of the first `n` lines of a configuration file.
pub open spec fn config_edits(
    rule_id: Seq<char>,
    all: Seq<Seq<char>>,
    old_fqn: Seq<char>,
    new_fqn: Seq<char>,
    n: int,
) -> Seq<TextEditView>
    decreases n,
{
    if n <= 0 {
        Seq::empty()
    } else {
        let before = config_edits(rule_id, all, old_fqn, new_fqn, n - 1);
        let line = all[n - 1];
        let new_line = replaced(line, old_fqn, new_fqn);
        if has_text(line, old_fqn) && new_line != line {
            before.push(
                line_edit(
                    rule_id,
                    n as u32,
                    line,
                    new_line,
                    "Replace FQN: "@ + old_fqn + " → "@ + new_fqn,
                ),
            )
        } else {
            before
        }
    }
}

/// The fixes of those of the first `n` entries of a directory that are
/// configuration files.
pub open spec fn config_fixes_in(
    rule_id: Seq<char>,
    dir: Seq<char>,
    names: Seq<Seq<char>>,
    old_fqn: Seq<char>,
    new_fqn: Seq<char>,
    ws: WorkspaceView,
    n: int,
) -> Seq<PlannedFixView>
    decreases n,
{
    if n <= 0 {
        Seq::empty()
    } else {
        let before = config_fixes_in(rule_id, dir, names, old_fqn, new_fqn, ws, n - 1);
        let path = joined_path(dir, names[n - 1]);
        match text_at(ws, path) {
            Err(_) => before,
            Ok(source) => {
                let all = lines_of(source);
                let edits = config_edits(rule_id, all, old_fqn, new_fqn, all.len() as int);
                if !is_config_extension(extension_of(path)) || !has_text(source, old_fqn)
                    || edits.len() == 0 {
                    before
                } else {
                    before.push(
                        edits_fix(
                            rule_id,
                            path,
                            edits,
                            "Config file FQN rename: "@ + old_fqn + " → "@ + new_fqn,
                        ),
                    )
                }
            },
        }
    }
}

/// The fixes of the configuration files in a directory.
pub open spec fn config_fixes(
    rule_id: Seq<char>,
    dir: Seq<char>,
    old_fqn: Seq<char>,
    new_fqn: Seq<char>,
    ws: WorkspaceView,
) -> Seq<PlannedFixView> {
    let names = names_in(ws, dir);
    config_fixes_in(rule_id, dir, names, old_fqn, new_fqn, ws, names.len() as int)
}

/// The fixes of the configuration files of a project: in its resources, in
/// their `META-INF`, and in its root.
pub open spec fn project_config_fixes(
    rule_id: Seq<char>,
    old_fqn: Seq<char>,
    new_fqn: Seq<char>,
    root: Seq<char>,
    ws: WorkspaceView,
) -> Seq<PlannedFixView> {
    config_fixes(rule_id, joined_path(root, "src/main/resources"@), old_fqn, new_fqn, ws)
        + config_fixes(
        rule_id,
        joined_path(root, "src/main/resources/META-INF"@),
        old_fqn,
        new_fqn,
        ws,
    ) + config_fixes(rule_id, root, old_fqn, new_fqn, ws)
}

fn has_config_extension(path: &str) -> (r: bool)
    ensures
        r == is_config_extension(extension_of(path@)),
{
    match extension(path) {
        Some(ext) => {
            let e = ext.as_str();
            same(e, "xml") || same(e, "properties") || same(e, "yml") || same(e, "yaml") || same(
                e,
                "cfg",
            ) || same(e, "conf")
        },
        None => false,
    }
}

fn plan_config_edits(rule_id: &str, all: &Vec<String>, old_fqn: &str, new_fqn: &str) -> (r: Vec<
    TextEdit,
>)
    ensures
        r.deep_view() == config_edits(
            rule_id@,
            all.deep_view(),
            old_fqn@,
            new_fqn@,
            all@.len() as int,
        ),
{
    let mut out: Vec<TextEdit> = Vec::new();
    let mut i: usize = 0;
    assert(out.deep_view() =~= Seq::<TextEditView>::empty());
    while i < all.len()
        invariant
            i <= all@.len(),
            out.deep_view() == config_edits(
                rule_id@,
                all.deep_view(),
                old_fqn@,
                new_fqn@,
                i as int,
            ),
        decreases all@.len() - i,
    {
        assert(all.deep_view()[i as int] == all@[i as int]@);
        let line = all[i].as_str();
        if contains(line, old_fqn) {
            let new_line = replace(line, old_fqn, new_fqn);
            if !same(new_line.as_str(), line) {
                let description = cat4("Replace FQN: ", old_fqn, " → ", new_fqn);
                append_one(
                    &mut out,
                    make_line_edit(rule_id, (i + 1) as u32, line, new_line, description),
                );
            }
        }
        i = i + 1;
    }
    out
}

fn plan_config_dir(rule_id: &str, dir: &str, old_fqn: &str, new_fqn: &str, ws: &Workspace) -> (r:
    Vec<PlannedFix>)
    ensures
        r.deep_view() == config_fixes(rule_id@, dir@, old_fqn@, new_fqn@, ws.deep_view()),
{
    let names = ws.list(dir);
    let ghost view = names.deep_view();
    let mut fixes = none_planned();
    let mut i: usize = 0;
    while i < names.len()
        invariant
            i <= names@.len(),
            view == names.deep_view(),
            fixes.deep_view() == config_fixes_in(
                rule_id@,
                dir@,
                view,
                old_fqn@,
                new_fqn@,
                ws.deep_view(),
                i as int,
            ),
        decreases names@.len() - i,
    {
        assert(view[i as int] == names@[i as int]@);
        let path = join(dir, names[i].as_str());
        if has_config_extension(path.as_str()) {
            match ws.read(path.as_str()) {
                Ok(source) => {
                    if contains(source, old_fqn) {
                        let all = lines(source);
                        assert(all.deep_view().len() == all@.len());
                        let edits = plan_config_edits(rule_id, &all, old_fqn, new_fqn);
                        assert(edits.deep_view().len() == edits@.len());
                        if edits.len() > 0 {
                            let description = cat4(
                                "Config file FQN rename: ",
                                old_fqn,
                                " → ",
                                new_fqn,
                            );
                            append_one(
                                &mut fixes,
                                make_edits_fix(rule_id, path.as_str(), edits, description),
                            );
                        }
                    }
                },
                Err(_) => {},
            }
        }
        i = i + 1;
    }
    assert(view.len() == names@.len());
    fixes
}

/// Plans the renames of a full name in the configuration files of a project.
pub fn plan_config_file_fqn_renames(
    rule_id: &str,
    old_fqn: &str,
    new_fqn: &str,
    project_root: &str,
    ws: &Workspace,
) -> (r: Vec<PlannedFix>)
    ensures
        r.deep_view() == project_config_fixes(
            rule_id@,
            old_fqn@,
            new_fqn@,
            project_root@,
            ws.deep_view(),
        ),
{
    let resources = join(project_root, "src/main/resources");
    let mut fixes = plan_config_dir(rule_id, resources.as_str(), old_fqn, new_fqn, ws);
    let meta = join(project_root, "src/main/resources/META-INF");
    let more = plan_config_dir(rule_id, meta.as_str(), old_fqn, new_fqn, ws);
    append_all(&mut fixes, more);
    let rest = plan_config_dir(rule_id, project_root, old_fqn, new_fqn, ws);
    append_all(&mut fixes, rest);
    fixes
}

} // verus!
