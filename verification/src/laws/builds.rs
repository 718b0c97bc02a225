//! Java projects: the build files and configuration files that a change
//! reaches, what their lines become, and the tests of a class.

use crate::java::companions::{companion_tests, has_path, mirrored_dir, with_file, with_tests_in};
use crate::java::dependencies::{
    build_change, build_edits, build_files, build_files_below, build_files_in, build_fixes,
    config_edits, config_fixes, config_fixes_in, coordinate_groups, edits_fix, is_config_extension,
    proactive_outcomes, project_config_fixes, quote_pos, where_present, with_version,
};
use crate::java::provider::in_generated_dir;
use crate::laws::classes::{law_replacing_changes_the_line, line_is_rewritten, rewrites_line};
use crate::laws::words::{
    is_first_at, law_every_occurrence_is_replaced, law_search_finds_the_first_place,
};
use crate::model::{SkipReason, TextEditView};
use crate::order::{path_same, ByPath, KeyOrder};
use crate::paths::{components, extension_of, joined_path, parent_of, stem_of};
use crate::text::{has_text, lemma_replace_absent, lines_of, occurs_at, replaced};
use crate::workspace::{directory_at, file_at, names_in, present, text_at, WorkspaceView};
use vstd::prelude::*;

verus! {

broadcast use vstd::string::group_string_axioms;

// ---------------------------------------------------------------------
// A line of a build file
// ---------------------------------------------------------------------

/// The character is a quote.
pub open spec fn is_quote(c: char) -> bool {
    c == '"' || c == '\''
}

proof fn lemma_quote_pos(s: Seq<char>, i: int, k: int)
    requires
        0 <= i <= k < s.len(),
        is_quote(s[k]),
        forall|j: int| i <= j < k ==> !is_quote(#[trigger] s[j]),
    ensures
        quote_pos(s, i) == k,
    decreases k - i,
{
    if i < k {
        assert(!is_quote(s[i]));
        lemma_quote_pos(s, i + 1, k);
    }
}

/// A coordinate with its version in quotes gets the new version, and all else
/// on the line stays.
pub proof fn law_version_of_a_coordinate(
    before: Seq<char>,
    package: Seq<char>,
    version: Seq<char>,
    q: char,
    after: Seq<char>,
    new_version: Seq<char>,
)
    requires
        is_first_at(
            before + package + seq![':'] + version + seq![q] + after,
            package,
            before.len() as int,
        ),
        package.len() > 0,
        is_quote(q),
        forall|j: int| 0 <= j < version.len() ==> !is_quote(#[trigger] version[j]),
        !has_text(seq![q] + after, package + seq![':'] + version),
    ensures
        with_version(
            before + package + seq![':'] + version + seq![q] + after,
            package,
            new_version,
        ) == before + package + seq![':'] + new_version + seq![q] + after,
{
    reveal_strlit(":");
    assert(":"@ =~= seq![':']);
    let line = before + package + seq![':'] + version + seq![q] + after;
    let p = before.len() as int;
    law_search_finds_the_first_place(line, package, p);
    let from = p + package.len();
    let end = from + 1 + version.len();
    assert(line[from] == ':');
    assert(line[end] == q);
    assert forall|j: int| from + 1 <= j < end implies !is_quote(#[trigger] line[j]) by {
        assert(line[j] == version[j - from - 1]);
    }
    lemma_quote_pos(line, from + 1, end);
    assert(line.subrange(from + 1, end) =~= version);
    let a = package + ":"@ + version;
    let b = package + ":"@ + new_version;
    let rest = seq![q] + after;
    assert(line =~= before + a + rest);
    assert(is_first_at(line, a, p)) by {
        assert(line.subrange(p, p + a.len()) =~= a);
        assert forall|j: int| 0 <= j < p implies !#[trigger] occurs_at(line, a, j) by {
            if occurs_at(line, a, j) {
                assert(line.subrange(j, j + package.len()) =~= a.subrange(
                    0,
                    package.len() as int,
                )) by {
                    assert(line.subrange(j, j + a.len()).subrange(0, package.len() as int)
                        =~= line.subrange(j, j + package.len()));
                }
                assert(a.subrange(0, package.len() as int) =~= package);
                assert(occurs_at(line, package, j));
            }
        }
    }
    law_every_occurrence_is_replaced(before, a, b, rest);
    lemma_replace_absent(rest, a, b);
    assert(before + b + rest =~= before + package + seq![':'] + new_version + seq![q] + after);
}

/// A line that does not name the old dependency stays.
pub proof fn law_other_lines_of_a_build_file_stay(
    line: Seq<char>,
    old_name: Seq<char>,
    new_name: Seq<char>,
    version: Seq<char>,
    groups: Option<Seq<Option<Seq<char>>>>,
)
    requires
        !has_text(line, old_name),
    ensures
        build_change(line, old_name, new_name, version, groups) is None,
{
}

/// An old coordinate is replaced by the new one, with the new version where
/// the new one is a coordinate too. For an old package, the whole coordinate
/// that holds it is replaced.
pub proof fn law_dependency_on_a_line(
    line: Seq<char>,
    old_name: Seq<char>,
    new_name: Seq<char>,
    version: Seq<char>,
    groups: Option<Seq<Option<Seq<char>>>>,
    coordinate: Seq<char>,
)
    requires
        has_text(line, old_name),
    ensures
        has_text(old_name, seq![':']) ==> ({
            let swapped = replaced(line, old_name, new_name);
            let wanted = if has_text(new_name, seq![':']) {
                with_version(swapped, new_name, version)
            } else {
                swapped
            };
            match build_change(line, old_name, new_name, version, groups) {
                Some(c) => c.line == wanted && wanted != line,
                None => wanted == line,
            }
        }),
        !has_text(old_name, seq![':']) && has_text(new_name, seq![':']) && (groups matches Some(
            g,
        ) && g.len() > 1 && g[1] == Some(coordinate)) && has_text(coordinate, old_name)
            && coordinate.len() > 0 && has_text(line, coordinate) && coordinate != new_name
            + seq![':'] + version ==> (build_change(
            line,
            old_name,
            new_name,
            version,
            groups,
        ) matches Some(c) && c.line == replaced(line, coordinate, new_name + seq![':'] + version)),
        !has_text(old_name, seq![':']) && !has_text(new_name, seq![':']) ==> build_change(
            line,
            old_name,
            new_name,
            version,
            groups,
        ) is None,
{
    reveal_strlit(":");
    assert(":"@ =~= seq![':']);
    if coordinate.len() > 0 && has_text(line, coordinate) && coordinate != new_name + seq![':']
        + version {
        law_replacing_changes_the_line(line, coordinate, new_name + seq![':'] + version);
    }
}

// ---------------------------------------------------------------------
// Build files
// ---------------------------------------------------------------------

proof fn lemma_build_complete(
    rule_id: Seq<char>,
    all: Seq<Seq<char>>,
    old_name: Seq<char>,
    new_name: Seq<char>,
    version: Seq<char>,
    n: int,
    idx: int,
)
    requires
        0 <= idx < n <= all.len() <= u32::MAX,
        build_change(all[idx], old_name, new_name, version, coordinate_groups(all[idx])) is Some,
    ensures
        line_is_rewritten(
            build_edits(rule_id, all, old_name, new_name, version, n),
            rule_id,
            all,
            idx,
            build_change(
                all[idx],
                old_name,
                new_name,
                version,
                coordinate_groups(all[idx]),
            )->Some_0.line,
        ),
    decreases n,
{
    let before = build_edits(rule_id, all, old_name, new_name, version, n - 1);
    let now = build_edits(rule_id, all, old_name, new_name, version, n);
    let c = build_change(
        all[idx],
        old_name,
        new_name,
        version,
        coordinate_groups(all[idx]),
    )->Some_0;
    if idx == n - 1 {
        assert(rewrites_line(now[before.len() as int], rule_id, all, idx, c.line));
    } else {
        lemma_build_complete(rule_id, all, old_name, new_name, version, n - 1, idx);
        let k = choose|k: int|
            0 <= k < before.len() && rewrites_line(#[trigger] before[k], rule_id, all, idx, c.line);
        assert(now[k] == before[k]);
    }
}

proof fn lemma_build_sound(
    rule_id: Seq<char>,
    all: Seq<Seq<char>>,
    old_name: Seq<char>,
    new_name: Seq<char>,
    version: Seq<char>,
    n: int,
    j: int,
)
    requires
        0 <= n <= all.len() <= u32::MAX,
        0 <= j < build_edits(rule_id, all, old_name, new_name, version, n).len(),
    ensures
        exists|idx: int|
            0 <= idx < n && (build_change(
                #[trigger] all[idx],
                old_name,
                new_name,
                version,
                coordinate_groups(all[idx]),
            ) matches Some(c) && rewrites_line(
                build_edits(rule_id, all, old_name, new_name, version, n)[j],
                rule_id,
                all,
                idx,
                c.line,
            )),
    decreases n,
{
    if n > 0 {
        let before = build_edits(rule_id, all, old_name, new_name, version, n - 1);
        let now = build_edits(rule_id, all, old_name, new_name, version, n);
        if j < before.len() {
            assert(now[j] == before[j]);
            lemma_build_sound(rule_id, all, old_name, new_name, version, n - 1, j);
        } else {
            let c = build_change(
                all[n - 1],
                old_name,
                new_name,
                version,
                coordinate_groups(all[n - 1]),
            )->Some_0;
            assert(rewrites_line(now[j], rule_id, all, n - 1, c.line));
        }
    }
}

proof fn lemma_build_fix(
    rule_id: Seq<char>,
    paths: Seq<Seq<char>>,
    old_name: Seq<char>,
    new_name: Seq<char>,
    version: Seq<char>,
    ws: WorkspaceView,
    n: int,
    k: int,
)
    requires
        0 <= k < n <= paths.len(),
        text_at(ws, paths[k]) is Ok,
        ({
            let all = lines_of(text_at(ws, paths[k])->Ok_0);
            build_edits(rule_id, all, old_name, new_name, version, all.len() as int).len() > 0
        }),
    ensures
        ({
            let all = lines_of(text_at(ws, paths[k])->Ok_0);
            build_fixes(rule_id, paths, old_name, new_name, version, ws, n).contains(
                edits_fix(
                    rule_id,
                    paths[k],
                    build_edits(rule_id, all, old_name, new_name, version, all.len() as int),
                    "Proactive dependency update: "@ + old_name + " → "@ + new_name + ":"@
                        + version,
                ),
            )
        }),
    decreases n,
{
    let before = build_fixes(rule_id, paths, old_name, new_name, version, ws, n - 1);
    let now = build_fixes(rule_id, paths, old_name, new_name, version, ws, n);
    let all = lines_of(text_at(ws, paths[k])->Ok_0);
    let fix = edits_fix(
        rule_id,
        paths[k],
        build_edits(rule_id, all, old_name, new_name, version, all.len() as int),
        "Proactive dependency update: "@ + old_name + " → "@ + new_name + ":"@ + version,
    );
    if k == n - 1 {
        assert(now[before.len() as int] == fix);
    } else {
        lemma_build_fix(rule_id, paths, old_name, new_name, version, ws, n - 1, k);
        let j = choose|j: int| 0 <= j < before.len() && before[j] == fix;
        assert(now[j] == fix);
    }
}

/// The name is that of a build file.
pub open spec fn is_build_name(name: Seq<char>) -> bool {
    name == "dependencies.gradle"@ || name == "build.gradle"@ || name == "build.gradle.kts"@ || name
        == "pom.xml"@
}

/// The path is a build file of the project: in its root or in a directory
/// directly below it.
pub open spec fn is_build_file(
    ws: WorkspaceView,
    root: Seq<char>,
    dir: Seq<char>,
    name: Seq<char>,
) -> bool {
    &&& is_build_name(name)
    &&& present(ws, joined_path(dir, name))
    &&& dir == root || (directory_at(ws, dir) && exists|k: int|
        0 <= k < names_in(ws, root).len() && joined_path(root, #[trigger] names_in(ws, root)[k])
            == dir)
}

proof fn lemma_in_dir(ws: WorkspaceView, dir: Seq<char>, name: Seq<char>)
    requires
        is_build_name(name),
        present(ws, joined_path(dir, name)),
    ensures
        build_files_in(ws, dir).contains(joined_path(dir, name)),
{
    let a = where_present(ws, joined_path(dir, "dependencies.gradle"@));
    let b = where_present(ws, joined_path(dir, "build.gradle"@));
    let c = where_present(ws, joined_path(dir, "build.gradle.kts"@));
    let d = where_present(ws, joined_path(dir, "pom.xml"@));
    let all = a + b + c + d;
    if name == "dependencies.gradle"@ {
        assert(all[0] == joined_path(dir, name));
    } else if name == "build.gradle"@ {
        assert(all[a.len() as int] == joined_path(dir, name));
    } else if name == "build.gradle.kts"@ {
        assert(all[(a.len() + b.len()) as int] == joined_path(dir, name));
    } else {
        assert(all[(a.len() + b.len() + c.len()) as int] == joined_path(dir, name));
    }
}

proof fn lemma_below(
    ws: WorkspaceView,
    root: Seq<char>,
    names: Seq<Seq<char>>,
    n: int,
    k: int,
    path: Seq<char>,
)
    requires
        0 <= k < n <= names.len(),
        directory_at(ws, joined_path(root, names[k])),
        build_files_in(ws, joined_path(root, names[k])).contains(path),
    ensures
        build_files_below(ws, root, names, n).contains(path),
    decreases n,
{
    let before = build_files_below(ws, root, names, n - 1);
    let now = build_files_below(ws, root, names, n);
    if k == n - 1 {
        let more = build_files_in(ws, joined_path(root, names[k]));
        let j = choose|j: int| 0 <= j < more.len() && more[j] == path;
        assert(now[before.len() + j] == path);
    } else {
        lemma_below(ws, root, names, n - 1, k, path);
        let j = choose|j: int| 0 <= j < before.len() && before[j] == path;
        assert(now[j] == path);
    }
}

/// Every build file of the project, in its root and directly below, is looked
/// at.
pub proof fn law_every_build_file_is_looked_at(
    ws: WorkspaceView,
    root: Seq<char>,
    dir: Seq<char>,
    name: Seq<char>,
)
    requires
        is_build_file(ws, root, dir, name),
    ensures
        build_files(ws, root).contains(joined_path(dir, name)),
{
    let names = names_in(ws, root);
    let path = joined_path(dir, name);
    let top = build_files_in(ws, root);
    let below = build_files_below(ws, root, names, names.len() as int);
    lemma_in_dir(ws, dir, name);
    if dir == root {
        let j = choose|j: int| 0 <= j < top.len() && top[j] == path;
        assert(build_files(ws, root)[j] == path);
    } else {
        let k = choose|k: int|
            0 <= k < names.len() && joined_path(root, #[trigger] names[k]) == dir;
        lemma_below(ws, root, names, names.len() as int, k, path);
        let j = choose|j: int| 0 <= j < below.len() && below[j] == path;
        assert(build_files(ws, root)[top.len() + j] == path);
    }
}

/// A dependency is replaced on every line of every build file of the project
/// on which that changes something.
pub proof fn law_dependency_is_replaced_in_every_build_file(
    rule_id: Seq<char>,
    old_name: Seq<char>,
    new_name: Seq<char>,
    version: Seq<char>,
    root: Seq<char>,
    ws: WorkspaceView,
    dir: Seq<char>,
    name: Seq<char>,
    source: Seq<char>,
    idx: int,
)
    requires
        is_build_file(ws, root, dir, name),
        text_at(ws, joined_path(dir, name)) == Ok::<Seq<char>, Seq<char>>(source),
        0 <= idx < lines_of(source).len() <= u32::MAX,
        build_change(
            lines_of(source)[idx],
            old_name,
            new_name,
            version,
            coordinate_groups(lines_of(source)[idx]),
        ) is Some,
    ensures
        ({
            let o = proactive_outcomes(rule_id, old_name, new_name, version, root, ws);
            &&& o.skip is None
            &&& exists|f: int|
                0 <= f < o.fixes.len() && (#[trigger] o.fixes[f]).file_uri == "file://"@
                    + joined_path(dir, name) && o.fixes[f].rule_id == rule_id && line_is_rewritten(
                    o.fixes[f].edits,
                    rule_id,
                    lines_of(source),
                    idx,
                    build_change(
                        lines_of(source)[idx],
                        old_name,
                        new_name,
                        version,
                        coordinate_groups(lines_of(source)[idx]),
                    )->Some_0.line,
                )
        }),
{
    let path = joined_path(dir, name);
    let paths = build_files(ws, root);
    let all = lines_of(source);
    law_every_build_file_is_looked_at(ws, root, dir, name);
    let k = choose|k: int| 0 <= k < paths.len() && paths[k] == path;
    lemma_build_complete(rule_id, all, old_name, new_name, version, all.len() as int, idx);
    lemma_build_fix(rule_id, paths, old_name, new_name, version, ws, paths.len() as int, k);
    let fix = edits_fix(
        rule_id,
        paths[k],
        build_edits(rule_id, all, old_name, new_name, version, all.len() as int),
        "Proactive dependency update: "@ + old_name + " → "@ + new_name + ":"@ + version,
    );
    let o = proactive_outcomes(rule_id, old_name, new_name, version, root, ws);
    let f = choose|f: int| 0 <= f < o.fixes.len() && o.fixes[f] == fix;
    assert(o.fixes[f].file_uri == "file://"@ + path);
}

proof fn lemma_build_fix_from(
    rule_id: Seq<char>,
    paths: Seq<Seq<char>>,
    old_name: Seq<char>,
    new_name: Seq<char>,
    version: Seq<char>,
    ws: WorkspaceView,
    n: int,
    f: int,
)
    requires
        0 <= n <= paths.len(),
        0 <= f < build_fixes(rule_id, paths, old_name, new_name, version, ws, n).len(),
    ensures
        exists|k: int|
            0 <= k < n && (text_at(ws, #[trigger] paths[k]) matches Ok(source) && build_fixes(
                rule_id,
                paths,
                old_name,
                new_name,
                version,
                ws,
                n,
            )[f].file_uri == "file://"@ + paths[k] && build_fixes(
                rule_id,
                paths,
                old_name,
                new_name,
                version,
                ws,
                n,
            )[f].edits == build_edits(
                rule_id,
                lines_of(source),
                old_name,
                new_name,
                version,
                lines_of(source).len() as int,
            )),
    decreases n,
{
    if n > 0 {
        let before = build_fixes(rule_id, paths, old_name, new_name, version, ws, n - 1);
        let now = build_fixes(rule_id, paths, old_name, new_name, version, ws, n);
        if f < before.len() {
            lemma_build_fix_from(rule_id, paths, old_name, new_name, version, ws, n - 1, f);
            assert(now[f] == before[f]);
        } else {
            assert(text_at(ws, paths[n - 1]) is Ok);
        }
    }
}

/// Nothing else is changed: each fix is for a build file that was looked at,
/// and each of its edits is of a line on which the old dependency stands.
pub proof fn law_only_the_dependency_is_replaced(
    rule_id: Seq<char>,
    old_name: Seq<char>,
    new_name: Seq<char>,
    version: Seq<char>,
    root: Seq<char>,
    ws: WorkspaceView,
    f: int,
    j: int,
)
    requires
        forall|k: int|
            0 <= k < build_files(ws, root).len() ==> (text_at(
                ws,
                #[trigger] build_files(ws, root)[k],
            ) matches Ok(source) ==> lines_of(source).len() <= u32::MAX),
        0 <= f < proactive_outcomes(rule_id, old_name, new_name, version, root, ws).fixes.len(),
        0 <= j < proactive_outcomes(
            rule_id,
            old_name,
            new_name,
            version,
            root,
            ws,
        ).fixes[f].edits.len(),
    ensures
        ({
            let fix = proactive_outcomes(
                rule_id,
                old_name,
                new_name,
                version,
                root,
                ws,
            ).fixes[f];
            let paths = build_files(ws, root);
            exists|k: int, idx: int|
                0 <= k < paths.len() && fix.file_uri == "file://"@ + paths[k]
                    && #[trigger] is_edit_of_line(ws, paths[k], old_name, fix.edits[j], idx)
        }),
{
    let paths = build_files(ws, root);
    let fixes = proactive_outcomes(rule_id, old_name, new_name, version, root, ws).fixes;
    let n = paths.len() as int;
    lemma_build_fix_from(rule_id, paths, old_name, new_name, version, ws, n, f);
    let k = choose|k: int|
        0 <= k < n && (text_at(ws, #[trigger] paths[k]) matches Ok(source) && fixes[f].file_uri
            == "file://"@ + paths[k] && fixes[f].edits == build_edits(
            rule_id,
            lines_of(source),
            old_name,
            new_name,
            version,
            lines_of(source).len() as int,
        ));
    let source = text_at(ws, paths[k])->Ok_0;
    let all = lines_of(source);
    lemma_build_sound(rule_id, all, old_name, new_name, version, all.len() as int, j);
    let idx = choose|idx: int|
        0 <= idx < all.len() && (build_change(
            #[trigger] all[idx],
            old_name,
            new_name,
            version,
            coordinate_groups(all[idx]),
        ) matches Some(c) && rewrites_line(fixes[f].edits[j], rule_id, all, idx, c.line));
    assert(is_edit_of_line(ws, paths[k], old_name, fixes[f].edits[j], idx));
}

/// The edit is of a line of the file on which the text stands.
pub open spec fn is_edit_of_line(
    ws: WorkspaceView,
    path: Seq<char>,
    text: Seq<char>,
    e: TextEditView,
    idx: int,
) -> bool {
    text_at(ws, path) matches Ok(source) && 0 <= idx < lines_of(source).len() && has_text(
        lines_of(source)[idx],
        text,
    ) && e.line == idx + 1 && e.old_text == lines_of(source)[idx]
}

/// Nothing found is recorded as such.
pub proof fn law_dependency_not_found_is_recorded(
    rule_id: Seq<char>,
    old_name: Seq<char>,
    new_name: Seq<char>,
    version: Seq<char>,
    root: Seq<char>,
    ws: WorkspaceView,
)
    ensures
        ({
            let o = proactive_outcomes(rule_id, old_name, new_name, version, root, ws);
            o.fixes.len() == 0 <==> (o.skip matches Some(s) && s.reason == SkipReason::TextNotFound
                && s.rule_id == rule_id)
        }),
{
}

// ---------------------------------------------------------------------
// Configuration files
// ---------------------------------------------------------------------

proof fn lemma_config_complete(
    rule_id: Seq<char>,
    all: Seq<Seq<char>>,
    old_fqn: Seq<char>,
    new_fqn: Seq<char>,
    n: int,
    idx: int,
)
    requires
        0 <= idx < n <= all.len() <= u32::MAX,
        has_text(all[idx], old_fqn),
        old_fqn.len() > 0,
        old_fqn != new_fqn,
    ensures
        line_is_rewritten(
            config_edits(rule_id, all, old_fqn, new_fqn, n),
            rule_id,
            all,
            idx,
            replaced(all[idx], old_fqn, new_fqn),
        ),
    decreases n,
{
    let before = config_edits(rule_id, all, old_fqn, new_fqn, n - 1);
    let now = config_edits(rule_id, all, old_fqn, new_fqn, n);
    let new_line = replaced(all[idx], old_fqn, new_fqn);
    law_replacing_changes_the_line(all[idx], old_fqn, new_fqn);
    if idx == n - 1 {
        assert(rewrites_line(now[before.len() as int], rule_id, all, idx, new_line));
    } else {
        lemma_config_complete(rule_id, all, old_fqn, new_fqn, n - 1, idx);
        let k = choose|k: int|
            0 <= k < before.len() && rewrites_line(
                #[trigger] before[k],
                rule_id,
                all,
                idx,
                new_line,
            );
        assert(now[k] == before[k]);
    }
}

proof fn lemma_config_sound(
    rule_id: Seq<char>,
    all: Seq<Seq<char>>,
    old_fqn: Seq<char>,
    new_fqn: Seq<char>,
    n: int,
    j: int,
)
    requires
        0 <= n <= all.len() <= u32::MAX,
        0 <= j < config_edits(rule_id, all, old_fqn, new_fqn, n).len(),
    ensures
        exists|idx: int|
            0 <= idx < n && has_text(#[trigger] all[idx], old_fqn) && rewrites_line(
                config_edits(rule_id, all, old_fqn, new_fqn, n)[j],
                rule_id,
                all,
                idx,
                replaced(all[idx], old_fqn, new_fqn),
            ),
    decreases n,
{
    if n > 0 {
        let before = config_edits(rule_id, all, old_fqn, new_fqn, n - 1);
        let now = config_edits(rule_id, all, old_fqn, new_fqn, n);
        if j < before.len() {
            assert(now[j] == before[j]);
            lemma_config_sound(rule_id, all, old_fqn, new_fqn, n - 1, j);
        } else {
            assert(rewrites_line(
                now[j],
                rule_id,
                all,
                n - 1,
                replaced(all[n - 1], old_fqn, new_fqn),
            ));
        }
    }
}

proof fn lemma_config_fix(
    rule_id: Seq<char>,
    dir: Seq<char>,
    names: Seq<Seq<char>>,
    old_fqn: Seq<char>,
    new_fqn: Seq<char>,
    ws: WorkspaceView,
    n: int,
    k: int,
)
    requires
        0 <= k < n <= names.len(),
        text_at(ws, joined_path(dir, names[k])) is Ok,
        is_config_extension(extension_of(joined_path(dir, names[k]))),
        ({
            let source = text_at(ws, joined_path(dir, names[k]))->Ok_0;
            let all = lines_of(source);
            has_text(source, old_fqn) && config_edits(
                rule_id,
                all,
                old_fqn,
                new_fqn,
                all.len() as int,
            ).len() > 0
        }),
    ensures
        ({
            let path = joined_path(dir, names[k]);
            let all = lines_of(text_at(ws, path)->Ok_0);
            config_fixes_in(rule_id, dir, names, old_fqn, new_fqn, ws, n).contains(
                edits_fix(
                    rule_id,
                    path,
                    config_edits(rule_id, all, old_fqn, new_fqn, all.len() as int),
                    "Config file FQN rename: "@ + old_fqn + " → "@ + new_fqn,
                ),
            )
        }),
    decreases n,
{
    let before = config_fixes_in(rule_id, dir, names, old_fqn, new_fqn, ws, n - 1);
    let now = config_fixes_in(rule_id, dir, names, old_fqn, new_fqn, ws, n);
    let path = joined_path(dir, names[k]);
    let all = lines_of(text_at(ws, path)->Ok_0);
    let fix = edits_fix(
        rule_id,
        path,
        config_edits(rule_id, all, old_fqn, new_fqn, all.len() as int),
        "Config file FQN rename: "@ + old_fqn + " → "@ + new_fqn,
    );
    if k == n - 1 {
        assert(now[before.len() as int] == fix);
    } else {
        lemma_config_fix(rule_id, dir, names, old_fqn, new_fqn, ws, n - 1, k);
        let j = choose|j: int| 0 <= j < before.len() && before[j] == fix;
        assert(now[j] == fix);
    }
}

/// The extension of a configuration file.
pub open spec fn is_settings_extension(ext: Option<Seq<char>>) -> bool {
    ext matches Some(e) && (e == "xml"@ || e == "properties"@ || e == "yml"@ || e == "yaml"@ || e
        == "cfg"@ || e == "conf"@)
}

/// The directory is one in which configuration files are looked for.
pub open spec fn holds_settings(root: Seq<char>, dir: Seq<char>) -> bool {
    dir == root || dir == joined_path(root, "src/main/resources"@) || dir == joined_path(
        root,
        "src/main/resources/META-INF"@,
    )
}

/// The full name of a class is replaced on every line of the configuration
/// files of a project on which it stands.
pub proof fn law_class_is_renamed_in_every_configuration_file(
    rule_id: Seq<char>,
    old_fqn: Seq<char>,
    new_fqn: Seq<char>,
    root: Seq<char>,
    ws: WorkspaceView,
    dir: Seq<char>,
    k: int,
    source: Seq<char>,
    idx: int,
)
    requires
        holds_settings(root, dir),
        0 <= k < names_in(ws, dir).len(),
        is_settings_extension(extension_of(joined_path(dir, names_in(ws, dir)[k]))),
        text_at(ws, joined_path(dir, names_in(ws, dir)[k])) == Ok::<Seq<char>, Seq<char>>(source),
        0 <= idx < lines_of(source).len() <= u32::MAX,
        has_text(lines_of(source)[idx], old_fqn),
        has_text(source, old_fqn),
        old_fqn.len() > 0,
        old_fqn != new_fqn,
    ensures
        ({
            let fixes = project_config_fixes(rule_id, old_fqn, new_fqn, root, ws);
            exists|f: int|
                0 <= f < fixes.len() && (#[trigger] fixes[f]).file_uri == "file://"@ + joined_path(
                    dir,
                    names_in(ws, dir)[k],
                ) && fixes[f].rule_id == rule_id && line_is_rewritten(
                    fixes[f].edits,
                    rule_id,
                    lines_of(source),
                    idx,
                    replaced(lines_of(source)[idx], old_fqn, new_fqn),
                )
        }),
{
    let names = names_in(ws, dir);
    let path = joined_path(dir, names[k]);
    let all = lines_of(source);
    lemma_config_complete(rule_id, all, old_fqn, new_fqn, all.len() as int, idx);
    lemma_config_fix(rule_id, dir, names, old_fqn, new_fqn, ws, names.len() as int, k);
    let own = config_fixes(rule_id, dir, old_fqn, new_fqn, ws);
    let fix = edits_fix(
        rule_id,
        path,
        config_edits(rule_id, all, old_fqn, new_fqn, all.len() as int),
        "Config file FQN rename: "@ + old_fqn + " → "@ + new_fqn,
    );
    let j = choose|j: int| 0 <= j < own.len() && own[j] == fix;
    let a = config_fixes(rule_id, joined_path(root, "src/main/resources"@), old_fqn, new_fqn, ws);
    let b = config_fixes(
        rule_id,
        joined_path(root, "src/main/resources/META-INF"@),
        old_fqn,
        new_fqn,
        ws,
    );
    let c = config_fixes(rule_id, root, old_fqn, new_fqn, ws);
    let fixes = project_config_fixes(rule_id, old_fqn, new_fqn, root, ws);
    assert(fixes == a + b + c);
    let f = if dir == joined_path(root, "src/main/resources"@) {
        j
    } else if dir == joined_path(root, "src/main/resources/META-INF"@) {
        a.len() + j
    } else {
        a.len() + b.len() + j
    };
    assert(fixes[f] == fix);
    assert(fixes[f].file_uri == "file://"@ + path);
}

proof fn lemma_config_fix_from(
    rule_id: Seq<char>,
    dir: Seq<char>,
    names: Seq<Seq<char>>,
    old_fqn: Seq<char>,
    new_fqn: Seq<char>,
    ws: WorkspaceView,
    n: int,
    f: int,
)
    requires
        0 <= n <= names.len(),
        0 <= f < config_fixes_in(rule_id, dir, names, old_fqn, new_fqn, ws, n).len(),
    ensures
        exists|k: int|
            0 <= k < n && is_settings_extension(
                extension_of(joined_path(dir, #[trigger] names[k])),
            ) && (text_at(ws, joined_path(dir, names[k])) matches Ok(source) && config_fixes_in(
                rule_id,
                dir,
                names,
                old_fqn,
                new_fqn,
                ws,
                n,
            )[f].file_uri == "file://"@ + joined_path(dir, names[k]) && config_fixes_in(
                rule_id,
                dir,
                names,
                old_fqn,
                new_fqn,
                ws,
                n,
            )[f].edits == config_edits(
                rule_id,
                lines_of(source),
                old_fqn,
                new_fqn,
                lines_of(source).len() as int,
            )),
    decreases n,
{
    if n > 0 {
        let before = config_fixes_in(rule_id, dir, names, old_fqn, new_fqn, ws, n - 1);
        let now = config_fixes_in(rule_id, dir, names, old_fqn, new_fqn, ws, n);
        if f < before.len() {
            lemma_config_fix_from(rule_id, dir, names, old_fqn, new_fqn, ws, n - 1, f);
            assert(now[f] == before[f]);
        } else {
            assert(text_at(ws, joined_path(dir, names[n - 1])) is Ok);
        }
    }
}

/// Nothing else is changed: each fix of a directory is for one of its files
/// with the extension of a configuration file, and each of its edits replaces
/// the name on a line on which it stands.
pub proof fn law_only_the_class_is_renamed_in_configuration_files(
    rule_id: Seq<char>,
    dir: Seq<char>,
    old_fqn: Seq<char>,
    new_fqn: Seq<char>,
    ws: WorkspaceView,
    f: int,
    j: int,
)
    requires
        forall|k: int|
            0 <= k < names_in(ws, dir).len() ==> (text_at(
                ws,
                joined_path(dir, #[trigger] names_in(ws, dir)[k]),
            ) matches Ok(source) ==> lines_of(source).len() <= u32::MAX),
        0 <= f < config_fixes(rule_id, dir, old_fqn, new_fqn, ws).len(),
        0 <= j < config_fixes(rule_id, dir, old_fqn, new_fqn, ws)[f].edits.len(),
    ensures
        ({
            let fix = config_fixes(rule_id, dir, old_fqn, new_fqn, ws)[f];
            let names = names_in(ws, dir);
            exists|k: int, idx: int|
                0 <= k < names.len() && is_settings_extension(
                    extension_of(joined_path(dir, names[k])),
                ) && fix.file_uri == "file://"@ + joined_path(dir, names[k])
                    && #[trigger] is_edit_of_line(
                    ws,
                    joined_path(dir, names[k]),
                    old_fqn,
                    fix.edits[j],
                    idx,
                ) && fix.edits[j].new_text == replaced(fix.edits[j].old_text, old_fqn, new_fqn)
        }),
{
    let names = names_in(ws, dir);
    let fixes = config_fixes(rule_id, dir, old_fqn, new_fqn, ws);
    let n = names.len() as int;
    lemma_config_fix_from(rule_id, dir, names, old_fqn, new_fqn, ws, n, f);
    let k = choose|k: int|
        0 <= k < n && is_settings_extension(extension_of(joined_path(dir, #[trigger] names[k])))
            && (text_at(ws, joined_path(dir, names[k])) matches Ok(source) && fixes[f].file_uri
            == "file://"@ + joined_path(dir, names[k]) && fixes[f].edits == config_edits(
            rule_id,
            lines_of(source),
            old_fqn,
            new_fqn,
            lines_of(source).len() as int,
        ));
    let source = text_at(ws, joined_path(dir, names[k]))->Ok_0;
    let all = lines_of(source);
    lemma_config_sound(rule_id, all, old_fqn, new_fqn, all.len() as int, j);
    let idx = choose|idx: int|
        0 <= idx < all.len() && has_text(#[trigger] all[idx], old_fqn) && rewrites_line(
            fixes[f].edits[j],
            rule_id,
            all,
            idx,
            replaced(all[idx], old_fqn, new_fqn),
        );
    assert(is_edit_of_line(ws, joined_path(dir, names[k]), old_fqn, fixes[f].edits[j], idx));
}

// ---------------------------------------------------------------------
// Tests of a class
// ---------------------------------------------------------------------

/// The ways in which a test of a class is named.
pub open spec fn is_test_name(stem: Seq<char>, name: Seq<char>) -> bool {
    name == stem + "Test.java"@ || name == stem + "Tests.java"@ || name == stem + "IT.java"@
}

/// The directories in which the tests of a class are: its own, and those that
/// mirror it among the tests and the fixtures.
pub open spec fn is_test_dir(path: Seq<char>, dir: Seq<char>) -> bool {
    ||| parent_of(path) == Some(dir)
    ||| has_text(path, "src/main/java/"@) && parent_of(
        replaced(path, "src/main/java/"@, "src/test/java/"@),
    ) == Some(dir)
    ||| has_text(path, "src/main/java/"@) && parent_of(
        replaced(path, "src/main/java/"@, "src/testFixtures/java/"@),
    ) == Some(dir)
}

proof fn lemma_with_file(found: Seq<Seq<char>>, path: Seq<char>, ws: WorkspaceView)
    ensures
        file_at(ws, path) ==> has_path(with_file(found, path, ws), path),
        forall|x: Seq<char>| #[trigger] has_path(found, x) ==> has_path(
            with_file(found, path, ws),
            x,
        ),
{
    let now = with_file(found, path, ws);
    ByPath::order_laws(path, path, path);
    if file_at(ws, path) && !has_path(found, path) {
        assert(now[found.len() as int] == path);
        assert(path_same(now[found.len() as int], path));
    }
    assert forall|x: Seq<char>| #[trigger] has_path(found, x) implies has_path(now, x) by {
        let k = choose|k: int| 0 <= k < found.len() && path_same(#[trigger] found[k], x);
        assert(now[k] == found[k]);
    }
}

proof fn lemma_with_tests(
    found: Seq<Seq<char>>,
    dir: Option<Seq<char>>,
    stem: Seq<char>,
    ws: WorkspaceView,
    name: Seq<char>,
)
    requires
        is_test_name(stem, name),
    ensures
        dir matches Some(d) ==> (file_at(ws, joined_path(d, name)) ==> has_path(
            with_tests_in(found, dir, stem, ws),
            joined_path(d, name),
        )),
        forall|x: Seq<char>| #[trigger] has_path(found, x) ==> has_path(
            with_tests_in(found, dir, stem, ws),
            x,
        ),
{
    match dir {
        Some(d) => {
            let a = joined_path(d, stem + "Test.java"@);
            let b = joined_path(d, stem + "Tests.java"@);
            let c = joined_path(d, stem + "IT.java"@);
            let one = with_file(found, a, ws);
            let two = with_file(one, b, ws);
            lemma_with_file(found, a, ws);
            lemma_with_file(one, b, ws);
            lemma_with_file(two, c, ws);
        },
        None => {},
    }
}

/// Each file that is named like a test of the class, in one of the
/// directories for its tests, is one of its tests.
pub proof fn law_tests_of_a_class_are_found(
    path: Seq<char>,
    ws: WorkspaceView,
    stem: Seq<char>,
    dir: Seq<char>,
    name: Seq<char>,
)
    requires
        stem_of(path) == Some(stem),
        is_test_dir(path, dir),
        is_test_name(stem, name),
        file_at(ws, joined_path(dir, name)),
    ensures
        has_path(companion_tests(path, ws), joined_path(dir, name)),
{
    let first = mirrored_dir(path, "src/test/java/"@);
    let second = mirrored_dir(path, "src/testFixtures/java/"@);
    let third = parent_of(path);
    let none = Seq::<Seq<char>>::empty();
    let one = with_tests_in(none, first, stem, ws);
    let two = with_tests_in(one, second, stem, ws);
    lemma_with_tests(none, first, stem, ws, name);
    lemma_with_tests(one, second, stem, ws, name);
    lemma_with_tests(two, third, stem, ws, name);
}

/// The file is one of the tests that the class can have.
pub open spec fn is_test_of(
    path: Seq<char>,
    stem: Seq<char>,
    ws: WorkspaceView,
    dir: Seq<char>,
    name: Seq<char>,
    file: Seq<char>,
) -> bool {
    &&& is_test_dir(path, dir)
    &&& is_test_name(stem, name)
    &&& file == joined_path(dir, name)
    &&& file_at(ws, file)
}

spec fn is_some_test(path: Seq<char>, stem: Seq<char>, ws: WorkspaceView, file: Seq<char>) -> bool {
    exists|dir: Seq<char>, name: Seq<char>| #[trigger]
        is_test_of(path, stem, ws, dir, name, file)
}

spec fn all_tests(
    path: Seq<char>,
    stem: Seq<char>,
    ws: WorkspaceView,
    found: Seq<Seq<char>>,
) -> bool {
    &&& forall|k: int|
        0 <= k < found.len() ==> is_some_test(path, stem, ws, #[trigger] found[k])
    &&& forall|i: int, j: int|
        0 <= i < j < found.len() ==> !path_same(#[trigger] found[i], #[trigger] found[j])
}

proof fn lemma_file_sound(
    path: Seq<char>,
    stem: Seq<char>,
    ws: WorkspaceView,
    found: Seq<Seq<char>>,
    dir: Seq<char>,
    name: Seq<char>,
)
    requires
        all_tests(path, stem, ws, found),
        is_test_dir(path, dir),
        is_test_name(stem, name),
    ensures
        all_tests(path, stem, ws, with_file(found, joined_path(dir, name), ws)),
{
    let file = joined_path(dir, name);
    let now = with_file(found, file, ws);
    if file_at(ws, file) && !has_path(found, file) {
        assert(is_test_of(path, stem, ws, dir, name, file));
        assert forall|k: int| 0 <= k < now.len() implies is_some_test(
            path,
            stem,
            ws,
            #[trigger] now[k],
        ) by {
            if k < found.len() {
                assert(now[k] == found[k]);
            } else {
                assert(is_test_of(path, stem, ws, dir, name, now[k]));
            }
        }
        assert forall|i: int, j: int| 0 <= i < j < now.len() implies !path_same(
            #[trigger] now[i],
            #[trigger] now[j],
        ) by {
            assert(now[i] == found[i]);
            if j < found.len() {
                assert(now[j] == found[j]);
            }
        }
    }
}

proof fn lemma_dir_sound(
    path: Seq<char>,
    stem: Seq<char>,
    ws: WorkspaceView,
    found: Seq<Seq<char>>,
    dir: Option<Seq<char>>,
)
    requires
        all_tests(path, stem, ws, found),
        dir matches Some(d) ==> is_test_dir(path, d),
    ensures
        all_tests(path, stem, ws, with_tests_in(found, dir, stem, ws)),
{
    match dir {
        Some(d) => {
            let one = with_file(found, joined_path(d, stem + "Test.java"@), ws);
            let two = with_file(one, joined_path(d, stem + "Tests.java"@), ws);
            lemma_file_sound(path, stem, ws, found, d, stem + "Test.java"@);
            lemma_file_sound(path, stem, ws, one, d, stem + "Tests.java"@);
            lemma_file_sound(path, stem, ws, two, d, stem + "IT.java"@);
        },
        None => {},
    }
}

/// Nothing else is found, and no file twice.
pub proof fn law_only_tests_of_the_class_are_found(
    path: Seq<char>,
    ws: WorkspaceView,
    stem: Seq<char>,
    k: int,
    j: int,
)
    requires
        stem_of(path) == Some(stem),
        0 <= k < companion_tests(path, ws).len(),
        0 <= j < companion_tests(path, ws).len(),
    ensures
        exists|dir: Seq<char>, name: Seq<char>| #[trigger]
            is_test_of(path, stem, ws, dir, name, companion_tests(path, ws)[k]),
        k != j ==> !path_same(companion_tests(path, ws)[k], companion_tests(path, ws)[j]),
{
    let none = Seq::<Seq<char>>::empty();
    let first = mirrored_dir(path, "src/test/java/"@);
    let second = mirrored_dir(path, "src/testFixtures/java/"@);
    let one = with_tests_in(none, first, stem, ws);
    let two = with_tests_in(one, second, stem, ws);
    lemma_dir_sound(path, stem, ws, none, first);
    lemma_dir_sound(path, stem, ws, one, second);
    lemma_dir_sound(path, stem, ws, two, parent_of(path));
    let found = companion_tests(path, ws);
    assert(all_tests(path, stem, ws, found));
    assert(is_some_test(path, stem, ws, found[k]));
    ByPath::order_laws(found[k], found[j], found[j]);
    ByPath::order_laws(found[j], found[k], found[k]);
}

// ---------------------------------------------------------------------
// Paths that are left alone
// ---------------------------------------------------------------------

/// The names of directories that no fix is made in.
pub open spec fn left_alone() -> Seq<Seq<char>> {
    seq![
        "target"@,
        "build"@,
        ".gradle"@,
        ".mvn"@,
        ".settings"@,
        ".idea"@,
        ".classpath"@,
        ".project"@,
        "bin"@,
        "out"@,
        "node_modules"@,
    ]
}

/// A path is left alone if and only if one of its components is such a
/// directory.
pub proof fn law_generated_directories_are_left_alone(path: Seq<char>)
    ensures
        in_generated_dir(path) <==> exists|k: int, d: int|
            0 <= k < components(path).len() && 0 <= d < left_alone().len() && #[trigger] components(
                path,
            )[k] == #[trigger] left_alone()[d],
{
    let names = left_alone();
    if in_generated_dir(path) {
        let k = choose|k: int|
            0 <= k < components(path).len() && crate::java::provider::is_generated_dir(
                #[trigger] components(path)[k],
            );
        let x = components(path)[k];
        assert(names[0] == "target"@ && names[1] == "build"@ && names[2] == ".gradle"@ && names[3]
            == ".mvn"@ && names[4] == ".settings"@ && names[5] == ".idea"@ && names[6]
            == ".classpath"@ && names[7] == ".project"@ && names[8] == "bin"@ && names[9] == "out"@
            && names[10] == "node_modules"@);
        let d: int = if x == "target"@ {
            0
        } else if x == "build"@ {
            1
        } else if x == ".gradle"@ {
            2
        } else if x == ".mvn"@ {
            3
        } else if x == ".settings"@ {
            4
        } else if x == ".idea"@ {
            5
        } else if x == ".classpath"@ {
            6
        } else if x == ".project"@ {
            7
        } else if x == "bin"@ {
            8
        } else if x == "out"@ {
            9
        } else {
            10
        };
        assert(components(path)[k] == left_alone()[d]);
    }
}

} // verus!
