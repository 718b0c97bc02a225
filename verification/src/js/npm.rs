//! Bringing an npm dependency to a version.

use crate::js::lockfile::{
    ancestors, direct_names, find_transitive_ancestor_packages, is_lockfile, names_lockfile,
    parse_direct_dep_names,
};
use crate::js::manifest::{
    dependency_fix, find_nearest_package_json, nearest_manifest, plan_ensure_npm_dependency_inner,
};
use crate::js::versions::{
    extract_major, major_of, resolve_npm_compatible_version, resolved_version,
};
use crate::language::{no_texts, none_planned};
use crate::model::{PlannedFix, PlannedFixView};
use crate::report::{text_var, Incident, IncidentView};
use crate::text::owned;
use crate::views::{append_one, has_entry, only};
use crate::workspace::{Workspace, WorkspaceView};
use vstd::prelude::*;

verus! {

broadcast use vstd::string::group_string_axioms;

/// Those of the first `n` names that are among the others.
pub open spec fn common(names: Seq<Seq<char>>, others: Seq<Seq<char>>, n: int) -> Seq<Seq<char>>
    decreases n,
{
    if n <= 0 {
        Seq::empty()
    } else if others.contains(names[n - 1]) {
        common(names, others, n - 1).push(names[n - 1])
    } else {
        common(names, others, n - 1)
    }
}

/// The direct dependencies of a project through which a lockfile brings in
/// the package.
pub open spec fn actionable_parents(
    ws: WorkspaceView,
    lockfile: Seq<char>,
    manifest: Seq<char>,
    package: Seq<char>,
) -> Seq<Seq<char>> {
    let all = ancestors(ws, lockfile, package);
    common(all, direct_names(ws, manifest), all.len() as int)
}

/// A fix as a list, or an empty list.
pub open spec fn listed_fix(fix: Option<PlannedFixView>) -> Seq<PlannedFixView> {
    match fix {
        Some(f) => seq![f],
        None => Seq::empty(),
    }
}

/// The fix that brings a package to the release that goes with a major
/// version of another, where the registry knows one.
pub open spec fn matching_fix(
    rule_id: Seq<char>,
    path: Seq<char>,
    package: Seq<char>,
    other: Seq<char>,
    major: nat,
    ws: WorkspaceView,
) -> Option<PlannedFixView> {
    match resolved_version(ws, package, other, major) {
        Some(version) => dependency_fix(rule_id, path, package, version, ws),
        None => None,
    }
}

/// The fixes for the first `n` parents.
pub open spec fn parent_fixes(
    rule_id: Seq<char>,
    manifest: Seq<char>,
    parents: Seq<Seq<char>>,
    package: Seq<char>,
    major: nat,
    ws: WorkspaceView,
    n: int,
) -> Seq<PlannedFixView>
    decreases n,
{
    if n <= 0 {
        Seq::empty()
    } else {
        parent_fixes(rule_id, manifest, parents, package, major, ws, n - 1) + listed_fix(
            matching_fix(rule_id, manifest, parents[n - 1], package, major, ws),
        )
    }
}

/// The fixes that bring a dependency to a version.
///
/// An incident on a lockfile is about a copy that other packages bring in:
/// those of them that the project lists are brought to releases that go
/// with the new version. An incident that names another package it depends
/// on is about that package. Any other is about the package itself.
pub open spec fn npm_fixes(
    rule_id: Seq<char>,
    incident: IncidentView,
    package: Seq<char>,
    new_version: Seq<char>,
    path: Seq<char>,
    ws: WorkspaceView,
) -> Seq<PlannedFixView> {
    let major = major_of(new_version);
    if names_lockfile(path) {
        match nearest_manifest(ws, path) {
            Some(manifest) => {
                let parents = actionable_parents(ws, path, manifest, package);
                parent_fixes(
                    rule_id,
                    manifest,
                    parents,
                    package,
                    major,
                    ws,
                    parents.len() as int,
                )
            },
            None => Seq::empty(),
        }
    } else {
        match text_var(incident, "isDependentOf"@) {
            Some(other) => match text_var(incident, "dependencyName"@) {
                Some(actual) => listed_fix(
                    matching_fix(rule_id, path, actual, other, major, ws),
                ),
                None => Seq::empty(),
            },
            None => listed_fix(dependency_fix(rule_id, path, package, new_version, ws)),
        }
    }
}

/// The packages about which the registry is asked for an incident.
pub open spec fn registry_questions(
    incident: IncidentView,
    package: Seq<char>,
    path: Seq<char>,
    ws: WorkspaceView,
) -> Seq<Seq<char>> {
    if names_lockfile(path) {
        match nearest_manifest(ws, path) {
            Some(manifest) => actionable_parents(ws, path, manifest, package),
            None => Seq::empty(),
        }
    } else {
        match (text_var(incident, "isDependentOf"@), text_var(incident, "dependencyName"@)) {
            (Some(_), Some(actual)) => seq![actual],
            _ => Seq::empty(),
        }
    }
}

fn find_parents(lockfile: &str, manifest: &str, package: &str, ws: &Workspace) -> (r: Vec<String>)
    ensures
        r.deep_view() == actionable_parents(ws.deep_view(), lockfile@, manifest@, package@),
{
    let direct = parse_direct_dep_names(manifest, ws);
    let all = find_transitive_ancestor_packages(lockfile, package, ws);
    let mut out: Vec<String> = Vec::new();
    let mut i: usize = 0;
    assert(out.deep_view() =~= Seq::<Seq<char>>::empty());
    while i < all.len()
        invariant
            i <= all@.len(),
            out.deep_view() == common(all.deep_view(), direct.deep_view(), i as int),
        decreases all@.len() - i,
    {
        assert(all.deep_view()[i as int] == all@[i as int]@);
        if has_entry(&direct, all[i].as_str()) {
            append_one(&mut out, all[i].clone());
        }
        i = i + 1;
    }
    assert(all.deep_view().len() == all@.len());
    out
}

fn list_fix(fix: Option<PlannedFix>) -> (r: Vec<PlannedFix>)
    ensures
        r.deep_view() == listed_fix(fix.deep_view()),
{
    match fix {
        Some(f) => only(f),
        None => none_planned(),
    }
}

fn plan_matching(
    rule_id: &str,
    path: &str,
    package: &str,
    other: &str,
    major: u64,
    ws: &Workspace,
) -> (r: Option<PlannedFix>)
    ensures
        r.deep_view() == matching_fix(
            rule_id@,
            path@,
            package@,
            other@,
            major as nat,
            ws.deep_view(),
        ),
{
    match resolve_npm_compatible_version(package, other, major, ws) {
        Some(version) => plan_ensure_npm_dependency_inner(
            rule_id,
            path,
            package,
            version.as_str(),
            ws,
        ),
        None => None,
    }
}

/// The packages about which the registry is asked for an incident: those
/// whose releases the planning of its fixes compares.
pub fn registry_packages(incident: &Incident, package: &str, file_path: &str, ws: &Workspace) -> (r:
    Vec<String>)
    ensures
        r.deep_view() == registry_questions(
            incident.deep_view(),
            package@,
            file_path@,
            ws.deep_view(),
        ),
{
    if is_lockfile(file_path) {
        match find_nearest_package_json(file_path, ws) {
            Some(manifest) => find_parents(file_path, manifest.as_str(), package, ws),
            None => no_texts(),
        }
    } else {
        match (incident.text_variable("isDependentOf"), incident.text_variable("dependencyName")) {
            (Some(_), Some(actual)) => only(owned(actual)),
            _ => no_texts(),
        }
    }
}

/// Plans the fixes that bring a dependency to a version.
pub fn plan_ensure_npm_dependency(
    rule_id: &str,
    incident: &Incident,
    package: &str,
    new_version: &str,
    file_path: &str,
    ws: &Workspace,
) -> (r: Vec<PlannedFix>)
    ensures
        r.deep_view() == npm_fixes(
            rule_id@,
            incident.deep_view(),
            package@,
            new_version@,
            file_path@,
            ws.deep_view(),
        ),
{
    let major = extract_major(new_version);
    if is_lockfile(file_path) {
        let manifest = match find_nearest_package_json(file_path, ws) {
            Some(m) => m,
            None => {
                return none_planned();
            },
        };
        let parents = find_parents(file_path, manifest.as_str(), package, ws);
        let mut fixes = none_planned();
        let mut i: usize = 0;
        while i < parents.len()
            invariant
                i <= parents@.len(),
                fixes.deep_view() == parent_fixes(
                    rule_id@,
                    manifest@,
                    parents.deep_view(),
                    package@,
                    major as nat,
                    ws.deep_view(),
                    i as int,
                ),
            decreases parents@.len() - i,
        {
            assert(parents.deep_view()[i as int] == parents@[i as int]@);
            let fix = plan_matching(
                rule_id,
                manifest.as_str(),
                parents[i].as_str(),
                package,
                major,
                ws,
            );
            crate::views::append_all(&mut fixes, list_fix(fix));
            i = i + 1;
        }
        assert(parents.deep_view().len() == parents@.len());
        return fixes;
    }
    match incident.text_variable("isDependentOf") {
        Some(other) => match incident.text_variable("dependencyName") {
            Some(actual) => list_fix(plan_matching(rule_id, file_path, actual, other, major, ws)),
            None => none_planned(),
        },
        None => list_fix(
            plan_ensure_npm_dependency_inner(rule_id, file_path, package, new_version, ws),
        ),
    }
}

} // verus!
