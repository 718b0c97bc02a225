//! The operations of JavaScript and TypeScript projects.

use crate::js::imports::{dedup_import_specifiers, tidied_lines};
use crate::js::matched::{
    get_matched_text_for_rename_from_incident, get_matched_text_from_incident, matched_for_renames,
    matched_text,
};
use crate::js::npm::{npm_fixes, plan_ensure_npm_dependency};
use crate::js::props::{plan_remove_prop, removal_outcome};
use crate::language::{
    no_fixes, no_texts, none_planned, nothing, Installer, LanguageFixProvider, Outcome, Outcomes,
};
use crate::model::{FixReport, PlannedFix, RenameMapping, RenameMappingView};
use crate::paths::{components, file_name, has_component, join, joined_path, name_of};
use crate::report::{has_var, Incident, IncidentView};
use crate::text::same;
use crate::workspace::{present, text_at, Workspace, WorkspaceView};
use vstd::prelude::*;

verus! {

broadcast use vstd::string::group_string_axioms;

/// The operations of JavaScript and TypeScript projects.
#[derive(Debug, Clone, Copy)]
pub struct JsFixProvider;

impl JsFixProvider {
    /// The operations of JavaScript and TypeScript projects.
    pub fn new() -> (r: JsFixProvider)
        ensures
            r == JsFixProvider,
    {
        JsFixProvider
    }
}

impl Default for JsFixProvider {
    fn default() -> (r: JsFixProvider)
        ensures
            r == JsFixProvider,
    {
        JsFixProvider
    }
}

/// One of the files is a manifest.
pub open spec fn manifest_changed(modified: Seq<Seq<char>>) -> bool {
    exists|k: int| 0 <= k < modified.len() && name_of(#[trigger] modified[k]) == Some(
        "package.json"@,
    )
}

/// The package manager that keeps the lockfile of a project: the one whose
/// lockfile is there, or npm. None runs unless a manifest changed.
pub open spec fn project_installer(
    root: Seq<char>,
    modified: Seq<Seq<char>>,
    ws: WorkspaceView,
) -> Option<Installer> {
    if !manifest_changed(modified) {
        None
    } else if present(ws, joined_path(root, "yarn.lock"@)) {
        Some(Installer::Yarn)
    } else if present(ws, joined_path(root, "pnpm-lock.yaml"@)) {
        Some(Installer::Pnpm)
    } else {
        Some(Installer::Npm)
    }
}

fn has_manifest(modified: &Vec<String>) -> (r: bool)
    ensures
        r == manifest_changed(modified.deep_view()),
{
    let ghost view = modified.deep_view();
    let mut k: usize = 0;
    while k < modified.len()
        invariant
            k <= modified@.len(),
            view == modified.deep_view(),
            forall|j: int|
                0 <= j < k ==> name_of(#[trigger] view[j]) != Some("package.json"@),
        decreases modified@.len() - k,
    {
        assert(view[k as int] == modified@[k as int]@);
        match file_name(modified[k].as_str()) {
            Some(name) => {
                if same(name.as_str(), "package.json") {
                    return true;
                }
            },
            None => {},
        }
        k = k + 1;
    }
    false
}

impl LanguageFixProvider for JsFixProvider {
    open spec fn skips(&self, path: Seq<char>) -> bool {
        components(path).contains("node_modules"@)
    }

    open spec fn tidied(&self, lines: Seq<Seq<char>>) -> Seq<Seq<char>> {
        tidied_lines(lines)
    }

    open spec fn removal(
        &self,
        rule_id: Seq<char>,
        incident: IncidentView,
        path: Seq<char>,
        ws: WorkspaceView,
    ) -> Outcome {
        removal_outcome(rule_id, incident, text_at(ws, path))
    }

    open spec fn dependency(
        &self,
        rule_id: Seq<char>,
        incident: IncidentView,
        package: Seq<char>,
        new_version: Seq<char>,
        path: Seq<char>,
        ws: WorkspaceView,
    ) -> Outcomes {
        Outcomes {
            fixes: npm_fixes(rule_id, incident, package, new_version, path, ws),
            skip: None,
        }
    }

    open spec fn matched(&self, incident: IncidentView) -> Seq<char> {
        matched_text(incident)
    }

    open spec fn matched_for_rename(
        &self,
        incident: IncidentView,
        mappings: Seq<RenameMappingView>,
    ) -> Seq<char> {
        matched_for_renames(incident, mappings)
    }

    open spec fn renames_whole_file(&self, incident: IncidentView) -> bool {
        has_var(incident, "importedName"@)
    }

    open spec fn annotation_rewrite(
        &self,
        rule_id: Seq<char>,
        incident: IncidentView,
        old_param: Seq<char>,
        new_param: Seq<char>,
        value_transform: Seq<char>,
        path: Seq<char>,
        ws: WorkspaceView,
    ) -> Outcome {
        nothing()
    }

    open spec fn import_rename(
        &self,
        rule_id: Seq<char>,
        incident: IncidentView,
        old_fqn: Seq<char>,
        new_fqn: Seq<char>,
        path: Seq<char>,
        ws: WorkspaceView,
    ) -> Outcome {
        nothing()
    }

    open spec fn companions(&self, path: Seq<char>, ws: WorkspaceView) -> Seq<Seq<char>> {
        Seq::empty()
    }

    open spec fn proactive(
        &self,
        rule_id: Seq<char>,
        old_package: Seq<char>,
        new_package: Seq<char>,
        new_version: Seq<char>,
        root: Seq<char>,
        ws: WorkspaceView,
    ) -> Outcomes {
        no_fixes()
    }

    open spec fn config_renames(
        &self,
        rule_id: Seq<char>,
        old_fqn: Seq<char>,
        new_fqn: Seq<char>,
        root: Seq<char>,
        ws: WorkspaceView,
    ) -> Outcomes {
        no_fixes()
    }

    open spec fn installer(
        &self,
        root: Seq<char>,
        modified: Seq<Seq<char>>,
        ws: WorkspaceView,
    ) -> Option<Installer> {
        project_installer(root, modified, ws)
    }

    fn should_skip_path(&self, path: &str) -> (r: bool) {
        has_component(path, "node_modules")
    }

    fn post_process_lines(&self, lines: &mut Vec<String>) {
        dedup_import_specifiers(lines);
    }

    fn plan_remove_attribute(
        &self,
        rule_id: &str,
        incident: &Incident,
        file_path: &str,
        ws: &Workspace,
        report: &mut FixReport,
    ) -> (r: Option<PlannedFix>) {
        plan_remove_prop(rule_id, incident, file_path, ws)
    }

    fn plan_ensure_dependency(
        &self,
        rule_id: &str,
        incident: &Incident,
        package: &str,
        new_version: &str,
        file_path: &str,
        ws: &Workspace,
        report: &mut FixReport,
    ) -> (r: Vec<PlannedFix>) {
        plan_ensure_npm_dependency(rule_id, incident, package, new_version, file_path, ws)
    }

    fn get_matched_text(&self, incident: &Incident) -> (r: String) {
        get_matched_text_from_incident(incident)
    }

    fn get_matched_text_for_rename(
        &self,
        incident: &Incident,
        mappings: &Vec<RenameMapping>,
    ) -> (r: String) {
        get_matched_text_for_rename_from_incident(incident, mappings)
    }

    fn is_whole_file_rename(&self, incident: &Incident) -> (r: bool) {
        incident.has_variable("importedName")
    }

    fn plan_annotation_param_rewrite(
        &self,
        rule_id: &str,
        incident: &Incident,
        old_param: &str,
        new_param: &str,
        value_transform: &str,
        file_path: &str,
        ws: &Workspace,
        report: &mut FixReport,
    ) -> (r: Option<PlannedFix>) {
        None
    }

    fn plan_import_rename(
        &self,
        rule_id: &str,
        incident: &Incident,
        old_fqn: &str,
        new_fqn: &str,
        file_path: &str,
        ws: &Workspace,
        report: &mut FixReport,
    ) -> (r: Option<PlannedFix>) {
        None
    }

    fn discover_companion_test_files(&self, file_path: &str, ws: &Workspace) -> (r: Vec<String>) {
        no_texts()
    }

    fn plan_proactive_dependency(
        &self,
        rule_id: &str,
        old_package: &str,
        new_package: &str,
        new_version: &str,
        project_root: &str,
        ws: &Workspace,
        report: &mut FixReport,
    ) -> (r: Vec<PlannedFix>) {
        none_planned()
    }

    fn plan_config_file_renames(
        &self,
        rule_id: &str,
        old_fqn: &str,
        new_fqn: &str,
        project_root: &str,
        ws: &Workspace,
        report: &mut FixReport,
    ) -> (r: Vec<PlannedFix>) {
        none_planned()
    }

    fn post_apply(&self, project_root: &str, modified_files: &Vec<String>, ws: &Workspace) -> (r:
        Option<Installer>) {
        if !has_manifest(modified_files) {
            return None;
        }
        let yarn = join(project_root, "yarn.lock");
        if ws.has(yarn.as_str()) {
            return Some(Installer::Yarn);
        }
        let pnpm = join(project_root, "pnpm-lock.yaml");
        if ws.has(pnpm.as_str()) {
            return Some(Installer::Pnpm);
        }
        Some(Installer::Npm)
    }
}

} // verus!
