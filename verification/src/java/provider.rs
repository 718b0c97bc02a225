//! The operations of Java projects.

use crate::java::annotations::{
    annotation_outcome, annotation_removal, plan_java_annotation_param_rewrite,
    plan_remove_annotation,
};
use crate::java::companions::{companion_tests, discover_java_companion_test_files};
use crate::java::dependencies::{
    plan_config_file_fqn_renames, plan_proactive_java_dependency, proactive_outcomes,
    project_config_fixes,
};
use crate::java::imports::{
    dedup_java_imports, imports_once, resolve_pending_imports, resolved_lines,
};
use crate::java::matched::{
    get_matched_text_for_rename_from_incident, get_matched_text_from_incident, matched_text,
};
use crate::java::rename::{import_rename_outcome, plan_java_import_rename};
use crate::language::{no_fixes, none_planned, Installer, LanguageFixProvider, Outcome, Outcomes};
use crate::model::{FixReport, PlannedFix, RenameMapping, RenameMappingView};
use crate::paths::{components, parts};
use crate::report::{has_var, Incident, IncidentView};
use crate::text::same;
use crate::workspace::{text_at, Workspace, WorkspaceView};
use vstd::prelude::*;

verus! {

broadcast use vstd::string::group_string_axioms;

/// The operations of Java projects.
#[derive(Debug, Clone, Copy)]
pub struct JavaFixProvider;

impl JavaFixProvider {
    /// The operations of Java projects.
    pub fn new() -> (r: JavaFixProvider)
        ensures
            r == JavaFixProvider,
    {
        JavaFixProvider
    }
}

impl Default for JavaFixProvider {
    fn default() -> (r: JavaFixProvider)
        ensures
            r == JavaFixProvider,
    {
        JavaFixProvider
    }
}

/// The directory holds build output, dependencies or the data of a tool.
pub open spec fn is_generated_dir(name: Seq<char>) -> bool {
    name == "target"@ || name == "build"@ || name == ".gradle"@ || name == ".mvn"@ || name
        == ".settings"@ || name == ".idea"@ || name == ".classpath"@ || name == ".project"@ || name
        == "bin"@ || name == "out"@ || name == "node_modules"@
}

fn names_generated_dir(name: &str) -> (r: bool)
    ensures
        r == is_generated_dir(name@),
{
    same(name, "target") || same(name, "build") || same(name, ".gradle") || same(name, ".mvn")
        || same(name, ".settings") || same(name, ".idea") || same(name, ".classpath") || same(
        name,
        ".project",
    ) || same(name, "bin") || same(name, "out") || same(name, "node_modules")
}

/// Some component of the path is such a directory.
pub open spec fn in_generated_dir(path: Seq<char>) -> bool {
    exists|k: int|
        0 <= k < components(path).len() && is_generated_dir(#[trigger] components(path)[k])
}

fn is_in_generated_dir(path: &str) -> (r: bool)
    ensures
        r == in_generated_dir(path@),
{
    let all = parts(path);
    let ghost view = all.deep_view();
    let mut k: usize = 0;
    while k < all.len()
        invariant
            k <= all@.len(),
            view == all.deep_view(),
            view == components(path@),
            forall|j: int| 0 <= j < k ==> !is_generated_dir(#[trigger] view[j]),
        decreases all@.len() - k,
    {
        assert(view[k as int] == all@[k as int]@);
        if names_generated_dir(all[k].as_str()) {
            return true;
        }
        k = k + 1;
    }
    false
}

impl LanguageFixProvider for JavaFixProvider {
    open spec fn skips(&self, path: Seq<char>) -> bool {
        in_generated_dir(path)
    }

    open spec fn tidied(&self, lines: Seq<Seq<char>>) -> Seq<Seq<char>> {
        imports_once(resolved_lines(lines))
    }

    open spec fn removal(
        &self,
        rule_id: Seq<char>,
        incident: IncidentView,
        path: Seq<char>,
        ws: WorkspaceView,
    ) -> Outcome {
        annotation_removal(rule_id, incident, text_at(ws, path))
    }

    open spec fn dependency(
        &self,
        rule_id: Seq<char>,
        incident: IncidentView,
        package: Seq<char>,
        new_version: Seq<char>,
        path: Seq<char>,
        ws: WorkspaceView,
    ) -> Outcomes {
        no_fixes()
    }

    open spec fn matched(&self, incident: IncidentView) -> Seq<char> {
        matched_text(incident)
    }

    open spec fn matched_for_rename(
        &self,
        incident: IncidentView,
        mappings: Seq<RenameMappingView>,
    ) -> Seq<char> {
        matched_text(incident)
    }

    open spec fn renames_whole_file(&self, incident: IncidentView) -> bool {
        has_var(incident, "importedName"@) || has_var(incident, "module"@)
    }

    open spec fn annotation_rewrite(
        &self,
        rule_id: Seq<char>,
        incident: IncidentView,
        old_param: Seq<char>,
        new_param: Seq<char>,
        value_transform: Seq<char>,
        path: Seq<char>,
        ws: WorkspaceView,
    ) -> Outcome {
        annotation_outcome(
            rule_id,
            incident,
            old_param,
            new_param,
            value_transform,
            text_at(ws, path),
        )
    }

    open spec fn import_rename(
        &self,
        rule_id: Seq<char>,
        incident: IncidentView,
        old_fqn: Seq<char>,
        new_fqn: Seq<char>,
        path: Seq<char>,
        ws: WorkspaceView,
    ) -> Outcome {
        import_rename_outcome(rule_id, incident, old_fqn, new_fqn, text_at(ws, path))
    }

    open spec fn companions(&self, path: Seq<char>, ws: WorkspaceView) -> Seq<Seq<char>> {
        companion_tests(path, ws)
    }

    open spec fn proactive(
        &self,
        rule_id: Seq<char>,
        old_package: Seq<char>,
        new_package: Seq<char>,
        new_version: Seq<char>,
        root: Seq<char>,
        ws: WorkspaceView,
    ) -> Outcomes {
        proactive_outcomes(rule_id, old_package, new_package, new_version, root, ws)
    }

    open spec fn config_renames(
        &self,
        rule_id: Seq<char>,
        old_fqn: Seq<char>,
        new_fqn: Seq<char>,
        root: Seq<char>,
        ws: WorkspaceView,
    ) -> Outcomes {
        Outcomes {
            fixes: project_config_fixes(rule_id, old_fqn, new_fqn, root, ws),
            skip: None,
        }
    }

    open spec fn installer(
        &self,
        root: Seq<char>,
        modified: Seq<Seq<char>>,
        ws: WorkspaceView,
    ) -> Option<Installer> {
        None
    }

    fn should_skip_path(&self, path: &str) -> (r: bool) {
        is_in_generated_dir(path)
    }

    fn post_process_lines(&self, lines: &mut Vec<String>) {
        resolve_pending_imports(lines);
        dedup_java_imports(lines);
    }

    fn plan_remove_attribute(
        &self,
        rule_id: &str,
        incident: &Incident,
        file_path: &str,
        ws: &Workspace,
        report: &mut FixReport,
    ) -> (r: Option<PlannedFix>) {
        plan_remove_annotation(rule_id, incident, file_path, ws, report)
    }

    fn plan_ensure_dependency(
        &self,
        rule_id: &str,
        incident: &Incident,
        package: &str,
        new_version: &str,
        file_path: &str,
        ws: &Workspace,
        report: &mut FixReport,
    ) -> (r: Vec<PlannedFix>) {
        none_planned()
    }

    fn get_matched_text(&self, incident: &Incident) -> (r: String) {
        get_matched_text_from_incident(incident)
    }

    fn get_matched_text_for_rename(
        &self,
        incident: &Incident,
        mappings: &Vec<RenameMapping>,
    ) -> (r: String) {
        get_matched_text_for_rename_from_incident(incident, mappings)
    }

    fn is_whole_file_rename(&self, incident: &Incident) -> (r: bool) {
        incident.has_variable("importedName") || incident.has_variable("module")
    }

    fn plan_annotation_param_rewrite(
        &self,
        rule_id: &str,
        incident: &Incident,
        old_param: &str,
        new_param: &str,
        value_transform: &str,
        file_path: &str,
        ws: &Workspace,
        report: &mut FixReport,
    ) -> (r: Option<PlannedFix>) {
        plan_java_annotation_param_rewrite(
            rule_id,
            incident,
            old_param,
            new_param,
            value_transform,
            file_path,
            ws,
            report,
        )
    }

    fn plan_import_rename(
        &self,
        rule_id: &str,
        incident: &Incident,
        old_fqn: &str,
        new_fqn: &str,
        file_path: &str,
        ws: &Workspace,
        report: &mut FixReport,
    ) -> (r: Option<PlannedFix>) {
        plan_java_import_rename(rule_id, incident, old_fqn, new_fqn, file_path, ws, report)
    }

    fn discover_companion_test_files(&self, file_path: &str, ws: &Workspace) -> (r: Vec<String>) {
        discover_java_companion_test_files(file_path, ws)
    }

    fn plan_proactive_dependency(
        &self,
        rule_id: &str,
        old_package: &str,
        new_package: &str,
        new_version: &str,
        project_root: &str,
        ws: &Workspace,
        report: &mut FixReport,
    ) -> (r: Vec<PlannedFix>) {
        plan_proactive_java_dependency(
            rule_id,
            old_package,
            new_package,
            new_version,
            project_root,
            ws,
            report,
        )
    }

    fn plan_config_file_renames(
        &self,
        rule_id: &str,
        old_fqn: &str,
        new_fqn: &str,
        project_root: &str,
        ws: &Workspace,
        report: &mut FixReport,
    ) -> (r: Vec<PlannedFix>) {
        plan_config_file_fqn_renames(rule_id, old_fqn, new_fqn, project_root, ws)
    }

    fn post_apply(&self, project_root: &str, modified_files: &Vec<String>, ws: &Workspace) -> (r:
        Option<Installer>) {
        None
    }
}

} // verus!
