//! What depends on the language of a project: which paths to leave alone,
//! how to remove an attribute, how to bring a dependency to a version, what
//! to tidy up after the edits.

use crate::model::{
    noting, FixReport, PlannedFix, PlannedFixView, RenameMapping, RenameMappingView,
    SkippedIncidentView,
};
use crate::report::{Incident, IncidentView};
use crate::workspace::{Workspace, WorkspaceView};
use vstd::prelude::*;

verus! {

broadcast use vstd::string::group_string_axioms;

/// What came of planning one fix: the fix, where there is one, and the
/// record of an incident that was passed over.
pub ghost struct Outcome {
    pub fix: Option<PlannedFixView>,
    pub skip: Option<SkippedIncidentView>,
}

/// What came of planning any number of fixes.
pub ghost struct Outcomes {
    pub fixes: Seq<PlannedFixView>,
    pub skip: Option<SkippedIncidentView>,
}

/// Nothing was planned and nothing recorded.
pub open spec fn nothing() -> Outcome {
    Outcome { fix: None, skip: None }
}

/// No fixes were planned and nothing recorded.
pub open spec fn no_fixes() -> Outcomes {
    Outcomes { fixes: Seq::empty(), skip: None }
}

/// A package manager to run after the manifest has changed.
#[derive(Debug, Clone, Copy, PartialEq, Eq, Structural)]
pub enum Installer {
    Yarn,
    Pnpm,
    Npm,
}

/// The operations that depend on a language. For each of them a
/// specification function says what it gives.
pub trait LanguageFixProvider: Send + Sync {
    /// The path is left alone during planning.
    spec fn skips(&self, path: Seq<char>) -> bool;

    /// The lines of a file, tidied up after its edits.
    spec fn tidied(&self, lines: Seq<Seq<char>>) -> Seq<Seq<char>>;

    /// The removal of an attribute.
    spec fn removal(
        &self,
        rule_id: Seq<char>,
        incident: IncidentView,
        path: Seq<char>,
        ws: WorkspaceView,
    ) -> Outcome;

    /// The fixes that bring a dependency to a version.
    spec fn dependency(
        &self,
        rule_id: Seq<char>,
        incident: IncidentView,
        package: Seq<char>,
        new_version: Seq<char>,
        path: Seq<char>,
        ws: WorkspaceView,
    ) -> Outcomes;

    /// The text that an incident matched.
    spec fn matched(&self, incident: IncidentView) -> Seq<char>;

    /// The text that an incident matched, in view of the renames.
    spec fn matched_for_rename(
        &self,
        incident: IncidentView,
        mappings: Seq<RenameMappingView>,
    ) -> Seq<char>;

    /// A rename concerns the whole file.
    spec fn renames_whole_file(&self, incident: IncidentView) -> bool;

    /// The rewriting of an annotation's parameter.
    spec fn annotation_rewrite(
        &self,
        rule_id: Seq<char>,
        incident: IncidentView,
        old_param: Seq<char>,
        new_param: Seq<char>,
        value_transform: Seq<char>,
        path: Seq<char>,
        ws: WorkspaceView,
    ) -> Outcome;

    /// The renaming of an import by its full name.
    spec fn import_rename(
        &self,
        rule_id: Seq<char>,
        incident: IncidentView,
        old_fqn: Seq<char>,
        new_fqn: Seq<char>,
        path: Seq<char>,
        ws: WorkspaceView,
    ) -> Outcome;

    /// The test files that belong to a file.
    spec fn companions(&self, path: Seq<char>, ws: WorkspaceView) -> Seq<Seq<char>>;

    /// The dependency fixes of a project without an incident.
    spec fn proactive(
        &self,
        rule_id: Seq<char>,
        old_package: Seq<char>,
        new_package: Seq<char>,
        new_version: Seq<char>,
        root: Seq<char>,
        ws: WorkspaceView,
    ) -> Outcomes;

    /// The renames of full names in configuration files.
    spec fn config_renames(
        &self,
        rule_id: Seq<char>,
        old_fqn: Seq<char>,
        new_fqn: Seq<char>,
        root: Seq<char>,
        ws: WorkspaceView,
    ) -> Outcomes;

    /// The package manager to run after the files have changed.
    spec fn installer(
        &self,
        root: Seq<char>,
        modified: Seq<Seq<char>>,
        ws: WorkspaceView,
    ) -> Option<Installer>;

    /// Whether the path is left alone during planning.
    fn should_skip_path(&self, path: &str) -> (r: bool)
        ensures
            r == self.skips(path@),
    ;

    /// Tidies up the lines of a file after its edits. Lines may be added,
    /// none goes.
    fn post_process_lines(&self, lines: &mut Vec<String>)
        ensures
            final(lines).deep_view() == self.tidied(old(lines).deep_view()),
            final(lines)@.len() >= old(lines)@.len(),
    ;

    /// Plans the removal of an attribute.
    fn plan_remove_attribute(
        &self,
        rule_id: &str,
        incident: &Incident,
        file_path: &str,
        ws: &Workspace,
        report: &mut FixReport,
    ) -> (r: Option<PlannedFix>)
        ensures
            r.deep_view() == self.removal(
                rule_id@,
                incident.deep_view(),
                file_path@,
                ws.deep_view(),
            ).fix,
            final(report).deep_view() == noting(
                old(report).deep_view(),
                self.removal(rule_id@, incident.deep_view(), file_path@, ws.deep_view()).skip,
            ),
    ;

    /// Plans the fixes that bring a dependency to a version.
    fn plan_ensure_dependency(
        &self,
        rule_id: &str,
        incident: &Incident,
        package: &str,
        new_version: &str,
        file_path: &str,
        ws: &Workspace,
        report: &mut FixReport,
    ) -> (r: Vec<PlannedFix>)
        ensures
            r.deep_view() == self.dependency(
                rule_id@,
                incident.deep_view(),
                package@,
                new_version@,
                file_path@,
                ws.deep_view(),
            ).fixes,
            final(report).deep_view() == noting(
                old(report).deep_view(),
                self.dependency(
                    rule_id@,
                    incident.deep_view(),
                    package@,
                    new_version@,
                    file_path@,
                    ws.deep_view(),
                ).skip,
            ),
    ;

    /// The text that an incident matched.
    fn get_matched_text(&self, incident: &Incident) -> (r: String)
        ensures
            r@ == self.matched(incident.deep_view()),
    ;

    /// The text that an incident matched, in view of the renames.
    fn get_matched_text_for_rename(
        &self,
        incident: &Incident,
        mappings: &Vec<RenameMapping>,
    ) -> (r: String)
        ensures
            r@ == self.matched_for_rename(incident.deep_view(), mappings.deep_view()),
    ;

    /// Whether a rename concerns the whole file.
    fn is_whole_file_rename(&self, incident: &Incident) -> (r: bool)
        ensures
            r == self.renames_whole_file(incident.deep_view()),
    ;

    /// Plans the rewriting of an annotation's parameter.
    fn plan_annotation_param_rewrite(
        &self,
        rule_id: &str,
        incident: &Incident,
        old_param: &str,
        new_param: &str,
        value_transform: &str,
        file_path: &str,
        ws: &Workspace,
        report: &mut FixReport,
    ) -> (r: Option<PlannedFix>)
        ensures
            r.deep_view() == self.annotation_rewrite(
                rule_id@,
                incident.deep_view(),
                old_param@,
                new_param@,
                value_transform@,
                file_path@,
                ws.deep_view(),
            ).fix,
            final(report).deep_view() == noting(
                old(report).deep_view(),
                self.annotation_rewrite(
                    rule_id@,
                    incident.deep_view(),
                    old_param@,
                    new_param@,
                    value_transform@,
                    file_path@,
                    ws.deep_view(),
                ).skip,
            ),
    ;

    /// Plans the renaming of an import by its full name.
    fn plan_import_rename(
        &self,
        rule_id: &str,
        incident: &Incident,
        old_fqn: &str,
        new_fqn: &str,
        file_path: &str,
        ws: &Workspace,
        report: &mut FixReport,
    ) -> (r: Option<PlannedFix>)
        ensures
            r.deep_view() == self.import_rename(
                rule_id@,
                incident.deep_view(),
                old_fqn@,
                new_fqn@,
                file_path@,
                ws.deep_view(),
            ).fix,
            final(report).deep_view() == noting(
                old(report).deep_view(),
                self.import_rename(
                    rule_id@,
                    incident.deep_view(),
                    old_fqn@,
                    new_fqn@,
                    file_path@,
                    ws.deep_view(),
                ).skip,
            ),
    ;

    /// The test files that belong to a file.
    fn discover_companion_test_files(&self, file_path: &str, ws: &Workspace) -> (r: Vec<String>)
        ensures
            r.deep_view() == self.companions(file_path@, ws.deep_view()),
    ;

    /// Plans the dependency fixes of a project without an incident.
    fn plan_proactive_dependency(
        &self,
        rule_id: &str,
        old_package: &str,
        new_package: &str,
        new_version: &str,
        project_root: &str,
        ws: &Workspace,
        report: &mut FixReport,
    ) -> (r: Vec<PlannedFix>)
        ensures
            r.deep_view() == self.proactive(
                rule_id@,
                old_package@,
                new_package@,
                new_version@,
                project_root@,
                ws.deep_view(),
            ).fixes,
            final(report).deep_view() == noting(
                old(report).deep_view(),
                self.proactive(
                    rule_id@,
                    old_package@,
                    new_package@,
                    new_version@,
                    project_root@,
                    ws.deep_view(),
                ).skip,
            ),
    ;

    /// Plans the renames of full names in configuration files.
    fn plan_config_file_renames(
        &self,
        rule_id: &str,
        old_fqn: &str,
        new_fqn: &str,
        project_root: &str,
        ws: &Workspace,
        report: &mut FixReport,
    ) -> (r: Vec<PlannedFix>)
        ensures
            r.deep_view() == self.config_renames(
                rule_id@,
                old_fqn@,
                new_fqn@,
                project_root@,
                ws.deep_view(),
            ).fixes,
            final(report).deep_view() == noting(
                old(report).deep_view(),
                self.config_renames(
                    rule_id@,
                    old_fqn@,
                    new_fqn@,
                    project_root@,
                    ws.deep_view(),
                ).skip,
            ),
    ;

    /// The package manager to run after the files have changed.
    fn post_apply(&self, project_root: &str, modified_files: &Vec<String>, ws: &Workspace) -> (r:
        Option<Installer>)
        ensures
            r == self.installer(project_root@, modified_files.deep_view(), ws.deep_view()),
    ;
}

/// The fallback for languages without operations of their own: it leaves no
/// path alone, tidies nothing up and plans nothing.
#[derive(Debug, Clone, Copy)]
pub struct NoOpLanguageFixProvider;

impl LanguageFixProvider for NoOpLanguageFixProvider {
    open spec fn skips(&self, path: Seq<char>) -> bool {
        false
    }

    open spec fn tidied(&self, lines: Seq<Seq<char>>) -> Seq<Seq<char>> {
        lines
    }

    open spec fn removal(
        &self,
        rule_id: Seq<char>,
        incident: IncidentView,
        path: Seq<char>,
        ws: WorkspaceView,
    ) -> Outcome {
        nothing()
    }

    open spec fn dependency(
        &self,
        rule_id: Seq<char>,
        incident: IncidentView,
        package: Seq<char>,
        new_version: Seq<char>,
        path: Seq<char>,
        ws: WorkspaceView,
    ) -> Outcomes {
        no_fixes()
    }

    open spec fn matched(&self, incident: IncidentView) -> Seq<char> {
        Seq::empty()
    }

    open spec fn matched_for_rename(
        &self,
        incident: IncidentView,
        mappings: Seq<RenameMappingView>,
    ) -> Seq<char> {
        Seq::empty()
    }

    open spec fn renames_whole_file(&self, incident: IncidentView) -> bool {
        false
    }

    open spec fn annotation_rewrite(
        &self,
        rule_id: Seq<char>,
        incident: IncidentView,
        old_param: Seq<char>,
        new_param: Seq<char>,
        value_transform: Seq<char>,
        path: Seq<char>,
        ws: WorkspaceView,
    ) -> Outcome {
        nothing()
    }

    open spec fn import_rename(
        &self,
        rule_id: Seq<char>,
        incident: IncidentView,
        old_fqn: Seq<char>,
        new_fqn: Seq<char>,
        path: Seq<char>,
        ws: WorkspaceView,
    ) -> Outcome {
        nothing()
    }

    open spec fn companions(&self, path: Seq<char>, ws: WorkspaceView) -> Seq<Seq<char>> {
        Seq::empty()
    }

    open spec fn proactive(
        &self,
        rule_id: Seq<char>,
        old_package: Seq<char>,
        new_package: Seq<char>,
        new_version: Seq<char>,
        root: Seq<char>,
        ws: WorkspaceView,
    ) -> Outcomes {
        no_fixes()
    }

    open spec fn config_renames(
        &self,
        rule_id: Seq<char>,
        old_fqn: Seq<char>,
        new_fqn: Seq<char>,
        root: Seq<char>,
        ws: WorkspaceView,
    ) -> Outcomes {
        no_fixes()
    }

    open spec fn installer(
        &self,
        root: Seq<char>,
        modified: Seq<Seq<char>>,
        ws: WorkspaceView,
    ) -> Option<Installer> {
        None
    }

    fn should_skip_path(&self, path: &str) -> (r: bool) {
        false
    }

    fn post_process_lines(&self, lines: &mut Vec<String>) {
    }

    fn plan_remove_attribute(
        &self,
        rule_id: &str,
        incident: &Incident,
        file_path: &str,
        ws: &Workspace,
        report: &mut FixReport,
    ) -> (r: Option<PlannedFix>) {
        None
    }

    fn plan_ensure_dependency(
        &self,
        rule_id: &str,
        incident: &Incident,
        package: &str,
        new_version: &str,
        file_path: &str,
        ws: &Workspace,
        report: &mut FixReport,
    ) -> (r: Vec<PlannedFix>) {
        none_planned()
    }

    fn get_matched_text(&self, incident: &Incident) -> (r: String) {
        String::new()
    }

    fn get_matched_text_for_rename(
        &self,
        incident: &Incident,
        mappings: &Vec<RenameMapping>,
    ) -> (r: String) {
        String::new()
    }

    fn is_whole_file_rename(&self, incident: &Incident) -> (r: bool) {
        false
    }

    fn plan_annotation_param_rewrite(
        &self,
        rule_id: &str,
        incident: &Incident,
        old_param: &str,
        new_param: &str,
        value_transform: &str,
        file_path: &str,
        ws: &Workspace,
        report: &mut FixReport,
    ) -> (r: Option<PlannedFix>) {
        None
    }

    fn plan_import_rename(
        &self,
        rule_id: &str,
        incident: &Incident,
        old_fqn: &str,
        new_fqn: &str,
        file_path: &str,
        ws: &Workspace,
        report: &mut FixReport,
    ) -> (r: Option<PlannedFix>) {
        None
    }

    fn discover_companion_test_files(&self, file_path: &str, ws: &Workspace) -> (r: Vec<String>) {
        no_texts()
    }

    fn plan_proactive_dependency(
        &self,
        rule_id: &str,
        old_package: &str,
        new_package: &str,
        new_version: &str,
        project_root: &str,
        ws: &Workspace,
        report: &mut FixReport,
    ) -> (r: Vec<PlannedFix>) {
        none_planned()
    }

    fn plan_config_file_renames(
        &self,
        rule_id: &str,
        old_fqn: &str,
        new_fqn: &str,
        project_root: &str,
        ws: &Workspace,
        report: &mut FixReport,
    ) -> (r: Vec<PlannedFix>) {
        none_planned()
    }

    fn post_apply(&self, project_root: &str, modified_files: &Vec<String>, ws: &Workspace) -> (r:
        Option<Installer>) {
        None
    }
}

/// A list without fixes.
pub fn none_planned() -> (r: Vec<PlannedFix>)
    ensures
        r.deep_view() == Seq::<PlannedFixView>::empty(),
{
    let r: Vec<PlannedFix> = Vec::new();
    assert(r.deep_view() =~= Seq::<PlannedFixView>::empty());
    r
}

/// A list without texts.
pub fn no_texts() -> (r: Vec<String>)
    ensures
        r.deep_view() == Seq::<Seq<char>>::empty(),
{
    let r: Vec<String> = Vec::new();
    assert(r.deep_view() =~= Seq::<Seq<char>>::empty());
    r
}

} // verus!
