//! What an incident is about, the imports of a file, and what is done after
//! the files are written.

use crate::engine::plan::{classes_of, dead_classes, dead_in_set, dead_in_sets};
use crate::input::output_in;
use crate::java::imports::{import_place, is_import};
use crate::js::imports::{import_names, tidied_lines, tidy_import, trimmed_names};
use crate::js::install::{follow_up_words, install_words};
use crate::js::matched::{list_var, matched_for_renames, renamed_item};
use crate::js::peers::{missing_peers, peer_names, reported_peers};
use crate::js::provider::project_installer;
use crate::json::{json_string, JsonView};
use crate::konveyor::{json_rule_sets, yaml_rule_sets};
use crate::language::Installer;
use crate::laws::tables::law_distinct_holds_each_value_once;
use crate::laws::words::law_trimming_the_start;
use crate::model::RenameMappingView;
use crate::paths::{extension_of, joined_path, name_of, split_at_char};
use crate::report::{text_var, IncidentView, RuleFindingsView, ViolationView};
use crate::syntax_check::{checkable, kind_of, reported_errors, syntax_errors, SourceKind};
use crate::text::{begins, has_text, is_space, joined, trimmed, trimmed_start};
use crate::workspace::{present, text_at, WorkspaceView};
use vstd::prelude::*;

verus! {

broadcast use vstd::string::group_string_axioms;

// ---------------------------------------------------------------------
// What an incident matched
// ---------------------------------------------------------------------

/// The variables that can hold what an incident in a script matched, the most
/// telling one first.
pub open spec fn script_names() -> Seq<Seq<char>> {
    seq!["propName"@, "componentName"@, "importedName"@, "className"@, "variableName"@]
}

/// The same for an incident in Java source.
pub open spec fn java_names() -> Seq<Seq<char>> {
    seq![
        "importedName"@,
        "typeName"@,
        "methodName"@,
        "constructorName"@,
        "annotationName"@,
        "matchingText"@,
    ]
}

/// What an incident in a script matched is the text of the first of the
/// variables that has one.
pub proof fn law_script_incident_matches_the_first_text(incident: IncidentView, k: int)
    requires
        0 <= k <= 5,
        forall|j: int| 0 <= j < k ==> text_var(incident, #[trigger] script_names()[j]) is None,
    ensures
        k < 5 && text_var(incident, script_names()[k]) is Some
            ==> crate::js::matched::matched_text(incident) == text_var(
            incident,
            script_names()[k],
        )->Some_0,
        k == 5 ==> crate::js::matched::matched_text(incident).len() == 0,
{
    let names = script_names();
    assert(names[0] == "propName"@ && names[1] == "componentName"@ && names[2] == "importedName"@
        && names[3] == "className"@ && names[4] == "variableName"@);
    assert(k > 0 ==> text_var(incident, names[0]) is None);
    assert(k > 1 ==> text_var(incident, names[1]) is None);
    assert(k > 2 ==> text_var(incident, names[2]) is None);
    assert(k > 3 ==> text_var(incident, names[3]) is None);
    assert(k > 4 ==> text_var(incident, names[4]) is None);
}

/// The variable has no text, or an empty one.
pub open spec fn is_untold(incident: IncidentView, name: Seq<char>) -> bool {
    text_var(incident, name) matches Some(s) ==> s.len() == 0
}

/// What an incident in Java source matched is the first text of the variables
/// that is not empty.
pub proof fn law_java_incident_matches_the_first_text(incident: IncidentView, k: int)
    requires
        0 <= k <= 6,
        forall|j: int| 0 <= j < k ==> is_untold(incident, #[trigger] java_names()[j]),
    ensures
        k < 6 && !is_untold(incident, java_names()[k])
            ==> crate::java::matched::matched_text(incident) == text_var(
            incident,
            java_names()[k],
        )->Some_0,
        k == 6 ==> crate::java::matched::matched_text(incident).len() == 0,
{
    let names = java_names();
    assert(names[0] == "importedName"@ && names[1] == "typeName"@ && names[2] == "methodName"@
        && names[3] == "constructorName"@ && names[4] == "annotationName"@ && names[5]
        == "matchingText"@);
    assert(k > 0 ==> is_untold(incident, names[0]));
    assert(k > 1 ==> is_untold(incident, names[1]));
    assert(k > 2 ==> is_untold(incident, names[2]));
    assert(k > 3 ==> is_untold(incident, names[3]));
    assert(k > 4 ==> is_untold(incident, names[4]));
    assert(k > 5 ==> is_untold(incident, names[5]));
}

/// The text is the old name of one of the renames.
pub open spec fn is_old_name(mappings: Seq<RenameMappingView>, text: Seq<char>) -> bool {
    exists|k: int| 0 <= k < mappings.len() && (#[trigger] mappings[k]).old == text
}

proof fn lemma_old_name(mappings: Seq<RenameMappingView>, text: Seq<char>, i: int)
    requires
        0 <= i <= mappings.len(),
        forall|k: int| 0 <= k < i ==> (#[trigger] mappings[k]).old != text,
    ensures
        crate::engine::rename::mapping_of(mappings, text, i) is Some <==> is_old_name(
            mappings,
            text,
        ),
    decreases mappings.len() - i,
{
    if i < mappings.len() {
        if mappings[i].old != text {
            lemma_old_name(mappings, text, i + 1);
        }
    }
}

/// Item `k` is the first of the list that is the old name of a rename.
pub open spec fn is_first_renamed(
    items: Seq<JsonView>,
    mappings: Seq<RenameMappingView>,
    k: int,
) -> bool {
    &&& 0 <= k < items.len()
    &&& json_string(items[k]) matches Some(s) && is_old_name(mappings, s)
    &&& forall|j: int|
        0 <= j < k ==> !(json_string(#[trigger] items[j]) matches Some(s) && is_old_name(
            mappings,
            s,
        ))
}

proof fn lemma_renamed_item(
    items: Seq<JsonView>,
    mappings: Seq<RenameMappingView>,
    i: int,
    k: int,
)
    requires
        0 <= i <= k,
        is_first_renamed(items, mappings, k),
    ensures
        renamed_item(items, mappings, i) == json_string(items[k]),
    decreases k - i,
{
    match json_string(items[i]) {
        Some(s) => lemma_old_name(mappings, s, 0),
        None => {},
    }
    if i < k {
        assert(!(json_string(items[i]) matches Some(s) && is_old_name(mappings, s)));
        lemma_renamed_item(items, mappings, i + 1, k);
    }
}

proof fn lemma_no_renamed_item(items: Seq<JsonView>, mappings: Seq<RenameMappingView>, i: int)
    requires
        0 <= i <= items.len(),
        forall|j: int|
            0 <= j < items.len() ==> !(json_string(#[trigger] items[j]) matches Some(s)
                && is_old_name(mappings, s)),
    ensures
        renamed_item(items, mappings, i) is None,
    decreases items.len() - i,
{
    if i < items.len() {
        match json_string(items[i]) {
            Some(s) => lemma_old_name(mappings, s, 0),
            None => {},
        }
        lemma_no_renamed_item(items, mappings, i + 1);
    }
}

/// In view of renames, an incident is about its name where that is renamed,
/// else about its value where that is, else about the first of its values
/// that is, and else about its name.
pub proof fn law_incident_is_about_what_is_renamed(
    incident: IncidentView,
    mappings: Seq<RenameMappingView>,
    k: int,
)
    ensures
        ({
            let name = crate::js::matched::matched_text(incident);
            let value = text_var(incident, "propValue"@);
            let items = list_var(incident, "propObjectValues"@);
            let about = matched_for_renames(incident, mappings);
            let by_value = value matches Some(v) && is_old_name(mappings, v);
            &&& is_old_name(mappings, name) ==> about == name
            &&& !is_old_name(mappings, name) && by_value ==> Some(about) == value
            &&& !is_old_name(mappings, name) && !by_value && is_first_renamed(items, mappings, k)
                ==> Some(about) == json_string(items[k])
            &&& !is_old_name(mappings, name) && !by_value && (forall|j: int|
                0 <= j < items.len() ==> !(json_string(#[trigger] items[j]) matches Some(s)
                    && is_old_name(mappings, s))) ==> about == name
        }),
{
    let name = crate::js::matched::matched_text(incident);
    let value = text_var(incident, "propValue"@);
    let items = list_var(incident, "propObjectValues"@);
    lemma_old_name(mappings, name, 0);
    match value {
        Some(v) => lemma_old_name(mappings, v, 0),
        None => {},
    }
    if is_first_renamed(items, mappings, k) {
        lemma_renamed_item(items, mappings, 0, k);
    }
    if forall|j: int|
        0 <= j < items.len() ==> !(json_string(#[trigger] items[j]) matches Some(s) && is_old_name(
            mappings,
            s,
        )) {
        lemma_no_renamed_item(items, mappings, 0);
    }
}

// ---------------------------------------------------------------------
// CSS classes that are gone
// ---------------------------------------------------------------------

/// The incident names the class.
pub open spec fn names_class(incident: IncidentView, x: Seq<char>) -> bool {
    text_var(incident, "matchingText"@) == Some(x) || text_var(incident, "className"@) == Some(x)
}

/// The violation reports the class as gone.
pub open spec fn reports_gone(v: ViolationView, x: Seq<char>) -> bool {
    v.labels.contains("change-type=css-dead-class"@) && exists|k: int|
        0 <= k < v.incidents.len() && names_class(#[trigger] v.incidents[k], x)
}

proof fn lemma_either<T>(a: Seq<T>, b: Seq<T>, x: T)
    ensures
        (a + b).contains(x) <==> a.contains(x) || b.contains(x),
{
    if a.contains(x) {
        let j = choose|j: int| 0 <= j < a.len() && a[j] == x;
        assert((a + b)[j] == x);
    }
    if b.contains(x) {
        let j = choose|j: int| 0 <= j < b.len() && b[j] == x;
        assert((a + b)[a.len() + j] == x);
    }
    if (a + b).contains(x) {
        let j = choose|j: int| 0 <= j < (a + b).len() && (a + b)[j] == x;
        if j < a.len() {
            assert(a[j] == x);
        } else {
            assert(b[j - a.len()] == x);
        }
    }
}

proof fn lemma_as_list(o: Option<Seq<char>>, x: Seq<char>)
    ensures
        crate::engine::plan::as_list(o).contains(x) <==> o == Some(x),
{
    match o {
        Some(v) => {
            assert(seq![v][0] == v);
        },
        None => {},
    }
}

proof fn lemma_classes(incidents: Seq<IncidentView>, n: int, x: Seq<char>)
    requires
        0 <= n <= incidents.len(),
    ensures
        classes_of(incidents, n).contains(x) <==> exists|k: int|
            0 <= k < n && names_class(#[trigger] incidents[k], x),
    decreases n,
{
    if n > 0 {
        lemma_classes(incidents, n - 1, x);
        let before = classes_of(incidents, n - 1);
        let a = crate::engine::plan::as_list(text_var(incidents[n - 1], "matchingText"@));
        let b = crate::engine::plan::as_list(text_var(incidents[n - 1], "className"@));
        lemma_as_list(text_var(incidents[n - 1], "matchingText"@), x);
        lemma_as_list(text_var(incidents[n - 1], "className"@), x);
        lemma_either(before, a, x);
        lemma_either(before + a, b, x);
        if before.contains(x) {
            let k = choose|k: int| 0 <= k < n - 1 && names_class(#[trigger] incidents[k], x);
            assert(0 <= k < n);
        }
        if names_class(incidents[n - 1], x) {
            assert(0 <= n - 1 < n);
        }
    }
}

proof fn lemma_dead_in_set(violations: Seq<(Seq<char>, ViolationView)>, n: int, x: Seq<char>)
    requires
        0 <= n <= violations.len(),
    ensures
        dead_in_set(violations, n).contains(x) <==> exists|k: int|
            0 <= k < n && reports_gone((#[trigger] violations[k]).1, x),
    decreases n,
{
    if n > 0 {
        lemma_dead_in_set(violations, n - 1, x);
        let v = violations[n - 1].1;
        let before = dead_in_set(violations, n - 1);
        let more = classes_of(v.incidents, v.incidents.len() as int);
        lemma_classes(v.incidents, v.incidents.len() as int, x);
        lemma_either(before, more, x);
        if before.contains(x) {
            let k = choose|k: int| 0 <= k < n - 1 && reports_gone((#[trigger] violations[k]).1, x);
            assert(0 <= k < n);
        }
        if reports_gone(v, x) {
            assert(reports_gone(violations[n - 1].1, x));
        }
    }
}

proof fn lemma_dead_in_sets(output: Seq<RuleFindingsView>, n: int, x: Seq<char>)
    requires
        0 <= n <= output.len(),
    ensures
        dead_in_sets(output, n).contains(x) <==> exists|a: int, k: int|
            0 <= a < n && 0 <= k < output[a].violations.len() && reports_gone(
                (#[trigger] output[a].violations[k]).1,
                x,
            ),
    decreases n,
{
    if n > 0 {
        lemma_dead_in_sets(output, n - 1, x);
        let v = output[n - 1].violations;
        let before = dead_in_sets(output, n - 1);
        let more = dead_in_set(v, v.len() as int);
        lemma_dead_in_set(v, v.len() as int, x);
        lemma_either(before, more, x);
        if before.contains(x) {
            let (a, k) = choose|a: int, k: int|
                0 <= a < n - 1 && 0 <= k < output[a].violations.len() && reports_gone(
                    (#[trigger] output[a].violations[k]).1,
                    x,
                );
            assert(0 <= a < n);
        }
        if more.contains(x) {
            let k = choose|k: int| 0 <= k < v.len() && reports_gone((#[trigger] v[k]).1, x);
            assert(reports_gone(output[n - 1].violations[k].1, x));
        }
        if exists|a: int, k: int|
            0 <= a < n && 0 <= k < output[a].violations.len() && reports_gone(
                (#[trigger] output[a].violations[k]).1,
                x,
            ) {
            let (a, k) = choose|a: int, k: int|
                0 <= a < n && 0 <= k < output[a].violations.len() && reports_gone(
                    (#[trigger] output[a].violations[k]).1,
                    x,
                );
            if a == n - 1 {
                assert(reports_gone(v[k].1, x));
            }
        }
    }
}

/// The classes that are gone are those that the incidents of violations with
/// the label for it name, each once.
pub proof fn law_classes_that_are_gone(output: Seq<RuleFindingsView>, x: Seq<char>)
    ensures
        dead_classes(output).no_duplicates(),
        dead_classes(output).contains(x) <==> exists|a: int, k: int|
            0 <= a < output.len() && 0 <= k < output[a].violations.len() && reports_gone(
                (#[trigger] output[a].violations[k]).1,
                x,
            ),
{
    let all = dead_in_sets(output, output.len() as int);
    law_distinct_holds_each_value_once(all, all.len() as int);
    assert(all.take(all.len() as int) =~= all);
    lemma_dead_in_sets(output, output.len() as int, x);
    assert(dead_classes(output).contains(x) <==> all.contains(x));
}

// ---------------------------------------------------------------------
// Lists of imported names
// ---------------------------------------------------------------------

proof fn lemma_trimmed_names(all: Seq<Seq<char>>, n: int, x: Seq<char>)
    requires
        0 <= n <= all.len(),
    ensures
        trimmed_names(all, n).contains(x) <==> x.len() > 0 && exists|k: int|
            0 <= k < n && trimmed(#[trigger] all[k]) == x,
    decreases n,
{
    if n > 0 {
        lemma_trimmed_names(all, n - 1, x);
        let before = trimmed_names(all, n - 1);
        let now = trimmed_names(all, n);
        if before.contains(x) {
            let j = choose|j: int| 0 <= j < before.len() && before[j] == x;
            assert(now[j] == x);
        }
        if trimmed(all[n - 1]) == x && x.len() > 0 {
            assert(now[before.len() as int] == x);
        }
        if now.contains(x) {
            let j = choose|j: int| 0 <= j < now.len() && now[j] == x;
            if j < before.len() {
                assert(before[j] == x);
            } else {
                assert(trimmed(all[n - 1]) == x);
            }
        }
        if x.len() > 0 && exists|k: int| 0 <= k < n && trimmed(#[trigger] all[k]) == x {
            let k = choose|k: int| 0 <= k < n && trimmed(#[trigger] all[k]) == x;
            if k < n - 1 {
                assert(before.contains(x));
            }
        }
    }
}

/// The names of an import list are the parts between its commas, trimmed,
/// each once; empty parts are none.
pub proof fn law_names_of_an_import_list(list: Seq<char>, x: Seq<char>)
    ensures
        import_names(list).no_duplicates(),
        import_names(list).contains(x) <==> x.len() > 0 && exists|k: int|
            0 <= k < split_at_char(list, ',').len() && trimmed(
                #[trigger] split_at_char(list, ',')[k],
            ) == x,
{
    let all = split_at_char(list, ',');
    let names = trimmed_names(all, all.len() as int);
    lemma_trimmed_names(all, all.len() as int, x);
    law_distinct_holds_each_value_once(names, names.len() as int);
    assert(names.take(names.len() as int) =~= names);
    assert(import_names(list).contains(x) <==> names.contains(x));
}

/// Tidying keeps the number of lines, and a line that imports no names in
/// braces; of one that does, it keeps what stands before the names and behind
/// them.
pub proof fn law_tidying_changes_only_the_names(
    line: Seq<char>,
    groups: Seq<Option<Seq<char>>>,
    before: Seq<char>,
    list: Seq<char>,
    after: Seq<char>,
    all: Seq<Seq<char>>,
)
    ensures
        tidied_lines(all).len() == all.len(),
        tidy_import(line, None) == line,
        groups.len() > 3 && groups[1] == Some(before) && groups[2] == Some(list) && groups[3]
            == Some(after) ==> tidy_import(line, Some(groups)) == before + seq![' '] + joined(
            import_names(list),
            seq![',', ' '],
        ) + seq![' '] + after,
{
    reveal_strlit(" ");
    reveal_strlit(", ");
    assert(" "@ =~= seq![' ']);
    assert(", "@ =~= seq![',', ' ']);
}

/// New imports go behind the last import, and behind the first line where
/// there is none.
pub proof fn law_place_of_new_imports(all: Seq<Seq<char>>, n: int)
    requires
        0 <= n <= all.len(),
    ensures
        forall|k: int| import_place(all, n) <= k < n ==> !is_import(#[trigger] all[k]),
        import_place(all, n) == 1 || (import_place(all, n) <= n && is_import(
            all[import_place(all, n) - 1],
        )),
        (exists|k: int| 0 <= k < n && is_import(#[trigger] all[k])) ==> is_import(
            all[import_place(all, n) - 1],
        ),
    decreases n,
{
    if n > 0 && !is_import(all[n - 1]) {
        law_place_of_new_imports(all, n - 1);
    }
}

// ---------------------------------------------------------------------
// What an analysis is written in
// ---------------------------------------------------------------------

/// The results of an analysis are read as JSON if the first thing in the text
/// that is not white space is a bracket or a brace, and as YAML otherwise.
pub proof fn law_analysis_is_read_by_its_first_character(text: Seq<char>, k: int)
    requires
        0 <= k <= text.len(),
        forall|j: int| 0 <= j < k ==> is_space(#[trigger] text[j]),
        k < text.len() ==> !is_space(text[k]),
    ensures
        k < text.len() && (text[k] == '[' || text[k] == '{') ==> output_in(text) == json_rule_sets(
            text,
        ),
        k == text.len() || (text[k] != '[' && text[k] != '{') ==> output_in(text) == yaml_rule_sets(
            text,
        ),
{
    reveal_strlit("[");
    reveal_strlit("{");
    assert("["@ =~= seq!['[']);
    assert("{"@ =~= seq!['{']);
    law_trimming_the_start(text);
    let t = trimmed_start(text);
    let from = text.len() - t.len();
    if from < k {
        assert(t[0] == text[from]);
        assert(is_space(text[from]));
    }
    if from > k {
        assert(is_space(text[k]));
    }
    if k < text.len() {
        assert(t[0] == text[k]);
        assert(t.subrange(0, 1) =~= seq![text[k]]);
    }
    if begins(t, "["@) {
        assert(t.subrange(0, 1)[0] == '[');
    }
    if begins(t, "{"@) {
        assert(t.subrange(0, 1)[0] == '{');
    }
}

// ---------------------------------------------------------------------
// After the files are written
// ---------------------------------------------------------------------

/// A package manager runs if and only if a manifest was changed: the one
/// whose lockfile the project has, yarn before pnpm, and npm otherwise.
pub proof fn law_installer(root: Seq<char>, modified: Seq<Seq<char>>, ws: WorkspaceView)
    ensures
        project_installer(root, modified, ws) is Some <==> exists|k: int|
            0 <= k < modified.len() && name_of(#[trigger] modified[k]) == Some("package.json"@),
        project_installer(root, modified, ws) == Some(Installer::Yarn) ==> present(
            ws,
            joined_path(root, "yarn.lock"@),
        ),
        project_installer(root, modified, ws) == Some(Installer::Pnpm) ==> present(
            ws,
            joined_path(root, "pnpm-lock.yaml"@),
        ) && !present(ws, joined_path(root, "yarn.lock"@)),
        project_installer(root, modified, ws) == Some(Installer::Npm) ==> !present(
            ws,
            joined_path(root, "yarn.lock"@),
        ) && !present(ws, joined_path(root, "pnpm-lock.yaml"@)),
{
}

/// No scripts of packages are run, whichever manager installs, and what is
/// run is the manager itself.
pub proof fn law_no_scripts_are_run(installer: Installer, output: Seq<char>)
    ensures
        install_words(installer).arguments.contains("--ignore-scripts"@),
        install_words(installer).arguments[0] == "install"@,
        follow_up_words(installer, output) matches Some(words) ==> installer == Installer::Yarn
            && words.program == "yarn"@ && words.arguments[0] == "add"@ && words.arguments.contains(
            "--ignore-scripts"@,
        ) && forall|k: int|
            0 <= k < reported_peers(output).len() ==> words.arguments.contains(
                #[trigger] reported_peers(output)[k],
            ),
        installer == Installer::Yarn && reported_peers(output).len() > 0 ==> follow_up_words(
            installer,
            output,
        ) is Some,
{
    let all = install_words(installer).arguments;
    assert(all[1] == "--ignore-scripts"@);
    match follow_up_words(installer, output) {
        Some(words) => {
            let peers = reported_peers(output);
            let n = peers.len() as int;
            assert(words.arguments[0] == "add"@);
            assert(words.arguments[n + 1] == "--ignore-scripts"@);
            assert forall|k: int| 0 <= k < n implies words.arguments.contains(
                #[trigger] peers[k],
            ) by {
                assert(words.arguments[k + 1] == peers[k]);
            }
        },
        None => {},
    }
}

proof fn lemma_peer_names(warnings: Seq<Seq<Option<Seq<char>>>>, n: int, x: Seq<char>)
    requires
        0 <= n <= warnings.len(),
    ensures
        peer_names(warnings, n).contains(x) <==> exists|k: int|
            0 <= k < n && (#[trigger] warnings[k]).len() > 1 && warnings[k][1] == Some(x),
    decreases n,
{
    if n > 0 {
        lemma_peer_names(warnings, n - 1, x);
        let before = peer_names(warnings, n - 1);
        let now = peer_names(warnings, n);
        let here = warnings[n - 1].len() > 1 && warnings[n - 1][1] == Some(x);
        if before.contains(x) {
            let j = choose|j: int| 0 <= j < before.len() && before[j] == x;
            assert(now[j] == x);
        }
        if here {
            assert(now[before.len() as int] == x);
        }
        if now.contains(x) {
            let j = choose|j: int| 0 <= j < now.len() && now[j] == x;
            if j < before.len() {
                assert(before[j] == x);
            } else {
                assert(here);
            }
        }
        if exists|k: int|
            0 <= k < n && (#[trigger] warnings[k]).len() > 1 && warnings[k][1] == Some(x) {
            let k = choose|k: int|
                0 <= k < n && (#[trigger] warnings[k]).len() > 1 && warnings[k][1] == Some(x);
            if k < n - 1 {
                assert(before.contains(x));
            }
        }
    }
}

/// The missing peers are the names that the warnings give, each once.
pub proof fn law_missing_peers(warnings: Seq<Seq<Option<Seq<char>>>>, x: Seq<char>)
    ensures
        missing_peers(warnings).no_duplicates(),
        missing_peers(warnings).contains(x) <==> exists|k: int|
            0 <= k < warnings.len() && (#[trigger] warnings[k]).len() > 1 && warnings[k][1] == Some(
                x,
            ),
{
    let names = peer_names(warnings, warnings.len() as int);
    lemma_peer_names(warnings, warnings.len() as int, x);
    law_distinct_holds_each_value_once(names, names.len() as int);
    assert(names.take(names.len() as int) =~= names);
    assert(missing_peers(warnings).contains(x) <==> names.contains(x));
}

/// A file is checked by its extension; a text with types is read as such, and
/// a plain script as a module unless it only requires others. What the parser
/// reports is reported: all of it, or the first where it gave up.
pub proof fn law_syntax_is_checked(path: Seq<char>, source: Seq<char>, verdict: (bool, Seq<Seq<char>>))
    ensures
        extension_of(path) == Some("tsx"@) ==> kind_of(path, source) == SourceKind::Tsx && checkable(
            path,
        ),
        extension_of(path) == Some("ts"@) ==> kind_of(path, source) == SourceKind::Ts && checkable(
            path,
        ),
        extension_of(path) == Some("jsx"@) ==> kind_of(path, source) == SourceKind::Module
            && checkable(path),
        extension_of(path) == Some("js"@) ==> checkable(path) && (kind_of(path, source)
            == SourceKind::CommonJs <==> !(has_text(source, "import "@) && (has_text(
            source,
            " from "@,
        ) || has_text(source, "import {"@))) && (has_text(source, "require("@) || has_text(
            source,
            "module.exports"@,
        ))),
        extension_of(path) is None ==> !checkable(path),
        !verdict.0 ==> reported_errors(verdict) == verdict.1,
        verdict.0 && verdict.1.len() > 0 ==> reported_errors(verdict) == seq![verdict.1[0]],
        verdict.0 ==> reported_errors(verdict).len() == 1,
{
    reveal_strlit("tsx");
    reveal_strlit("ts");
    reveal_strlit("mts");
    reveal_strlit("jsx");
    reveal_strlit("js");
    reveal_strlit("cjs");
    assert("tsx"@[0] == 't' && "jsx"@[0] == 'j' && "mts"@[0] == 'm' && "cjs"@[0] == 'c');
    assert("ts"@.len() == 2 && "js"@.len() == 2 && "tsx"@.len() == 3 && "jsx"@.len() == 3
        && "mts"@.len() == 3 && "cjs"@.len() == 3);
    assert("ts"@[0] == 't' && "js"@[0] == 'j');
}

/// A file that cannot be checked has no errors, and one that can but cannot
/// be read has none either: the reason is given.
pub proof fn law_unreadable_file_is_reported(path: Seq<char>, ws: WorkspaceView)
    ensures
        !checkable(path) ==> (syntax_errors(path, ws) matches Ok(errors) && errors.len() == 0),
        checkable(path) && text_at(ws, path) is Err ==> syntax_errors(path, ws) == Err::<
            Seq<Seq<char>>,
            Seq<char>,
        >(text_at(ws, path)->Err_0),
{
}

} // verus!
