use fix_engine::js::imports::dedup_import_specifiers;
use fix_engine::js::install::{follow_up_command, install_command};
use fix_engine::js::manifest::{
    find_nearest_package_json, find_top_level_dep_blocks, plan_ensure_npm_dependency_inner,
};
use fix_engine::js::matched::{
    get_matched_text_for_rename_from_incident, get_matched_text_from_incident,
};
use fix_engine::js::npm::{plan_ensure_npm_dependency, registry_packages};
use fix_engine::js::peers::parse_yarn_missing_peer_deps;
use fix_engine::js::props::{bracket_depth, plan_remove_prop};
use fix_engine::js::provider::JsFixProvider;
use fix_engine::js::versions::{
    extract_major, parse_semver_tuple, resolve_npm_compatible_version,
};
use fix_engine::json::Json;
use fix_engine::language::{Installer, LanguageFixProvider};
use fix_engine::model::RenameMapping;
use fix_engine::report::Incident;
use fix_engine::table::TextTable;
use fix_engine::workspace::{Node, Workspace};

fn make_test_incident(uri: &str, line: u32, vars: Vec<(&str, &str)>) -> Incident {
    let mut variables = TextTable::new();
    for (k, v) in vars {
        variables.insert(
            k.to_string(),
            Json(serde_json::Value::String(v.to_string())),
        );
    }
    Incident {
        file_uri: uri.to_string(),
        line_number: Some(line),
        message: String::new(),
        code_snip: None,
        variables,
    }
}

fn workspace_with(path: &str, text: &str) -> Workspace {
    let mut ws = Workspace::new();
    ws.nodes
        .insert(path.to_string(), Node::File(text.to_string()));
    ws
}

#[test]
fn test_skip_node_modules() {
    let provider = JsFixProvider::new();
    assert!(provider.should_skip_path("/project/node_modules/@patternfly/react-core/index.js"));
}

#[test]
fn test_skip_nested_node_modules() {
    let provider = JsFixProvider::new();
    assert!(provider.should_skip_path("/project/packages/app/node_modules/foo/bar.ts"));
}

#[test]
fn test_does_not_skip_src() {
    let provider = JsFixProvider::new();
    assert!(!provider.should_skip_path("/project/src/App.tsx"));
}

#[test]
fn test_does_not_skip_vendor() {
    let provider = JsFixProvider::new();
    assert!(!provider.should_skip_path("/project/src/vendor/lib.ts"));
}

#[test]
fn test_whole_file_rename_with_imported_name() {
    let provider = JsFixProvider::new();
    let incident = make_test_incident("file:///test.tsx", 1, vec![("importedName", "Chip")]);
    assert!(provider.is_whole_file_rename(&incident));
}

#[test]
fn test_not_whole_file_rename_without_imported_name() {
    let provider = JsFixProvider::new();
    let incident = make_test_incident("file:///test.tsx", 1, vec![("propName", "isActive")]);
    assert!(!provider.is_whole_file_rename(&incident));
}

#[test]
fn test_bracket_depth_balanced() {
    assert_eq!(bracket_depth("{ foo: bar }"), 0);
    assert_eq!(bracket_depth("foo()"), 0);
    assert_eq!(bracket_depth("[1, 2, 3]"), 0);
    assert_eq!(bracket_depth("{ foo: [1, 2] }"), 0);
}

#[test]
fn test_bracket_depth_open() {
    assert_eq!(bracket_depth("actions={["), 2);
    assert_eq!(bracket_depth("  <Button"), 0);
    assert_eq!(bracket_depth("foo(bar, {"), 2);
}

#[test]
fn test_bracket_depth_close() {
    assert_eq!(bracket_depth("]}"), -2);
    assert_eq!(bracket_depth(")"), -1);
}

#[test]
fn test_bracket_depth_ignores_string_literals() {
    assert_eq!(bracket_depth(r#"  foo="{not a bracket}""#), 0);
    assert_eq!(bracket_depth("  foo='[still not]'"), 0);
}

#[test]
fn test_dedup_import_removes_duplicates() {
    let mut lines =
        vec!["import { Content, Content, Content } from '@patternfly/react-core';".to_string()];
    dedup_import_specifiers(&mut lines);
    let count = lines[0].matches("Content").count();
    assert_eq!(count, 1);
}

#[test]
fn test_dedup_import_preserves_different_specifiers() {
    let mut lines = vec!["import { Foo, Bar, Foo, Baz, Bar } from '@pkg';".to_string()];
    dedup_import_specifiers(&mut lines);
    assert_eq!(lines[0].matches("Foo").count(), 1);
    assert_eq!(lines[0].matches("Bar").count(), 1);
    assert_eq!(lines[0].matches("Baz").count(), 1);
}

#[test]
fn dedup_import_gives_the_whole_line() {
    let mut lines = vec![
        "import { Foo, Bar, Foo } from '@pkg';".to_string(),
        "import Foo from '@pkg';".to_string(),
        "const x = { Foo, Foo };".to_string(),
    ];
    dedup_import_specifiers(&mut lines);
    assert_eq!(lines[0], "import { Foo, Bar } from '@pkg';");
    assert_eq!(lines[1], "import Foo from '@pkg';");
    assert_eq!(lines[2], "const x = { Foo, Foo };");
}

#[test]
fn test_get_matched_text_prop_name_first() {
    let incident = make_test_incident(
        "file:///test.tsx",
        1,
        vec![("propName", "isActive"), ("componentName", "Button")],
    );
    assert_eq!(get_matched_text_from_incident(&incident), "isActive");
}

#[test]
fn test_get_matched_text_empty_when_no_known_vars() {
    let incident = make_test_incident("", 1, vec![]);
    assert_eq!(get_matched_text_from_incident(&incident), "");
}

#[test]
fn test_get_matched_text_for_rename_prefers_prop_name() {
    let incident = make_test_incident("file:///test.tsx", 1, vec![("propName", "spaceItems")]);
    let mappings = vec![RenameMapping {
        old: "spaceItems".into(),
        new: "gap".into(),
    }];
    assert_eq!(
        get_matched_text_for_rename_from_incident(&incident, &mappings),
        "spaceItems"
    );
}

#[test]
fn test_get_matched_text_for_rename_falls_back_to_prop_value() {
    let incident = make_test_incident(
        "file:///test.tsx",
        1,
        vec![("propName", "variant"), ("propValue", "light")],
    );
    let mappings = vec![RenameMapping {
        old: "light".into(),
        new: "secondary".into(),
    }];
    assert_eq!(
        get_matched_text_for_rename_from_incident(&incident, &mappings),
        "light"
    );
}

#[test]
fn test_post_process_deduplicates_imports() {
    let provider = JsFixProvider::new();
    let mut lines = vec![
        "import { Content, Content } from '@patternfly/react-core';".to_string(),
        "const x = 1;".to_string(),
    ];
    provider.post_process_lines(&mut lines);
    assert_eq!(lines[0].matches("Content").count(), 1);
    assert_eq!(lines[1], "const x = 1;");
}

#[test]
fn test_extract_major() {
    assert_eq!(extract_major("^6.4.1"), 6);
    assert_eq!(extract_major("~5.0.0"), 5);
    assert_eq!(extract_major("6.4.1"), 6);
    assert_eq!(extract_major(">=7.0.0"), 7);
    assert_eq!(extract_major("^6.0.0-alpha.1"), 6);
}

#[test]
fn test_parse_semver_tuple() {
    assert_eq!(parse_semver_tuple("6.4.1"), Some((6, 4, 1)));
    assert_eq!(parse_semver_tuple("5.0.0"), Some((5, 0, 0)));
    assert_eq!(parse_semver_tuple("6.0.0-alpha.1"), Some((6, 0, 0)));
}

#[test]
fn versions_that_spell_no_number() {
    assert_eq!(extract_major("latest"), 0);
    assert_eq!(extract_major(""), 0);
    assert_eq!(parse_semver_tuple("latest"), None);
    assert_eq!(parse_semver_tuple("7"), Some((7, 0, 0)));
    assert_eq!(parse_semver_tuple("7.x.3"), Some((7, 0, 3)));
}

fn topology_manifest() -> Workspace {
    workspace_with(
        "/project/package.json",
        r#"{
  "devDependencies": {
    "@patternfly/react-core": "^6.4.1",
    "@patternfly/react-topology": "5.2.1"
  }
}"#,
    )
}

fn topology_incident() -> Incident {
    make_test_incident(
        "file:///project/package.json",
        4,
        vec![
            ("dependencyName", "@patternfly/react-topology"),
            ("dependencyVersion", "5.2.1"),
            ("dependencyType", "devDependencies"),
            ("isDependentOf", "@patternfly/react-core"),
            ("dependentConstraint", "^5.1.1"),
        ],
    )
}

#[test]
fn test_dependent_incident_updates_correct_package() {
    // Without an answer of the registry nothing is planned.
    let mut ws = topology_manifest();
    let incident = topology_incident();
    let result = plan_ensure_npm_dependency(
        "semver-dep-update-patternfly-react-core",
        &incident,
        "@patternfly/react-core",
        "^6.4.1",
        "/project/package.json",
        &ws,
    );
    assert!(result.is_empty());

    // With one, the dependent package is updated.
    ws.registry.insert(
        "@patternfly/react-topology".to_string(),
        r#"{"versions": {
            "5.2.1": {"dependencies": {"@patternfly/react-core": "^5.1.1"}},
            "6.2.0": {"dependencies": {"@patternfly/react-core": "^6.0.0"}},
            "6.10.0": {"peerDependencies": {"@patternfly/react-core": "^6.0.0"}},
            "6.11.0-prerelease.1": {"dependencies": {"@patternfly/react-core": "^6.0.0"}}
        }}"#
        .to_string(),
    );
    let result = plan_ensure_npm_dependency(
        "semver-dep-update-patternfly-react-core",
        &incident,
        "@patternfly/react-core",
        "^6.4.1",
        "/project/package.json",
        &ws,
    );
    let fix = result.first().unwrap();
    assert!(
        fix.description.contains("react-topology"),
        "Fix should target react-topology, got: {}",
        fix.description
    );
    assert!(
        !fix.description.contains("react-core"),
        "Fix should NOT mention react-core as the package to update"
    );
    assert_eq!(fix.edits.len(), 1);
    assert_eq!(fix.edits[0].line, 4);
    assert_eq!(fix.edits[0].old_text, "\"5.2.1\"");
    assert_eq!(fix.edits[0].new_text, "\"^6.10.0\"");
}

#[test]
fn the_registry_is_asked_about_the_dependent_package() {
    let ws = topology_manifest();
    assert_eq!(
        registry_packages(
            &topology_incident(),
            "@patternfly/react-core",
            "/project/package.json",
            &ws
        ),
        vec!["@patternfly/react-topology"]
    );
    let plain = make_test_incident("file:///project/package.json", 3, vec![]);
    assert!(registry_packages(&plain, "x", "/project/package.json", &ws).is_empty());
}

#[test]
fn a_lockfile_incident_updates_direct_dependencies() {
    let mut ws = topology_manifest();
    ws.nodes.insert(
        "/project/yarn.lock".to_string(),
        Node::File(
            "\"@patternfly/react-topology@npm:5.2.1\":\n  dependencies:\n    \"@patternfly/react-core\": \"npm:^5.1.1\"\n\n\"inner@npm:1.0.0\":\n  dependencies:\n    \"@patternfly/react-core\": \"npm:^5.1.1\"\n"
                .to_string(),
        ),
    );
    let incident = make_test_incident("file:///project/yarn.lock", 1, vec![]);
    assert_eq!(
        registry_packages(&incident, "@patternfly/react-core", "/project/yarn.lock", &ws),
        vec!["@patternfly/react-topology"]
    );
    ws.registry.insert(
        "@patternfly/react-topology".to_string(),
        r#"{"versions": {"6.2.0": {}}}"#.to_string(),
    );
    let fixes = plan_ensure_npm_dependency(
        "r",
        &incident,
        "@patternfly/react-core",
        "^6.4.1",
        "/project/yarn.lock",
        &ws,
    );
    assert_eq!(fixes.len(), 1);
    assert_eq!(fixes[0].file_uri, "file:///project/package.json");
    assert_eq!(fixes[0].edits[0].new_text, "\"^6.2.0\"");
}

#[test]
fn the_latest_compatible_release_is_chosen() {
    let mut ws = Workspace::new();
    ws.registry.insert(
        "p".to_string(),
        r#"{"versions": {
            "9.0.0": {"dependencies": {"c": "^5.0.0"}},
            "2.10.0": {"dependencies": {"c": "^6.0.0"}},
            "2.9.0": {"dependencies": {"c": "^6.0.0"}},
            "3.0.0-rc.1": {},
            "odd": {}
        }}"#
        .to_string(),
    );
    assert_eq!(
        resolve_npm_compatible_version("p", "c", 6, &ws),
        Some("^2.10.0".to_string())
    );
    assert_eq!(resolve_npm_compatible_version("q", "c", 6, &ws), None);
    ws.registry.insert("q".to_string(), "no json".to_string());
    assert_eq!(resolve_npm_compatible_version("q", "c", 6, &ws), None);
}

#[test]
fn test_non_dependent_incident_uses_provided_version() {
    let ws = workspace_with(
        "/project/package.json",
        r#"{
  "dependencies": {
    "@patternfly/react-core": "5.3.4"
  }
}"#,
    );
    let incident = make_test_incident("file:///project/package.json", 3, vec![]);

    let result = plan_ensure_npm_dependency(
        "semver-dep-update-patternfly-react-core",
        &incident,
        "@patternfly/react-core",
        "^6.4.1",
        "/project/package.json",
        &ws,
    );

    assert_eq!(
        result.len(),
        1,
        "Should produce exactly one fix for primary dep update"
    );
    let fix = &result[0];
    assert_eq!(fix.edits.len(), 1);
    assert!(fix.edits[0].new_text.contains("6.4.1"));
    assert!(fix.description.contains("react-core"));
}

#[test]
fn a_missing_dependency_is_added_before_the_brace() {
    let ws = workspace_with(
        "/project/package.json",
        "{\n  \"name\": \"a\",\n  \"dependencies\": {\n    \"x\": \"1.0.0\"\n  }\n}\n",
    );
    let fix =
        plan_ensure_npm_dependency_inner("r", "/project/package.json", "y", "^2.0.0", &ws).unwrap();
    assert_eq!(fix.edits.len(), 2);
    assert_eq!(fix.edits[0].line, 4);
    assert_eq!(fix.edits[0].new_text, "    \"x\": \"1.0.0\",");
    assert_eq!(fix.edits[1].line, 5);
    assert_eq!(fix.edits[1].new_text, "    \"y\": \"^2.0.0\"\n  }");
    assert_eq!(fix.edits[1].description, "Add y ^2.0.0 to dependencies");
}

#[test]
fn the_nearest_manifest_is_found() {
    let mut ws = workspace_with("/p/package.json", "{}");
    ws.nodes
        .insert("/p/src/a.ts".to_string(), Node::File(String::new()));
    assert_eq!(
        find_nearest_package_json("/p/src/a.ts", &ws),
        Some("/p/package.json".to_string())
    );
    assert_eq!(find_nearest_package_json("/q/src", &ws), None);
}

#[test]
fn only_top_level_blocks_are_dependency_blocks() {
    let all: Vec<String> = "{\n  \"scripts\": {\n    \"dependencies\": \"x\"\n  },\n  \"dependencies\": {\n    \"a\": \"1\"\n  },\n  \"devDependencies\": {\n  }\n}"
        .lines()
        .map(|s| s.to_string())
        .collect();
    let blocks = find_top_level_dep_blocks(&all);
    assert_eq!(blocks.len(), 2);
    assert_eq!(blocks[0].start, 4);
    assert_eq!(blocks[0].end, 7);
    assert_eq!(blocks[1].start, 7);
    assert_eq!(blocks[1].end, 9);
}

#[test]
fn a_prop_is_removed_from_its_line() {
    let ws = workspace_with(
        "/p/a.tsx",
        "const a = <Button isActive={true} variant=\"x\" />;\n",
    );
    let incident = make_test_incident("file:///p/a.tsx", 1, vec![("propName", "isActive")]);
    let fix = plan_remove_prop("r", &incident, "/p/a.tsx", &ws).unwrap();
    assert_eq!(fix.edits.len(), 1);
    assert_eq!(fix.edits[0].old_text, " isActive={true}");
    assert_eq!(fix.edits[0].new_text, "");
}

#[test]
fn a_prop_over_several_lines_is_removed() {
    let ws = workspace_with(
        "/p/a.tsx",
        "<Modal\n  actions={[\n    <Button />,\n  ]}\n  title=\"x\"\n/>\n",
    );
    let incident = make_test_incident("file:///p/a.tsx", 2, vec![("propName", "actions")]);
    let fix = plan_remove_prop("r", &incident, "/p/a.tsx", &ws).unwrap();
    let touched: Vec<u32> = fix.edits.iter().map(|e| e.line).collect();
    assert_eq!(touched, vec![2, 3, 4]);
}

#[test]
fn parse_yarn_missing_peers_basic() {
    let output = "\
➤ YN0000: · Yarn 4.6.0
➤ YN0002: @patternfly/react-charts@npm:8.4.1 doesn't provide victory (p1a2b3), requested by @patternfly/react-charts.
➤ YN0002: @patternfly/react-charts@npm:8.4.1 doesn't provide victory-core (p4d5e6), requested by some-dep.
➤ YN0000: · Done in 1.5s
";
    let peers = parse_yarn_missing_peer_deps(output);
    assert_eq!(peers.len(), 2);
    assert!(peers.contains(&"victory".to_string()));
    assert!(peers.contains(&"victory-core".to_string()));
}

#[test]
fn parse_yarn_missing_peers_with_ansi() {
    let output = "\x1b[33m➤\x1b[0m \x1b[33mYN0002\x1b[0m: \x1b[38;5;173mfoo@npm:1.0.0\x1b[0m doesn't provide \x1b[38;5;111mbar\x1b[0m (p7g8h9), requested by baz.\n";
    let peers = parse_yarn_missing_peer_deps(output);
    assert_eq!(peers, vec!["bar"]);
}

#[test]
fn parse_yarn_missing_peers_scoped_package() {
    let output = "➤ YN0002: some-pkg@npm:2.0.0 doesn't provide @scope/peer-pkg (pabcde), requested by other-dep.\n";
    let peers = parse_yarn_missing_peer_deps(output);
    assert_eq!(peers, vec!["@scope/peer-pkg"]);
}

#[test]
fn parse_yarn_missing_peers_deduplicates() {
    let output = "\
➤ YN0002: pkg-a@npm:1.0.0 doesn't provide victory (p11111), requested by dep-a.
➤ YN0002: pkg-b@npm:2.0.0 doesn't provide victory (p22222), requested by dep-b.
➤ YN0002: pkg-c@npm:3.0.0 doesn't provide victory (p33333), requested by dep-c.
";
    let peers = parse_yarn_missing_peer_deps(output);
    assert_eq!(peers.len(), 1);
    assert_eq!(peers[0], "victory");
}

#[test]
fn parse_yarn_missing_peers_no_warnings() {
    let output = "➤ YN0000: · Yarn 4.6.0\n➤ YN0000: · Done in 0.5s\n";
    let peers = parse_yarn_missing_peer_deps(output);
    assert!(peers.is_empty());
}

#[test]
fn yarn_adds_the_missing_peers() {
    let output = "➤ YN0002: a@npm:2.0.0 doesn't provide peer (pabcde), requested by b.\n";
    let command = follow_up_command(Installer::Yarn, output).unwrap();
    assert_eq!(command.program, "yarn");
    assert_eq!(command.arguments, vec!["add", "peer", "--ignore-scripts"]);
    assert!(follow_up_command(Installer::Npm, output).is_none());
    assert!(follow_up_command(Installer::Yarn, "done").is_none());
}

#[test]
fn installers_have_their_commands() {
    let yarn = install_command(Installer::Yarn);
    assert_eq!(yarn.program, "yarn");
    assert_eq!(yarn.arguments, vec!["install", "--ignore-scripts"]);
    assert!(yarn.setting.is_none());
    let pnpm = install_command(Installer::Pnpm);
    assert_eq!(pnpm.program, "pnpm");
    assert_eq!(
        pnpm.setting,
        Some(("npm_config_auto_install_peers".to_string(), "true".to_string()))
    );
    let npm = install_command(Installer::Npm);
    assert_eq!(npm.program, "npm");
    assert_eq!(
        npm.arguments,
        vec!["install", "--ignore-scripts", "--no-audit", "--no-fund"]
    );
}

#[test]
fn the_installer_goes_by_the_lockfile() {
    let provider = JsFixProvider::new();
    let changed = vec!["/p/package.json".to_string()];
    let mut ws = workspace_with("/p/package.json", "{}");
    ws.nodes
        .insert("/p/pnpm-lock.yaml".to_string(), Node::File(String::new()));
    assert_eq!(provider.post_apply("/p", &changed, &ws), Some(Installer::Pnpm));
    ws.nodes
        .insert("/p/yarn.lock".to_string(), Node::File(String::new()));
    assert_eq!(provider.post_apply("/p", &changed, &ws), Some(Installer::Yarn));
    assert_eq!(provider.post_apply("/p", &Vec::new(), &ws), None);
}
