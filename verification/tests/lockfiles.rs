use fix_engine::js::lockfile::{
    extract_pnpm_package_name, extract_yarn_entry_name, find_dependent_packages,
    find_dependents_npm, find_dependents_pnpm, find_dependents_yarn,
    find_transitive_ancestor_packages, is_lockfile, parse_direct_dep_names,
};
use fix_engine::workspace::{Node, Workspace};

fn workspace_with(path: &str, text: &str) -> Workspace {
    let mut ws = Workspace::new();
    ws.nodes
        .insert(path.to_string(), Node::File(text.to_string()));
    ws
}

#[test]
fn test_is_lockfile() {
    assert!(is_lockfile("/project/yarn.lock"));
    assert!(is_lockfile("/project/package-lock.json"));
    assert!(is_lockfile("/project/pnpm-lock.yaml"));
    assert!(!is_lockfile("/project/package.json"));
    assert!(!is_lockfile("/project/src/main.ts"));
}

#[test]
fn test_find_dependents_yarn() {
    let content = r#"
"@patternfly/react-core@npm:^5.1.1":
  version: 5.4.14
  dependencies:
    "@patternfly/react-icons": "npm:^5.1.1"
    "@patternfly/react-styles": "npm:^5.1.1"
    tslib: "npm:^2.0.0"

"@patternfly/react-topology@npm:5.2.1":
  version: 5.2.1
  dependencies:
    "@patternfly/react-core": "npm:^5.1.1"
    "@patternfly/react-icons": "npm:^5.1.1"
    d3: "npm:^7.0.0"

"@patternfly/react-log-viewer@npm:5.3.0":
  version: 5.3.0
  dependencies:
    "@patternfly/react-core": "npm:^5.1.1"
    ansi_up: "npm:^5.0.0"

"lodash@npm:^4.17.21":
  version: 4.17.21
"#;

    let result = find_dependents_yarn(content, "@patternfly/react-core");
    assert_eq!(result.len(), 2);
    assert!(result.contains(&"@patternfly/react-topology".to_string()));
    assert!(result.contains(&"@patternfly/react-log-viewer".to_string()));
}

#[test]
fn test_find_dependents_yarn_excludes_self() {
    let content = r#"
"@patternfly/react-core@npm:^5.1.1":
  version: 5.4.14
  dependencies:
    "@patternfly/react-icons": "npm:^5.1.1"
"#;

    let result = find_dependents_yarn(content, "@patternfly/react-icons");
    assert_eq!(result.len(), 1);
    assert_eq!(result[0], "@patternfly/react-core");
}

#[test]
fn test_find_dependents_yarn_peer_deps() {
    let content = r#"
"some-plugin@npm:2.0.0":
  version: 2.0.0
  peerDependencies:
    "@patternfly/react-core": "npm:^5.0.0"
"#;

    let result = find_dependents_yarn(content, "@patternfly/react-core");
    assert_eq!(result.len(), 1);
    assert_eq!(result[0], "some-plugin");
}

#[test]
fn test_find_dependents_npm() {
    let content = r#"{
            "lockfileVersion": 3,
            "packages": {
                "": { "name": "my-app", "version": "1.0.0" },
                "node_modules/@patternfly/react-core": {
                    "version": "5.4.14"
                },
                "node_modules/@patternfly/react-topology": {
                    "version": "5.2.1",
                    "dependencies": {
                        "@patternfly/react-core": "^5.1.1",
                        "d3": "^7.0.0"
                    }
                },
                "node_modules/@patternfly/react-log-viewer": {
                    "version": "5.3.0",
                    "peerDependencies": {
                        "@patternfly/react-core": "^5.1.1"
                    }
                },
                "node_modules/lodash": {
                    "version": "4.17.21"
                }
            }
        }"#;

    let result = find_dependents_npm(content, "@patternfly/react-core");
    assert_eq!(result.len(), 2);
    assert!(result.contains(&"@patternfly/react-topology".to_string()));
    assert!(result.contains(&"@patternfly/react-log-viewer".to_string()));
}

#[test]
fn test_find_dependents_npm_nested_node_modules() {
    let content = r#"{
            "lockfileVersion": 3,
            "packages": {
                "": { "name": "root", "version": "1.0.0" },
                "node_modules/@patternfly/react-topology/node_modules/@patternfly/react-core": {
                    "version": "5.4.14"
                },
                "node_modules/@patternfly/react-topology": {
                    "version": "5.2.1",
                    "dependencies": {
                        "@patternfly/react-core": "^5.1.1"
                    }
                }
            }
        }"#;

    let result = find_dependents_npm(content, "@patternfly/react-core");
    assert_eq!(result.len(), 1);
    assert_eq!(result[0], "@patternfly/react-topology");
}

#[test]
fn test_find_dependents_pnpm_v6() {
    let content = r#"
lockfileVersion: '6.0'

packages:
  /@patternfly/react-core@5.1.1(react@18.2.0):
    resolution: {integrity: sha512-abc}
    dependencies:
      '@patternfly/react-icons': 5.1.1
    dev: false

  /@patternfly/react-topology@5.2.1(react@18.2.0):
    resolution: {integrity: sha512-def}
    dependencies:
      '@patternfly/react-core': 5.1.1(react@18.2.0)
      d3: 7.8.5
    dev: false

  /lodash@4.17.21:
    resolution: {integrity: sha512-ghi}
    dev: false
"#;

    let result = find_dependents_pnpm(content, "@patternfly/react-core");
    assert_eq!(result.len(), 1);
    assert_eq!(result[0], "@patternfly/react-topology");
}

#[test]
fn test_find_dependents_pnpm_v9() {
    let content = r#"
lockfileVersion: '9.0'

packages:
  '@patternfly/react-core@5.1.1':
    resolution: {integrity: sha512-abc}

  '@patternfly/react-topology@5.2.1':
    resolution: {integrity: sha512-def}

snapshots:
  '@patternfly/react-core@5.1.1(react@18.2.0)':
    dependencies:
      '@patternfly/react-icons': 5.1.1

  '@patternfly/react-topology@5.2.1(react@18.2.0)':
    dependencies:
      '@patternfly/react-core': 5.1.1(react@18.2.0)
      d3: 7.8.5
"#;

    let result = find_dependents_pnpm(content, "@patternfly/react-core");
    assert_eq!(result.len(), 1);
    assert_eq!(result[0], "@patternfly/react-topology");
}

#[test]
fn test_extract_yarn_entry_name() {
    assert_eq!(
        extract_yarn_entry_name("\"@patternfly/react-topology@npm:5.2.1\":"),
        Some("@patternfly/react-topology".into())
    );
    assert_eq!(
        extract_yarn_entry_name("\"lodash@npm:^4.17.21, lodash@npm:^4.17.20\":"),
        Some("lodash".into())
    );
    assert_eq!(
        extract_yarn_entry_name("\"react@npm:^18.2.0\":"),
        Some("react".into())
    );
}

#[test]
fn test_extract_pnpm_package_name() {
    assert_eq!(
        extract_pnpm_package_name("/@patternfly/react-topology@5.2.1(react@18.2.0)"),
        Some("@patternfly/react-topology".into())
    );
    assert_eq!(
        extract_pnpm_package_name("@patternfly/react-topology@5.2.1"),
        Some("@patternfly/react-topology".into())
    );
    assert_eq!(
        extract_pnpm_package_name("/lodash@4.17.21"),
        Some("lodash".into())
    );
    assert_eq!(
        extract_pnpm_package_name("lodash@4.17.21"),
        Some("lodash".into())
    );
}

#[test]
fn test_find_dependent_packages_excludes_target() {
    let content = r#"
"@patternfly/react-core@npm:^5.1.1":
  version: 5.4.14
  dependencies:
    "@patternfly/react-icons": "npm:^5.1.1"

"@patternfly/react-topology@npm:5.2.1":
  version: 5.2.1
  dependencies:
    "@patternfly/react-core": "npm:^5.1.1"
"#;
    let ws = workspace_with("/project/yarn.lock", content);

    let result = find_dependent_packages("/project/yarn.lock", "@patternfly/react-core", &ws);
    assert_eq!(result.len(), 1);
    assert_eq!(result[0], "@patternfly/react-topology");
    assert!(!result.contains(&"@patternfly/react-core".to_string()));
}

#[test]
fn test_parse_direct_dep_names() {
    let content = r#"{
            "name": "my-app",
            "dependencies": {
                "@patternfly/react-core": "^5.2.1",
                "lodash": "^4.17.21"
            },
            "devDependencies": {
                "@patternfly/react-topology": "5.2.1",
                "@patternfly/react-log-viewer": "5.3.0"
            }
        }"#;
    let ws = workspace_with("/project/package.json", content);

    let names = parse_direct_dep_names("/project/package.json", &ws);
    assert!(names.contains(&"@patternfly/react-core".to_string()));
    assert!(names.contains(&"lodash".to_string()));
    assert!(names.contains(&"@patternfly/react-topology".to_string()));
    assert!(names.contains(&"@patternfly/react-log-viewer".to_string()));
    assert_eq!(names.len(), 4);
}

#[test]
fn ancestors_are_followed_to_the_top() {
    let content = r#"
"core@npm:1.0.0":
  version: 1.0.0

"middle@npm:1.0.0":
  version: 1.0.0
  dependencies:
    "core": "npm:1.0.0"

"top@npm:1.0.0":
  version: 1.0.0
  dependencies:
    "middle": "npm:1.0.0"
"#;
    let ws = workspace_with("/p/yarn.lock", content);
    assert_eq!(
        find_transitive_ancestor_packages("/p/yarn.lock", "core", &ws),
        vec!["middle", "top"]
    );
    assert_eq!(
        find_transitive_ancestor_packages("/p/yarn.lock", "top", &ws).len(),
        0
    );
}

#[test]
fn a_cycle_of_dependencies_ends() {
    let content = r#"
"a@npm:1.0.0":
  dependencies:
    "b": "npm:1.0.0"

"b@npm:1.0.0":
  dependencies:
    "a": "npm:1.0.0"
"#;
    let ws = workspace_with("/p/yarn.lock", content);
    assert_eq!(
        find_transitive_ancestor_packages("/p/yarn.lock", "a", &ws),
        vec!["b"]
    );
}

#[test]
fn broken_lockfiles_have_no_dependents() {
    assert!(find_dependents_npm("{ broken", "a").is_empty());
    assert!(find_dependents_npm("[1, 2]", "a").is_empty());
    assert!(find_dependents_pnpm(": : :\n\t-", "a").is_empty());
    let ws = Workspace::new();
    assert!(find_dependent_packages("/p/yarn.lock", "a", &ws).is_empty());
    assert!(parse_direct_dep_names("/p/package.json", &ws).is_empty());
    let other = workspace_with("/p/other.lock", "x");
    assert!(find_dependent_packages("/p/other.lock", "a", &other).is_empty());
}

#[test]
fn yarn_entries_without_a_protocol() {
    assert_eq!(
        extract_yarn_entry_name("lodash@^4.17.21:"),
        Some("lodash".to_string())
    );
    assert_eq!(
        extract_yarn_entry_name("\"@scope/name@^1.0.0\":"),
        Some("@scope/name".to_string())
    );
    assert_eq!(extract_yarn_entry_name("nothing"), None);
}

#[test]
fn siblings_do_not_end_a_block_of_dependencies() {
    let content = "\"a@npm:1.0.0\":\n  dependencies:\n    tslib: \"npm:^2.0.0\"\n    \"@s/core\": \"npm:^1.0.0\"\n";
    assert_eq!(find_dependents_yarn(content, "@s/core"), vec!["a"]);
    let blank = "\"a@npm:1.0.0\":\n  dependencies:\n    x: 1\n\n    \"@s/core\": 1\n";
    assert_eq!(find_dependents_yarn(blank, "@s/core"), vec!["a"]);
}

#[test]
fn a_key_at_the_same_level_ends_a_block_of_dependencies() {
    let content = "\"a@npm:1.0.0\":\n  dependencies:\n    x: 1\n  dependenciesMeta:\n    \"@s/core\":\n      optional: true\n";
    assert!(find_dependents_yarn(content, "@s/core").is_empty());
    let next = "\"a@npm:1.0.0\":\n  dependencies:\n    x: 1\n  peerDependencies:\n    y: 1\n    \"@s/core\": 1\n";
    assert_eq!(find_dependents_yarn(next, "@s/core"), vec!["a"]);
    let heading = "\"a@npm:1.0.0\":\n  dependencies:\n    x: 1\n\"b@npm:1.0.0\":\n    \"@s/core\": 1\n";
    assert!(find_dependents_yarn(heading, "@s/core").is_empty());
}

#[test]
fn a_lock_document_without_a_version_is_read() {
    let content = "lockfileVersion: [9]\npackages:\n  /a@1.0.0:\n    dependencies:\n      b: 1.0.0\nsnapshots:\n  c@1.0.0:\n    dependencies:\n      b: 1.0.0\n";
    assert_eq!(find_dependents_pnpm(content, "b"), vec!["a"]);
}
