use fix_engine::input::{
    build_rule_set, load_strategies_and_families, load_strategies_from_json, read_output,
    read_strategy_entries,
};
use fix_engine::json::Json;
use fix_engine::konveyor::{IncidentParts, SetParts, ViolationParts};
use fix_engine::strategy::FixStrategy;

const JSON_OUTPUT: &str = r#"  [
  {
    "name": "rules",
    "tags": ["x"],
    "violations": {
      "b-rule": {
        "description": "d",
        "category": "mandatory",
        "labels": ["change-type=rename"],
        "incidents": [
          {
            "uri": "file:///p/a.tsx",
            "message": "m",
            "lineNumber": 4,
            "codeSnip": "code",
            "variables": {"propName": "isOn", "count": 2}
          },
          {"fileURI": "file:///p/b.tsx"}
        ]
      },
      "a-rule": {"description": "d"}
    },
    "errors": {"e-rule": "failed"}
  }
]"#;

const YAML_OUTPUT: &str = "- name: rules\n  violations:\n    b-rule:\n      description: d\n      labels:\n      - change-type=rename\n      incidents:\n      - uri: file:///p/a.tsx\n        message: m\n        lineNumber: 4\n        variables:\n          propName: isOn\n  errors:\n    e-rule: failed\n";

#[test]
fn an_analysis_is_read_from_json() {
    let sets = read_output(JSON_OUTPUT).unwrap();
    assert_eq!(sets.len(), 1);
    let set = &sets[0];
    assert_eq!(set.name, "rules");
    assert_eq!(set.violations.len(), 2);
    assert_eq!(set.violations.key(0), "a-rule");
    assert!(set.violations.value(0).incidents.is_empty());
    let violation = set.violations.get("b-rule").unwrap();
    assert_eq!(violation.labels, vec!["change-type=rename"]);
    assert_eq!(violation.incidents.len(), 2);
    let incident = &violation.incidents[0];
    assert_eq!(incident.file_uri, "file:///p/a.tsx");
    assert_eq!(incident.line_number, Some(4));
    assert_eq!(incident.message, "m");
    assert_eq!(incident.code_snip.as_deref(), Some("code"));
    assert_eq!(incident.text_variable("propName"), Some("isOn"));
    assert_eq!(incident.text_variable("count"), None);
    assert!(incident.has_variable("count"));
    assert_eq!(violation.incidents[1].file_uri, "file:///p/b.tsx");
    assert_eq!(violation.incidents[1].line_number, None);
    assert_eq!(set.errors.get("e-rule").map(|e| e.as_str()), Some("failed"));
}

#[test]
fn an_analysis_is_read_from_yaml() {
    let sets = read_output(YAML_OUTPUT).unwrap();
    assert_eq!(sets.len(), 1);
    assert_eq!(sets[0].name, "rules");
    let violation = sets[0].violations.get("b-rule").unwrap();
    assert_eq!(violation.labels, vec!["change-type=rename"]);
    assert_eq!(violation.incidents[0].line_number, Some(4));
    assert_eq!(violation.incidents[0].text_variable("propName"), Some("isOn"));
    assert_eq!(sets[0].errors.len(), 1);
}

#[test]
fn an_analysis_that_cannot_be_read_is_an_error() {
    let json = read_output("[{\"name\": 1}]").unwrap_err();
    assert!(json.contains("expected a string"), "{}", json);
    assert!(read_output("{}").is_err());
    let yaml = read_output("name: x\n").unwrap_err();
    assert!(yaml.contains("expected a sequence"), "{}", yaml);
}

#[test]
fn parts_are_put_into_tables() {
    let incident = IncidentParts {
        file_uri: "file:///a".to_string(),
        line_number: Some(1),
        message: String::new(),
        code_snip: None,
        variables: vec![
            ("z".to_string(), Json(serde_json::Value::Null)),
            ("a".to_string(), Json(serde_json::Value::String("1".to_string()))),
            ("a".to_string(), Json(serde_json::Value::String("2".to_string()))),
        ],
    };
    let set = build_rule_set(SetParts {
        name: "n".to_string(),
        violations: vec![
            (
                "r2".to_string(),
                ViolationParts {
                    labels: vec![],
                    incidents: vec![incident],
                },
            ),
            (
                "r1".to_string(),
                ViolationParts {
                    labels: vec!["l".to_string()],
                    incidents: vec![],
                },
            ),
        ],
        errors: vec![],
    });
    assert_eq!(set.violations.key(0), "r1");
    assert_eq!(set.violations.key(1), "r2");
    let variables = &set.violations.value(1).incidents[0].variables;
    assert_eq!(variables.len(), 2);
    assert_eq!(variables.key(0), "a");
    assert_eq!(set.violations.value(1).incidents[0].text_variable("a"), Some("2"));
}

#[test]
fn test_strategy_entry_json_deserialization() {
    let json = r#"{
            "strategy": "Rename",
            "mappings": [
                {"from": "Chip", "to": "Label"},
                {"from": "ChipGroup", "to": "LabelGroup"}
            ]
        }"#;
    let entries = read_strategy_entries(&format!("{{\"rule\": {}}}", json)).unwrap();
    let entry = entries.get("rule").unwrap();
    assert_eq!(entry.strategy, "Rename");
    assert_eq!(entry.mappings.len(), 2);
    assert_eq!(entry.mappings[0].from.as_deref(), Some("Chip"));
    assert_eq!(entry.mappings[0].to.as_deref(), Some("Label"));
}

const STRATEGIES: &str = r#"{
  "z-rule": {"strategy": "RemoveProp", "component": "A", "prop": "b"},
  "family:Modal": {
    "strategy": "FamilyMigration",
    "from": "f", "to": "t", "replacement": "r", "package": "p", "new_version": "^1",
    "target_structure": "<Modal />",
    "overlap_ratio": 0.5,
    "member_mappings": [{"old_name": "o", "new_name": "n"}],
    "removed_members": ["m"],
    "retained_props": ["title"],
    "prop_to_child": {"b": "B", "a": "A"},
    "unmapped_removed_props": {"u": "U"},
    "removed_children": ["C"],
    "child_props_to_parent": {"C.x": "P.x"},
    "prop_value_changes": {"v": [{"from": "1", "to": "2"}]},
    "prop_type_changes": {"w": [{"from": "string", "to": "number"}]},
    "new_imports": ["I"],
    "removed_imports": ["J"],
    "import_source": "src",
    "exclude_patterns": ["e"],
    "deprecated_migration": {
      "old_package": "old", "new_package": "new",
      "matching_props": [
        {"old_name": "x", "new_name": "y", "old_type": "A", "new_type": "B", "type_changed": true}
      ],
      "new_props": {"q": "Q"},
      "removed_props": ["gone"]
    }
  }
}"#;

#[test]
fn every_field_of_a_strategy_entry_is_read() {
    let entries = read_strategy_entries(STRATEGIES).unwrap();
    assert_eq!(entries.len(), 2);
    let plain = entries.get("z-rule").unwrap();
    assert_eq!(plain.component.as_deref(), Some("A"));
    assert_eq!(plain.prop.as_deref(), Some("b"));
    assert!(plain.prop_type_changes.is_empty());
    assert!(plain.deprecated_migration.is_none());
    let e = entries.get("family:Modal").unwrap();
    assert_eq!(e.strategy, "FamilyMigration");
    assert_eq!(e.from.as_deref(), Some("f"));
    assert_eq!(e.to.as_deref(), Some("t"));
    assert_eq!(e.replacement.as_deref(), Some("r"));
    assert_eq!(e.package.as_deref(), Some("p"));
    assert_eq!(e.new_version.as_deref(), Some("^1"));
    assert_eq!(e.target_structure.as_deref(), Some("<Modal />"));
    assert_eq!(e.member_mappings[0].old_name, "o");
    assert_eq!(e.member_mappings[0].new_name, "n");
    assert_eq!(e.removed_members, vec!["m"]);
    assert_eq!(e.retained_props, vec!["title"]);
    assert_eq!(e.prop_to_child.key(0), "a");
    assert_eq!(e.prop_to_child.value(1), "B");
    assert_eq!(e.unmapped_removed_props.value(0), "U");
    assert_eq!(e.removed_children, vec!["C"]);
    assert_eq!(e.child_props_to_parent.value(0), "P.x");
    assert_eq!(e.prop_value_changes.get("v").unwrap()[0].to.as_deref(), Some("2"));
    assert_eq!(e.prop_type_changes.get("w").unwrap()[0].from.as_deref(), Some("string"));
    assert_eq!(e.new_imports, vec!["I"]);
    assert_eq!(e.removed_imports, vec!["J"]);
    assert_eq!(e.import_source.as_deref(), Some("src"));
    assert_eq!(e.exclude_patterns, vec!["e"]);
    let m = e.deprecated_migration.as_ref().unwrap();
    assert_eq!(m.old_package, "old");
    assert_eq!(m.new_package, "new");
    assert_eq!(m.matching_props[0].new_name, "y");
    assert_eq!(m.matching_props[0].old_type.as_deref(), Some("A"));
    assert_eq!(m.matching_props[0].new_type.as_deref(), Some("B"));
    assert!(m.matching_props[0].type_changed);
    assert_eq!(m.new_props.value(0), "Q");
    assert_eq!(m.removed_props, vec!["gone"]);
}

#[test]
fn strategies_and_families_are_read_from_a_file() {
    let (strategies, families) = load_strategies_and_families(STRATEGIES).unwrap();
    assert_eq!(strategies.len(), 2);
    assert!(matches!(
        strategies.get("z-rule"),
        Some(FixStrategy::RemoveAttribute)
    ));
    assert_eq!(families.len(), 1);
    assert!(families.contains_key("family:Modal"));
    let alone = load_strategies_from_json(STRATEGIES).unwrap();
    assert_eq!(alone.len(), 2);
}

#[test]
fn strategies_that_cannot_be_read_are_an_error() {
    let missing = load_strategies_from_json("{\"r\": {}}").unwrap_err();
    assert!(missing.contains("missing field `strategy`"), "{}", missing);
    let changes = "{\"r\": {\"strategy\": \"Manual\", \"prop_type_changes\": null}}";
    let wrong = load_strategies_and_families(changes).unwrap_err();
    assert!(wrong.contains("expected a map"), "{}", wrong);
}
