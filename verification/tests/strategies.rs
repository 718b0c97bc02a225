use fix_engine::model::{FixPlan, FixResult};
use fix_engine::strategy::{
    format_family_migration_context, format_strategy_context, strategies_and_families,
    strategies_by_rule, strategy_entry_to_fix_strategy, FixStrategy, StrategyEntry,
    MappingEntry, MemberMappingEntry,
};
use fix_engine::table::TextTable;

fn make_strategy_entry(strategy: &str) -> StrategyEntry {
    StrategyEntry::new(strategy)
}

fn mapping(from: &str, to: &str) -> MappingEntry {
    MappingEntry {
        from: Some(from.to_string()),
        to: Some(to.to_string()),
        component: None,
        prop: None,
    }
}

#[test]
fn test_rename_with_top_level_from_to() {
    let mut entry = make_strategy_entry("Rename");
    entry.from = Some("Chip".to_string());
    entry.to = Some("Label".to_string());

    match strategy_entry_to_fix_strategy(&entry) {
        FixStrategy::Rename(mappings) => {
            assert_eq!(mappings.len(), 1);
            assert_eq!(mappings[0].old, "Chip");
            assert_eq!(mappings[0].new, "Label");
        }
        other => panic!("Expected Rename, got {:?}", other),
    }
}

#[test]
fn test_rename_with_mappings_array() {
    let mut entry = make_strategy_entry("Rename");
    entry.mappings = vec![mapping("Chip", "Label"), mapping("ChipGroup", "LabelGroup")];

    match strategy_entry_to_fix_strategy(&entry) {
        FixStrategy::Rename(mappings) => {
            assert_eq!(mappings.len(), 2);
            assert_eq!(mappings[0].old, "Chip");
            assert_eq!(mappings[0].new, "Label");
            assert_eq!(mappings[1].old, "ChipGroup");
            assert_eq!(mappings[1].new, "LabelGroup");
        }
        other => panic!("Expected Rename, got {:?}", other),
    }
}

#[test]
fn test_rename_mappings_take_precedence_over_top_level() {
    let mut entry = make_strategy_entry("Rename");
    entry.from = Some("TopLevel".to_string());
    entry.to = Some("ShouldBeIgnored".to_string());
    entry.mappings = vec![mapping("FromMapping", "ToMapping")];

    match strategy_entry_to_fix_strategy(&entry) {
        FixStrategy::Rename(mappings) => {
            assert_eq!(mappings.len(), 1);
            assert_eq!(mappings[0].old, "FromMapping");
        }
        other => panic!("Expected Rename, got {:?}", other),
    }
}

#[test]
fn test_css_variable_prefix() {
    let mut entry = make_strategy_entry("CssVariablePrefix");
    entry.from = Some("pf-v5-".to_string());
    entry.to = Some("pf-v6-".to_string());

    match strategy_entry_to_fix_strategy(&entry) {
        FixStrategy::CssVariablePrefix {
            old_prefix,
            new_prefix,
            exclude_patterns,
        } => {
            assert_eq!(old_prefix, "pf-v5-");
            assert_eq!(new_prefix, "pf-v6-");
            assert!(exclude_patterns.is_empty());
        }
        other => panic!("Expected CssVariablePrefix, got {:?}", other),
    }
}

#[test]
fn test_css_variable_prefix_missing_fields_falls_to_manual() {
    let entry = make_strategy_entry("CssVariablePrefix");
    match strategy_entry_to_fix_strategy(&entry) {
        FixStrategy::Manual => {}
        other => panic!("Expected Manual, got {:?}", other),
    }
}

#[test]
fn test_import_path_change() {
    let mut entry = make_strategy_entry("ImportPathChange");
    entry.from = Some("@patternfly/react-core/deprecated".to_string());
    entry.to = Some("@patternfly/react-core".to_string());

    match strategy_entry_to_fix_strategy(&entry) {
        FixStrategy::ImportPathChange { old_path, new_path } => {
            assert_eq!(old_path, "@patternfly/react-core/deprecated");
            assert_eq!(new_path, "@patternfly/react-core");
        }
        other => panic!("Expected ImportPathChange, got {:?}", other),
    }
}

#[test]
fn test_import_path_change_missing_fields_falls_to_manual() {
    let mut entry = make_strategy_entry("ImportPathChange");
    entry.from = Some("something".to_string());
    match strategy_entry_to_fix_strategy(&entry) {
        FixStrategy::Manual => {}
        other => panic!("Expected Manual, got {:?}", other),
    }
}

#[test]
fn test_ensure_dependency() {
    let mut entry = make_strategy_entry("EnsureDependency");
    entry.package = Some("@patternfly/react-core".to_string());
    entry.new_version = Some("^6.0.0".to_string());

    match strategy_entry_to_fix_strategy(&entry) {
        FixStrategy::EnsureDependency {
            package,
            new_version,
            ..
        } => {
            assert_eq!(package, "@patternfly/react-core");
            assert_eq!(new_version, "^6.0.0");
        }
        other => panic!("Expected EnsureDependency, got {:?}", other),
    }
}

#[test]
fn test_ensure_dependency_missing_fields_falls_to_manual() {
    let mut entry = make_strategy_entry("EnsureDependency");
    entry.package = Some("something".to_string());
    match strategy_entry_to_fix_strategy(&entry) {
        FixStrategy::Manual => {}
        other => panic!("Expected Manual, got {:?}", other),
    }
}

#[test]
fn test_remove_prop_maps_to_remove_attribute() {
    let entry = make_strategy_entry("RemoveProp");
    match strategy_entry_to_fix_strategy(&entry) {
        FixStrategy::RemoveAttribute => {}
        other => panic!("Expected RemoveAttribute, got {:?}", other),
    }
}

#[test]
fn test_prop_value_change_maps_to_llm() {
    let entry = make_strategy_entry("PropValueChange");
    match strategy_entry_to_fix_strategy(&entry) {
        FixStrategy::Llm { .. } => {}
        other => panic!("Expected Llm, got {:?}", other),
    }
}

#[test]
fn test_unknown_strategy_maps_to_manual() {
    let entry = make_strategy_entry("SomethingUnknown");
    match strategy_entry_to_fix_strategy(&entry) {
        FixStrategy::Manual => {}
        other => panic!("Expected Manual, got {:?}", other),
    }
}

#[test]
fn test_fix_plan_default_is_empty() {
    let plan = FixPlan::default();
    assert!(plan.files.is_empty());
    assert!(plan.manual.is_empty());
    assert!(plan.pending_llm.is_empty());
}

#[test]
fn test_fix_result_default_is_zero() {
    let result = FixResult::default();
    assert_eq!(result.files_modified, 0);
    assert_eq!(result.edits_applied, 0);
    assert_eq!(result.edits_skipped, 0);
    assert!(result.errors.is_empty());
}

#[test]
fn rename_without_names_is_manual() {
    let entry = make_strategy_entry("Rename");
    assert!(matches!(
        strategy_entry_to_fix_strategy(&entry),
        FixStrategy::Manual
    ));
}

#[test]
fn half_named_mappings_are_left_out() {
    let mut entry = make_strategy_entry("Rename");
    let mut half = mapping("Half", "Gone");
    half.to = None;
    entry.mappings = vec![half, mapping("Chip", "Label")];
    match strategy_entry_to_fix_strategy(&entry) {
        FixStrategy::Rename(mappings) => {
            assert_eq!(mappings.len(), 1);
            assert_eq!(mappings[0].old, "Chip");
        }
        other => panic!("Expected Rename, got {:?}", other),
    }
}

#[test]
fn context_of_a_bare_entry_names_the_strategy() {
    let entry = make_strategy_entry("PropTypeChange");
    assert_eq!(format_strategy_context(&entry), "Strategy: PropTypeChange");
}

#[test]
fn context_lists_what_the_entry_has() {
    let mut entry = make_strategy_entry("PropTypeChange");
    entry.component = Some("MenuToggle".to_string());
    entry.prop = Some("splitButtonOptions".to_string());
    entry.from = Some("SplitButtonOptions".to_string());
    entry.to = Some("ReactNode[]".to_string());
    let text = format_strategy_context(&entry);
    assert!(text.starts_with("Strategy: PropTypeChange\n"));
    assert!(text.contains("Component: MenuToggle"));
    assert!(text.contains("Prop: splitButtonOptions"));
    assert!(text.contains("From: SplitButtonOptions"));
    assert!(text.contains("To: ReactNode[]"));
}

#[test]
fn context_names_matching_members() {
    let mut entry = make_strategy_entry("PropToChild");
    entry.member_mappings = vec![MemberMappingEntry {
        old_name: "title".to_string(),
        new_name: "ModalHeader".to_string(),
    }];
    let text = format_strategy_context(&entry);
    assert!(text.contains("title"));
    assert!(text.contains("ModalHeader"));
}

#[test]
fn family_context_shows_the_target() {
    let mut entry = make_strategy_entry("FamilyMigration");
    entry.target_structure = Some("<Modal />".to_string());
    entry.retained_props = vec!["title".to_string(), "isOpen".to_string()];
    let text = format_family_migration_context(&entry);
    assert!(text.starts_with("Strategy: FamilyMigration\n"));
    assert!(text.contains("<Modal />"));
    assert!(text.contains("Props that stay on root: title, isOpen"));
}

#[test]
fn families_are_loaded_beside_strategies() {
    let mut entries = TextTable::new();
    entries.insert("family:Modal".to_string(), make_strategy_entry("FamilyMigration"));
    entries.insert("remove-x".to_string(), make_strategy_entry("RemoveProp"));
    let alone = strategies_by_rule(&entries);
    assert_eq!(alone.len(), 2);
    let (strategies, families) = strategies_and_families(entries);
    assert_eq!(strategies.len(), 2);
    assert!(matches!(
        strategies.get("remove-x"),
        Some(FixStrategy::RemoveAttribute)
    ));
    assert!(matches!(
        strategies.get("family:Modal"),
        Some(FixStrategy::Llm { context: Some(_) })
    ));
    assert_eq!(families.len(), 1);
    assert!(families.contains_key("family:Modal"));
    assert!(!families.contains_key("remove-x"));
}

#[test]
fn later_strategies_override_earlier_ones() {
    let mut first = TextTable::new();
    first.insert("a".to_string(), FixStrategy::Manual);
    first.insert("b".to_string(), FixStrategy::Manual);
    let mut second = TextTable::new();
    second.insert("b".to_string(), FixStrategy::RemoveAttribute);
    second.insert("c".to_string(), FixStrategy::RemoveAttribute);
    first.extend(second);
    assert_eq!(first.len(), 3);
    assert!(matches!(first.get("a"), Some(FixStrategy::Manual)));
    assert!(matches!(first.get("b"), Some(FixStrategy::RemoveAttribute)));
    assert!(matches!(first.get("c"), Some(FixStrategy::RemoveAttribute)));
    assert!(first.get("d").is_none());
}
