use fix_engine::context::{FixContext, GenericFixContext};
use fix_engine::language::{LanguageFixProvider, NoOpLanguageFixProvider};
use fix_engine::model::FixReport;
use fix_engine::registry::FixContextRegistry;
use fix_engine::report::Incident;
use fix_engine::table::TextTable;
use fix_engine::workspace::Workspace;

#[test]
fn test_generic_context_defaults() {
    let ctx = GenericFixContext;
    assert_eq!(ctx.ruleset_name(), "");
    assert_eq!(ctx.migration_description(), "code migration");
    assert!(ctx.llm_constraints().is_empty());
    assert!(ctx.revert_warnings().is_none());
    assert_eq!(ctx.fix_priority("any-rule"), 3);
}

#[test]
fn test_generic_context_system_prompt() {
    let ctx = GenericFixContext;
    let prompt = ctx.llm_system_prompt();
    assert!(prompt.contains("code migration"));
    assert!(prompt.contains("```fix"));
    assert!(prompt.contains("LINE:"));
}

#[test]
fn generic_context_names_kinds_of_changes() {
    let ctx = GenericFixContext;
    assert_eq!(
        ctx.change_type_examples(),
        "add/remove/rename identifiers, update references"
    );
    assert!(ctx.verification_prompt().is_none());
}

struct TestContext {
    name: String,
}

impl FixContext for TestContext {
    fn ruleset_name(&self) -> &str {
        &self.name
    }

    fn migration_description(&self) -> &str {
        "test migration"
    }

    fn llm_constraints(&self) -> &[String] {
        &[]
    }
}

#[test]
fn test_registry_fallback() {
    let registry = FixContextRegistry::new();
    let ctx = registry.get("nonexistent");
    assert_eq!(ctx.migration_description(), "code migration");
}

#[test]
fn test_registry_register_and_lookup() {
    let mut registry = FixContextRegistry::new();
    registry.register(Box::new(TestContext {
        name: "test-rules".to_string(),
    }));

    let ctx = registry.get("test-rules");
    assert_eq!(ctx.migration_description(), "test migration");
    assert!(registry.has("test-rules"));
    assert!(!registry.has("other-rules"));
}

#[test]
fn test_registry_unknown_returns_fallback() {
    let mut registry = FixContextRegistry::new();
    registry.register(Box::new(TestContext {
        name: "test-rules".to_string(),
    }));

    let ctx = registry.get("unknown-rules");
    assert_eq!(ctx.migration_description(), "code migration");
}

struct Described {
    description: String,
}

impl FixContext for Described {
    fn ruleset_name(&self) -> &str {
        "rules"
    }

    fn migration_description(&self) -> &str {
        &self.description
    }

    fn llm_constraints(&self) -> &[String] {
        &[]
    }
}

#[test]
fn registering_again_replaces_the_context() {
    let mut registry = FixContextRegistry::default();
    registry.register(Box::new(TestContext {
        name: "other".to_string(),
    }));
    registry.register(Box::new(Described {
        description: "first".to_string(),
    }));
    registry.register(Box::new(Described {
        description: "second".to_string(),
    }));
    let ctx = registry.get("rules");
    assert_eq!(ctx.ruleset_name(), "rules");
    assert_eq!(ctx.migration_description(), "second");
    assert!(ctx.llm_system_prompt().starts_with("You are a second assistant."));
    assert_eq!(registry.get("other").migration_description(), "test migration");
}

struct Outspoken {
    constraints: Vec<String>,
}

impl FixContext for Outspoken {
    fn ruleset_name(&self) -> &str {
        "outspoken"
    }

    fn migration_description(&self) -> &str {
        "a to b"
    }

    fn llm_constraints(&self) -> &[String] {
        &self.constraints
    }

    fn revert_warnings(&self) -> Option<&str> {
        Some("keep b")
    }

    fn fix_priority(&self, rule_id: &str) -> u8 {
        if rule_id == "first" {
            1
        } else {
            2
        }
    }

    fn change_type_examples(&self) -> &str {
        "swap a for b"
    }

    fn verification_prompt(&self) -> Option<&str> {
        Some("look for a")
    }

    fn llm_system_prompt(&self) -> String {
        "prompt".to_string()
    }
}

#[test]
fn what_a_registered_context_says_comes_through() {
    let mut registry = FixContextRegistry::new();
    registry.register(Box::new(Outspoken {
        constraints: vec!["no a".to_string()],
    }));
    let ctx = registry.get("outspoken");
    assert_eq!(ctx.llm_constraints(), ["no a".to_string()]);
    assert_eq!(ctx.revert_warnings(), Some("keep b"));
    assert_eq!(ctx.fix_priority("first"), 1);
    assert_eq!(ctx.fix_priority("other"), 2);
    assert_eq!(ctx.change_type_examples(), "swap a for b");
    assert_eq!(ctx.verification_prompt(), Some("look for a"));
    assert_eq!(ctx.llm_system_prompt(), "prompt");
    let other = registry.get("other");
    assert!(other.llm_constraints().is_empty());
    assert!(other.revert_warnings().is_none());
    assert_eq!(other.fix_priority("first"), 3);
    assert!(other
        .llm_system_prompt()
        .starts_with("You are a code migration assistant."));
}

#[test]
fn test_noop_provider_skips_nothing() {
    let provider = NoOpLanguageFixProvider;
    assert!(!provider.should_skip_path("/some/path"));
    assert!(!provider.should_skip_path("/node_modules/foo"));
}

#[test]
fn test_noop_provider_no_post_processing() {
    let provider = NoOpLanguageFixProvider;
    let mut lines = vec!["import { Foo, Foo } from 'bar';".to_string()];
    provider.post_process_lines(&mut lines);
    assert_eq!(lines[0], "import { Foo, Foo } from 'bar';");
}

fn bare_incident(uri: &str) -> Incident {
    Incident {
        file_uri: uri.to_string(),
        line_number: Some(1),
        message: String::new(),
        code_snip: None,
        variables: TextTable::new(),
    }
}

#[test]
fn test_noop_provider_returns_none_for_remove() {
    let provider = NoOpLanguageFixProvider;
    let incident = bare_incident("file:///test.rs");
    let ws = Workspace::new();
    let mut report = FixReport::new();
    assert!(provider
        .plan_remove_attribute("rule", &incident, "/test.rs", &ws, &mut report)
        .is_none());
}

#[test]
fn test_noop_provider_returns_none_for_ensure_dependency() {
    let provider = NoOpLanguageFixProvider;
    let incident = bare_incident("file:///test.rs");
    let ws = Workspace::new();
    let mut report = FixReport::new();
    assert!(provider
        .plan_ensure_dependency("rule", &incident, "pkg", "1.0.0", "/test.rs", &ws, &mut report)
        .is_empty());
}

#[test]
fn test_noop_provider_empty_matched_text() {
    let provider = NoOpLanguageFixProvider;
    let incident = bare_incident("");
    assert_eq!(provider.get_matched_text(&incident), "");
    assert_eq!(
        provider.get_matched_text_for_rename(&incident, &Vec::new()),
        ""
    );
    assert!(!provider.is_whole_file_rename(&incident));
}
