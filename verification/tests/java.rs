use fix_engine::java::annotations::{
    get_annotation_name, plan_java_annotation_param_rewrite, plan_remove_annotation,
};
use fix_engine::java::companions::discover_java_companion_test_files;
use fix_engine::java::dependencies::{
    plan_config_file_fqn_renames, plan_proactive_java_dependency,
};
use fix_engine::java::imports::{dedup_java_imports, resolve_pending_imports};
use fix_engine::java::matched::{
    get_matched_text_for_rename_from_incident, get_matched_text_from_incident,
};
use fix_engine::java::provider::JavaFixProvider;
use fix_engine::java::rename::{plan_java_import_rename, replace_at_word_boundary, simple_name_of};
use fix_engine::json::Json;
use fix_engine::language::LanguageFixProvider;
use fix_engine::model::{FixConfidence, FixReport, FixSource, RenameMapping, SkipReason};
use fix_engine::report::Incident;
use fix_engine::table::TextTable;
use fix_engine::workspace::{Node, Workspace};

fn make_incident(vars: Vec<(&str, &str)>) -> Incident {
    let mut variables = TextTable::new();
    for (k, v) in vars {
        variables.insert(
            k.to_string(),
            Json(serde_json::Value::String(v.to_string())),
        );
    }
    Incident {
        file_uri: "file:///test/Foo.java".to_string(),
        line_number: Some(10),
        message: String::new(),
        code_snip: None,
        variables,
    }
}

fn incident_at(uri: &str, line: u32) -> Incident {
    Incident {
        file_uri: uri.to_string(),
        line_number: Some(line),
        message: String::new(),
        code_snip: None,
        variables: TextTable::new(),
    }
}

fn workspace_with(path: &str, text: &str) -> Workspace {
    let mut ws = Workspace::new();
    ws.nodes
        .insert(path.to_string(), Node::File(text.to_string()));
    ws
}

#[test]
fn test_should_skip_path() {
    let provider = JavaFixProvider::new();
    assert!(provider.should_skip_path("/project/target/classes/Foo.class"));
    assert!(provider.should_skip_path("/project/build/classes/Foo.class"));
    assert!(provider.should_skip_path("/project/.gradle/caches/foo"));
    assert!(provider.should_skip_path("/project/.mvn/wrapper/maven.jar"));
    assert!(!provider.should_skip_path("/project/src/main/java/Foo.java"));
    assert!(!provider.should_skip_path("/project/src/test/java/FooTest.java"));
}

#[test]
fn test_get_matched_text_import() {
    let incident = make_incident(vec![
        ("importedName", "Session"),
        ("matchingText", "org.hibernate.Session"),
    ]);
    assert_eq!(get_matched_text_from_incident(&incident), "Session");
}

#[test]
fn test_get_matched_text_type() {
    let incident = make_incident(vec![
        ("typeName", "SessionFactory"),
        ("matchingText", "org.hibernate.SessionFactory"),
    ]);
    assert_eq!(get_matched_text_from_incident(&incident), "SessionFactory");
}

#[test]
fn test_get_matched_text_method() {
    let incident = make_incident(vec![
        ("methodName", "save"),
        ("matchingText", "org.hibernate.Session.save"),
    ]);
    assert_eq!(get_matched_text_from_incident(&incident), "save");
}

#[test]
fn test_get_matched_text_annotation() {
    let incident = make_incident(vec![
        ("annotationName", "TypeDef"),
        ("matchingText", "org.hibernate.annotations.TypeDef"),
    ]);
    assert_eq!(get_matched_text_from_incident(&incident), "TypeDef");
}

#[test]
fn test_get_matched_text_fallback() {
    let incident = make_incident(vec![("matchingText", "org.hibernate.Criteria")]);
    assert_eq!(
        get_matched_text_from_incident(&incident),
        "org.hibernate.Criteria"
    );
}

#[test]
fn test_is_whole_file_rename() {
    let provider = JavaFixProvider::new();

    let import_incident = make_incident(vec![
        ("importedName", "Session"),
        ("module", "org.hibernate"),
    ]);
    assert!(provider.is_whole_file_rename(&import_incident));

    let type_incident = make_incident(vec![("typeName", "Session")]);
    assert!(!provider.is_whole_file_rename(&type_incident));
}

#[test]
fn test_dedup_java_imports() {
    let mut lines = vec![
        "import org.hibernate.Session;".to_string(),
        "import org.hibernate.SessionFactory;".to_string(),
        "import org.hibernate.Session;".to_string(),
        "import jakarta.persistence.Entity;".to_string(),
    ];
    dedup_java_imports(&mut lines);
    assert_eq!(lines[0], "import org.hibernate.Session;");
    assert_eq!(lines[1], "import org.hibernate.SessionFactory;");
    assert_eq!(lines[2], "");
    assert_eq!(lines[3], "import jakarta.persistence.Entity;");
}

#[test]
fn test_get_annotation_name() {
    let incident = make_incident(vec![("annotationName", "TypeDef")]);
    assert_eq!(get_annotation_name(&incident), Some("TypeDef".to_string()));

    let incident2 = make_incident(vec![("matchingText", "org.hibernate.annotations.TypeDef")]);
    assert_eq!(get_annotation_name(&incident2), Some("TypeDef".to_string()));

    let incident3 = make_incident(vec![("matchingText", "@TypeDef")]);
    assert_eq!(get_annotation_name(&incident3), Some("TypeDef".to_string()));
}

#[test]
fn test_get_matched_text_for_rename() {
    let incident = make_incident(vec![("importedName", "Criteria")]);
    let mappings = vec![RenameMapping {
        old: "Criteria".to_string(),
        new: "CriteriaQuery".to_string(),
    }];
    assert_eq!(
        get_matched_text_for_rename_from_incident(&incident, &mappings),
        "Criteria"
    );
}

#[test]
fn test_word_boundary_simple_match() {
    let result = replace_at_word_boundary("StringType x = new StringType();", "StringType", "JavaObjectType");
    assert_eq!(result, Some("JavaObjectType x = new JavaObjectType();".to_string()));
}

#[test]
fn test_word_boundary_no_substring_match() {
    let result = replace_at_word_boundary("List<Thread> threads = new ArrayList<>();", "read", "extract");
    assert_eq!(result, None);
}

#[test]
fn test_word_boundary_no_match_in_already() {
    let result = replace_at_word_boundary("throw new AlreadyInitializedException();", "read", "extract");
    assert_eq!(result, None);
}

#[test]
fn test_word_boundary_no_match_in_readonly() {
    let result = replace_at_word_boundary("initValues.readOnly = false;", "read", "extract");
    assert_eq!(result, None);
}

#[test]
fn test_word_boundary_standalone_match() {
    let result = replace_at_word_boundary("Object result = scrollable.read(0);", "read", "extract");
    assert_eq!(result, Some("Object result = scrollable.extract(0);".to_string()));
}

#[test]
fn test_word_boundary_at_line_start() {
    let result = replace_at_word_boundary("StringType foo;", "StringType", "JavaObjectType");
    assert_eq!(result, Some("JavaObjectType foo;".to_string()));
}

#[test]
fn test_word_boundary_at_line_end() {
    let result = replace_at_word_boundary("return new StringType", "StringType", "JavaObjectType");
    assert_eq!(result, Some("return new JavaObjectType".to_string()));
}

#[test]
fn test_word_boundary_connection_not_in_jdbc_connection_access() {
    let result = replace_at_word_boundary(
        "import org.hibernate.engine.jdbc.connections.spi.JdbcConnectionAccess;",
        "connection",
        "getSession",
    );
    assert_eq!(result, None);
}

#[test]
fn test_word_boundary_connection_standalone() {
    let result = replace_at_word_boundary("Connection conn = session.connection();", "connection", "getSession");
    assert_eq!(result, Some("Connection conn = session.getSession();".to_string()));
}

#[test]
fn test_word_boundary_no_match_returns_none() {
    let result = replace_at_word_boundary("int x = 42;", "StringType", "JavaObjectType");
    assert_eq!(result, None);
}

#[test]
fn test_word_boundary_multiple_matches() {
    let result = replace_at_word_boundary(
        "StringType a = StringType.valueOf(StringType.class);",
        "StringType",
        "JavaObjectType",
    );
    assert_eq!(
        result,
        Some("JavaObjectType a = JavaObjectType.valueOf(JavaObjectType.class);".to_string())
    );
}

#[test]
fn test_word_boundary_dot_is_boundary() {
    let result = replace_at_word_boundary("session.read(0)", "read", "extract");
    assert_eq!(result, Some("session.extract(0)".to_string()));
}

#[test]
fn test_word_boundary_underscore_is_not_boundary() {
    let result = replace_at_word_boundary("my_read_method()", "read", "extract");
    assert_eq!(result, None);
}

#[test]
fn word_boundary_letters_beyond_ascii() {
    assert_eq!(
        replace_at_word_boundary("é.read() réad", "read", "extract"),
        Some("é.extract() réad".to_string())
    );
    assert_eq!(replace_at_word_boundary("read", "read", "read"), Some("read".to_string()));
    assert_eq!(replace_at_word_boundary("read", "", "x"), None);
}

#[test]
fn test_annotation_param_rewrite_string_fqn_to_class_literal() {
    let file = "/project/Foo.java";
    let ws = workspace_with(
        file,
        r#"package com.example;

import org.hibernate.annotations.Type;

public class Foo {
    @Type(type = "org.candlepin.hibernate.EmptyStringUserType")
    private String name;
}
"#,
    );
    let incident = incident_at("file:///project/Foo.java", 6);
    let mut report = FixReport::new();

    let fix = plan_java_annotation_param_rewrite(
        "test-rule",
        &incident,
        "type",
        "value",
        "StringFqnToClassLiteral",
        file,
        &ws,
        &mut report,
    );

    assert!(fix.is_some(), "Expected a planned fix");
    let fix = fix.unwrap();
    assert_eq!(fix.source, FixSource::Pattern);
    assert_eq!(fix.confidence, FixConfidence::High);

    let annotation_edit = fix
        .edits
        .iter()
        .find(|e| e.description.contains("Rewrite annotation param"));
    assert!(annotation_edit.is_some(), "Missing annotation param edit");
    let edit = annotation_edit.unwrap();
    assert!(
        edit.new_text.contains("value = EmptyStringUserType.class"),
        "Expected class literal, got: {}",
        edit.new_text
    );
    assert!(
        !edit.new_text.contains(r#""org.candlepin"#),
        "Should not have FQN string anymore"
    );
    assert!(
        edit.new_text.contains("// __ADD_IMPORT:org.candlepin.hibernate.EmptyStringUserType"),
        "Expected import marker in edit, got: {}",
        edit.new_text
    );
}

#[test]
fn test_annotation_param_rewrite_library_type_falls_through() {
    let file = "/project/Bar.java";
    let ws = workspace_with(
        file,
        r#"package com.example;

import org.hibernate.annotations.Type;

public class Bar {
    @Type(type = "org.hibernate.type.NumericBooleanType")
    private boolean locked;
}
"#,
    );
    let incident = incident_at("file:///project/Bar.java", 6);
    let mut report = FixReport::new();

    let fix = plan_java_annotation_param_rewrite(
        "test-rule",
        &incident,
        "type",
        "value",
        "StringFqnToClassLiteral",
        file,
        &ws,
        &mut report,
    );

    assert!(
        fix.is_none(),
        "Library types should fall through to LLM"
    );
}

#[test]
fn test_annotation_param_rewrite_identity() {
    let file = "/project/Baz.java";
    let ws = workspace_with(
        file,
        r#"package com.example;

public class Baz {
    @SomeAnnotation(oldName = "someValue")
    private String field;
}
"#,
    );
    let incident = incident_at("file:///project/Baz.java", 4);
    let mut report = FixReport::new();

    let fix = plan_java_annotation_param_rewrite(
        "test-rule",
        &incident,
        "oldName",
        "newName",
        "Identity",
        file,
        &ws,
        &mut report,
    );

    assert!(fix.is_some(), "Expected a planned fix for identity rename");
    let fix = fix.unwrap();
    let edit = fix.edits.first().unwrap();
    assert!(
        edit.new_text.contains("newName"),
        "Expected renamed param in: {}",
        edit.new_text
    );
    assert!(
        !edit.new_text.contains("oldName"),
        "Old param should be gone in: {}",
        edit.new_text
    );
}

#[test]
fn markers_become_imports() {
    let mut lines: Vec<String> = [
        "package a;",
        "import java.util.List;",
        "class A {",
        "    @Type(value = B.class) // __ADD_IMPORT:x.y.B",
        "    @Type(value = A.class) // __ADD_IMPORT:x.y.A // __ADD_IMPORT:java.util.List",
        "}",
    ]
    .iter()
    .map(|s| s.to_string())
    .collect();
    resolve_pending_imports(&mut lines);
    assert_eq!(
        lines,
        vec![
            "package a;",
            "import java.util.List;",
            "import x.y.A;",
            "import x.y.B;",
            "class A {",
            "    @Type(value = B.class)",
            "    @Type(value = A.class)",
            "}",
        ]
    );
}

#[test]
fn markers_are_stripped_wherever_they_stand() {
    let mut lines: Vec<String> = [
        "package a;",
        "// __ADD_IMPORT:a.B",
        "@X// __ADD_IMPORT:a.C// __ADD_IMPORT:a.D left over",
    ]
    .iter()
    .map(|s| s.to_string())
    .collect();
    resolve_pending_imports(&mut lines);
    assert_eq!(
        lines,
        vec!["package a;", "import a.B;", "import a.C;", "import a.D;", "", "@X"]
    );
}

#[test]
fn the_element_is_renamed_and_not_the_annotation() {
    let file = "/project/A.java";
    let ws = workspace_with(file, "    @Subtype(type = \"x\")\n");
    let mut report = FixReport::new();
    let fix = plan_java_annotation_param_rewrite(
        "r",
        &incident_at("file:///project/A.java", 1),
        "type",
        "value",
        "Identity",
        file,
        &ws,
        &mut report,
    )
    .unwrap();
    assert_eq!(fix.edits.len(), 1);
    assert_eq!(fix.edits[0].new_text, "    @Subtype(value = \"x\")");
}

#[test]
fn lines_without_markers_stay() {
    let mut lines = vec!["class A {".to_string(), "}".to_string()];
    resolve_pending_imports(&mut lines);
    assert_eq!(lines, vec!["class A {", "}"]);
}

#[test]
fn blanking_imports_again_changes_nothing() {
    let mut lines = vec![
        "import a.B;".to_string(),
        "  import a.B;  ".to_string(),
        "import a.B".to_string(),
    ];
    dedup_java_imports(&mut lines);
    assert_eq!(lines, vec!["import a.B;", "", "import a.B"]);
    dedup_java_imports(&mut lines);
    assert_eq!(lines, vec!["import a.B;", "", "import a.B"]);
}

#[test]
fn import_rename_changes_imports_and_uses() {
    let file = "/project/A.java";
    let ws = workspace_with(
        file,
        "import org.old.Session;\n\nclass A {\n  Session s = new SessionFactory().Session();\n}\n",
    );
    let incident = incident_at("file:///project/A.java", 1);
    let mut report = FixReport::new();
    let fix = plan_java_import_rename(
        "r",
        &incident,
        "org.old.Session",
        "org.fresh.Em",
        file,
        &ws,
        &mut report,
    )
    .unwrap();
    assert_eq!(fix.edits.len(), 2);
    assert_eq!(fix.edits[0].new_text, "import org.fresh.Em;");
    assert_eq!(fix.edits[1].line, 4);
    assert_eq!(
        fix.edits[1].new_text,
        "  Em s = new SessionFactory().Em();"
    );
    assert_eq!(simple_name_of("org.fresh.Em"), "Em");
    assert_eq!(simple_name_of("Em"), "Em");

    let none = plan_java_import_rename("r", &incident, "org.gone.X", "a.X", file, &ws, &mut report);
    assert!(none.is_none());
    assert_eq!(report.skipped[0].reason, SkipReason::TextNotFound);
    assert_eq!(
        report.skipped[0].detail.as_deref(),
        Some("import org.gone.X not found in file")
    );
}

#[test]
fn annotation_is_removed_from_its_line() {
    let file = "/project/A.java";
    let ws = workspace_with(
        file,
        "class A {\n    @TypeDef(name = \"x\")\n    int a;\n}\n",
    );
    let mut incident = make_incident(vec![("annotationName", "TypeDef")]);
    incident.line_number = Some(2);
    let mut report = FixReport::new();
    let fix = plan_remove_annotation("r", &incident, file, &ws, &mut report).unwrap();
    assert!(!fix.edits.is_empty());
    assert_eq!(fix.edits[0].line, 2);
    assert!(fix.edits[0].old_text.contains("@TypeDef"));
    assert!(!fix.edits[0].new_text.contains("TypeDef"));
}

fn removed(text: &str, name: &str) -> Vec<(u32, String)> {
    let file = "/project/A.java";
    let ws = workspace_with(file, text);
    let mut incident = make_incident(vec![("annotationName", name)]);
    incident.line_number = Some(1);
    let mut report = FixReport::new();
    plan_remove_annotation("r", &incident, file, &ws, &mut report)
        .unwrap()
        .edits
        .into_iter()
        .map(|e| (e.line, e.new_text))
        .collect()
}

#[test]
fn parameters_that_closed_end_the_annotation() {
    assert_eq!(removed("@A(1) (x)\nfoo();\n", "A"), vec![(1, "(x)".to_string())]);
    assert_eq!(removed("@A int f() {\n", "A"), vec![(1, "int f() {".to_string())]);
    assert_eq!(removed("@A(1) int f() {\n", "A"), vec![(1, "int f() {".to_string())]);
}

#[test]
fn parameters_end_at_their_own_parenthesis() {
    assert_eq!(
        removed("@NamedQueries({\n  @NamedQuery(name = \"a\"),\n})\nclass A {}\n", "NamedQueries"),
        vec![(1, String::new()), (2, String::new()), (3, String::new())]
    );
    assert_eq!(
        removed("@A({ @B(1),\n  @B(2) }) int x;\n", "A"),
        vec![(1, String::new()), (2, "int x;".to_string())]
    );
    assert_eq!(removed("@A(b = @B(1)) int x;\n", "A"), vec![(1, "int x;".to_string())]);
    assert_eq!(removed("@A(\")\") int x;\n", "A"), vec![(1, "int x;".to_string())]);
    assert_eq!(
        removed("@A(\n  name = \"x)\"\n) int x;\n", "A"),
        vec![(1, String::new()), (2, String::new()), (3, "int x;".to_string())]
    );
}

#[test]
fn annotation_name_is_found_letter_for_letter() {
    let file = "/project/A.java";
    let ws = workspace_with(file, "class A {\n    @Outer$Def\n    int a;\n}\n");
    let mut incident = make_incident(vec![("annotationName", "Outer$Def")]);
    incident.line_number = Some(2);
    let mut report = FixReport::new();
    let fix = plan_remove_annotation("r", &incident, file, &ws, &mut report).unwrap();
    assert_eq!(fix.edits[0].line, 2);
    assert!(fix.edits[0].old_text.contains("@Outer$Def"));
    assert!(report.skipped.is_empty());
}

#[test]
fn companion_tests_are_found_beside_and_in_the_test_tree() {
    let mut ws = Workspace::new();
    for path in [
        "/p/src/main/java/a/Foo.java",
        "/p/src/test/java/a/FooTest.java",
        "/p/src/main/java/a/FooIT.java",
    ] {
        ws.nodes
            .insert(path.to_string(), Node::File(String::new()));
    }
    let found = discover_java_companion_test_files("/p/src/main/java/a/Foo.java", &ws);
    assert!(found.contains(&"/p/src/test/java/a/FooTest.java".to_string()));
    assert!(found.contains(&"/p/src/main/java/a/FooIT.java".to_string()));
    assert_eq!(found.len(), 2);
}

#[test]
fn build_files_get_the_new_dependency() {
    let mut ws = Workspace::new();
    ws.nodes.insert(
        "/p".to_string(),
        Node::Directory(vec!["build.gradle".to_string()]),
    );
    ws.nodes.insert(
        "/p/build.gradle".to_string(),
        Node::File("dependencies {\n    implementation \"org.old:lib:1.0\"\n}\n".to_string()),
    );
    let mut report = FixReport::new();
    let fixes = plan_proactive_java_dependency(
        "r", "org.old:lib", "org.fresh:lib", "2.0", "/p", &ws, &mut report,
    );
    assert_eq!(fixes.len(), 1);
    assert_eq!(fixes[0].file_uri, "file:///p/build.gradle");
    assert!(fixes[0].edits[0].new_text.contains("org.fresh:lib"));
    assert!(fixes[0].edits[0].new_text.contains("2.0"));
}

#[test]
fn configuration_files_get_the_new_name() {
    let mut ws = Workspace::new();
    ws.nodes.insert(
        "/p".to_string(),
        Node::Directory(vec!["app.properties".to_string(), "A.java".to_string()]),
    );
    ws.nodes.insert(
        "/p/app.properties".to_string(),
        Node::File("dialect=org.old.Dialect\nother=1\n".to_string()),
    );
    ws.nodes.insert(
        "/p/A.java".to_string(),
        Node::File("org.old.Dialect\n".to_string()),
    );
    let fixes = plan_config_file_fqn_renames("r", "org.old.Dialect", "org.fresh.Dialect", "/p", &ws);
    assert_eq!(fixes.len(), 1);
    assert_eq!(fixes[0].edits.len(), 1);
    assert_eq!(fixes[0].edits[0].line, 1);
    assert!(fixes[0].edits[0].new_text.contains("org.fresh.Dialect"));
}
