use fix_engine::syntax_check::{check_syntax, is_checkable, report_errors};
use fix_engine::workspace::{Node, Workspace};

fn check(name: &str, text: &str) -> Vec<String> {
    let path = format!("/project/{}", name);
    let mut ws = Workspace::new();
    ws.nodes.insert(path.clone(), Node::File(text.to_string()));
    check_syntax(&path, &ws).unwrap()
}

#[test]
fn valid_tsx_passes() {
    let errors = check("Component.tsx", "export const App = () => <div>Hello</div>;\n");
    assert!(errors.is_empty(), "expected no errors, got: {:?}", errors);
}

#[test]
fn broken_string_detected() {
    let errors = check("Bad.tsx", "const x = 'Let's go';\n");
    assert!(!errors.is_empty(), "expected syntax errors for broken string");
}

#[test]
fn non_js_file_skipped() {
    let errors = check("package.json", "{ invalid json !!!\n");
    assert!(errors.is_empty(), "non-JS files should be skipped");
}

#[test]
fn valid_ts_passes() {
    let errors = check(
        "util.ts",
        "export function greet(name: string): string { return `Hello ${name}`; }\n",
    );
    assert!(errors.is_empty(), "expected no errors, got: {:?}", errors);
}

#[test]
fn unterminated_template_detected() {
    let errors = check("Bad.ts", "const x = `hello ${world\n");
    assert!(
        !errors.is_empty(),
        "expected syntax errors for unterminated template"
    );
}

#[test]
fn is_checkable_works() {
    assert!(is_checkable("foo.tsx"));
    assert!(is_checkable("bar.ts"));
    assert!(is_checkable("baz.jsx"));
    assert!(is_checkable("qux.js"));
    assert!(is_checkable("m.mjs"));
    assert!(is_checkable("m.mts"));
    assert!(!is_checkable("package.json"));
    assert!(!is_checkable("style.css"));
    assert!(!is_checkable("README.md"));
}

#[test]
fn unreadable_file_is_an_error() {
    assert!(check_syntax("/gone.ts", &Workspace::new()).is_err());
}

#[test]
fn jsx_is_no_plain_typescript() {
    assert!(!check("App.ts", "const a = <div>x</div>;\n").is_empty());
    assert!(check("App.jsx", "const a = <div>x</div>;\n").is_empty());
    assert!(check("App.js", "import x from 'y';\nexport const a = <div>x</div>;\n").is_empty());
}

#[test]
fn a_panic_without_a_message_is_reported() {
    assert!(report_errors(false, &Vec::new()).is_empty());
    assert_eq!(report_errors(true, &Vec::new()).len(), 1);
    let said = vec!["one".to_string(), "two".to_string()];
    assert_eq!(report_errors(false, &said), said);
    assert_eq!(report_errors(true, &said).len(), 1);
}
