//! Syntax errors of JavaScript and TypeScript files.

use crate::paths::{extension, extension_of};
use crate::text::{contains, has_text, owned, same};
use crate::views::{copy_texts, only};
use crate::workspace::{text_at, Workspace, WorkspaceView};
use vstd::prelude::*;

verus! {

broadcast use vstd::string::group_string_axioms;

/// How a source file is parsed.
#[derive(Debug, Clone, Copy, PartialEq, Eq, Structural)]
pub enum SourceKind {
    /// TypeScript with JSX.
    Tsx,
    /// TypeScript.
    Ts,
    /// A module of JavaScript with JSX.
    Module,
    /// A CommonJS file of JavaScript with JSX.
    CommonJs,
}

/// The text imports something.
pub open spec fn has_import(source: Seq<char>) -> bool {
    has_text(source, "import "@) && (has_text(source, " from "@) || has_text(source, "import {"@))
}

/// The text requires something or sets its exports.
pub open spec fn has_require(source: Seq<char>) -> bool {
    has_text(source, "require("@) || has_text(source, "module.exports"@)
}

/// How a file is parsed: by its extension, and for `.js` by its text.
pub open spec fn kind_of(path: Seq<char>, source: Seq<char>) -> SourceKind {
    let ext = extension_of(path);
    if ext == Some("tsx"@) {
        SourceKind::Tsx
    } else if ext == Some("ts"@) || ext == Some("mts"@) {
        SourceKind::Ts
    } else if ext == Some("cjs"@) {
        SourceKind::CommonJs
    } else if ext == Some("js"@) && !has_import(source) && has_require(source) {
        SourceKind::CommonJs
    } else {
        SourceKind::Module
    }
}

/// How a file is parsed.
pub fn source_type_for_path(path: &str, source: &str) -> (r: SourceKind)
    ensures
        r == kind_of(path@, source@),
{
    match extension(path) {
        Some(ext) => {
            let e = ext.as_str();
            if same(e, "tsx") {
                SourceKind::Tsx
            } else if same(e, "ts") || same(e, "mts") {
                SourceKind::Ts
            } else if same(e, "cjs") {
                SourceKind::CommonJs
            } else if same(e, "js") {
                let imports = contains(source, "import ") && (contains(source, " from ")
                    || contains(source, "import {"));
                let requires_something = contains(source, "require(") || contains(
                    source,
                    "module.exports",
                );
                if !imports && requires_something {
                    SourceKind::CommonJs
                } else {
                    SourceKind::Module
                }
            } else {
                SourceKind::Module
            }
        },
        None => SourceKind::Module,
    }
}

/// The file can be checked.
pub open spec fn checkable(path: Seq<char>) -> bool {
    let ext = extension_of(path);
    ext == Some("js"@) || ext == Some("jsx"@) || ext == Some("ts"@) || ext == Some("tsx"@) || ext
        == Some("mjs"@) || ext == Some("mts"@)
}

/// Whether the file can be checked: by its extension.
pub fn is_checkable(path: &str) -> (r: bool)
    ensures
        r == checkable(path@),
{
    match extension(path) {
        Some(ext) => {
            let e = ext.as_str();
            same(e, "js") || same(e, "jsx") || same(e, "ts") || same(e, "tsx") || same(e, "mjs")
                || same(e, "mts")
        },
        None => false,
    }
}

/// What the parser says of a text: whether it gave up, and its errors.
pub uninterp spec fn parse_verdict(source: Seq<char>, kind: SourceKind) -> (bool, Seq<Seq<char>>);

/// `oxc_parser::Parser::parse`: whether the parser gave up (`panicked`), and
/// the messages of its diagnostics, in order. Both depend on the text and on
/// the kind of source alone.
#[verifier::external_body]
fn parse_source(source: &str, kind: SourceKind) -> (r: (bool, Vec<String>))
    ensures
        (r.0, r.1.deep_view()) == parse_verdict(source@, kind),
{
    let source_type = match kind {
        SourceKind::Tsx => oxc_span::SourceType::tsx(),
        SourceKind::Ts => oxc_span::SourceType::ts(),
        SourceKind::Module => oxc_span::SourceType::mjs().with_jsx(true),
        SourceKind::CommonJs => oxc_span::SourceType::cjs().with_jsx(true),
    };
    let allocator = oxc_allocator::Allocator::default();
    let parsed = oxc_parser::Parser::new(&allocator, source, source_type).parse();
    (parsed.panicked, parsed.diagnostics.iter().map(|e| e.to_string()).collect())
}

/// The errors to report for what the parser said: the first one where it
/// gave up, and all otherwise.
pub open spec fn reported_errors(verdict: (bool, Seq<Seq<char>>)) -> Seq<Seq<char>> {
    if verdict.0 {
        if verdict.1.len() > 0 {
            seq![verdict.1[0]]
        } else {
            seq!["parser panicked (unknown error)"@]
        }
    } else {
        verdict.1
    }
}

/// The errors to report for what the parser said.
pub fn report_errors(panicked: bool, errors: &Vec<String>) -> (r: Vec<String>)
    ensures
        r.deep_view() == reported_errors((panicked, errors.deep_view())),
{
    if panicked {
        assert(errors.deep_view().len() == errors@.len());
        if errors.len() > 0 {
            assert(errors.deep_view()[0] == errors@[0]@);
            only(errors[0].clone())
        } else {
            only(owned("parser panicked (unknown error)"))
        }
    } else {
        copy_texts(errors)
    }
}

/// The syntax errors of a file of the workspace, or why it cannot be read. A
/// file that cannot be checked has none.
pub open spec fn syntax_errors(path: Seq<char>, ws: WorkspaceView) -> Result<
    Seq<Seq<char>>,
    Seq<char>,
> {
    if !checkable(path) {
        Ok(Seq::empty())
    } else {
        match text_at(ws, path) {
            Ok(source) => Ok(reported_errors(parse_verdict(source, kind_of(path, source)))),
            Err(reason) => Err(reason),
        }
    }
}

/// The syntax errors of a file, or why it cannot be read. A file that cannot
/// be checked has none.
pub fn check_syntax(file_path: &str, ws: &Workspace) -> (r: Result<Vec<String>, String>)
    ensures
        syntax_errors(file_path@, ws.deep_view()) == (match r {
            Ok(errors) => Ok::<Seq<Seq<char>>, Seq<char>>(errors.deep_view()),
            Err(reason) => Err(reason@),
        }),
{
    if !is_checkable(file_path) {
        return Ok(crate::language::no_texts());
    }
    match ws.read(file_path) {
        Ok(source) => {
            let kind = source_type_for_path(file_path, source);
            let (panicked, errors) = parse_source(source, kind);
            Ok(report_errors(panicked, &errors))
        },
        Err(reason) => Err(reason),
    }
}

} // verus!
