//! What is known of the files of a project and of the package registry: a
//! picture taken before planning, on which the planners work.

use crate::order::ByPath;
use crate::table::{lookup, value_at, PathTable, TextTable};
use crate::text::owned;
use crate::views::copy_texts;
use vstd::prelude::*;

verus! {

broadcast use vstd::string::group_string_axioms;

/// What stands at a path.
#[derive(Debug)]
pub enum Node {
    /// A file with the given text.
    File(String),
    /// A file that could not be read, and why.
    Unreadable(String),
    /// A directory with entries of the given names, in the order in which
    /// they are listed.
    Directory(Vec<String>),
}

/// What a [`Node`] holds.
pub ghost enum NodeView {
    File(Seq<char>),
    Unreadable(Seq<char>),
    Directory(Seq<Seq<char>>),
}

impl DeepView for Node {
    type V = NodeView;

    open spec fn deep_view(&self) -> NodeView {
        match self {
            Node::File(text) => NodeView::File(text@),
            Node::Unreadable(reason) => NodeView::Unreadable(reason@),
            Node::Directory(names) => NodeView::Directory(names.deep_view()),
        }
    }
}

/// A picture of the files and of the package registry.
#[derive(Debug)]
pub struct Workspace {
    /// What stands at each path.
    pub nodes: PathTable<Node>,
    /// The registry's answer for each package, as JSON text.
    pub registry: TextTable<String>,
}

/// What a [`Workspace`] holds.
#[verifier::ext_equal]
pub ghost struct WorkspaceView {
    pub nodes: Seq<(Seq<char>, NodeView)>,
    pub registry: Seq<(Seq<char>, Seq<char>)>,
}

impl DeepView for Workspace {
    type V = WorkspaceView;

    open spec fn deep_view(&self) -> WorkspaceView {
        WorkspaceView { nodes: self.nodes.deep_view(), registry: self.registry.deep_view() }
    }
}

/// What stands at a path.
pub open spec fn node_at(ws: WorkspaceView, path: Seq<char>) -> Option<NodeView> {
    value_at::<ByPath, NodeView>(ws.nodes, path)
}

/// The text of the file at a path, or why there is none.
pub open spec fn text_at(ws: WorkspaceView, path: Seq<char>) -> Result<Seq<char>, Seq<char>> {
    match node_at(ws, path) {
        Some(NodeView::File(text)) => Ok(text),
        Some(NodeView::Unreadable(reason)) => Err(reason),
        Some(NodeView::Directory(_)) => Err("Is a directory (os error 21)"@),
        None => Err("No such file or directory (os error 2)"@),
    }
}

/// Something stands at a path.
pub open spec fn present(ws: WorkspaceView, path: Seq<char>) -> bool {
    node_at(ws, path) is Some
}

/// A file stands at a path.
pub open spec fn file_at(ws: WorkspaceView, path: Seq<char>) -> bool {
    match node_at(ws, path) {
        Some(NodeView::File(_)) => true,
        Some(NodeView::Unreadable(_)) => true,
        _ => false,
    }
}

/// The names that a directory lists; none where there is no directory.
pub open spec fn names_in(ws: WorkspaceView, path: Seq<char>) -> Seq<Seq<char>> {
    match node_at(ws, path) {
        Some(NodeView::Directory(names)) => names,
        _ => Seq::empty(),
    }
}

/// A directory stands at a path.
pub open spec fn directory_at(ws: WorkspaceView, path: Seq<char>) -> bool {
    match node_at(ws, path) {
        Some(NodeView::Directory(_)) => true,
        _ => false,
    }
}

impl Workspace {
    /// A picture with nothing in it.
    pub fn new() -> (r: Workspace)
        ensures
            r.deep_view() == (WorkspaceView { nodes: Seq::empty(), registry: Seq::empty() }),
    {
        Workspace { nodes: PathTable::new(), registry: TextTable::new() }
    }

    /// The text of the file at a path, or why there is none.
    pub fn read(&self, path: &str) -> (r: Result<&str, String>)
        ensures
            text_at(self.deep_view(), path@) == (match r {
                Ok(text) => Ok::<Seq<char>, Seq<char>>(text@),
                Err(reason) => Err(reason@),
            }),
    {
        match self.nodes.get(path) {
            Some(Node::File(text)) => Ok(text.as_str()),
            Some(Node::Unreadable(reason)) => Err(reason.clone()),
            Some(Node::Directory(_)) => Err(owned("Is a directory (os error 21)")),
            None => Err(owned("No such file or directory (os error 2)")),
        }
    }

    /// Whether something stands at a path.
    pub fn has(&self, path: &str) -> (r: bool)
        ensures
            r == present(self.deep_view(), path@),
    {
        self.nodes.contains_key(path)
    }

    /// Whether a file stands at a path.
    pub fn is_file(&self, path: &str) -> (r: bool)
        ensures
            r == file_at(self.deep_view(), path@),
    {
        match self.nodes.get(path) {
            Some(Node::File(_)) => true,
            Some(Node::Unreadable(_)) => true,
            _ => false,
        }
    }

    /// Whether a directory stands at a path.
    pub fn is_dir(&self, path: &str) -> (r: bool)
        ensures
            r == directory_at(self.deep_view(), path@),
    {
        match self.nodes.get(path) {
            Some(Node::Directory(_)) => true,
            _ => false,
        }
    }

    /// The names that a directory lists.
    pub fn list(&self, path: &str) -> (r: Vec<String>)
        ensures
            r.deep_view() == names_in(self.deep_view(), path@),
    {
        match self.nodes.get(path) {
            Some(Node::Directory(names)) => copy_texts(names),
            _ => {
                let none: Vec<String> = Vec::new();
                assert(none.deep_view() =~= Seq::<Seq<char>>::empty());
                none
            },
        }
    }

    /// The registry's answer for a package.
    pub fn registry_answer(&self, package: &str) -> (r: Option<&String>)
        ensures
            lookup(self.deep_view().registry, package@) == (match r {
                Some(text) => Some(text@),
                None => None,
            }),
    {
        self.registry.get(package)
    }
}

} // verus!
