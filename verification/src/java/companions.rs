//! The test files that belong to a Java source file.

use crate::order::{path_same, same_path};
use crate::paths::{join, joined_path, parent, parent_of, file_stem, stem_of};
use crate::text::{cat2, contains, has_text, replace, replaced};
use crate::views::append_one;
use crate::workspace::{file_at, Workspace, WorkspaceView};
use vstd::prelude::*;

verus! {

broadcast use vstd::string::group_string_axioms;

/// One of the paths is the given one.
pub open spec fn has_path(all: Seq<Seq<char>>, path: Seq<char>) -> bool {
    exists|k: int| 0 <= k < all.len() && path_same(#[trigger] all[k], path)
}

/// The files with one more, where it is a file and not among them yet.
pub open spec fn with_file(found: Seq<Seq<char>>, path: Seq<char>, ws: WorkspaceView) -> Seq<
    Seq<char>,
> {
    if file_at(ws, path) && !has_path(found, path) {
        found.push(path)
    } else {
        found
    }
}

/// The files with the tests of a class in a directory.
pub open spec fn with_tests_in(
    found: Seq<Seq<char>>,
    dir: Option<Seq<char>>,
    stem: Seq<char>,
    ws: WorkspaceView,
) -> Seq<Seq<char>> {
    match dir {
        Some(d) => with_file(
            with_file(
                with_file(found, joined_path(d, stem + "Test.java"@), ws),
                joined_path(d, stem + "Tests.java"@),
                ws,
            ),
            joined_path(d, stem + "IT.java"@),
            ws,
        ),
        None => found,
    }
}

/// The directory of a file once `src/main/java/` is another source root.
pub open spec fn mirrored_dir(path: Seq<char>, root: Seq<char>) -> Option<Seq<char>> {
    if has_text(path, "src/main/java/"@) {
        parent_of(replaced(path, "src/main/java/"@, root))
    } else {
        None
    }
}

/// The test files that belong to a file: by the names of tests in the
/// mirrored test and fixture directories and in its own directory.
pub open spec fn companion_tests(path: Seq<char>, ws: WorkspaceView) -> Seq<Seq<char>> {
    match stem_of(path) {
        Some(stem) => with_tests_in(
            with_tests_in(
                with_tests_in(
                    Seq::empty(),
                    mirrored_dir(path, "src/test/java/"@),
                    stem,
                    ws,
                ),
                mirrored_dir(path, "src/testFixtures/java/"@),
                stem,
                ws,
            ),
            parent_of(path),
            stem,
            ws,
        ),
        None => Seq::empty(),
    }
}

fn is_known(all: &Vec<String>, path: &str) -> (r: bool)
    ensures
        r == has_path(all.deep_view(), path@),
{
    let ghost view = all.deep_view();
    let mut k: usize = 0;
    while k < all.len()
        invariant
            k <= all@.len(),
            view == all.deep_view(),
            forall|j: int| 0 <= j < k ==> !path_same(#[trigger] view[j], path@),
        decreases all@.len() - k,
    {
        assert(view[k as int] == all@[k as int]@);
        if same_path(all[k].as_str(), path) {
            return true;
        }
        k = k + 1;
    }
    false
}

fn add_file(found: &mut Vec<String>, path: String, ws: &Workspace)
    ensures
        final(found).deep_view() == with_file(old(found).deep_view(), path@, ws.deep_view()),
{
    if ws.is_file(path.as_str()) && !is_known(found, path.as_str()) {
        append_one(found, path);
    }
}

fn add_tests_in(found: &mut Vec<String>, dir: &Option<String>, stem: &str, ws: &Workspace)
    ensures
        final(found).deep_view() == with_tests_in(
            old(found).deep_view(),
            dir.deep_view(),
            stem@,
            ws.deep_view(),
        ),
{
    match dir {
        Some(d) => {
            let test = cat2(stem, "Test.java");
            add_file(found, join(d.as_str(), test.as_str()), ws);
            let tests = cat2(stem, "Tests.java");
            add_file(found, join(d.as_str(), tests.as_str()), ws);
            let integration = cat2(stem, "IT.java");
            add_file(found, join(d.as_str(), integration.as_str()), ws);
        },
        None => {},
    }
}

fn mirror(path: &str, root: &str) -> (r: Option<String>)
    ensures
        r.deep_view() == mirrored_dir(path@, root@),
{
    if contains(path, "src/main/java/") {
        let mirrored = replace(path, "src/main/java/", root);
        parent(mirrored.as_str())
    } else {
        None
    }
}

/// The test files that belong to a Java source file: `FooTest.java`,
/// `FooTests.java` and `FooIT.java` for `Foo.java`, under `src/test/java`,
/// under `src/testFixtures/java` and in its own directory.
pub fn discover_java_companion_test_files(file_path: &str, ws: &Workspace) -> (r: Vec<String>)
    ensures
        r.deep_view() == companion_tests(file_path@, ws.deep_view()),
{
    let mut found: Vec<String> = Vec::new();
    assert(found.deep_view() =~= Seq::<Seq<char>>::empty());
    let stem = match file_stem(file_path) {
        Some(s) => s,
        None => {
            return found;
        },
    };
    let tests = mirror(file_path, "src/test/java/");
    add_tests_in(&mut found, &tests, stem.as_str(), ws);
    let fixtures = mirror(file_path, "src/testFixtures/java/");
    add_tests_in(&mut found, &fixtures, stem.as_str(), ws);
    let own = parent(file_path);
    add_tests_in(&mut found, &own, stem.as_str(), ws);
    found
}

} // verus!
