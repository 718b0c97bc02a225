//! `package.json`: finding it, its dependency blocks, and updating or
//! adding a dependency.

use crate::model::{
    FixConfidence, FixSource, PlannedFix, PlannedFixView, TextEdit, TextEditView,
};
use crate::paths::{
    file_name, join, joined_path, lemma_parent_is_shorter, name_of, parent, parent_of,
};
use crate::pattern::{compiles, find, is_pattern, regex_found};
use crate::text::{
    begins, cat2, cat3, cat4, cat5, cat6, cat7, chars_of, contains, ends, ends_with, has_text,
    leading_spaces, lines, lines_of, owned, piece, same, space_end, starts_with, trim, trim_end, trimmed,
    trimmed_end,
};
use crate::views::{append_one, only};
use crate::workspace::{file_at, present, text_at, Workspace, WorkspaceView};
use vstd::prelude::*;

verus! {

broadcast use vstd::string::group_string_axioms;

// ---------------------------------------------------------------------
// Finding the manifest
// ---------------------------------------------------------------------

/// The manifest in a directory or in the nearest one above it.
pub open spec fn manifest_from(ws: WorkspaceView, dir: Seq<char>) -> Option<Seq<char>>
    decreases dir.len(),
    via manifest_from_decreases
{
    let candidate = joined_path(dir, "package.json"@);
    if present(ws, candidate) {
        Some(candidate)
    } else {
        match parent_of(dir) {
            Some(up) => manifest_from(ws, up),
            None => None,
        }
    }
}

#[via_fn]
proof fn manifest_from_decreases(ws: WorkspaceView, dir: Seq<char>) {
    lemma_parent_is_shorter(dir);
}

/// The manifest that is nearest to a path.
pub open spec fn nearest_manifest(ws: WorkspaceView, path: Seq<char>) -> Option<Seq<char>> {
    if file_at(ws, path) {
        match parent_of(path) {
            Some(dir) => manifest_from(ws, dir),
            None => None,
        }
    } else {
        manifest_from(ws, path)
    }
}

/// The manifest that is nearest to a path: in the directory of the file, or
/// the nearest one above.
pub fn find_nearest_package_json(path: &str, ws: &Workspace) -> (r: Option<String>)
    ensures
        r.deep_view() == nearest_manifest(ws.deep_view(), path@),
{
    let mut dir: String = if ws.is_file(path) {
        match parent(path) {
            Some(p) => p,
            None => {
                return None;
            },
        }
    } else {
        owned(path)
    };
    loop
        invariant
            nearest_manifest(ws.deep_view(), path@) == manifest_from(ws.deep_view(), dir@),
        decreases dir@.len(),
    {
        let candidate = join(dir.as_str(), "package.json");
        if ws.has(candidate.as_str()) {
            return Some(candidate);
        }
        match parent(dir.as_str()) {
            Some(up) => {
                dir = up;
            },
            None => {
                return None;
            },
        }
    }
}

// ---------------------------------------------------------------------
// Dependency blocks
// ---------------------------------------------------------------------

/// How many more braces the first `n` characters open than they close.
pub open spec fn braces(s: Seq<char>, n: int) -> int
    decreases n,
{
    if n <= 0 {
        0
    } else if s[n - 1] == '{' {
        braces(s, n - 1) + 1
    } else if s[n - 1] == '}' {
        braces(s, n - 1) - 1
    } else {
        braces(s, n - 1)
    }
}

/// How many more braces a line opens than it closes.
pub open spec fn line_braces(line: Seq<char>) -> int {
    braces(trimmed(line), trimmed(line).len() as int)
}

/// A block of dependencies: its name, the line of its key, and the line
/// after its closing brace.
#[verifier::ext_equal]
pub ghost struct BlockView {
    pub name: Seq<char>,
    pub start: int,
    pub end: int,
}

/// Where a block ends whose braces are `open` deep before line `i`, and the
/// depth in the document there.
pub open spec fn block_end(all: Seq<Seq<char>>, i: int, open: int, depth: int) -> (int, int)
    decreases all.len() - i,
{
    if 0 <= i < all.len() && open > 0 {
        block_end(all, i + 1, open + line_braces(all[i]), depth + line_braces(all[i]))
    } else {
        (i, depth)
    }
}

/// The line is the key of a block of dependencies directly in the root
/// object, where the depth before the line is `depth`.
pub open spec fn is_block_key(line: Seq<char>, depth: int) -> bool {
    depth == 1 && (begins(trimmed(line), "\"dependencies\""@) || begins(
        trimmed(line),
        "\"devDependencies\""@,
    ))
}

/// The name of the block whose key a line is.
pub open spec fn block_name(line: Seq<char>) -> Seq<char> {
    if begins(trimmed(line), "\"devDependencies\""@) {
        "devDependencies"@
    } else {
        "dependencies"@
    }
}

/// The blocks of dependencies from line `i` on, where the depth before the
/// line is `depth`.
pub open spec fn blocks_from(all: Seq<Seq<char>>, i: int, depth: int) -> Seq<BlockView>
    decreases all.len() - i,
    via blocks_from_decreases
{
    if i < 0 || i >= all.len() {
        Seq::empty()
    } else {
        let now = depth + line_braces(all[i]);
        if is_block_key(all[i], depth) {
            let (end, after) = block_end(all, i + 1, line_braces(all[i]), now);
            seq![BlockView { name: block_name(all[i]), start: i, end }] + blocks_from(
                all,
                end,
                after,
            )
        } else {
            blocks_from(all, i + 1, now)
        }
    }
}

#[via_fn]
proof fn blocks_from_decreases(all: Seq<Seq<char>>, i: int, depth: int) {
    if 0 <= i < all.len() {
        let now = depth + line_braces(all[i]);
        lemma_block_end(all, i + 1, line_braces(all[i]), now);
    }
}

proof fn lemma_block_end(all: Seq<Seq<char>>, i: int, open: int, depth: int)
    requires
        0 <= i <= all.len(),
    ensures
        i <= block_end(all, i, open, depth).0 <= all.len(),
    decreases all.len() - i,
{
    if i < all.len() && open > 0 {
        lemma_block_end(all, i + 1, open + line_braces(all[i]), depth + line_braces(all[i]));
    }
}

/// The top-level blocks of dependencies of a manifest.
pub open spec fn dep_blocks(all: Seq<Seq<char>>) -> Seq<BlockView> {
    blocks_from(all, 0, 0)
}

/// A block of dependencies.
#[derive(Debug)]
pub struct DepBlockRange {
    /// `dependencies` or `devDependencies`.
    pub name: &'static str,
    /// The line of the key.
    pub start: usize,
    /// The line after the closing brace.
    pub end: usize,
}

impl DeepView for DepBlockRange {
    type V = BlockView;

    open spec fn deep_view(&self) -> BlockView {
        BlockView { name: self.name@, start: self.start as int, end: self.end as int }
    }
}

fn count_braces(line: &str) -> (r: i128)
    ensures
        r == line_braces(line@),
        -(usize::MAX as int) <= r <= usize::MAX,
{
    let v = chars_of(trim(line));
    let mut depth: i128 = 0;
    let mut i: usize = 0;
    while i < v.len()
        invariant
            i <= v@.len(),
            -(i as int) <= depth <= i,
            depth == braces(v@, i as int),
        decreases v@.len() - i,
    {
        if v[i] == '{' {
            depth = depth + 1;
        } else if v[i] == '}' {
            depth = depth - 1;
        }
        i = i + 1;
    }
    depth
}

/// Adds a change of depth to what was opened and to what was closed.
fn add_depth(up: u128, down: u128, net: i128) -> (r: (u128, u128))
    requires
        -(usize::MAX as int) <= net <= usize::MAX,
        up + usize::MAX <= u128::MAX,
        down + usize::MAX <= u128::MAX,
    ensures
        r.0 - r.1 == up - down + net,
        r.0 <= up + usize::MAX,
        r.1 <= down + usize::MAX,
{
    if net >= 0 {
        (up + net as u128, down)
    } else {
        (up, down + (-net) as u128)
    }
}

/// The top-level blocks of dependencies of a manifest: those whose keys
/// stand directly in the root object.
pub fn find_top_level_dep_blocks(all: &Vec<String>) -> (r: Vec<DepBlockRange>)
    ensures
        r.deep_view() == dep_blocks(all.deep_view()),
        forall|k: int|
            0 <= k < r@.len() ==> (#[trigger] r@[k]).start < r@[k].end && r@[k].end <= all@.len(),
{
    let ghost view = all.deep_view();
    let total: usize = all.len();
    let mut out: Vec<DepBlockRange> = Vec::new();
    let mut up: u128 = 0;
    let mut down: u128 = 0;
    let mut i: usize = 0;
    assert(out.deep_view() + blocks_from(view, 0, 0) =~= dep_blocks(view));
    while i < total
        invariant
            i <= total,
            total == all@.len(),
            view == all.deep_view(),
            up <= i * 0xffff_ffff_ffff_ffff,
            down <= i * 0xffff_ffff_ffff_ffff,
            out.deep_view() + blocks_from(view, i as int, up - down) == dep_blocks(view),
            forall|k: int|
                0 <= k < out@.len() ==> (#[trigger] out@[k]).start < out@[k].end && out@[k].end
                    <= total,
        decreases total - i,
    {
        assert(view[i as int] == all@[i as int]@);
        let line = all[i].as_str();
        let t = trim(line);
        let net = count_braces(line);
        let is_dev = starts_with(t, "\"devDependencies\"");
        let is_key = up == down + 1 && (starts_with(t, "\"dependencies\"") || is_dev);
        let sums = add_depth(up, down, net);
        up = sums.0;
        down = sums.1;
        if !is_key {
            i = i + 1;
            continue;
        }
        let start: usize = i;
        let ghost now = up - down;
        i = i + 1;
        while i < total && up > down + 1
            invariant
                start < i <= total,
                total == all@.len(),
                view == all.deep_view(),
                up <= i * 0xffff_ffff_ffff_ffff,
                down <= i * 0xffff_ffff_ffff_ffff,
                block_end(view, start + 1, net as int, now) == block_end(
                    view,
                    i as int,
                    up - down - 1,
                    up - down,
                ),
            decreases total - i,
        {
            assert(view[i as int] == all@[i as int]@);
            let more = count_braces(all[i].as_str());
            let sums = add_depth(up, down, more);
            up = sums.0;
            down = sums.1;
            i = i + 1;
        }
        let block = DepBlockRange {
            name: if is_dev {
                "devDependencies"
            } else {
                "dependencies"
            },
            start,
            end: i,
        };
        let ghost before = out.deep_view();
        let ghost one = block.deep_view();
        append_one(&mut out, block);
        assert(out.deep_view() + blocks_from(view, i as int, up - down) =~= before + (seq![one]
            + blocks_from(view, i as int, up - down)));
    }
    assert(out.deep_view() =~= dep_blocks(view));
    out
}

// ---------------------------------------------------------------------
// Updating or adding a dependency
// ---------------------------------------------------------------------

/// Line `i` is in one of the blocks.
pub open spec fn in_blocks(blocks: Seq<BlockView>, i: int) -> bool {
    exists|k: int| 0 <= k < blocks.len() && (#[trigger] blocks[k]).start <= i < blocks[k].end
}

/// A version in quotes.
pub open spec fn version_pattern() -> Seq<char> {
    r#"("[\^~><=]*[0-9][^"]*")"#@
}

/// The first line from `i` on in a block that names the package and has a
/// version.
pub open spec fn version_line(
    all: Seq<Seq<char>>,
    blocks: Seq<BlockView>,
    quoted: Seq<char>,
    versions: Seq<Option<Seq<char>>>,
    i: int,
) -> Option<int>
    decreases all.len() - i,
{
    if i < 0 || i >= all.len() {
        None
    } else if has_text(all[i], quoted) && in_blocks(blocks, i) && versions[i] is Some {
        Some(i)
    } else {
        version_line(all, blocks, quoted, versions, i + 1)
    }
}

/// The fix that updates a version.
pub open spec fn update_fix(
    rule_id: Seq<char>,
    manifest: Seq<char>,
    package: Seq<char>,
    new_version: Seq<char>,
    old_version: Seq<char>,
    line: u32,
) -> PlannedFixView {
    let quoted = "\""@ + new_version + "\""@;
    PlannedFixView {
        edits: seq![
            TextEditView {
                line,
                old_text: old_version,
                new_text: quoted,
                rule_id,
                description: "Update "@ + package + " from "@ + old_version + " to "@ + quoted,
                replace_all: false,
            },
        ],
        confidence: FixConfidence::Exact,
        source: FixSource::Pattern,
        rule_id,
        file_uri: "file://"@ + manifest,
        line,
        description: "Update "@ + package + " to "@ + new_version,
    }
}

/// The first block from `i` on with the given name.
pub open spec fn block_named(blocks: Seq<BlockView>, name: Seq<char>, i: int) -> Option<int>
    decreases blocks.len() - i,
{
    if i < 0 || i >= blocks.len() {
        None
    } else if blocks[i].name == name {
        Some(i)
    } else {
        block_named(blocks, name, i + 1)
    }
}

/// The block to which a dependency is added: `devDependencies` where there
/// is one, else `dependencies`.
pub open spec fn target_block(blocks: Seq<BlockView>) -> Option<int> {
    match block_named(blocks, "devDependencies"@, 0) {
        Some(k) => Some(k),
        None => block_named(blocks, "dependencies"@, 0),
    }
}

/// The line closes a block.
pub open spec fn closes_block(line: Seq<char>) -> bool {
    trimmed(line) == "}"@ || trimmed(line) == "},"@
}

/// The first line from `i` on and before `end` that closes a block.
pub open spec fn closing_at(all: Seq<Seq<char>>, i: int, end: int) -> Option<int>
    decreases end - i,
{
    if i >= end {
        None
    } else if closes_block(all[i]) {
        Some(i)
    } else {
        closing_at(all, i + 1, end)
    }
}

/// The line is an entry of a block.
pub open spec fn is_entry(line: Seq<char>) -> bool {
    let t = trimmed(line);
    t.len() > 0 && !begins(t, "\"dependencies\""@) && !begins(t, "\"devDependencies\""@) && t
        != "{"@
}

/// The last entry from line `start` on and before line `n`.
pub open spec fn last_entry(all: Seq<Seq<char>>, start: int, n: int) -> Option<int>
    decreases n - start,
{
    if n <= start {
        None
    } else if is_entry(all[n - 1]) {
        Some(n - 1)
    } else {
        last_entry(all, start, n - 1)
    }
}

/// The white space at the start of a line.
pub open spec fn indent_of(line: Seq<char>) -> Seq<char> {
    line.take(space_end(line, 0))
}

/// The edit that puts a comma behind the last entry, where it has none.
pub open spec fn comma_edits(
    rule_id: Seq<char>,
    all: Seq<Seq<char>>,
    last: Option<int>,
    package: Seq<char>,
) -> Seq<TextEditView> {
    match last {
        Some(i) => if ends(trimmed_end(all[i]), ","@) {
            Seq::empty()
        } else {
            seq![
                TextEditView {
                    line: (i + 1) as u32,
                    old_text: trimmed_end(all[i]),
                    new_text: trimmed_end(all[i]) + ","@,
                    rule_id,
                    description: "Add trailing comma before new dependency "@ + package,
                    replace_all: false,
                },
            ]
        },
        None => Seq::empty(),
    }
}

/// The fix that adds a dependency to a block before its closing line.
pub open spec fn insert_fix(
    rule_id: Seq<char>,
    manifest: Seq<char>,
    all: Seq<Seq<char>>,
    closing: int,
    last: Option<int>,
    package: Seq<char>,
    new_version: Seq<char>,
) -> PlannedFixView {
    let indent = match last {
        Some(i) => indent_of(all[i]),
        None => "    "@,
    };
    let words = "Add "@ + package + " "@ + new_version + " to dependencies"@;
    PlannedFixView {
        edits: comma_edits(rule_id, all, last, package).push(
            TextEditView {
                line: (closing + 1) as u32,
                old_text: all[closing],
                new_text: indent + "\""@ + package + "\": \""@ + new_version + "\"\n"@
                    + all[closing],
                rule_id,
                description: words,
                replace_all: false,
            },
        ),
        confidence: FixConfidence::Exact,
        source: FixSource::Pattern,
        rule_id,
        file_uri: "file://"@ + manifest,
        line: (closing + 1) as u32,
        description: words,
    }
}

/// The fix that brings a dependency to a version in a manifest, given the
/// version found on each line: the version is replaced where the package is
/// listed, and the package is added otherwise.
pub open spec fn manifest_fix(
    rule_id: Seq<char>,
    manifest: Seq<char>,
    source: Seq<char>,
    package: Seq<char>,
    new_version: Seq<char>,
    versions: Seq<Option<Seq<char>>>,
) -> Option<PlannedFixView> {
    let all = lines_of(source);
    let blocks = dep_blocks(all);
    match version_line(all, blocks, "\""@ + package + "\""@, versions, 0) {
        Some(i) => Some(
            update_fix(rule_id, manifest, package, new_version, versions[i]->0, (i + 1) as u32),
        ),
        None => match target_block(blocks) {
            None => None,
            Some(k) => {
                let b = blocks[k];
                match closing_at(all, b.start, b.end) {
                    None => None,
                    Some(closing) => Some(
                        insert_fix(
                            rule_id,
                            manifest,
                            all,
                            closing,
                            last_entry(all, b.start, closing),
                            package,
                            new_version,
                        ),
                    ),
                }
            },
        },
    }
}

/// The version on each line, as searching the line finds it.
pub open spec fn versions_on(all: Seq<Seq<char>>) -> Seq<Option<Seq<char>>> {
    Seq::new(
        all.len(),
        |i: int| crate::js::props::matched_part(regex_found(version_pattern(), all[i])),
    )
}

/// The manifest that a path stands for: the path itself where it is a
/// manifest, else the nearest one.
pub open spec fn manifest_for(ws: WorkspaceView, path: Seq<char>) -> Option<Seq<char>> {
    if name_of(path) == Some("package.json"@) {
        Some(path)
    } else {
        nearest_manifest(ws, path)
    }
}

/// The fix that brings a dependency to a version.
pub open spec fn dependency_fix(
    rule_id: Seq<char>,
    path: Seq<char>,
    package: Seq<char>,
    new_version: Seq<char>,
    ws: WorkspaceView,
) -> Option<PlannedFixView> {
    match manifest_for(ws, path) {
        None => None,
        Some(manifest) => match text_at(ws, manifest) {
            Err(_) => None,
            Ok(source) => if is_pattern(version_pattern()) {
                manifest_fix(
                    rule_id,
                    manifest,
                    source,
                    package,
                    new_version,
                    versions_on(lines_of(source)),
                )
            } else {
                None
            },
        },
    }
}

fn is_in_blocks(blocks: &Vec<DepBlockRange>, i: usize) -> (r: bool)
    ensures
        r == in_blocks(blocks.deep_view(), i as int),
{
    let ghost view = blocks.deep_view();
    let mut k: usize = 0;
    while k < blocks.len()
        invariant
            k <= blocks@.len(),
            view == blocks.deep_view(),
            forall|j: int|
                0 <= j < k ==> !((#[trigger] view[j]).start <= i && (i as int) < view[j].end),
        decreases blocks@.len() - k,
    {
        assert(view[k as int] == blocks@[k as int].deep_view());
        if blocks[k].start <= i && i < blocks[k].end {
            return true;
        }
        k = k + 1;
    }
    false
}

fn find_version_line(
    all: &Vec<String>,
    blocks: &Vec<DepBlockRange>,
    quoted: &str,
    versions: &Vec<Option<String>>,
) -> (r: Option<usize>)
    requires
        versions@.len() == all@.len(),
    ensures
        version_line(
            all.deep_view(),
            blocks.deep_view(),
            quoted@,
            versions.deep_view(),
            0,
        ) == (match r {
            Some(i) => Some(i as int),
            None => None,
        }),
        r matches Some(i) ==> i < all@.len() && versions@[i as int] is Some,
{
    let mut i: usize = 0;
    while i < all.len()
        invariant
            i <= all@.len(),
            versions@.len() == all@.len(),
            version_line(
                all.deep_view(),
                blocks.deep_view(),
                quoted@,
                versions.deep_view(),
                0,
            ) == version_line(
                all.deep_view(),
                blocks.deep_view(),
                quoted@,
                versions.deep_view(),
                i as int,
            ),
        decreases all@.len() - i,
    {
        assert(all.deep_view()[i as int] == all@[i as int]@);
        assert(versions.deep_view()[i as int] == versions@[i as int].deep_view());
        if contains(all[i].as_str(), quoted) && is_in_blocks(blocks, i) && versions[i].is_some() {
            return Some(i);
        }
        i = i + 1;
    }
    None
}

fn find_block(blocks: &Vec<DepBlockRange>, name: &str) -> (r: Option<usize>)
    ensures
        block_named(blocks.deep_view(), name@, 0) == (match r {
            Some(i) => Some(i as int),
            None => None,
        }),
        r matches Some(i) ==> i < blocks@.len(),
{
    let mut i: usize = 0;
    while i < blocks.len()
        invariant
            i <= blocks@.len(),
            block_named(blocks.deep_view(), name@, 0) == block_named(
                blocks.deep_view(),
                name@,
                i as int,
            ),
        decreases blocks@.len() - i,
    {
        assert(blocks.deep_view()[i as int] == blocks@[i as int].deep_view());
        if same(blocks[i].name, name) {
            return Some(i);
        }
        i = i + 1;
    }
    None
}

fn find_closing(all: &Vec<String>, from: usize, end: usize) -> (r: Option<usize>)
    requires
        from <= end <= all@.len(),
    ensures
        closing_at(all.deep_view(), from as int, end as int) == (match r {
            Some(i) => Some(i as int),
            None => None,
        }),
        r matches Some(i) ==> from <= i < end,
{
    let mut i: usize = from;
    while i < end
        invariant
            from <= i <= end <= all@.len(),
            closing_at(all.deep_view(), from as int, end as int) == closing_at(
                all.deep_view(),
                i as int,
                end as int,
            ),
        decreases end - i,
    {
        assert(all.deep_view()[i as int] == all@[i as int]@);
        let t = trim(all[i].as_str());
        if same(t, "}") || same(t, "},") {
            return Some(i);
        }
        i = i + 1;
    }
    None
}

fn find_last_entry(all: &Vec<String>, start: usize, end: usize) -> (r: Option<usize>)
    requires
        start <= end <= all@.len(),
    ensures
        last_entry(all.deep_view(), start as int, end as int) == (match r {
            Some(i) => Some(i as int),
            None => None,
        }),
        r matches Some(i) ==> start <= i < end,
{
    let mut n: usize = end;
    while n > start
        invariant
            start <= n <= end <= all@.len(),
            last_entry(all.deep_view(), start as int, end as int) == last_entry(
                all.deep_view(),
                start as int,
                n as int,
            ),
        decreases n,
    {
        assert(all.deep_view()[n - 1] == all@[n - 1]@);
        let t = trim(all[n - 1].as_str());
        if t.unicode_len() > 0 && !starts_with(t, "\"dependencies\"") && !starts_with(
            t,
            "\"devDependencies\"",
        ) && !same(t, "{") {
            return Some(n - 1);
        }
        n = n - 1;
    }
    None
}

fn leading_space(line: &str) -> (r: String)
    ensures
        r@ == indent_of(line@),
{
    let v = chars_of(line);
    let n = leading_spaces(&v);
    let r = piece(&v, 0, n);
    assert(r@ =~= indent_of(line@));
    r
}

fn make_update(
    rule_id: &str,
    manifest: &str,
    package: &str,
    new_version: &str,
    old_version: &str,
    line: u32,
) -> (r: PlannedFix)
    ensures
        r.deep_view() == update_fix(
            rule_id@,
            manifest@,
            package@,
            new_version@,
            old_version@,
            line,
        ),
{
    let quoted = cat3("\"", new_version, "\"");
    let edit = TextEdit {
        line,
        old_text: owned(old_version),
        new_text: quoted.clone(),
        rule_id: owned(rule_id),
        description: cat6("Update ", package, " from ", old_version, " to ", quoted.as_str()),
        replace_all: false,
    };
    PlannedFix {
        edits: only(edit),
        confidence: FixConfidence::Exact,
        source: FixSource::Pattern,
        rule_id: owned(rule_id),
        file_uri: cat2("file://", manifest),
        line,
        description: cat4("Update ", package, " to ", new_version),
    }
}

fn make_insert(
    rule_id: &str,
    manifest: &str,
    all: &Vec<String>,
    closing: usize,
    last: Option<usize>,
    package: &str,
    new_version: &str,
) -> (r: PlannedFix)
    requires
        closing < all@.len(),
        last matches Some(i) ==> i < closing,
    ensures
        r.deep_view() == insert_fix(
            rule_id@,
            manifest@,
            all.deep_view(),
            closing as int,
            match last {
                Some(i) => Some(i as int),
                None => None,
            },
            package@,
            new_version@,
        ),
{
    let ghost view = all.deep_view();
    let mut edits: Vec<TextEdit> = Vec::new();
    let mut indent = owned("    ");
    let ghost place: Option<int> = match last {
        Some(i) => Some(i as int),
        None => None,
    };
    let total: usize = all.len();
    match last {
        Some(i) => {
            assert(view[i as int] == all@[i as int]@);
            let line = all[i].as_str();
            indent = leading_space(line);
            let text = trim_end(line);
            if !ends_with(text, ",") {
                let edit = TextEdit {
                    line: (i + 1) as u32,
                    old_text: owned(text),
                    new_text: cat2(text, ","),
                    rule_id: owned(rule_id),
                    description: cat2("Add trailing comma before new dependency ", package),
                    replace_all: false,
                };
                edits = only(edit);
            }
        },
        None => {},
    }
    assert(edits.deep_view() =~= comma_edits(rule_id@, view, place, package@));
    assert(view[closing as int] == all@[closing as int]@);
    let closing_line = all[closing].as_str();
    let number = (closing + 1) as u32;
    let edit = TextEdit {
        line: number,
        old_text: owned(closing_line),
        new_text: cat7(
            indent.as_str(),
            "\"",
            package,
            "\": \"",
            new_version,
            "\"\n",
            closing_line,
        ),
        rule_id: owned(rule_id),
        description: cat5("Add ", package, " ", new_version, " to dependencies"),
        replace_all: false,
    };
    append_one(&mut edits, edit);
    PlannedFix {
        edits,
        confidence: FixConfidence::Exact,
        source: FixSource::Pattern,
        rule_id: owned(rule_id),
        file_uri: cat2("file://", manifest),
        line: number,
        description: cat5("Add ", package, " ", new_version, " to dependencies"),
    }
}

/// The fix that brings a dependency to a version in a manifest, given the
/// version found on each line of it.
pub fn plan_manifest_edit(
    rule_id: &str,
    manifest: &str,
    source: &str,
    package: &str,
    new_version: &str,
    versions: &Vec<Option<String>>,
) -> (r: Option<PlannedFix>)
    requires
        versions@.len() == lines_of(source@).len(),
    ensures
        r.deep_view() == manifest_fix(
            rule_id@,
            manifest@,
            source@,
            package@,
            new_version@,
            versions.deep_view(),
        ),
{
    let all = lines(source);
    assert(all.deep_view().len() == all@.len());
    let blocks = find_top_level_dep_blocks(&all);
    let quoted = cat3("\"", package, "\"");
    let total: usize = all.len();
    match find_version_line(&all, &blocks, quoted.as_str(), versions) {
        Some(i) => {
            assert(versions.deep_view()[i as int] == versions@[i as int].deep_view());
            match &versions[i] {
                Some(old_version) => {
                    return Some(
                        make_update(
                            rule_id,
                            manifest,
                            package,
                            new_version,
                            old_version.as_str(),
                            (i + 1) as u32,
                        ),
                    );
                },
                None => {},
            }
        },
        None => {},
    }
    let chosen = match find_block(&blocks, "devDependencies") {
        Some(k) => Some(k),
        None => find_block(&blocks, "dependencies"),
    };
    let k: usize = match chosen {
        Some(k) => k,
        None => {
            return None;
        },
    };
    assert(blocks.deep_view()[k as int] == blocks@[k as int].deep_view());
    let start: usize = blocks[k].start;
    let end: usize = blocks[k].end;
    let closing: usize = match find_closing(&all, start, end) {
        Some(i) => i,
        None => {
            return None;
        },
    };
    let last = find_last_entry(&all, start, closing);
    Some(make_insert(rule_id, manifest, &all, closing, last, package, new_version))
}

fn find_versions(all: &Vec<String>) -> (r: Vec<Option<String>>)
    requires
        is_pattern(version_pattern()),
    ensures
        r.deep_view() == versions_on(all.deep_view()),
        r@.len() == all@.len(),
{
    let ghost goal = versions_on(all.deep_view());
    let mut out: Vec<Option<String>> = Vec::new();
    let mut i: usize = 0;
    while i < all.len()
        invariant
            i <= all@.len(),
            is_pattern(version_pattern()),
            goal == versions_on(all.deep_view()),
            out@.len() == i,
            forall|k: int| 0 <= k < i ==> (#[trigger] out@[k]).deep_view() == goal[k],
        decreases all@.len() - i,
    {
        assert(all.deep_view()[i as int] == all@[i as int]@);
        let found = match find(r#"("[\^~><=]*[0-9][^"]*")"#, all[i].as_str()) {
            Some(m) => Some(m.1),
            None => None,
        };
        out.push(found);
        i = i + 1;
    }
    assert(out.deep_view() =~= goal);
    out
}

/// The fix that brings a dependency to a version in the manifest that is
/// nearest to a path.
pub fn plan_ensure_npm_dependency_inner(
    rule_id: &str,
    file_path: &str,
    package: &str,
    new_version: &str,
    ws: &Workspace,
) -> (r: Option<PlannedFix>)
    ensures
        r.deep_view() == dependency_fix(
            rule_id@,
            file_path@,
            package@,
            new_version@,
            ws.deep_view(),
        ),
{
    let is_manifest = match file_name(file_path) {
        Some(name) => same(name.as_str(), "package.json"),
        None => false,
    };
    let manifest: String = if is_manifest {
        owned(file_path)
    } else {
        match find_nearest_package_json(file_path, ws) {
            Some(m) => m,
            None => {
                return None;
            },
        }
    };
    let source = match ws.read(manifest.as_str()) {
        Ok(s) => s,
        Err(_) => {
            return None;
        },
    };
    if !compiles(r#"("[\^~><=]*[0-9][^"]*")"#) {
        return None;
    }
    let all = lines(source);
    assert(all.deep_view().len() == all@.len());
    let versions = find_versions(&all);
    plan_manifest_edit(rule_id, manifest.as_str(), source, package, new_version, &versions)
}

} // verus!
