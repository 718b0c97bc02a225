//! `package.json`: where its blocks of dependencies are, which line an update
//! edits, and what adding a dependency leaves unchanged.

use crate::engine::apply::{applied_file, edited_line, progress, repeated};
use crate::engine::dedup::all_edits;
use crate::js::manifest::{
    block_end, block_named, blocks_from, braces, closes_block, closing_at, comma_edits, dep_blocks,
    dependency_fix, in_blocks, indent_of, insert_fix, is_block_key, is_entry, last_entry,
    line_braces, manifest_fix, manifest_for, manifest_from, nearest_manifest, target_block,
    version_line, versions_on, BlockView,
};
use crate::laws::words::{
    count_of, law_the_first_occurrence_is_replaced, law_trimming_the_end, lemma_count_trimmed,
    lemma_space_end,
};
use crate::model::TextEditView;
use crate::paths::{joined_path, name_of, parent_of};
use crate::pattern::{is_pattern, regex_found};
use crate::text::{
    begins, ends, has_text, is_space, lemma_has_text_reflexive, lines_of, occurs_at, trimmed,
    trimmed_end,
};
use crate::workspace::{file_at, present, text_at, WorkspaceView};
use vstd::prelude::*;

verus! {

broadcast use vstd::string::group_string_axioms;

// ---------------------------------------------------------------------
// Blocks
// ---------------------------------------------------------------------

/// How deep in braces the document is before line `i`.
pub open spec fn depth_before(all: Seq<Seq<char>>, i: int) -> int
    decreases i,
{
    if i <= 0 {
        0
    } else {
        depth_before(all, i - 1) + count_of(all[i - 1], '{') - count_of(all[i - 1], '}')
    }
}

/// The line starts with the key of a block of dependencies.
pub open spec fn has_block_key(line: Seq<char>) -> bool {
    begins(trimmed(line), "\"dependencies\""@) || begins(trimmed(line), "\"devDependencies\""@)
}

/// The lines from `start` up to `end` are a block of dependencies: the key
/// stands directly in the root object, and the block goes on as long as the
/// document is deeper than that.
pub open spec fn is_dep_block(all: Seq<Seq<char>>, start: int, end: int) -> bool {
    &&& 0 <= start < end <= all.len()
    &&& depth_before(all, start) == 1
    &&& has_block_key(all[start])
    &&& forall|k: int| start < k < end ==> #[trigger] depth_before(all, k) > 1
    &&& end < all.len() ==> depth_before(all, end) <= 1
}

/// Line `i` is in a block of dependencies.
pub open spec fn in_dep_block(all: Seq<Seq<char>>, i: int) -> bool {
    exists|start: int, end: int| #[trigger] is_dep_block(all, start, end) && start <= i < end
}

proof fn lemma_braces(s: Seq<char>, n: int)
    requires
        0 <= n <= s.len(),
    ensures
        braces(s, n) == count_of(s.take(n), '{') - count_of(s.take(n), '}'),
    decreases n,
{
    if n > 0 {
        lemma_braces(s, n - 1);
        assert(s.take(n).drop_last() =~= s.take(n - 1));
        assert(s.take(n).last() == s[n - 1]);
    }
}

/// A line changes the depth by its opening braces less its closing ones.
proof fn lemma_line_braces(line: Seq<char>)
    ensures
        line_braces(line) == count_of(line, '{') - count_of(line, '}'),
{
    let t = trimmed(line);
    lemma_braces(t, t.len() as int);
    assert(t.take(t.len() as int) =~= t);
    assert(!is_space('{') && !is_space('}'));
    lemma_count_trimmed(line, '{');
    lemma_count_trimmed(line, '}');
}

proof fn lemma_block_end_place(all: Seq<Seq<char>>, i: int)
    requires
        0 <= i <= all.len(),
    ensures
        ({
            let (end, depth) = block_end(all, i, depth_before(all, i) - 1, depth_before(all, i));
            &&& i <= end <= all.len()
            &&& depth == depth_before(all, end)
            &&& forall|k: int| i <= k < end ==> #[trigger] depth_before(all, k) > 1
            &&& end < all.len() ==> depth_before(all, end) <= 1
        }),
    decreases all.len() - i,
{
    if i < all.len() && depth_before(all, i) > 1 {
        lemma_line_braces(all[i]);
        lemma_block_end_place(all, i + 1);
    }
}

/// Block `b` of a list of blocks is one of the document's.
spec fn fits(all: Seq<Seq<char>>, b: BlockView) -> bool {
    &&& is_dep_block(all, b.start, b.end)
    &&& b.name == if begins(trimmed(all[b.start]), "\"devDependencies\""@) {
        "devDependencies"@
    } else {
        "dependencies"@
    }
}

proof fn lemma_blocks(all: Seq<Seq<char>>, i: int)
    requires
        0 <= i <= all.len(),
    ensures
        ({
            let blocks = blocks_from(all, i, depth_before(all, i));
            &&& forall|k: int|
                0 <= k < blocks.len() ==> fits(all, #[trigger] blocks[k]) && blocks[k].start >= i
            &&& forall|k: int, l: int|
                0 <= k < l < blocks.len() ==> (#[trigger] blocks[k]).end
                    <= (#[trigger] blocks[l]).start
            &&& forall|j: int|
                i <= j < all.len() && #[trigger] depth_before(all, j) == 1 && has_block_key(all[j])
                    ==> exists|k: int| 0 <= k < blocks.len() && (#[trigger] blocks[k]).start == j
        }),
    decreases all.len() - i,
{
    let depth = depth_before(all, i);
    let blocks = blocks_from(all, i, depth);
    if i < all.len() {
        lemma_line_braces(all[i]);
        if is_block_key(all[i], depth) {
            lemma_block_end_place(all, i + 1);
            let now = depth_before(all, i + 1);
            let (end, after) = block_end(all, i + 1, now - 1, now);
            lemma_blocks(all, end);
            let rest = blocks_from(all, end, depth_before(all, end));
            assert(blocks.len() == rest.len() + 1);
            assert(is_dep_block(all, i, end));
            assert(fits(all, blocks[0]));
            assert forall|k: int| 0 <= k < blocks.len() implies fits(all, #[trigger] blocks[k])
                && blocks[k].start >= i by {
                if k > 0 {
                    assert(blocks[k] == rest[k - 1]);
                }
            }
            assert forall|k: int, l: int| 0 <= k < l < blocks.len() implies (
            #[trigger] blocks[k]).end <= (#[trigger] blocks[l]).start by {
                assert(blocks[l] == rest[l - 1]);
                if k > 0 {
                    assert(blocks[k] == rest[k - 1]);
                }
            }
            assert forall|j: int|
                i <= j < all.len() && #[trigger] depth_before(all, j) == 1 && has_block_key(
                    all[j],
                ) implies exists|k: int|
                0 <= k < blocks.len() && (#[trigger] blocks[k]).start == j by {
                if j == i {
                    assert(blocks[0].start == j);
                } else {
                    assert(j >= end);
                    let k = choose|k: int|
                        0 <= k < rest.len() && (#[trigger] rest[k]).start == j;
                    assert(blocks[k + 1] == rest[k]);
                }
            }
        } else {
            lemma_blocks(all, i + 1);
            let rest = blocks_from(all, i + 1, depth_before(all, i + 1));
            assert(blocks == rest);
            assert forall|j: int|
                i <= j < all.len() && #[trigger] depth_before(all, j) == 1 && has_block_key(
                    all[j],
                ) implies exists|k: int|
                0 <= k < blocks.len() && (#[trigger] blocks[k]).start == j by {
                assert(j != i);
            }
        }
    }
}

proof fn lemma_one_end(all: Seq<Seq<char>>, start: int, a: int, b: int)
    requires
        is_dep_block(all, start, a),
        is_dep_block(all, start, b),
    ensures
        a == b,
{
    if a < b {
        assert(depth_before(all, a) <= 1);
    } else if b < a {
        assert(depth_before(all, b) <= 1);
    }
}

/// The blocks that are found are the blocks of dependencies of the document,
/// all of them, in their order, each under its own name.
pub proof fn law_blocks_are_those_of_the_document(all: Seq<Seq<char>>)
    ensures
        forall|k: int|
            0 <= k < dep_blocks(all).len() ==> is_dep_block(
                all,
                (#[trigger] dep_blocks(all)[k]).start,
                dep_blocks(all)[k].end,
            ) && (dep_blocks(all)[k].name == "devDependencies"@ || dep_blocks(all)[k].name
                == "dependencies"@) && begins(
                trimmed(all[dep_blocks(all)[k].start]),
                "\""@ + dep_blocks(all)[k].name + "\""@,
            ),
        forall|k: int, l: int|
            0 <= k < l < dep_blocks(all).len() ==> (#[trigger] dep_blocks(all)[k]).end
                <= (#[trigger] dep_blocks(all)[l]).start,
        forall|start: int, end: int| #[trigger]
            is_dep_block(all, start, end) ==> exists|k: int|
                0 <= k < dep_blocks(all).len() && (#[trigger] dep_blocks(all)[k]).start == start
                    && dep_blocks(all)[k].end == end,
        forall|i: int| in_blocks(dep_blocks(all), i) <==> #[trigger] in_dep_block(all, i),
{
    let blocks = dep_blocks(all);
    lemma_blocks(all, 0);
    assert(blocks == blocks_from(all, 0, depth_before(all, 0)));
    reveal_strlit("\"");
    reveal_strlit("dependencies");
    reveal_strlit("devDependencies");
    reveal_strlit("\"dependencies\"");
    reveal_strlit("\"devDependencies\"");
    assert("\""@ + "dependencies"@ + "\""@ =~= "\"dependencies\""@);
    assert("\""@ + "devDependencies"@ + "\""@ =~= "\"devDependencies\""@);
    assert forall|k: int| 0 <= k < blocks.len() implies is_dep_block(
        all,
        (#[trigger] blocks[k]).start,
        blocks[k].end,
    ) && (blocks[k].name == "devDependencies"@ || blocks[k].name == "dependencies"@) && begins(
        trimmed(all[blocks[k].start]),
        "\""@ + blocks[k].name + "\""@,
    ) by {
        assert(fits(all, blocks[k]));
    }
    assert forall|start: int, end: int| #[trigger] is_dep_block(all, start, end) implies exists|
        k: int,
    |
        0 <= k < blocks.len() && (#[trigger] blocks[k]).start == start && blocks[k].end == end by {
        assert(depth_before(all, start) == 1);
        let k = choose|k: int| 0 <= k < blocks.len() && (#[trigger] blocks[k]).start == start;
        assert(fits(all, blocks[k]));
        lemma_one_end(all, start, end, blocks[k].end);
    }
    assert forall|i: int| in_blocks(blocks, i) <==> #[trigger] in_dep_block(all, i) by {
        if in_blocks(blocks, i) {
            let k = choose|k: int|
                0 <= k < blocks.len() && (#[trigger] blocks[k]).start <= i < blocks[k].end;
            assert(fits(all, blocks[k]));
            assert(is_dep_block(all, blocks[k].start, blocks[k].end));
        }
        if in_dep_block(all, i) {
            let (start, end) = choose|start: int, end: int| #[trigger]
                is_dep_block(all, start, end) && start <= i < end;
            let k = choose|k: int|
                0 <= k < blocks.len() && (#[trigger] blocks[k]).start == start && blocks[k].end
                    == end;
            assert(blocks[k].start <= i < blocks[k].end);
        }
    }
}

// ---------------------------------------------------------------------
// Updates
// ---------------------------------------------------------------------

/// Line `i` lists the package with a version: it is in a block of
/// dependencies, holds the package's name in quotes, and a version is on it.
pub open spec fn lists(
    all: Seq<Seq<char>>,
    package: Seq<char>,
    versions: Seq<Option<Seq<char>>>,
    i: int,
) -> bool {
    &&& 0 <= i < all.len()
    &&& has_text(all[i], seq!['"'] + package + seq!['"'])
    &&& in_dep_block(all, i)
    &&& versions[i] is Some
}

proof fn lemma_quoted(package: Seq<char>)
    ensures
        "\""@ + package + "\""@ == seq!['"'] + package + seq!['"'],
{
    reveal_strlit("\"");
    assert("\""@ =~= seq!['"']);
}

proof fn lemma_version_line(
    all: Seq<Seq<char>>,
    package: Seq<char>,
    versions: Seq<Option<Seq<char>>>,
    i: int,
)
    requires
        0 <= i <= all.len(),
    ensures
        match version_line(all, dep_blocks(all), "\""@ + package + "\""@, versions, i) {
            Some(k) => i <= k && lists(all, package, versions, k) && forall|j: int|
                i <= j < k ==> !#[trigger] lists(all, package, versions, j),
            None => forall|j: int| i <= j ==> !#[trigger] lists(all, package, versions, j),
        },
    decreases all.len() - i,
{
    lemma_quoted(package);
    law_blocks_are_those_of_the_document(all);
    if i < all.len() {
        assert(in_blocks(dep_blocks(all), i) <==> in_dep_block(all, i));
        lemma_version_line(all, package, versions, i + 1);
    }
}

/// Where a package is listed with a version, the version on the first such
/// line is replaced by the new one, in quotes, and nothing else is done: no
/// line that lists another package is edited.
pub proof fn law_update_edits_the_line_of_the_package(
    rule_id: Seq<char>,
    manifest: Seq<char>,
    source: Seq<char>,
    package: Seq<char>,
    new_version: Seq<char>,
    versions: Seq<Option<Seq<char>>>,
    i: int,
)
    requires
        lines_of(source).len() <= u32::MAX,
        versions.len() == lines_of(source).len(),
        lists(lines_of(source), package, versions, i),
        forall|j: int| 0 <= j < i ==> !#[trigger] lists(lines_of(source), package, versions, j),
    ensures
        manifest_fix(rule_id, manifest, source, package, new_version, versions) matches Some(fix)
            && {
            &&& fix.edits.len() == 1
            &&& fix.edits[0].line == i + 1
            &&& fix.edits[0].old_text == versions[i]->Some_0
            &&& fix.edits[0].new_text == seq!['"'] + new_version + seq!['"']
            &&& !fix.edits[0].replace_all
            &&& fix.line == i + 1
            &&& fix.file_uri == "file://"@ + manifest
        },
{
    let all = lines_of(source);
    lemma_version_line(all, package, versions, 0);
    lemma_quoted(new_version);
}

// ---------------------------------------------------------------------
// Additions
// ---------------------------------------------------------------------

proof fn lemma_closing(all: Seq<Seq<char>>, i: int, end: int)
    requires
        0 <= i <= end <= all.len(),
    ensures
        match closing_at(all, i, end) {
            Some(k) => i <= k < end && closes_block(all[k]) && forall|j: int|
                i <= j < k ==> !closes_block(#[trigger] all[j]),
            None => forall|j: int| i <= j < end ==> !closes_block(#[trigger] all[j]),
        },
    decreases end - i,
{
    if i < end {
        lemma_closing(all, i + 1, end);
    }
}

proof fn lemma_last(all: Seq<Seq<char>>, start: int, n: int)
    requires
        0 <= start <= n <= all.len(),
    ensures
        match last_entry(all, start, n) {
            Some(k) => start <= k < n && is_entry(all[k]) && forall|j: int|
                k < j < n ==> !is_entry(#[trigger] all[j]),
            None => forall|j: int| start <= j < n ==> !is_entry(#[trigger] all[j]),
        },
    decreases n - start,
{
    if start < n {
        lemma_last(all, start, n - 1);
    }
}

proof fn lemma_named(blocks: Seq<BlockView>, name: Seq<char>, i: int)
    requires
        0 <= i <= blocks.len(),
    ensures
        match block_named(blocks, name, i) {
            Some(k) => i <= k < blocks.len() && blocks[k].name == name && forall|j: int|
                i <= j < k ==> (#[trigger] blocks[j]).name != name,
            None => forall|j: int| i <= j < blocks.len() ==> (#[trigger] blocks[j]).name != name,
        },
    decreases blocks.len() - i,
{
    if i < blocks.len() {
        lemma_named(blocks, name, i + 1);
    }
}

/// The key line of a block is for development dependencies.
pub open spec fn is_dev_key(line: Seq<char>) -> bool {
    begins(trimmed(line), "\"devDependencies\""@)
}

/// The lines from `start` up to `end` are the block to add to: the first one
/// for development where there is one, and else the first one.
pub open spec fn is_target(all: Seq<Seq<char>>, start: int, end: int) -> bool {
    &&& is_dep_block(all, start, end)
    &&& is_dev_key(all[start]) || forall|s: int, e: int| #[trigger]
        is_dep_block(all, s, e) ==> !is_dev_key(all[s])
    &&& forall|s: int, e: int| #[trigger]
        is_dep_block(all, s, e) && is_dev_key(all[s]) == is_dev_key(all[start]) ==> start <= s
}

proof fn lemma_keys_differ(line: Seq<char>)
    ensures
        !(begins(trimmed(line), "\"dependencies\""@) && begins(
            trimmed(line),
            "\"devDependencies\""@,
        )),
        "dependencies"@ != "devDependencies"@,
{
    reveal_strlit("\"dependencies\"");
    reveal_strlit("\"devDependencies\"");
    reveal_strlit("dependencies");
    reveal_strlit("devDependencies");
    assert("dependencies"@.len() != "devDependencies"@.len());
    let t = trimmed(line);
    let a = "\"dependencies\""@;
    let b = "\"devDependencies\""@;
    if begins(t, a) && begins(t, b) {
        assert(t.subrange(0, a.len() as int)[2] == 'e');
        assert(t.subrange(0, a.len() as int)[3] == 'p');
        assert(t.subrange(0, b.len() as int)[3] == 'v');
        assert(t[3] == 'p' && t[3] == 'v');
    }
}

proof fn lemma_target(all: Seq<Seq<char>>)
    ensures
        match target_block(dep_blocks(all)) {
            Some(k) => 0 <= k < dep_blocks(all).len() && is_target(
                all,
                dep_blocks(all)[k].start,
                dep_blocks(all)[k].end,
            ),
            None => forall|s: int, e: int| !#[trigger] is_dep_block(all, s, e),
        },
{
    let blocks = dep_blocks(all);
    law_blocks_are_those_of_the_document(all);
    lemma_blocks(all, 0);
    lemma_named(blocks, "devDependencies"@, 0);
    lemma_named(blocks, "dependencies"@, 0);
    match target_block(blocks) {
        Some(k) => {
            assert(fits(all, blocks[k]));
            lemma_keys_differ(all[blocks[k].start]);
            let start = blocks[k].start;
            assert forall|s: int, e: int| #[trigger] is_dep_block(all, s, e) && is_dev_key(all[s])
                == is_dev_key(all[start]) implies start <= s by {
                let j = choose|j: int|
                    0 <= j < blocks.len() && (#[trigger] blocks[j]).start == s && blocks[j].end == e;
                assert(fits(all, blocks[j]));
                lemma_keys_differ(all[s]);
                assert(j >= k);
                if j > k {
                    assert(blocks[k].end <= blocks[j].start);
                }
            }
            if !is_dev_key(all[start]) {
                assert forall|s: int, e: int| #[trigger] is_dep_block(all, s, e) implies
                    !is_dev_key(all[s]) by {
                    let j = choose|j: int|
                        0 <= j < blocks.len() && (#[trigger] blocks[j]).start == s && blocks[j].end
                            == e;
                    assert(fits(all, blocks[j]));
                }
            }
        },
        None => {
            assert forall|s: int, e: int| !#[trigger] is_dep_block(all, s, e) by {
                if is_dep_block(all, s, e) {
                    let j = choose|j: int|
                        0 <= j < blocks.len() && (#[trigger] blocks[j]).start == s && blocks[j].end
                            == e;
                    assert(fits(all, blocks[j]));
                }
            }
        },
    }
}

/// Line `closing` is the first of the block that holds nothing but the brace
/// that closes it.
pub open spec fn is_closing(all: Seq<Seq<char>>, start: int, end: int, closing: int) -> bool {
    &&& start <= closing < end
    &&& trimmed(all[closing]) == seq!['}'] || trimmed(all[closing]) == seq!['}', ',']
    &&& forall|j: int|
        start <= j < closing ==> trimmed(#[trigger] all[j]) != seq!['}'] && trimmed(all[j])
            != seq!['}', ',']
}

/// Line `last` is the last one of the block, before its closing line, that
/// is neither empty nor the line that opens the block.
pub open spec fn is_last_entry(
    all: Seq<Seq<char>>,
    start: int,
    closing: int,
    last: Option<int>,
) -> bool {
    &&& last matches Some(l) ==> start <= l < closing && !is_opening(all[l])
    &&& forall|j: int|
        start <= j < closing && (last matches Some(l) ==> l < j) ==> is_opening(#[trigger] all[j])
}

/// The line is empty, holds the key of a block, or just the opening brace.
pub open spec fn is_opening(line: Seq<char>) -> bool {
    trimmed(line).len() == 0 || has_block_key(line) || trimmed(line) == seq!['{']
}

/// The leading white space of a line.
pub open spec fn is_indent(line: Seq<char>, indent: Seq<char>) -> bool {
    &&& indent.len() <= line.len()
    &&& line.take(indent.len() as int) == indent
    &&& forall|i: int| 0 <= i < indent.len() ==> is_space(#[trigger] indent[i])
    &&& indent.len() < line.len() ==> !is_space(line[indent.len() as int])
}

/// The indentation of a new entry: that of the entry before it, or four
/// blanks where it is the first.
pub open spec fn is_new_indent(
    all: Seq<Seq<char>>,
    last: Option<int>,
    indent: Seq<char>,
) -> bool {
    match last {
        Some(l) => is_indent(all[l], indent),
        None => indent == seq![' ', ' ', ' ', ' '],
    }
}

/// What a file becomes when an entry is put before line `closing`: that line
/// begins with the entry, the entry before it ends in a comma, and every
/// other line is as it was.
pub open spec fn entry_added(
    before: Seq<Seq<char>>,
    after: Seq<Seq<char>>,
    closing: int,
    last: Option<int>,
    entry: Seq<char>,
) -> bool {
    &&& after.len() == before.len()
    &&& after[closing] == entry + seq!['\n'] + before[closing]
    &&& last matches Some(l) ==> {
        let text = trimmed_end(before[l]);
        if text.len() > 0 && text.last() == ',' {
            after[l] == before[l]
        } else {
            after[l] == text + seq![','] + before[l].skip(text.len() as int)
        }
    }
    &&& forall|k: int|
        0 <= k < before.len() && k != closing && Some(k) != last ==> #[trigger] after[k]
            == before[k]
}

proof fn lemma_whole_line(text: Seq<char>, e: TextEditView)
    requires
        e.old_text == text,
        !e.replace_all,
    ensures
        has_text(text, text),
        edited_line(text, e) == e.new_text,
{
    let none = Seq::<char>::empty();
    lemma_has_text_reflexive(text);
    assert(text.subrange(0, text.len() as int) =~= text);
    assert(none + text + none =~= text);
    law_the_first_occurrence_is_replaced(none, text, e.new_text, none);
    assert(none + e.new_text + none =~= e.new_text);
}

proof fn lemma_line_start(line: Seq<char>, text: Seq<char>, e: TextEditView)
    requires
        text.len() <= line.len(),
        line.subrange(0, text.len() as int) == text,
        e.old_text == text,
        !e.replace_all,
    ensures
        has_text(line, text),
        edited_line(line, e) == e.new_text + line.skip(text.len() as int),
{
    let none = Seq::<char>::empty();
    let rest = line.skip(text.len() as int);
    assert(none + text + rest =~= line);
    assert(occurs_at(line, text, 0));
    law_the_first_occurrence_is_replaced(none, text, e.new_text, rest);
    assert(none + e.new_text + rest =~= e.new_text + rest);
}

proof fn lemma_insert_applied(
    rule_id: Seq<char>,
    manifest: Seq<char>,
    path: Seq<char>,
    source: Seq<char>,
    closing: int,
    last: Option<int>,
    package: Seq<char>,
    new_version: Seq<char>,
)
    requires
        lines_of(source).len() <= u32::MAX,
        0 <= closing < lines_of(source).len(),
        last matches Some(l) ==> 0 <= l < closing,
    ensures
        ({
            let all = lines_of(source);
            let indent = match last {
                Some(l) => indent_of(all[l]),
                None => "    "@,
            };
            let fix = insert_fix(rule_id, manifest, all, closing, last, package, new_version);
            &&& entry_added(
                all,
                applied_file(path, source, seq![fix]).lines,
                closing,
                last,
                indent + seq!['"'] + package + seq!['"', ':', ' ', '"'] + new_version + seq!['"'],
            )
            &&& applied_file(path, source, seq![fix]).failed.len() == 0
        }),
{
    let all = lines_of(source);
    let fix = insert_fix(rule_id, manifest, all, closing, last, package, new_version);
    let edits = fix.edits;
    let commas = comma_edits(rule_id, all, last, package);
    let indent = match last {
        Some(l) => indent_of(all[l]),
        None => "    "@,
    };
    let entry = indent + seq!['"'] + package + seq!['"', ':', ' ', '"'] + new_version + seq!['"'];
    reveal_strlit("\"");
    reveal_strlit("\": \"");
    reveal_strlit("\"\n");
    reveal_strlit(",");
    assert("\""@ =~= seq!['"']);
    assert("\": \""@ =~= seq!['"', ':', ' ', '"']);
    assert("\"\n"@ =~= seq!['"', '\n']);
    assert(","@ =~= seq![',']);
    let n = edits.len() as int;
    let e = edits[n - 1];
    assert(e.new_text =~= entry + seq!['\n'] + all[closing]);
    reveal_with_fuel(all_edits, 2);
    assert(all_edits(seq![fix], 1) =~= edits);
    reveal_with_fuel(progress, 3);
    lemma_whole_line(all[closing], e);
    let after = progress(path, all, edits, n);
    match last {
        Some(l) => {
            let text = trimmed_end(all[l]);
            law_trimming_the_end(all[l]);
            if text.len() > 0 && text.last() == ',' {
                assert(text.subrange(text.len() - 1, text.len() as int) =~= ","@);
                assert(ends(text, ","@));
                assert(commas.len() == 0);
                assert(!repeated(edits, 0));
            } else {
                if ends(text, ","@) {
                    assert(text.subrange(text.len() - 1, text.len() as int)[0] == ',');
                }
                assert(commas.len() == 1);
                assert(edits[0] == commas[0]);
                assert(edits[1] == e);
                assert(!repeated(edits, 0));
                assert(!repeated(edits, 1));
                lemma_line_start(all[l], text, edits[0]);
                let once = progress(path, all, edits, 1);
                assert(once.lines == all.update(l, edited_line(all[l], edits[0])));
                assert(once.lines[closing] == all[closing]);
            }
        },
        None => {
            assert(commas.len() == 0);
            assert(!repeated(edits, 0));
        },
    }
}

/// Where a package is listed on no line, nothing that is listed changes: the
/// fix adds an entry to the block that dependencies are added to, in front
/// of its closing line, with a comma behind the entry before it and that
/// entry's indentation.
pub proof fn law_unlisted_package_is_added(
    rule_id: Seq<char>,
    manifest: Seq<char>,
    path: Seq<char>,
    source: Seq<char>,
    package: Seq<char>,
    new_version: Seq<char>,
    versions: Seq<Option<Seq<char>>>,
    start: int,
    end: int,
    closing: int,
)
    requires
        lines_of(source).len() <= u32::MAX,
        versions.len() == lines_of(source).len(),
        forall|j: int| !#[trigger] lists(lines_of(source), package, versions, j),
        is_target(lines_of(source), start, end),
        is_closing(lines_of(source), start, end, closing),
    ensures
        manifest_fix(rule_id, manifest, source, package, new_version, versions) matches Some(fix)
            && exists|last: Option<int>, indent: Seq<char>| #[trigger]
            is_last_entry(lines_of(source), start, closing, last) && #[trigger] is_new_indent(lines_of(source), last, indent) && entry_added(
                lines_of(source),
                applied_file(path, source, seq![fix]).lines,
                closing,
                last,
                indent + seq!['"'] + package + seq!['"', ':', ' ', '"'] + new_version + seq!['"'],
            ) && applied_file(path, source, seq![fix]).failed.len() == 0,
{
    let all = lines_of(source);
    let blocks = dep_blocks(all);
    lemma_version_line(all, package, versions, 0);
    lemma_target(all);
    let k = target_block(blocks)->Some_0;
    let b = blocks[k];
    assert(is_target(all, b.start, b.end));
    assert(b.start == start);
    lemma_one_end(all, start, end, b.end);
    reveal_strlit("}");
    reveal_strlit("},");
    reveal_strlit("{");
    reveal_strlit("    ");
    assert("}"@ =~= seq!['}']);
    assert("},"@ =~= seq!['}', ',']);
    assert("{"@ =~= seq!['{']);
    assert("    "@ =~= seq![' ', ' ', ' ', ' ']);
    lemma_closing(all, start, end);
    assert(closing_at(all, start, end) == Some(closing)) by {
        assert(closes_block(all[closing]));
        let found = closing_at(all, start, end)->Some_0;
        if found < closing {
            assert(closes_block(all[found]));
        }
    }
    lemma_last(all, start, closing);
    let last = last_entry(all, start, closing);
    assert(is_last_entry(all, start, closing, last)) by {
        assert forall|j: int|
            start <= j < closing && (last matches Some(l) ==> l < j) implies is_opening(
            #[trigger] all[j],
        ) by {
            assert(!is_entry(all[j]));
        }
    }
    let indent = match last {
        Some(l) => indent_of(all[l]),
        None => "    "@,
    };
    if last is Some {
        let line = all[last->Some_0];
        lemma_space_end(line, 0);
        assert(line.take(indent.len() as int) =~= indent);
        assert forall|i: int| 0 <= i < indent.len() implies is_space(#[trigger] indent[i]) by {
            assert(indent[i] == line[i]);
        }
    }
    assert(is_new_indent(all, last, indent));
    lemma_insert_applied(
        rule_id,
        manifest,
        path,
        source,
        closing,
        last,
        package,
        new_version,
    );
}

/// Where a package is listed on no line and there is no block to add it to,
/// or no line closes that block, there is no fix.
pub proof fn law_without_a_block_nothing_is_planned(
    rule_id: Seq<char>,
    manifest: Seq<char>,
    source: Seq<char>,
    package: Seq<char>,
    new_version: Seq<char>,
    versions: Seq<Option<Seq<char>>>,
)
    requires
        versions.len() == lines_of(source).len(),
        forall|j: int| !#[trigger] lists(lines_of(source), package, versions, j),
        forall|start: int, end: int, closing: int|
            #![trigger is_target(lines_of(source), start, end), is_closing(lines_of(source), start, end, closing)]
            !(is_target(lines_of(source), start, end) && is_closing(
                lines_of(source),
                start,
                end,
                closing,
            )),
    ensures
        manifest_fix(rule_id, manifest, source, package, new_version, versions) is None,
{
    let all = lines_of(source);
    let blocks = dep_blocks(all);
    lemma_version_line(all, package, versions, 0);
    lemma_target(all);
    match target_block(blocks) {
        Some(k) => {
            let b = blocks[k];
            reveal_strlit("}");
            reveal_strlit("},");
            assert("}"@ =~= seq!['}']);
            assert("},"@ =~= seq!['}', ',']);
            assert(is_target(all, b.start, b.end));
            lemma_closing(all, b.start, b.end);
            match closing_at(all, b.start, b.end) {
                Some(c) => {
                    assert forall|j: int| b.start <= j < c implies trimmed(#[trigger] all[j])
                        != seq!['}'] && trimmed(all[j]) != seq!['}', ','] by {
                        assert(!closes_block(all[j]));
                    }
                    assert(is_closing(all, b.start, b.end, c));
                },
                None => {},
            }
        },
        None => {},
    }
}

// ---------------------------------------------------------------------
// Finding the manifest
// ---------------------------------------------------------------------

proof fn lemma_manifest_is_there(ws: WorkspaceView, dir: Seq<char>)
    ensures
        manifest_from(ws, dir) matches Some(m) ==> present(ws, m),
    decreases dir.len(),
{
    if !present(ws, joined_path(dir, "package.json"@)) {
        match parent_of(dir) {
            Some(up) => {
                crate::paths::lemma_parent_is_shorter(dir);
                lemma_manifest_is_there(ws, up);
            },
            None => {},
        }
    }
}

/// The manifest nearest to a directory is its own `package.json` where it has
/// one, and else the one nearest to the directory above; the one nearest to
/// a file is the one nearest to the file's directory. What is found is there.
pub proof fn law_nearest_manifest(ws: WorkspaceView, dir: Seq<char>)
    ensures
        !file_at(ws, dir) && present(ws, joined_path(dir, "package.json"@)) ==> nearest_manifest(
            ws,
            dir,
        ) == Some(joined_path(dir, "package.json"@)),
        !file_at(ws, dir) && !present(ws, joined_path(dir, "package.json"@)) ==> (match parent_of(
            dir,
        ) {
            Some(up) => !file_at(ws, up) ==> nearest_manifest(ws, dir) == nearest_manifest(ws, up),
            None => nearest_manifest(ws, dir) is None,
        }),
        file_at(ws, dir) ==> (match parent_of(dir) {
            Some(up) => !file_at(ws, up) ==> nearest_manifest(ws, dir) == nearest_manifest(ws, up),
            None => nearest_manifest(ws, dir) is None,
        }),
        nearest_manifest(ws, dir) matches Some(m) ==> present(ws, m),
        name_of(dir) == Some("package.json"@) ==> manifest_for(ws, dir) == Some(dir),
        name_of(dir) != Some("package.json"@) ==> manifest_for(ws, dir) == nearest_manifest(
            ws,
            dir,
        ),
{
    lemma_manifest_is_there(ws, dir);
    match parent_of(dir) {
        Some(up) => {
            lemma_manifest_is_there(ws, up);
        },
        None => {},
    }
}

/// The version on a line: a text in quotes that holds a digit, with nothing
/// but the signs of a range before it.
pub open spec fn version_on(line: Seq<char>) -> Option<Seq<char>> {
    match regex_found(r#"("[\^~><=]*[0-9][^"]*")"#@, line) {
        Some((before, found, after)) => Some(found),
        None => None,
    }
}

/// Bringing a dependency to a version edits the manifest that the path
/// stands for, by the versions on its lines; without a manifest that can be
/// read there is no fix.
pub proof fn law_dependency_is_brought_to_a_version(
    rule_id: Seq<char>,
    path: Seq<char>,
    package: Seq<char>,
    new_version: Seq<char>,
    ws: WorkspaceView,
    versions: Seq<Option<Seq<char>>>,
)
    ensures
        manifest_for(ws, path) is None ==> dependency_fix(
            rule_id,
            path,
            package,
            new_version,
            ws,
        ) is None,
        manifest_for(ws, path) matches Some(manifest) ==> (match text_at(ws, manifest) {
            Err(_) => dependency_fix(rule_id, path, package, new_version, ws) is None,
            Ok(source) => is_pattern(r#"("[\^~><=]*[0-9][^"]*")"#@) && versions.len() == lines_of(
                source,
            ).len() && (forall|i: int|
                0 <= i < versions.len() ==> #[trigger] versions[i] == version_on(
                    lines_of(source)[i],
                )) ==> dependency_fix(rule_id, path, package, new_version, ws) == manifest_fix(
                rule_id,
                manifest,
                source,
                package,
                new_version,
                versions,
            ),
        }),
{
    match manifest_for(ws, path) {
        Some(manifest) => match text_at(ws, manifest) {
            Ok(source) => {
                let all = lines_of(source);
                if versions.len() == all.len() && (forall|i: int|
                    0 <= i < versions.len() ==> #[trigger] versions[i] == version_on(all[i])) {
                    assert(versions =~= versions_on(all));
                }
            },
            Err(_) => {},
        },
        None => {},
    }
}

} // verus!
