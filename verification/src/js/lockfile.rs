//! Lockfiles: which packages depend on a given one.
//!
//! `yarn.lock` (berry), `package-lock.json` and `pnpm-lock.yaml` are
//! understood.

use crate::json::{
    json_document, json_member, json_members, json_tree, member, member_views, members_of, parse,
    Json, JsonView,
};
use crate::paths::{file_name, name_of, split, split_at_char};
use crate::text::{
    begins, cat3, char_pos, chars_of, contains, has_text, leading_spaces, lines, lines_of, owned, piece,
    position_of, rfind, rfind_text, same, space_end, starts_with, strip_prefix, trim, trimmed, without_prefix,
};
use crate::views::{append_all, append_one, copy_texts, distinct, distinct_texts, same_texts};
use crate::workspace::{text_at, Workspace, WorkspaceView};
use crate::yaml::{
    entries_of, entry_trees, scalar_text, yaml_document, yaml_entries, yaml_member, yaml_scalar,
    yaml_string, yaml_tree, YamlView,
};
use vstd::prelude::*;

verus! {

broadcast use vstd::string::group_string_axioms;

/// The path names a lockfile.
pub open spec fn names_lockfile(path: Seq<char>) -> bool {
    name_of(path) == Some("yarn.lock"@) || name_of(path) == Some("package-lock.json"@) || name_of(
        path,
    ) == Some("pnpm-lock.yaml"@)
}

/// Whether the path names a lockfile.
pub fn is_lockfile(path: &str) -> (r: bool)
    ensures
        r == names_lockfile(path@),
{
    match file_name(path) {
        Some(name) => same(name.as_str(), "yarn.lock") || same(name.as_str(), "package-lock.json")
            || same(name.as_str(), "pnpm-lock.yaml"),
        None => false,
    }
}

// ---------------------------------------------------------------------
// yarn.lock
// ---------------------------------------------------------------------

/// A text without any number of `c` at its end.
pub open spec fn without_tail(s: Seq<char>, c: char) -> Seq<char>
    decreases s.len(),
{
    if s.len() > 0 && s.last() == c {
        without_tail(s.drop_last(), c)
    } else {
        s
    }
}

/// A text without any number of `c` at its start.
pub open spec fn without_head(s: Seq<char>, c: char) -> Seq<char>
    decreases s.len(),
{
    if s.len() > 0 && s[0] == c {
        without_head(s.skip(1), c)
    } else {
        s
    }
}

/// A text without any number of quotes at either end.
pub open spec fn unquoted(s: Seq<char>) -> Seq<char> {
    without_tail(without_head(s, '"'), '"')
}

/// The first of the specifiers in the heading of an entry.
pub open spec fn first_specifier(line: Seq<char>) -> Seq<char> {
    let heading = unquoted(without_tail(trimmed(line), ':'));
    unquoted(trimmed(split_at_char(heading, ',')[0]))
}

/// Where the protocol stands in a specifier.
pub open spec fn protocol_at(s: Seq<char>) -> Option<int> {
    match rfind_text(s, "@npm:"@) {
        Some(p) => Some(p),
        None => rfind_text(s, "@workspace:"@),
    }
}

/// The first `n` characters, unless there are none.
pub open spec fn named(s: Seq<char>, n: int) -> Option<Seq<char>> {
    if n > 0 {
        Some(s.take(n))
    } else {
        None
    }
}

/// The name in a specifier without a protocol: what stands before the `@`
/// that does not begin a scope.
pub open spec fn plain_name(s: Seq<char>) -> Option<Seq<char>> {
    let from = if s.len() > 0 && s[0] == '@' {
        char_pos(s, '/', 0)
    } else {
        0
    };
    let at = char_pos(s, '@', from);
    if from < s.len() && at < s.len() {
        named(s, at)
    } else {
        None
    }
}

/// The name of the package whose entry begins with the heading.
pub open spec fn yarn_entry_name(line: Seq<char>) -> Option<Seq<char>> {
    let s = first_specifier(line);
    match protocol_at(s) {
        Some(p) => if p > 0 {
            Some(s.take(p))
        } else {
            plain_name(s)
        },
        None => plain_name(s),
    }
}

/// How far reading a `yarn.lock` has come: the entry, the indentation of the
/// key whose block of dependencies is being listed, and the entries found.
#[verifier::ext_equal]
pub ghost struct YarnScan {
    pub entry: Option<Seq<char>>,
    pub block: Option<int>,
    pub found: Seq<Seq<char>>,
}

/// The line begins an entry.
pub open spec fn is_heading(line: Seq<char>) -> bool {
    line.len() > 0 && line[0] != ' ' && line[0] != '\t'
}

/// The indentation of a line.
pub open spec fn depth_of(line: Seq<char>) -> int {
    space_end(line, 0)
}

/// The line is the key of a block of dependencies.
pub open spec fn opens_block(line: Seq<char>) -> bool {
    trimmed(line) == "dependencies:"@ || trimmed(line) == "peerDependencies:"@
}

/// The line is in the block whose key has the indentation `block`: it is
/// indented deeper than the key. An empty line ends no block.
pub open spec fn in_block(block: Option<int>, line: Seq<char>) -> bool {
    block matches Some(key) && (trimmed(line).len() == 0 || depth_of(line) > key)
}

/// One more line. A heading ends the block of dependencies, and so does a
/// line that is indented no deeper than the key of the block.
pub open spec fn yarn_step(s: YarnScan, line: Seq<char>, needle: Seq<char>) -> YarnScan {
    if is_heading(line) {
        YarnScan { entry: yarn_entry_name(line), block: None, found: s.found }
    } else if in_block(s.block, line) {
        if has_text(trimmed(line), needle) && s.entry is Some {
            YarnScan { found: s.found.push(s.entry->0), ..s }
        } else {
            s
        }
    } else if opens_block(line) {
        YarnScan { block: Some(depth_of(line)), ..s }
    } else {
        YarnScan { block: None, ..s }
    }
}

/// The first `n` lines.
pub open spec fn yarn_scan(all: Seq<Seq<char>>, needle: Seq<char>, n: int) -> YarnScan
    decreases n,
{
    if n <= 0 {
        YarnScan { entry: None, block: None, found: Seq::empty() }
    } else {
        yarn_step(yarn_scan(all, needle, n - 1), all[n - 1], needle)
    }
}

/// The packages whose entries in a `yarn.lock` list the target among their
/// dependencies.
pub open spec fn yarn_dependents(content: Seq<char>, target: Seq<char>) -> Seq<Seq<char>> {
    let all = lines_of(content);
    yarn_scan(all, "\""@ + target + "\":"@, all.len() as int).found
}

/// The indentation of a key as a number without bounds.
pub open spec fn key_depth(block: Option<usize>) -> Option<int> {
    match block {
        Some(d) => Some(d as int),
        None => None,
    }
}

fn drop_tail(s: &str, c: char) -> (r: &str)
    ensures
        r@ == without_tail(s@, c),
{
    let v = chars_of(s);
    let mut n: usize = v.len();
    assert(s@.take(n as int) =~= s@);
    while n > 0 && v[n - 1] == c
        invariant
            n <= v@.len(),
            v@ == s@,
            without_tail(s@, c) == without_tail(s@.take(n as int), c),
        decreases n,
    {
        assert(s@.take(n as int).drop_last() =~= s@.take(n - 1));
        n = n - 1;
    }
    let r = s.substring_char(0, n);
    assert(r@ =~= s@.take(n as int));
    r
}

fn drop_head(s: &str, c: char) -> (r: &str)
    ensures
        r@ == without_head(s@, c),
{
    let v = chars_of(s);
    let mut n: usize = 0;
    assert(s@.skip(0) =~= s@);
    while n < v.len() && v[n] == c
        invariant
            n <= v@.len(),
            v@ == s@,
            without_head(s@, c) == without_head(s@.skip(n as int), c),
        decreases v@.len() - n,
    {
        assert(s@.skip(n as int).skip(1) =~= s@.skip(n + 1));
        n = n + 1;
    }
    let r = s.substring_char(n, v.len());
    assert(r@ =~= s@.skip(n as int));
    r
}

fn unquote(s: &str) -> (r: &str)
    ensures
        r@ == unquoted(s@),
{
    drop_tail(drop_head(s, '"'), '"')
}

fn take_name(v: &Vec<char>, n: usize) -> (r: Option<String>)
    requires
        n <= v@.len(),
    ensures
        r.deep_view() == named(v@, n as int),
{
    if n > 0 {
        let name = piece(v, 0, n);
        assert(name@ =~= v@.take(n as int));
        Some(name)
    } else {
        None
    }
}

fn find_plain_name(v: &Vec<char>) -> (r: Option<String>)
    ensures
        r.deep_view() == plain_name(v@),
{
    let from: usize = if v.len() > 0 && v[0] == '@' {
        position_of(v, '/', 0)
    } else {
        0
    };
    if from >= v.len() {
        return None;
    }
    let at = position_of(v, '@', from);
    if at < v.len() {
        take_name(v, at)
    } else {
        None
    }
}

/// The name of the package whose entry in a `yarn.lock` begins with the
/// heading.
pub fn extract_yarn_entry_name(line: &str) -> (r: Option<String>)
    ensures
        r.deep_view() == yarn_entry_name(line@),
{
    let heading = unquote(drop_tail(trim(line), ':'));
    let pieces = split(heading, ',');
    assert(pieces.deep_view()[0] == pieces@[0]@);
    let first = unquote(trim(pieces[0].as_str()));
    let v = chars_of(first);
    let npm = chars_of("@npm:");
    let workspace = chars_of("@workspace:");
    let protocol = match rfind(&v, &npm) {
        Some(p) => Some(p),
        None => rfind(&v, &workspace),
    };
    match protocol {
        Some(p) => {
            if p > 0 {
                let name = piece(&v, 0, p);
                assert(name@ =~= first@.take(p as int));
                return Some(name);
            }
        },
        None => {},
    }
    find_plain_name(&v)
}

/// The packages whose entries in a `yarn.lock` list the target among their
/// dependencies.
pub fn find_dependents_yarn(content: &str, target_package: &str) -> (r: Vec<String>)
    ensures
        r.deep_view() == yarn_dependents(content@, target_package@),
{
    let needle = cat3("\"", target_package, "\":");
    let all = lines(content);
    let ghost view = all.deep_view();
    let mut entry: Option<String> = None;
    let mut block: Option<usize> = None;
    let mut found: Vec<String> = Vec::new();
    let mut i: usize = 0;
    assert(found.deep_view() =~= Seq::<Seq<char>>::empty());
    while i < all.len()
        invariant
            i <= all@.len(),
            view == all.deep_view(),
            yarn_scan(view, needle@, i as int) == (YarnScan {
                entry: entry.deep_view(),
                block: key_depth(block),
                found: found.deep_view(),
            }),
        decreases all@.len() - i,
    {
        assert(view[i as int] == all@[i as int]@);
        let line = all[i].as_str();
        let c = chars_of(line);
        let t = trim(line);
        let depth = leading_spaces(&c);
        let inside = match block {
            Some(key) => t.is_empty() || depth > key,
            None => false,
        };
        if c.len() > 0 && c[0] != ' ' && c[0] != '\t' {
            entry = extract_yarn_entry_name(line);
            block = None;
        } else if inside {
            if contains(t, needle.as_str()) {
                match &entry {
                    Some(name) => {
                        append_one(&mut found, name.clone());
                    },
                    None => {},
                }
            }
        } else if same(t, "dependencies:") || same(t, "peerDependencies:") {
            block = Some(depth);
        } else {
            block = None;
        }
        i = i + 1;
    }
    assert(view.len() == all@.len());
    found
}

// ---------------------------------------------------------------------
// package-lock.json
// ---------------------------------------------------------------------

/// A section of a package's data lists the target.
pub open spec fn lists(data: JsonView, section: Seq<char>, target: Seq<char>) -> bool {
    match json_member(data, section) {
        Some(deps) => json_member(deps, target) is Some,
        None => false,
    }
}

/// A package's data lists the target among its dependencies.
pub open spec fn depends_on(data: JsonView, target: Seq<char>) -> bool {
    lists(data, "dependencies"@, target) || lists(data, "devDependencies"@, target) || lists(
        data,
        "peerDependencies"@,
        target,
    )
}

/// The name of the package at a place under `node_modules`.
pub open spec fn installed_name(key: Seq<char>) -> Seq<char> {
    let name = match without_prefix(key, "node_modules/"@) {
        Some(rest) => rest,
        None => key,
    };
    match rfind_text(name, "node_modules/"@) {
        Some(p) => name.skip(p + "node_modules/"@.len()),
        None => name,
    }
}

/// Those of the first `n` installed packages that depend on the target.
pub open spec fn installed_dependents(
    packages: Seq<(Seq<char>, JsonView)>,
    target: Seq<char>,
    n: int,
) -> Seq<Seq<char>>
    decreases n,
{
    if n <= 0 {
        Seq::empty()
    } else {
        let before = installed_dependents(packages, target, n - 1);
        let key = packages[n - 1].0;
        if key.len() > 0 && depends_on(packages[n - 1].1, target) && installed_name(key).len() > 0 {
            before.push(installed_name(key))
        } else {
            before
        }
    }
}

/// The packages of a lock document that depend on the target.
pub open spec fn npm_dependents(document: JsonView, target: Seq<char>) -> Seq<Seq<char>> {
    match json_member(document, "packages"@) {
        Some(JsonView::Object(packages)) => installed_dependents(
            packages,
            target,
            packages.len() as int,
        ),
        _ => Seq::empty(),
    }
}

fn section_lists(data: &serde_json::Value, section: &str, target: &str) -> (r: bool)
    ensures
        r == lists(json_tree(*data), section@, target@),
{
    match member(data, section) {
        Some(deps) => member(deps, target).is_some(),
        None => false,
    }
}

fn name_under_node_modules(key: &str) -> (r: String)
    ensures
        r@ == installed_name(key@),
{
    let name = match strip_prefix(key, "node_modules/") {
        Some(rest) => rest,
        None => key,
    };
    let v = chars_of(name);
    let dir = chars_of("node_modules/");
    match rfind(&v, &dir) {
        Some(p) => {
            let total: usize = v.len();
            let rest = piece(&v, p + dir.len(), total);
            assert(rest@ =~= name@.skip(p + dir@.len()));
            rest
        },
        None => owned(name),
    }
}

/// The packages of a lock document that depend on the target.
pub fn dependents_in_lock(document: &Json, target_package: &str) -> (r: Vec<String>)
    ensures
        r.deep_view() == npm_dependents(document.deep_view(), target_package@),
{
    let mut out: Vec<String> = Vec::new();
    assert(out.deep_view() =~= Seq::<Seq<char>>::empty());
    let packages = match member(&document.0, "packages") {
        Some(p) => p,
        None => {
            return out;
        },
    };
    let entries = match members_of(packages) {
        Some(m) => m,
        None => {
            return out;
        },
    };
    let ghost view = member_views(entries@);
    let mut i: usize = 0;
    while i < entries.len()
        invariant
            i <= entries@.len(),
            view == member_views(entries@),
            out.deep_view() == installed_dependents(view, target_package@, i as int),
        decreases entries@.len() - i,
    {
        let (key, data) = entries[i];
        assert(view[i as int] == (key@, json_tree(*data)));
        if key.as_str().unicode_len() > 0 && (section_lists(data, "dependencies", target_package)
            || section_lists(data, "devDependencies", target_package) || section_lists(
            data,
            "peerDependencies",
            target_package,
        )) {
            let name = name_under_node_modules(key.as_str());
            if name.as_str().unicode_len() > 0 {
                append_one(&mut out, name);
            }
        }
        i = i + 1;
    }
    out
}

/// The packages that a `package-lock.json` says depend on the target; none
/// where the text is no document.
pub open spec fn npm_text_dependents(content: Seq<char>, target: Seq<char>) -> Seq<Seq<char>> {
    match json_document(content) {
        Some(document) => npm_dependents(document, target),
        None => Seq::empty(),
    }
}

/// The packages that a `package-lock.json` says depend on the target.
pub fn find_dependents_npm(content: &str, target_package: &str) -> (r: Vec<String>)
    ensures
        r.deep_view() == npm_text_dependents(content@, target_package@),
{
    match parse(content) {
        Some(document) => dependents_in_lock(&Json(document), target_package),
        None => crate::language::no_texts(),
    }
}

// ---------------------------------------------------------------------
// pnpm-lock.yaml
// ---------------------------------------------------------------------

/// Some entry has the text as its key.
pub open spec fn has_text_key(entries: Seq<(YamlView, YamlView)>, text: Seq<char>) -> bool {
    exists|k: int|
        0 <= k < entries.len() && yaml_string((#[trigger] entries[k]).0) == Some(text)
}

/// A section of a package's data lists the target.
pub open spec fn pnpm_lists(data: YamlView, section: Seq<char>, target: Seq<char>) -> bool {
    match yaml_member(data, section) {
        Some(deps) => has_text_key(yaml_entries(deps), target),
        None => false,
    }
}

/// A package's data lists the target among its dependencies.
pub open spec fn pnpm_depends_on(data: YamlView, target: Seq<char>) -> bool {
    pnpm_lists(data, "dependencies"@, target) || pnpm_lists(data, "peerDependencies"@, target)
        || pnpm_lists(data, "optionalDependencies"@, target)
}

/// The name of the package that a key of a `pnpm-lock.yaml` stands for: what
/// comes before the version.
pub open spec fn pnpm_name(key: Seq<char>) -> Option<Seq<char>> {
    let k = match without_prefix(key, "/"@) {
        Some(rest) => rest,
        None => key,
    };
    if k.len() == 0 {
        None
    } else if k[0] == '@' {
        let slash = char_pos(k, '/', 0);
        if slash >= k.len() {
            None
        } else {
            let at = char_pos(k, '@', slash + 1);
            Some(k.take(at))
        }
    } else {
        Some(k.take(char_pos(k, '@', 0)))
    }
}

/// Those of the first `n` packages of a section that depend on the target.
pub open spec fn section_dependents(
    entries: Seq<(YamlView, YamlView)>,
    target: Seq<char>,
    n: int,
) -> Seq<Seq<char>>
    decreases n,
{
    if n <= 0 {
        Seq::empty()
    } else {
        let before = section_dependents(entries, target, n - 1);
        match yaml_string(entries[n - 1].0) {
            Some(key) => match pnpm_name(key) {
                Some(name) => if pnpm_depends_on(entries[n - 1].1, target) {
                    before.push(name)
                } else {
                    before
                },
                None => before,
            },
            None => before,
        }
    }
}

/// The packages of a section of a lock document that depend on the target.
pub open spec fn dependents_in_section(
    document: YamlView,
    section: Seq<char>,
    target: Seq<char>,
) -> Seq<Seq<char>> {
    match yaml_member(document, section) {
        Some(s) => section_dependents(yaml_entries(s), target, yaml_entries(s).len() as int),
        None => Seq::empty(),
    }
}

/// The version of a lock document: empty where none is given as a text or a
/// number.
pub open spec fn pnpm_version(document: YamlView) -> Seq<char> {
    match yaml_member(document, "lockfileVersion"@) {
        Some(v) => match yaml_scalar(v) {
            Some(version) => version,
            None => Seq::empty(),
        },
        None => Seq::empty(),
    }
}

/// The packages of a lock document that depend on the target. Version nine
/// keeps dependencies in `snapshots`, earlier ones in `packages`.
pub open spec fn pnpm_dependents(document: YamlView, target: Seq<char>) -> Seq<Seq<char>> {
    if begins(pnpm_version(document), "9"@) {
        dependents_in_section(document, "snapshots"@, target) + dependents_in_section(
            document,
            "packages"@,
            target,
        )
    } else {
        dependents_in_section(document, "packages"@, target)
    }
}

/// The name of the package that a key of a `pnpm-lock.yaml` stands for.
pub fn extract_pnpm_package_name(key: &str) -> (r: Option<String>)
    ensures
        r.deep_view() == pnpm_name(key@),
{
    let k = match strip_prefix(key, "/") {
        Some(rest) => rest,
        None => key,
    };
    let v = chars_of(k);
    if v.len() == 0 {
        return None;
    }
    let at: usize = if v[0] == '@' {
        let slash = position_of(&v, '/', 0);
        if slash >= v.len() {
            return None;
        }
        position_of(&v, '@', slash + 1)
    } else {
        position_of(&v, '@', 0)
    };
    let name = piece(&v, 0, at);
    assert(name@ =~= k@.take(at as int));
    Some(name)
}

fn has_key(entries: &Vec<(&serde_yaml::Value, &serde_yaml::Value)>, text: &str) -> (r: bool)
    ensures
        r == has_text_key(entry_trees(entries@), text@),
{
    let ghost view = entry_trees(entries@);
    let mut k: usize = 0;
    while k < entries.len()
        invariant
            k <= entries@.len(),
            view == entry_trees(entries@),
            forall|j: int| 0 <= j < k ==> yaml_string((#[trigger] view[j]).0) != Some(text@),
        decreases entries@.len() - k,
    {
        let (key, _value) = entries[k];
        assert(view[k as int].0 == yaml_tree(*key));
        match crate::yaml::string_of(key) {
            Some(s) => {
                if same(s, text) {
                    return true;
                }
            },
            None => {},
        }
        k = k + 1;
    }
    false
}

fn pnpm_section_lists(data: &serde_yaml::Value, section: &str, target: &str) -> (r: bool)
    ensures
        r == pnpm_lists(yaml_tree(*data), section@, target@),
{
    let deps = match crate::yaml::member(data, section) {
        Some(d) => d,
        None => {
            return false;
        },
    };
    let entries = match entries_of(deps) {
        Some(e) => e,
        None => {
            return false;
        },
    };
    has_key(&entries, target)
}

fn section_dependents_of(document: &serde_yaml::Value, section: &str, target: &str) -> (r: Vec<
    String,
>)
    ensures
        r.deep_view() == dependents_in_section(yaml_tree(*document), section@, target@),
{
    let mut out: Vec<String> = Vec::new();
    assert(out.deep_view() =~= Seq::<Seq<char>>::empty());
    let found = match crate::yaml::member(document, section) {
        Some(s) => s,
        None => {
            return out;
        },
    };
    let entries = match entries_of(found) {
        Some(e) => e,
        None => {
            return out;
        },
    };
    let ghost view = entry_trees(entries@);
    let mut i: usize = 0;
    while i < entries.len()
        invariant
            i <= entries@.len(),
            view == entry_trees(entries@),
            out.deep_view() == section_dependents(view, target@, i as int),
        decreases entries@.len() - i,
    {
        let (key, data) = entries[i];
        assert(view[i as int] == (yaml_tree(*key), yaml_tree(*data)));
        match crate::yaml::string_of(key) {
            Some(text) => {
                if pnpm_section_lists(data, "dependencies", target) || pnpm_section_lists(
                    data,
                    "peerDependencies",
                    target,
                ) || pnpm_section_lists(data, "optionalDependencies", target) {
                    match extract_pnpm_package_name(text) {
                        Some(name) => {
                            append_one(&mut out, name);
                        },
                        None => {},
                    }
                }
            },
            None => {},
        }
        i = i + 1;
    }
    out
}

/// The packages that a `pnpm-lock.yaml` says depend on the target; none
/// where the text is no document.
pub open spec fn pnpm_text_dependents(content: Seq<char>, target: Seq<char>) -> Seq<Seq<char>> {
    match yaml_document(content) {
        Some(document) => pnpm_dependents(document, target),
        None => Seq::empty(),
    }
}

/// The packages that a `pnpm-lock.yaml` says depend on the target.
pub fn find_dependents_pnpm(content: &str, target_package: &str) -> (r: Vec<String>)
    ensures
        r.deep_view() == pnpm_text_dependents(content@, target_package@),
{
    let document = match crate::yaml::parse(content) {
        Some(d) => d,
        None => {
            return crate::language::no_texts();
        },
    };
    let version = match crate::yaml::member(&document, "lockfileVersion") {
        Some(v) => match scalar_text(v) {
            Some(version) => version,
            None => String::new(),
        },
        None => String::new(),
    };
    if starts_with(version.as_str(), "9") {
        let mut out = section_dependents_of(&document, "snapshots", target_package);
        let more = section_dependents_of(&document, "packages", target_package);
        append_all(&mut out, more);
        out
    } else {
        section_dependents_of(&document, "packages", target_package)
    }
}

// ---------------------------------------------------------------------
// Any lockfile
// ---------------------------------------------------------------------

/// The packages that a lockfile says depend on the target, as it lists them.
pub open spec fn listed_dependents(
    name: Option<Seq<char>>,
    content: Seq<char>,
    target: Seq<char>,
) -> Seq<Seq<char>> {
    if name == Some("yarn.lock"@) {
        yarn_dependents(content, target)
    } else if name == Some("package-lock.json"@) {
        npm_text_dependents(content, target)
    } else if name == Some("pnpm-lock.yaml"@) {
        pnpm_text_dependents(content, target)
    } else {
        Seq::empty()
    }
}

/// Those of the first `n` names that are not the given one.
pub open spec fn others(names: Seq<Seq<char>>, name: Seq<char>, n: int) -> Seq<Seq<char>>
    decreases n,
{
    if n <= 0 {
        Seq::empty()
    } else if names[n - 1] == name {
        others(names, name, n - 1)
    } else {
        others(names, name, n - 1).push(names[n - 1])
    }
}

/// The names, each once, without the given one.
pub open spec fn once_without(names: Seq<Seq<char>>, name: Seq<char>) -> Seq<Seq<char>> {
    let rest = others(names, name, names.len() as int);
    distinct(rest, rest.len() as int)
}

/// The packages that depend on the target, each once and without the target
/// itself.
pub open spec fn dependents(
    name: Option<Seq<char>>,
    content: Seq<char>,
    target: Seq<char>,
) -> Seq<Seq<char>> {
    once_without(listed_dependents(name, content, target), target)
}

fn drop_name(names: &Vec<String>, name: &str) -> (r: Vec<String>)
    ensures
        r.deep_view() == once_without(names.deep_view(), name@),
{
    let mut rest: Vec<String> = Vec::new();
    let mut i: usize = 0;
    assert(rest.deep_view() =~= Seq::<Seq<char>>::empty());
    while i < names.len()
        invariant
            i <= names@.len(),
            rest.deep_view() == others(names.deep_view(), name@, i as int),
        decreases names@.len() - i,
    {
        assert(names.deep_view()[i as int] == names@[i as int]@);
        if !same(names[i].as_str(), name) {
            append_one(&mut rest, names[i].clone());
        }
        i = i + 1;
    }
    assert(names.deep_view().len() == names@.len());
    assert(rest.deep_view().len() == rest@.len());
    distinct_texts(&rest)
}

fn dependents_in(name: &Option<String>, content: &str, target: &str) -> (r: Vec<String>)
    ensures
        r.deep_view() == dependents(name.deep_view(), content@, target@),
{
    let listed: Vec<String> = match name {
        Some(n) => {
            if same(n.as_str(), "yarn.lock") {
                find_dependents_yarn(content, target)
            } else if same(n.as_str(), "package-lock.json") {
                find_dependents_npm(content, target)
            } else if same(n.as_str(), "pnpm-lock.yaml") {
                find_dependents_pnpm(content, target)
            } else {
                crate::language::no_texts()
            }
        },
        None => crate::language::no_texts(),
    };
    drop_name(&listed, target)
}

/// The packages that a lockfile of the workspace says depend on the target.
pub open spec fn file_dependents(ws: WorkspaceView, path: Seq<char>, target: Seq<char>) -> Seq<
    Seq<char>,
> {
    match text_at(ws, path) {
        Ok(content) => dependents(name_of(path), content, target),
        Err(_) => Seq::empty(),
    }
}

/// The packages that depend on the target, each once and without the target
/// itself. None where the lockfile cannot be read.
pub fn find_dependent_packages(lockfile_path: &str, target_package: &str, ws: &Workspace) -> (r:
    Vec<String>)
    ensures
        r.deep_view() == file_dependents(ws.deep_view(), lockfile_path@, target_package@),
{
    match ws.read(lockfile_path) {
        Ok(content) => {
            let name = file_name(lockfile_path);
            dependents_in(&name, content, target_package)
        },
        Err(_) => crate::language::no_texts(),
    }
}

// ---------------------------------------------------------------------
// Ancestors
// ---------------------------------------------------------------------

/// The packages that depend on one of the first `n` names.
pub open spec fn one_step_up(
    name: Option<Seq<char>>,
    content: Seq<char>,
    names: Seq<Seq<char>>,
    n: int,
) -> Seq<Seq<char>>
    decreases n,
{
    if n <= 0 {
        Seq::empty()
    } else {
        one_step_up(name, content, names, n - 1) + dependents(name, content, names[n - 1])
    }
}

/// The packages that reach the target in at most `steps + 1` steps, nearer
/// ones first.
pub open spec fn ancestors_within(
    name: Option<Seq<char>>,
    content: Seq<char>,
    target: Seq<char>,
    steps: int,
) -> Seq<Seq<char>>
    decreases steps,
{
    if steps <= 0 {
        dependents(name, content, target)
    } else {
        let near = ancestors_within(name, content, target, steps - 1);
        once_without(near + one_step_up(name, content, near, near.len() as int), target)
    }
}

/// The packages from which the target is reached, directly or through other
/// packages. A lockfile has fewer packages than characters, so that no path
/// is longer than the text.
pub open spec fn ancestors(ws: WorkspaceView, path: Seq<char>, target: Seq<char>) -> Seq<
    Seq<char>,
> {
    match text_at(ws, path) {
        Ok(content) => ancestors_within(name_of(path), content, target, content.len() as int),
        Err(_) => Seq::empty(),
    }
}

/// Where a further step adds nothing, no later step does.
proof fn lemma_no_more_ancestors(
    name: Option<Seq<char>>,
    content: Seq<char>,
    target: Seq<char>,
    m: int,
    n: int,
)
    requires
        0 <= m <= n,
        ancestors_within(name, content, target, m + 1) == ancestors_within(
            name,
            content,
            target,
            m,
        ),
    ensures
        ancestors_within(name, content, target, n) == ancestors_within(name, content, target, m),
    decreases n,
{
    if m < n {
        lemma_no_more_ancestors(name, content, target, m, n - 1);
    }
}

fn step_up(name: &Option<String>, content: &str, names: &Vec<String>) -> (r: Vec<String>)
    ensures
        r.deep_view() == one_step_up(
            name.deep_view(),
            content@,
            names.deep_view(),
            names@.len() as int,
        ),
{
    let mut out: Vec<String> = Vec::new();
    let mut i: usize = 0;
    assert(out.deep_view() =~= Seq::<Seq<char>>::empty());
    while i < names.len()
        invariant
            i <= names@.len(),
            out.deep_view() == one_step_up(
                name.deep_view(),
                content@,
                names.deep_view(),
                i as int,
            ),
        decreases names@.len() - i,
    {
        assert(names.deep_view()[i as int] == names@[i as int]@);
        let more = dependents_in(name, content, names[i].as_str());
        append_all(&mut out, more);
        i = i + 1;
    }
    out
}

/// The packages from which the target is reached, directly or through other
/// packages; nearer ones first.
pub fn find_transitive_ancestor_packages(
    lockfile_path: &str,
    target_package: &str,
    ws: &Workspace,
) -> (r: Vec<String>)
    ensures
        r.deep_view() == ancestors(ws.deep_view(), lockfile_path@, target_package@),
{
    let content = match ws.read(lockfile_path) {
        Ok(c) => c,
        Err(_) => {
            return crate::language::no_texts();
        },
    };
    let name = file_name(lockfile_path);
    let limit: usize = content.unicode_len();
    let mut near = dependents_in(&name, content, target_package);
    let mut steps: usize = 0;
    while steps < limit
        invariant
            steps <= limit,
            limit == content@.len(),
            text_at(ws.deep_view(), lockfile_path@) == Ok::<Seq<char>, Seq<char>>(content@),
            name.deep_view() == name_of(lockfile_path@),
            near.deep_view() == ancestors_within(
                name.deep_view(),
                content@,
                target_package@,
                steps as int,
            ),
        decreases limit - steps,
    {
        let mut wider = copy_texts(&near);
        let more = step_up(&name, content, &near);
        append_all(&mut wider, more);
        assert(near.deep_view().len() == near@.len());
        let next = drop_name(&wider, target_package);
        if same_texts(&next, &near) {
            proof {
                lemma_no_more_ancestors(
                    name.deep_view(),
                    content@,
                    target_package@,
                    steps as int,
                    limit as int,
                );
            }
            return near;
        }
        near = next;
        steps = steps + 1;
    }
    near
}

// ---------------------------------------------------------------------
// Direct dependencies
// ---------------------------------------------------------------------

/// The keys of members.
pub open spec fn keys_of(members: Seq<(Seq<char>, JsonView)>) -> Seq<Seq<char>> {
    Seq::new(members.len(), |i: int| members[i].0)
}

/// The packages that a section of a manifest lists.
pub open spec fn section_names(manifest: JsonView, section: Seq<char>) -> Seq<Seq<char>> {
    match json_member(manifest, section) {
        Some(deps) => keys_of(json_members(deps)),
        None => Seq::empty(),
    }
}

/// The packages that a manifest lists, each once.
pub open spec fn manifest_names(manifest: JsonView) -> Seq<Seq<char>> {
    let all = section_names(manifest, "dependencies"@) + section_names(
        manifest,
        "devDependencies"@,
    ) + section_names(manifest, "peerDependencies"@);
    distinct(all, all.len() as int)
}

/// The packages that a manifest of the workspace lists; none where it cannot
/// be read or is no document.
pub open spec fn direct_names(ws: WorkspaceView, path: Seq<char>) -> Seq<Seq<char>> {
    match text_at(ws, path) {
        Ok(content) => match json_document(content) {
            Some(manifest) => manifest_names(manifest),
            None => Seq::empty(),
        },
        Err(_) => Seq::empty(),
    }
}

fn names_in_section(manifest: &serde_json::Value, section: &str) -> (r: Vec<String>)
    ensures
        r.deep_view() == section_names(json_tree(*manifest), section@),
{
    let mut out: Vec<String> = Vec::new();
    assert(out.deep_view() =~= Seq::<Seq<char>>::empty());
    let deps = match member(manifest, section) {
        Some(d) => d,
        None => {
            return out;
        },
    };
    let entries = match members_of(deps) {
        Some(m) => m,
        None => {
            assert(keys_of(json_members(json_tree(*deps))) =~= Seq::<Seq<char>>::empty());
            return out;
        },
    };
    let ghost view = member_views(entries@);
    let mut i: usize = 0;
    while i < entries.len()
        invariant
            i <= entries@.len(),
            view == member_views(entries@),
            out@.len() == i,
            forall|k: int| 0 <= k < i ==> (#[trigger] out@[k])@ == view[k].0,
        decreases entries@.len() - i,
    {
        out.push(entries[i].0.clone());
        i = i + 1;
    }
    assert(out.deep_view() =~= keys_of(view));
    out
}

/// The packages that a manifest lists in its dependencies, development
/// dependencies and peer dependencies, each once.
pub fn names_in_manifest(manifest: &Json) -> (r: Vec<String>)
    ensures
        r.deep_view() == manifest_names(manifest.deep_view()),
{
    let mut all = names_in_section(&manifest.0, "dependencies");
    let dev = names_in_section(&manifest.0, "devDependencies");
    append_all(&mut all, dev);
    let peer = names_in_section(&manifest.0, "peerDependencies");
    append_all(&mut all, peer);
    assert(all.deep_view().len() == all@.len());
    distinct_texts(&all)
}

/// The packages that the manifest at a path lists, each once.
pub fn parse_direct_dep_names(pkg_json_path: &str, ws: &Workspace) -> (r: Vec<String>)
    ensures
        r.deep_view() == direct_names(ws.deep_view(), pkg_json_path@),
{
    match ws.read(pkg_json_path) {
        Ok(content) => match parse(content) {
            Some(manifest) => names_in_manifest(&Json(manifest)),
            None => crate::language::no_texts(),
        },
        Err(_) => crate::language::no_texts(),
    }
}

} // verus!
