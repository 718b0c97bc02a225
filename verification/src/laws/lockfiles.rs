//! Lockfiles: which packages depend on another one, by what the text of the
//! lockfile says.

use crate::js::lockfile::{
    ancestors, ancestors_within, dependents, dependents_in_section, depth_of, direct_names,
    in_block, installed_dependents, installed_name, is_heading, listed_dependents, manifest_names,
    names_lockfile, npm_dependents, once_without, one_step_up, opens_block, others, pnpm_dependents,
    pnpm_depends_on, pnpm_name, pnpm_version, section_dependents, section_names, yarn_dependents,
    yarn_entry_name, yarn_scan,
};
use crate::js::npm::{actionable_parents, common};
use crate::json::{json_document, json_member, json_members, JsonView};
use crate::laws::projects::law_dependents_never_hold_the_target;
use crate::laws::tables::law_distinct_holds_each_value_once;
use crate::laws::words::{is_last_at, law_search_from_the_end_finds_the_last_place};
use crate::paths::name_of;
use crate::text::{begins, char_pos, has_text, lines_of, occurs_at, space_end, trimmed};
use crate::views::distinct;
use crate::workspace::{text_at, WorkspaceView};
use crate::yaml::{yaml_document, yaml_entries, yaml_member, yaml_string, YamlView};
use vstd::prelude::*;

verus! {

broadcast use vstd::string::group_string_axioms;

// ---------------------------------------------------------------------
// yarn.lock
// ---------------------------------------------------------------------

/// The line begins an entry: it is not indented.
pub open spec fn begins_entry(line: Seq<char>) -> bool {
    line.len() > 0 && line[0] != ' ' && line[0] != '\t'
}

/// The line is the key of a list of dependencies.
pub open spec fn is_list_key(line: Seq<char>) -> bool {
    trimmed(line) == "dependencies:"@ || trimmed(line) == "peerDependencies:"@
}

/// Line `d` is in the list whose key is line `b`: this line and all between
/// the two are blank or indented deeper than the key, and begin no entry.
pub open spec fn is_in_list(all: Seq<Seq<char>>, b: int, d: int) -> bool {
    &&& 0 <= b < d < all.len()
    &&& !begins_entry(all[b])
    &&& is_list_key(all[b])
    &&& forall|k: int|
        b < k <= d ==> !begins_entry(#[trigger] all[k]) && (trimmed(all[k]).len() == 0 || space_end(
            all[k],
            0,
        ) > space_end(all[b], 0))
}

/// Line `h` begins the entry that line `d` is in.
pub open spec fn is_entry_of(all: Seq<Seq<char>>, h: int, d: int) -> bool {
    &&& 0 <= h < d < all.len()
    &&& begins_entry(all[h])
    &&& forall|k: int| h < k <= d ==> !begins_entry(#[trigger] all[k])
}

/// Line `d` lists the package as a dependency of the entry that line `h`
/// begins.
pub open spec fn is_listed_at(
    all: Seq<Seq<char>>,
    target: Seq<char>,
    h: int,
    b: int,
    d: int,
) -> bool {
    &&& is_entry_of(all, h, d)
    &&& is_in_list(all, b, d)
    &&& has_text(trimmed(all[d]), seq!['"'] + target + seq!['"', ':'])
}

proof fn lemma_key_is_visible(line: Seq<char>)
    requires
        is_list_key(line),
    ensures
        trimmed(line).len() > 0,
{
    reveal_strlit("dependencies:");
    reveal_strlit("peerDependencies:");
}

/// Inside a list, reading knows of a list that is indented no deeper.
proof fn lemma_list_is_open(all: Seq<Seq<char>>, needle: Seq<char>, b: int, d: int, n: int)
    requires
        is_in_list(all, b, d),
        b < n <= d,
    ensures
        yarn_scan(all, needle, n).block matches Some(key) && key <= space_end(all[b], 0),
    decreases n,
{
    let before = yarn_scan(all, needle, n - 1);
    assert(yarn_scan(all, needle, n) == crate::js::lockfile::yarn_step(
        before,
        all[n - 1],
        needle,
    ));
    if n == b + 1 {
        lemma_key_is_visible(all[b]);
    } else {
        lemma_list_is_open(all, needle, b, d, n - 1);
        assert(!begins_entry(all[n - 1]));
    }
}

proof fn lemma_entry_known(all: Seq<Seq<char>>, needle: Seq<char>, h: int, d: int, n: int)
    requires
        is_entry_of(all, h, d),
        h < n <= d + 1,
    ensures
        yarn_scan(all, needle, n).entry == yarn_entry_name(all[h]),
    decreases n,
{
    let before = yarn_scan(all, needle, n - 1);
    assert(yarn_scan(all, needle, n) == crate::js::lockfile::yarn_step(
        before,
        all[n - 1],
        needle,
    ));
    if n > h + 1 {
        lemma_entry_known(all, needle, h, d, n - 1);
        assert(!begins_entry(all[n - 1]));
    }
}

proof fn lemma_found_stays(all: Seq<Seq<char>>, needle: Seq<char>, m: int, n: int, x: Seq<char>)
    requires
        0 <= m <= n <= all.len(),
        yarn_scan(all, needle, m).found.contains(x),
    ensures
        yarn_scan(all, needle, n).found.contains(x),
    decreases n,
{
    if m < n {
        lemma_found_stays(all, needle, m, n - 1, x);
        let before = yarn_scan(all, needle, n - 1).found;
        let now = yarn_scan(all, needle, n).found;
        let j = choose|j: int| 0 <= j < before.len() && before[j] == x;
        assert(now[j] == x);
    }
}

proof fn lemma_needle(target: Seq<char>)
    ensures
        "\""@ + target + "\":"@ == seq!['"'] + target + seq!['"', ':'],
{
    reveal_strlit("\"");
    reveal_strlit("\":");
    assert("\""@ =~= seq!['"']);
    assert("\":"@ =~= seq!['"', ':']);
}

/// An entry of a `yarn.lock` that lists a package among its dependencies or
/// peer dependencies is one of the package's dependents.
pub proof fn law_yarn_entry_that_lists_is_found(
    content: Seq<char>,
    target: Seq<char>,
    name: Seq<char>,
    h: int,
    b: int,
    d: int,
)
    requires
        is_listed_at(lines_of(content), target, h, b, d),
        yarn_entry_name(lines_of(content)[h]) == Some(name),
    ensures
        yarn_dependents(content, target).contains(name),
{
    let all = lines_of(content);
    let needle = "\""@ + target + "\":"@;
    lemma_needle(target);
    lemma_list_is_open(all, needle, b, d, d);
    lemma_entry_known(all, needle, h, d, d);
    let before = yarn_scan(all, needle, d);
    let now = yarn_scan(all, needle, d + 1);
    assert(now == crate::js::lockfile::yarn_step(before, all[d], needle));
    assert(!begins_entry(all[d]));
    assert(trimmed(all[d]).len() > 0) by {
        let k = choose|k: int| occurs_at(trimmed(all[d]), needle, k);
        assert(needle.len() > 0);
    }
    assert(now.found[before.found.len() as int] == name);
    lemma_found_stays(all, needle, d + 1, all.len() as int, name);
}

/// The key of the list that reading is in.
spec fn list_known(all: Seq<Seq<char>>, n: int, key: int, b: int) -> bool {
    &&& 0 <= b < n <= all.len()
    &&& !begins_entry(all[b])
    &&& is_list_key(all[b])
    &&& space_end(all[b], 0) == key
    &&& forall|k: int|
        b < k < n ==> !begins_entry(#[trigger] all[k]) && (trimmed(all[k]).len() == 0 || space_end(
            all[k],
            0,
        ) > key)
}

spec fn entry_known(all: Seq<Seq<char>>, n: int, entry: Seq<char>, h: int) -> bool {
    &&& 0 <= h < n <= all.len()
    &&& begins_entry(all[h])
    &&& yarn_entry_name(all[h]) == Some(entry)
    &&& forall|k: int| h < k < n ==> !begins_entry(#[trigger] all[k])
}

proof fn lemma_state(all: Seq<Seq<char>>, needle: Seq<char>, n: int)
    requires
        0 <= n <= all.len(),
    ensures
        yarn_scan(all, needle, n).block matches Some(key) ==> exists|b: int| #[trigger]
            list_known(all, n, key, b),
        yarn_scan(all, needle, n).entry matches Some(entry) ==> exists|h: int| #[trigger]
            entry_known(all, n, entry, h),
    decreases n,
{
    if n > 0 {
        lemma_state(all, needle, n - 1);
        let before = yarn_scan(all, needle, n - 1);
        let now = yarn_scan(all, needle, n);
        let line = all[n - 1];
        assert(now == crate::js::lockfile::yarn_step(before, line, needle));
        if is_heading(line) {
            match now.entry {
                Some(entry) => {
                    assert(entry_known(all, n, entry, n - 1));
                },
                None => {},
            }
        } else {
            match now.entry {
                Some(entry) => {
                    let h = choose|h: int| #[trigger] entry_known(all, n - 1, entry, h);
                    assert(entry_known(all, n, entry, h));
                },
                None => {},
            }
            if in_block(before.block, line) {
                let key = before.block->Some_0;
                let b = choose|b: int| #[trigger] list_known(all, n - 1, key, b);
                assert(list_known(all, n, key, b));
            } else if opens_block(line) {
                let key = now.block->Some_0;
                assert(key == depth_of(line));
                assert(list_known(all, n, key, n - 1));
            }
        }
    }
}

proof fn lemma_found_from(all: Seq<Seq<char>>, target: Seq<char>, n: int, j: int)
    requires
        0 <= n <= all.len(),
        0 <= j < yarn_scan(all, "\""@ + target + "\":"@, n).found.len(),
    ensures
        exists|h: int, b: int, d: int| #[trigger]
            is_listed_at(all, target, h, b, d) && yarn_entry_name(all[h]) == Some(
                yarn_scan(all, "\""@ + target + "\":"@, n).found[j],
            ),
    decreases n,
{
    let needle = "\""@ + target + "\":"@;
    lemma_needle(target);
    if n > 0 {
        let before = yarn_scan(all, needle, n - 1);
        let now = yarn_scan(all, needle, n);
        assert(now == crate::js::lockfile::yarn_step(before, all[n - 1], needle));
        if j < before.found.len() {
            lemma_found_from(all, target, n - 1, j);
            assert(now.found[j] == before.found[j]);
        } else {
            lemma_state(all, needle, n - 1);
            let key = before.block->Some_0;
            let entry = before.entry->Some_0;
            let b = choose|b: int| #[trigger] list_known(all, n - 1, key, b);
            let h = choose|h: int| #[trigger] entry_known(all, n - 1, entry, h);
            assert(is_listed_at(all, target, h, b, n - 1));
        }
    }
}

/// Nothing else is found in a `yarn.lock`.
pub proof fn law_yarn_finds_only_entries_that_list(
    content: Seq<char>,
    target: Seq<char>,
    name: Seq<char>,
)
    requires
        yarn_dependents(content, target).contains(name),
    ensures
        exists|h: int, b: int, d: int| #[trigger]
            is_listed_at(lines_of(content), target, h, b, d) && yarn_entry_name(
                lines_of(content)[h],
            ) == Some(name),
{
    let all = lines_of(content);
    let found = yarn_dependents(content, target);
    let j = choose|j: int| 0 <= j < found.len() && found[j] == name;
    lemma_found_from(all, target, all.len() as int, j);
}

// ---------------------------------------------------------------------
// package-lock.json
// ---------------------------------------------------------------------

/// A section of the package's data has the target as a member.
pub open spec fn has_in_section(data: JsonView, section: Seq<char>, target: Seq<char>) -> bool {
    json_member(data, section) matches Some(deps) && json_member(deps, target) is Some
}

/// Package `k` needs the target, for itself, to be developed or beside it.
pub open spec fn needs(data: JsonView, target: Seq<char>) -> bool {
    has_in_section(data, "dependencies"@, target) || has_in_section(
        data,
        "devDependencies"@,
        target,
    ) || has_in_section(data, "peerDependencies"@, target)
}

proof fn lemma_installed(packages: Seq<(Seq<char>, JsonView)>, target: Seq<char>, n: int, x: Seq<char>)
    requires
        0 <= n <= packages.len(),
    ensures
        installed_dependents(packages, target, n).contains(x) <==> exists|k: int|
            0 <= k < n && (#[trigger] packages[k]).0.len() > 0 && needs(packages[k].1, target)
                && installed_name(packages[k].0) == x && x.len() > 0,
    decreases n,
{
    if n > 0 {
        lemma_installed(packages, target, n - 1, x);
        let before = installed_dependents(packages, target, n - 1);
        let now = installed_dependents(packages, target, n);
        let last = packages[n - 1];
        let here = last.0.len() > 0 && needs(last.1, target) && installed_name(last.0) == x
            && x.len() > 0;
        if before.contains(x) {
            let j = choose|j: int| 0 <= j < before.len() && before[j] == x;
            assert(now[j] == x);
            let k = choose|k: int|
                0 <= k < n - 1 && (#[trigger] packages[k]).0.len() > 0 && needs(
                    packages[k].1,
                    target,
                ) && installed_name(packages[k].0) == x && x.len() > 0;
            assert(packages[k].0.len() > 0);
        }
        if here {
            assert(now[before.len() as int] == x);
        }
        if now.contains(x) {
            let j = choose|j: int| 0 <= j < now.len() && now[j] == x;
            if j < before.len() {
                assert(before[j] == x);
            } else {
                assert(here);
                assert(packages[n - 1].0.len() > 0);
            }
        }
    }
}

/// The dependents in a `package-lock.json` are the packages, but not the
/// project itself, whose data lists the target.
pub proof fn law_npm_dependents(
    document: JsonView,
    packages: Seq<(Seq<char>, JsonView)>,
    target: Seq<char>,
    x: Seq<char>,
)
    requires
        json_member(document, "packages"@) == Some(JsonView::Object(packages)),
    ensures
        npm_dependents(document, target).contains(x) <==> exists|k: int|
            0 <= k < packages.len() && (#[trigger] packages[k]).0.len() > 0 && needs(
                packages[k].1,
                target,
            ) && installed_name(packages[k].0) == x && x.len() > 0,
{
    lemma_installed(packages, target, packages.len() as int, x);
}

/// The name of an installed package is what stands behind the last
/// `node_modules/` of its place.
pub proof fn law_installed_name(outer: Seq<char>, name: Seq<char>)
    requires
        is_last_at(
            outer + "node_modules/"@ + name,
            "node_modules/"@,
            outer.len() as int,
        ),
    ensures
        installed_name(outer + "node_modules/"@ + name) == name,
{
    let dir = "node_modules/"@;
    let key = outer + dir + name;
    let size = dir.len() as int;
    reveal_strlit("node_modules/");
    if begins(key, dir) {
        let rest = key.skip(size);
        if outer.len() == 0 {
            assert(rest =~= name);
            if has_text(rest, dir) {
                let j = choose|j: int| occurs_at(rest, dir, j);
                assert(key.subrange(j + size, j + size + size) =~= rest.subrange(j, j + size));
                assert(occurs_at(key, dir, j + size));
            }
            law_search_from_the_end_finds_the_last_place(rest, dir, 0);
        } else {
            assert(outer.len() >= size) by {
                if outer.len() < size {
                    lemma_no_overlap(key, outer.len() as int);
                }
            }
            let at = outer.len() - size;
            assert(rest.subrange(at, at + size) =~= key.subrange(
                outer.len() as int,
                outer.len() + size,
            ));
            assert forall|j: int| at < j implies !#[trigger] occurs_at(rest, dir, j) by {
                if occurs_at(rest, dir, j) {
                    assert(key.subrange(j + size, j + size + size) =~= rest.subrange(j, j + size));
                    assert(occurs_at(key, dir, j + size));
                }
            }
            law_search_from_the_end_finds_the_last_place(rest, dir, at);
            assert(rest.skip(at + size) =~= name);
        }
    } else {
        law_search_from_the_end_finds_the_last_place(key, dir, outer.len() as int);
        assert(key.skip(outer.len() as int + size) =~= name);
        if outer.len() == 0 {
            assert(key.subrange(0, size) =~= dir);
        }
    }
}

/// Two occurrences of the directory do not overlap.
proof fn lemma_no_overlap(s: Seq<char>, k: int)
    requires
        occurs_at(s, "node_modules/"@, 0),
        occurs_at(s, "node_modules/"@, k),
        0 <= k,
    ensures
        k == 0 || k >= "node_modules/"@.len(),
{
    reveal_strlit("node_modules/");
    let dir = "node_modules/"@;
    let size = dir.len() as int;
    if 0 < k < size {
        assert(s.subrange(0, size)[k] == s[k]);
        assert(s.subrange(k, k + size)[0] == s[k]);
        assert(dir[k] == 'n');
        assert(s.subrange(k, k + size)[size - 1 - k] == s[size - 1]);
        assert(s.subrange(0, size)[size - 1] == s[size - 1]);
        assert(dir[size - 1 - k] == '/');
        assert(dir[0] == 'n' && dir[1] == 'o' && dir[2] == 'd' && dir[3] == 'e' && dir[4] == '_'
            && dir[5] == 'm' && dir[6] == 'o' && dir[7] == 'd' && dir[8] == 'u' && dir[9] == 'l'
            && dir[10] == 'e' && dir[11] == 's' && dir[12] == '/');
    }
}

// ---------------------------------------------------------------------
// pnpm-lock.yaml
// ---------------------------------------------------------------------

/// A section of the package's data has the target as a key.
pub open spec fn has_key_in(data: YamlView, section: Seq<char>, target: Seq<char>) -> bool {
    yaml_member(data, section) matches Some(deps) && exists|k: int|
        0 <= k < yaml_entries(deps).len() && yaml_string((#[trigger] yaml_entries(deps)[k]).0)
            == Some(target)
}

/// The package needs the target, for itself, beside it or as an option.
pub open spec fn asks_for(data: YamlView, target: Seq<char>) -> bool {
    has_key_in(data, "dependencies"@, target) || has_key_in(data, "peerDependencies"@, target)
        || has_key_in(data, "optionalDependencies"@, target)
}

/// Entry `k` stands for the package and needs the target.
pub open spec fn entry_asks(
    entries: Seq<(YamlView, YamlView)>,
    target: Seq<char>,
    x: Seq<char>,
    k: int,
) -> bool {
    &&& 0 <= k < entries.len()
    &&& yaml_string(entries[k].0) matches Some(key) && pnpm_name(key) == Some(x)
    &&& asks_for(entries[k].1, target)
}

proof fn lemma_section(entries: Seq<(YamlView, YamlView)>, target: Seq<char>, n: int, x: Seq<char>)
    requires
        0 <= n <= entries.len(),
    ensures
        section_dependents(entries, target, n).contains(x) <==> exists|k: int|
            k < n && #[trigger] entry_asks(entries, target, x, k),
    decreases n,
{
    if n > 0 {
        lemma_section(entries, target, n - 1, x);
        let before = section_dependents(entries, target, n - 1);
        let now = section_dependents(entries, target, n);
        assert(pnpm_depends_on(entries[n - 1].1, target) == asks_for(entries[n - 1].1, target));
        if before.contains(x) {
            let j = choose|j: int| 0 <= j < before.len() && before[j] == x;
            assert(now[j] == x);
            let k = choose|k: int| k < n - 1 && #[trigger] entry_asks(entries, target, x, k);
            assert(k < n);
        }
        if entry_asks(entries, target, x, n - 1) {
            assert(now[before.len() as int] == x);
        }
        if now.contains(x) {
            let j = choose|j: int| 0 <= j < now.len() && now[j] == x;
            if j < before.len() {
                assert(before[j] == x);
            } else {
                assert(entry_asks(entries, target, x, n - 1));
            }
        }
        if exists|k: int| k < n && #[trigger] entry_asks(entries, target, x, k) {
            let k = choose|k: int| k < n && #[trigger] entry_asks(entries, target, x, k);
            if k < n - 1 {
                assert(before.contains(x));
            }
        }
    }
}

/// The section of a lock document holds an entry for the package that needs
/// the target.
pub open spec fn asks_in(
    document: YamlView,
    section: Seq<char>,
    target: Seq<char>,
    x: Seq<char>,
) -> bool {
    yaml_member(document, section) matches Some(s) && exists|k: int| #[trigger]
        entry_asks(yaml_entries(s), target, x, k)
}

proof fn lemma_in_section(
    document: YamlView,
    section: Seq<char>,
    target: Seq<char>,
    x: Seq<char>,
)
    ensures
        dependents_in_section(document, section, target).contains(x) <==> asks_in(
            document,
            section,
            target,
            x,
        ),
{
    match yaml_member(document, section) {
        Some(s) => {
            let entries = yaml_entries(s);
            lemma_section(entries, target, entries.len() as int, x);
            if asks_in(document, section, target, x) {
                let k = choose|k: int| #[trigger] entry_asks(entries, target, x, k);
                assert(k < entries.len());
            }
        },
        None => {},
    }
}

/// The dependents in a `pnpm-lock.yaml` are the packages whose entries list
/// the target; in version nine an entry can be in `snapshots` too.
pub proof fn law_pnpm_dependents(document: YamlView, target: Seq<char>, x: Seq<char>)
    ensures
        pnpm_dependents(document, target).contains(x) <==> (asks_in(
            document,
            "packages"@,
            target,
            x,
        ) || (begins(pnpm_version(document), "9"@) && asks_in(
            document,
            "snapshots"@,
            target,
            x,
        ))),
{
    lemma_in_section(document, "packages"@, target, x);
    lemma_in_section(document, "snapshots"@, target, x);
    let a = dependents_in_section(document, "snapshots"@, target);
    let b = dependents_in_section(document, "packages"@, target);
    let both = a + b;
    if a.contains(x) {
        let j = choose|j: int| 0 <= j < a.len() && a[j] == x;
        assert(both[j] == x);
    }
    if b.contains(x) {
        let j = choose|j: int| 0 <= j < b.len() && b[j] == x;
        assert(both[a.len() + j] == x);
    }
    if both.contains(x) {
        let j = choose|j: int| 0 <= j < both.len() && both[j] == x;
        if j < a.len() {
            assert(a[j] == x);
        } else {
            assert(b[j - a.len()] == x);
        }
    }
}

proof fn lemma_pos(s: Seq<char>, c: char, i: int, k: int)
    requires
        0 <= i <= k <= s.len(),
        forall|j: int| i <= j < k ==> s[j] != c,
        k < s.len() ==> s[k] == c,
    ensures
        char_pos(s, c, i) == k,
    decreases k - i,
{
    if i < k {
        lemma_pos(s, c, i + 1, k);
    }
}

/// The name in a key of a `pnpm-lock.yaml` is what stands before the `@` of
/// the version; the `@` of a scope belongs to the name, and a slash at the
/// start does not.
pub proof fn law_pnpm_name(scope: Seq<char>, name: Seq<char>, version: Seq<char>)
    requires
        !scope.contains('/'),
        !name.contains('@'),
        name.len() > 0,
    ensures
        name[0] != '/' ==> pnpm_name(name + seq!['@'] + version) == Some(name),
        name[0] != '/' ==> pnpm_name(seq!['/'] + name + seq!['@'] + version) == Some(name),
        pnpm_name(seq!['@'] + scope + seq!['/'] + name + seq!['@'] + version) == Some(
            seq!['@'] + scope + seq!['/'] + name,
        ),
{
    reveal_strlit("/");
    assert("/"@ =~= seq!['/']);
    let n = name.len() as int;
    assert forall|j: int| 0 <= j < n implies name[j] != '@' by {
        assert(name.contains(name[j]));
    }
    assert forall|j: int| 0 <= j < scope.len() implies scope[j] != '/' by {
        assert(scope.contains(scope[j]));
    }
    let plain = name + seq!['@'] + version;
    lemma_pos(plain, '@', 0, n);
    assert(plain.take(n) =~= name);
    assert(plain[0] == name[0]);
    if name[0] != '/' {
        if begins(plain, "/"@) {
            assert(plain.subrange(0, 1)[0] == '/');
        }
        let slashed = seq!['/'] + name + seq!['@'] + version;
        assert(slashed.subrange(0, 1) =~= "/"@);
        assert(slashed.skip(1) =~= plain);
    }
    let full = seq!['@'] + scope + seq!['/'] + name + seq!['@'] + version;
    let whole = seq!['@'] + scope + seq!['/'] + name;
    let slash = scope.len() as int + 1;
    assert(full[0] == '@');
    if begins(full, "/"@) {
        assert(full.subrange(0, 1)[0] == '/');
    }
    assert forall|j: int| 0 <= j < slash implies full[j] != '/' by {
        if j > 0 {
            assert(full[j] == scope[j - 1]);
        }
    }
    assert(full[slash] == '/');
    lemma_pos(full, '/', 0, slash);
    let at = slash + 1 + n;
    assert forall|j: int| slash + 1 <= j < at implies full[j] != '@' by {
        assert(full[j] == name[j - slash - 1]);
    }
    lemma_pos(full, '@', slash + 1, at);
    assert(full.take(at) =~= whole);
}

// ---------------------------------------------------------------------
// Any lockfile
// ---------------------------------------------------------------------

/// Which format a lockfile has is told by its name; a file of another name
/// is none, and lists nothing.
pub proof fn law_lockfile_is_read_by_its_name(
    path: Seq<char>,
    content: Seq<char>,
    target: Seq<char>,
)
    ensures
        name_of(path) == Some("yarn.lock"@) ==> names_lockfile(path) && listed_dependents(
            name_of(path),
            content,
            target,
        ) == yarn_dependents(content, target),
        name_of(path) == Some("package-lock.json"@) ==> names_lockfile(path) && (match json_document(
            content,
        ) {
            Some(document) => listed_dependents(name_of(path), content, target) == npm_dependents(
                document,
                target,
            ),
            None => listed_dependents(name_of(path), content, target).len() == 0,
        }),
        name_of(path) == Some("pnpm-lock.yaml"@) ==> names_lockfile(path) && (match yaml_document(
            content,
        ) {
            Some(document) => listed_dependents(name_of(path), content, target) == pnpm_dependents(
                document,
                target,
            ),
            None => listed_dependents(name_of(path), content, target).len() == 0,
        }),
        !names_lockfile(path) ==> listed_dependents(name_of(path), content, target).len() == 0,
        names_lockfile(path) ==> name_of(path) == Some("yarn.lock"@) || name_of(path) == Some(
            "package-lock.json"@,
        ) || name_of(path) == Some("pnpm-lock.yaml"@),
{
    reveal_strlit("yarn.lock");
    reveal_strlit("package-lock.json");
    reveal_strlit("pnpm-lock.yaml");
    assert("yarn.lock"@.len() == 9);
    assert("package-lock.json"@.len() == 17);
    assert("pnpm-lock.yaml"@.len() == 14);
}

/// The target is reached from `x` in at most `steps + 1` steps from a package
/// to one that it depends on, none of which begins at the target.
pub open spec fn reaches(
    name: Option<Seq<char>>,
    content: Seq<char>,
    target: Seq<char>,
    x: Seq<char>,
    steps: int,
) -> bool
    decreases steps,
{
    x != target && if steps <= 0 {
        listed_dependents(name, content, target).contains(x)
    } else {
        reaches(name, content, target, x, steps - 1) || exists|y: Seq<char>|
            reaches(name, content, target, y, steps - 1) && x != y && #[trigger] listed_dependents(
                name,
                content,
                y,
            ).contains(x)
    }
}

proof fn lemma_once_without(names: Seq<Seq<char>>, name: Seq<char>, x: Seq<char>)
    ensures
        once_without(names, name).contains(x) <==> (x != name && names.contains(x)),
{
    let rest = others(names, name, names.len() as int);
    lemma_others(names, name, names.len() as int, x);
    law_distinct_holds_each_value_once(rest, rest.len() as int);
    assert(names.take(names.len() as int) =~= names);
    assert(rest.take(rest.len() as int) =~= rest);
    assert(distinct(rest, rest.len() as int).contains(x) <==> rest.contains(x));
}

proof fn lemma_others(names: Seq<Seq<char>>, name: Seq<char>, n: int, x: Seq<char>)
    requires
        0 <= n <= names.len(),
    ensures
        others(names, name, n).contains(x) <==> (x != name && names.take(n).contains(x)),
    decreases n,
{
    if n > 0 {
        lemma_others(names, name, n - 1, x);
        let before = others(names, name, n - 1);
        let now = others(names, name, n);
        let early = names.take(n - 1);
        let late = names.take(n);
        assert(late =~= early.push(names[n - 1]));
        if early.contains(x) {
            let j = choose|j: int| 0 <= j < early.len() && early[j] == x;
            assert(late[j] == x);
        }
        if names[n - 1] == x {
            assert(late[n - 1] == x);
            if x != name {
                assert(now[before.len() as int] == x);
            }
        }
        if before.contains(x) {
            let j = choose|j: int| 0 <= j < before.len() && before[j] == x;
            assert(now[j] == x);
        }
        if now.contains(x) {
            let j = choose|j: int| 0 <= j < now.len() && now[j] == x;
            if j < before.len() {
                assert(before[j] == x);
            }
        }
        if late.contains(x) {
            let j = choose|j: int| 0 <= j < late.len() && late[j] == x;
            if j < n - 1 {
                assert(early[j] == x);
            }
        }
    }
}

proof fn lemma_step_up(
    name: Option<Seq<char>>,
    content: Seq<char>,
    names: Seq<Seq<char>>,
    n: int,
    x: Seq<char>,
)
    requires
        0 <= n <= names.len(),
    ensures
        one_step_up(name, content, names, n).contains(x) <==> exists|k: int|
            0 <= k < n && dependents(name, content, #[trigger] names[k]).contains(x),
    decreases n,
{
    if n > 0 {
        lemma_step_up(name, content, names, n - 1, x);
        let before = one_step_up(name, content, names, n - 1);
        let more = dependents(name, content, names[n - 1]);
        let now = before + more;
        if before.contains(x) {
            let j = choose|j: int| 0 <= j < before.len() && before[j] == x;
            assert(now[j] == x);
        }
        if more.contains(x) {
            let j = choose|j: int| 0 <= j < more.len() && more[j] == x;
            assert(now[before.len() + j] == x);
        }
        if now.contains(x) {
            let j = choose|j: int| 0 <= j < now.len() && now[j] == x;
            if j < before.len() {
                assert(before[j] == x);
                let k = choose|k: int|
                    0 <= k < n - 1 && dependents(name, content, #[trigger] names[k]).contains(x);
                assert(0 <= k < n);
            } else {
                assert(more[j - before.len()] == x);
            }
        }
        if exists|k: int| 0 <= k < n && dependents(name, content, #[trigger] names[k]).contains(x) {
            let k = choose|k: int|
                0 <= k < n && dependents(name, content, #[trigger] names[k]).contains(x);
            if k < n - 1 {
                assert(before.contains(x));
            }
        }
    }
}

/// The packages within a number of steps of the target are those from which
/// it is reached in as many.
pub proof fn law_ancestors_are_what_reaches_the_target(
    name: Option<Seq<char>>,
    content: Seq<char>,
    target: Seq<char>,
    steps: int,
    x: Seq<char>,
)
    ensures
        ancestors_within(name, content, target, steps).contains(x) <==> reaches(
            name,
            content,
            target,
            x,
            steps,
        ),
    decreases steps,
{
    if steps <= 0 {
        law_dependents_never_hold_the_target(name, content, target, x);
    } else {
        let near = ancestors_within(name, content, target, steps - 1);
        let far = one_step_up(name, content, near, near.len() as int);
        let all = near + far;
        lemma_once_without(all, target, x);
        lemma_step_up(name, content, near, near.len() as int, x);
        law_ancestors_are_what_reaches_the_target(name, content, target, steps - 1, x);
        if all.contains(x) {
            let j = choose|j: int| 0 <= j < all.len() && all[j] == x;
            if j < near.len() {
                assert(near[j] == x);
                assert(near.contains(x));
            } else {
                assert(far[j - near.len()] == x);
                assert(far.contains(x));
            }
        }
        if near.contains(x) {
            let j = choose|j: int| 0 <= j < near.len() && near[j] == x;
            assert(all[j] == x);
        }
        if far.contains(x) {
            let j = choose|j: int| 0 <= j < far.len() && far[j] == x;
            assert(all[near.len() + j] == x);
            let k = choose|k: int|
                0 <= k < near.len() && dependents(name, content, #[trigger] near[k]).contains(x);
            let y = near[k];
            assert(near.contains(y));
            law_ancestors_are_what_reaches_the_target(name, content, target, steps - 1, y);
            law_dependents_never_hold_the_target(name, content, y, x);
            assert(reaches(name, content, target, y, steps - 1));
        }
        if x != target && exists|y: Seq<char>|
            reaches(name, content, target, y, steps - 1) && x != y && #[trigger] listed_dependents(
                name,
                content,
                y,
            ).contains(x) {
            let y = choose|y: Seq<char>|
                reaches(name, content, target, y, steps - 1) && x != y && #[trigger] listed_dependents(
                    name,
                    content,
                    y,
                ).contains(x);
            law_ancestors_are_what_reaches_the_target(name, content, target, steps - 1, y);
            law_dependents_never_hold_the_target(name, content, y, x);
            let k = choose|k: int| 0 <= k < near.len() && near[k] == y;
            assert(dependents(name, content, near[k]).contains(x));
            assert(far.contains(x));
        }
        let now = ancestors_within(name, content, target, steps);
        assert(now == once_without(all, target));
        assert(now.contains(x) ==> reaches(name, content, target, x, steps));
        assert(reaches(name, content, target, x, steps) ==> now.contains(x));
    }
}

proof fn lemma_common(names: Seq<Seq<char>>, known: Seq<Seq<char>>, n: int, x: Seq<char>)
    requires
        0 <= n <= names.len(),
    ensures
        common(names, known, n).contains(x) <==> (names.take(n).contains(x) && known.contains(x)),
    decreases n,
{
    if n > 0 {
        lemma_common(names, known, n - 1, x);
        let before = common(names, known, n - 1);
        let now = common(names, known, n);
        let early = names.take(n - 1);
        let late = names.take(n);
        assert(late =~= early.push(names[n - 1]));
        if early.contains(x) {
            let j = choose|j: int| 0 <= j < early.len() && early[j] == x;
            assert(late[j] == x);
        }
        if names[n - 1] == x {
            assert(late[n - 1] == x);
            if known.contains(x) {
                assert(now[before.len() as int] == x);
            }
        }
        if before.contains(x) {
            let j = choose|j: int| 0 <= j < before.len() && before[j] == x;
            assert(now[j] == x);
        }
        if now.contains(x) {
            let j = choose|j: int| 0 <= j < now.len() && now[j] == x;
            if j < before.len() {
                assert(before[j] == x);
            }
        }
        if late.contains(x) {
            let j = choose|j: int| 0 <= j < late.len() && late[j] == x;
            if j < n - 1 {
                assert(early[j] == x);
            }
        }
    }
}

/// The parents to act on are the packages that the project lists itself and
/// from which the lockfile brings in the package.
pub proof fn law_actionable_parents(
    ws: WorkspaceView,
    lockfile: Seq<char>,
    manifest: Seq<char>,
    package: Seq<char>,
    x: Seq<char>,
)
    ensures
        actionable_parents(ws, lockfile, manifest, package).contains(x) <==> (direct_names(
            ws,
            manifest,
        ).contains(x) && (text_at(ws, lockfile) matches Ok(content) && reaches(
            name_of(lockfile),
            content,
            package,
            x,
            content.len() as int,
        ))),
{
    let all = ancestors(ws, lockfile, package);
    lemma_common(all, direct_names(ws, manifest), all.len() as int, x);
    assert(all.take(all.len() as int) =~= all);
    match text_at(ws, lockfile) {
        Ok(content) => {
            law_ancestors_are_what_reaches_the_target(
                name_of(lockfile),
                content,
                package,
                content.len() as int,
                x,
            );
        },
        Err(_) => {},
    }
}

/// The packages that a manifest lists are the members of its three sections.
pub proof fn law_manifest_names(manifest: JsonView, x: Seq<char>)
    ensures
        manifest_names(manifest).no_duplicates(),
        manifest_names(manifest).contains(x) <==> (is_member_key(manifest, "dependencies"@, x)
            || is_member_key(manifest, "devDependencies"@, x) || is_member_key(
            manifest,
            "peerDependencies"@,
            x,
        )),
{
    let a = section_names(manifest, "dependencies"@);
    let b = section_names(manifest, "devDependencies"@);
    let c = section_names(manifest, "peerDependencies"@);
    let all = a + b + c;
    law_distinct_holds_each_value_once(all, all.len() as int);
    assert(all.take(all.len() as int) =~= all);
    lemma_section_names(manifest, "dependencies"@, x);
    lemma_section_names(manifest, "devDependencies"@, x);
    lemma_section_names(manifest, "peerDependencies"@, x);
    if all.contains(x) {
        let j = choose|j: int| 0 <= j < all.len() && all[j] == x;
        if j < a.len() {
            assert(a[j] == x);
        } else if j < a.len() + b.len() {
            assert(b[j - a.len()] == x);
        } else {
            assert(c[j - a.len() - b.len()] == x);
        }
    }
    if a.contains(x) {
        let j = choose|j: int| 0 <= j < a.len() && a[j] == x;
        assert(all[j] == x);
    }
    if b.contains(x) {
        let j = choose|j: int| 0 <= j < b.len() && b[j] == x;
        assert(all[a.len() + j] == x);
    }
    if c.contains(x) {
        let j = choose|j: int| 0 <= j < c.len() && c[j] == x;
        assert(all[a.len() + b.len() + j] == x);
    }
    assert(manifest_names(manifest).contains(x) <==> all.contains(x));
}

/// A member of the section has the key.
pub open spec fn is_member_key(manifest: JsonView, section: Seq<char>, x: Seq<char>) -> bool {
    json_member(manifest, section) matches Some(deps) && exists|k: int|
        0 <= k < json_members(deps).len() && (#[trigger] json_members(deps)[k]).0 == x
}

proof fn lemma_section_names(manifest: JsonView, section: Seq<char>, x: Seq<char>)
    ensures
        section_names(manifest, section).contains(x) <==> is_member_key(manifest, section, x),
{
    let names = section_names(manifest, section);
    match json_member(manifest, section) {
        Some(deps) => {
            let members = json_members(deps);
            if names.contains(x) {
                let j = choose|j: int| 0 <= j < names.len() && names[j] == x;
                assert(members[j].0 == x);
            }
            if is_member_key(manifest, section, x) {
                let k = choose|k: int| 0 <= k < members.len() && (#[trigger] members[k]).0 == x;
                assert(names[k] == x);
            }
        },
        None => {},
    }
}

} // verus!
