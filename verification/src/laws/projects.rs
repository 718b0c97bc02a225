//! Projects: paths, strategies, lockfiles, manifests and versions.

use crate::engine::apply::line_index;
use crate::engine::plan::uri_path;
use crate::js::lockfile::{dependents, listed_dependents, others};
use crate::js::manifest::{comma_edits, insert_fix};
use crate::js::versions::{candidate_of, is_later, latest, Candidate};
use crate::json::JsonView;
use crate::laws::tables::law_distinct_holds_each_value_once;
use crate::order::{ByText, KeyOrder};
use crate::paths::{joined_path, rooted};
use crate::strategy::{families_of, strategies_of, strategy_of, StrategyEntryView};
use crate::table::{lemma_place_of, lookup, place_of};
use crate::text::{begins, has_text, occurs_at, space_start, trimmed_end};
use crate::views::distinct;
use vstd::prelude::*;

verus! {

broadcast use vstd::string::group_string_axioms;

// ---------------------------------------------------------------------
// Paths
// ---------------------------------------------------------------------

/// A file URI stands for the path that it holds, where the path starts at
/// the root; otherwise the path is seen from the root of the project.
pub proof fn law_file_uri_stands_for_its_path(path: Seq<char>, root: Seq<char>)
    ensures
        uri_path("file://"@ + path, root) == joined_path(root, path),
        rooted(path) ==> uri_path("file://"@ + path, root) == path,
{
    let uri = "file://"@ + path;
    let n = "file://"@.len() as int;
    assert(uri.subrange(0, n) =~= "file://"@);
    assert(occurs_at(uri, "file://"@, 0));
    assert(begins(uri, "file://"@));
    assert(uri.skip(n) =~= path);
    assert(uri.subrange(n, uri.len() as int) =~= path);
}

// ---------------------------------------------------------------------
// Strategies
// ---------------------------------------------------------------------

proof fn lemma_strategy_place(entries: Seq<(Seq<char>, StrategyEntryView)>, k: Seq<char>, i: int)
    requires
        0 <= i,
    ensures
        place_of::<ByText, crate::strategy::FixStrategyView>(strategies_of(entries), k, i)
            == place_of::<ByText, StrategyEntryView>(entries, k, i),
    decreases entries.len() - i,
{
    if i < entries.len() {
        lemma_strategy_place(entries, k, i + 1);
    }
}

/// The strategy for a rule is that of the entry with the rule's name, and
/// there is one exactly where there is such an entry.
pub proof fn law_strategy_comes_from_the_entry(
    entries: Seq<(Seq<char>, StrategyEntryView)>,
    k: Seq<char>,
)
    ensures
        lookup(strategies_of(entries), k) == match lookup(entries, k) {
            Some(e) => Some(strategy_of(e)),
            None => None,
        },
{
    lemma_strategy_place(entries, k, 0);
    lemma_place_of::<ByText, StrategyEntryView>(entries, k, 0);
}

proof fn lemma_lookup_push<V>(m: Seq<(Seq<char>, V)>, x: (Seq<char>, V), k: Seq<char>)
    ensures
        lookup(m.push(x), k) == match lookup(m, k) {
            Some(v) => Some(v),
            None => if x.0 == k {
                Some(x.1)
            } else {
                None
            },
        },
{
    let now = m.push(x);
    lemma_place_of::<ByText, V>(m, k, 0);
    lemma_place_of::<ByText, V>(now, k, 0);
    match place_of::<ByText, V>(m, k, 0) {
        Some(p) => {
            assert(now[p] == m[p]);
            let q = place_of::<ByText, V>(now, k, 0)->Some_0;
            if q < p {
                assert(now[q] == m[q]);
            }
        },
        None => {
            match place_of::<ByText, V>(now, k, 0) {
                Some(q) => {
                    if q < m.len() {
                        assert(now[q] == m[q]);
                    }
                },
                None => {
                    assert(now[m.len() as int] == x);
                },
            }
        },
    }
}

proof fn lemma_families(
    entries: Seq<(Seq<char>, StrategyEntryView)>,
    k: Seq<char>,
    n: int,
)
    requires
        0 <= n <= entries.len(),
    ensures
        lookup(families_of(entries, n), k) == if begins(k, "family:"@) {
            lookup(entries.take(n), k)
        } else {
            None
        },
    decreases n,
{
    if n > 0 {
        lemma_families(entries, k, n - 1);
        let x = entries[n - 1];
        assert(entries.take(n) =~= entries.take(n - 1).push(x));
        lemma_lookup_push(entries.take(n - 1), x, k);
        lemma_lookup_push(families_of(entries, n - 1), x, k);
    } else {
        assert(entries.take(n) =~= Seq::<(Seq<char>, StrategyEntryView)>::empty());
    }
}

/// The family entries are the entries whose name begins with `family:`, and
/// no others.
pub proof fn law_families_are_the_family_entries(
    entries: Seq<(Seq<char>, StrategyEntryView)>,
    k: Seq<char>,
)
    ensures
        lookup(families_of(entries, entries.len() as int), k) == if begins(k, "family:"@) {
            lookup(entries, k)
        } else {
            None
        },
{
    lemma_families(entries, k, entries.len() as int);
    assert(entries.take(entries.len() as int) =~= entries);
}

// ---------------------------------------------------------------------
// Lockfiles
// ---------------------------------------------------------------------

proof fn lemma_others(names: Seq<Seq<char>>, name: Seq<char>, n: int, x: Seq<char>)
    requires
        0 <= n <= names.len(),
    ensures
        others(names, name, n).contains(x) <==> (x != name && names.take(n).contains(x)),
    decreases n,
{
    let now = others(names, name, n);
    if n > 0 {
        lemma_others(names, name, n - 1, x);
        let before = others(names, name, n - 1);
        let y = names[n - 1];
        assert(names.take(n) =~= names.take(n - 1).push(y));
        lemma_contains_push(names.take(n - 1), y, x);
        lemma_contains_push(before, y, x);
    } else {
        assert(names.take(n) =~= Seq::<Seq<char>>::empty());
    }
}

proof fn lemma_contains_push<T>(s: Seq<T>, y: T, x: T)
    ensures
        s.push(y).contains(x) <==> (s.contains(x) || x == y),
{
    let now = s.push(y);
    if s.contains(x) {
        let i = choose|i: int| 0 <= i < s.len() && s[i] == x;
        assert(now[i] == x);
    }
    if x == y {
        assert(now[s.len() as int] == x);
    }
    if now.contains(x) && x != y {
        let i = choose|i: int| 0 <= i < now.len() && now[i] == x;
        assert(s[i] == x);
    }
}

/// The packages that depend on another one are those that the lockfile
/// lists, each once, and never the package itself.
pub proof fn law_dependents_never_hold_the_target(
    name: Option<Seq<char>>,
    content: Seq<char>,
    target: Seq<char>,
    x: Seq<char>,
)
    ensures
        dependents(name, content, target).no_duplicates(),
        dependents(name, content, target).contains(x) <==> (x != target && listed_dependents(
            name,
            content,
            target,
        ).contains(x)),
{
    let all = listed_dependents(name, content, target);
    let rest = others(all, target, all.len() as int);
    lemma_others(all, target, all.len() as int, x);
    law_distinct_holds_each_value_once(rest, rest.len() as int);
    assert(all.take(all.len() as int) =~= all);
    assert(rest.take(rest.len() as int) =~= rest);
    assert(distinct(rest, rest.len() as int).contains(x) <==> rest.contains(x));
}

// ---------------------------------------------------------------------
// Manifests
// ---------------------------------------------------------------------

proof fn lemma_space_start(s: Seq<char>, i: int)
    requires
        0 <= i <= s.len(),
    ensures
        0 <= space_start(s, i) <= i,
    decreases i,
{
    if 0 < i && crate::text::is_space(s[i - 1]) {
        lemma_space_start(s, i - 1);
    }
}

/// The edits that add a dependency find their texts on their lines.
pub proof fn law_dependency_insert_applies(
    rule_id: Seq<char>,
    manifest: Seq<char>,
    all: Seq<Seq<char>>,
    closing: int,
    last: Option<int>,
    package: Seq<char>,
    new_version: Seq<char>,
    i: int,
)
    requires
        all.len() <= u32::MAX,
        0 <= closing < all.len(),
        last matches Some(l) ==> 0 <= l < all.len(),
        0 <= i < insert_fix(
            rule_id,
            manifest,
            all,
            closing,
            last,
            package,
            new_version,
        ).edits.len(),
    ensures
        ({
            let e = insert_fix(
                rule_id,
                manifest,
                all,
                closing,
                last,
                package,
                new_version,
            ).edits[i];
            line_index(e.line) < all.len() && has_text(all[line_index(e.line)], e.old_text)
        }),
{
    let fix = insert_fix(rule_id, manifest, all, closing, last, package, new_version);
    let commas = comma_edits(rule_id, all, last, package);
    crate::text::lemma_has_text_reflexive(all[closing]);
    if i < commas.len() {
        let l = last->Some_0;
        let line = all[l];
        lemma_space_start(line, line.len() as int);
        assert(fix.edits[i] == commas[i]);
        assert(line.subrange(0, trimmed_end(line).len() as int) =~= trimmed_end(line));
        assert(occurs_at(line, trimmed_end(line), 0));
    }
}

// ---------------------------------------------------------------------
// Versions
// ---------------------------------------------------------------------

proof fn lemma_later(a: Candidate, b: Candidate, c: Candidate)
    ensures
        !is_later(a, a),
        is_later(a, b) ==> !is_later(b, a),
        !is_later(a, b) && is_later(c, b) ==> !is_later(a, c),
{
    ByText::order_laws(a.text, a.text, a.text);
    ByText::order_laws(a.text, b.text, c.text);
    ByText::order_laws(b.text, a.text, c.text);
    ByText::order_laws(a.text, c.text, b.text);
    ByText::order_laws(c.text, a.text, b.text);
    ByText::order_laws(b.text, c.text, a.text);
    ByText::order_laws(c.text, b.text, a.text);
}

/// The release that is chosen is one of the candidates, and no candidate is
/// later. One is chosen as soon as there is a candidate.
pub proof fn law_latest_release_is_chosen(
    entries: Seq<(Seq<char>, JsonView)>,
    package: Seq<char>,
    major: nat,
    n: int,
)
    requires
        0 <= n <= entries.len(),
    ensures
        match latest(entries, package, major, n) {
            Some(c) => {
                &&& exists|k: int|
                    0 <= k < n && candidate_of(#[trigger] entries[k], package, major) == Some(c)
                &&& forall|k: int|
                    0 <= k < n ==> (candidate_of(#[trigger] entries[k], package, major) matches Some(
                        d,
                    ) ==> !is_later(d, c))
            },
            None => forall|k: int|
                0 <= k < n ==> candidate_of(#[trigger] entries[k], package, major) is None,
        },
    decreases n,
{
    if n > 0 {
        law_latest_release_is_chosen(entries, package, major, n - 1);
        let before = latest(entries, package, major, n - 1);
        match candidate_of(entries[n - 1], package, major) {
            Some(c) => {
                lemma_later(c, c, c);
                match before {
                    Some(b) => {
                        lemma_later(c, b, b);
                        assert forall|k: int| 0 <= k < n implies (candidate_of(
                            #[trigger] entries[k],
                            package,
                            major,
                        ) matches Some(d) ==> !is_later(
                            d,
                            latest(entries, package, major, n)->Some_0,
                        )) by {
                            match candidate_of(entries[k], package, major) {
                                Some(d) => {
                                    lemma_later(d, b, c);
                                },
                                None => {},
                            }
                        }
                        if is_later(c, b) {
                            assert(candidate_of(entries[n - 1], package, major) == Some(c));
                        }
                    },
                    None => {},
                }
            },
            None => {},
        }
    }
}

} // verus!
