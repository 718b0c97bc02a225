//! Requests to a language model: joining those of a family, and asking for
//! the repair of tests.

use crate::engine::family::{
    consolidated, group_before, group_place, groups_of, known_family, ungrouped, GroupView,
};
use crate::engine::test_requests::{test_request, test_requests, test_seen, Candidate};
use crate::model::LlmFixRequestView;
use crate::order::{path_same, ByPath, ByText, KeyOrder};
use crate::strategy::StrategyEntryView;
use vstd::prelude::*;

verus! {

broadcast use vstd::string::group_string_axioms;

// ---------------------------------------------------------------------
// Families
// ---------------------------------------------------------------------

/// Group `a` comes before group `b`.
pub open spec fn before(a: GroupView, b: GroupView) -> bool {
    group_before(a, b.path, b.family)
}

/// The groups are for the same file and the same family.
pub open spec fn alike(a: GroupView, b: GroupView) -> bool {
    path_same(a.path, b.path) && a.family == b.family
}

proof fn lemma_group_order(a: GroupView, b: GroupView, c: GroupView)
    ensures
        before(a, b) || before(b, a) || alike(a, b),
        !(before(a, b) && alike(a, b)),
        before(a, b) && before(b, c) ==> before(a, c),
        alike(a, b) ==> alike(b, a),
        alike(a, b) && before(b, c) ==> before(a, c),
        before(a, b) && alike(b, c) ==> before(a, c),
{
    ByPath::order_laws(a.path, b.path, c.path);
    ByPath::order_laws(b.path, a.path, c.path);
    ByPath::order_laws(b.path, c.path, a.path);
    ByText::order_laws(a.family, b.family, c.family);
}

/// Each group comes before the ones that follow it.
pub open spec fn groups_ascend(groups: Seq<GroupView>) -> bool {
    forall|i: int, j: int| 0 <= i < j < groups.len() ==> before(#[trigger] groups[i], #[trigger] groups[j])
}

proof fn lemma_group_place(groups: Seq<GroupView>, g: GroupView, i: int)
    requires
        0 <= i <= groups.len(),
        forall|j: int| 0 <= j < i ==> before(#[trigger] groups[j], g),
    ensures
        i <= group_place(groups, g.path, g.family, i) <= groups.len(),
        forall|j: int|
            0 <= j < group_place(groups, g.path, g.family, i) ==> before(#[trigger] groups[j], g),
        group_place(groups, g.path, g.family, i) < groups.len() ==> !before(
            groups[group_place(groups, g.path, g.family, i)],
            g,
        ),
    decreases groups.len() - i,
{
    if i < groups.len() && group_before(groups[i], g.path, g.family) {
        lemma_group_place(groups, g, i + 1);
    }
}

proof fn lemma_inserted_groups_ascend(groups: Seq<GroupView>, g: GroupView)
    requires
        groups_ascend(groups),
        ({
            let p = group_place(groups, g.path, g.family, 0);
            !(p < groups.len() && alike(groups[p], g))
        }),
    ensures
        groups_ascend(groups.insert(group_place(groups, g.path, g.family, 0), g)),
{
    lemma_group_place(groups, g, 0);
    let p = group_place(groups, g.path, g.family, 0);
    let now = groups.insert(p, g);
    if p < groups.len() {
        lemma_group_order(groups[p], g, g);
    }
    assert forall|i: int, j: int| 0 <= i < j < now.len() implies before(
        #[trigger] now[i],
        #[trigger] now[j],
    ) by {
        if i == p {
            assert(now[j] == groups[j - 1]);
            lemma_group_order(g, groups[p], groups[j - 1]);
            if j - 1 > p {
                assert(before(groups[p], groups[j - 1]));
            }
        } else if j == p {
            assert(now[i] == groups[i]);
        } else {
            let a = if i < p { i } else { i - 1 };
            let b = if j < p { j } else { j - 1 };
            assert(now[i] == groups[a]);
            assert(now[j] == groups[b]);
        }
    }
}

/// Request `i` is in one of the groups, one for its file and its family.
pub open spec fn is_grouped(
    requests: Seq<LlmFixRequestView>,
    groups: Seq<GroupView>,
    family: Seq<char>,
    i: int,
) -> bool {
    exists|g: int|
        0 <= g < groups.len() && (#[trigger] groups[g]).members.contains(i) && groups[g].family
            == family && path_same(groups[g].path, requests[i].file_path)
}

/// The groups stand in order, one for each file and family, and each of the
/// first `n` requests is in the group of its family or stays by itself.
pub proof fn law_each_request_is_grouped_or_kept(
    requests: Seq<LlmFixRequestView>,
    entries: Seq<(Seq<char>, StrategyEntryView)>,
    n: int,
)
    requires
        0 <= n <= requests.len(),
    ensures
        groups_ascend(groups_of(requests, entries, n)),
        forall|i: int|
            0 <= i < n ==> match known_family(#[trigger] requests[i], entries) {
                Some(family) => is_grouped(requests, groups_of(requests, entries, n), family, i),
                None => ungrouped(requests, entries, n).contains(requests[i]),
            },
    decreases n,
{
    if n > 0 {
        law_each_request_is_grouped_or_kept(requests, entries, n - 1);
        let groups = groups_of(requests, entries, n - 1);
        let kept = ungrouped(requests, entries, n - 1);
        let now = groups_of(requests, entries, n);
        let r = requests[n - 1];
        match known_family(r, entries) {
            Some(family) => {
                let g = GroupView { path: r.file_path, family, members: seq![n - 1] };
                lemma_group_place(groups, g, 0);
                let p = group_place(groups, g.path, g.family, 0);
                ByPath::order_laws(g.path, g.path, g.path);
                if p < groups.len() && alike(groups[p], g) {
                    assert(now[p].members.last() == n - 1);
                    assert(now[p].members.contains(n - 1));
                    assert forall|i: int, j: int| 0 <= i < j < now.len() implies before(
                        #[trigger] now[i],
                        #[trigger] now[j],
                    ) by {
                        assert(before(groups[i], groups[j]));
                    }
                    assert forall|i: int| 0 <= i < n implies match known_family(
                        #[trigger] requests[i],
                        entries,
                    ) {
                        Some(f) => is_grouped(requests, now, f, i),
                        None => kept.contains(requests[i]),
                    } by {
                        if i == n - 1 {
                            assert(is_grouped(requests, now, family, i));
                        } else if known_family(requests[i], entries) is Some {
                            let f = known_family(requests[i], entries)->Some_0;
                            assert(is_grouped(requests, groups, f, i));
                            let k = choose|k: int|
                                0 <= k < groups.len() && (#[trigger] groups[k]).members.contains(i)
                                    && groups[k].family == f && path_same(
                                    groups[k].path,
                                    requests[i].file_path,
                                );
                            let old_members = groups[k].members;
                            let at = choose|at: int|
                                0 <= at < old_members.len() && old_members[at] == i;
                            assert(now[k].members[at] == i);
                            assert(now[k].members.contains(i));
                        }
                    }
                } else {
                    lemma_inserted_groups_ascend(groups, g);
                    assert forall|i: int| 0 <= i < n implies match known_family(
                        #[trigger] requests[i],
                        entries,
                    ) {
                        Some(f) => is_grouped(requests, now, f, i),
                        None => kept.contains(requests[i]),
                    } by {
                        if i == n - 1 {
                            assert(now[p].members[0] == i);
                            assert(now[p].members.contains(i));
                        } else if known_family(requests[i], entries) is Some {
                            let f = known_family(requests[i], entries)->Some_0;
                            assert(is_grouped(requests, groups, f, i));
                            let k = choose|k: int|
                                0 <= k < groups.len() && (#[trigger] groups[k]).members.contains(i)
                                    && groups[k].family == f && path_same(
                                    groups[k].path,
                                    requests[i].file_path,
                                );
                            let at = if k < p { k } else { k + 1 };
                            assert(now[at] == groups[k]);
                        }
                    }
                }
            },
            None => {
                let left = ungrouped(requests, entries, n);
                assert(left.last() == r);
                assert forall|i: int| 0 <= i < n implies match known_family(
                    #[trigger] requests[i],
                    entries,
                ) {
                    Some(f) => is_grouped(requests, now, f, i),
                    None => left.contains(requests[i]),
                } by {
                    if i < n - 1 && known_family(requests[i], entries) is None {
                        let at = choose|at: int| 0 <= at < kept.len() && kept[at] == requests[i];
                        assert(left[at] == requests[i]);
                    }
                }
            },
        }
    }
}

proof fn lemma_no_more_requests(
    requests: Seq<LlmFixRequestView>,
    entries: Seq<(Seq<char>, StrategyEntryView)>,
    n: int,
)
    requires
        0 <= n <= requests.len(),
    ensures
        groups_of(requests, entries, n).len() + ungrouped(requests, entries, n).len() <= n,
    decreases n,
{
    if n > 0 {
        lemma_no_more_requests(requests, entries, n - 1);
        law_each_request_is_grouped_or_kept(requests, entries, n - 1);
        let groups = groups_of(requests, entries, n - 1);
        match known_family(requests[n - 1], entries) {
            Some(family) => {
                let g = GroupView { path: requests[n - 1].file_path, family, members: seq![n - 1] };
                lemma_group_place(groups, g, 0);
            },
            None => {},
        }
    }
}

/// Joining requests never gives more of them.
pub proof fn law_joining_gives_no_more_requests(
    requests: Seq<LlmFixRequestView>,
    entries: Seq<(Seq<char>, StrategyEntryView)>,
)
    ensures
        consolidated(requests, entries).len() <= requests.len(),
{
    lemma_no_more_requests(requests, entries, requests.len() as int);
}

proof fn lemma_none_known(
    requests: Seq<LlmFixRequestView>,
    entries: Seq<(Seq<char>, StrategyEntryView)>,
    n: int,
)
    requires
        0 <= n <= requests.len(),
        forall|i: int|
            0 <= i < requests.len() ==> known_family(#[trigger] requests[i], entries) is None,
    ensures
        groups_of(requests, entries, n).len() == 0,
        ungrouped(requests, entries, n) == requests.take(n),
    decreases n,
{
    if n > 0 {
        lemma_none_known(requests, entries, n - 1);
        assert(requests.take(n) =~= requests.take(n - 1).push(requests[n - 1]));
    } else {
        assert(requests.take(n) =~= Seq::<LlmFixRequestView>::empty());
    }
}

/// Where no request belongs to a known family, the requests stay as they
/// are. So it is in particular where no family is known.
pub proof fn law_requests_without_family_stay(
    requests: Seq<LlmFixRequestView>,
    entries: Seq<(Seq<char>, StrategyEntryView)>,
)
    requires
        entries.len() == 0 || forall|i: int|
            0 <= i < requests.len() ==> known_family(#[trigger] requests[i], entries) is None,
    ensures
        consolidated(requests, entries) == requests,
{
    lemma_none_known(requests, entries, requests.len() as int);
    assert(requests.take(requests.len() as int) =~= requests);
    assert(consolidated(requests, entries) =~= requests);
}

/// No two joined requests are for the same file and the same family.
pub proof fn law_one_request_for_a_file_and_family(
    requests: Seq<LlmFixRequestView>,
    entries: Seq<(Seq<char>, StrategyEntryView)>,
    i: int,
    j: int,
)
    requires
        0 <= i < j < groups_of(requests, entries, requests.len() as int).len(),
    ensures
        ({
            let groups = groups_of(requests, entries, requests.len() as int);
            !alike(groups[i], groups[j])
        }),
{
    law_each_request_is_grouped_or_kept(requests, entries, requests.len() as int);
    let groups = groups_of(requests, entries, requests.len() as int);
    lemma_group_order(groups[i], groups[j], groups[j]);
}

// ---------------------------------------------------------------------
// Tests
// ---------------------------------------------------------------------

proof fn lemma_test_requests(all: Seq<Candidate>, n: int)
    requires
        0 <= n <= all.len(),
    ensures
        test_requests(all, n).len() <= n,
        forall|i: int|
            0 <= i < test_requests(all, n).len() ==> exists|k: int|
                0 <= k < n && !test_seen(all, k) && #[trigger] test_requests(all, n)[i]
                    == test_request(#[trigger] all[k]),
    decreases n,
{
    if n > 0 {
        lemma_test_requests(all, n - 1);
        let earlier = test_requests(all, n - 1);
        let now = test_requests(all, n);
        assert forall|i: int| 0 <= i < now.len() implies exists|k: int|
            0 <= k < n && !test_seen(all, k) && #[trigger] now[i] == test_request(
                #[trigger] all[k],
            ) by {
            if i < earlier.len() {
                assert(now[i] == earlier[i]);
            } else {
                assert(now[i] == test_request(all[n - 1]));
            }
        }
    }
}

/// Every test file that a request names gets a request of its own.
pub proof fn law_every_test_file_is_covered(all: Seq<Candidate>, n: int, k: int)
    requires
        0 <= k < n <= all.len(),
    ensures
        exists|i: int|
            0 <= i < test_requests(all, n).len() && path_same(
                (#[trigger] test_requests(all, n)[i]).file_path,
                all[k].test_file,
            ),
    decreases n, k,
{
    ByPath::order_laws(all[k].test_file, all[k].test_file, all[k].test_file);
    let now = test_requests(all, n);
    if test_seen(all, k) {
        let j = choose|j: int| 0 <= j < k && path_same((#[trigger] all[j]).test_file, all[k].test_file);
        law_every_test_file_is_covered(all, n, j);
        let i = choose|i: int|
            0 <= i < now.len() && path_same((#[trigger] now[i]).file_path, all[j].test_file);
        ByPath::order_laws(now[i].file_path, all[j].test_file, all[k].test_file);
        assert(path_same(now[i].file_path, all[k].test_file));
    } else if k == n - 1 {
        assert(now.last().file_path == all[k].test_file);
    } else {
        law_every_test_file_is_covered(all, n - 1, k);
        let earlier = test_requests(all, n - 1);
        let i = choose|i: int|
            0 <= i < earlier.len() && path_same((#[trigger] earlier[i]).file_path, all[k].test_file);
        assert(now[i] == earlier[i]);
    }
}

/// No test file gets two requests.
pub proof fn law_one_request_for_a_test_file(all: Seq<Candidate>, n: int, i: int, j: int)
    requires
        0 <= n <= all.len(),
        0 <= i < j < test_requests(all, n).len(),
    ensures
        !path_same(test_requests(all, n)[i].file_path, test_requests(all, n)[j].file_path),
    decreases n,
{
    let earlier = test_requests(all, n - 1);
    let now = test_requests(all, n);
    if n > 0 {
        if j < earlier.len() {
            law_one_request_for_a_test_file(all, n - 1, i, j);
        } else {
            lemma_test_requests(all, n - 1);
            assert(now[i] == earlier[i]);
            let k = choose|k: int|
                0 <= k < n - 1 && !test_seen(all, k) && earlier[i] == test_request(#[trigger] all[k]);
            assert(now[j] == test_request(all[n - 1]));
            if path_same(now[i].file_path, now[j].file_path) {
                assert(test_seen(all, n - 1));
            }
        }
    }
}

} // verus!
