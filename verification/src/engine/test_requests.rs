//! Requests for the test files of components that changed.

use crate::model::{LlmFixRequest, LlmFixRequestView};
use crate::order::{path_same, same_path};
use crate::paths::{file_name, name_of};
use crate::strategy::{or_else, text_or};
use crate::text::{cat2, cat9, owned};
use crate::views::{append_one, has_entry};
use vstd::prelude::*;

verus! {

broadcast use vstd::string::group_string_axioms;

/// A request and one of the test files that belong to its file.
#[verifier::ext_equal]
pub ghost struct Candidate {
    pub request: LlmFixRequestView,
    pub test_file: Seq<char>,
}

/// The test files that the first `n` requests can break, where the request
/// says that it affects tests.
pub open spec fn candidates(requests: Seq<LlmFixRequestView>, n: int) -> Seq<Candidate>
    decreases n,
{
    if n <= 0 {
        Seq::empty()
    } else {
        let r = requests[n - 1];
        if r.labels.contains("change-type=test-impact"@) {
            candidates(requests, n - 1) + Seq::new(
                r.companion_test_files.len(),
                |k: int| Candidate { request: r, test_file: r.companion_test_files[k] },
            )
        } else {
            candidates(requests, n - 1)
        }
    }
}

/// The message about a test file.
pub open spec fn test_message(c: Candidate) -> Seq<char> {
    "The component file "@ + or_else(name_of(c.request.file_path), "component"@)
        + " was modified with migration changes that may break this test file.\n\nComponent changes that affect tests:\n"@
        + c.request.message + "\n\nInstructions:\n1. Read this test file at "@ + c.test_file
        + "\n2. Read the component file at "@ + c.request.file_path
        + " to see the current (already migrated) code\n3. For each test that interacts with the migrated component, check whether the changes described above would cause the test to fail. If so, fix the test.\n4. Write the fixed test file"@
}

/// The request about a test file.
pub open spec fn test_request(c: Candidate) -> LlmFixRequestView {
    LlmFixRequestView {
        rule_id: "test-fix:"@ + c.request.rule_id,
        file_uri: "file://"@ + c.test_file,
        file_path: c.test_file,
        line: 1,
        message: test_message(c),
        code_snip: None,
        source: None,
        labels: seq![
            "source=semver-analyzer"@,
            "change-type=test-fix"@,
            "impact=frontend-testing"@,
        ],
        companion_test_files: Seq::empty(),
    }
}

/// The test file of candidate `k` is that of an earlier one.
pub open spec fn test_seen(all: Seq<Candidate>, k: int) -> bool {
    exists|j: int| 0 <= j < k && path_same((#[trigger] all[j]).test_file, all[k].test_file)
}

/// The requests about the first `n` candidates, one for each test file.
pub open spec fn test_requests(all: Seq<Candidate>, n: int) -> Seq<LlmFixRequestView>
    decreases n,
{
    if n <= 0 {
        Seq::empty()
    } else if test_seen(all, n - 1) {
        test_requests(all, n - 1)
    } else {
        test_requests(all, n - 1).push(test_request(all[n - 1]))
    }
}

fn make_test_request(request: &LlmFixRequest, test_file: &str) -> (r: LlmFixRequest)
    ensures
        r.deep_view() == test_request(
            Candidate { request: request.deep_view(), test_file: test_file@ },
        ),
{
    let name = file_name(request.file_path.as_str());
    let message = cat9(
        "The component file ",
        text_or(&name, "component"),
        " was modified with migration changes that may break this test file.\n\nComponent changes that affect tests:\n",
        request.message.as_str(),
        "\n\nInstructions:\n1. Read this test file at ",
        test_file,
        "\n2. Read the component file at ",
        request.file_path.as_str(),
        " to see the current (already migrated) code\n3. For each test that interacts with the migrated component, check whether the changes described above would cause the test to fail. If so, fix the test.\n4. Write the fixed test file",
    );
    let mut labels: Vec<String> = Vec::new();
    labels.push(owned("source=semver-analyzer"));
    labels.push(owned("change-type=test-fix"));
    labels.push(owned("impact=frontend-testing"));
    assert(labels.deep_view() =~= seq![
        "source=semver-analyzer"@,
        "change-type=test-fix"@,
        "impact=frontend-testing"@,
    ]);
    let none: Vec<String> = Vec::new();
    assert(none.deep_view() =~= Seq::<Seq<char>>::empty());
    LlmFixRequest {
        rule_id: cat2("test-fix:", request.rule_id.as_str()),
        file_uri: cat2("file://", test_file),
        file_path: owned(test_file),
        line: 1,
        message,
        code_snip: None,
        source: None,
        labels,
        companion_test_files: none,
    }
}

/// The requests about the test files that belong to changed components: one
/// for each test file of a request that says it affects tests.
pub fn generate_test_fix_requests(requests: &Vec<LlmFixRequest>) -> (r: Vec<LlmFixRequest>)
    ensures
        ({
            let all = candidates(requests.deep_view(), requests@.len() as int);
            r.deep_view() == test_requests(all, all.len() as int)
        }),
{
    let ghost view = requests.deep_view();
    let mut out: Vec<LlmFixRequest> = Vec::new();
    let mut seen: Vec<&String> = Vec::new();
    let ghost all = candidates(view, requests@.len() as int);
    let mut n: usize = 0;
    assert(out.deep_view() =~= Seq::<LlmFixRequestView>::empty());
    while n < requests.len()
        invariant
            n <= requests@.len(),
            view == requests.deep_view(),
            all == candidates(view, requests@.len() as int),
            seen@.len() == candidates(view, n as int).len(),
            forall|k: int|
                0 <= k < seen@.len() ==> (#[trigger] seen@[k])@ == candidates(
                    view,
                    n as int,
                )[k].test_file,
            out.deep_view() == test_requests(
                candidates(view, n as int),
                candidates(view, n as int).len() as int,
            ),
        decreases requests@.len() - n,
    {
        let request = &requests[n];
        assert(view[n as int] == request.deep_view());
        if has_entry(&request.labels, "change-type=test-impact") {
            let ghost before = candidates(view, n as int);
            let ghost now = candidates(view, n + 1);
            let ghost start = before.len() as int;
            let files = &request.companion_test_files;
            let mut k: usize = 0;
            proof {
                lemma_test_requests_prefix(before, now, start);
            }
            while k < files.len()
                invariant
                    k <= files@.len(),
                    files.deep_view() == request.deep_view().companion_test_files,
                    start == before.len(),
                    now.len() == start + files@.len(),
                    forall|j: int|
                        0 <= j < files@.len() ==> #[trigger] now[start + j] == (Candidate {
                            request: request.deep_view(),
                            test_file: files.deep_view()[j],
                        }),
                    seen@.len() == start + k,
                    forall|j: int|
                        0 <= j < seen@.len() ==> (#[trigger] seen@[j])@ == now[j].test_file,
                    out.deep_view() == test_requests(now, start + k),
                decreases files@.len() - k,
            {
                let test_file = &files[k];
                assert(files.deep_view()[k as int] == test_file@);
                assert(now[start + k].test_file == test_file@);
                let mut j: usize = 0;
                let mut known = false;
                while j < seen.len()
                    invariant
                        j <= seen@.len(),
                        seen@.len() == start + k,
                        now[start + k].test_file == test_file@,
                        forall|i: int|
                            0 <= i < seen@.len() ==> (#[trigger] seen@[i])@ == now[i].test_file,
                        known == (exists|i: int|
                            0 <= i < j && path_same((#[trigger] now[i]).test_file, test_file@)),
                    decreases seen@.len() - j,
                {
                    assert(seen@[j as int]@ == now[j as int].test_file);
                    if same_path(seen[j].as_str(), test_file.as_str()) {
                        known = true;
                    }
                    j = j + 1;
                }
                assert(known == test_seen(now, start + k));
                if !known {
                    append_one(&mut out, make_test_request(request, test_file.as_str()));
                }
                seen.push(test_file);
                k = k + 1;
            }
            assert(now.len() == start + files@.len());
        }
        n = n + 1;
    }
    out
}

proof fn lemma_test_requests_prefix(before: Seq<Candidate>, now: Seq<Candidate>, n: int)
    requires
        0 <= n <= before.len(),
        before.len() <= now.len(),
        forall|k: int| 0 <= k < before.len() ==> before[k] == now[k],
    ensures
        test_requests(before, n) == test_requests(now, n),
    decreases n,
{
    if n > 0 {
        lemma_test_requests_prefix(before, now, n - 1);
        assert(test_seen(before, n - 1) == test_seen(now, n - 1)) by {
            if test_seen(before, n - 1) {
                let j = choose|j: int|
                    0 <= j < n - 1 && path_same(
                        (#[trigger] before[j]).test_file,
                        before[n - 1].test_file,
                    );
                assert(path_same(now[j].test_file, now[n - 1].test_file));
            }
            if test_seen(now, n - 1) {
                let j = choose|j: int|
                    0 <= j < n - 1 && path_same((#[trigger] now[j]).test_file, now[n - 1].test_file);
                assert(path_same(before[j].test_file, before[n - 1].test_file));
            }
        }
    }
}

} // verus!
