//! The orders in which tables keep their keys.

use crate::order::{lex_from, path_less, piece_lt, text_less};
use crate::paths::components;
use vstd::prelude::*;

verus! {

broadcast use vstd::string::group_string_axioms;

proof fn lemma_first_difference<T>(
    a: Seq<T>,
    b: Seq<T>,
    lt: spec_fn(T, T) -> bool,
    i: int,
    k: int,
)
    requires
        0 <= i <= k < b.len(),
        k <= a.len(),
        forall|j: int| i <= j < k ==> a[j] == b[j],
        k < a.len() ==> a[k] != b[k],
    ensures
        lex_from(a, b, lt, i) == (k == a.len() || lt(a[k], b[k])),
    decreases k - i,
{
    if i < k {
        lemma_first_difference(a, b, lt, i + 1, k);
    }
}

/// Of two texts the one with the smaller character at the first difference
/// comes first, and a text comes before its continuations.
pub proof fn law_order_of_texts(
    common: Seq<char>,
    x: char,
    a: Seq<char>,
    y: char,
    b: Seq<char>,
)
    requires
        x != y,
    ensures
        text_less(common + seq![x] + a, common + seq![y] + b) == (x < y),
        text_less(common, common + seq![x] + a),
        !text_less(common + seq![x] + a, common),
        !text_less(common, common),
{
    let n = common.len() as int;
    let s = common + seq![x] + a;
    let t = common + seq![y] + b;
    assert(s[n] == x);
    assert(t[n] == y);
    lemma_first_difference(s, t, crate::order::char_lt(), 0, n);
    lemma_first_difference(common, s, crate::order::char_lt(), 0, n);
    lemma_ended(s, common, crate::order::char_lt(), 0);
    lemma_ended(common, common, crate::order::char_lt(), 0);
}

proof fn lemma_ended<T>(a: Seq<T>, b: Seq<T>, lt: spec_fn(T, T) -> bool, i: int)
    requires
        0 <= i <= b.len(),
        b.len() <= a.len(),
        forall|j: int| 0 <= j < b.len() ==> a[j] == b[j],
    ensures
        !lex_from(a, b, lt, i),
    decreases b.len() - i,
{
    if i < b.len() {
        lemma_ended(a, b, lt, i + 1);
    }
}

/// The component is a name.
pub open spec fn is_name_piece(x: Seq<char>) -> bool {
    x != "/"@ && x != "."@ && x != ".."@
}

/// Of two paths the one whose component at the first difference comes first
/// comes first, where names are ordered as texts and the root comes before
/// all names; and a directory comes before what is in it.
pub proof fn law_order_of_paths(a: Seq<char>, b: Seq<char>, k: int)
    requires
        0 <= k < components(b).len(),
        k <= components(a).len(),
        forall|j: int| 0 <= j < k ==> components(a)[j] == components(b)[j],
        k < components(a).len() ==> components(a)[k] != components(b)[k],
    ensures
        k == components(a).len() ==> path_less(a, b),
        k < components(a).len() && is_name_piece(components(a)[k]) && is_name_piece(
            components(b)[k],
        ) ==> path_less(a, b) == text_less(components(a)[k], components(b)[k]),
        k < components(a).len() && components(a)[k] == "/"@ && is_name_piece(components(b)[k])
            ==> path_less(a, b),
        k < components(a).len() && components(b)[k] == "/"@ && is_name_piece(components(a)[k])
            ==> !path_less(a, b),
{
    lemma_first_difference(components(a), components(b), piece_lt(), 0, k);
}

} // verus!
