//! Tables and lists without repetitions.

use crate::order::KeyOrder;
use crate::table::{
    ascending, extended, lemma_insert_then_lookup, lemma_inserted_ascending,
    key_place, key_set, lemma_place_of, place_of, value_at,
};
use crate::views::distinct;
use vstd::prelude::*;

verus! {

/// A table that took in the first `n` entries of another one is in order.
pub proof fn law_extending_keeps_the_order<O: KeyOrder, V>(
    m: Seq<(Seq<char>, V)>,
    more: Seq<(Seq<char>, V)>,
    n: int,
)
    requires
        ascending::<O, V>(m),
        0 <= n <= more.len(),
    ensures
        ascending::<O, V>(extended::<O, V>(m, more, n)),
    decreases n,
{
    if n > 0 {
        law_extending_keeps_the_order::<O, V>(m, more, n - 1);
        lemma_inserted_ascending::<O, V>(
            extended::<O, V>(m, more, n - 1),
            more[n - 1].0,
            more[n - 1].1,
        );
    }
}

/// Where two tables share a key, the one that comes later decides; what
/// only one of them has stays. So strategies of later files override those
/// of earlier ones.
pub proof fn law_later_tables_override_earlier_ones<O: KeyOrder, V>(
    m: Seq<(Seq<char>, V)>,
    more: Seq<(Seq<char>, V)>,
    k: Seq<char>,
)
    requires
        ascending::<O, V>(m),
        ascending::<O, V>(more),
    ensures
        value_at::<O, V>(extended::<O, V>(m, more, more.len() as int), k) == match value_at::<O, V>(
            more,
            k,
        ) {
            Some(v) => Some(v),
            None => value_at::<O, V>(m, k),
        },
{
    lemma_place_of::<O, V>(more, k, 0);
    lemma_override::<O, V>(m, more, k, more.len() as int);
}

proof fn lemma_override<O: KeyOrder, V>(
    m: Seq<(Seq<char>, V)>,
    more: Seq<(Seq<char>, V)>,
    k: Seq<char>,
    n: int,
)
    requires
        ascending::<O, V>(m),
        ascending::<O, V>(more),
        0 <= n <= more.len(),
    ensures
        value_at::<O, V>(extended::<O, V>(m, more, n), k) == match place_of::<O, V>(more, k, 0) {
            Some(p) => if p < n {
                Some(more[p].1)
            } else {
                value_at::<O, V>(m, k)
            },
            None => value_at::<O, V>(m, k),
        },
    decreases n,
{
    lemma_place_of::<O, V>(more, k, 0);
    if n > 0 {
        lemma_override::<O, V>(m, more, k, n - 1);
        law_extending_keeps_the_order::<O, V>(m, more, n - 1);
        let before = extended::<O, V>(m, more, n - 1);
        let (key, value) = more[n - 1];
        lemma_insert_then_lookup::<O, V>(before, key, value, k);
        if O::same(key, k) {
            let now = extended::<O, V>(m, more, n);
            lemma_same_key::<O, V>(now, key, k);
            match place_of::<O, V>(more, k, 0) {
                Some(p) => {
                    if p < n - 1 {
                        assert(O::less(more[p].0, more[n - 1].0));
                        O::order_laws(more[p].0, k, key);
                        O::order_laws(k, key, more[p].0);
                        O::order_laws(more[p].0, key, k);
                        O::order_laws(key, k, more[p].0);
                        assert(false);
                    }
                    if p > n - 1 {
                        assert(!O::same(more[n - 1].0, k));
                    }
                },
                None => {
                    assert(!O::same(more[n - 1].0, k));
                },
            }
        }
    }
}

/// The same key finds the same entry, however it is written.
proof fn lemma_same_key<O: KeyOrder, V>(m: Seq<(Seq<char>, V)>, a: Seq<char>, b: Seq<char>)
    requires
        O::same(a, b),
    ensures
        value_at::<O, V>(m, a) == value_at::<O, V>(m, b),
{
    lemma_place_of::<O, V>(m, a, 0);
    lemma_place_of::<O, V>(m, b, 0);
    assert forall|i: int| 0 <= i < m.len() implies O::same(#[trigger] m[i].0, a) == O::same(
        m[i].0,
        b,
    ) by {
        O::order_laws(m[i].0, a, b);
        O::order_laws(m[i].0, b, a);
        O::order_laws(a, b, m[i].0);
        O::order_laws(b, a, m[i].0);
    }
}

proof fn lemma_key_place<O: KeyOrder>(s: Seq<Seq<char>>, k: Seq<char>, i: int)
    requires
        0 <= i <= s.len(),
        forall|j: int| 0 <= j < i ==> O::less(#[trigger] s[j], k),
    ensures
        i <= key_place::<O>(s, k, i) <= s.len(),
        forall|j: int| 0 <= j < key_place::<O>(s, k, i) ==> O::less(#[trigger] s[j], k),
        key_place::<O>(s, k, i) < s.len() ==> !O::less(s[key_place::<O>(s, k, i)], k),
    decreases s.len() - i,
{
    if i < s.len() && O::less(s[i], k) {
        lemma_key_place::<O>(s, k, i + 1);
    }
}

/// Each key comes before the ones that follow it.
pub open spec fn keys_ascend<O: KeyOrder>(keys: Seq<Seq<char>>) -> bool {
    forall|i: int, j: int| 0 <= i < j < keys.len() ==> O::less(#[trigger] keys[i], #[trigger] keys[j])
}

/// The key stands in the list.
pub open spec fn has_key<O: KeyOrder>(keys: Seq<Seq<char>>, k: Seq<char>) -> bool {
    exists|j: int| 0 <= j < keys.len() && O::same(#[trigger] keys[j], k)
}

proof fn lemma_keys_ascend<O: KeyOrder>(before: Seq<Seq<char>>, x: Seq<char>)
    requires
        keys_ascend::<O>(before),
        ({
            let p = key_place::<O>(before, x, 0);
            !(p < before.len() && O::same(before[p], x))
        }),
    ensures
        keys_ascend::<O>(before.insert(key_place::<O>(before, x, 0), x)),
{
    lemma_key_place::<O>(before, x, 0);
    let p = key_place::<O>(before, x, 0);
    let now = before.insert(p, x);
    if p < before.len() {
        O::order_laws(before[p], x, x);
    }
    assert forall|i: int, j: int| 0 <= i < j < now.len() implies O::less(
        #[trigger] now[i],
        #[trigger] now[j],
    ) by {
        if i == p {
            assert(now[j] == before[j - 1]);
            O::order_laws(x, before[p], before[j - 1]);
            if j - 1 > p {
                assert(O::less(before[p], before[j - 1]));
            }
        } else if j == p {
            assert(now[i] == before[i]);
        } else {
            let a = if i < p { i } else { i - 1 };
            let b = if j < p { j } else { j - 1 };
            assert(now[i] == before[a]);
            assert(now[j] == before[b]);
        }
    }
}

proof fn lemma_inserted_key<O: KeyOrder>(
    before: Seq<Seq<char>>,
    p: int,
    x: Seq<char>,
    k: Seq<char>,
)
    requires
        0 <= p <= before.len(),
        has_key::<O>(before, k) || O::same(x, k),
    ensures
        has_key::<O>(before.insert(p, x), k),
{
    let now = before.insert(p, x);
    if O::same(x, k) {
        assert(now[p] == x);
    } else {
        let j = choose|j: int| 0 <= j < before.len() && O::same(#[trigger] before[j], k);
        let at = if j < p { j } else { j + 1 };
        assert(now[at] == before[j]);
    }
}

/// A sorted list of keys is in strict order, so that no key stands twice,
/// and holds each key of the list it comes from, and nothing else.
pub proof fn law_keys_hold_each_key_once<O: KeyOrder>(s: Seq<Seq<char>>, n: int)
    requires
        0 <= n <= s.len(),
    ensures
        keys_ascend::<O>(key_set::<O>(s, n)),
        forall|i: int| 0 <= i < n ==> has_key::<O>(key_set::<O>(s, n), #[trigger] s[i]),
        forall|k: Seq<char>| #[trigger]
            key_set::<O>(s, n).contains(k) ==> s.take(n).contains(k),
    decreases n,
{
    if n > 0 {
        law_keys_hold_each_key_once::<O>(s, n - 1);
        let before = key_set::<O>(s, n - 1);
        let now = key_set::<O>(s, n);
        let x = s[n - 1];
        lemma_key_place::<O>(before, x, 0);
        let p = key_place::<O>(before, x, 0);
        let there = p < before.len() && O::same(before[p], x);
        O::order_laws(x, x, x);
        if !there {
            lemma_keys_ascend::<O>(before, x);
        }
        assert forall|i: int| 0 <= i < n implies has_key::<O>(now, #[trigger] s[i]) by {
            if there {
                if i == n - 1 {
                    assert(O::same(now[p], s[i]));
                }
            } else {
                lemma_inserted_key::<O>(before, p, x, s[i]);
            }
        }
        assert forall|k: Seq<char>| #[trigger] now.contains(k) implies s.take(n).contains(k) by {
            let earlier = s.take(n - 1);
            if before.contains(k) {
                assert(earlier.contains(k));
                let i = choose|i: int| 0 <= i < earlier.len() && earlier[i] == k;
                assert(s.take(n)[i] == k);
            } else {
                let j = choose|j: int| 0 <= j < now.len() && now[j] == k;
                if !there && j != p {
                    let b = if j < p { j } else { j - 1 };
                    assert(now[j] == before[b]);
                }
                assert(s.take(n)[n - 1] == k);
            }
        }
    }
}

/// A list without repetitions holds each value of the list it comes from,
/// once, and nothing else.
pub proof fn law_distinct_holds_each_value_once<T>(s: Seq<T>, n: int)
    requires
        0 <= n <= s.len(),
    ensures
        distinct(s, n).no_duplicates(),
        forall|x: T| #[trigger] distinct(s, n).contains(x) <==> s.take(n).contains(x),
    decreases n,
{
    let now = distinct(s, n);
    if n > 0 {
        law_distinct_holds_each_value_once(s, n - 1);
        let before = distinct(s, n - 1);
        let x = s[n - 1];
        assert(s.take(n) =~= s.take(n - 1).push(x));
        assert forall|y: T| #[trigger] now.contains(y) <==> s.take(n).contains(y) by {
            assert(before.contains(y) <==> s.take(n - 1).contains(y));
            if s.take(n - 1).contains(y) {
                let earlier = s.take(n - 1);
                let i = choose|i: int| 0 <= i < earlier.len() && earlier[i] == y;
                assert(s.take(n)[i] == y);
                let j = choose|j: int| 0 <= j < before.len() && before[j] == y;
                assert(now[j] == y);
            }
            if y == x {
                assert(s.take(n)[n - 1] == y);
                if !before.contains(x) {
                    assert(now[before.len() as int] == y);
                }
            }
            if now.contains(y) && !before.contains(y) {
                let j = choose|j: int| 0 <= j < now.len() && now[j] == y;
                assert(j == before.len());
            }
            if s.take(n).contains(y) && !s.take(n - 1).contains(y) {
                let all = s.take(n);
                let i = choose|i: int| 0 <= i < all.len() && all[i] == y;
                if i < n - 1 {
                    assert(s.take(n - 1)[i] == y);
                }
            }
        }
    } else {
        assert(now =~= Seq::<T>::empty());
        assert(s.take(n) =~= Seq::<T>::empty());
    }
}

} // verus!
