//! A map from keys to values that is walked in the order of its keys.

use crate::order::{ByPath, ByText, KeyOrder};
use crate::views::{append_one, only};
use vstd::prelude::*;

verus! {

broadcast use vstd::string::group_string_axioms;

/// The first place from `i` on whose key does not come before `k`.
pub open spec fn place<O: KeyOrder, V>(m: Seq<(Seq<char>, V)>, k: Seq<char>, i: int) -> int
    decreases m.len() - i,
{
    if 0 <= i < m.len() && O::less(m[i].0, k) {
        place::<O, V>(m, k, i + 1)
    } else {
        i
    }
}

/// The entries, with `v` under the key `k`: in place of the value that
/// stood there, or as a new entry where the order puts it.
pub open spec fn inserted<O: KeyOrder, V>(
    m: Seq<(Seq<char>, V)>,
    k: Seq<char>,
    v: V,
) -> Seq<(Seq<char>, V)> {
    let i = place::<O, V>(m, k, 0);
    if i < m.len() && O::same(m[i].0, k) {
        m.update(i, (m[i].0, v))
    } else {
        m.insert(i, (k, v))
    }
}

/// The place from `i` on of the entry with the key `k`.
pub open spec fn place_of<O: KeyOrder, V>(
    m: Seq<(Seq<char>, V)>,
    k: Seq<char>,
    i: int,
) -> Option<int>
    decreases m.len() - i,
{
    if i < 0 || i >= m.len() {
        None
    } else if O::same(m[i].0, k) {
        Some(i)
    } else {
        place_of::<O, V>(m, k, i + 1)
    }
}

/// What stands under the key `k`.
pub open spec fn value_at<O: KeyOrder, V>(m: Seq<(Seq<char>, V)>, k: Seq<char>) -> Option<V> {
    match place_of::<O, V>(m, k, 0) {
        Some(i) => Some(m[i].1),
        None => None,
    }
}

/// What stands under the text `k`.
pub open spec fn lookup<V>(m: Seq<(Seq<char>, V)>, k: Seq<char>) -> Option<V> {
    value_at::<ByText, V>(m, k)
}

/// Each key comes before the ones that follow it.
pub open spec fn ascending<O: KeyOrder, V>(m: Seq<(Seq<char>, V)>) -> bool {
    forall|i: int, j: int| 0 <= i < j < m.len() ==> O::less(#[trigger] m[i].0, #[trigger] m[j].0)
}

/// `place` splits the entries: before it the keys come before `k`, at it
/// the key does not.
pub proof fn lemma_place<O: KeyOrder, V>(m: Seq<(Seq<char>, V)>, k: Seq<char>, i: int)
    requires
        0 <= i <= m.len(),
        forall|j: int| 0 <= j < i ==> O::less(#[trigger] m[j].0, k),
    ensures
        i <= place::<O, V>(m, k, i) <= m.len(),
        forall|j: int| 0 <= j < place::<O, V>(m, k, i) ==> O::less(#[trigger] m[j].0, k),
        place::<O, V>(m, k, i) < m.len() ==> !O::less(m[place::<O, V>(m, k, i)].0, k),
    decreases m.len() - i,
{
    if i < m.len() && O::less(m[i].0, k) {
        lemma_place::<O, V>(m, k, i + 1);
    }
}

/// `place_of` is the first place of the key.
pub proof fn lemma_place_of<O: KeyOrder, V>(m: Seq<(Seq<char>, V)>, k: Seq<char>, i: int)
    requires
        0 <= i,
    ensures
        match place_of::<O, V>(m, k, i) {
            Some(p) => i <= p < m.len() && O::same(m[p].0, k) && forall|j: int|
                i <= j < p ==> !O::same(#[trigger] m[j].0, k),
            None => forall|j: int| i <= j < m.len() ==> !O::same(#[trigger] m[j].0, k),
        },
    decreases m.len() - i,
{
    if i < m.len() && !O::same(m[i].0, k) {
        lemma_place_of::<O, V>(m, k, i + 1);
    }
}

/// Entries in order stay in order when one is put in.
pub proof fn lemma_inserted_ascending<O: KeyOrder, V>(m: Seq<(Seq<char>, V)>, k: Seq<char>, v: V)
    requires
        ascending::<O, V>(m),
    ensures
        ascending::<O, V>(inserted::<O, V>(m, k, v)),
{
    lemma_place::<O, V>(m, k, 0);
    let p = place::<O, V>(m, k, 0);
    let n = inserted::<O, V>(m, k, v);
    assert forall|i: int, j: int| 0 <= i < j < n.len() implies O::less(
        #[trigger] n[i].0,
        #[trigger] n[j].0,
    ) by {
        if p < m.len() && O::same(m[p].0, k) {
            assert(n[i].0 == m[i].0);
            assert(n[j].0 == m[j].0);
        } else if i == p {
            assert(n[j] == m[j - 1]);
            O::order_laws(m[p].0, k, k);
            O::order_laws(k, m[p].0, m[j - 1].0);
            if j - 1 > p {
                assert(O::less(m[p].0, m[j - 1].0));
            }
        } else if j == p {
            assert(n[i] == m[i]);
        } else {
            let a = if i < p { i } else { i - 1 };
            let b = if j < p { j } else { j - 1 };
            assert(n[i] == m[a]);
            assert(n[j] == m[b]);
        }
    }
}

/// What was put under a key is found there, and nothing else has changed.
pub proof fn lemma_insert_then_lookup<O: KeyOrder, V>(
    m: Seq<(Seq<char>, V)>,
    k: Seq<char>,
    v: V,
    other: Seq<char>,
)
    requires
        ascending::<O, V>(m),
    ensures
        value_at::<O, V>(inserted::<O, V>(m, k, v), k) == Some(v),
        !O::same(k, other) ==> value_at::<O, V>(inserted::<O, V>(m, k, v), other) == value_at::<
            O,
            V,
        >(m, other),
{
    let n = inserted::<O, V>(m, k, v);
    let p = place::<O, V>(m, k, 0);
    lemma_place::<O, V>(m, k, 0);
    lemma_inserted_ascending::<O, V>(m, k, v);
    O::order_laws(k, k, k);
    if p < m.len() {
        O::order_laws(m[p].0, k, k);
    }
    assert(n[p].1 == v && O::same(n[p].0, k));
    lemma_place_of::<O, V>(n, k, 0);
    match place_of::<O, V>(n, k, 0) {
        Some(q) => {
            if q < p {
                assert(O::less(n[q].0, n[p].0));
                O::order_laws(n[q].0, n[p].0, k);
                O::order_laws(n[q].0, k, k);
            }
        },
        None => {},
    }
    if !O::same(k, other) {
        lemma_place_of::<O, V>(m, other, 0);
        lemma_place_of::<O, V>(n, other, 0);
        O::order_laws(n[p].0, k, other);
        O::order_laws(k, n[p].0, other);
        let replaced = p < m.len() && O::same(m[p].0, k);
        match place_of::<O, V>(m, other, 0) {
            Some(i) => {
                let j = if replaced || i < p { i } else { i + 1 };
                assert(O::same(n[j].0, other));
                match place_of::<O, V>(n, other, 0) {
                    Some(q) => {
                        if q < j {
                            O::order_laws(n[q].0, n[j].0, other);
                            O::order_laws(n[j].0, other, n[q].0);
                            O::order_laws(other, n[q].0, n[j].0);
                            O::order_laws(n[q].0, other, n[j].0);
                        }
                        assert(q == j);
                        if replaced && i == p {
                            O::order_laws(k, m[p].0, other);
                            O::order_laws(m[p].0, k, other);
                        }
                    },
                    None => {},
                }
            },
            None => {
                match place_of::<O, V>(n, other, 0) {
                    Some(q) => {
                        assert(q != p);
                        let i = if replaced || q < p { q } else { q - 1 };
                        assert(O::same(m[i].0, other));
                    },
                    None => {},
                }
            },
        }
    }
}

/// The key and value views of a list of entries.
pub open spec fn entry_views<V: DeepView>(s: Seq<(String, V)>) -> Seq<(Seq<char>, V::V)> {
    Seq::new(s.len(), |i: int| (s[i].0@, s[i].1.deep_view()))
}

/// A map from keys to values, walked in the order of its keys.
#[derive(Debug)]
pub struct Table<O: KeyOrder, V: DeepView> {
    entries: Vec<(String, V)>,
    order: core::marker::PhantomData<O>,
}

impl<O: KeyOrder, V: DeepView> DeepView for Table<O, V> {
    type V = Seq<(Seq<char>, V::V)>;

    closed spec fn deep_view(&self) -> Seq<(Seq<char>, V::V)> {
        entry_views(self.entries@)
    }
}

impl<O: KeyOrder, V: DeepView> Table<O, V> {
    /// The keys stand in order, each once.
    pub open spec fn in_order(&self) -> bool {
        ascending::<O, V::V>(self.deep_view())
    }

    /// A map without entries.
    pub fn new() -> (r: Self)
        ensures
            r.deep_view() == Seq::<(Seq<char>, V::V)>::empty(),
            r.in_order(),
    {
        let r = Table { entries: Vec::new(), order: core::marker::PhantomData };
        assert(r.deep_view() =~= Seq::<(Seq<char>, V::V)>::empty());
        r
    }

    /// How many entries there are.
    pub fn len(&self) -> (r: usize)
        ensures
            r == self.deep_view().len(),
    {
        self.entries.len()
    }

    /// Whether there is no entry.
    pub fn is_empty(&self) -> (r: bool)
        ensures
            r == (self.deep_view().len() == 0),
    {
        self.entries.len() == 0
    }

    /// The key of the entry number `i`, in the order of the keys.
    pub fn key(&self, i: usize) -> (r: &String)
        requires
            i < self.deep_view().len(),
        ensures
            r@ == self.deep_view()[i as int].0,
    {
        &self.entries[i].0
    }

    /// The value of the entry number `i`, in the order of the keys.
    pub fn value(&self, i: usize) -> (r: &V)
        requires
            i < self.deep_view().len(),
        ensures
            r.deep_view() == self.deep_view()[i as int].1,
    {
        &self.entries[i].1
    }

    fn spot(&self, k: &str) -> (r: Option<usize>)
        ensures
            place_of::<O, V::V>(self.deep_view(), k@, 0) == (match r {
                Some(p) => Some(p as int),
                None => None,
            }),
            r matches Some(p) ==> p < self.entries@.len(),
    {
        let mut i: usize = 0;
        while i < self.entries.len()
            invariant
                i <= self.entries@.len(),
                place_of::<O, V::V>(self.deep_view(), k@, 0) == place_of::<O, V::V>(
                    self.deep_view(),
                    k@,
                    i as int,
                ),
            decreases self.entries@.len() - i,
        {
            if O::is_same(self.entries[i].0.as_str(), k) {
                return Some(i);
            }
            i = i + 1;
        }
        None
    }

    /// What stands under the key.
    pub fn get(&self, k: &str) -> (r: Option<&V>)
        ensures
            value_at::<O, V::V>(self.deep_view(), k@) == (match r {
                Some(v) => Some(v.deep_view()),
                None => None,
            }),
    {
        match self.spot(k) {
            Some(p) => Some(&self.entries[p].1),
            None => None,
        }
    }

    /// Whether there is an entry with the key.
    pub fn contains_key(&self, k: &str) -> (r: bool)
        ensures
            r == (value_at::<O, V::V>(self.deep_view(), k@) is Some),
    {
        self.spot(k).is_some()
    }

    fn place_for(&self, k: &str) -> (r: usize)
        ensures
            r == place::<O, V::V>(self.deep_view(), k@, 0),
            r <= self.entries@.len(),
    {
        let mut i: usize = 0;
        while i < self.entries.len() && O::is_before(self.entries[i].0.as_str(), k)
            invariant
                i <= self.entries@.len(),
                place::<O, V::V>(self.deep_view(), k@, 0) == place::<O, V::V>(
                    self.deep_view(),
                    k@,
                    i as int,
                ),
            decreases self.entries@.len() - i,
        {
            i = i + 1;
        }
        i
    }

    /// Puts a value under a key.
    pub fn insert(&mut self, k: String, v: V)
        ensures
            final(self).deep_view() == inserted::<O, V::V>(old(self).deep_view(), k@, v.deep_view()),
            old(self).in_order() ==> final(self).in_order(),
    {
        let ghost before = self.deep_view();
        let i = self.place_for(k.as_str());
        if i < self.entries.len() && O::is_same(self.entries[i].0.as_str(), k.as_str()) {
            let (kept, _gone) = self.entries.remove(i);
            self.entries.insert(i, (kept, v));
        } else {
            self.entries.insert(i, (k, v));
        }
        proof {
            let want = inserted::<O, V::V>(before, k@, v.deep_view());
            assert(self.deep_view() =~= want);
            if ascending::<O, V::V>(before) {
                lemma_inserted_ascending::<O, V::V>(before, k@, v.deep_view());
            }
        }
    }

    /// Puts another value in the entry number `i`.
    pub fn set_value(&mut self, i: usize, v: V)
        requires
            i < old(self).deep_view().len(),
        ensures
            final(self).deep_view() == old(self).deep_view().update(
                i as int,
                (old(self).deep_view()[i as int].0, v.deep_view()),
            ),
            old(self).in_order() ==> final(self).in_order(),
    {
        let ghost before = self.deep_view();
        let (kept, _gone) = self.entries.remove(i);
        self.entries.insert(i, (kept, v));
        proof {
            let want = before.update(i as int, (before[i as int].0, v.deep_view()));
            assert(self.deep_view() =~= want);
            if ascending::<O, V::V>(before) {
                assert forall|a: int, b: int| 0 <= a < b < want.len() implies O::less(
                    #[trigger] want[a].0,
                    #[trigger] want[b].0,
                ) by {
                    assert(want[a].0 == before[a].0 && want[b].0 == before[b].0);
                }
            }
        }
    }
}

impl<O: KeyOrder, V: DeepView> Table<O, V> {
    /// A map with the given entries, which stand in the order of their keys.
    pub(crate) fn from_entries(entries: Vec<(String, V)>) -> (r: Self)
        ensures
            r.deep_view() == entry_views(entries@),
    {
        Table { entries, order: core::marker::PhantomData }
    }

    /// A map with the given entries put in one after the other. Entries that
    /// stand in the order of their keys are the entries of the map.
    pub fn collected(entries: Vec<(String, V)>) -> (r: Self)
        ensures
            r.deep_view() == gathered::<O, V::V>(entries.deep_view()),
            r.in_order(),
            ascending::<O, V::V>(entries.deep_view()) ==> r.deep_view() == entries.deep_view(),
    {
        let ghost view = entries.deep_view();
        let ghost list = entries@;
        let mut r: Self = Table::new();
        for entry in it: entries
            invariant
                it.seq() == list,
                view.len() == list.len(),
                forall|k: int| 0 <= k < list.len() ==> (#[trigger] view[k]) == (
                    list[k].0@,
                    list[k].1.deep_view(),
                ),
                r.deep_view() == extended::<O, V::V>(Seq::empty(), view, it.index() as int),
                r.in_order(),
        {
            assert(view[it.index() as int] == (entry.0@, entry.1.deep_view()));
            r.insert(entry.0, entry.1);
        }
        proof {
            if ascending::<O, V::V>(view) {
                lemma_gathered::<O, V::V>(view, view.len() as int);
                assert(view.take(view.len() as int) =~= view);
            }
        }
        r
    }

    /// The entries, in the order of their keys.
    pub fn into_entries(self) -> (r: Vec<(String, V)>)
        ensures
            entry_views(r@) == self.deep_view(),
    {
        self.entries
    }

    /// Puts the entries of another map in, in place of those with the same
    /// keys.
    pub fn extend(&mut self, other: Self)
        ensures
            final(self).deep_view() == extended::<O, V::V>(
                old(self).deep_view(),
                other.deep_view(),
                other.deep_view().len() as int,
            ),
            old(self).in_order() ==> final(self).in_order(),
    {
        let ghost before = self.deep_view();
        let ghost more = other.deep_view();
        let entries = other.entries;
        let ghost list = entries@;
        for entry in it: entries
            invariant
                it.seq() == list,
                more == entry_views(list),
                self.deep_view() == extended::<O, V::V>(before, more, it.index() as int),
                old(self).in_order() ==> self.in_order(),
        {
            assert(more[it.index() as int] == (entry.0@, entry.1.deep_view()));
            self.insert(entry.0, entry.1);
        }
    }
}

/// The entries, with the first `n` of `more` put in.
pub open spec fn extended<O: KeyOrder, V>(
    m: Seq<(Seq<char>, V)>,
    more: Seq<(Seq<char>, V)>,
    n: int,
) -> Seq<(Seq<char>, V)>
    decreases n,
{
    if n <= 0 {
        m
    } else {
        inserted::<O, V>(extended::<O, V>(m, more, n - 1), more[n - 1].0, more[n - 1].1)
    }
}

/// The entries put one after the other into a table without any.
pub open spec fn gathered<O: KeyOrder, V>(more: Seq<(Seq<char>, V)>) -> Seq<(Seq<char>, V)> {
    extended::<O, V>(Seq::empty(), more, more.len() as int)
}

/// Entries in order are the entries of the table that they are put into.
pub proof fn lemma_gathered<O: KeyOrder, V>(more: Seq<(Seq<char>, V)>, n: int)
    requires
        ascending::<O, V>(more),
        0 <= n <= more.len(),
    ensures
        extended::<O, V>(Seq::empty(), more, n) == more.take(n),
    decreases n,
{
    if n > 0 {
        lemma_gathered::<O, V>(more, n - 1);
        let before = more.take(n - 1);
        lemma_place::<O, V>(before, more[n - 1].0, 0);
        let p = place::<O, V>(before, more[n - 1].0, 0);
        if p < before.len() {
            assert(before[p] == more[p]);
            assert(O::less(more[p].0, more[n - 1].0));
        }
        assert(before.insert(n - 1, more[n - 1]) =~= more.take(n));
    } else {
        assert(more.take(0) =~= Seq::empty());
    }
}

/// The entries, with `x` at the end of the list under the key `k`.
pub open spec fn grown<O: KeyOrder, T>(
    m: Seq<(Seq<char>, Seq<T>)>,
    k: Seq<char>,
    x: T,
) -> Seq<(Seq<char>, Seq<T>)> {
    let i = place::<O, Seq<T>>(m, k, 0);
    if i < m.len() && O::same(m[i].0, k) {
        m.update(i, (m[i].0, m[i].1.push(x)))
    } else {
        m.insert(i, (k, seq![x]))
    }
}

impl<O: KeyOrder, T: DeepView> Table<O, Vec<T>> {
    /// Puts a value at the end of the list under a key.
    pub fn push_under(&mut self, k: String, x: T)
        ensures
            final(self).deep_view() == grown::<O, T::V>(old(self).deep_view(), k@, x.deep_view()),
            old(self).in_order() ==> final(self).in_order(),
    {
        let ghost before = self.deep_view();
        let i = self.place_for(k.as_str());
        let ghost mut list_view: Seq<T::V> = seq![x.deep_view()];
        if i < self.entries.len() && O::is_same(self.entries[i].0.as_str(), k.as_str()) {
            let (kept, list) = self.entries.remove(i);
            let mut list = list;
            append_one(&mut list, x);
            proof {
                list_view = list.deep_view();
            }
            self.entries.insert(i, (kept, list));
        } else {
            self.entries.insert(i, (k, only(x)));
        }
        proof {
            let want = grown::<O, T::V>(before, k@, x.deep_view());
            assert(self.deep_view() =~= want);
            assert(want =~= inserted::<O, Seq<T::V>>(before, k@, list_view));
            if ascending::<O, Seq<T::V>>(before) {
                lemma_inserted_ascending::<O, Seq<T::V>>(before, k@, list_view);
            }
        }
    }
}

// ---------------------------------------------------------------------
// Keys in order
// ---------------------------------------------------------------------

/// The first place from `i` on whose key does not come before `k`.
pub open spec fn key_place<O: KeyOrder>(s: Seq<Seq<char>>, k: Seq<char>, i: int) -> int
    decreases s.len() - i,
{
    if 0 <= i < s.len() && O::less(s[i], k) {
        key_place::<O>(s, k, i + 1)
    } else {
        i
    }
}

/// The first `n` keys in order, each once.
pub open spec fn key_set<O: KeyOrder>(s: Seq<Seq<char>>, n: int) -> Seq<Seq<char>>
    decreases n,
{
    if n <= 0 {
        Seq::empty()
    } else {
        let before = key_set::<O>(s, n - 1);
        let i = key_place::<O>(before, s[n - 1], 0);
        if i < before.len() && O::same(before[i], s[n - 1]) {
            before
        } else {
            before.insert(i, s[n - 1])
        }
    }
}

/// The keys in order, each once.
pub fn sorted_keys<O: KeyOrder>(v: &Vec<String>) -> (r: Vec<String>)
    ensures
        r.deep_view() == key_set::<O>(v.deep_view(), v@.len() as int),
{
    let mut out: Vec<String> = Vec::new();
    let mut n: usize = 0;
    assert(out.deep_view() =~= Seq::<Seq<char>>::empty());
    while n < v.len()
        invariant
            n <= v@.len(),
            out.deep_view() == key_set::<O>(v.deep_view(), n as int),
        decreases v@.len() - n,
    {
        let ghost before = out.deep_view();
        let ghost k = v.deep_view()[n as int];
        assert(k == v@[n as int]@);
        let mut i: usize = 0;
        while i < out.len() && O::is_before(out[i].as_str(), v[n].as_str())
            invariant
                i <= out@.len(),
                n < v@.len(),
                k == v@[n as int]@,
                before == out.deep_view(),
                key_place::<O>(before, k, 0) == key_place::<O>(before, k, i as int),
            decreases out@.len() - i,
        {
            assert(before[i as int] == out@[i as int]@);
            i = i + 1;
        }
        assert(i < out@.len() ==> before[i as int] == out@[i as int]@);
        if !(i < out.len() && O::is_same(out[i].as_str(), v[n].as_str())) {
            out.insert(i, v[n].clone());
            assert(out.deep_view() =~= before.insert(i as int, k));
        }
        n = n + 1;
    }
    out
}

/// A map whose keys are ordered by their characters.
pub type TextTable<V> = Table<ByText, V>;

/// A map whose keys are paths.
pub type PathTable<V> = Table<ByPath, V>;

} // verus!
