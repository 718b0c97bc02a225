//! Views of lists: what a list of values holds, element by element.

use vstd::prelude::*;

verus! {

broadcast use vstd::string::group_string_axioms;

/// The views of the elements of a sequence, in order.
pub open spec fn views<T: DeepView>(s: Seq<T>) -> Seq<T::V> {
    Seq::new(s.len(), |i: int| s[i].deep_view())
}

/// The views of a list that grew by one at its end.
pub proof fn lemma_views_push<T: DeepView>(s: Seq<T>, x: T)
    ensures
        views(s.push(x)) == views(s).push(x.deep_view()),
{
    assert(views(s.push(x)) =~= views(s).push(x.deep_view()));
}

/// Puts a value at the end of a list.
pub fn append_one<T: DeepView>(v: &mut Vec<T>, x: T)
    ensures
        final(v)@ == old(v)@.push(x),
        final(v).deep_view() == old(v).deep_view().push(x.deep_view()),
{
    let ghost before = v@;
    v.push(x);
    proof {
        lemma_views_push(before, x);
        assert(v.deep_view() =~= views(before).push(x.deep_view()));
        assert(old(v).deep_view() =~= views(before));
    }
}

/// Puts the values of a second list at the end of the first.
pub fn append_all<T: DeepView>(v: &mut Vec<T>, more: Vec<T>)
    ensures
        final(v)@ == old(v)@ + more@,
        final(v).deep_view() == old(v).deep_view() + more.deep_view(),
{
    let ghost before = v@;
    let ghost extra = more@;
    let ghost extra_view = more.deep_view();
    let mut more = more;
    v.append(&mut more);
    proof {
        assert(v@ =~= before + extra);
        assert(v.deep_view() =~= old(v).deep_view() + extra_view);
    }
}

/// A list of one value.
pub fn only<T: DeepView>(x: T) -> (r: Vec<T>)
    ensures
        r@ == seq![x],
        r.deep_view() == seq![x.deep_view()],
{
    let mut r: Vec<T> = Vec::new();
    r.push(x);
    assert(r@ =~= seq![x]);
    assert(r.deep_view() =~= seq![x.deep_view()]);
    r
}

/// A copy of an optional text.
pub fn copy_option(o: &Option<String>) -> (r: Option<String>)
    ensures
        r.deep_view() == o.deep_view(),
{
    match o {
        Some(s) => Some(s.clone()),
        None => None,
    }
}

/// A copy of a list of texts.
pub fn copy_texts(v: &Vec<String>) -> (r: Vec<String>)
    ensures
        r.deep_view() == v.deep_view(),
{
    let mut r: Vec<String> = Vec::new();
    let mut i: usize = 0;
    while i < v.len()
        invariant
            i <= v@.len(),
            r@.len() == i,
            forall|k: int| 0 <= k < i ==> r@[k]@ == v@[k]@,
        decreases v@.len() - i,
    {
        r.push(v[i].clone());
        i = i + 1;
    }
    assert(r.deep_view() =~= v.deep_view());
    r
}

/// Whether a text is among the texts of a list.
pub fn has_entry(v: &Vec<String>, s: &str) -> (r: bool)
    ensures
        r == v.deep_view().contains(s@),
{
    let mut i: usize = 0;
    while i < v.len()
        invariant
            i <= v@.len(),
            forall|k: int| 0 <= k < i ==> v@[k]@ != s@,
        decreases v@.len() - i,
    {
        if crate::text::same(v[i].as_str(), s) {
            assert(v.deep_view()[i as int] == s@);
            return true;
        }
        i = i + 1;
    }
    assert forall|k: int| 0 <= k < v.deep_view().len() implies v.deep_view()[k] != s@ by {
        assert(v.deep_view()[k] == v@[k]@);
    }
    false
}

/// Whether two lists hold the same texts in the same order.
pub fn same_texts(a: &Vec<String>, b: &Vec<String>) -> (r: bool)
    ensures
        r == (a.deep_view() == b.deep_view()),
{
    if a.len() != b.len() {
        assert(a.deep_view().len() != b.deep_view().len());
        return false;
    }
    let mut i: usize = 0;
    while i < a.len()
        invariant
            i <= a@.len(),
            a@.len() == b@.len(),
            forall|k: int| 0 <= k < i ==> a@[k]@ == b@[k]@,
        decreases a@.len() - i,
    {
        if !crate::text::same(a[i].as_str(), b[i].as_str()) {
            assert(a.deep_view()[i as int] != b.deep_view()[i as int]);
            return false;
        }
        i = i + 1;
    }
    assert(a.deep_view() =~= b.deep_view());
    true
}

/// The first `n` elements, each only where it comes first.
pub open spec fn distinct<T>(s: Seq<T>, n: int) -> Seq<T>
    decreases n,
{
    if n <= 0 {
        Seq::empty()
    } else if distinct(s, n - 1).contains(s[n - 1]) {
        distinct(s, n - 1)
    } else {
        distinct(s, n - 1).push(s[n - 1])
    }
}

/// The texts, each only where it comes first.
pub fn distinct_texts(v: &Vec<String>) -> (r: Vec<String>)
    ensures
        r.deep_view() == distinct(v.deep_view(), v@.len() as int),
{
    let mut out: Vec<String> = Vec::new();
    let mut i: usize = 0;
    assert(out.deep_view() =~= Seq::<Seq<char>>::empty());
    while i < v.len()
        invariant
            i <= v@.len(),
            out.deep_view() == distinct(v.deep_view(), i as int),
        decreases v@.len() - i,
    {
        assert(v.deep_view()[i as int] == v@[i as int]@);
        if !has_entry(&out, v[i].as_str()) {
            append_one(&mut out, v[i].clone());
        }
        i = i + 1;
    }
    out
}

} // verus!
