//! Lexicographic order on sequences, and the two orders on keys: texts by
//! their characters, paths by their components.

use crate::paths::{components, parts};
use crate::text::chars_of;
use vstd::prelude::*;

verus! {

broadcast use vstd::string::group_string_axioms;

/// `a` from position `i` on comes before `b` from position `i` on, where
/// `lt` orders the elements.
pub open spec fn lex_from<T>(
    a: Seq<T>,
    b: Seq<T>,
    lt: spec_fn(T, T) -> bool,
    i: int,
) -> bool
    decreases b.len() - i,
{
    if i < 0 || i >= b.len() {
        false
    } else if i >= a.len() {
        true
    } else if a[i] != b[i] {
        lt(a[i], b[i])
    } else {
        lex_from(a, b, lt, i + 1)
    }
}

/// `lt` is a strict total order.
pub open spec fn strict_order<T>(lt: spec_fn(T, T) -> bool) -> bool {
    &&& forall|x: T| !#[trigger] lt(x, x)
    &&& forall|x: T, y: T| #[trigger] lt(x, y) || lt(y, x) || x == y
    &&& forall|x: T, y: T, z: T| #[trigger] lt(x, y) && #[trigger] lt(y, z) ==> lt(x, z)
}

/// Two sequences agree below position `i`.
pub open spec fn agree<T>(a: Seq<T>, b: Seq<T>, i: int) -> bool {
    0 <= i <= a.len() && i <= b.len() && forall|k: int| 0 <= k < i ==> a[k] == b[k]
}

/// Of two different sequences exactly one comes first.
pub proof fn lemma_lex_total<T>(a: Seq<T>, b: Seq<T>, lt: spec_fn(T, T) -> bool, i: int)
    requires
        strict_order(lt),
        agree(a, b, i),
    ensures
        lex_from(a, b, lt, i) || lex_from(b, a, lt, i) || a == b,
        !(lex_from(a, b, lt, i) && lex_from(b, a, lt, i)),
        a == b ==> !lex_from(a, b, lt, i),
    decreases b.len() - i,
{
    if i >= b.len() || i >= a.len() {
        if a.len() == b.len() {
            assert(a =~= b);
        }
    } else if a[i] == b[i] {
        lemma_lex_total(a, b, lt, i + 1);
    } else {
        assert(lt(a[i], b[i]) || lt(b[i], a[i]));
        if lt(a[i], b[i]) && lt(b[i], a[i]) {
            assert(lt(a[i], a[i]));
        }
    }
}

/// The lexicographic order is transitive.
pub proof fn lemma_lex_transitive<T>(
    a: Seq<T>,
    b: Seq<T>,
    c: Seq<T>,
    lt: spec_fn(T, T) -> bool,
    i: int,
)
    requires
        strict_order(lt),
        0 <= i,
        lex_from(a, b, lt, i),
        lex_from(b, c, lt, i),
    ensures
        lex_from(a, c, lt, i),
    decreases b.len() - i,
{
    if i < a.len() && i < b.len() && i < c.len() {
        if a[i] == b[i] && b[i] == c[i] {
            lemma_lex_transitive(a, b, c, lt, i + 1);
        } else if a[i] != b[i] && b[i] != c[i] {
            assert(lt(a[i], c[i]));
            assert(!lt(a[i], a[i]));
        }
    }
}

/// The order of characters.
pub open spec fn char_lt() -> spec_fn(char, char) -> bool {
    |x: char, y: char| x < y
}

/// `a` comes before `b` in the order of their characters.
pub open spec fn text_less(a: Seq<char>, b: Seq<char>) -> bool {
    lex_from(a, b, char_lt(), 0)
}

/// Where a component stands among the kinds: the root, the current
/// directory, the parent directory, a name.
pub open spec fn piece_rank(x: Seq<char>) -> int {
    if x == "/"@ {
        0
    } else if x == "."@ {
        1
    } else if x == ".."@ {
        2
    } else {
        3
    }
}

/// The order of path components: by kind, then by text.
pub open spec fn piece_lt() -> spec_fn(Seq<char>, Seq<char>) -> bool {
    |x: Seq<char>, y: Seq<char>|
        piece_rank(x) < piece_rank(y) || (piece_rank(x) == piece_rank(y) && text_less(x, y))
}

/// `a` comes before `b` in the order of their components.
pub open spec fn path_less(a: Seq<char>, b: Seq<char>) -> bool {
    lex_from(components(a), components(b), piece_lt(), 0)
}

/// The two texts name the same path.
pub open spec fn path_same(a: Seq<char>, b: Seq<char>) -> bool {
    components(a) == components(b)
}

proof fn lemma_char_order()
    ensures
        strict_order(char_lt()),
{
}

proof fn lemma_piece_order()
    ensures
        strict_order(piece_lt()),
{
    let lt = piece_lt();
    lemma_char_order();
    assert forall|x: Seq<char>| !#[trigger] lt(x, x) by {
        lemma_lex_total(x, x, char_lt(), 0);
    }
    assert forall|x: Seq<char>, y: Seq<char>| #[trigger] lt(x, y) || lt(y, x) || x == y by {
        lemma_lex_total(x, y, char_lt(), 0);
    }
    assert forall|x: Seq<char>, y: Seq<char>, z: Seq<char>| #[trigger]
        lt(x, y) && #[trigger] lt(y, z) implies lt(x, z) by {
        if text_less(x, y) && text_less(y, z) {
            lemma_lex_transitive(x, y, z, char_lt(), 0);
        }
    }
}

/// Whether `a` comes before `b` in the order of their characters.
pub fn is_less(a: &str, b: &str) -> (r: bool)
    ensures
        r == text_less(a@, b@),
{
    let x = chars_of(a);
    let y = chars_of(b);
    let mut i: usize = 0;
    while i < x.len() && i < y.len() && x[i] == y[i]
        invariant
            i <= x@.len(),
            i <= y@.len(),
            x@ == a@,
            y@ == b@,
            text_less(a@, b@) == lex_from(a@, b@, char_lt(), i as int),
        decreases x@.len() - i,
    {
        i = i + 1;
    }
    if i >= y.len() {
        false
    } else if i >= x.len() {
        true
    } else {
        x[i] < y[i]
    }
}

fn rank_of(x: &str) -> (r: u8)
    ensures
        r == piece_rank(x@),
{
    if crate::text::same(x, "/") {
        0
    } else if crate::text::same(x, ".") {
        1
    } else if crate::text::same(x, "..") {
        2
    } else {
        3
    }
}

/// Whether component `x` comes before component `y`.
fn piece_before(x: &str, y: &str) -> (r: bool)
    ensures
        r == piece_lt()(x@, y@),
{
    let p: u8 = rank_of(x);
    let q: u8 = rank_of(y);
    p < q || (p == q && is_less(x, y))
}

/// A way to order keys.
pub trait KeyOrder {
    /// `a` comes before `b`.
    spec fn less(a: Seq<char>, b: Seq<char>) -> bool;

    /// `a` and `b` are the same key.
    spec fn same(a: Seq<char>, b: Seq<char>) -> bool;

    /// Of two keys, exactly one of these holds: one comes before the other,
    /// or they are the same; and the order is transitive.
    proof fn order_laws(a: Seq<char>, b: Seq<char>, c: Seq<char>)
        ensures
            Self::less(a, b) || Self::less(b, a) || Self::same(a, b),
            !(Self::less(a, b) && Self::less(b, a)),
            !(Self::less(a, b) && Self::same(a, b)),
            Self::same(a, a),
            Self::same(a, b) ==> Self::same(b, a),
            Self::same(a, b) && Self::same(b, c) ==> Self::same(a, c),
            Self::less(a, b) && Self::less(b, c) ==> Self::less(a, c),
            Self::same(a, b) && Self::less(b, c) ==> Self::less(a, c),
            Self::less(a, b) && Self::same(b, c) ==> Self::less(a, c),
    ;

    /// Whether `a` comes before `b`.
    fn is_before(a: &str, b: &str) -> (r: bool)
        ensures
            r == Self::less(a@, b@),
    ;

    /// Whether `a` and `b` are the same key.
    fn is_same(a: &str, b: &str) -> (r: bool)
        ensures
            r == Self::same(a@, b@),
    ;
}

/// Keys ordered by their characters.
#[derive(Debug, Clone, Copy)]
pub struct ByText;

/// Keys that are paths, ordered by their components.
#[derive(Debug, Clone, Copy)]
pub struct ByPath;

impl KeyOrder for ByText {
    open spec fn less(a: Seq<char>, b: Seq<char>) -> bool {
        text_less(a, b)
    }

    open spec fn same(a: Seq<char>, b: Seq<char>) -> bool {
        a == b
    }

    proof fn order_laws(a: Seq<char>, b: Seq<char>, c: Seq<char>) {
        lemma_char_order();
        lemma_lex_total(a, b, char_lt(), 0);
        if text_less(a, b) && text_less(b, c) {
            lemma_lex_transitive(a, b, c, char_lt(), 0);
        }
    }

    fn is_before(a: &str, b: &str) -> (r: bool) {
        is_less(a, b)
    }

    fn is_same(a: &str, b: &str) -> (r: bool) {
        crate::text::same(a, b)
    }
}

impl KeyOrder for ByPath {
    open spec fn less(a: Seq<char>, b: Seq<char>) -> bool {
        path_less(a, b)
    }

    open spec fn same(a: Seq<char>, b: Seq<char>) -> bool {
        path_same(a, b)
    }

    proof fn order_laws(a: Seq<char>, b: Seq<char>, c: Seq<char>) {
        lemma_piece_order();
        lemma_lex_total(components(a), components(b), piece_lt(), 0);
        if path_less(a, b) && path_less(b, c) {
            lemma_lex_transitive(components(a), components(b), components(c), piece_lt(), 0);
        }
    }

    fn is_before(a: &str, b: &str) -> (r: bool) {
        path_before(a, b)
    }

    fn is_same(a: &str, b: &str) -> (r: bool) {
        same_path(a, b)
    }
}

/// Whether `a` comes before `b` in the order of their components.
pub fn path_before(a: &str, b: &str) -> (r: bool)
    ensures
        r == path_less(a@, b@),
{
    let x = parts(a);
    let y = parts(b);
    let mut i: usize = 0;
    while i < x.len() && i < y.len() && crate::text::same(x[i].as_str(), y[i].as_str())
        invariant
            i <= x@.len(),
            i <= y@.len(),
            x.deep_view() == components(a@),
            y.deep_view() == components(b@),
            path_less(a@, b@) == lex_from(components(a@), components(b@), piece_lt(), i as int),
        decreases x@.len() - i,
    {
        assert(x.deep_view()[i as int] == x@[i as int]@);
        assert(y.deep_view()[i as int] == y@[i as int]@);
        i = i + 1;
    }
    if i >= y.len() {
        false
    } else if i >= x.len() {
        true
    } else {
        assert(x.deep_view()[i as int] == x@[i as int]@);
        assert(y.deep_view()[i as int] == y@[i as int]@);
        piece_before(x[i].as_str(), y[i].as_str())
    }
}

/// Whether the two texts name the same path.
pub fn same_path(a: &str, b: &str) -> (r: bool)
    ensures
        r == path_same(a@, b@),
{
    let x = parts(a);
    let y = parts(b);
    crate::views::same_texts(&x, &y)
}

} // verus!
