//! Stable sorting under a total preorder, and the order on names.

use vstd::prelude::*;
use crate::text::chars_of;

verus! {

/// Lexicographic order on character sequences, by code point. A proper prefix
/// stands before the sequences it begins.
pub open spec fn lex_le(a: Seq<char>, b: Seq<char>) -> bool
    decreases a.len(),
{
    if a.len() == 0 {
        true
    } else if b.len() == 0 {
        false
    } else if a[0] != b[0] {
        (a[0] as int) < (b[0] as int)
    } else {
        lex_le(a.drop_first(), b.drop_first())
    }
}

/// Any two sequences are ordered one way or the other.
pub proof fn lemma_lex_le_total(a: Seq<char>, b: Seq<char>)
    ensures
        lex_le(a, b) || lex_le(b, a),
    decreases a.len(),
{
    if a.len() > 0 && b.len() > 0 && a[0] == b[0] {
        lemma_lex_le_total(a.drop_first(), b.drop_first());
    }
}

/// The order is transitive.
pub proof fn lemma_lex_le_transitive(a: Seq<char>, b: Seq<char>, c: Seq<char>)
    requires
        lex_le(a, b),
        lex_le(b, c),
    ensures
        lex_le(a, c),
    decreases a.len(),
{
    if a.len() > 0 && b.len() > 0 && c.len() > 0 && a[0] == b[0] && b[0] == c[0] {
        lemma_lex_le_transitive(a.drop_first(), b.drop_first(), c.drop_first());
    }
}

/// Does `a` stand before `b`, or equal it, in lexicographic order?
pub fn chars_le(a: &Vec<char>, b: &Vec<char>) -> (r: bool)
    ensures
        r == lex_le(a@, b@),
{
    let mut i: usize = 0;
    assert(a@.skip(0) == a@);
    assert(b@.skip(0) == b@);
    loop
        invariant
            i <= a.len(),
            i <= b.len(),
            lex_le(a@, b@) == lex_le(a@.skip(i as int), b@.skip(i as int)),
        decreases a.len() - i,
    {
        if i >= a.len() {
            return true;
        }
        if i >= b.len() {
            return false;
        }
        if a[i] != b[i] {
            return a[i] < b[i];
        }
        proof {
            assert(a@.skip(i as int).drop_first() == a@.skip(i + 1));
            assert(b@.skip(i as int).drop_first() == b@.skip(i + 1));
        }
        i += 1;
    }
}

/// Does the string `a` stand before `b`, or equal it, in lexicographic order?
pub fn str_le(a: &str, b: &str) -> (r: bool)
    ensures
        r == lex_le(a@, b@),
{
    let x = chars_of(a);
    let y = chars_of(b);
    chars_le(&x, &y)
}

/// `le` orders any two values one way or the other, and is transitive.
pub open spec fn is_total_preorder<T>(le: spec_fn(T, T) -> bool) -> bool {
    &&& forall|a: T, b: T| #[trigger] le(a, b) || le(b, a)
    &&& forall|a: T, b: T, c: T| #[trigger] le(a, b) && #[trigger] le(b, c) ==> le(a, c)
}

/// `s` with `x` put in behind the last item that may stand before it.
pub open spec fn placed<T>(s: Seq<T>, x: T, le: spec_fn(T, T) -> bool) -> Seq<T>
    decreases s.len(),
{
    if s.len() == 0 || le(s.last(), x) {
        s.push(x)
    } else {
        placed(s.drop_last(), x, le).push(s.last())
    }
}

/// The items of `s` in ascending order; items that the order does not tell
/// apart keep the order they had in `s`.
pub open spec fn sorted<T>(s: Seq<T>, le: spec_fn(T, T) -> bool) -> Seq<T>
    decreases s.len(),
{
    if s.len() == 0 {
        s
    } else {
        placed(sorted(s.drop_last(), le), s.last(), le)
    }
}

/// Every item of `s` may stand before every later one.
pub open spec fn is_ordered<T>(s: Seq<T>, le: spec_fn(T, T) -> bool) -> bool {
    forall|i: int, j: int| 0 <= i < j < s.len() ==> le(#[trigger] s[i], #[trigger] s[j])
}

/// The index at which `placed` puts `x` into `s`: behind the last item that
/// may stand before it.
pub open spec fn place<T>(s: Seq<T>, x: T, le: spec_fn(T, T) -> bool) -> int
    decreases s.len(),
{
    if s.len() == 0 || le(s.last(), x) {
        s.len() as int
    } else {
        place(s.drop_last(), x, le)
    }
}

/// `placed` inserts `x` at `place`; the item just before that index may stand
/// before `x`, and none of the later ones may.
pub proof fn lemma_placed_is_insert<T>(s: Seq<T>, x: T, le: spec_fn(T, T) -> bool)
    ensures
        0 <= place(s, x, le) <= s.len(),
        placed(s, x, le) == s.insert(place(s, x, le), x),
        place(s, x, le) > 0 ==> le(s[place(s, x, le) - 1], x),
        forall|k: int| place(s, x, le) <= k < s.len() ==> !le(#[trigger] s[k], x),
    decreases s.len(),
{
    if s.len() == 0 || le(s.last(), x) {
        assert(s.insert(s.len() as int, x) == s.push(x));
    } else {
        let rest = s.drop_last();
        lemma_placed_is_insert(rest, x, le);
        let pos = place(rest, x, le);
        assert(rest.insert(pos, x).push(s.last()) == s.insert(pos, x));
        assert forall|k: int| pos <= k < s.len() implies !le(#[trigger] s[k], x) by {
            if k < rest.len() {
                assert(rest[k] == s[k]);
            }
        }
        if pos > 0 {
            assert(rest[pos - 1] == s[pos - 1]);
        }
    }
}

/// An index with the two properties of `place` is `place`.
pub proof fn lemma_place_unique<T>(s: Seq<T>, x: T, le: spec_fn(T, T) -> bool, pos: int)
    requires
        0 <= pos <= s.len(),
        pos > 0 ==> le(s[pos - 1], x),
        forall|k: int| pos <= k < s.len() ==> !le(#[trigger] s[k], x),
    ensures
        place(s, x, le) == pos,
    decreases s.len() - pos,
{
    if pos < s.len() {
        assert(!le(s[s.len() - 1], x));
        let rest = s.drop_last();
        assert forall|k: int| pos <= k < rest.len() implies !le(#[trigger] rest[k], x) by {
            assert(rest[k] == s[k]);
        }
        if pos > 0 {
            assert(rest[pos - 1] == s[pos - 1]);
        }
        lemma_place_unique(rest, x, le, pos);
    }
}

/// Putting an item in keeps the others and adds it once.
pub proof fn lemma_placed_multiset<T>(s: Seq<T>, x: T, le: spec_fn(T, T) -> bool)
    ensures
        placed(s, x, le).len() == s.len() + 1,
        placed(s, x, le).to_multiset() == s.to_multiset().insert(x),
{
    lemma_placed_is_insert(s, x, le);
    vstd::seq_lib::to_multiset_insert(s, place(s, x, le), x);
}

/// Putting an item into an ordered sequence leaves it ordered.
pub proof fn lemma_placed_ordered<T>(s: Seq<T>, x: T, le: spec_fn(T, T) -> bool)
    requires
        is_total_preorder(le),
        is_ordered(s, le),
    ensures
        is_ordered(placed(s, x, le), le),
{
    lemma_placed_is_insert(s, x, le);
    let pos = place(s, x, le);
    let r = s.insert(pos, x);
    assert forall|i: int, j: int| 0 <= i < j < r.len() implies le(r[i], r[j]) by {
        if j < pos {
            assert(le(s[i], s[j]));
        } else if j == pos {
            if i < pos - 1 {
                assert(le(s[i], s[pos - 1]));
                assert(le(s[pos - 1], x));
            }
        } else if i < pos {
            assert(le(s[i], s[j - 1]));
        } else if i == pos {
            assert(!le(s[j - 1], x));
        } else {
            assert(le(s[i - 1], s[j - 1]));
        }
    }
}

/// A sorted sequence holds the items it was made from, each as often as before.
pub proof fn lemma_sorted_multiset<T>(s: Seq<T>, le: spec_fn(T, T) -> bool)
    ensures
        sorted(s, le).len() == s.len(),
        sorted(s, le).to_multiset() == s.to_multiset(),
    decreases s.len(),
{
    if s.len() > 0 {
        lemma_sorted_multiset(s.drop_last(), le);
        lemma_placed_multiset(sorted(s.drop_last(), le), s.last(), le);
        vstd::seq_lib::to_multiset_build(s.drop_last(), s.last());
        assert(s == s.drop_last().push(s.last()));
    }
}

/// A sorted sequence has the items it was made from, and no others.
pub proof fn lemma_sorted_contains<T>(s: Seq<T>, le: spec_fn(T, T) -> bool)
    ensures
        forall|x: T| #[trigger] sorted(s, le).contains(x) <==> s.contains(x),
{
    lemma_sorted_multiset(s, le);
    assert forall|x: T| #[trigger] sorted(s, le).contains(x) <==> s.contains(x) by {
        vstd::seq_lib::to_multiset_contains(s, x);
        vstd::seq_lib::to_multiset_contains(sorted(s, le), x);
    }
}

/// A sorted sequence is ordered.
pub proof fn lemma_sorted_ordered<T>(s: Seq<T>, le: spec_fn(T, T) -> bool)
    requires
        is_total_preorder(le),
    ensures
        is_ordered(sorted(s, le), le),
    decreases s.len(),
{
    if s.len() > 0 {
        lemma_sorted_ordered(s.drop_last(), le);
        lemma_placed_ordered(sorted(s.drop_last(), le), s.last(), le);
    }
}

/// Putting an item in and then mapping gives what mapping and then putting
/// the mapped item in gives, where the map carries one order to the other.
pub proof fn lemma_placed_map<T, V>(
    s: Seq<T>,
    x: T,
    f: spec_fn(T) -> V,
    le: spec_fn(T, T) -> bool,
    le_mapped: spec_fn(V, V) -> bool,
)
    requires
        forall|a: T, b: T| #[trigger] le(a, b) == le_mapped(f(a), f(b)),
    ensures
        placed(s, x, le).map_values(f) == placed(s.map_values(f), f(x), le_mapped),
    decreases s.len(),
{
    let mapped = s.map_values(f);
    if s.len() == 0 || le(s.last(), x) {
        assert(s.push(x).map_values(f) == mapped.push(f(x)));
    } else {
        lemma_placed_map(s.drop_last(), x, f, le, le_mapped);
        assert(s.drop_last().map_values(f) == mapped.drop_last());
        assert(placed(s.drop_last(), x, le).push(s.last()).map_values(f) == placed(
            s.drop_last(),
            x,
            le,
        ).map_values(f).push(f(s.last())));
    }
}

/// Sorting and then mapping gives what mapping and then sorting gives, where
/// the map carries one order to the other.
pub proof fn lemma_sorted_map<T, V>(
    s: Seq<T>,
    f: spec_fn(T) -> V,
    le: spec_fn(T, T) -> bool,
    le_mapped: spec_fn(V, V) -> bool,
)
    requires
        forall|a: T, b: T| #[trigger] le(a, b) == le_mapped(f(a), f(b)),
    ensures
        sorted(s, le).map_values(f) == sorted(s.map_values(f), le_mapped),
    decreases s.len(),
{
    if s.len() == 0 {
        assert(s.map_values(f) == Seq::<V>::empty());
        assert(sorted(s, le).map_values(f) == Seq::<V>::empty());
    } else {
        lemma_sorted_map(s.drop_last(), f, le, le_mapped);
        lemma_placed_map(sorted(s.drop_last(), le), s.last(), f, le, le_mapped);
        assert(s.drop_last().map_values(f) == s.map_values(f).drop_last());
    }
}

/// The sum of the weights of the items of `s`.
pub open spec fn total<T>(s: Seq<T>, weight: spec_fn(T) -> nat) -> nat
    decreases s.len(),
{
    if s.len() == 0 {
        0
    } else {
        total(s.drop_last(), weight) + weight(s.last())
    }
}

/// The sum over two sequences in a row is the sum of the two sums.
pub proof fn lemma_total_add<T>(a: Seq<T>, b: Seq<T>, weight: spec_fn(T) -> nat)
    ensures
        total(a + b, weight) == total(a, weight) + total(b, weight),
    decreases b.len(),
{
    if b.len() == 0 {
        assert(a + b == a);
    } else {
        lemma_total_add(a, b.drop_last(), weight);
        assert((a + b).drop_last() == a + b.drop_last());
    }
}

/// Sorting does not change the sum.
pub proof fn lemma_total_sorted<T>(s: Seq<T>, le: spec_fn(T, T) -> bool, weight: spec_fn(T) -> nat)
    ensures
        total(sorted(s, le), weight) == total(s, weight),
    decreases s.len(),
{
    if s.len() > 0 {
        let before = sorted(s.drop_last(), le);
        let x = s.last();
        lemma_total_sorted(s.drop_last(), le, weight);
        lemma_placed_is_insert(before, x, le);
        let at = place(before, x, le);
        assert(before == before.take(at) + before.skip(at));
        assert(before.insert(at, x) == before.take(at) + seq![x] + before.skip(at));
        lemma_total_add(before.take(at), before.skip(at), weight);
        lemma_total_add(before.take(at), seq![x], weight);
        lemma_total_add(before.take(at) + seq![x], before.skip(at), weight);
        assert(s == s.drop_last() + seq![x]);
        lemma_total_add(s.drop_last(), seq![x], weight);
    }
}

/// A count that is nothing on the empty sequence and grows by the weight of
/// each further item is the sum of the weights.
pub proof fn lemma_is_total<T>(count: spec_fn(Seq<T>) -> nat, weight: spec_fn(T) -> nat, s: Seq<T>)
    requires
        forall|t: Seq<T>|
            #[trigger] count(t) == if t.len() == 0 {
                0
            } else {
                count(t.drop_last()) + weight(t.last())
            },
    ensures
        count(s) == total(s, weight),
    decreases s.len(),
{
    if s.len() > 0 {
        lemma_is_total(count, weight, s.drop_last());
    }
}

/// A total preorder on `T` that can be decided at run time.
pub trait Order<T> {
    /// `a` may stand before `b`.
    spec fn le(a: T, b: T) -> bool;

    /// `le` is a total preorder.
    proof fn lemma_total_preorder()
        ensures
            is_total_preorder(|a: T, b: T| Self::le(a, b)),
    ;

    /// Decides `le`.
    fn test(a: &T, b: &T) -> (r: bool)
        ensures
            r == Self::le(*a, *b),
    ;
}

/// The order `O` as a relation.
pub open spec fn order_of<T, O: Order<T>>() -> spec_fn(T, T) -> bool {
    |a: T, b: T| O::le(a, b)
}

/// Sorts `v` by the order `O`, keeping the order of items that `O` does not
/// tell apart.
pub fn sort<T, O: Order<T>>(v: Vec<T>) -> (r: Vec<T>)
    ensures
        r@ == sorted(v@, order_of::<T, O>()),
        r@.len() == v@.len(),
        r@.to_multiset() == v@.to_multiset(),
        is_ordered(r@, order_of::<T, O>()),
{
    let ghost le = order_of::<T, O>();
    let mut r: Vec<T> = Vec::new();
    for x in it: v
        invariant
            le == order_of::<T, O>(),
            it.seq() == v@,
            r@ == sorted(it.seq().take(it.index()), le),
    {
        proof {
            lemma_sorted_multiset(v@.take(it.index()), le);
            assert(v@.take(it.index() + 1).drop_last() == v@.take(it.index()));
        }
        let mut pos: usize = r.len();
        loop
            invariant
                le == order_of::<T, O>(),
                pos <= r.len(),
                forall|k: int| pos <= k < r.len() ==> !le(#[trigger] r@[k], x),
            ensures
                pos <= r.len(),
                forall|k: int| pos <= k < r.len() ==> !le(#[trigger] r@[k], x),
                pos > 0 ==> le(r@[pos - 1], x),
            decreases pos,
        {
            if pos == 0 {
                break ;
            }
            if O::test(&r[pos - 1], &x) {
                break ;
            }
            pos -= 1;
        }
        proof {
            lemma_place_unique(r@, x, le, pos as int);
            lemma_placed_is_insert(r@, x, le);
        }
        r.insert(pos, x);
    }
    proof {
        assert(v@.take(v@.len() as int) == v@);
        O::lemma_total_preorder();
        lemma_sorted_multiset(v@, le);
        lemma_sorted_ordered(v@, le);
    }
    r
}

} // verus!
