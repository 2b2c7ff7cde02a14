//! Stable ordering: the order in which a stable sort would put the elements
//! of a list, given as the list of their positions.

use vstd::prelude::*;
use crate::text::{
    all_digits, decimal_value, digit_value, lemma_decimal_value_bound, lemma_decimal_value_front,
    pow10, to_chars,
};

verus! {

/// A key by which elements are ordered: `le` is total and transitive, so it
/// may call two different keys equal in rank.
pub trait SortKey {
    /// `self` comes no later than `other`.
    spec fn le(&self, other: &Self) -> bool;

    /// Of two keys, one comes no later than the other.
    proof fn le_total(a: &Self, b: &Self)
        ensures
            a.le(b) || b.le(a),
    ;

    /// What comes no later than a key that comes no later than a third comes
    /// no later than the third.
    proof fn le_transitive(a: &Self, b: &Self, c: &Self)
        requires
            a.le(b),
            b.le(c),
        ensures
            a.le(c),
    ;

    /// Computes [`SortKey::le`].
    fn is_le(&self, other: &Self) -> (r: bool)
        ensures
            r == self.le(other),
    ;
}

impl SortKey for u32 {
    open spec fn le(&self, other: &Self) -> bool {
        *self <= *other
    }

    proof fn le_total(a: &Self, b: &Self) {
    }

    proof fn le_transitive(a: &Self, b: &Self, c: &Self) {
    }

    fn is_le(&self, other: &Self) -> (r: bool) {
        *self <= *other
    }
}

/// The order of the dictionary, character by character: a text comes no later
/// than another if it is a prefix of it, or if it has the smaller character
/// at the first position where the two differ.
pub open spec fn lex_le(a: Seq<char>, b: Seq<char>) -> bool
    decreases a.len(),
{
    if a.len() == 0 {
        true
    } else if b.len() == 0 {
        false
    } else if a[0] != b[0] {
        a[0] < b[0]
    } else {
        lex_le(a.drop_first(), b.drop_first())
    }
}

/// Of two texts, one comes no later than the other.
pub proof fn lemma_lex_le_total(a: Seq<char>, b: Seq<char>)
    ensures
        lex_le(a, b) || lex_le(b, a),
    decreases a.len(),
{
    if a.len() > 0 && b.len() > 0 && a[0] == b[0] {
        lemma_lex_le_total(a.drop_first(), b.drop_first());
    }
}

/// The order of the dictionary is transitive.
pub proof fn lemma_lex_le_transitive(a: Seq<char>, b: Seq<char>, c: Seq<char>)
    requires
        lex_le(a, b),
        lex_le(b, c),
    ensures
        lex_le(a, c),
    decreases a.len(),
{
    if a.len() > 0 && b.len() > 0 && c.len() > 0 && a[0] == b[0] && b[0] == c[0] {
        lemma_lex_le_transitive(a.drop_first(), b.drop_first(), c.drop_first());
    }
}

/// What stands behind two texts of equal length does not change their order.
pub proof fn lemma_lex_le_suffix(x: Seq<char>, y: Seq<char>, t: Seq<char>)
    requires
        x.len() == y.len(),
    ensures
        lex_le(x + t, y + t) == lex_le(x, y),
    decreases x.len(),
{
    if x.len() == 0 {
        lemma_lex_le_total(t, t);
    } else {
        lemma_lex_le_suffix(x.drop_first(), y.drop_first(), t);
        assert((x + t).drop_first() =~= x.drop_first() + t);
        assert((y + t).drop_first() =~= y.drop_first() + t);
    }
}

/// Among digits of equal count, the order of the dictionary is the order of
/// the numbers that they write.
pub proof fn lemma_lex_le_digits(x: Seq<char>, y: Seq<char>)
    requires
        x.len() == y.len(),
        all_digits(x),
        all_digits(y),
    ensures
        lex_le(x, y) <==> decimal_value(x) <= decimal_value(y),
    decreases x.len(),
{
    if x.len() > 0 {
        let c = x[0];
        let d = y[0];
        let xs = x.drop_first();
        let ys = y.drop_first();
        assert(x =~= seq![c] + xs);
        assert(y =~= seq![d] + ys);
        lemma_decimal_value_front(c, xs);
        lemma_decimal_value_front(d, ys);
        lemma_decimal_value_bound(xs);
        lemma_decimal_value_bound(ys);
        lemma_lex_le_digits(xs, ys);
        let p = pow10(xs.len());
        let dc = digit_value(c);
        let dd = digit_value(d);
        if c < d {
            assert((dc + 1) * p <= dd * p) by (nonlinear_arith)
                requires
                    dc + 1 <= dd,
                    p >= 0,
            ;
            assert((dc + 1) * p == dc * p + p) by (nonlinear_arith);
        } else if d < c {
            assert((dd + 1) * p <= dc * p) by (nonlinear_arith)
                requires
                    dd + 1 <= dc,
                    p >= 0,
            ;
            assert((dd + 1) * p == dd * p + p) by (nonlinear_arith);
        }
    }
}

impl SortKey for Vec<char> {
    open spec fn le(&self, other: &Self) -> bool {
        lex_le(self@, other@)
    }

    proof fn le_total(a: &Self, b: &Self) {
        lemma_lex_le_total(a@, b@);
    }

    proof fn le_transitive(a: &Self, b: &Self, c: &Self) {
        lemma_lex_le_transitive(a@, b@, c@);
    }

    fn is_le(&self, other: &Self) -> (r: bool) {
        let mut i: usize = 0;
        proof {
            assert(self@.skip(0) =~= self@);
            assert(other@.skip(0) =~= other@);
        }
        while i < self.len() && i < other.len()
            invariant
                i <= self.len(),
                i <= other.len(),
                lex_le(self@, other@) == lex_le(self@.skip(i as int), other@.skip(i as int)),
            decreases self.len() - i,
        {
            let ghost a = self@.skip(i as int);
            let ghost b = other@.skip(i as int);
            proof {
                assert(a.drop_first() =~= self@.skip(i + 1));
                assert(b.drop_first() =~= other@.skip(i + 1));
            }
            if self[i] != other[i] {
                return self[i] < other[i];
            }
            i += 1;
        }
        i >= self.len()
    }
}

/// In a stable order, the element at position `a` comes before the one at
/// position `b`: its key comes earlier, or the two keys are equal in rank and
/// `a` is the smaller position.
pub open spec fn precedes<K: SortKey>(keys: Seq<K>, a: int, b: int) -> bool {
    if a < b {
        keys[a].le(&keys[b])
    } else {
        a != b && !keys[b].le(&keys[a])
    }
}

/// `order` lists every position of `keys` once, each before all those that it
/// precedes: the order in which a stable sort by key puts the elements.
pub open spec fn is_stable_order<K: SortKey>(keys: Seq<K>, order: Seq<usize>) -> bool {
    &&& order.len() == keys.len()
    &&& forall|i: int| 0 <= i < order.len() ==> (#[trigger] order[i]) < keys.len()
    &&& forall|i: int, j: int|
        0 <= i < j < order.len() ==> precedes(keys, #[trigger] order[i] as int, #[trigger] order[j] as int)
    &&& forall|k: int| 0 <= k < keys.len() ==> has_position(order, k)
}

/// `order` lists the position `k`.
pub open spec fn has_position(order: Seq<usize>, k: int) -> bool {
    exists|i: int| 0 <= i < order.len() && #[trigger] order[i] == k
}

/// The positions of `keys` in the order of a stable sort: by key, and among
/// keys of equal rank by position.
pub fn stable_order<K: SortKey>(keys: &Vec<K>) -> (order: Vec<usize>)
    ensures
        is_stable_order(keys@, order@),
{
    let mut order: Vec<usize> = Vec::new();
    let mut n: usize = 0;
    while n < keys.len()
        invariant
            n <= keys.len(),
            order.len() == n,
            forall|i: int| 0 <= i < order.len() ==> (#[trigger] order[i]) < n,
            forall|i: int, j: int|
                0 <= i < j < order.len() ==> precedes(
                    keys@,
                    #[trigger] order[i] as int,
                    #[trigger] order[j] as int,
                ),
            forall|k: int| 0 <= k < n ==> has_position(order@, k),
        decreases keys.len() - n,
    {
        let mut p: usize = n;
        while p > 0 && !keys[order[p - 1]].is_le(&keys[n])
            invariant
                p <= n,
                n < keys.len(),
                order.len() == n,
                forall|i: int| 0 <= i < order.len() ==> (#[trigger] order[i]) < n,
                forall|i: int| p <= i < n ==> !keys@[#[trigger] order[i] as int].le(&keys@[n as int]),
            decreases p,
        {
            p -= 1;
        }
        let ghost before = order@;
        order.insert(p, n);
        proof {
            let after = order@;
            assert forall|i: int, j: int| 0 <= i < j < after.len() implies precedes(
                keys@,
                #[trigger] after[i] as int,
                #[trigger] after[j] as int,
            ) by {
                if j == p {
                    // `after[i]` is an earlier element, `after[j]` is the new one
                    let last = before[p - 1];
                    if i < p - 1 {
                        K::le_total(&keys@[before[i] as int], &keys@[last as int]);
                        K::le_transitive(
                            &keys@[before[i] as int],
                            &keys@[last as int],
                            &keys@[n as int],
                        );
                    }
                }
            }
            assert forall|k: int| 0 <= k < n + 1 implies has_position(after, k) by {
                if k == n {
                    assert(after[p as int] == k);
                } else {
                    assert(has_position(before, k));
                    let i = choose|i: int| 0 <= i < before.len() && #[trigger] before[i] == k;
                    if i < p {
                        assert(after[i] == k);
                    } else {
                        assert(after[i + 1] == k);
                    }
                }
            }
        }
        n += 1;
    }
    order
}

/// Among names, the one at position `a` comes before the one at position
/// `b`: it is the earlier in the order of the dictionary, or the two are the
/// same name and `a` is the smaller position.
pub open spec fn name_precedes(names: Seq<Seq<char>>, a: int, b: int) -> bool {
    if a < b {
        lex_le(names[a], names[b])
    } else {
        a != b && !lex_le(names[b], names[a])
    }
}

/// `order` lists every position of `names` once, each before all those that
/// it precedes.
pub open spec fn is_name_order(names: Seq<Seq<char>>, order: Seq<usize>) -> bool {
    &&& order.len() == names.len()
    &&& forall|i: int| 0 <= i < order.len() ==> (#[trigger] order[i]) < names.len()
    &&& forall|i: int, j: int|
        0 <= i < j < order.len() ==> name_precedes(
            names,
            #[trigger] order[i] as int,
            #[trigger] order[j] as int,
        )
    &&& forall|k: int| 0 <= k < names.len() ==> has_position(order, k)
}

/// The positions of the names in the order of the dictionary, equal names in
/// the order in which they were given.
pub fn sort_names(names: &Vec<String>) -> (order: Vec<usize>)
    ensures
        is_name_order(names.deep_view(), order@),
{
    let ghost all = names.deep_view();
    let mut keys: Vec<Vec<char>> = Vec::new();
    let mut k: usize = 0;
    while k < names.len()
        invariant
            k <= names.len(),
            all == names.deep_view(),
            keys.len() == k,
            forall|i: int| 0 <= i < k ==> (#[trigger] keys[i])@ == all[i],
        decreases names.len() - k,
    {
        keys.push(to_chars(names[k].as_str()));
        k += 1;
    }
    let order = stable_order(&keys);
    order
}

/// Two lists that hold the same positions, each in an order that never puts
/// two positions both ways round, are the same list.
pub proof fn lemma_ordered_lists_equal(a: Seq<usize>, b: Seq<usize>, before: spec_fn(int, int) -> bool)
    requires
        forall|i: int, j: int|
            0 <= i < j < a.len() ==> before(#[trigger] a[i] as int, #[trigger] a[j] as int),
        forall|i: int, j: int|
            0 <= i < j < b.len() ==> before(#[trigger] b[i] as int, #[trigger] b[j] as int),
        forall|i: int| 0 <= i < a.len() ==> has_position(b, #[trigger] a[i] as int),
        forall|i: int| 0 <= i < b.len() ==> has_position(a, #[trigger] b[i] as int),
        forall|x: int, y: int| !(#[trigger] before(x, y) && before(y, x)),
    ensures
        a == b,
{
    lemma_ordered_lists_agree(a, b, before, a.len() as int);
    lemma_ordered_lists_agree(b, a, before, b.len() as int);
}

/// The two lists of [`lemma_ordered_lists_equal`] agree on their first `n`
/// places, and the second has that many.
proof fn lemma_ordered_lists_agree(a: Seq<usize>, b: Seq<usize>, before: spec_fn(int, int) -> bool, n: int)
    requires
        0 <= n <= a.len(),
        forall|i: int, j: int|
            0 <= i < j < a.len() ==> before(#[trigger] a[i] as int, #[trigger] a[j] as int),
        forall|i: int, j: int|
            0 <= i < j < b.len() ==> before(#[trigger] b[i] as int, #[trigger] b[j] as int),
        forall|i: int| 0 <= i < a.len() ==> has_position(b, #[trigger] a[i] as int),
        forall|i: int| 0 <= i < b.len() ==> has_position(a, #[trigger] b[i] as int),
        forall|x: int, y: int| !(#[trigger] before(x, y) && before(y, x)),
    ensures
        n <= b.len(),
        forall|i: int| 0 <= i < n ==> a[i] == b[i],
    decreases n,
{
    if n > 0 {
        lemma_ordered_lists_agree(a, b, before, n - 1);
        let i = n - 1;
        let x = a[i];
        // where `x` stands in `b`
        let jb = choose|j: int| 0 <= j < b.len() && #[trigger] b[j] == x;
        if jb < i {
            // then `a` holds `x` twice
        }
    }
}

/// There is one stable order only: [`is_stable_order`] says of its list all
/// there is to say.
pub proof fn lemma_stable_order_unique<K: SortKey>(keys: Seq<K>, a: Seq<usize>, b: Seq<usize>)
    requires
        is_stable_order(keys, a),
        is_stable_order(keys, b),
    ensures
        a == b,
{
    lemma_ordered_lists_equal(a, b, |x: int, y: int| precedes(keys, x, y));
}

/// There is one order of names only: [`is_name_order`] says of its list all
/// there is to say.
pub proof fn lemma_name_order_unique(names: Seq<Seq<char>>, a: Seq<usize>, b: Seq<usize>)
    requires
        is_name_order(names, a),
        is_name_order(names, b),
    ensures
        a == b,
{
    lemma_ordered_lists_equal(a, b, |x: int, y: int| name_precedes(names, x, y));
}

} // verus!
