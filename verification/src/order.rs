//! Byte-wise lexicographic order, the order std gives `[u8]`, `Vec<u8>` and `str`.

use vstd::prelude::*;

verus! {

/// `a` sorts strictly before `b`: at the first difference `a` has the smaller
/// byte, or `a` is a proper prefix of `b`.
pub open spec fn lex_lt(a: Seq<u8>, b: Seq<u8>) -> bool
    decreases a.len(),
{
    if a.len() == 0 {
        b.len() > 0
    } else if b.len() == 0 {
        false
    } else if a[0] != b[0] {
        a[0] < b[0]
    } else {
        lex_lt(a.drop_first(), b.drop_first())
    }
}

/// `a` sorts before `b` or equals it.
pub open spec fn lex_le(a: Seq<u8>, b: Seq<u8>) -> bool {
    lex_lt(a, b) || a == b
}

/// The sign of comparing `a` with `b`: -1, 0 or 1.
pub open spec fn lex_sign(a: Seq<u8>, b: Seq<u8>) -> int {
    if a == b {
        0
    } else if lex_lt(a, b) {
        -1
    } else {
        1
    }
}

proof fn lemma_lex_lt_skip(a: Seq<u8>, b: Seq<u8>, i: int)
    requires
        0 <= i <= a.len(),
        i <= b.len(),
        a.take(i) == b.take(i),
    ensures
        lex_lt(a, b) == lex_lt(a.skip(i), b.skip(i)),
        (a == b) == (a.skip(i) == b.skip(i)),
    decreases i,
{
    if i > 0 {
        assert(a[0] == a.take(i)[0]);
        assert(b[0] == b.take(i)[0]);
        assert(a.drop_first().take(i - 1) =~= b.drop_first().take(i - 1)) by {
            assert forall|j: int| 0 <= j < i - 1 implies #[trigger] a.drop_first().take(i - 1)[j] == b.drop_first().take(i - 1)[j] by {
                assert(a.take(i)[j + 1] == b.take(i)[j + 1]);
                assert(a.take(i)[j + 1] == a[j + 1]);
                assert(b.take(i)[j + 1] == b[j + 1]);
                assert(a.drop_first().take(i - 1)[j] == a[j + 1]);
                assert(b.drop_first().take(i - 1)[j] == b[j + 1]);
            }
        }
        lemma_lex_lt_skip(a.drop_first(), b.drop_first(), i - 1);
        assert(a.drop_first().skip(i - 1) =~= a.skip(i));
        assert(b.drop_first().skip(i - 1) =~= b.skip(i));
        if a.skip(i) == b.skip(i) {
            assert(a =~= a.take(i) + a.skip(i));
            assert(b =~= b.take(i) + b.skip(i));
        }
        if a == b {
            assert(a.drop_first() == b.drop_first());
        }
        if a.drop_first() == b.drop_first() {
            assert(a =~= seq![a[0]] + a.drop_first());
            assert(b =~= seq![b[0]] + b.drop_first());
        }
    } else {
        assert(a.skip(0) =~= a);
        assert(b.skip(0) =~= b);
    }
}

/// Compares two byte sequences lexicographically (std's `Ord` for `[u8]`):
/// -1, 0 or 1.
pub fn compare_bytes_sign(a: &[u8], b: &[u8]) -> (r: i8)
    ensures
        r == lex_sign(a@, b@),
{
    let mut i: usize = 0;
    while i < a.len() && i < b.len()
        invariant
            i <= a.len(),
            i <= b.len(),
            a@.take(i as int) == b@.take(i as int),
        decreases a.len() - i,
    {
        if a[i] != b[i] {
            proof {
                lemma_lex_lt_skip(a@, b@, i as int);
                assert(a@.skip(i as int)[0] == a@[i as int]);
                assert(b@.skip(i as int)[0] == b@[i as int]);
                assert(a@.skip(i as int) != b@.skip(i as int));
            }
            if a[i] < b[i] {
                return -1;
            } else {
                return 1;
            }
        }
        proof {
            assert(a@.take(i + 1) =~= a@.take(i as int).push(a@[i as int]));
            assert(b@.take(i + 1) =~= b@.take(i as int).push(b@[i as int]));
        }
        i += 1;
    }
    proof {
        lemma_lex_lt_skip(a@, b@, i as int);
        assert(a@.skip(i as int).len() == 0 || b@.skip(i as int).len() == 0);
    }
    if a.len() == b.len() {
        proof {
            assert(a@.skip(i as int) =~= b@.skip(i as int));
        }
        0
    } else if a.len() < b.len() {
        proof {
            assert(a@.skip(i as int).len() == 0);
            assert(b@.skip(i as int).len() > 0);
        }
        -1
    } else {
        proof {
            assert(b@.skip(i as int).len() == 0);
            assert(a@.skip(i as int).len() > 0);
        }
        1
    }
}

/// Exactly one of `a < b`, `a == b`, `b < a` holds.
pub proof fn lemma_lex_total(a: Seq<u8>, b: Seq<u8>)
    ensures
        lex_lt(a, b) || a == b || lex_lt(b, a),
        !(lex_lt(a, b) && lex_lt(b, a)),
        !(lex_lt(a, b) && a == b),
    decreases a.len(),
{
    if a.len() > 0 && b.len() > 0 && a[0] == b[0] {
        lemma_lex_total(a.drop_first(), b.drop_first());
        if a.drop_first() == b.drop_first() {
            assert(a =~= seq![a[0]] + a.drop_first());
            assert(b =~= seq![b[0]] + b.drop_first());
        }
    }
}

/// `<` on byte sequences is transitive.
pub proof fn lemma_lex_lt_trans(a: Seq<u8>, b: Seq<u8>, c: Seq<u8>)
    requires
        lex_lt(a, b),
        lex_lt(b, c),
    ensures
        lex_lt(a, c),
    decreases a.len(),
{
    if a.len() > 0 && b.len() > 0 && c.len() > 0 && a[0] == b[0] && b[0] == c[0] {
        lemma_lex_lt_trans(a.drop_first(), b.drop_first(), c.drop_first());
    }
}

/// `<=` on byte sequences is transitive.
pub proof fn lemma_lex_le_trans(a: Seq<u8>, b: Seq<u8>, c: Seq<u8>)
    requires
        lex_le(a, b),
        lex_le(b, c),
    ensures
        lex_le(a, c),
{
    if lex_lt(a, b) && lex_lt(b, c) {
        lemma_lex_lt_trans(a, b, c);
    }
}

/// A total preorder on a type, with an executable strict comparison.
pub trait TotalOrder: Sized {
    /// `self` may come before `other`.
    spec fn ordered_le(&self, other: &Self) -> bool;

    proof fn ordered_total(a: Self, b: Self)
        ensures
            a.ordered_le(&b) || b.ordered_le(&a),
    ;

    proof fn ordered_trans(a: Self, b: Self, c: Self)
        requires
            a.ordered_le(&b),
            b.ordered_le(&c),
        ensures
            a.ordered_le(&c),
    ;

    /// `self` comes strictly before `other`.
    fn goes_before(&self, other: &Self) -> (r: bool)
        ensures
            r == !other.ordered_le(self),
    ;
}

/// Whether items are in ascending order.
pub open spec fn sorted_by_order<T: TotalOrder>(s: Seq<T>) -> bool {
    forall|i: int, j: int| #![trigger s[i], s[j]] 0 <= i < j < s.len() ==> s[i].ordered_le(&s[j])
}

/// Some place below `n` holds `i`.
pub open spec fn placed(p: Seq<int>, n: int, i: int) -> bool {
    exists|k: int| 0 <= k < n && #[trigger] p[k] == i
}

/// `r` arranges the items of `v`: the item at each place `k` of `r` is item
/// `p[k]` of `v`, each item is used once, and two items that are equal in the
/// order keep the order they had in `v`.
pub open spec fn stable_arrangement<T: TotalOrder>(v: Seq<T>, r: Seq<T>, p: Seq<int>) -> bool {
    &&& p.len() == r.len()
    &&& r.len() == v.len()
    &&& forall|k: int| 0 <= k < r.len() ==> 0 <= #[trigger] p[k] < v.len() && r[k] == v[p[k]]
    &&& forall|k: int, l: int| #![trigger p[k], p[l]] 0 <= k < l < r.len() ==> p[k] != p[l]
    &&& forall|i: int| 0 <= i < v.len() ==> #[trigger] placed(p, r.len() as int, i)
    &&& forall|k: int, l: int|
        #![trigger p[k], p[l]]
        0 <= k < l < r.len() && r[l].ordered_le(&r[k]) ==> p[k] < p[l]
}

/// Item `i` of `v` comes before item `j` in a stable ascending sort.
pub open spec fn sorts_first<T: TotalOrder>(v: Seq<T>, i: int, j: int) -> bool {
    !v[j].ordered_le(&v[i]) || (v[i].ordered_le(&v[j]) && i < j)
}

/// Two sorted stable arrangements of `v` agree on their first `q + 1` places.
proof fn lemma_stable_prefix<T: TotalOrder>(v: Seq<T>, r1: Seq<T>, p1: Seq<int>, r2: Seq<T>, p2: Seq<int>, q: int)
    requires
        stable_arrangement(v, r1, p1),
        stable_arrangement(v, r2, p2),
        sorted_by_order(r1),
        sorted_by_order(r2),
        0 <= q < r1.len(),
    ensures
        forall|t: int| 0 <= t <= q ==> p1[t] == p2[t],
    decreases q,
{
    if q > 0 {
        lemma_stable_prefix(v, r1, p1, r2, p2, q - 1);
    }
    let x = p1[q];
    let y = p2[q];
    if x != y {
        // In each arrangement an item comes before every item that sorts after it.
        assert forall|r: Seq<T>, p: Seq<int>, a: int, b: int|
            stable_arrangement(v, r, p) && sorted_by_order(r) && 0 <= a < b < r.len() implies sorts_first(v, p[a], p[b]) by {
            assert(r[a].ordered_le(&r[b]));
        }
        T::ordered_total(v[x], v[y]);
        if sorts_first(v, x, y) {
            assert(placed(p2, r2.len() as int, x));
            let t = choose|t: int| 0 <= t < r2.len() && #[trigger] p2[t] == x;
            if t < q {
                assert(p1[t] == x);
            } else {
                assert(t != q);
                assert(sorts_first(v, y, x));
            }
        } else {
            assert(placed(p1, r1.len() as int, y));
            let t = choose|t: int| 0 <= t < r1.len() && #[trigger] p1[t] == y;
            assert(sorts_first(v, y, x));
            if t < q {
                assert(p2[t] == y);
            } else {
                assert(t != q);
                assert(sorts_first(v, x, y));
            }
        }
    }
}

/// A stable sort has one outcome: two sorted stable arrangements of the same
/// items are equal.
pub proof fn lemma_stable_sort_unique<T: TotalOrder>(v: Seq<T>, r1: Seq<T>, p1: Seq<int>, r2: Seq<T>, p2: Seq<int>)
    requires
        stable_arrangement(v, r1, p1),
        stable_arrangement(v, r2, p2),
        sorted_by_order(r1),
        sorted_by_order(r2),
    ensures
        r1 == r2,
{
    if r1.len() > 0 {
        lemma_stable_prefix(v, r1, p1, r2, p2, r1.len() - 1);
    }
    assert forall|k: int| 0 <= k < r1.len() implies r1[k] == r2[k] by {
        assert(p1[k] == p2[k]);
    }
    assert(r1 =~= r2);
}

/// The items in ascending order; equal items keep their order (a stable
/// insertion sort).
pub fn sort_by_order<T: TotalOrder>(v: Vec<T>) -> (r: Vec<T>)
    ensures
        r@.to_multiset() == v@.to_multiset(),
        r@.len() == v@.len(),
        sorted_by_order(r@),
        exists|p: Seq<int>| #[trigger] stable_arrangement(v@, r@, p),
{
    broadcast use vstd::multiset::group_multiset_axioms;

    let ghost vs = v@;
    let mut input = v;
    let mut out: Vec<T> = Vec::new();
    let ghost all = input@.to_multiset();
    let ghost mut p: Seq<int> = Seq::empty();
    proof {
        vstd::seq_lib::to_multiset_len(out@);
        vstd::multiset::lemma_multiset_empty_len(out@.to_multiset());
        assert(input@ =~= vs.subrange(0, vs.len() as int));
    }
    while input.len() > 0
        invariant
            out@.to_multiset().add(input@.to_multiset()) == all,
            all == vs.to_multiset(),
            out@.len() + input@.len() == vs.len(),
            sorted_by_order(out@),
            input@ == vs.subrange(out@.len() as int, vs.len() as int),
            p.len() == out@.len(),
            forall|k: int| 0 <= k < out@.len() ==> 0 <= #[trigger] p[k] < out@.len() && out@[k] == vs[p[k]],
            forall|k: int, l: int| #![trigger p[k], p[l]] 0 <= k < l < out@.len() ==> p[k] != p[l],
            forall|i: int| 0 <= i < out@.len() ==> #[trigger] placed(p, out@.len() as int, i),
            forall|k: int, l: int|
                #![trigger p[k], p[l]]
                0 <= k < l < out@.len() && out@[l].ordered_le(&out@[k]) ==> p[k] < p[l],
        decreases input.len(),
    {
        let ghost before_in = input@;
        let ghost t = out@.len() as int;
        let x = input.remove(0);
        proof {
            assert(x == vs[t]);
            assert(input@ =~= vs.subrange(t + 1, vs.len() as int));
        }
        let mut k: usize = 0;
        let mut stop = false;
        while !stop && k < out.len()
            invariant
                k <= out@.len(),
                forall|i: int| 0 <= i < k ==> (#[trigger] out@[i]).ordered_le(&x),
                stop ==> k < out@.len() && !out@[k as int].ordered_le(&x),
            decreases out.len() - k + (if stop { 0int } else { 1int }),
        {
            if x.goes_before(&out[k]) {
                stop = true;
            } else {
                k += 1;
            }
        }
        let ghost before_out = out@;
        let ghost p0 = p;
        proof {
            if k < before_out.len() {
                T::ordered_total(before_out[k as int], x);
            }
        }
        out.insert(k, x);
        proof {
            p = p0.insert(k as int, t);
            assert(out@ == before_out.insert(k as int, x));
            assert forall|i: int, j: int| #![trigger out@[i], out@[j]] 0 <= i < j < out@.len() implies out@[i].ordered_le(
                &out@[j],
            ) by {
                if j < k {
                    assert(out@[i] == before_out[i] && out@[j] == before_out[j]);
                } else if j == k {
                    assert(out@[i] == before_out[i]);
                } else if i < k {
                    assert(out@[i] == before_out[i] && out@[j] == before_out[j - 1]);
                    assert(x.ordered_le(&before_out[k as int]));
                    if k < j - 1 {
                        T::ordered_trans(x, before_out[k as int], before_out[j - 1]);
                    }
                    T::ordered_trans(before_out[i], x, before_out[j - 1]);
                } else if i == k {
                    assert(out@[j] == before_out[j - 1]);
                    if k < j - 1 {
                        T::ordered_trans(x, before_out[k as int], before_out[j - 1]);
                    }
                } else {
                    assert(out@[i] == before_out[i - 1] && out@[j] == before_out[j - 1]);
                }
            }
            assert forall|a: int| 0 <= a < out@.len() implies 0 <= #[trigger] p[a] < out@.len() && out@[a] == vs[p[a]] by {
                if a < k {
                    assert(p[a] == p0[a] && out@[a] == before_out[a]);
                } else if a > k {
                    assert(p[a] == p0[a - 1] && out@[a] == before_out[a - 1]);
                }
            }
            assert forall|a: int, b: int| #![trigger p[a], p[b]] 0 <= a < b < out@.len() implies p[a] != p[b] by {
                if a < k && b < k {
                    assert(p[a] == p0[a] && p[b] == p0[b]);
                } else if a < k && b == k {
                    assert(p[a] == p0[a]);
                } else if a < k {
                    assert(p[a] == p0[a] && p[b] == p0[b - 1]);
                } else if a == k {
                    assert(p[b] == p0[b - 1]);
                } else {
                    assert(p[a] == p0[a - 1] && p[b] == p0[b - 1]);
                }
            }
            assert forall|a: int, b: int|
                #![trigger p[a], p[b]]
                0 <= a < b < out@.len() && out@[b].ordered_le(&out@[a]) implies p[a] < p[b] by {
                if a < k && b < k {
                    assert(p[a] == p0[a] && p[b] == p0[b]);
                    assert(out@[a] == before_out[a] && out@[b] == before_out[b]);
                } else if a < k && b == k {
                    assert(p[a] == p0[a]);
                } else if a < k {
                    assert(p[a] == p0[a] && p[b] == p0[b - 1]);
                    assert(out@[a] == before_out[a] && out@[b] == before_out[b - 1]);
                } else if a == k {
                    assert(out@[b] == before_out[b - 1]);
                    if k < b - 1 {
                        assert(before_out[k as int].ordered_le(&before_out[b - 1]));
                    }
                    T::ordered_trans(before_out[k as int], before_out[b - 1], x);
                } else {
                    assert(p[a] == p0[a - 1] && p[b] == p0[b - 1]);
                    assert(out@[a] == before_out[a - 1] && out@[b] == before_out[b - 1]);
                }
            }
            assert forall|i: int| 0 <= i < out@.len() implies #[trigger] placed(p, out@.len() as int, i) by {
                if i == t {
                    assert(p[k as int] == t);
                } else {
                    assert(placed(p0, before_out.len() as int, i));
                    let c = choose|c: int| 0 <= c < before_out.len() && #[trigger] p0[c] == i;
                    if c < k {
                        assert(p[c] == i);
                    } else {
                        assert(p[c + 1] == i);
                    }
                }
            }
            vstd::seq_lib::to_multiset_insert(before_out, k as int, x);
            vstd::seq_lib::to_multiset_remove(before_in, 0);
            assert(before_in[0] == x);
            assert(before_in.contains(x));
            vstd::seq_lib::to_multiset_contains(before_in, x);
            assert(out@.to_multiset().add(input@.to_multiset()) =~= before_out.to_multiset().add(
                before_in.to_multiset(),
            ));
        }
    }
    proof {
        vstd::seq_lib::to_multiset_len(input@);
        vstd::multiset::lemma_multiset_empty_len(input@.to_multiset());
        assert(stable_arrangement(vs, out@, p));
    }
    out
}

impl TotalOrder for u32 {
    open spec fn ordered_le(&self, other: &Self) -> bool {
        *self <= *other
    }

    proof fn ordered_total(a: Self, b: Self) {
    }

    proof fn ordered_trans(a: Self, b: Self, c: Self) {
    }

    fn goes_before(&self, other: &Self) -> (r: bool) {
        *self < *other
    }
}

} // verus!
