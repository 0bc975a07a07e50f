//! The runtime meaning of a lowered comprehension, as an executable pipeline over a
//! vector: each element is tested against the conditions in order, stopping at the
//! first that fails, and the mapping is applied to the elements that pass every one.
//! Condition `k` of a comprehension is `cond(k, x)`.
//!
//! The result is stated against a spec predicate `p` that describes the conditions:
//! any `p` with which every answer that `cond` can give on the items agrees.
use vstd::prelude::*;

verus! {

/// Each of the first `n` conditions holds of `x`, as `p` describes them.
pub open spec fn passes<T>(p: spec_fn(usize, T) -> bool, n: usize, x: T) -> bool {
    forall|k: usize| k < n ==> #[trigger] p(k, x)
}

/// Every answer that the first `n` conditions can give on `x` is the one `p` gives.
pub open spec fn agrees_at<T, C: Fn(usize, &T) -> bool>(
    cond: C,
    n: usize,
    x: T,
    p: spec_fn(usize, T) -> bool,
) -> bool {
    forall|k: usize, r: bool| k < n && #[trigger] cond.ensures((k, &x), r) ==> r == p(k, x)
}

/// `p` describes the first `n` conditions on every element of `s`.
pub open spec fn agrees<T, C: Fn(usize, &T) -> bool>(
    cond: C,
    n: usize,
    s: Seq<T>,
    p: spec_fn(usize, T) -> bool,
) -> bool {
    forall|i: int| 0 <= i < s.len() ==> #[trigger] agrees_at(cond, n, s[i], p)
}

/// Condition `k` may be evaluated on `x` once every condition before it has
/// answered `true`: a condition can rely on the ones declared before it.
pub open spec fn callable_in_order<T, C: Fn(usize, &T) -> bool>(cond: C, n: usize, x: T) -> bool {
    forall|k: usize|
        k < n && (forall|j: usize| j < k ==> #[trigger] cond.ensures((j, &x), true))
            ==> #[trigger] cond.requires((k, &x))
}

/// The indices of the elements of `s` that pass the conditions, in order.
pub open spec fn kept<T>(p: spec_fn(usize, T) -> bool, n: usize, s: Seq<T>) -> Seq<int>
    decreases s.len(),
{
    if s.len() == 0 {
        Seq::empty()
    } else {
        kept(p, n, s.drop_last()) + if passes(p, n, s.last()) {
            seq![s.len() - 1]
        } else {
            Seq::empty()
        }
    }
}

/// Order and multiplicity: the kept indices are those of the elements that pass the
/// conditions, each exactly once, in increasing order; so the output of
/// `comprehend` follows the input order, with one element for each element that
/// passes and none for the others.
pub proof fn lemma_kept_order_and_multiplicity<T>(p: spec_fn(usize, T) -> bool, n: usize, s: Seq<T>)
    ensures
        forall|j: int|
            0 <= j < kept(p, n, s).len() ==> 0 <= #[trigger] kept(p, n, s)[j] < s.len()
                && passes(p, n, s[kept(p, n, s)[j]]),
        forall|a: int, b: int|
            0 <= a < b < kept(p, n, s).len() ==> kept(p, n, s)[a] < kept(p, n, s)[b],
        forall|i: int| 0 <= i < s.len() && passes(p, n, s[i]) ==> kept(p, n, s).contains(i),
    decreases s.len(),
{
    if s.len() > 0 {
        let init = s.drop_last();
        lemma_kept_order_and_multiplicity(p, n, init);
        let k0 = kept(p, n, init);
        let k = kept(p, n, s);
        let tail = if passes(p, n, s.last()) {
            seq![s.len() - 1]
        } else {
            Seq::<int>::empty()
        };
        assert(k == k0 + tail);
        assert forall|i: int| 0 <= i < s.len() && passes(p, n, s[i]) implies k.contains(i) by {
            if i < s.len() - 1 {
                assert(init[i] == s[i]);
                assert(k0.contains(i));
                let w = choose|w: int| 0 <= w < k0.len() && k0[w] == i;
                assert(k[w] == i);
            } else {
                assert(k[k.len() - 1] == i);
            }
        }
        assert forall|j: int| 0 <= j < k.len() implies 0 <= #[trigger] k[j] < s.len() && passes(
            p,
            n,
            s[k[j]],
        ) by {
            if j < k0.len() {
                assert(k[j] == k0[j]);
                assert(init[k0[j]] == s[k0[j]]);
            }
        }
    }
}

/// With no conditions every element is kept: the pass is a plain map.
pub proof fn lemma_no_conditions_keeps_all<T>(p: spec_fn(usize, T) -> bool, s: Seq<T>)
    ensures
        kept(p, 0, s) == Seq::new(s.len(), |i: int| i),
    decreases s.len(),
{
    if s.len() > 0 {
        lemma_no_conditions_keeps_all(p, s.drop_last());
        assert(passes(p, 0, s.last()));
        assert(kept(p, 0, s) =~= Seq::new(s.len(), |i: int| i));
    }
}

/// Whether `x` passes the first `n` conditions. They are evaluated in declared order
/// and the evaluation stops at the first that answers `false`: the precondition
/// `callable_in_order` lets condition `k` be called only once every condition before
/// it has answered `true`, and each call here is checked against it.
pub fn qualifies<T, C: Fn(usize, &T) -> bool>(x: &T, n: usize, cond: &C) -> (r: bool)
    requires
        callable_in_order(*cond, n, *x),
    ensures
        forall|p: spec_fn(usize, T) -> bool| #[trigger] agrees_at(*cond, n, *x, p) ==> r == passes(p, n, *x),
        r ==> forall|k: usize| k < n ==> #[trigger] cond.ensures((k, x), true),
{
    let mut k: usize = 0;
    while k < n
        invariant
            k <= n,
            callable_in_order(*cond, n, *x),
            forall|j: usize| j < k ==> #[trigger] cond.ensures((j, x), true),
        decreases n - k,
    {
        let b = cond(k, x);
        if !b {
            assert forall|p: spec_fn(usize, T) -> bool| #[trigger] agrees_at(*cond, n, *x, p)
                implies !passes(p, n, *x) by {
                assert(!p(k, *x));
            }
            return false;
        }
        k += 1;
    }
    assert forall|p: spec_fn(usize, T) -> bool| #[trigger] agrees_at(*cond, n, *x, p)
        implies passes(p, n, *x) by {
        assert forall|j: usize| j < n implies #[trigger] p(j, *x) by {
            assert(cond.ensures((j, x), true));
        }
    }
    true
}

/// The fused filter-and-map pass: the mapping of each element that passes the
/// conditions, in the order of `items`. The mapping is only applied to such elements.
pub fn comprehend<T, U, C: Fn(usize, &T) -> bool, M: Fn(&T) -> U>(
    items: &Vec<T>,
    n: usize,
    cond: &C,
    mapping: &M,
) -> (out: Vec<U>)
    requires
        forall|i: int| 0 <= i < items@.len() ==> #[trigger] callable_in_order(*cond, n, items@[i]),
        forall|i: int|
            0 <= i < items@.len() && (forall|k: usize|
                k < n ==> #[trigger] cond.ensures((k, &items@[i]), true)) ==> #[trigger] mapping.requires(
                (&items@[i],),
            ),
    ensures
        forall|p: spec_fn(usize, T) -> bool| #[trigger] agrees(*cond, n, items@, p) ==> {
            &&& out@.len() == kept(p, n, items@).len()
            &&& forall|j: int|
                0 <= j < out@.len() ==> mapping.ensures(
                    (&items@[kept(p, n, items@)[j]],),
                    #[trigger] out@[j],
                )
        },
{
    let mut out: Vec<U> = Vec::new();
    let mut i: usize = 0;
    while i < items.len()
        invariant
            i <= items@.len(),
            forall|i: int| 0 <= i < items@.len() ==> #[trigger] callable_in_order(*cond, n, items@[i]),
            forall|i: int|
                0 <= i < items@.len() && (forall|k: usize|
                    k < n ==> #[trigger] cond.ensures((k, &items@[i]), true)) ==> #[trigger] mapping.requires(
                    (&items@[i],),
                ),
            forall|p: spec_fn(usize, T) -> bool| #[trigger] agrees(*cond, n, items@, p) ==> {
                &&& out@.len() == kept(p, n, items@.subrange(0, i as int)).len()
                &&& forall|j: int|
                    0 <= j < out@.len() ==> mapping.ensures(
                        (&items@[kept(p, n, items@.subrange(0, i as int))[j]],),
                        #[trigger] out@[j],
                    )
            },
        decreases items@.len() - i,
    {
        let ghost before = items@.subrange(0, i as int);
        let ghost after = items@.subrange(0, i + 1);
        let ghost old_out = out@;
        assert(after.drop_last() =~= before);
        let x = &items[i];
        assert(callable_in_order(*cond, n, items@[i as int]));
        let q = qualifies(x, n, cond);
        if q {
            let y = mapping(x);
            out.push(y);
        }
        assert forall|p: spec_fn(usize, T) -> bool| #[trigger] agrees(*cond, n, items@, p) implies {
            &&& out@.len() == kept(p, n, after).len()
            &&& forall|j: int|
                0 <= j < out@.len() ==> mapping.ensures(
                    (&items@[kept(p, n, after)[j]],),
                    #[trigger] out@[j],
                )
        } by {
            assert(agrees_at(*cond, n, items@[i as int], p));
            assert(q == passes(p, n, items@[i as int]));
            assert(kept(p, n, after) == kept(p, n, before) + if passes(p, n, items@[i as int]) {
                seq![i as int]
            } else {
                Seq::empty()
            });
            assert(forall|j: int| 0 <= j < old_out.len() ==> out@[j] == old_out[j]);
        }
        i += 1;
    }
    assert(items@.subrange(0, items@.len() as int) =~= items@);
    out
}

} // verus!
