//! What it means that a list was picked from another.

use vstd::prelude::*;

verus! {

/// `out` is what is found in `src` at the places `at`: the places are in order, and they are
/// exactly those at which `keep` holds.
pub open spec fn picked_at<T>(
    src: Seq<T>,
    keep: spec_fn(T) -> bool,
    out: Seq<T>,
    at: Seq<int>,
) -> bool {
    &&& at.len() == out.len()
    &&& forall|k: int| 0 <= k < at.len() ==> 0 <= #[trigger] at[k] < src.len() && out[k] == src[at[k]]
    &&& forall|j: int, k: int| 0 <= j < k < at.len() ==> #[trigger] at[j] < #[trigger] at[k]
    &&& forall|i: int| 0 <= i < src.len() ==> (keep(#[trigger] src[i]) <==> at.contains(i))
}

/// `out` holds every item of `src` for which `keep` holds, as often as it is there, in the same
/// order, and nothing else.
pub open spec fn is_pick<T>(src: Seq<T>, keep: spec_fn(T) -> bool, out: Seq<T>) -> bool {
    exists|at: Seq<int>| picked_at(src, keep, out, at)
}

pub proof fn lemma_filter_picks<T>(src: Seq<T>, keep: spec_fn(T) -> bool)
    ensures
        is_pick(src, keep, src.filter(keep)),
    decreases src.len(),
{
    reveal(Seq::filter);
    let out = src.filter(keep);
    if src.len() == 0 {
        assert(picked_at(src, keep, out, Seq::<int>::empty()));
    } else {
        let init = src.drop_last();
        lemma_filter_picks(init, keep);
        let at = choose|at: Seq<int>| picked_at(init, keep, init.filter(keep), at);
        let n = src.len() - 1;
        let then = if keep(src.last()) {
            at.push(n)
        } else {
            at
        };
        assert forall|k: int| 0 <= k < then.len() implies 0 <= #[trigger] then[k] < src.len()
            && out[k] == src[then[k]] by {
            if k < at.len() {
                assert(0 <= at[k] < init.len());
                assert(init[at[k]] == src[at[k]]);
            }
        }
        assert forall|j: int, k: int| 0 <= j < k < then.len() implies #[trigger] then[j]
            < #[trigger] then[k] by {
            assert(0 <= at[j] < init.len());
        }
        assert forall|i: int| 0 <= i < src.len() implies (keep(#[trigger] src[i])
            <==> then.contains(i)) by {
            if i < n {
                assert(init[i] == src[i]);
                assert(keep(init[i]) <==> at.contains(i));
                if at.contains(i) {
                    let k = choose|k: int| 0 <= k < at.len() && at[k] == i;
                    assert(then[k] == i);
                }
                if then.contains(i) {
                    let k = choose|k: int| 0 <= k < then.len() && then[k] == i;
                    assert(at[k] == i);
                }
            } else {
                if keep(src[i]) {
                    assert(then[at.len() as int] == n);
                } else if then.contains(i) {
                    let k = choose|k: int| 0 <= k < then.len() && then[k] == i;
                    assert(0 <= at[k] < init.len());
                }
            }
        }
        assert(picked_at(src, keep, out, then));
    }
}

/// Two ways to keep the same items pick the same.
pub proof fn lemma_same_pick<T>(
    src: Seq<T>,
    keep: spec_fn(T) -> bool,
    other: spec_fn(T) -> bool,
    out: Seq<T>,
)
    requires
        is_pick(src, keep, out),
        forall|i: int| 0 <= i < src.len() ==> (keep(#[trigger] src[i]) <==> other(src[i])),
    ensures
        is_pick(src, other, out),
{
    let at = choose|at: Seq<int>| picked_at(src, keep, out, at);
    assert(picked_at(src, other, out, at));
}

/// What was picked can be picked in one way only.
pub proof fn a_pick_is_one_list<T>(
    src: Seq<T>,
    keep: spec_fn(T) -> bool,
    a: Seq<T>,
    b: Seq<T>,
)
    requires
        is_pick(src, keep, a),
        is_pick(src, keep, b),
    ensures
        a == b,
{
    let x = choose|at: Seq<int>| picked_at(src, keep, a, at);
    let y = choose|at: Seq<int>| picked_at(src, keep, b, at);
    lemma_same_places(src, keep, a, x, b, y);
    lemma_same_places(src, keep, b, y, a, x);
    assert forall|k: int| 0 <= k < a.len() implies a[k] == b[k] by {
        assert(x[k] == y[k]);
        assert(a[k] == src[x[k]]);
        assert(b[k] == src[y[k]]);
    }
    assert(a == b);
}

proof fn lemma_same_places<T>(
    src: Seq<T>,
    keep: spec_fn(T) -> bool,
    a: Seq<T>,
    x: Seq<int>,
    b: Seq<T>,
    y: Seq<int>,
)
    requires
        picked_at(src, keep, a, x),
        picked_at(src, keep, b, y),
    ensures
        x.len() <= y.len(),
        forall|k: int| 0 <= k < x.len() ==> x[k] == y[k],
{
    lemma_place(src, keep, a, x, b, y, x.len() as int);
}

proof fn lemma_place<T>(
    src: Seq<T>,
    keep: spec_fn(T) -> bool,
    a: Seq<T>,
    x: Seq<int>,
    b: Seq<T>,
    y: Seq<int>,
    n: int,
)
    requires
        picked_at(src, keep, a, x),
        picked_at(src, keep, b, y),
        0 <= n <= x.len(),
    ensures
        n <= y.len(),
        forall|k: int| 0 <= k < n ==> x[k] == y[k],
    decreases n,
{
    if n > 0 {
        lemma_place(src, keep, a, x, b, y, n - 1);
        let i = x[n - 1];
        assert(0 <= i < src.len());
        assert(x.contains(i));
        assert(keep(src[i]));
        assert(y.contains(i));
        let k = choose|k: int| 0 <= k < y.len() && y[k] == i;
        if k < n - 1 {
            assert(x[k] == y[k]);
            assert(x[k] < x[n - 1]);
        }
        if k > n - 1 {
            let j = y[n - 1];
            assert(0 <= j < src.len());
            assert(y.contains(j));
            assert(keep(src[j]));
            assert(x.contains(j));
            let m = choose|m: int| 0 <= m < x.len() && x[m] == j;
            assert(y[n - 1] < y[k]);
            if m < n - 1 {
                assert(x[m] == y[m]);
                assert(y[m] < y[n - 1]);
            } else if m > n - 1 {
                assert(x[n - 1] < x[m]);
            }
        }
    }
}

} // verus!
