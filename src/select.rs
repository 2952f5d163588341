use vstd::prelude::*;

verus! {

/// A slice bound as the slicer takes it: a position from the front, a
/// distance from the rear, or the default for the step's direction.
pub enum Bound {
    Head(usize),
    Tail(usize),
    Open,
}

pub open spec fn clamp(x: int, lo: int, hi: int) -> int {
    if x < lo {
        lo
    } else if x > hi {
        hi
    } else {
        x
    }
}

/// The position a bound stands for in a sequence of length `n`, clamped to
/// `[lo, hi]`; `default` when the bound is open.
pub open spec fn resolve(b: Bound, n: int, lo: int, hi: int, default: int) -> int {
    match b {
        Bound::Head(k) => clamp(k as int, lo, hi),
        Bound::Tail(k) => clamp(n - k, lo, hi),
        Bound::Open => default,
    }
}

/// The step a slice walks with: one when absent.
pub open spec fn step_of(step: Option<isize>) -> int {
    match step {
        Some(k) => k as int,
        None => 1,
    }
}

/// The positions, in the order visited, that a slice from `start` to `end`
/// (exclusive) with the given step selects in a sequence of length `n`.
/// A forward walk starts at the front and stops at the back by default, and a
/// backward walk starts at the last element and runs past the first; bounds
/// out of range are clamped. A zero step selects nothing.
pub open spec fn positions(n: int, start: Bound, end: Bound, step: Option<isize>) -> Seq<int> {
    let s = step_of(step);
    if s == 0 {
        Seq::empty()
    } else if s > 0 {
        let i = resolve(start, n, 0, n, 0);
        let e = resolve(end, n, 0, n, n);
        let count = if i < e { (e - i + s - 1) / s } else { 0 };
        Seq::new(count as nat, |k: int| i + k * s)
    } else {
        let i = resolve(start, n, -1, n - 1, n - 1);
        let e = resolve(end, n, -1, n - 1, -1);
        let count = if i > e { (i - e - s - 1) / (-s) } else { 0 };
        Seq::new(count as nat, |k: int| i + k * s)
    }
}

/// Every selected position lies inside the sequence, and no position is
/// selected twice.
pub proof fn lemma_positions_valid(n: int, start: Bound, end: Bound, step: Option<isize>)
    requires
        n >= 0,
    ensures
        forall|k: int|
            0 <= k < positions(n, start, end, step).len() ==> 0 <= #[trigger] positions(
                n,
                start,
                end,
                step,
            )[k] < n,
        forall|j: int, k: int|
            0 <= j < positions(n, start, end, step).len() && 0 <= k < positions(
                n,
                start,
                end,
                step,
            ).len() && j != k ==> #[trigger] positions(n, start, end, step)[j]
                != #[trigger] positions(n, start, end, step)[k],
{
    let p = positions(n, start, end, step);
    let s = step_of(step);
    if s > 0 {
        let i = resolve(start, n, 0, n, 0);
        let e = resolve(end, n, 0, n, n);
        assert forall|k: int| 0 <= k < p.len() implies 0 <= #[trigger] p[k] < n by {
            assert(i < e);
            let count = (e - i + s - 1) / s;
            assert(k <= count - 1);
            assert(k * s <= (count - 1) * s) by (nonlinear_arith)
                requires
                    k <= count - 1,
                    s > 0,
            ;
            assert((count - 1) * s < e - i) by (nonlinear_arith)
                requires
                    count == (e - i + s - 1) / s,
                    s > 0,
                    e - i > 0,
            ;
            assert(k * s >= 0) by (nonlinear_arith)
                requires
                    k >= 0,
                    s > 0,
            ;
        }
        assert forall|j: int, k: int|
            0 <= j < p.len() && 0 <= k < p.len() && j != k implies #[trigger] p[j]
            != #[trigger] p[k] by {
            assert(j * s != k * s) by (nonlinear_arith)
                requires
                    j != k,
                    s != 0,
            ;
        }
    } else if s < 0 {
        let i = resolve(start, n, -1, n - 1, n - 1);
        let e = resolve(end, n, -1, n - 1, -1);
        assert forall|k: int| 0 <= k < p.len() implies 0 <= #[trigger] p[k] < n by {
            assert(i > e);
            let count = (i - e - s - 1) / (-s);
            assert(k <= count - 1);
            assert(k * (-s) <= (count - 1) * (-s)) by (nonlinear_arith)
                requires
                    k <= count - 1,
                    s < 0,
            ;
            assert((count - 1) * (-s) < i - e) by (nonlinear_arith)
                requires
                    count == (i - e - s - 1) / (-s),
                    s < 0,
                    i - e > 0,
            ;
            assert(k * s <= 0) by (nonlinear_arith)
                requires
                    k >= 0,
                    s < 0,
            ;
            assert(k * (-s) == -(k * s)) by (nonlinear_arith);
        }
        assert forall|j: int, k: int|
            0 <= j < p.len() && 0 <= k < p.len() && j != k implies #[trigger] p[j]
            != #[trigger] p[k] by {
            assert(j * s != k * s) by (nonlinear_arith)
                requires
                    j != k,
                    s != 0,
            ;
        }
    }
}

/// Relies on `slyce::Slice::apply`: the items at the selected positions, in
/// the order visited (the walk that `positions` describes).
#[verifier::external_body]
pub(crate) fn select(items: &Vec<usize>, start: Bound, end: Bound, step: Option<isize>) -> (r: Vec<
    usize,
>)
    ensures
        r@ == positions(items@.len() as int, start, end, step).map_values(|p: int| items@[p]),
{
    let start = match start {
        Bound::Head(k) => slyce::Index::Head(k),
        Bound::Tail(k) => slyce::Index::Tail(k),
        Bound::Open => slyce::Index::Default,
    };
    let end = match end {
        Bound::Head(k) => slyce::Index::Head(k),
        Bound::Tail(k) => slyce::Index::Tail(k),
        Bound::Open => slyce::Index::Default,
    };
    slyce::Slice { start, end, step }.apply(items.as_slice()).copied().collect()
}

} // verus!
