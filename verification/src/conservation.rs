//! What a diffusion step does to the field's total.

use vstd::prelude::*;

use crate::frame::STABILITY_CAP_NANOS;
use crate::stencil::{
    above, axis_x, axis_y, axis_z, below, coefficients_valid, diffused, diffused_value, east,
    fits, laplacian, lemma_neighbours_in_range, lemma_rate_is_stable, north, south, west,
    RATE_DENOMINATOR,
};
use crate::voxel_grid::VoxelDims;

verus! {

/// Sum of all entries.
pub open spec fn total(s: Seq<int>) -> int
    decreases s.len(),
{
    if s.len() == 0 {
        0
    } else {
        total(s.drop_last()) + s.last()
    }
}

/// The stored quanta as mathematical integers.
pub open spec fn as_ints(f: Seq<u32>) -> Seq<int> {
    Seq::new(f.len(), |i: int| f[i] as int)
}

/// Entry-wise sum of two sequences of one length.
pub open spec fn plus(a: Seq<int>, b: Seq<int>) -> Seq<int> {
    Seq::new(a.len(), |i: int| a[i] + b[i])
}

/// Every entry multiplied by `k`.
pub open spec fn scaled(k: int, a: Seq<int>) -> Seq<int> {
    Seq::new(a.len(), |i: int| k * a[i])
}

/// `f` moved `off` places towards higher indices, zero-filled.
pub open spec fn shifted_up(f: Seq<int>, off: int) -> Seq<int> {
    Seq::new(
        f.len(),
        |i: int|
            if i >= off {
                f[i - off]
            } else {
                0
            },
    )
}

/// `f` moved `off` places towards lower indices, zero-filled.
pub open spec fn shifted_down(f: Seq<int>, off: int) -> Seq<int> {
    Seq::new(
        f.len(),
        |i: int|
            if i + off < f.len() {
                f[i + off]
            } else {
                0
            },
    )
}

/// One coefficient holds for the whole grid.
pub open spec fn uniform(coefficients: Seq<u32>) -> bool {
    forall|v: int| 0 <= v < coefficients.len() ==> #[trigger] coefficients[v] == coefficients[0]
}

/// No entry is negative.
pub open spec fn non_negative(a: Seq<int>) -> bool {
    forall|i: int| 0 <= i < a.len() ==> 0 <= #[trigger] a[i]
}

/// The total of a prefix grows by the entry that extends it.
pub proof fn lemma_total_step(a: Seq<int>, n: int)
    requires
        0 <= n < a.len(),
    ensures
        total(a.take(n + 1)) == total(a.take(n)) + a[n],
{
    assert(a.take(n + 1).drop_last() == a.take(n));
}

proof fn lemma_total_le(a: Seq<int>, b: Seq<int>)
    requires
        a.len() == b.len(),
        forall|i: int| 0 <= i < a.len() ==> a[i] <= b[i],
    ensures
        total(a) <= total(b),
    decreases a.len(),
{
    if a.len() > 0 {
        lemma_total_le(a.drop_last(), b.drop_last());
    }
}

proof fn lemma_total_plus(a: Seq<int>, b: Seq<int>)
    requires
        a.len() == b.len(),
    ensures
        total(plus(a, b)) == total(a) + total(b),
    decreases a.len(),
{
    if a.len() > 0 {
        lemma_total_plus(a.drop_last(), b.drop_last());
        assert(plus(a, b).drop_last() == plus(a.drop_last(), b.drop_last()));
    }
}

proof fn lemma_total_scaled(k: int, a: Seq<int>)
    ensures
        total(scaled(k, a)) == k * total(a),
    decreases a.len(),
{
    if a.len() > 0 {
        lemma_total_scaled(k, a.drop_last());
        assert(scaled(k, a).drop_last() == scaled(k, a.drop_last()));
        assert(k * (total(a.drop_last()) + a.last()) == k * total(a.drop_last()) + k * a.last())
            by (nonlinear_arith);
    } else {
        assert(k * 0 == 0) by (nonlinear_arith);
    }
}

proof fn lemma_total_prefix(a: Seq<int>, m: int)
    requires
        non_negative(a),
        0 <= m <= a.len(),
    ensures
        0 <= total(a.take(m)) <= total(a),
    decreases a.len() - m,
{
    if m == a.len() {
        assert(a.take(m) == a);
        lemma_total_non_negative(a);
    } else {
        lemma_total_prefix(a, m + 1);
        lemma_total_step(a, m);
        lemma_total_non_negative(a.take(m));
    }
}

proof fn lemma_total_non_negative(a: Seq<int>)
    requires
        non_negative(a),
    ensures
        0 <= total(a),
    decreases a.len(),
{
    if a.len() > 0 {
        lemma_total_non_negative(a.drop_last());
    }
}

/// The first `n` entries of the field moved up by `off` are the first
/// `n - off` entries of the field itself, after `off` zeros.
proof fn lemma_shifted_up_prefix(f: Seq<int>, off: int, n: int)
    requires
        0 <= off,
        0 <= n <= f.len(),
    ensures
        total(shifted_up(f, off).take(n)) == total(
            f.take(
                if n >= off {
                    n - off
                } else {
                    0
                },
            ),
        ),
    decreases n,
{
    let h = shifted_up(f, off);
    if n == 0 {
        assert(h.take(0) == f.take(0));
    } else {
        lemma_shifted_up_prefix(f, off, n - 1);
        lemma_total_step(h, n - 1);
        if n - 1 >= off {
            lemma_total_step(f, n - 1 - off);
        }
    }
}

/// Moving a field of non-negative entries towards higher indices drops its
/// tail and so cannot raise its total.
proof fn lemma_shifted_up_total(f: Seq<int>, off: int)
    requires
        non_negative(f),
        0 <= off,
    ensures
        total(shifted_up(f, off)) <= total(f),
{
    let h = shifted_up(f, off);
    let len = f.len() as int;
    lemma_shifted_up_prefix(f, off, len);
    assert(h.take(len) == h);
    lemma_total_prefix(
        f,
        if len >= off {
            len - off
        } else {
            0
        },
    );
}

/// The first `n` entries of the field moved down by `off` are the entries of
/// the field from `off` up to `n + off`.
proof fn lemma_shifted_down_prefix(f: Seq<int>, off: int, n: int)
    requires
        0 <= off,
        0 <= n <= f.len(),
    ensures
        total(shifted_down(f, off).take(n)) == total(
            f.take(
                if n + off <= f.len() {
                    n + off
                } else {
                    f.len() as int
                },
            ),
        ) - total(
            f.take(
                if off <= f.len() {
                    off
                } else {
                    f.len() as int
                },
            ),
        ),
    decreases n,
{
    let h = shifted_down(f, off);
    if n == 0 {
        assert(h.take(0) == Seq::<int>::empty());
    } else {
        lemma_shifted_down_prefix(f, off, n - 1);
        lemma_total_step(h, n - 1);
        if n - 1 + off < f.len() {
            lemma_total_step(f, n - 1 + off);
        }
    }
}

/// Moving a field of non-negative entries towards lower indices drops its
/// head and so cannot raise its total.
proof fn lemma_shifted_down_total(f: Seq<int>, off: int)
    requires
        non_negative(f),
        0 <= off,
    ensures
        total(shifted_down(f, off)) <= total(f),
{
    let h = shifted_down(f, off);
    let len = f.len() as int;
    lemma_shifted_down_prefix(f, off, len);
    assert(h.take(len) == h);
    assert(f.take(len) == f);
    lemma_total_prefix(
        f,
        if off <= len {
            off
        } else {
            len
        },
    );
}

/// The contribution of one direction of the stencil, summed over the whole
/// field, is at most the field's total: each cell is read at most once.
proof fn lemma_direction_total(f: Seq<int>, g: Seq<int>, off: int, up: bool)
    requires
        non_negative(f),
        g.len() == f.len(),
        0 <= off,
        forall|i: int|
            0 <= i < g.len() ==> (#[trigger] g[i] == 0 || (up && i >= off && g[i] == f[i - off])
                || (!up && i + off < f.len() && g[i] == f[i + off])),
    ensures
        total(g) <= total(f),
{
    if up {
        lemma_total_le(g, shifted_up(f, off));
        lemma_shifted_up_total(f, off);
    } else {
        lemma_total_le(g, shifted_down(f, off));
        lemma_shifted_down_total(f, off);
    }
}

/// Summed over the whole field the Laplacian is never positive: every cell
/// gives up six shares and receives at most one back from each side.
pub proof fn lemma_laplacian_total(dims: VoxelDims, f: Seq<u32>)
    requires
        fits(dims, f),
    ensures
        total(Seq::new(f.len(), |i: int| laplacian(dims, f, i))) <= 0,
{
    let len = f.len();
    let values = as_ints(f);
    let plane = dims.i * dims.j;
    let w = Seq::new(len, |i: int| west(dims, f, i));
    let e = Seq::new(len, |i: int| east(dims, f, i));
    let s = Seq::new(len, |i: int| south(dims, f, i));
    let n = Seq::new(len, |i: int| north(dims, f, i));
    let b = Seq::new(len, |i: int| below(dims, f, i));
    let a = Seq::new(len, |i: int| above(dims, f, i));
    assert forall|i: int| 0 <= i < len implies {
        &&& axis_x(dims, i) > 0 ==> i >= 1
        &&& axis_x(dims, i) + 1 < dims.i ==> i + 1 < len
        &&& axis_y(dims, i) > 0 ==> i >= dims.i
        &&& axis_y(dims, i) + 1 < dims.j ==> i + dims.i < len
        &&& axis_z(dims, i) > 0 ==> i >= plane
        &&& axis_z(dims, i) + 1 < dims.k ==> i + plane < len
    } by {
        lemma_neighbours_in_range(dims, len as int, i);
    }
    lemma_direction_total(values, w, 1, true);
    lemma_direction_total(values, e, 1, false);
    lemma_direction_total(values, s, dims.i as int, true);
    lemma_direction_total(values, n, dims.i as int, false);
    lemma_direction_total(values, b, plane, true);
    lemma_direction_total(values, a, plane, false);
    let we = plus(w, e);
    let wes = plus(we, s);
    let wesn = plus(wes, n);
    let wesnb = plus(wesn, b);
    let around = plus(wesnb, a);
    lemma_total_plus(w, e);
    lemma_total_plus(we, s);
    lemma_total_plus(wes, n);
    lemma_total_plus(wesn, b);
    lemma_total_plus(wesnb, a);
    let minus_six = scaled(-6, values);
    lemma_total_scaled(-6, values);
    lemma_total_plus(around, minus_six);
    assert(plus(around, minus_six) == Seq::new(len, |i: int| laplacian(dims, f, i)));
}

/// With one coefficient for the whole grid and a time step within the
/// stability cap, a diffusion step never raises the field's total: what
/// leaves a cell either reaches a neighbour or is lost at the boundary or to
/// rounding.
pub proof fn lemma_total_never_grows(
    dims: VoxelDims,
    f: Seq<u32>,
    coefficients: Seq<u32>,
    dt: int,
)
    requires
        fits(dims, f),
        coefficients_valid(dims, coefficients),
        uniform(coefficients),
        0 <= dt <= STABILITY_CAP_NANOS,
    ensures
        total(diffused(dims, f, coefficients, dt)) <= total(as_ints(f)),
{
    let len = f.len();
    let den = RATE_DENOMINATOR as int;
    let rate = coefficients[0] * dt;
    let values = as_ints(f);
    let lap = Seq::new(len, |i: int| laplacian(dims, f, i));
    let flow = scaled(rate, lap);
    let change = Seq::new(len, |i: int| flow[i] / den);
    assert(dims.count() > 0) by (nonlinear_arith)
        requires
            dims.positive(),
    ;
    lemma_rate_is_stable(coefficients[0], dt);
    lemma_laplacian_total(dims, f);
    lemma_total_scaled(rate, lap);
    assert(total(flow) <= 0) by (nonlinear_arith)
        requires
            total(flow) == rate * total(lap),
            rate >= 0,
            total(lap) <= 0,
    ;
    // Rounding down only takes away: den * (x / den) <= x.
    lemma_total_scaled(den, change);
    assert forall|i: int| 0 <= i < len implies scaled(den, change)[i] <= flow[i] by {
        vstd::arithmetic::div_mod::lemma_fundamental_div_mod(flow[i], den);
        vstd::arithmetic::div_mod::lemma_mod_bound(flow[i], den);
    }
    lemma_total_le(scaled(den, change), flow);
    assert(total(change) <= 0) by (nonlinear_arith)
        requires
            den * total(change) <= 0,
            den > 0,
    ;
    lemma_total_plus(values, change);
    assert forall|i: int| 0 <= i < len implies plus(values, change)[i] == diffused_value(
        dims,
        f,
        coefficients,
        dt,
        i,
    ) by {
        lemma_neighbours_in_range(dims, len as int, i);
    }
    assert(plus(values, change) == diffused(dims, f, coefficients, dt));
}

} // verus!
