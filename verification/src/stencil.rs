//! The diffusion update rule on a flat buffer: the six-neighbour Laplacian
//! with nothing beyond the grid's edge, in exact fixed-point arithmetic.
//!
//! Cells hold unsigned 32-bit quanta. A coefficient is given in parts per
//! million per second and a time step in nanoseconds, so that their product
//! is a rate in units of `1 / RATE_DENOMINATOR`. The update rounds down.

use vstd::prelude::*;

use crate::frame::STABILITY_CAP_NANOS;
use crate::voxel_grid::VoxelDims;

verus! {

/// Largest diffusion coefficient: one per second, in parts per million.
pub const MAX_COEFFICIENT: u32 = 1_000_000;

/// A coefficient in parts per million per second times a time step in
/// nanoseconds is a rate in units of one over this denominator.
pub const RATE_DENOMINATOR: u64 = 1_000_000_000_000_000;

/// Position along x of the cell at flat index `idx`.
pub open spec fn axis_x(dims: VoxelDims, idx: int) -> int {
    idx % (dims.i as int)
}

/// Position along y of the cell at flat index `idx`.
pub open spec fn axis_y(dims: VoxelDims, idx: int) -> int {
    (idx / (dims.i as int)) % (dims.j as int)
}

/// Position along z of the cell at flat index `idx`.
pub open spec fn axis_z(dims: VoxelDims, idx: int) -> int {
    (idx / (dims.i * dims.j)) % (dims.k as int)
}

/// Value of the neighbour one step down x; nothing at the grid's edge.
pub open spec fn west(dims: VoxelDims, f: Seq<u32>, idx: int) -> int {
    if axis_x(dims, idx) > 0 {
        f[idx - 1] as int
    } else {
        0
    }
}

/// Value of the neighbour one step up x; nothing at the grid's edge.
pub open spec fn east(dims: VoxelDims, f: Seq<u32>, idx: int) -> int {
    if axis_x(dims, idx) + 1 < dims.i {
        f[idx + 1] as int
    } else {
        0
    }
}

/// Value of the neighbour one step down y; nothing at the grid's edge.
pub open spec fn south(dims: VoxelDims, f: Seq<u32>, idx: int) -> int {
    if axis_y(dims, idx) > 0 {
        f[idx - dims.i] as int
    } else {
        0
    }
}

/// Value of the neighbour one step up y; nothing at the grid's edge.
pub open spec fn north(dims: VoxelDims, f: Seq<u32>, idx: int) -> int {
    if axis_y(dims, idx) + 1 < dims.j {
        f[idx + dims.i] as int
    } else {
        0
    }
}

/// Value of the neighbour one step down z; nothing at the grid's edge.
pub open spec fn below(dims: VoxelDims, f: Seq<u32>, idx: int) -> int {
    if axis_z(dims, idx) > 0 {
        f[idx - dims.i * dims.j] as int
    } else {
        0
    }
}

/// Value of the neighbour one step up z; nothing at the grid's edge.
pub open spec fn above(dims: VoxelDims, f: Seq<u32>, idx: int) -> int {
    if axis_z(dims, idx) + 1 < dims.k {
        f[idx + dims.i * dims.j] as int
    } else {
        0
    }
}

/// Sum over the axis-aligned neighbours that lie inside the grid.
pub open spec fn neighbour_sum(dims: VoxelDims, f: Seq<u32>, idx: int) -> int {
    let along_x = west(dims, f, idx) + east(dims, f, idx);
    let along_y = south(dims, f, idx) + north(dims, f, idx);
    let along_z = below(dims, f, idx) + above(dims, f, idx);
    along_x + along_y + along_z
}

/// Discrete Laplacian at `idx`: the neighbours present, less six times the
/// cell itself. A missing neighbour contributes nothing.
pub open spec fn laplacian(dims: VoxelDims, f: Seq<u32>, idx: int) -> int {
    neighbour_sum(dims, f, idx) - 6 * f[idx]
}

/// Rate of exchange at `idx` over `dt` nanoseconds, in units of one over
/// `RATE_DENOMINATOR`: the voxel's coefficient times the time step.
pub open spec fn rate_at(dims: VoxelDims, coefficients: Seq<u32>, dt: int, idx: int) -> int {
    coefficients[idx % (dims.count() as int)] * dt
}

/// One explicit Euler step at `idx` over `dt` nanoseconds: the cell plus
/// coefficient times Laplacian times time step, rounded down to a whole
/// quantum.
pub open spec fn diffused_value(
    dims: VoxelDims,
    f: Seq<u32>,
    coefficients: Seq<u32>,
    dt: int,
    idx: int,
) -> int {
    let flow = rate_at(dims, coefficients, dt, idx) * laplacian(dims, f, idx);
    f[idx] + flow / (RATE_DENOMINATOR as int)
}

/// The step at `idx` written as a mean: the cell keeps what six shares of
/// the rate leave of it and takes one share of each neighbour.
pub open spec fn weighted_mean(
    dims: VoxelDims,
    f: Seq<u32>,
    coefficients: Seq<u32>,
    dt: int,
    idx: int,
) -> int {
    let rate = rate_at(dims, coefficients, dt, idx);
    let kept = f[idx] * (RATE_DENOMINATOR - 6 * rate);
    let taken = rate * neighbour_sum(dims, f, idx);
    (kept + taken) / (RATE_DENOMINATOR as int)
}

/// The field after one step over `dt` nanoseconds.
pub open spec fn diffused(
    dims: VoxelDims,
    f: Seq<u32>,
    coefficients: Seq<u32>,
    dt: int,
) -> Seq<int> {
    Seq::new(f.len(), |idx: int| diffused_value(dims, f, coefficients, dt, idx))
}

/// `f` holds a whole number of grids of shape `dims`, one per species.
pub open spec fn fits(dims: VoxelDims, f: Seq<u32>) -> bool {
    dims.positive() && f.len() % dims.count() == 0
}

/// Every coefficient is at most `MAX_COEFFICIENT`, one per voxel.
pub open spec fn coefficients_valid(dims: VoxelDims, coefficients: Seq<u32>) -> bool {
    &&& coefficients.len() == dims.count()
    &&& forall|v: int| 0 <= v < coefficients.len() ==> #[trigger] coefficients[v] <= MAX_COEFFICIENT
}

/// The neighbours that the stencil reads at `idx` lie inside the buffer.
pub proof fn lemma_neighbours_in_range(dims: VoxelDims, len: int, idx: int)
    requires
        dims.positive(),
        len % (dims.count() as int) == 0,
        0 <= idx < len,
    ensures
        axis_x(dims, idx) > 0 ==> idx - 1 >= 0,
        axis_x(dims, idx) + 1 < dims.i ==> idx + 1 < len,
        axis_y(dims, idx) > 0 ==> idx - dims.i >= 0,
        axis_y(dims, idx) + 1 < dims.j ==> idx + dims.i < len,
        axis_z(dims, idx) > 0 ==> idx - dims.i * dims.j >= 0,
        axis_z(dims, idx) + 1 < dims.k ==> idx + dims.i * dims.j < len,
        0 <= axis_x(dims, idx) < dims.i,
        0 <= axis_y(dims, idx) < dims.j,
        0 <= axis_z(dims, idx) < dims.k,
        0 <= idx % (dims.count() as int) < dims.count(),
        0 < dims.i * dims.j <= len,
{
    let nx = dims.i as int;
    let ny = dims.j as int;
    let nz = dims.k as int;
    let plane = nx * ny;
    let count = dims.count() as int;
    assert(plane > 0 && count == plane * nz && count > 0) by (nonlinear_arith)
        requires
            nx > 0,
            ny > 0,
            nz > 0,
            plane == nx * ny,
            count == nx * ny * nz,
    ;
    let species = len / count;
    vstd::arithmetic::div_mod::lemma_fundamental_div_mod(len, count);
    assert(len == count * species);
    // Along y the row number `idx / nx` steps by one inside a range of
    // `ny * (nz * species)` rows.
    let row = idx / nx;
    let rows = ny * (nz * species);
    assert(len == nx * rows) by (nonlinear_arith)
        requires
            len == count * species,
            count == nx * ny * nz,
            rows == ny * (nz * species),
    ;
    lemma_step_within(idx, len, nx, rows);
    vstd::arithmetic::div_mod::lemma_fundamental_div_mod(idx, nx);
    vstd::arithmetic::div_mod::lemma_mod_bound(idx, nx);
    assert(0 <= row < rows) by (nonlinear_arith)
        requires
            idx == nx * row + idx % nx,
            0 <= idx % nx < nx,
            0 <= idx < len,
            len == nx * rows,
            nx > 0,
    ;
    lemma_step_within(row, rows, ny, nz * species);
    if axis_y(dims, idx) > 0 {
        assert(row >= 1);
        assert(idx >= nx) by (nonlinear_arith)
            requires
                idx == nx * row + idx % nx,
                0 <= idx % nx,
                row >= 1,
                nx > 0,
        ;
    }
    if axis_y(dims, idx) + 1 < ny {
        assert(row + 1 < rows);
        assert(idx + nx < len) by (nonlinear_arith)
            requires
                idx == nx * row + idx % nx,
                idx % nx < nx,
                row + 1 < rows,
                len == nx * rows,
                nx > 0,
        ;
    }
    // Along z the plane number `idx / plane` steps by one inside a range of
    // `nz * species` planes.
    let layer = idx / plane;
    let layers = nz * species;
    assert(len == plane * layers) by (nonlinear_arith)
        requires
            len == count * species,
            count == plane * nz,
            layers == nz * species,
    ;
    vstd::arithmetic::div_mod::lemma_fundamental_div_mod(idx, plane);
    vstd::arithmetic::div_mod::lemma_mod_bound(idx, plane);
    assert(0 <= layer < layers) by (nonlinear_arith)
        requires
            idx == plane * layer + idx % plane,
            0 <= idx % plane < plane,
            0 <= idx < len,
            len == plane * layers,
            plane > 0,
    ;
    lemma_step_within(layer, layers, nz, species);
    assert(plane <= len) by (nonlinear_arith)
        requires
            len == plane * layers,
            layers >= 1,
            plane > 0,
    ;
    if axis_z(dims, idx) > 0 {
        assert(layer >= 1);
        assert(idx >= plane) by (nonlinear_arith)
            requires
                idx == plane * layer + idx % plane,
                0 <= idx % plane,
                layer >= 1,
                plane > 0,
        ;
    }
    if axis_z(dims, idx) + 1 < nz {
        assert(layer + 1 < layers);
        assert(idx + plane < len) by (nonlinear_arith)
            requires
                idx == plane * layer + idx % plane,
                idx % plane < plane,
                layer + 1 < layers,
                len == plane * layers,
                plane > 0,
        ;
    }
    vstd::arithmetic::div_mod::lemma_mod_bound(idx, count);
    vstd::arithmetic::div_mod::lemma_mod_bound(row, ny);
    vstd::arithmetic::div_mod::lemma_mod_bound(layer, nz);
}

/// Within a range of `len == period * repeats` positions, a position that is
/// not first in its period has a predecessor, and one that is not last in
/// its period has a successor.
proof fn lemma_step_within(pos: int, len: int, period: int, repeats: int)
    requires
        period > 0,
        len == period * repeats,
        0 <= pos < len,
    ensures
        pos % period > 0 ==> pos - 1 >= 0,
        pos % period + 1 < period ==> pos + 1 < len,
        0 <= pos % period < period,
{
    vstd::arithmetic::div_mod::lemma_fundamental_div_mod(pos, period);
    vstd::arithmetic::div_mod::lemma_mod_bound(pos, period);
    let q = pos / period;
    if pos % period + 1 < period {
        assert(pos + 1 < len) by (nonlinear_arith)
            requires
                pos == period * q + pos % period,
                pos % period + 1 < period,
                0 <= pos < len,
                len == period * repeats,
                period > 0,
        ;
    }
}

/// With a time step within the stability cap and a coefficient within its
/// maximum, six times the rate does not exceed the denominator.
pub proof fn lemma_rate_is_stable(coefficient: u32, dt: int)
    requires
        coefficient <= MAX_COEFFICIENT,
        0 <= dt <= STABILITY_CAP_NANOS,
    ensures
        0 <= coefficient * dt,
        6 * (coefficient * dt) <= RATE_DENOMINATOR,
{
    assert(0 <= coefficient * dt <= 1_000_000 * 166_666_600) by (nonlinear_arith)
        requires
            0 <= coefficient <= 1_000_000,
            0 <= dt <= 166_666_600,
    ;
}

/// No cell of `f` exceeds `bound`.
pub open spec fn bounded_by(f: Seq<u32>, bound: int) -> bool {
    forall|j: int| 0 <= j < f.len() ==> #[trigger] f[j] <= bound
}

/// Under a stable rate the updated cell is a weighted mean of the cell and
/// its neighbours with weights that sum to at most one: it is not negative
/// and does not exceed what bounds the field before the step.
pub proof fn lemma_diffused_is_bounded(
    dims: VoxelDims,
    f: Seq<u32>,
    coefficients: Seq<u32>,
    dt: int,
    idx: int,
    bound: int,
)
    requires
        fits(dims, f),
        coefficients_valid(dims, coefficients),
        0 <= dt <= STABILITY_CAP_NANOS,
        0 <= idx < f.len(),
        bounded_by(f, bound),
    ensures
        0 <= diffused_value(dims, f, coefficients, dt, idx) <= bound,
        diffused_value(dims, f, coefficients, dt, idx) == weighted_mean(
            dims,
            f,
            coefficients,
            dt,
            idx,
        ),
{
    lemma_neighbours_in_range(dims, f.len() as int, idx);
    let c = coefficients[idx % (dims.count() as int)];
    lemma_rate_is_stable(c, dt);
    let rate = c * dt;
    let den = RATE_DENOMINATOR as int;
    let here = f[idx] as int;
    let around = neighbour_sum(dims, f, idx);
    let lap = laplacian(dims, f, idx);
    assert(0 <= here <= bound);
    assert(0 <= west(dims, f, idx) <= bound && 0 <= east(dims, f, idx) <= bound);
    assert(0 <= south(dims, f, idx) <= bound && 0 <= north(dims, f, idx) <= bound);
    assert(0 <= below(dims, f, idx) <= bound && 0 <= above(dims, f, idx) <= bound);
    assert(0 <= around <= 6 * bound);
    let numerator = here * (den - 6 * rate) + rate * around;
    assert(numerator == here * den + rate * lap) by (nonlinear_arith)
        requires
            numerator == here * (den - 6 * rate) + rate * around,
            lap == around - 6 * here,
    ;
    assert(0 <= numerator <= bound * den) by (nonlinear_arith)
        requires
            numerator == here * (den - 6 * rate) + rate * around,
            0 <= here <= bound,
            0 <= around <= 6 * bound,
            0 <= rate,
            6 * rate <= den,
    ;
    vstd::arithmetic::div_mod::lemma_fundamental_div_mod(rate * lap, den);
    vstd::arithmetic::div_mod::lemma_mod_bound(rate * lap, den);
    let q = (rate * lap) / den;
    let r = (rate * lap) % den;
    assert(numerator == (here + q) * den + r) by (nonlinear_arith)
        requires
            numerator == here * den + rate * lap,
            rate * lap == den * q + r,
    ;
    vstd::arithmetic::div_mod::lemma_fundamental_div_mod_converse(numerator, den, here + q, r);
    assert(0 <= here + q <= bound) by (nonlinear_arith)
        requires
            numerator == (here + q) * den + r,
            0 <= r < den,
            0 <= numerator <= bound * den,
            den > 0,
    ;
}

/// Under a stable rate the updated cell fits the 32 bits that hold it.
pub proof fn lemma_diffused_in_range(
    dims: VoxelDims,
    f: Seq<u32>,
    coefficients: Seq<u32>,
    dt: int,
    idx: int,
)
    requires
        fits(dims, f),
        coefficients_valid(dims, coefficients),
        0 <= dt <= STABILITY_CAP_NANOS,
        0 <= idx < f.len(),
    ensures
        0 <= diffused_value(dims, f, coefficients, dt, idx) <= u32::MAX,
        diffused_value(dims, f, coefficients, dt, idx) == weighted_mean(
            dims,
            f,
            coefficients,
            dt,
            idx,
        ),
{
    lemma_diffused_is_bounded(dims, f, coefficients, dt, idx, u32::MAX as int);
}

} // verus!
