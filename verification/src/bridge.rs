//! Dispatch planning: how many work groups the diffusion pass and the
//! raymarch pass launch.

use rand::Rng;
use vstd::prelude::*;

use crate::traits::Update;
use crate::voxel_grid::VoxelDims;

verus! {

/// Work-group counts handed to a compute dispatch, one per axis.
pub type DispatchDims = [u32; 3];

/// Work-group edge of the raymarch kernel along screen x.
pub const RAYMARCH_GROUP_X: u32 = 16;

/// Work-group edge of the raymarch kernel along screen y.
pub const RAYMARCH_GROUP_Y: u32 = 16;

/// Work-group edge of the diffusion kernel along grid i.
pub const LAPLACIAN_GROUP_I: u32 = 8;

/// Work-group edge of the diffusion kernel along grid j.
pub const LAPLACIAN_GROUP_J: u32 = 4;

/// Work-group edge of the diffusion kernel along grid k.
pub const LAPLACIAN_GROUP_K: u32 = 8;

/// Most invocations that the hardware runs in one work group.
pub const MAX_GROUP_INVOCATIONS: u32 = 256;

/// Neither kernel's work group holds more invocations than the hardware
/// runs in one.
pub proof fn lemma_group_shapes_fit()
    ensures
        RAYMARCH_GROUP_X * RAYMARCH_GROUP_Y <= MAX_GROUP_INVOCATIONS,
        LAPLACIAN_GROUP_I * LAPLACIAN_GROUP_J * LAPLACIAN_GROUP_K <= MAX_GROUP_INVOCATIONS,
{
}

/// Number of groups of `size` items needed to cover `extent` items.
pub open spec fn ceil_div(extent: int, size: int) -> int {
    (extent + size - 1) / size
}

/// Raymarch group counts for a bounding box `[min_x, min_y, max_x, max_y]`:
/// the ceiling of each side over the group edge, or `(0, 0)` when the box
/// encloses no area and the raymarch pass is skipped.
pub open spec fn raygroups(bounding_box: Seq<i32>) -> (int, int) {
    let width = bounding_box[2] - bounding_box[0];
    let height = bounding_box[3] - bounding_box[1];
    if width <= 0 || height <= 0 {
        (0, 0)
    } else {
        (ceil_div(width, RAYMARCH_GROUP_X as int), ceil_div(height, RAYMARCH_GROUP_Y as int))
    }
}

/// `ceil_div(extent, size)` is the least count whose groups cover `extent`.
pub proof fn lemma_ceil_div_is_least_cover(extent: int, size: int)
    requires
        0 <= extent,
        0 < size,
    ensures
        ceil_div(extent, size) * size >= extent,
        (ceil_div(extent, size) - 1) * size < extent,
        0 <= ceil_div(extent, size) <= extent,
        extent > 0 ==> ceil_div(extent, size) >= 1,
{
    let q = ceil_div(extent, size);
    let n = extent + size - 1;
    vstd::arithmetic::div_mod::lemma_fundamental_div_mod(n, size);
    vstd::arithmetic::div_mod::lemma_mod_bound(n, size);
    assert(n == size * q + n % size);
    assert(size * q == q * size) by (nonlinear_arith);
    assert((q - 1) * size == q * size - size) by (nonlinear_arith);
    assert(0 <= q && (extent > 0 ==> q >= 1)) by (nonlinear_arith)
        requires
            q * size >= extent,
            q * size > extent - size,
            extent >= 0,
            size > 0,
    ;
    assert(q <= extent) by (nonlinear_arith)
        requires
            (q - 1) * size < extent,
            size >= 1,
            q >= 0,
            extent >= 0,
    ;
}

/// Ceiling division on `u32` that cannot overflow.
pub fn div_ceil(extent: u32, size: u32) -> (groups: u32)
    requires
        size > 0,
    ensures
        groups == ceil_div(extent as int, size as int),
{
    let quotient: u32 = extent / size;
    let remainder: u32 = extent % size;
    proof {
        let e = extent as int;
        let s = size as int;
        let q = quotient as int;
        vstd::arithmetic::div_mod::lemma_fundamental_div_mod(e, s);
        assert(e == s * q + remainder);
        assert(s * q == q * s) by (nonlinear_arith);
        assert((q + 1) * s == q * s + s) by (nonlinear_arith);
        if remainder == 0 {
            vstd::arithmetic::div_mod::lemma_fundamental_div_mod_converse(e + s - 1, s, q, s - 1);
        } else {
            vstd::arithmetic::div_mod::lemma_fundamental_div_mod_converse(
                e + s - 1,
                s,
                q + 1,
                remainder as int - 1,
            );
            assert(q < u32::MAX) by (nonlinear_arith)
                requires
                    e == q * s + remainder,
                    remainder >= 1,
                    s >= 1,
                    q >= 0,
                    e <= u32::MAX,
            ;
        }
    }
    if remainder == 0 {
        quotient
    } else {
        quotient + 1
    }
}

/// The dispatch launches `x` by `y` by `z` groups.
pub open spec fn launches(dispatch: DispatchDims, x: int, y: int, z: int) -> bool {
    dispatch@[0] == x && dispatch@[1] == y && dispatch@[2] == z
}

/// Dispatch plan shared between the simulation and the GPU passes.
#[derive(Debug)]
pub struct Bridge {
    /// Groups of the raymarch pass; recomputed every frame.
    pub raymarch_dispatch: DispatchDims,
    /// Groups of the diffusion pass; fixed by the grid shape.
    pub laplacian_dispatch: DispatchDims,
    /// Seed of the initialisation pass, drawn once per run.
    pub rand_seed: u32,
}

/// Draws one `u32` from `rand::rng().random::<u32>()`, the thread-local
/// generator of the `rand` crate. Nothing is claimed about the value: two
/// draws may differ. The call panics if the operating system's entropy
/// source fails when the generator is set up or reseeded.
#[verifier::external_body]
fn draw_seed() -> (seed: u32) {
    rand::rng().random::<u32>()
}

impl Bridge {
    /// The raymarch pass covers a whole surface of `width` x `height`
    /// pixels.
    pub open spec fn covers_surface(self, width: u32, height: u32) -> bool {
        launches(
            self.raymarch_dispatch,
            ceil_div(width as int, RAYMARCH_GROUP_X as int),
            ceil_div(height as int, RAYMARCH_GROUP_Y as int),
            1,
        )
    }

    /// The diffusion pass covers a whole grid of shape `dims`.
    pub open spec fn covers_grid(self, dims: VoxelDims) -> bool {
        launches(
            self.laplacian_dispatch,
            ceil_div(dims.i as int, LAPLACIAN_GROUP_I as int),
            ceil_div(dims.j as int, LAPLACIAN_GROUP_J as int),
            ceil_div(dims.k as int, LAPLACIAN_GROUP_K as int),
        )
    }

    /// The plan for a grid of shape `dims` drawn on a `width` x `height`
    /// surface, apart from the seed.
    pub open spec fn planned_for(self, dims: VoxelDims, width: u32, height: u32) -> bool {
        self.covers_surface(width, height) && self.covers_grid(dims)
    }

    /// Builds the plan with a given seed: the raymarch pass covers the whole
    /// surface until the first bounding box is known.
    pub fn with_seed(dims: &VoxelDims, width: u32, height: u32, seed: u32) -> (bridge: Bridge)
        ensures
            bridge.planned_for(*dims, width, height),
            bridge.rand_seed == seed,
    {
        let raymarch_dispatch: DispatchDims = [
            div_ceil(width, RAYMARCH_GROUP_X),
            div_ceil(height, RAYMARCH_GROUP_Y),
            1,
        ];
        let laplacian_dispatch: DispatchDims = [
            div_ceil(dims.i, LAPLACIAN_GROUP_I),
            div_ceil(dims.j, LAPLACIAN_GROUP_J),
            div_ceil(dims.k, LAPLACIAN_GROUP_K),
        ];
        Bridge { raymarch_dispatch, laplacian_dispatch, rand_seed: seed }
    }

    /// Builds the plan and draws the run's seed.
    pub fn new(dims: &VoxelDims, width: u32, height: u32) -> (bridge: Bridge)
        ensures
            bridge.planned_for(*dims, width, height),
    {
        let seed = draw_seed();
        Bridge::with_seed(dims, width, height, seed)
    }

    /// Whether the current raymarch plan launches no group at all.
    pub open spec fn skips_raymarch(self) -> bool {
        self.raymarch_dispatch@[0] == 0 || self.raymarch_dispatch@[1] == 0
    }

    /// Whether the raymarch pass is to be skipped this frame.
    pub fn raymarch_skipped(&self) -> (skipped: bool)
        ensures
            skipped == self.skips_raymarch(),
    {
        self.raymarch_dispatch[0] == 0 || self.raymarch_dispatch[1] == 0
    }

    /// Sizes the raymarch dispatch for this frame's bounding box
    /// `[min_x, min_y, max_x, max_y]`, stores it and returns the x and y
    /// group counts. A box without area yields `(0, 0)`: the pass is skipped.
    pub fn update_raygroup_ceil(&mut self, bounding_box: [i32; 4]) -> (groups: (u32, u32))
        ensures
            groups.0 == raygroups(bounding_box@).0,
            groups.1 == raygroups(bounding_box@).1,
            launches(final(self).raymarch_dispatch, groups.0 as int, groups.1 as int, 1),
            final(self).laplacian_dispatch == old(self).laplacian_dispatch,
            final(self).rand_seed == old(self).rand_seed,
    {
        let width: i64 = bounding_box[2] as i64 - bounding_box[0] as i64;
        let height: i64 = bounding_box[3] as i64 - bounding_box[1] as i64;
        let groups: (u32, u32) = if width <= 0 || height <= 0 {
            (0, 0)
        } else {
            (div_ceil(width as u32, RAYMARCH_GROUP_X), div_ceil(height as u32, RAYMARCH_GROUP_Y))
        };
        self.raymarch_dispatch = [groups.0, groups.1, 1];
        groups
    }
}

impl Update<VoxelDims, u32, u32> for Bridge {
    /// Plans afresh for a grid of shape `dims` on a surface of `width` x
    /// `height` pixels; the seed stays.
    fn on_resize(&mut self, dims: &VoxelDims, width: &u32, height: &u32)
        ensures
            final(self).planned_for(*dims, *width, *height),
            final(self).rand_seed == old(self).rand_seed,
    {
        let fresh = Bridge::with_seed(dims, *width, *height, self.rand_seed);
        self.raymarch_dispatch = fresh.raymarch_dispatch;
        self.laplacian_dispatch = fresh.laplacian_dispatch;
    }
}

} // verus!
