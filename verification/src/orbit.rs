//! The camera's distance from the origin: where it starts, how scrolling
//! changes it and the limits it keeps.
//!
//! Distances are whole thousandths of a world unit.

use vstd::prelude::*;

use crate::voxel_grid::VoxelDims;

verus! {

/// Thousandths per world unit.
pub const MILLI: u32 = 1000;

/// Smallest orbit radius, in thousandths: one world unit.
pub const R_MIN_MILLI: u32 = 1_000;

/// Largest orbit radius, in thousandths: five hundred world units.
pub const R_MAX_MILLI: u32 = 500_000;

/// Radius gained per unit of scroll, in tenths: three tenths.
pub const SCROLL_SENSITIVITY_TENTHS: u32 = 3;

/// `milli` limited to the radii that the orbit allows.
pub open spec fn clamped_radius(milli: int) -> int {
    if milli < R_MIN_MILLI {
        R_MIN_MILLI as int
    } else if milli > R_MAX_MILLI {
        R_MAX_MILLI as int
    } else {
        milli
    }
}

/// The radius after a scroll of `scroll_milli` thousandths: the old radius
/// plus the scroll times the sensitivity, rounded down and then clamped.
pub open spec fn zoomed(radius: int, scroll_milli: int) -> int {
    clamped_radius(radius + (scroll_milli * SCROLL_SENSITIVITY_TENTHS) / 10)
}

/// The radius after the scrolls `scrolls`, one after another.
pub open spec fn zoomed_through(radius: int, scrolls: Seq<int>) -> int
    decreases scrolls.len(),
{
    if scrolls.len() == 0 {
        radius
    } else {
        zoomed(zoomed_through(radius, scrolls.drop_last()), scrolls.last())
    }
}

/// Whatever is scrolled, and however often, the radius stays within its
/// limits once it has been zoomed.
pub proof fn lemma_zoom_keeps_limits(radius: int, scrolls: Seq<int>)
    requires
        scrolls.len() > 0 || R_MIN_MILLI <= radius <= R_MAX_MILLI,
    ensures
        R_MIN_MILLI <= zoomed_through(radius, scrolls) <= R_MAX_MILLI,
{
}

/// The orbit radius of the camera.
#[derive(Clone, Copy, Debug)]
pub struct OrbitRadius {
    milli: u32,
}

impl OrbitRadius {
    #[verifier::type_invariant]
    spec fn within_limits(self) -> bool {
        R_MIN_MILLI <= self.milli <= R_MAX_MILLI
    }

    /// The radius in thousandths of a world unit.
    pub closed spec fn milli(self) -> int {
        self.milli as int
    }

    /// The radius nearest to `milli` thousandths that the orbit allows.
    pub fn new(milli: u32) -> (radius: OrbitRadius)
        ensures
            radius.milli() == clamped_radius(milli as int),
    {
        if milli < R_MIN_MILLI {
            OrbitRadius { milli: R_MIN_MILLI }
        } else if milli > R_MAX_MILLI {
            OrbitRadius { milli: R_MAX_MILLI }
        } else {
            OrbitRadius { milli }
        }
    }

    /// Where the camera starts for a grid of shape `dims`: twice the grid's
    /// extent along i away from its centre, within the orbit's limits.
    pub fn around(dims: &VoxelDims) -> (radius: OrbitRadius)
        ensures
            radius.milli() == clamped_radius(2 * dims.i * MILLI),
    {
        let doubled: u64 = 2 * (dims.i as u64);
        let milli: u64 = doubled * 1000;
        if milli > R_MAX_MILLI as u64 {
            OrbitRadius { milli: R_MAX_MILLI }
        } else {
            OrbitRadius::new(milli as u32)
        }
    }

    /// The radius in thousandths of a world unit.
    pub fn get(&self) -> (milli: u32)
        ensures
            milli == self.milli(),
            R_MIN_MILLI <= milli <= R_MAX_MILLI,
    {
        proof {
            use_type_invariant(self);
        }
        self.milli
    }

    /// Scrolls by `scroll_milli` thousandths of a scroll unit: towards the
    /// origin if negative, away from it if positive, never past the limits.
    pub fn zoom(&mut self, scroll_milli: i32)
        ensures
            final(self).milli() == zoomed(old(self).milli(), scroll_milli as int),
            R_MIN_MILLI <= final(self).milli() <= R_MAX_MILLI,
    {
        proof {
            use_type_invariant(&*self);
        }
        let scaled: i64 = scroll_milli as i64 * SCROLL_SENSITIVITY_TENTHS as i64;
        let change: i64 = if scaled >= 0 {
            scaled / 10
        } else {
            -((9 - scaled) / 10)
        };
        let moved: i64 = self.milli as i64 + change;
        self.milli = if moved < R_MIN_MILLI as i64 {
            R_MIN_MILLI
        } else if moved > R_MAX_MILLI as i64 {
            R_MAX_MILLI
        } else {
            moved as u32
        };
    }
}

} // verus!
