//! Traits shared by the parts of the renderer.

use vstd::prelude::*;

verus! {

/// Implemented by the parts of the renderer that have to follow a change of
/// the surface or the grid.
pub trait Update<I, O, T> {
    fn on_resize(&mut self, a: &I, b: &O, c: &T);
}

} // verus!
