//! Pointer drags as the window reports them.

use vstd::prelude::*;

verus! {

/// Follows a pointer drag: whether the button is held and where the pointer
/// was last seen while it was. The position type is left to the caller.
pub struct DragTracker<P> {
    pub pressed: bool,
    pub anchor: Option<P>,
}

impl<P: Copy> DragTracker<P> {
    /// Button up, no anchor.
    pub fn new() -> (tracker: Self)
        ensures
            !tracker.pressed,
            tracker.anchor is None,
    {
        DragTracker { pressed: false, anchor: None }
    }

    /// The button went down. The anchor is set by the next move.
    pub fn press(&mut self)
        ensures
            final(self).pressed,
            final(self).anchor == old(self).anchor,
    {
        self.pressed = true;
    }

    /// The button came up: the drag ends and the anchor is forgotten.
    pub fn release(&mut self)
        ensures
            !final(self).pressed,
            final(self).anchor is None,
    {
        self.pressed = false;
        self.anchor = None;
    }

    /// The pointer moved to `position`. While the button is held this
    /// re-anchors the drag there and, if there was an anchor already, returns
    /// it together with `position` so that the caller can take the
    /// difference. With the button up nothing changes.
    pub fn moved(&mut self, position: P) -> (segment: Option<(P, P)>)
        ensures
            final(self).pressed == old(self).pressed,
            old(self).pressed ==> final(self).anchor == Some(position),
            !old(self).pressed ==> final(self).anchor == old(self).anchor,
            segment == match old(self).anchor {
                Some(from) if old(self).pressed => Some((from, position)),
                _ => None,
            },
    {
        if !self.pressed {
            return None;
        }
        let previous = self.anchor;
        self.anchor = Some(position);
        match previous {
            Some(from) => Some((from, position)),
            None => None,
        }
    }
}

} // verus!
