//! The screen rectangle that can hold the grid's projection: the hull of its
//! projected corners, padded and clamped to the viewport.

use vstd::prelude::*;

use crate::voxel_grid::P2i;

verus! {

/// Axis-aligned pixel rectangle on the screen plane, relative to the
/// viewport's centre.
#[derive(Clone, Copy, Debug, PartialEq, Eq, Structural)]
pub struct BoundingBox {
    pub min_x: i32,
    pub min_y: i32,
    pub max_x: i32,
    pub max_y: i32,
}

/// Smallest and largest coordinates of a set of points:
/// `(min_x, min_y, max_x, max_y)`.
pub type Extent = (int, int, int, int);

pub open spec fn min_int(a: int, b: int) -> int {
    if a <= b {
        a
    } else {
        b
    }
}

pub open spec fn max_int(a: int, b: int) -> int {
    if a >= b {
        a
    } else {
        b
    }
}

/// `v` limited to `[lo, hi]`.
pub open spec fn clamp_int(v: int, lo: int, hi: int) -> int {
    if v < lo {
        lo
    } else if v > hi {
        hi
    } else {
        v
    }
}

/// `e` stretched to take in the point `p`.
pub open spec fn stretched(e: Extent, p: P2i) -> Extent {
    (
        min_int(e.0, p[0] as int),
        min_int(e.1, p[1] as int),
        max_int(e.2, p[0] as int),
        max_int(e.3, p[1] as int),
    )
}

/// Running min/max fold over the projected points. A point that is absent
/// (it lies behind the camera) contributes nothing.
pub open spec fn extent_of(points: Seq<Option<P2i>>) -> Option<Extent>
    decreases points.len(),
{
    if points.len() == 0 {
        None
    } else {
        let rest = extent_of(points.drop_last());
        match points.last() {
            None => rest,
            Some(p) => match rest {
                None => Some((p[0] as int, p[1] as int, p[0] as int, p[1] as int)),
                Some(e) => Some(stretched(e, p)),
            },
        }
    }
}

/// Every point that is present lies within `e`.
pub open spec fn encloses(points: Seq<Option<P2i>>, e: Extent) -> bool {
    forall|i: int|
        0 <= i < points.len() ==> (#[trigger] points[i] matches Some(p) ==> e.0 <= p[0] <= e.2
            && e.1 <= p[1] <= e.3)
}

/// Some point that is present has x coordinate `x`.
pub open spec fn reaches_x(points: Seq<Option<P2i>>, x: int) -> bool {
    exists|i: int| 0 <= i < points.len() && (#[trigger] points[i] matches Some(p) && p[0] == x)
}

/// Some point that is present has y coordinate `y`.
pub open spec fn reaches_y(points: Seq<Option<P2i>>, y: int) -> bool {
    exists|i: int| 0 <= i < points.len() && (#[trigger] points[i] matches Some(p) && p[1] == y)
}

/// `e` is the tight hull of the points that are present: it contains each of
/// them and each of its sides passes through one.
pub open spec fn is_hull(points: Seq<Option<P2i>>, e: Extent) -> bool {
    &&& encloses(points, e)
    &&& reaches_x(points, e.0)
    &&& reaches_y(points, e.1)
    &&& reaches_x(points, e.2)
    &&& reaches_y(points, e.3)
}

/// Every point present in `a` is also present in `b`.
pub open spec fn covered_by(a: Seq<Option<P2i>>, b: Seq<Option<P2i>>) -> bool {
    forall|i: int|
        0 <= i < a.len() && #[trigger] a[i] is Some ==> exists|j: int|
            0 <= j < b.len() && #[trigger] b[j] == a[i]
}

/// A coordinate reached before the last point is still reached with it.
proof fn lemma_reach_extends(points: Seq<Option<P2i>>, v: int)
    requires
        points.len() > 0,
    ensures
        reaches_x(points.drop_last(), v) ==> reaches_x(points, v),
        reaches_y(points.drop_last(), v) ==> reaches_y(points, v),
        points.last() matches Some(p) ==> reaches_x(points, p[0] as int) && reaches_y(
            points,
            p[1] as int,
        ),
{
    let front = points.drop_last();
    let last = points.len() - 1;
    if reaches_x(front, v) {
        let i = choose|i: int|
            0 <= i < front.len() && (#[trigger] front[i] matches Some(p) && p[0] == v);
        assert(points[i] == front[i]);
    }
    if reaches_y(front, v) {
        let i = choose|i: int|
            0 <= i < front.len() && (#[trigger] front[i] matches Some(p) && p[1] == v);
        assert(points[i] == front[i]);
    }
    if points.last() is Some {
        assert(points[last] == points.last());
    }
}

/// The fold yields nothing exactly when every point is absent, and otherwise
/// the tight hull of those present.
pub proof fn lemma_extent_is_hull(points: Seq<Option<P2i>>)
    ensures
        extent_of(points) is None <==> forall|i: int|
            0 <= i < points.len() ==> #[trigger] points[i] is None,
        extent_of(points) matches Some(e) ==> is_hull(points, e),
    decreases points.len(),
{
    if points.len() > 0 {
        let front = points.drop_last();
        let last = points.len() - 1;
        lemma_extent_is_hull(front);
        assert(forall|i: int| 0 <= i < front.len() ==> front[i] == points[i]);
        assert(points[last] == points.last());
        if let Some(e) = extent_of(points) {
            lemma_reach_extends(points, e.0);
            lemma_reach_extends(points, e.1);
            lemma_reach_extends(points, e.2);
            lemma_reach_extends(points, e.3);
            assert forall|i: int| 0 <= i < points.len() implies (#[trigger] points[i] matches Some(
                q,
            ) ==> e.0 <= q[0] <= e.2 && e.1 <= q[1] <= e.3) by {
                if i < last {
                    assert(front[i] == points[i]);
                }
            }
        }
    }
}

/// The hull of points that are all present among others lies inside the
/// hull of those.
proof fn lemma_hull_inside(a: Seq<Option<P2i>>, b: Seq<Option<P2i>>, ea: Extent, eb: Extent)
    requires
        covered_by(a, b),
        is_hull(a, ea),
        encloses(b, eb),
    ensures
        eb.0 <= ea.0,
        eb.1 <= ea.1,
        ea.2 <= eb.2,
        ea.3 <= eb.3,
{
    let i0 = choose|i: int| 0 <= i < a.len() && (#[trigger] a[i] matches Some(p) && p[0] == ea.0);
    let i1 = choose|i: int| 0 <= i < a.len() && (#[trigger] a[i] matches Some(p) && p[1] == ea.1);
    let i2 = choose|i: int| 0 <= i < a.len() && (#[trigger] a[i] matches Some(p) && p[0] == ea.2);
    let i3 = choose|i: int| 0 <= i < a.len() && (#[trigger] a[i] matches Some(p) && p[1] == ea.3);
    let j0 = choose|j: int| 0 <= j < b.len() && #[trigger] b[j] == a[i0];
    let j1 = choose|j: int| 0 <= j < b.len() && #[trigger] b[j] == a[i1];
    let j2 = choose|j: int| 0 <= j < b.len() && #[trigger] b[j] == a[i2];
    let j3 = choose|j: int| 0 <= j < b.len() && #[trigger] b[j] == a[i3];
    assert(b[j0] is Some && b[j1] is Some && b[j2] is Some && b[j3] is Some);
}

/// The fold depends only on which points are present: not on their order,
/// not on how often one occurs, not on where the absent ones stand.
pub proof fn lemma_extent_ignores_order(a: Seq<Option<P2i>>, b: Seq<Option<P2i>>)
    requires
        covered_by(a, b),
        covered_by(b, a),
    ensures
        extent_of(a) == extent_of(b),
{
    lemma_extent_is_hull(a);
    lemma_extent_is_hull(b);
    match (extent_of(a), extent_of(b)) {
        (Some(ea), Some(eb)) => {
            lemma_hull_inside(a, b, ea, eb);
            lemma_hull_inside(b, a, eb, ea);
        },
        (Some(ea), None) => {
            let i = choose|i: int|
                0 <= i < a.len() && (#[trigger] a[i] matches Some(p) && p[0] == ea.0);
            let j = choose|j: int| 0 <= j < b.len() && #[trigger] b[j] == a[i];
            assert(b[j] is None);
        },
        (None, Some(eb)) => {
            let i = choose|i: int|
                0 <= i < b.len() && (#[trigger] b[i] matches Some(p) && p[0] == eb.0);
            let j = choose|j: int| 0 <= j < a.len() && #[trigger] a[j] == b[i];
            assert(a[j] is None);
        },
        (None, None) => {},
    }
}

impl BoundingBox {
    /// The sides of the box.
    pub open spec fn extent(self) -> Extent {
        (self.min_x as int, self.min_y as int, self.max_x as int, self.max_y as int)
    }

    /// The hull `e` grown by one pixel on every side, then cut to the viewport
    /// `[-half_width, half_width] x [-half_height, half_height]`.
    pub open spec fn padded(e: Extent, half_width: int, half_height: int) -> Extent {
        (
            clamp_int(e.0 - 1, -half_width, half_width),
            clamp_int(e.1 - 1, -half_height, half_height),
            clamp_int(e.2 + 1, -half_width, half_width),
            clamp_int(e.3 + 1, -half_height, half_height),
        )
    }

    /// The box lies inside the viewport and is not inverted.
    pub open spec fn within(self, half_width: int, half_height: int) -> bool {
        &&& -half_width <= self.min_x <= self.max_x <= half_width
        &&& -half_height <= self.min_y <= self.max_y <= half_height
    }

    /// The rectangle `[min_x, min_y, max_x, max_y]` lies inside the viewport
    /// and is not inverted.
    pub open spec fn rect_within(rect: Seq<int>, half_width: int, half_height: int) -> bool {
        &&& -half_width <= rect[0] <= rect[2] <= half_width
        &&& -half_height <= rect[1] <= rect[3] <= half_height
    }

    /// `[min_x, min_y, max_x, max_y]`.
    pub open spec fn as_seq(self) -> Seq<i32> {
        seq![self.min_x, self.min_y, self.max_x, self.max_y]
    }

    /// Reduces the projections of the grid's eight corners to the rectangle
    /// to raymarch: their hull, padded by one pixel and clamped to a viewport
    /// of `width` x `height` pixels centred on the origin. Corners behind the
    /// camera are passed as `None`; with all eight absent there is no box.
    pub fn around(
        points: &[Option<P2i>; 8],
        width: u32,
        height: u32,
    ) -> (bounds: Option<BoundingBox>)
        ensures
            bounds is None <==> forall|i: int| 0 <= i < 8 ==> #[trigger] points@[i] is None,
            match extent_of(points@) {
                None => bounds is None,
                Some(e) => bounds matches Some(b) && b.extent() == BoundingBox::padded(
                    e,
                    (width / 2) as int,
                    (height / 2) as int,
                ),
            },
            bounds matches Some(b) ==> b.within((width / 2) as int, (height / 2) as int),
    {
        let half_width: i64 = (width / 2) as i64;
        let half_height: i64 = (height / 2) as i64;
        let mut found: bool = false;
        let mut min_x: i64 = 0;
        let mut min_y: i64 = 0;
        let mut max_x: i64 = 0;
        let mut max_y: i64 = 0;
        let mut n: usize = 0;
        while n < 8
            invariant
                n <= 8,
                points@.len() == 8,
                found == (extent_of(points@.take(n as int)) is Some),
                found ==> extent_of(points@.take(n as int)) == Some(
                    (min_x as int, min_y as int, max_x as int, max_y as int),
                ),
                i32::MIN <= min_x <= max_x <= i32::MAX,
                i32::MIN <= min_y <= max_y <= i32::MAX,
            decreases 8 - n,
        {
            proof {
                let next = points@.take(n as int + 1);
                assert(next.drop_last() == points@.take(n as int));
                assert(next.last() == points@[n as int]);
            }
            match points[n] {
                None => {},
                Some(p) => {
                    let x: i64 = p[0] as i64;
                    let y: i64 = p[1] as i64;
                    if !found {
                        min_x = x;
                        min_y = y;
                        max_x = x;
                        max_y = y;
                        found = true;
                    } else {
                        if x < min_x {
                            min_x = x;
                        }
                        if y < min_y {
                            min_y = y;
                        }
                        if x > max_x {
                            max_x = x;
                        }
                        if y > max_y {
                            max_y = y;
                        }
                    }
                },
            }
            n = n + 1;
        }
        proof {
            assert(points@.take(8) == points@);
            lemma_extent_is_hull(points@);
        }
        if !found {
            return None;
        }
        Some(
            BoundingBox {
                min_x: clamp_to(min_x - 1, half_width) as i32,
                min_y: clamp_to(min_y - 1, half_height) as i32,
                max_x: clamp_to(max_x + 1, half_width) as i32,
                max_y: clamp_to(max_y + 1, half_height) as i32,
            },
        )
    }

    /// `[min_x, min_y, max_x, max_y]`, the layout the dispatch planner and the
    /// uniform record take.
    pub fn to_array(&self) -> (a: [i32; 4])
        ensures
            a@ == self.as_seq(),
    {
        [self.min_x, self.min_y, self.max_x, self.max_y]
    }
}

/// `v` limited to `[-half, half]`.
fn clamp_to(v: i64, half: i64) -> (r: i64)
    requires
        0 <= half,
    ensures
        r == clamp_int(v as int, -half, half as int),
{
    if v < -half {
        -half
    } else if v > half {
        half
    } else {
        v
    }
}

} // verus!
