//! One frame at a time: the time step, the buffer schedule and the plan
//! that the GPU passes carry out.

use vstd::prelude::*;

use crate::bounding_box::{extent_of, BoundingBox};
use crate::bridge::{
    ceil_div, launches, lemma_ceil_div_is_least_cover, Bridge, DispatchDims, RAYMARCH_GROUP_X,
    RAYMARCH_GROUP_Y,
};
use crate::traits::Update;
use crate::voxel_grid::{P2i, VoxelDims};

verus! {

/// Longest time step, in nanoseconds, for which the explicit diffusion update
/// stays stable: just under a sixth of a second.
pub const STABILITY_CAP_NANOS: u32 = 166_666_600;

/// The time step used for a frame that took `elapsed` nanoseconds.
pub open spec fn clamped_timestep(elapsed: int) -> int {
    if elapsed > STABILITY_CAP_NANOS {
        STABILITY_CAP_NANOS as int
    } else {
        elapsed
    }
}

/// Limits the time since the previous frame to the stability cap.
pub fn clamp_timestep(elapsed_nanos: u64) -> (dt: u32)
    ensures
        dt == clamped_timestep(elapsed_nanos as int),
        dt <= STABILITY_CAP_NANOS,
{
    if elapsed_nanos > STABILITY_CAP_NANOS as u64 {
        STABILITY_CAP_NANOS
    } else {
        elapsed_nanos as u32
    }
}

/// The compute stage that runs ahead of the raymarch pass.
#[derive(Clone, Copy, Debug, PartialEq, Eq, Structural)]
pub enum Pass {
    /// Seed the field; runs on the first frame only.
    Init,
    /// One diffusion step.
    Diffuse,
}

/// Which of the two field buffers is read, and whether the field has been
/// seeded yet.
#[derive(Clone, Copy, Debug, PartialEq, Eq, Structural)]
pub struct BufferSchedule {
    pub init_complete: bool,
    pub read_ping: bool,
}

impl BufferSchedule {
    /// Before the first frame: nothing seeded, the ping buffer is the one
    /// read.
    pub open spec fn initial() -> BufferSchedule {
        BufferSchedule { init_complete: false, read_ping: true }
    }

    /// The schedule one frame later. The first frame seeds the field and
    /// leaves the flag alone; every later frame flips it once.
    pub open spec fn next(self) -> BufferSchedule {
        if self.init_complete {
            BufferSchedule { init_complete: true, read_ping: !self.read_ping }
        } else {
            BufferSchedule { init_complete: true, read_ping: self.read_ping }
        }
    }

    /// The stage that runs on the frame that starts from this schedule.
    pub open spec fn pass(self) -> Pass {
        if self.init_complete {
            Pass::Diffuse
        } else {
            Pass::Init
        }
    }

    /// The schedule `frames` frames later.
    pub open spec fn after(self, frames: nat) -> BufferSchedule
        decreases frames,
    {
        if frames == 0 {
            self
        } else {
            self.after((frames - 1) as nat).next()
        }
    }

    pub fn new() -> (schedule: BufferSchedule)
        ensures
            schedule == BufferSchedule::initial(),
    {
        BufferSchedule { init_complete: false, read_ping: true }
    }

    /// Moves to the next frame and says which stage it runs.
    pub fn advance(&mut self) -> (pass: Pass)
        ensures
            *final(self) == old(self).next(),
            pass == old(self).pass(),
    {
        if self.init_complete {
            self.read_ping = !self.read_ping;
            Pass::Diffuse
        } else {
            self.init_complete = true;
            Pass::Init
        }
    }
}

/// From the first frame on the read flag is `true` on odd frames and `false`
/// on even ones: it holds through the seeding frame and then flips exactly
/// once per frame.
pub proof fn lemma_read_flag_alternates(frames: nat)
    requires
        frames >= 1,
    ensures
        BufferSchedule::initial().after(frames).init_complete,
        BufferSchedule::initial().after(frames).read_ping == (frames % 2 == 1),
        BufferSchedule::initial().after(frames + 1).read_ping != BufferSchedule::initial().after(
            frames,
        ).read_ping,
    decreases frames,
{
    reveal_with_fuel(BufferSchedule::after, 3);
    if frames > 1 {
        lemma_read_flag_alternates((frames - 1) as nat);
    }
}

/// What acquiring the presentation target reported.
#[derive(Clone, Copy, Debug, PartialEq, Eq, Structural)]
pub enum SurfaceOutcome {
    /// A target that matches the surface.
    Ready,
    /// A target that can be drawn to but no longer matches the surface.
    Suboptimal,
    /// No target within the time allowed.
    Timeout,
    /// The window is hidden.
    Occluded,
    /// The surface has changed under its configuration.
    Outdated,
    /// The surface is gone.
    Lost,
    /// Acquiring raised a validation error.
    Validation,
}

/// What the frame loop does about a `SurfaceOutcome`.
#[derive(Clone, Copy, Debug, PartialEq, Eq, Structural)]
pub enum Recovery {
    /// Run the frame.
    Draw,
    /// Drop this frame and try again on the next.
    Skip,
    /// Drop this frame; the surface has to be configured anew before the
    /// next.
    ReconfigureAndSkip,
}

/// A frame is drawn only on a target that was acquired. Every failure drops
/// the frame, to be tried again on the next and never within the same one;
/// a surface that changed or was lost is configured anew in between.
pub open spec fn recovery_for(outcome: SurfaceOutcome) -> Recovery {
    match outcome {
        SurfaceOutcome::Ready | SurfaceOutcome::Suboptimal => Recovery::Draw,
        SurfaceOutcome::Outdated | SurfaceOutcome::Lost => Recovery::ReconfigureAndSkip,
        SurfaceOutcome::Timeout | SurfaceOutcome::Occluded | SurfaceOutcome::Validation =>
            Recovery::Skip,
    }
}

/// Decides what to do with this frame given what acquiring the presentation
/// target reported.
pub fn recover(outcome: SurfaceOutcome) -> (recovery: Recovery)
    ensures
        recovery == recovery_for(outcome),
{
    match outcome {
        SurfaceOutcome::Ready => Recovery::Draw,
        SurfaceOutcome::Suboptimal => Recovery::Draw,
        SurfaceOutcome::Timeout => Recovery::Skip,
        SurfaceOutcome::Occluded => Recovery::Skip,
        SurfaceOutcome::Outdated => Recovery::ReconfigureAndSkip,
        SurfaceOutcome::Lost => Recovery::ReconfigureAndSkip,
        SurfaceOutcome::Validation => Recovery::Skip,
    }
}

/// Everything the GPU side needs to run one frame.
#[derive(Clone, Copy, Debug)]
pub struct FramePlan {
    /// Time step of the update, in nanoseconds, already clamped.
    pub timestep_nanos: u32,
    /// Stage to run ahead of the raymarch pass.
    pub pass: Pass,
    /// Buffer role selector handed to the kernels.
    pub read_ping: bool,
    /// Groups of the seeding or diffusion stage.
    pub laplacian_dispatch: DispatchDims,
    /// Screen rectangle `[min_x, min_y, max_x, max_y]` to raymarch; all zero
    /// when the grid is out of view.
    pub bounding_box: [i32; 4],
    /// Groups of the raymarch pass along screen x and y, or `None` to skip
    /// the pass.
    pub raymarch_groups: Option<(u32, u32)>,
}

/// Sequences the frames: owns the dispatch plan, the buffer schedule and the
/// viewport, and remembers the last box that was in view.
#[derive(Debug)]
pub struct FrameOrchestrator {
    pub bridge: Bridge,
    pub dims: VoxelDims,
    pub width: u32,
    pub height: u32,
    pub schedule: BufferSchedule,
    pub last_box: Option<BoundingBox>,
}

impl FrameOrchestrator {
    /// Whether this is the state before the first frame of a run on a grid
    /// of shape `dims` drawn on a `width` x `height` surface: unseeded,
    /// reading ping, with the raymarch pass covering the whole surface.
    pub open spec fn starts(self, dims: VoxelDims, width: u32, height: u32) -> bool {
        &&& self.bridge.planned_for(dims, width, height)
        &&& self.dims == dims
        &&& self.width == width
        &&& self.height == height
        &&& self.schedule == BufferSchedule::initial()
        &&& self.last_box is None
    }

    /// The state before the first frame, with a given seed.
    pub fn with_seed(
        dims: VoxelDims,
        width: u32,
        height: u32,
        seed: u32,
    ) -> (orchestrator: FrameOrchestrator)
        ensures
            orchestrator.starts(dims, width, height),
            orchestrator.bridge.rand_seed == seed,
    {
        FrameOrchestrator {
            bridge: Bridge::with_seed(&dims, width, height, seed),
            dims,
            width,
            height,
            schedule: BufferSchedule::new(),
            last_box: None,
        }
    }

    /// The state before the first frame, with a seed drawn for this run.
    pub fn new(dims: VoxelDims, width: u32, height: u32) -> (orchestrator: FrameOrchestrator)
        ensures
            orchestrator.starts(dims, width, height),
    {
        FrameOrchestrator {
            bridge: Bridge::new(&dims, width, height),
            dims,
            width,
            height,
            schedule: BufferSchedule::new(),
            last_box: None,
        }
    }

    /// Whether a surface of `width` x `height` differs from the current one
    /// in a way that calls for reconfiguring: the width differs, or the height
    /// differs and neither is zero.
    pub open spec fn resize_applies(self, width: u32, height: u32) -> bool {
        width != self.width || (height != self.height && width > 0 && height > 0)
    }

    /// Takes note of a new surface size. When it applies, the viewport is
    /// replaced and the raymarch pass covers the whole surface again until
    /// the next frame's box is known.
    pub fn resize(&mut self, width: u32, height: u32) -> (applied: bool)
        ensures
            applied == old(self).resize_applies(width, height),
            applied ==> {
                &&& final(self).width == width
                &&& final(self).height == height
                &&& final(self).bridge.planned_for(old(self).dims, width, height)
            },
            !applied ==> {
                &&& final(self).width == old(self).width
                &&& final(self).height == old(self).height
                &&& final(self).bridge.raymarch_dispatch == old(self).bridge.raymarch_dispatch
                &&& final(self).bridge.laplacian_dispatch == old(self).bridge.laplacian_dispatch
            },
            final(self).bridge.rand_seed == old(self).bridge.rand_seed,
            final(self).dims == old(self).dims,
            final(self).schedule == old(self).schedule,
            final(self).last_box == old(self).last_box,
    {
        if width != self.width || (height != self.height && width > 0 && height > 0) {
            self.width = width;
            self.height = height;
            self.bridge.on_resize(&self.dims, &width, &height);
            true
        } else {
            false
        }
    }

    /// The rectangle of a frame whose corners project to `corners`: the
    /// padded hull of those in front of the camera, all zero if there is none.
    pub open spec fn rect_for(self, corners: Seq<Option<P2i>>) -> Seq<int> {
        match extent_of(corners) {
            None => seq![0int, 0int, 0int, 0int],
            Some(e) => {
                let p = BoundingBox::padded(e, (self.width / 2) as int, (self.height / 2) as int);
                seq![p.0, p.1, p.2, p.3]
            },
        }
    }

    /// The plan of the frame that starts from this state, `elapsed` nanoseconds
    /// after the previous one, with the grid's corners projected to `corners`.
    pub open spec fn plan_for(self, elapsed: int, corners: Seq<Option<P2i>>) -> FramePlanView {
        let rect = self.rect_for(corners);
        FramePlanView {
            timestep_nanos: clamped_timestep(elapsed),
            pass: self.schedule.pass(),
            read_ping: self.schedule.next().read_ping,
            laplacian_dispatch: self.bridge.laplacian_dispatch@,
            bounding_box: rect,
            raymarch_groups: if rect[2] <= rect[0] || rect[3] <= rect[1] {
                None
            } else {
                Some(
                    (
                        ceil_div(rect[2] - rect[0], RAYMARCH_GROUP_X as int),
                        ceil_div(rect[3] - rect[1], RAYMARCH_GROUP_Y as int),
                    ),
                )
            },
        }
    }

    /// Prepares one frame: clamps the time step, moves the buffer schedule on,
    /// recomputes the bounding box from this frame's projected corners and
    /// sizes the raymarch dispatch from it. The caller then runs the planned
    /// stage, the raymarch pass unless it is skipped, and presents.
    pub fn begin_frame(
        &mut self,
        elapsed_nanos: u64,
        corners: &[Option<P2i>; 8],
    ) -> (plan: FramePlan)
        ensures
            plan@ == old(self).plan_for(elapsed_nanos as int, corners@),
            final(self).schedule == old(self).schedule.next(),
            match extent_of(corners@) {
                None => final(self).last_box == old(self).last_box,
                Some(e) => final(self).last_box matches Some(b) && b.extent()
                    == BoundingBox::padded(
                        e,
                        (old(self).width / 2) as int,
                        (old(self).height / 2) as int,
                    ),
            },
            match plan.raymarch_groups {
                None => launches(final(self).bridge.raymarch_dispatch, 0, 0, 1),
                Some(g) => {
                    &&& launches(final(self).bridge.raymarch_dispatch, g.0 as int, g.1 as int, 1)
                    &&& g.0 >= 1
                    &&& g.1 >= 1
                },
            },
            final(self).bridge.laplacian_dispatch == old(self).bridge.laplacian_dispatch,
            final(self).bridge.rand_seed == old(self).bridge.rand_seed,
            final(self).dims == old(self).dims,
            final(self).width == old(self).width,
            final(self).height == old(self).height,
            BoundingBox::rect_within(
                plan@.bounding_box,
                (old(self).width / 2) as int,
                (old(self).height / 2) as int,
            ),
            (forall|i: int| 0 <= i < 8 ==> #[trigger] corners@[i] is None)
                ==> plan.raymarch_groups is None,
    {
        let timestep_nanos = clamp_timestep(elapsed_nanos);
        let pass = self.schedule.advance();
        let bounds = BoundingBox::around(corners, self.width, self.height);
        let bounding_box: [i32; 4] = match bounds {
            None => [0, 0, 0, 0],
            Some(b) => {
                self.last_box = Some(b);
                b.to_array()
            },
        };
        let groups = self.bridge.update_raygroup_ceil(bounding_box);
        let raymarch_groups: Option<(u32, u32)> = if self.bridge.raymarch_skipped() {
            None
        } else {
            Some(groups)
        };
        proof {
            let w = bounding_box@[2] - bounding_box@[0];
            let h = bounding_box@[3] - bounding_box@[1];
            if w > 0 && h > 0 {
                lemma_ceil_div_is_least_cover(w, RAYMARCH_GROUP_X as int);
                lemma_ceil_div_is_least_cover(h, RAYMARCH_GROUP_Y as int);
            }
            assert(Seq::new(4, |i: int| bounding_box@[i] as int) =~= old(self).rect_for(corners@));
        }
        FramePlan {
            timestep_nanos,
            pass,
            read_ping: self.schedule.read_ping,
            laplacian_dispatch: self.bridge.laplacian_dispatch,
            bounding_box,
            raymarch_groups,
        }
    }
}

/// A frame plan as plain values.
pub struct FramePlanView {
    pub timestep_nanos: int,
    pub pass: Pass,
    pub read_ping: bool,
    pub laplacian_dispatch: Seq<u32>,
    pub bounding_box: Seq<int>,
    pub raymarch_groups: Option<(int, int)>,
}

impl View for FramePlan {
    type V = FramePlanView;

    open spec fn view(&self) -> FramePlanView {
        FramePlanView {
            timestep_nanos: self.timestep_nanos as int,
            pass: self.pass,
            read_ping: self.read_ping,
            laplacian_dispatch: self.laplacian_dispatch@,
            bounding_box: Seq::new(4, |i: int| self.bounding_box@[i] as int),
            raymarch_groups: match self.raymarch_groups {
                None => None,
                Some(g) => Some((g.0 as int, g.1 as int)),
            },
        }
    }
}

} // verus!
