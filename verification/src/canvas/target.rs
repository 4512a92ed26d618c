//! The producer side of presenting a canvas without copying: which frames are presented
//! as an external image, and what becomes of the pipeline behind it.
use vstd::prelude::*;

use crate::canvas::present;
use crate::canvas::present::{Shared, SharedSlot, MAX_QUEUED};

verus! {

/// Number of full-viewport-clear frames a canvas must produce before it is presented as
/// an external image. Gates out static canvases, for which readback is already correct
/// and cheap, and confines the one-frame content-less bootstrap to a genuine animation.
pub const ELIGIBLE_FRAMES_BEFORE_EXTERNAL: u64 = 2;

/// External presents tolerated while the consumer has not yet attached.
pub const MAX_PENDING_ATTACH_PRESENTS: u32 = 60;

/// A successful flush at or above this duration marks its buffer size as stall-prone.
pub const FLUSH_BLACKLIST_MS: u64 = 1000;

/// Parked pipelines kept per thread.
pub const PIPELINE_POOL_MAX: usize = 2;

/// Retired readback presentation buffers kept per draw target.
pub const PRESENT_BUFFER_RING: usize = 3;

/// A same-size presentation pipeline parked when its canvas died, awaiting adoption by a
/// replacement canvas.
#[derive(Clone, Copy, Debug, PartialEq, Eq, Structural)]
pub struct ParkedPipeline {
    pub width: i32,
    pub height: i32,
    /// The number of the on-screen surface.
    pub onscreen: u64,
    pub window: u64,
}

/// A pipeline that is given up. The surface, if there is one, has to be destroyed before
/// the window is retired: the consumer frees the window that the surface draws into.
#[derive(Clone, Copy, Debug, PartialEq, Eq, Structural)]
pub struct Teardown {
    pub onscreen: Option<u64>,
    pub window: u64,
}

/// What the canvases of one thread share.
#[derive(Debug)]
pub struct CanvasThread {
    /// Parked pipelines available for adoption, oldest first.
    pool: Vec<ParkedPipeline>,
    /// Buffer sizes whose fresh pipelines stalled.
    stalling: Vec<(i32, i32)>,
}

pub open spec fn fits(parked: ParkedPipeline, width: i32, height: i32) -> bool {
    parked.width == width && parked.height == height
}

/// The first parked pipeline of a size, or the number of them if none has it.
pub open spec fn parked_at(pool: Seq<ParkedPipeline>, width: i32, height: i32) -> int
    decreases pool.len(),
{
    if pool.len() == 0 {
        0
    } else {
        let before = parked_at(pool.drop_last(), width, height);
        if before < pool.len() - 1 || fits(pool.last(), width, height) {
            before
        } else {
            pool.len() as int
        }
    }
}

proof fn lemma_parked_at(pool: Seq<ParkedPipeline>, width: i32, height: i32)
    ensures
        0 <= parked_at(pool, width, height) <= pool.len(),
        parked_at(pool, width, height) < pool.len() ==> fits(
            pool[parked_at(pool, width, height)],
            width,
            height,
        ),
        forall|i: int|
            0 <= i < parked_at(pool, width, height) ==> !fits(#[trigger] pool[i], width, height),
    decreases pool.len(),
{
    if pool.len() > 0 {
        lemma_parked_at(pool.drop_last(), width, height);
        assert forall|i: int| 0 <= i < parked_at(pool, width, height) implies !fits(
            #[trigger] pool[i],
            width,
            height,
        ) by {
            if i < pool.len() - 1 {
                assert(pool.drop_last()[i] == pool[i]);
            }
        }
    }
}

impl CanvasThread {
    pub closed spec fn pool(&self) -> Seq<ParkedPipeline> {
        self.pool@
    }

    pub closed spec fn stalling(&self) -> Seq<(i32, i32)> {
        self.stalling@
    }

    pub closed spec fn wf(&self) -> bool {
        self.pool@.len() <= PIPELINE_POOL_MAX
    }

    /// No more pipelines are parked than are kept.
    pub proof fn law_pool_is_bounded(&self)
        requires
            self.wf(),
        ensures
            self.pool().len() <= PIPELINE_POOL_MAX,
    {
    }

    pub fn new() -> (r: CanvasThread)
        ensures
            r.wf(),
            r.pool() == Seq::<ParkedPipeline>::empty(),
            r.stalling() == Seq::<(i32, i32)>::empty(),
    {
        CanvasThread { pool: Vec::new(), stalling: Vec::new() }
    }

    /// Whether fresh pipelines of a size stall.
    pub fn size_blacklisted(&self, width: i32, height: i32) -> (r: bool)
        ensures
            r == self.stalling().contains((width, height)),
    {
        let mut i: usize = 0;
        while i < self.stalling.len()
            invariant
                i <= self.stalling@.len(),
                forall|j: int| 0 <= j < i ==> #[trigger] self.stalling@[j] != (width, height),
            decreases self.stalling@.len() - i,
        {
            if self.stalling[i].0 == width && self.stalling[i].1 == height {
                assert(self.stalling@[i as int] == (width, height));
                return true;
            }
            i += 1;
        }
        false
    }

    /// Note that fresh pipelines of a size stall.
    pub fn blacklist_size(&mut self, width: i32, height: i32)
        ensures
            final(self).pool() == old(self).pool(),
            final(self).wf() == old(self).wf(),
            final(self).stalling() == if old(self).stalling().contains((width, height)) {
                old(self).stalling()
            } else {
                old(self).stalling().push((width, height))
            },
    {
        if !self.size_blacklisted(width, height) {
            self.stalling.push((width, height));
        }
    }

    /// Take a parked pipeline of a size.
    pub fn pool_take(&mut self, width: i32, height: i32) -> (r: Option<ParkedPipeline>)
        requires
            old(self).wf(),
        ensures
            final(self).wf(),
            final(self).stalling() == old(self).stalling(),
            ({
                let i = parked_at(old(self).pool(), width, height);
                if i < old(self).pool().len() {
                    &&& r == Some(old(self).pool()[i])
                    &&& final(self).pool() == old(self).pool().remove(i)
                } else {
                    &&& r is None
                    &&& final(self).pool() == old(self).pool()
                }
            }),
    {
        let ghost all = self.pool@;
        proof {
            lemma_parked_at(all, width, height);
        }
        let mut i: usize = 0;
        while i < self.pool.len()
            invariant
                self.wf(),
                *self == *old(self),
                self.pool@ == all,
                i <= parked_at(all, width, height) <= all.len(),
                parked_at(all, width, height) < all.len() ==> fits(
                    all[parked_at(all, width, height)],
                    width,
                    height,
                ),
                forall|j: int|
                    0 <= j < parked_at(all, width, height) ==> !fits(
                        #[trigger] all[j],
                        width,
                        height,
                    ),
            decreases all.len() - i,
        {
            if self.pool[i].width == width && self.pool[i].height == height {
                return Some(self.pool.remove(i));
            }
            i += 1;
        }
        None
    }

    /// Park a pipeline. The oldest one makes room for it where the pool is full.
    pub fn pool_park(&mut self, parked: ParkedPipeline) -> (r: Option<Teardown>)
        requires
            old(self).wf(),
        ensures
            final(self).wf(),
            final(self).stalling() == old(self).stalling(),
            if old(self).pool().len() == PIPELINE_POOL_MAX {
                &&& r == Some(
                    Teardown {
                        onscreen: Some(old(self).pool()[0].onscreen),
                        window: old(self).pool()[0].window,
                    },
                )
                &&& final(self).pool() == old(self).pool().remove(0).push(parked)
            } else {
                &&& r is None
                &&& final(self).pool() == old(self).pool().push(parked)
            },
    {
        let mut r: Option<Teardown> = None;
        if self.pool.len() == PIPELINE_POOL_MAX {
            let evicted: ParkedPipeline = self.pool.remove(0);
            r = Some(Teardown { onscreen: Some(evicted.onscreen), window: evicted.window });
        }
        self.pool.push(parked);
        r
    }
}

/// The state of presenting one canvas as an external image.
#[derive(Clone, Copy, Debug, PartialEq, Eq, Structural)]
pub struct ZeroCopy {
    /// The handle of the slot shared with the consumer, once an image is assigned.
    pub slot: Option<u64>,
    /// The number of the surface bound to the pipeline's window.
    pub onscreen: Option<u64>,
    /// The pipeline's window, once known.
    pub window: u64,
}

/// Where a canvas stands in its current frame, and with its pipeline.
#[derive(Clone, Copy, Debug, PartialEq, Eq, Structural)]
pub struct DrawTarget {
    pub width: i32,
    pub height: i32,
    /// Whether it draws into a surface of the graphics card.
    pub gpu: bool,
    pub present: Option<ZeroCopy>,
    /// Whether the first draw operation of the current frame has been seen yet.
    pub frame_started: bool,
    /// Whether the current frame began with a full-viewport clear or opaque fill.
    pub frame_eligible: bool,
    /// Whether the current frame is drawn to the on-screen surface as well.
    pub tee_active: bool,
    /// Count of full-viewport-clear frames seen.
    pub eligible_frames: u64,
    /// External presents made while waiting for the consumer to attach.
    pub pending_attach_presents: u32,
    /// Flushes skipped because the buffer queue was full.
    pub skipped_flushes: u64,
}

/// What the first operation of a frame needs.
#[derive(Clone, Copy, Debug, PartialEq, Eq, Structural)]
pub enum FrameStart {
    /// Nothing.
    Nothing,
    /// To make a surface for the pipeline with a window.
    CreateSurface(u64),
}

/// How a frame is presented.
#[derive(Clone, Copy, Debug, PartialEq, Eq, Structural)]
pub enum PresentPlan {
    /// As an external image, without anything more to do.
    External,
    /// By reading the pixels back.
    Readback,
    /// As an external image, if flushing the surface with a number succeeds.
    Flush(u64),
}

/// The window of a pipeline, from its own slot where it is not known yet.
pub open spec fn resolved(zero_copy: ZeroCopy, slots: Map<u64, SharedSlot>) -> u64 {
    if zero_copy.window != 0 {
        zero_copy.window
    } else {
        match zero_copy.slot {
            Some(handle) => if slots.contains_key(handle) {
                slots[handle].window
            } else {
                0
            },
            None => 0,
        }
    }
}

/// The pipeline's window, resolving from the slot when the consumer created it.
pub fn resolve_window(zero_copy: &ZeroCopy, shared: &Shared) -> (r: u64)
    ensures
        r == resolved(*zero_copy, shared.slots()),
{
    if zero_copy.window != 0 {
        return zero_copy.window;
    }
    match zero_copy.slot {
        Some(handle) => match shared.slot(handle) {
            Some(slot) => slot.window,
            None => 0,
        },
        None => 0,
    }
}

/// What the pipeline of a canvas becomes when an eligible frame of an animation begins: a
/// parked one of the same size is adopted, unless fresh ones of that size stall.
pub open spec fn adopted(
    present: Option<ZeroCopy>,
    pool: Seq<ParkedPipeline>,
    stalling: Seq<(i32, i32)>,
    width: i32,
    height: i32,
) -> Option<ZeroCopy> {
    let i = parked_at(pool, width, height);
    if present is Some || stalling.contains((width, height)) || i >= pool.len() {
        present
    } else {
        Some(ZeroCopy { slot: None, onscreen: Some(pool[i].onscreen), window: pool[i].window })
    }
}

/// Whether a frame that begins with the given operation goes on towards an external
/// present.
pub open spec fn goes_external(target: DrawTarget, full_clear: bool) -> bool {
    !target.frame_started && full_clear && target.gpu && target.eligible_frames + 1
        >= ELIGIBLE_FRAMES_BEFORE_EXTERNAL
}

/// A canvas after the first operation of a frame, and the window that a surface is needed
/// for, if any. Nothing changes after the first one.
pub open spec fn begun(
    target: DrawTarget,
    full_clear: bool,
    pool: Seq<ParkedPipeline>,
    stalling: Seq<(i32, i32)>,
    slots: Map<u64, SharedSlot>,
) -> (DrawTarget, FrameStart) {
    if target.frame_started {
        (target, FrameStart::Nothing)
    } else {
        let started = DrawTarget {
            frame_started: true,
            frame_eligible: full_clear,
            tee_active: false,
            eligible_frames: if full_clear && target.gpu {
                (target.eligible_frames + 1) as u64
            } else {
                target.eligible_frames
            },
            ..target
        };
        if !goes_external(target, full_clear) {
            (started, FrameStart::Nothing)
        } else {
            match adopted(target.present, pool, stalling, target.width, target.height) {
                None => (started, FrameStart::Nothing),
                Some(zero_copy) => {
                    let window = resolved(zero_copy, slots);
                    let known = DrawTarget {
                        present: Some(ZeroCopy { window, ..zero_copy }),
                        ..started
                    };
                    if window == 0 {
                        (known, FrameStart::Nothing)
                    } else if zero_copy.onscreen is Some {
                        (DrawTarget { tee_active: true, ..known }, FrameStart::Nothing)
                    } else {
                        (known, FrameStart::CreateSurface(window))
                    }
                },
            }
        }
    }
}

/// How a frame is presented, and what the canvas then is.
pub open spec fn planned(
    target: DrawTarget,
    stalling: Seq<(i32, i32)>,
    shared: Shared,
) -> (DrawTarget, PresentPlan) {
    if target.tee_active {
        match target.present {
            Some(zero_copy) => match zero_copy.onscreen {
                Some(surface) => {
                    let window = resolved(zero_copy, shared.slots());
                    let known = DrawTarget {
                        present: Some(ZeroCopy { window, ..zero_copy }),
                        ..target
                    };
                    if window != 0 && present::depth(shared.of(window)) >= MAX_QUEUED {
                        (
                            DrawTarget {
                                skipped_flushes: (target.skipped_flushes + 1) as u64,
                                ..known
                            },
                            PresentPlan::External,
                        )
                    } else {
                        (known, PresentPlan::Flush(surface))
                    }
                },
                None => (target, PresentPlan::Readback),
            },
            None => (target, PresentPlan::Readback),
        }
    } else if !target.frame_eligible || target.eligible_frames < ELIGIBLE_FRAMES_BEFORE_EXTERNAL
        || !target.gpu {
        (target, PresentPlan::Readback)
    } else {
        match target.present {
            None => (
                target,
                if stalling.contains((target.width, target.height)) {
                    PresentPlan::Readback
                } else {
                    PresentPlan::External
                },
            ),
            Some(zero_copy) => {
                let window = resolved(zero_copy, shared.slots());
                let known = DrawTarget {
                    present: Some(ZeroCopy { window, ..zero_copy }),
                    ..target
                };
                if window == 0 {
                    let pending = (target.pending_attach_presents + 1) as u32;
                    (
                        DrawTarget { pending_attach_presents: pending, ..known },
                        if pending > MAX_PENDING_ATTACH_PRESENTS {
                            PresentPlan::Readback
                        } else {
                            PresentPlan::External
                        },
                    )
                } else {
                    (known, PresentPlan::Readback)
                }
            },
        }
    }
}

/// A canvas between two frames.
pub open spec fn reset(target: DrawTarget) -> DrawTarget {
    DrawTarget { frame_started: false, frame_eligible: false, tee_active: false, ..target }
}

impl DrawTarget {
    /// A canvas of a size, which is at least one pixel.
    pub fn new(width: u32, height: u32, gpu: bool) -> (r: DrawTarget)
        requires
            width <= i32::MAX,
            height <= i32::MAX,
        ensures
            r == (DrawTarget {
                width: if width < 1 {
                    1
                } else {
                    width as i32
                },
                height: if height < 1 {
                    1
                } else {
                    height as i32
                },
                gpu,
                present: None,
                frame_started: false,
                frame_eligible: false,
                tee_active: false,
                eligible_frames: 0,
                pending_attach_presents: 0,
                skipped_flushes: 0,
            }),
    {
        DrawTarget {
            width: if width < 1 {
                1
            } else {
                width as i32
            },
            height: if height < 1 {
                1
            } else {
                height as i32
            },
            gpu,
            present: None,
            frame_started: false,
            frame_eligible: false,
            tee_active: false,
            eligible_frames: 0,
            pending_attach_presents: 0,
            skipped_flushes: 0,
        }
    }

    /// Record the first draw operation of a frame and decide whether the frame is
    /// eligible for an external present: its first operation is a full-viewport clear or
    /// opaque fill. Queue depth is deliberately not consulted here.
    pub fn begin_frame_op(
        &mut self,
        full_clear: bool,
        thread: &mut CanvasThread,
        shared: &Shared,
    ) -> (r: FrameStart)
        requires
            old(self).eligible_frames < u64::MAX,
            old(thread).wf(),
        ensures
            (*final(self), r) == begun(
                *old(self),
                full_clear,
                old(thread).pool(),
                old(thread).stalling(),
                shared.slots(),
            ),
            final(thread).wf(),
            final(thread).stalling() == old(thread).stalling(),
            ({
                let i = parked_at(old(thread).pool(), old(self).width, old(self).height);
                final(thread).pool() == if goes_external(*old(self), full_clear) && old(
                    self,
                ).present is None && !old(thread).stalling().contains(
                    (old(self).width, old(self).height),
                ) && i < old(thread).pool().len() {
                    old(thread).pool().remove(i)
                } else {
                    old(thread).pool()
                }
            }),
    {
        if self.frame_started {
            return FrameStart::Nothing;
        }
        self.frame_started = true;
        self.frame_eligible = full_clear;
        self.tee_active = false;
        if !full_clear || !self.gpu {
            return FrameStart::Nothing;
        }
        self.eligible_frames = self.eligible_frames + 1;
        if self.eligible_frames < ELIGIBLE_FRAMES_BEFORE_EXTERNAL {
            return FrameStart::Nothing;
        }
        if self.present.is_none() {
            if thread.size_blacklisted(self.width, self.height) {
                return FrameStart::Nothing;
            }
            match thread.pool_take(self.width, self.height) {
                Some(parked) => {
                    self.present = Some(
                        ZeroCopy {
                            slot: None,
                            onscreen: Some(parked.onscreen),
                            window: parked.window,
                        },
                    );
                },
                None => {},
            }
        }
        let mut zero_copy: ZeroCopy = match self.present {
            Some(zero_copy) => zero_copy,
            None => return FrameStart::Nothing,
        };
        let window: u64 = resolve_window(&zero_copy, shared);
        zero_copy.window = window;
        self.present = Some(zero_copy);
        if window == 0 {
            return FrameStart::Nothing;
        }
        if zero_copy.onscreen.is_none() {
            return FrameStart::CreateSurface(window);
        }
        self.tee_active = true;
        FrameStart::Nothing
    }

    /// The surface that the first operation of a frame needed was made; without one the
    /// frame is not teed, and it is tried again in the next.
    pub fn surface_created(&mut self, surface: Option<u64>)
        ensures
            *final(self) == match (surface, old(self).present) {
                (Some(surface), Some(zero_copy)) => DrawTarget {
                    present: Some(ZeroCopy { onscreen: Some(surface), ..zero_copy }),
                    tee_active: true,
                    ..*old(self)
                },
                _ => *old(self),
            },
    {
        match (surface, self.present) {
            (Some(surface), Some(zero_copy)) => {
                self.present = Some(
                    ZeroCopy {
                        slot: zero_copy.slot,
                        onscreen: Some(surface),
                        window: zero_copy.window,
                    },
                );
                self.tee_active = true;
            },
            _ => {},
        }
    }

    /// A blit bypasses the on-screen surface; the frame then falls back to readback.
    pub fn begin_copy(&mut self)
        ensures
            *final(self) == (DrawTarget {
                frame_started: true,
                frame_eligible: old(self).frame_started && old(self).frame_eligible,
                tee_active: false,
                ..*old(self)
            }),
    {
        if !self.frame_started {
            self.frame_started = true;
            self.frame_eligible = false;
        }
        self.tee_active = false;
    }

    /// Decide the present mode for the frame just drawn.
    ///
    /// Once a canvas is presenting external, an eligible frame must never fall back to
    /// readback because of queue depth: the queue is only drained while the external image
    /// is sampled. A full queue instead skips the flush; the next one carries a complete
    /// newer frame.
    pub fn present_external(&mut self, thread: &CanvasThread, shared: &Shared) -> (r: PresentPlan)
        requires
            old(self).skipped_flushes < u64::MAX,
            old(self).pending_attach_presents < u32::MAX,
        ensures
            (*final(self), r) == planned(*old(self), thread.stalling(), *shared),
    {
        if self.tee_active {
            let mut zero_copy: ZeroCopy = match self.present {
                Some(zero_copy) => zero_copy,
                None => return PresentPlan::Readback,
            };
            let surface: u64 = match zero_copy.onscreen {
                Some(surface) => surface,
                None => return PresentPlan::Readback,
            };
            zero_copy.window = resolve_window(&zero_copy, shared);
            self.present = Some(zero_copy);
            if shared.in_flight(zero_copy.window) >= MAX_QUEUED {
                self.skipped_flushes = self.skipped_flushes + 1;
                return PresentPlan::External;
            }
            return PresentPlan::Flush(surface);
        }
        if !self.frame_eligible || self.eligible_frames < ELIGIBLE_FRAMES_BEFORE_EXTERNAL
            || !self.gpu {
            return PresentPlan::Readback;
        }
        let mut zero_copy: ZeroCopy = match self.present {
            Some(zero_copy) => zero_copy,
            None => {
                return if thread.size_blacklisted(self.width, self.height) {
                    PresentPlan::Readback
                } else {
                    PresentPlan::External
                };
            },
        };
        zero_copy.window = resolve_window(&zero_copy, shared);
        self.present = Some(zero_copy);
        if zero_copy.window != 0 {
            return PresentPlan::Readback;
        }
        self.pending_attach_presents = self.pending_attach_presents + 1;
        if self.pending_attach_presents > MAX_PENDING_ATTACH_PRESENTS {
            PresentPlan::Readback
        } else {
            PresentPlan::External
        }
    }

    /// A planned flush is over. Whether the frame is presented as an external image; a
    /// flush that took too long marks the size of the canvas as stall-prone.
    pub fn flushed(&self, thread: &mut CanvasThread, succeeded: bool, elapsed_ms: u64) -> (r: bool)
        ensures
            r == succeeded,
            final(thread).pool() == old(thread).pool(),
            final(thread).wf() == old(thread).wf(),
            final(thread).stalling() == if succeeded && elapsed_ms >= FLUSH_BLACKLIST_MS
                && !old(thread).stalling().contains((self.width, self.height)) {
                old(thread).stalling().push((self.width, self.height))
            } else {
                old(thread).stalling()
            },
    {
        if succeeded && elapsed_ms >= FLUSH_BLACKLIST_MS {
            thread.blacklist_size(self.width, self.height);
        }
        succeeded
    }

    /// The frame was presented; the next one begins afresh.
    pub fn end_frame(&mut self)
        ensures
            *final(self) == reset(*old(self)),
    {
        self.frame_started = false;
        self.frame_eligible = false;
        self.tee_active = false;
    }

    /// An external image was assigned to the canvas. Only a canvas on the graphics card
    /// can use it, and only the first one counts. An adopted pipeline publishes its window.
    pub fn set_external_image_id(&mut self, id: u64, shared: &mut Shared)
        requires
            old(shared).wf(),
            old(shared).issued() < u64::MAX,
        ensures
            final(shared).wf(),
            ({
                let assigned = old(self).present is Some && (old(self).present->0).slot is Some;
                let window = match old(self).present {
                    Some(zero_copy) => zero_copy.window,
                    None => 0,
                };
                let handle = old(shared).issued();
                if !old(self).gpu || assigned {
                    &&& *final(self) == *old(self)
                    &&& *final(shared) == *old(shared)
                } else {
                    &&& *final(self) == (DrawTarget {
                        present: Some(
                            match old(self).present {
                                Some(zero_copy) => ZeroCopy { slot: Some(handle), ..zero_copy },
                                None => ZeroCopy { slot: Some(handle), onscreen: None, window: 0 },
                            },
                        ),
                        ..*old(self)
                    })
                    &&& present::is_registered(
                        *old(shared),
                        *final(shared),
                        id,
                        SharedSlot {
                            width: old(self).width,
                            height: old(self).height,
                            window,
                            dead: false,
                        },
                        handle,
                    )
                }
            }),
    {
        if !self.gpu {
            return;
        }
        match self.present {
            Some(zero_copy) => {
                if zero_copy.slot.is_some() {
                    return;
                }
                let ghost before = shared.slots();
                let handle: u64 = shared.register_slot(id, self.width, self.height);
                if zero_copy.window != 0 {
                    shared.publish_window(handle, zero_copy.window);
                }
                assert(shared.slots() =~= before.insert(
                    handle,
                    SharedSlot {
                        width: self.width,
                        height: self.height,
                        window: zero_copy.window,
                        dead: false,
                    },
                ));
                self.present = Some(
                    ZeroCopy {
                        slot: Some(handle),
                        onscreen: zero_copy.onscreen,
                        window: zero_copy.window,
                    },
                );
            },
            None => {
                let handle: u64 = shared.register_slot(id, self.width, self.height);
                self.present = Some(ZeroCopy { slot: Some(handle), onscreen: None, window: 0 });
            },
        }
    }

    /// The canvas is gone. Its own slot is dead, whatever its image is shown from by now; its pipeline is parked for a
    /// replacement, or given up where its size stalls or it has no surface. The result is
    /// the pipeline that is to be torn down, if any.
    pub fn close(self, thread: &mut CanvasThread, shared: &mut Shared) -> (r: Option<Teardown>)
        requires
            old(thread).wf(),
            old(shared).wf(),
        ensures
            final(thread).wf(),
            final(shared).wf(),
            final(thread).stalling() == old(thread).stalling(),
            final(shared).counters() == old(shared).counters(),
            final(shared).registry() == old(shared).registry(),
            final(shared).issued() == old(shared).issued(),
            final(shared).retired() == old(shared).retired(),
            match self.present {
                None => {
                    &&& r is None
                    &&& final(thread).pool() == old(thread).pool()
                    &&& final(shared).slots() == old(shared).slots()
                },
                Some(zero_copy) => {
                    let window = resolved(zero_copy, old(shared).slots());
                    &&& final(shared).slots() == match zero_copy.slot {
                        Some(handle) => present::bereft(old(shared).slots(), handle),
                        None => old(shared).slots(),
                    }
                    &&& if window == 0 {
                        r is None && final(thread).pool() == old(thread).pool()
                    } else if zero_copy.onscreen is Some && !old(thread).stalling().contains(
                        (self.width, self.height),
                    ) {
                        is_parked(
                            r,
                            old(thread).pool(),
                            final(thread).pool(),
                            ParkedPipeline {
                                width: self.width,
                                height: self.height,
                                onscreen: zero_copy.onscreen->0,
                                window,
                            },
                        )
                    } else {
                        &&& r == Some(Teardown { onscreen: zero_copy.onscreen, window })
                        &&& final(thread).pool() == old(thread).pool()
                    }
                },
            },
    {
        let zero_copy: ZeroCopy = match self.present {
            Some(zero_copy) => zero_copy,
            None => return None,
        };
        let window: u64 = resolve_window(&zero_copy, shared);
        match zero_copy.slot {
            Some(handle) => shared.mark_dead(handle),
            None => {},
        }
        if window == 0 {
            return None;
        }
        match zero_copy.onscreen {
            Some(onscreen) => {
                if !thread.size_blacklisted(self.width, self.height) {
                    return thread.pool_park(
                        ParkedPipeline {
                            width: self.width,
                            height: self.height,
                            onscreen,
                            window,
                        },
                    );
                }
                Some(Teardown { onscreen: Some(onscreen), window })
            },
            None => Some(Teardown { onscreen: None, window }),
        }
    }
}

/// Whether a pipeline was parked; the oldest one is torn down where the pool was full.
pub open spec fn is_parked(
    r: Option<Teardown>,
    before: Seq<ParkedPipeline>,
    after: Seq<ParkedPipeline>,
    parked: ParkedPipeline,
) -> bool {
    if before.len() == PIPELINE_POOL_MAX {
        &&& r == Some(
            Teardown { onscreen: Some(before[0].onscreen), window: before[0].window },
        )
        &&& after == before.remove(0).push(parked)
    } else {
        &&& r is None
        &&& after == before.push(parked)
    }
}

/// An eligible frame that is drawn to the on-screen surface is never read back because of
/// queue depth: it is flushed, or, where the queue is full, shown without a flush.
pub proof fn law_queue_depth_never_reads_back(
    target: DrawTarget,
    stalling: Seq<(i32, i32)>,
    shared: Shared,
)
    requires
        target.tee_active,
        target.present is Some,
        (target.present->0).onscreen is Some,
    ensures
        planned(target, stalling, shared).1 != PresentPlan::Readback,
        planned(target, stalling, shared).1 == PresentPlan::External <==> resolved(
            target.present->0,
            shared.slots(),
        ) != 0 && present::depth(shared.of(resolved(target.present->0, shared.slots())))
            >= MAX_QUEUED,
{
}

/// A frame that does not begin with a full clear is read back, and so is every frame of
/// a canvas that is not on the graphics card.
pub proof fn law_incremental_frames_are_read_back(
    target: DrawTarget,
    full_clear: bool,
    pool: Seq<ParkedPipeline>,
    stalling: Seq<(i32, i32)>,
    shared: Shared,
)
    requires
        !target.frame_started,
        !full_clear || !target.gpu,
    ensures
        planned(begun(target, full_clear, pool, stalling, shared.slots()).0, stalling, shared).1
            == PresentPlan::Readback,
{
}

/// A canvas whose first frame clears everything is still read back: only an animation is
/// presented as an external image.
pub proof fn law_first_frame_is_read_back(
    target: DrawTarget,
    full_clear: bool,
    pool: Seq<ParkedPipeline>,
    stalling: Seq<(i32, i32)>,
    shared: Shared,
)
    requires
        !target.frame_started,
        target.eligible_frames == 0,
    ensures
        planned(begun(target, full_clear, pool, stalling, shared.slots()).0, stalling, shared).1
            == PresentPlan::Readback,
{
}

/// A presentation buffer that was handed out: its number and its length.
#[derive(Clone, Copy, Debug, PartialEq, Eq, Structural)]
pub struct RingBuffer {
    pub id: u64,
    pub len: usize,
}

/// Retired readback presentation buffers, kept so that an allocation can be reclaimed
/// once nobody else holds it.
#[derive(Debug)]
pub struct PresentRing {
    buffers: Vec<RingBuffer>,
}

/// Whether a buffer can be reclaimed: it has the right length, and is held by no one else.
pub open spec fn reclaimable(buffer: RingBuffer, released: Seq<u64>, len: usize) -> bool {
    buffer.len == len && released.contains(buffer.id)
}

/// The first buffer that can be reclaimed, or the number of them if none can.
pub open spec fn reclaimed_at(buffers: Seq<RingBuffer>, released: Seq<u64>, len: usize) -> int
    decreases buffers.len(),
{
    if buffers.len() == 0 {
        0
    } else {
        let before = reclaimed_at(buffers.drop_last(), released, len);
        if before < buffers.len() - 1 || reclaimable(buffers.last(), released, len) {
            before
        } else {
            buffers.len() as int
        }
    }
}

proof fn lemma_reclaimed_at(buffers: Seq<RingBuffer>, released: Seq<u64>, len: usize)
    ensures
        0 <= reclaimed_at(buffers, released, len) <= buffers.len(),
        reclaimed_at(buffers, released, len) < buffers.len() ==> reclaimable(
            buffers[reclaimed_at(buffers, released, len)],
            released,
            len,
        ),
        forall|i: int|
            0 <= i < reclaimed_at(buffers, released, len) ==> !reclaimable(
                #[trigger] buffers[i],
                released,
                len,
            ),
    decreases buffers.len(),
{
    if buffers.len() > 0 {
        lemma_reclaimed_at(buffers.drop_last(), released, len);
        assert forall|i: int| 0 <= i < reclaimed_at(buffers, released, len) implies !reclaimable(
            #[trigger] buffers[i],
            released,
            len,
        ) by {
            if i < buffers.len() - 1 {
                assert(buffers.drop_last()[i] == buffers[i]);
            }
        }
    }
}

impl PresentRing {
    pub closed spec fn view(&self) -> Seq<RingBuffer> {
        self.buffers@
    }

    pub fn new() -> (r: PresentRing)
        ensures
            r@ == Seq::<RingBuffer>::empty(),
    {
        PresentRing { buffers: Vec::new() }
    }

    /// Take a buffer of a length out that is held by no one else. The last buffer takes
    /// its place.
    pub fn reclaim(&mut self, released: &Vec<u64>, len: usize) -> (r: Option<u64>)
        ensures
            ({
                let i = reclaimed_at(old(self)@, released@, len);
                if i < old(self)@.len() {
                    &&& r == Some(old(self)@[i].id)
                    &&& final(self)@ == old(self)@.update(i, old(self)@.last()).drop_last()
                } else {
                    &&& r is None
                    &&& final(self)@ == old(self)@
                }
            }),
    {
        let ghost all = self.buffers@;
        proof {
            lemma_reclaimed_at(all, released@, len);
        }
        let mut i: usize = 0;
        while i < self.buffers.len()
            invariant
                self.buffers@ == all,
                all == old(self)@,
                i <= reclaimed_at(all, released@, len) <= all.len(),
                reclaimed_at(all, released@, len) < all.len() ==> reclaimable(
                    all[reclaimed_at(all, released@, len)],
                    released@,
                    len,
                ),
                forall|j: int|
                    0 <= j < reclaimed_at(all, released@, len) ==> !reclaimable(
                        #[trigger] all[j],
                        released@,
                        len,
                    ),
            decreases all.len() - i,
        {
            let buffer: RingBuffer = self.buffers[i];
            if buffer.len == len && holds(released, buffer.id) {
                self.buffers.swap_remove(i);
                assert(self.buffers@ =~= all.update(i as int, all.last()).drop_last());
                return Some(buffer.id);
            }
            i += 1;
        }
        None
    }

    /// Keep a buffer that is being presented. The oldest one is dropped where the ring is
    /// full.
    pub fn keep(&mut self, buffer: RingBuffer) -> (r: Option<u64>)
        ensures
            if old(self)@.len() == PRESENT_BUFFER_RING {
                &&& r == Some(old(self)@[0].id)
                &&& final(self)@ == old(self)@.remove(0).push(buffer)
            } else {
                &&& r is None
                &&& final(self)@ == old(self)@.push(buffer)
            },
    {
        let mut r: Option<u64> = None;
        if self.buffers.len() == PRESENT_BUFFER_RING {
            let dropped: RingBuffer = self.buffers.remove(0);
            r = Some(dropped.id);
        }
        self.buffers.push(buffer);
        r
    }
}

fn holds(list: &Vec<u64>, id: u64) -> (r: bool)
    ensures
        r == list@.contains(id),
{
    let mut i: usize = 0;
    while i < list.len()
        invariant
            i <= list@.len(),
            forall|j: int| 0 <= j < i ==> #[trigger] list@[j] != id,
        decreases list@.len() - i,
    {
        if list[i] == id {
            return true;
        }
        i += 1;
    }
    false
}

/// The first operation of a frame decides what the frame is, and only that one: what follows
/// changes nothing. A frame counts for external presentation exactly if it is cleared in full
/// on a surface of the graphics card, and the size of the canvas never changes.
pub proof fn law_first_operation_decides(
    target: DrawTarget,
    full_clear: bool,
    again: bool,
    pool: Seq<ParkedPipeline>,
    stalling: Seq<(i32, i32)>,
    slots: Map<u64, SharedSlot>,
)
    requires
        target.eligible_frames < u64::MAX,
    ensures
        ({
            let started = begun(target, full_clear, pool, stalling, slots).0;
            &&& started.frame_started
            &&& begun(started, again, pool, stalling, slots) == (started, FrameStart::Nothing)
            &&& started.width == target.width && started.height == target.height
            &&& started.gpu == target.gpu
            &&& started.pending_attach_presents == target.pending_attach_presents
            &&& started.skipped_flushes == target.skipped_flushes
            &&& !target.frame_started ==> started.frame_eligible == full_clear
            &&& !target.frame_started && full_clear && target.gpu ==> started.eligible_frames
                == target.eligible_frames + 1
            &&& !full_clear || !target.gpu || target.frame_started ==> started.eligible_frames
                == target.eligible_frames
        }),
{
}

/// A frame is drawn to the on-screen surface too only from the second frame that counts on,
/// only where there is a surface with a window, and never where its size stalls and it had no
/// pipeline yet. A surface is asked for where a window is known and there is none.
pub proof fn law_when_a_frame_is_teed(
    target: DrawTarget,
    full_clear: bool,
    pool: Seq<ParkedPipeline>,
    stalling: Seq<(i32, i32)>,
    slots: Map<u64, SharedSlot>,
)
    requires
        !target.frame_started,
        target.eligible_frames < u64::MAX,
    ensures
        ({
            let (started, start) = begun(target, full_clear, pool, stalling, slots);
            &&& started.tee_active ==> full_clear && target.gpu && target.eligible_frames >= 1
            &&& started.tee_active ==> (started.present matches Some(zero_copy)
                && zero_copy.onscreen is Some && zero_copy.window != 0)
            &&& started.tee_active ==> start is Nothing
            &&& start matches FrameStart::CreateSurface(window) ==> window != 0 && (
            started.present matches Some(zero_copy) && zero_copy.onscreen is None
                && zero_copy.window == window)
            &&& target.present is None && stalling.contains((target.width, target.height))
                ==> started.present is None && !started.tee_active
            &&& full_clear && target.gpu && target.eligible_frames >= 1 && (
            target.present matches Some(zero_copy) && zero_copy.window != 0
                && zero_copy.onscreen is Some) ==> started.tee_active
            &&& full_clear && target.gpu && target.eligible_frames >= 1 && (
            target.present matches Some(zero_copy) && zero_copy.window != 0
                && zero_copy.onscreen is None) ==> start is CreateSurface
        }),
{
}

/// A parked pipeline is taken over only by a canvas of its size, and the one that was parked
/// first goes first.
pub proof fn law_adopted_pipeline_fits(
    pool: Seq<ParkedPipeline>,
    stalling: Seq<(i32, i32)>,
    width: i32,
    height: i32,
    i: int,
)
    requires
        0 <= i < pool.len(),
    ensures
        ({
            let k = parked_at(pool, width, height);
            &&& 0 <= k <= pool.len()
            &&& k < pool.len() ==> pool[k].width == width && pool[k].height == height
            &&& pool[i].width == width && pool[i].height == height ==> k <= i
            &&& k < pool.len() && !stalling.contains((width, height)) ==> adopted(
                None,
                pool,
                stalling,
                width,
                height,
            ) == Some(
                ZeroCopy { slot: None, onscreen: Some(pool[k].onscreen), window: pool[k].window },
            )
            &&& stalling.contains((width, height)) ==> adopted(
                None,
                pool,
                stalling,
                width,
                height,
            ) is None
        }),
{
    lemma_parked_at(pool, width, height);
}

/// The window of a pipeline is its own if it has one, and else the one that was published in
/// its slot. Zero stands for none.
pub proof fn law_window_of_a_pipeline(zero_copy: ZeroCopy, slots: Map<u64, SharedSlot>)
    ensures
        zero_copy.window != 0 ==> resolved(zero_copy, slots) == zero_copy.window,
        zero_copy.window == 0 && zero_copy.slot is None ==> resolved(zero_copy, slots) == 0,
        zero_copy.window == 0 ==> (zero_copy.slot matches Some(handle) ==> (slots.contains_key(
            handle,
        ) ==> resolved(zero_copy, slots) == slots[handle].window) && (!slots.contains_key(handle)
            ==> resolved(zero_copy, slots) == 0)),
{
}

/// How a frame is presented. One that is drawn to its surface is flushed unless too many
/// buffers wait already, in which case that flush is counted as skipped. One that does not
/// count, or came too early, is read back. One whose consumer has not attached is presented
/// externally for a while and read back after that.
pub proof fn law_how_a_frame_is_presented(
    target: DrawTarget,
    stalling: Seq<(i32, i32)>,
    shared: Shared,
)
    requires
        target.skipped_flushes < u64::MAX,
        target.pending_attach_presents < u32::MAX,
    ensures
        ({
            let (after, plan) = planned(target, stalling, shared);
            let window = match target.present {
                Some(zero_copy) => resolved(zero_copy, shared.slots()),
                None => 0,
            };
            let surface = match target.present {
                Some(zero_copy) => zero_copy.onscreen,
                None => None,
            };
            let full = window != 0 && present::depth(shared.of(window)) >= 3;
            let counts = target.frame_eligible && target.eligible_frames >= 2 && target.gpu;
            &&& plan matches PresentPlan::Flush(s) ==> target.tee_active && surface == Some(s)
                && !full
            &&& target.tee_active && surface is Some && !full ==> plan == PresentPlan::Flush(
                surface->0,
            )
            &&& target.tee_active && surface is Some && full ==> plan is External
                && after.skipped_flushes == target.skipped_flushes + 1
            &&& plan is Flush ==> after.skipped_flushes == target.skipped_flushes
            &&& !target.tee_active ==> after.skipped_flushes == target.skipped_flushes
            &&& !target.tee_active && !counts ==> plan is Readback && after == target
            &&& !target.tee_active && counts && target.present is None ==> (plan is Readback <==>
                stalling.contains((target.width, target.height)))
            &&& !target.tee_active && counts && target.present is Some && window != 0
                ==> plan is Readback
            &&& !target.tee_active && counts && target.present is Some && window == 0
                ==> after.pending_attach_presents == target.pending_attach_presents + 1 && (
            plan is Readback <==> target.pending_attach_presents >= 60)
            &&& after.eligible_frames == target.eligible_frames && after.gpu == target.gpu
            &&& after.width == target.width && after.height == target.height
        }),
{
}

/// Between frames nothing of the last one is left, and everything else is kept.
pub proof fn law_frame_ends(target: DrawTarget)
    ensures
        !reset(target).frame_started && !reset(target).frame_eligible && !reset(target).tee_active,
        reset(target).present == target.present,
        reset(target).eligible_frames == target.eligible_frames,
        reset(target).pending_attach_presents == target.pending_attach_presents,
        reset(target).skipped_flushes == target.skipped_flushes,
        reset(target).width == target.width && reset(target).height == target.height,
        reset(target).gpu == target.gpu,
{
}

/// A pipeline that is parked is the last to be given up, and where there is no room the
/// oldest goes, surface and window.
pub proof fn law_oldest_pipeline_goes(
    r: Option<Teardown>,
    before: Seq<ParkedPipeline>,
    after: Seq<ParkedPipeline>,
    parked: ParkedPipeline,
)
    requires
        is_parked(r, before, after, parked),
        before.len() <= PIPELINE_POOL_MAX,
    ensures
        0 < after.len() <= PIPELINE_POOL_MAX,
        after.last() == parked,
        r is Some <==> before.len() == PIPELINE_POOL_MAX,
        r matches Some(gone) ==> gone.window == before[0].window && gone.onscreen == Some(
            before[0].onscreen,
        ) && after.len() == before.len(),
        r is None ==> after.len() == before.len() + 1,
{
}

/// A buffer is used again only if it was released and has the length that is needed, and the
/// first such one is.
pub proof fn law_reclaimed_buffer_fits(
    buffers: Seq<RingBuffer>,
    released: Seq<u64>,
    len: usize,
    i: int,
)
    requires
        0 <= i < buffers.len(),
    ensures
        ({
            let k = reclaimed_at(buffers, released, len);
            &&& 0 <= k <= buffers.len()
            &&& k < buffers.len() ==> buffers[k].len == len && released.contains(buffers[k].id)
            &&& buffers[i].len == len && released.contains(buffers[i].id) ==> k <= i
        }),
{
    lemma_reclaimed_at(buffers, released, len);
}

} // verus!
