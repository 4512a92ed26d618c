//! What connects each canvas draw target, the producer of buffers, to the one handler
//! of external images, their consumer.
use std::collections::HashMap;

use vstd::prelude::*;

use crate::numbered;
use crate::numbered::numbers;

verus! {

/// The buffer queue's depth: up to this many buffers may sit genuinely queued
/// unconsumed. When the queue is full the producer must skip the flush, dropping that
/// frame while staying on the external present. It must never block, and never fall back
/// to readback because of queue depth: a readback present stops the compositor from
/// locking the image, `consumed` then freezes, and the fallback would latch permanently.
pub const MAX_QUEUED: u64 = 3;

/// How many buffers are taken from a queue in one lock at most.
pub const MAX_DRAINED: u64 = 8;

/// Genuine buffer-queue counters for one presentation pipeline. They survive the
/// recreation of a canvas: the pipeline outlives the image that it is shown as.
///
/// `queued` is advanced only when a buffer was really enqueued, never by a flush that
/// succeeded. `consumed` is set by the consumer to the `queued` value it has caught up
/// to.
#[derive(Clone, Copy, Debug, PartialEq, Eq, Structural)]
pub struct QueueCounters {
    pub queued: u64,
    pub consumed: u64,
}

/// Rendezvous between one canvas draw target and the handler, for one external image.
#[derive(Clone, Copy, Debug, PartialEq, Eq, Structural)]
pub struct SharedSlot {
    /// Buffer geometry, fixed at registration.
    pub width: i32,
    pub height: i32,
    /// The producer window, which is the stable identity of the pipeline; zero while it
    /// is not available yet.
    pub window: u64,
    /// Set by the producer when it is gone; tells the consumer to tear its resources
    /// down.
    pub dead: bool,
}

/// What producers and the consumer share.
#[derive(Debug)]
pub struct Shared {
    counters: HashMap<u64, QueueCounters>,
    /// The slots that are still in use, by their handles. A draw target keeps the handle of
    /// its own slot, whatever else is registered under its image later.
    slots: HashMap<u64, SharedSlot>,
    /// The handle of the slot that each external image is shown from.
    registry: HashMap<u64, u64>,
    /// How many handles were given out.
    issued: u64,
    retired: Vec<u64>,
}

/// How many buffers are genuinely in a queue.
pub open spec fn depth(counters: QueueCounters) -> u64 {
    if counters.queued >= counters.consumed {
        (counters.queued - counters.consumed) as u64
    } else {
        0
    }
}

/// Whether every image has a slot, and every handle is one of those given out.
pub open spec fn linked(
    registry: Map<u64, u64>,
    slots: Map<u64, SharedSlot>,
    issued: u64,
) -> bool {
    &&& forall|id: u64| #[trigger]
        registry.contains_key(id) ==> slots.contains_key(registry[id])
    &&& forall|handle: u64| #[trigger] slots.contains_key(handle) ==> handle < issued
}

/// The slots after a window was published in one of them.
pub open spec fn published(
    slots: Map<u64, SharedSlot>,
    handle: u64,
    window: u64,
) -> Map<u64, SharedSlot> {
    if slots.contains_key(handle) {
        slots.insert(handle, SharedSlot { window, ..slots[handle] })
    } else {
        slots
    }
}

/// The slots after the producer of one of them is gone.
pub open spec fn bereft(slots: Map<u64, SharedSlot>, handle: u64) -> Map<u64, SharedSlot> {
    if slots.contains_key(handle) {
        slots.insert(handle, SharedSlot { dead: true, ..slots[handle] })
    } else {
        slots
    }
}

/// Whether a new slot was registered for an external image, and nothing else changed.
pub open spec fn is_registered(
    before: Shared,
    after: Shared,
    id: u64,
    slot: SharedSlot,
    handle: u64,
) -> bool {
    &&& handle == before.issued()
    &&& after.issued() == before.issued() + 1
    &&& after.slots() == before.slots().insert(handle, slot)
    &&& after.registry() == before.registry().insert(id, handle)
    &&& after.counters() == before.counters()
    &&& after.retired() == before.retired()
}

impl Shared {
    /// The counters of the pipelines, by window.
    pub closed spec fn counters(&self) -> Map<u64, QueueCounters> {
        self.counters@
    }

    /// The slots, by their handles.
    pub closed spec fn slots(&self) -> Map<u64, SharedSlot> {
        self.slots@
    }

    /// The handles of the slots, by the number of the external image.
    pub closed spec fn registry(&self) -> Map<u64, u64> {
        self.registry@
    }

    /// How many handles were given out.
    pub closed spec fn issued(&self) -> u64 {
        self.issued
    }

    /// The windows whose pipelines are to be destroyed.
    pub closed spec fn retired(&self) -> Seq<u64> {
        self.retired@
    }

    /// Every image has a slot, and every handle was given out.
    pub open spec fn wf(&self) -> bool {
        linked(self.registry(), self.slots(), self.issued())
    }

    /// The counters of a pipeline; those of one that is not known yet are zero.
    pub open spec fn of(&self, window: u64) -> QueueCounters {
        if self.counters().contains_key(window) {
            self.counters()[window]
        } else {
            QueueCounters { queued: 0, consumed: 0 }
        }
    }

    pub fn new() -> (r: Shared)
        ensures
            r.wf(),
            r.counters() == Map::<u64, QueueCounters>::empty(),
            r.slots() == Map::<u64, SharedSlot>::empty(),
            r.registry() == Map::<u64, u64>::empty(),
            r.issued() == 0,
            r.retired() == Seq::<u64>::empty(),
    {
        broadcast use vstd::std_specs::hash::group_hash_axioms;

        Shared {
            counters: HashMap::new(),
            slots: HashMap::new(),
            registry: HashMap::new(),
            issued: 0,
            retired: Vec::new(),
        }
    }

    /// The queue counters for a pipeline, which are made if there are none.
    pub fn pipeline_counters(&mut self, window: u64) -> (r: QueueCounters)
        ensures
            r == old(self).of(window),
            final(self).counters() == old(self).counters().insert(window, r),
            final(self).slots() == old(self).slots(),
            final(self).registry() == old(self).registry(),
            final(self).issued() == old(self).issued(),
            final(self).retired() == old(self).retired(),
    {
        broadcast use vstd::std_specs::hash::group_hash_axioms;

        let ghost before = self.counters@;
        match self.counters.get(&window) {
            Some(counters) => {
                assert(before.insert(window, *counters) =~= before);
                *counters
            },
            None => {
                let counters: QueueCounters = QueueCounters { queued: 0, consumed: 0 };
                self.counters.insert(window, counters);
                counters
            },
        }
    }

    /// A buffer was really enqueued in a pipeline that is known. The count wraps around.
    pub fn on_frame_available(&mut self, window: u64)
        ensures
            final(self).slots() == old(self).slots(),
            final(self).registry() == old(self).registry(),
            final(self).issued() == old(self).issued(),
            final(self).retired() == old(self).retired(),
            final(self).counters() == if old(self).counters().contains_key(window) {
                old(self).counters().insert(
                    window,
                    QueueCounters {
                        queued: if old(self).of(window).queued == u64::MAX {
                            0
                        } else {
                            (old(self).of(window).queued + 1) as u64
                        },
                        ..old(self).of(window)
                    },
                )
            } else {
                old(self).counters()
            },
    {
        broadcast use vstd::std_specs::hash::group_hash_axioms;

        let counters: QueueCounters = match self.counters.get(&window) {
            Some(counters) => *counters,
            None => return,
        };
        let queued: u64 = if counters.queued == u64::MAX {
            0
        } else {
            counters.queued + 1
        };
        self.counters.insert(window, QueueCounters { queued, consumed: counters.consumed });
    }

    /// Producer-side estimate of the buffers in the queue of a pipeline; zero until its
    /// window exists.
    pub fn in_flight(&self, window: u64) -> (r: u64)
        ensures
            r == if window == 0 {
                0
            } else {
                depth(self.of(window))
            },
    {
        broadcast use vstd::std_specs::hash::group_hash_axioms;

        if window == 0 {
            return 0;
        }
        match self.counters.get(&window) {
            Some(counters) => if counters.queued >= counters.consumed {
                counters.queued - counters.consumed
            } else {
                0
            },
            None => 0,
        }
    }

    /// Whether there is a handle left for another slot.
    pub fn can_register(&self) -> (r: bool)
        ensures
            r == (self.issued() < u64::MAX),
    {
        self.issued < u64::MAX
    }

    /// Register (or re-register, on resize) the slot for an external image. The result is
    /// the producer's handle to it: the slot is a new one, and an earlier one of the same
    /// image stays with whoever holds its handle.
    pub fn register_slot(&mut self, id: u64, width: i32, height: i32) -> (r: u64)
        requires
            old(self).wf(),
            old(self).issued() < u64::MAX,
        ensures
            final(self).wf(),
            is_registered(
                *old(self),
                *final(self),
                id,
                SharedSlot { width, height, window: 0, dead: false },
                r,
            ),
    {
        broadcast use vstd::std_specs::hash::group_hash_axioms;

        let handle: u64 = self.issued;
        self.issued = handle + 1;
        self.slots.insert(handle, SharedSlot { width, height, window: 0, dead: false });
        self.registry.insert(id, handle);
        handle
    }

    /// The consumer's handle to the slot for an external image, if the producer has
    /// registered one.
    pub fn lookup_slot(&self, id: u64) -> (r: Option<u64>)
        ensures
            r == if self.registry().contains_key(id) {
                Some(self.registry()[id])
            } else {
                None
            },
    {
        broadcast use vstd::std_specs::hash::group_hash_axioms;

        match self.registry.get(&id) {
            Some(handle) => Some(*handle),
            None => None,
        }
    }

    /// The slot behind a handle, as long as it is in use.
    pub fn slot(&self, handle: u64) -> (r: Option<SharedSlot>)
        ensures
            r == if self.slots().contains_key(handle) {
                Some(self.slots()[handle])
            } else {
                None
            },
    {
        broadcast use vstd::std_specs::hash::group_hash_axioms;

        match self.slots.get(&handle) {
            Some(slot) => Some(*slot),
            None => None,
        }
    }

    /// Publish in a slot the window of the pipeline that its image is shown from.
    pub fn publish_window(&mut self, handle: u64, window: u64)
        requires
            old(self).wf(),
        ensures
            final(self).wf(),
            final(self).counters() == old(self).counters(),
            final(self).registry() == old(self).registry(),
            final(self).issued() == old(self).issued(),
            final(self).retired() == old(self).retired(),
            final(self).slots() == published(old(self).slots(), handle, window),
    {
        broadcast use vstd::std_specs::hash::group_hash_axioms;

        match self.slot(handle) {
            Some(slot) => {
                self.slots.insert(
                    handle,
                    SharedSlot { width: slot.width, height: slot.height, window, dead: slot.dead },
                );
            },
            None => {},
        }
    }

    /// The producer that holds a slot is gone.
    pub fn mark_dead(&mut self, handle: u64)
        requires
            old(self).wf(),
        ensures
            final(self).wf(),
            final(self).counters() == old(self).counters(),
            final(self).registry() == old(self).registry(),
            final(self).issued() == old(self).issued(),
            final(self).retired() == old(self).retired(),
            final(self).slots() == bereft(old(self).slots(), handle),
    {
        broadcast use vstd::std_specs::hash::group_hash_axioms;

        match self.slot(handle) {
            Some(slot) => {
                self.slots.insert(
                    handle,
                    SharedSlot {
                        width: slot.width,
                        height: slot.height,
                        window: slot.window,
                        dead: true,
                    },
                );
            },
            None => {},
        }
    }

    /// Schedule the consumer-side state of a pipeline for destruction. The producer's
    /// surface must be gone by then: it draws into the window.
    pub fn retire_window(&mut self, window: u64)
        ensures
            final(self).counters() == old(self).counters(),
            final(self).slots() == old(self).slots(),
            final(self).registry() == old(self).registry(),
            final(self).issued() == old(self).issued(),
            final(self).retired() == if window != 0 {
                old(self).retired().push(window)
            } else {
                old(self).retired()
            },
    {
        if window != 0 {
            self.retired.push(window);
        }
    }
}

/// The slots of producers that are not gone.
pub open spec fn living(slots: Map<u64, SharedSlot>) -> Map<u64, SharedSlot> {
    Map::new(
        |handle: u64| slots.contains_key(handle) && !slots[handle].dead,
        |handle: u64| slots[handle],
    )
}

/// The images whose slots are those of producers that are not gone.
pub open spec fn shown(registry: Map<u64, u64>, slots: Map<u64, SharedSlot>) -> Map<u64, u64> {
    Map::new(
        |id: u64|
            registry.contains_key(id) && slots.contains_key(registry[id])
                && !slots[registry[id]].dead,
        |id: u64| registry[id],
    )
}

impl Shared {
    /// Drop the slots of producers that are gone, and the images that are shown from them.
    fn bury(&mut self)
        requires
            old(self).wf(),
        ensures
            final(self).wf(),
            final(self).counters() == old(self).counters(),
            final(self).slots() == living(old(self).slots()),
            final(self).registry() == shown(old(self).registry(), old(self).slots()),
            final(self).issued() == old(self).issued(),
            final(self).retired() == old(self).retired(),
    {
        broadcast use vstd::std_specs::hash::group_hash_axioms;

        let ghost registry = self.registry@;
        let ghost slots = self.slots@;
        let ids: Vec<u64> = numbers(&self.registry);
        let mut i: usize = 0;
        while i < ids.len()
            invariant
                i <= ids@.len(),
                forall|id: u64| #[trigger] ids@.contains(id) <==> registry.contains_key(id),
                forall|id: u64| #[trigger]
                    registry.contains_key(id) ==> slots.contains_key(registry[id]),
                self.counters@ == old(self).counters@,
                self.slots@ == slots,
                self.issued == old(self).issued,
                self.retired@ == old(self).retired@,
                forall|id: u64| #[trigger]
                    self.registry@.contains_key(id) <==> registry.contains_key(id) && !(
                    slots[registry[id]].dead && ids@.take(i as int).contains(id)),
                forall|id: u64| #[trigger]
                    self.registry@.contains_key(id) ==> self.registry@[id] == registry[id],
            decreases ids@.len() - i,
        {
            broadcast use vstd::std_specs::hash::group_hash_axioms;

            let id: u64 = ids[i];
            proof {
                numbered::lemma_take_more(ids@, i as int);
                assert(ids@.contains(id));
            }
            match self.lookup_slot(id) {
                Some(handle) => match self.slot(handle) {
                    Some(slot) => if slot.dead {
                        self.registry.remove(&id);
                    },
                    None => {},
                },
                None => {},
            }
            i += 1;
        }
        assert(ids@.take(ids@.len() as int) =~= ids@);
        assert(self.registry@ =~= shown(registry, slots));
        let handles: Vec<u64> = numbers(&self.slots);
        let mut k: usize = 0;
        while k < handles.len()
            invariant
                k <= handles@.len(),
                forall|handle: u64| #[trigger]
                    handles@.contains(handle) <==> slots.contains_key(handle),
                self.counters@ == old(self).counters@,
                self.registry@ == shown(registry, slots),
                self.issued == old(self).issued,
                self.retired@ == old(self).retired@,
                forall|handle: u64| #[trigger]
                    self.slots@.contains_key(handle) <==> slots.contains_key(handle) && !(
                    slots[handle].dead && handles@.take(k as int).contains(handle)),
                forall|handle: u64| #[trigger]
                    self.slots@.contains_key(handle) ==> self.slots@[handle] == slots[handle],
            decreases handles@.len() - k,
        {
            broadcast use vstd::std_specs::hash::group_hash_axioms;

            let handle: u64 = handles[k];
            proof {
                numbered::lemma_take_more(handles@, k as int);
                assert(handles@.contains(handle));
            }
            match self.slot(handle) {
                Some(slot) => if slot.dead {
                    self.slots.remove(&handle);
                },
                None => {},
            }
            k += 1;
        }
        assert(handles@.take(handles@.len() as int) =~= handles@);
        assert(self.slots@ =~= living(slots));
    }
}

/// A table without the entries under some numbers.
pub open spec fn without_all<T>(table: Map<u64, T>, keys: Seq<u64>) -> Map<u64, T>
    decreases keys.len(),
{
    if keys.len() == 0 {
        table
    } else {
        without_all(table, keys.drop_last()).remove(keys.last())
    }
}

/// Consumer-side state for one presenting pipeline.
#[derive(Clone, Copy, Debug, PartialEq, Eq, Structural)]
pub struct ConsumerState {
    /// The texture that the buffers are bound to.
    pub texture: u32,
    /// Buffer geometry this state was built for.
    pub width: i32,
    pub height: i32,
    /// Whether at least one buffer has been drained into the texture. Before that, it is
    /// undefined and must not be sampled.
    pub ready: bool,
}

/// What the compositor is given for an external image.
#[derive(Clone, Copy, Debug, PartialEq, Eq, Structural)]
pub enum ImageSource {
    Invalid,
    /// A texture, and its size.
    NativeTexture(u32, i32, i32),
}

/// What a lock needs next.
#[derive(Clone, Copy, Debug, PartialEq, Eq, Structural)]
pub enum LockStep {
    /// Nothing: the image cannot be shown.
    Invalid,
    /// To make a texture and a pipeline of a size for the slot with a handle, as it has none
    /// yet.
    Create(u64, i32, i32),
    /// To drain the queue of the pipeline with a window.
    Drain(u64),
}

/// The external-image handler. One instance per process.
#[derive(Debug)]
pub struct ImageHandler {
    /// Consumer state per pipeline, by window.
    states: HashMap<u64, ConsumerState>,
    /// How many external images are held locked. Destroying a texture while any is would
    /// pull it out from under a draw that was already resolved, so teardown only runs
    /// while none is.
    locked: usize,
}

/// What a lock of an image with a slot needs next.
pub open spec fn step_for(
    handle: u64,
    slot: SharedSlot,
    states: Map<u64, ConsumerState>,
) -> LockStep {
    if slot.dead {
        LockStep::Invalid
    } else if slot.window == 0 {
        LockStep::Create(handle, slot.width, slot.height)
    } else if states.contains_key(slot.window) && states[slot.window].width == slot.width
        && states[slot.window].height == slot.height {
        LockStep::Drain(slot.window)
    } else {
        LockStep::Invalid
    }
}

impl ImageHandler {
    pub closed spec fn states(&self) -> Map<u64, ConsumerState> {
        self.states@
    }

    pub closed spec fn locked(&self) -> usize {
        self.locked
    }

    pub fn new() -> (r: ImageHandler)
        ensures
            r.states() == Map::<u64, ConsumerState>::empty(),
            r.locked() == 0,
    {
        broadcast use vstd::std_specs::hash::group_hash_axioms;

        ImageHandler { states: HashMap::new(), locked: 0 }
    }

    /// Destroy consumer state for retired pipelines and drop registry entries of dead
    /// images. A dead image does not destroy its pipeline, which may be parked for
    /// adoption by the canvas's replacement. The result are the textures to delete.
    fn reap_dead(&mut self, shared: &mut Shared) -> (r: Vec<u32>)
        requires
            old(shared).wf(),
        ensures
            final(shared).wf(),
            final(self).locked() == old(self).locked(),
            final(self).states() == without_all(old(self).states(), old(shared).retired()),
            final(shared).counters() == without_all(
                old(shared).counters(),
                old(shared).retired(),
            ),
            final(shared).slots() == living(old(shared).slots()),
            final(shared).registry() == shown(old(shared).registry(), old(shared).slots()),
            final(shared).issued() == old(shared).issued(),
            final(shared).retired() == Seq::<u64>::empty(),
            r@ == textures(old(self).states(), old(shared).retired()),
    {
        broadcast use vstd::std_specs::hash::group_hash_axioms;

        let mut r: Vec<u32> = Vec::new();
        let mut retired: Vec<u64> = Vec::new();
        std::mem::swap(&mut retired, &mut shared.retired);
        let ghost all = retired@;
        let ghost states = self.states@;
        let ghost counters = shared.counters@;
        let mut i: usize = 0;
        assert(all.take(0) =~= Seq::<u64>::empty());
        while i < retired.len()
            invariant
                i <= retired@.len(),
                all == retired@,
                self.locked == old(self).locked,
                self.states@ == without_all(states, all.take(i as int)),
                shared.counters@ == without_all(counters, all.take(i as int)),
                shared.slots@ == old(shared).slots@,
                shared.registry@ == old(shared).registry@,
                shared.issued == old(shared).issued,
                shared.retired@ == Seq::<u64>::empty(),
                r@ == textures(states, all.take(i as int)),
            decreases retired@.len() - i,
        {
            broadcast use vstd::std_specs::hash::group_hash_axioms;

            let window: u64 = retired[i];
            assert(all.take(i + 1).drop_last() =~= all.take(i as int));
            match self.states.remove(&window) {
                Some(state) => r.push(state.texture),
                None => {},
            }
            shared.counters.remove(&window);
            i += 1;
        }
        assert(all.take(all.len() as int) =~= all);
        shared.bury();
        r
    }

    /// Whether another lock can be counted.
    pub fn can_lock(&self) -> (r: bool)
        ensures
            r == (self.locked() < usize::MAX),
    {
        self.locked < usize::MAX
    }

    /// Begin to lock an external image. Pipelines are only torn down while nothing is
    /// locked; the textures to delete come with the result.
    pub fn lock(&mut self, shared: &mut Shared, id: u64) -> (r: (LockStep, Vec<u32>))
        requires
            old(shared).wf(),
            old(self).locked() < usize::MAX,
        ensures
            final(shared).wf(),
            final(self).locked() == old(self).locked() + 1,
            is_reaped(*old(self), *final(self), *old(shared), *final(shared), r.1@, old(self).locked() == 0),
            r.0 == if final(shared).registry().contains_key(id) {
                step_for(
                    final(shared).registry()[id],
                    final(shared).slots()[final(shared).registry()[id]],
                    final(self).states(),
                )
            } else {
                LockStep::Invalid
            },
    {
        let mut gone: Vec<u32> = Vec::new();
        if self.locked == 0 {
            gone = self.reap_dead(shared);
        } else {
            assert(gone@ =~= Seq::<u32>::empty());
        }
        self.locked = self.locked + 1;
        let step: LockStep = match shared.lookup_slot(id) {
            Some(handle) => match shared.slot(handle) {
                Some(slot) => self.next_step(handle, &slot),
                None => LockStep::Invalid,
            },
            None => LockStep::Invalid,
        };
        (step, gone)
    }

    fn next_step(&self, handle: u64, slot: &SharedSlot) -> (r: LockStep)
        ensures
            r == step_for(handle, *slot, self.states()),
    {
        broadcast use vstd::std_specs::hash::group_hash_axioms;

        if slot.dead {
            return LockStep::Invalid;
        }
        if slot.window == 0 {
            return LockStep::Create(handle, slot.width, slot.height);
        }
        match self.states.get(&slot.window) {
            Some(state) => if state.width == slot.width && state.height == slot.height {
                LockStep::Drain(slot.window)
            } else {
                LockStep::Invalid
            },
            None => LockStep::Invalid,
        }
    }

    /// A pipeline was made for a slot that had none: publish its window and keep its state.
    pub fn created(
        &mut self,
        shared: &mut Shared,
        handle: u64,
        window: u64,
        texture: u32,
        width: i32,
        height: i32,
    )
        requires
            old(shared).wf(),
        ensures
            final(shared).wf(),
            final(self).locked() == old(self).locked(),
            final(self).states() == old(self).states().insert(
                window,
                ConsumerState { texture, width, height, ready: false },
            ),
            final(shared).retired() == old(shared).retired(),
            final(shared).counters() == old(shared).counters().insert(
                window,
                old(shared).of(window),
            ),
            final(shared).registry() == old(shared).registry(),
            final(shared).issued() == old(shared).issued(),
            final(shared).slots() == published(old(shared).slots(), handle, window),
    {
        broadcast use vstd::std_specs::hash::group_hash_axioms;

        shared.pipeline_counters(window);
        shared.publish_window(handle, window);
        self.states.insert(window, ConsumerState { texture, width, height, ready: false });
    }

    /// The queue of a pipeline was drained: `drained` buffers were taken from it. The
    /// consumer has then caught up with the latest one, and the texture can be sampled.
    pub fn drained(&mut self, shared: &mut Shared, window: u64, drained: u64) -> (r: ImageSource)
        requires
            old(shared).wf(),
        ensures
            final(shared).wf(),
            final(self).locked() == old(self).locked(),
            final(shared).slots() == old(shared).slots(),
            final(shared).registry() == old(shared).registry(),
            final(shared).issued() == old(shared).issued(),
            final(shared).retired() == old(shared).retired(),
            if old(self).states().contains_key(window) {
                let state = old(self).states()[window];
                let ready = state.ready || drained > 0;
                &&& final(self).states() == old(self).states().insert(
                    window,
                    ConsumerState { ready, ..state },
                )
                &&& final(shared).counters() == if drained > 0
                    && old(shared).counters().contains_key(window) {
                    old(shared).counters().insert(
                        window,
                        QueueCounters {
                            consumed: old(shared).of(window).queued,
                            ..old(shared).of(window)
                        },
                    )
                } else {
                    old(shared).counters()
                }
                &&& r == if ready {
                    ImageSource::NativeTexture(state.texture, state.width, state.height)
                } else {
                    ImageSource::Invalid
                }
            } else {
                &&& r == ImageSource::Invalid
                &&& final(self).states() == old(self).states()
                &&& final(shared).counters() == old(shared).counters()
            },
    {
        broadcast use vstd::std_specs::hash::group_hash_axioms;

        let mut state: ConsumerState = match self.states.get(&window) {
            Some(state) => *state,
            None => return ImageSource::Invalid,
        };
        if drained > 0 {
            state.ready = true;
            let known: Option<QueueCounters> = match shared.counters.get(&window) {
                Some(counters) => Some(*counters),
                None => None,
            };
            match known {
                Some(counters) => {
                    shared.counters.insert(
                        window,
                        QueueCounters { queued: counters.queued, consumed: counters.queued },
                    );
                },
                None => {},
            }
        }
        self.states.insert(window, state);
        if state.ready {
            ImageSource::NativeTexture(state.texture, state.width, state.height)
        } else {
            ImageSource::Invalid
        }
    }

    /// An external image is not locked any more. The result are the textures to delete.
    pub fn unlock(&mut self, shared: &mut Shared) -> (r: Vec<u32>)
        requires
            old(shared).wf(),
        ensures
            final(shared).wf(),
            final(self).locked() == if old(self).locked() > 0 {
                (old(self).locked() - 1) as usize
            } else {
                0
            },
            is_reaped(*old(self), *final(self), *old(shared), *final(shared), r@, old(self).locked() <= 1),
    {
        if self.locked > 0 {
            self.locked = self.locked - 1;
        }
        if self.locked == 0 {
            self.reap_dead(shared)
        } else {
            let gone: Vec<u32> = Vec::new();
            assert(gone@ =~= Seq::<u32>::empty());
            gone
        }
    }
}

/// The textures of some pipelines, as far as there are any.
pub open spec fn textures(states: Map<u64, ConsumerState>, windows: Seq<u64>) -> Seq<u32>
    decreases windows.len(),
{
    if windows.len() == 0 {
        seq![]
    } else {
        let before = textures(states, windows.drop_last());
        let left = without_all(states, windows.drop_last());
        if left.contains_key(windows.last()) {
            before.push(left[windows.last()].texture)
        } else {
            before
        }
    }
}

/// Whether what is dead was torn down, if `due`, and nothing else changed.
pub open spec fn is_reaped(
    before: ImageHandler,
    after: ImageHandler,
    shared_before: Shared,
    shared_after: Shared,
    gone: Seq<u32>,
    due: bool,
) -> bool {
    if due {
        &&& after.states() == without_all(before.states(), shared_before.retired())
        &&& shared_after.counters() == without_all(
            shared_before.counters(),
            shared_before.retired(),
        )
        &&& shared_after.slots() == living(shared_before.slots())
        &&& shared_after.registry() == shown(shared_before.registry(), shared_before.slots())
        &&& shared_after.issued() == shared_before.issued()
        &&& shared_after.retired() == Seq::<u64>::empty()
        &&& gone == textures(before.states(), shared_before.retired())
    } else {
        &&& after.states() == before.states()
        &&& shared_after == shared_before
        &&& gone == Seq::<u32>::empty()
    }
}

/// Whether the queue of a pipeline is asked for another buffer, after some were taken from
/// it, or it had none left to give.
pub fn drains_on(drained: u64, empty: bool) -> (r: bool)
    ensures
        r == (!empty && drained < MAX_DRAINED),
{
    !empty && drained < MAX_DRAINED
}

/// A slot is a new one each time: registering another for an image leaves every slot that
/// is in use as it was, the one that the image was shown from so far among them.
pub proof fn law_registering_leaves_other_slots(
    before: Shared,
    after: Shared,
    id: u64,
    slot: SharedSlot,
    handle: u64,
    other: u64,
)
    requires
        before.wf(),
        is_registered(before, after, id, slot, handle),
        before.slots().contains_key(other),
    ensures
        other != handle,
        after.slots().contains_key(other),
        after.slots()[other] == before.slots()[other],
        after.registry()[id] == handle,
        after.slots()[handle] == slot,
{
}

/// When two producers were registered under one image, the end of the first leaves the
/// second shown: only its own slot dies.
pub proof fn law_a_replaced_producer_dies_alone(
    first: Shared,
    second: Shared,
    third: Shared,
    id: u64,
    old_slot: SharedSlot,
    new_slot: SharedSlot,
    old_handle: u64,
    new_handle: u64,
)
    requires
        first.wf(),
        is_registered(first, second, id, old_slot, old_handle),
        is_registered(second, third, id, new_slot, new_handle),
        !new_slot.dead,
    ensures
        bereft(third.slots(), old_handle)[old_handle] == (SharedSlot { dead: true, ..old_slot }),
        bereft(third.slots(), old_handle)[new_handle] == new_slot,
        shown(third.registry(), bereft(third.slots(), old_handle)).contains_key(id),
        shown(third.registry(), bereft(third.slots(), old_handle))[id] == new_handle,
{
}

/// After the consumer has caught up, the queue counts as empty, whatever was flushed.
pub proof fn law_caught_up_is_empty(counters: QueueCounters)
    ensures
        depth(QueueCounters { consumed: counters.queued, ..counters }) == 0,
{
}

/// Counting another buffer never makes a queue count as full that the consumer has just
/// drained: only real buffers fill it.
pub proof fn law_only_enqueued_buffers_count(counters: QueueCounters, enqueued: u64)
    requires
        counters.queued + enqueued <= u64::MAX,
    ensures
        depth(
            QueueCounters {
                queued: (counters.queued + enqueued) as u64,
                consumed: counters.queued,
            },
        ) == enqueued,
{
}

/// Taking out some keys takes out just these.
pub proof fn law_without_all<T>(table: Map<u64, T>, keys: Seq<u64>, key: u64)
    ensures
        keys.contains(key) ==> !without_all(table, keys).contains_key(key),
        !keys.contains(key) ==> without_all(table, keys).contains_key(key) == table.contains_key(
            key,
        ),
        !keys.contains(key) && table.contains_key(key) ==> without_all(table, keys)[key]
            == table[key],
    decreases keys.len(),
{
    if keys.len() > 0 {
        let front = keys.drop_last();
        law_without_all(table, front, key);
        if keys.contains(key) {
            let i = choose|i: int| 0 <= i < keys.len() && keys[i] == key;
            if i < front.len() {
                assert(front[i] == key);
            }
        } else {
            if front.contains(key) {
                let i = choose|i: int| 0 <= i < front.len() && front[i] == key;
                assert(keys[i] == key);
            }
            assert(keys[keys.len() - 1] != key);
        }
    }
}

/// The texture of every window that was retired is given back, and no other one is.
pub proof fn law_textures_given_back(
    states: Map<u64, ConsumerState>,
    windows: Seq<u64>,
    i: int,
)
    requires
        0 <= i < windows.len(),
        states.contains_key(windows[i]),
    ensures
        textures(states, windows).contains(states[windows[i]].texture),
        textures(states, windows).len() <= windows.len(),
    decreases windows.len(),
{
    let front = windows.drop_last();
    let before = textures(states, front);
    let all = textures(states, windows);
    lemma_textures_len(states, front);
    law_without_all(states, front, windows[i]);
    if front.contains(windows[i]) {
        let j = choose|j: int| 0 <= j < front.len() && front[j] == windows[i];
        law_textures_given_back(states, front, j);
        let k = choose|k: int| 0 <= k < before.len() && before[k] == states[windows[i]].texture;
        assert(all[k] == states[windows[i]].texture);
    } else {
        if i < front.len() {
            assert(front[i] == windows[i]);
        }
        assert(windows[i] == windows.last());
        assert(all[all.len() - 1] == states[windows[i]].texture);
    }
}

proof fn lemma_textures_len(states: Map<u64, ConsumerState>, windows: Seq<u64>)
    ensures
        textures(states, windows).len() <= windows.len(),
    decreases windows.len(),
{
    if windows.len() > 0 {
        lemma_textures_len(states, windows.drop_last());
    }
}

/// Every texture that is given back is that of a window that was retired.
pub proof fn law_only_retired_textures(
    states: Map<u64, ConsumerState>,
    windows: Seq<u64>,
    k: int,
)
    requires
        0 <= k < textures(states, windows).len(),
    ensures
        exists|i: int|
            0 <= i < windows.len() && states.contains_key(#[trigger] windows[i])
                && states[windows[i]].texture == textures(states, windows)[k],
    decreases windows.len(),
{
    if windows.len() > 0 {
        let front = windows.drop_last();
        let before = textures(states, front);
        if k < before.len() {
            law_only_retired_textures(states, front, k);
            let i = choose|i: int|
                0 <= i < front.len() && states.contains_key(#[trigger] front[i])
                    && states[front[i]].texture == before[k];
            assert(windows[i] == front[i]);
        } else {
            let last = windows[windows.len() - 1];
            law_without_all(states, front, last);
            assert(states.contains_key(last));
        }
    }
}

/// What locking an image comes to: nothing for a producer that died, a new pipeline where no
/// window is known, and the pending frames of the window where it is known and has the size
/// of the canvas. A window of another size is not shown.
pub proof fn law_lock_step(handle: u64, slot: SharedSlot, states: Map<u64, ConsumerState>)
    ensures
        slot.dead ==> step_for(handle, slot, states) == LockStep::Invalid,
        !slot.dead && slot.window == 0 ==> step_for(handle, slot, states) == LockStep::Create(
            handle,
            slot.width,
            slot.height,
        ),
        !slot.dead && slot.window != 0 && states.contains_key(slot.window) && states[slot.window].width
            == slot.width && states[slot.window].height == slot.height ==> step_for(
            handle,
            slot,
            states,
        ) == LockStep::Drain(slot.window),
        step_for(handle, slot, states) matches LockStep::Drain(window) ==> states.contains_key(
            window,
        ) && window == slot.window && states[window].width == slot.width && states[window].height
            == slot.height,
{
}

/// Dead slots are buried with the images that show them, and the living stay with theirs.
pub proof fn law_only_the_dead_are_buried(
    registry: Map<u64, u64>,
    slots: Map<u64, SharedSlot>,
    id: u64,
    handle: u64,
)
    ensures
        living(slots).contains_key(handle) <==> slots.contains_key(handle) && !slots[handle].dead,
        living(slots).contains_key(handle) ==> living(slots)[handle] == slots[handle],
        registry.contains_key(id) && living(slots).contains_key(registry[id]) ==> shown(
            registry,
            slots,
        ).contains_key(id) && shown(registry, slots)[id] == registry[id],
        shown(registry, slots).contains_key(id) ==> registry.contains_key(id) && living(
            slots,
        ).contains_key(registry[id]),
{
}

/// A window that is published, and a death, concern the one slot, and of that nothing else.
pub proof fn law_one_slot_changes(
    slots: Map<u64, SharedSlot>,
    handle: u64,
    window: u64,
    other: u64,
)
    requires
        slots.contains_key(handle),
        slots.contains_key(other),
    ensures
        published(slots, handle, window)[handle].window == window,
        published(slots, handle, window)[handle].dead == slots[handle].dead,
        published(slots, handle, window)[handle].width == slots[handle].width,
        published(slots, handle, window)[handle].height == slots[handle].height,
        bereft(slots, handle)[handle].dead,
        bereft(slots, handle)[handle].window == slots[handle].window,
        other != handle ==> published(slots, handle, window)[other] == slots[other] && bereft(
            slots,
            handle,
        )[other] == slots[other],
{
}

} // verus!
