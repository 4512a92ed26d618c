//! Copying a network body into the cache while it is delivered.
use vstd::prelude::*;

use crate::http_cache::store;
use crate::http_cache::store::{EntryWriter, QueueState, Readiness};
use crate::text;

verus! {

/// What a network body gave when it was asked for more.
#[derive(Debug)]
pub enum FrameEvent {
    /// Bytes of the body.
    Data(Vec<u8>),
    /// A frame without bytes, such as trailers.
    Other,
    /// The body failed.
    Error,
    /// The body ended cleanly.
    End,
    /// Nothing yet.
    Pending,
}

/// What is done about the copy in the cache.
#[derive(Debug)]
pub enum TeeStep {
    /// Nothing.
    Nothing,
    /// The partial entry is dropped and those who wait for it are released.
    Abandon,
    /// The entry is published once the store has it all.
    Finish(EntryWriter),
}

/// Copies every frame of a network body into an [`EntryWriter`] on its way through.
///
/// This sits below the content decoder, so what reaches the cache is the body
/// exactly as it came off the wire, with its content coding intact.
#[derive(Debug)]
pub struct TeeBody {
    writer: Option<EntryWriter>,
}

impl TeeBody {
    /// Whether the body is still being copied.
    pub closed spec fn copying(&self) -> bool {
        self.writer is Some
    }

    /// Whether the store still takes what is copied.
    pub closed spec fn is_open(&self) -> bool {
        self.writer is Some && self.writer->0.is_open()
    }

    /// The chunks that were copied and not yet put into the queue towards the store.
    pub closed spec fn held(&self) -> Seq<Seq<u8>> {
        match self.writer {
            Some(writer) => writer.held(),
            None => seq![],
        }
    }

    pub closed spec fn wf(&self) -> bool {
        self.writer matches Some(writer) ==> writer.wf()
    }

    pub fn new(writer: EntryWriter) -> (r: TeeBody)
        requires
            writer.wf(),
        ensures
            r.wf(),
            r.copying(),
            r.is_open() == writer.is_open(),
            r.held() == writer.held(),
    {
        TeeBody { writer: Some(writer) }
    }

    /// Ask whether another frame may be pulled from the network: not before the
    /// store can take another chunk.
    pub fn poll_ready(&mut self, queue: QueueState) -> (r: Readiness)
        requires
            old(self).wf(),
        ensures
            final(self).wf(),
            final(self).copying() == old(self).copying(),
            if store::flatten(old(self).held()).len() < store::BATCH_BYTES {
                r is Ready && *final(self) == *old(self)
            } else if !old(self).is_open() {
                r is Ready && final(self).held().len() == 0 && !final(self).is_open()
            } else {
                match queue {
                    QueueState::Full => r is Pending && *final(self) == *old(self),
                    QueueState::Closed => r is Ready && final(self).held().len() == 0
                        && !final(self).is_open(),
                    QueueState::Room => r matches Readiness::Send(batch) && text::views(batch@)
                        == old(self).held() && final(self).held().len() == 0
                        && final(self).is_open(),
                }
            },
    {
        match self.writer.take() {
            Some(writer) => {
                let mut writer: EntryWriter = writer;
                let r: Readiness = writer.poll_ready(queue);
                self.writer = Some(writer);
                r
            },
            None => Readiness::Ready,
        }
    }

    /// The store turned out to be gone when a batch was put into the queue.
    pub fn lost(&mut self)
        requires
            old(self).wf(),
            old(self).held().len() == 0,
        ensures
            final(self).wf(),
            final(self).copying() == old(self).copying(),
            !final(self).is_open(),
            final(self).held() == old(self).held(),
    {
        match self.writer.take() {
            Some(writer) => {
                let mut writer: EntryWriter = writer;
                writer.lost();
                self.writer = Some(writer);
            },
            None => {},
        }
    }

    /// Note what the network body gave.
    pub fn poll_frame(&mut self, event: FrameEvent) -> (r: TeeStep)
        requires
            old(self).wf(),
            event matches FrameEvent::Data(data) ==> store::flatten(old(self).held()).len()
                + data@.len() <= usize::MAX,
        ensures
            final(self).wf(),
            match event {
                FrameEvent::Data(data) => {
                    &&& r is Nothing
                    &&& final(self).copying() == old(self).copying()
                    &&& final(self).is_open() == old(self).is_open()
                    &&& final(self).held() == if old(self).is_open() {
                        old(self).held().push(data@)
                    } else {
                        old(self).held()
                    }
                },
                FrameEvent::Other | FrameEvent::Pending => r is Nothing && *final(self) == *old(
                    self,
                ),
                FrameEvent::Error => r is Abandon && !final(self).copying(),
                FrameEvent::End => {
                    &&& !final(self).copying()
                    &&& if old(self).copying() {
                        r matches TeeStep::Finish(writer) && writer.wf() && writer.held() == old(
                            self,
                        ).held() && writer.is_open() == old(self).is_open()
                    } else {
                        r is Nothing
                    }
                },
            },
    {
        match event {
            FrameEvent::Data(data) => {
                match self.writer.take() {
                    Some(writer) => {
                        let mut writer: EntryWriter = writer;
                        writer.push(data);
                        self.writer = Some(writer);
                    },
                    None => {},
                }
                TeeStep::Nothing
            },
            FrameEvent::Other => TeeStep::Nothing,
            FrameEvent::Pending => TeeStep::Nothing,
            FrameEvent::Error => {
                self.writer = None;
                TeeStep::Abandon
            },
            FrameEvent::End => match self.writer.take() {
                Some(writer) => TeeStep::Finish(writer),
                None => TeeStep::Nothing,
            },
        }
    }
}

} // verus!
