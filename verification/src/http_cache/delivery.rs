//! Delivering a stored body to the consumer of a response.
use vstd::prelude::*;

verus! {

/// The body of a response that is answered from the cache.
#[derive(Debug)]
pub enum DeliveredBody {
    /// It is handed on as it comes, and not kept.
    Streamed,
    /// What has arrived so far.
    Receiving(Vec<u8>),
    /// All of it.
    Done(Vec<u8>),
}

/// What reading and decoding a stored body gave.
#[derive(Debug)]
pub enum DecodeEvent {
    Chunk(Vec<u8>),
    Failed,
    End,
}

/// What the consumer is told.
#[derive(Debug)]
pub enum Notice {
    /// How long the body is going to be.
    ContentLength(u64),
    Payload(Vec<u8>),
    /// The body could not be decoded.
    Error,
    /// There is no more.
    Done,
}

/// A body on its way to the consumer.
#[derive(Debug)]
pub struct Delivery {
    body: DeliveredBody,
    ended: bool,
}

impl Delivery {
    /// What is kept of the body, if anything is.
    pub closed spec fn kept(&self) -> Option<Seq<u8>> {
        match self.body {
            DeliveredBody::Streamed => None,
            DeliveredBody::Receiving(bytes) => Some(bytes@),
            DeliveredBody::Done(bytes) => Some(bytes@),
        }
    }

    /// Whether the end was reached, so that no more is delivered.
    pub closed spec fn ended(&self) -> bool {
        self.ended
    }

    pub closed spec fn wf(&self) -> bool {
        &&& self.body is Receiving ==> !self.ended
        &&& self.body is Done ==> self.ended
    }

    /// Begin the delivery of a stored body of a length. The length is told first, unless the
    /// body is encoded and comes to another length. `accumulate` says whether the whole
    /// body is kept.
    pub fn new(stored_len: u64, encoded: bool, accumulate: bool) -> (r: (Delivery, Option<Notice>))
        ensures
            r.0.wf(),
            !r.0.ended(),
            r.0.kept() == if accumulate {
                Some(Seq::<u8>::empty())
            } else {
                None
            },
            r.1 == if encoded {
                None
            } else {
                Some(Notice::ContentLength(stored_len))
            },
    {
        let body: DeliveredBody = if accumulate {
            DeliveredBody::Receiving(Vec::new())
        } else {
            DeliveredBody::Streamed
        };
        let first: Option<Notice> = if encoded {
            None
        } else {
            Some(Notice::ContentLength(stored_len))
        };
        (Delivery { body, ended: false }, first)
    }

    /// Go on with what was decoded: what the consumer is told about it. After a failure or
    /// the end, nothing more is decoded, and [`Delivery::finish`] ends the delivery.
    pub fn next(&mut self, event: DecodeEvent) -> (r: Option<Notice>)
        requires
            old(self).wf(),
            !old(self).ended(),
            event matches DecodeEvent::Chunk(chunk) ==> (old(self).kept() matches Some(kept)
                ==> kept.len() + chunk@.len() <= usize::MAX),
        ensures
            final(self).wf(),
            !final(self).ended(),
            match event {
                DecodeEvent::Chunk(chunk) => {
                    &&& r == Some(Notice::Payload(chunk))
                    &&& final(self).kept() == match old(self).kept() {
                        Some(kept) => Some(kept + chunk@),
                        None => None,
                    }
                },
                DecodeEvent::Failed => r == Some(Notice::Error) && final(self).kept() == old(
                    self,
                ).kept(),
                DecodeEvent::End => r is None && final(self).kept() == old(self).kept(),
            },
    {
        match event {
            DecodeEvent::Chunk(chunk) => {
                match &mut self.body {
                    DeliveredBody::Receiving(bytes) => {
                        bytes.extend_from_slice(chunk.as_slice());
                    },
                    _ => {},
                }
                Some(Notice::Payload(chunk))
            },
            DecodeEvent::Failed => Some(Notice::Error),
            DecodeEvent::End => None,
        }
    }

    /// End the delivery, whatever ended it: what is kept is the body, and the consumer is
    /// told that there is no more.
    pub fn finish(&mut self) -> (r: Notice)
        requires
            old(self).wf(),
            !old(self).ended(),
        ensures
            r == Notice::Done,
            final(self).wf(),
            final(self).ended(),
            final(self).kept() == old(self).kept(),
    {
        let mut body: DeliveredBody = DeliveredBody::Streamed;
        std::mem::swap(&mut body, &mut self.body);
        self.body = match body {
            DeliveredBody::Receiving(bytes) => DeliveredBody::Done(bytes),
            other => other,
        };
        self.ended = true;
        Notice::Done
    }

    /// The whole body, once it was delivered and if it was kept.
    pub fn body(&self) -> (r: Option<&Vec<u8>>)
        requires
            self.wf(),
        ensures
            match r {
                Some(bytes) => self.ended() && self.kept() == Some(bytes@),
                None => !self.ended() || self.kept() is None,
            },
    {
        match &self.body {
            DeliveredBody::Done(bytes) => Some(bytes),
            _ => None,
        }
    }
}

} // verus!
