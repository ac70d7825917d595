//! The response stream: the lazily produced, finite sequence of decode
//! results for one submitted query.  The caller that drives the transport
//! feeds the stream each delivery in arrival order; the stream decodes one
//! message per call, so memory is bounded by one in-flight message plus what
//! the consumer retains.

use vstd::prelude::*;

use crate::attr::EthtoolAttr;
use crate::attr::attrs_result_view;
use crate::attr::parse_link_state_nlas;
use crate::attr::spec_parse_attrs;
use crate::error::DecodeError;

verus! {

/// One delivery from the transport for an in-flight request: the payload of
/// one decoded top-level message, or the end-of-multipart marker.
#[derive(Debug)]
pub enum TransportEvent {
    Payload(Vec<u8>),
    Done,
}

/// Mathematical model of a transport event.
pub enum SpecTransportEvent {
    Payload(Seq<u8>),
    Done,
}

impl View for TransportEvent {
    type V = SpecTransportEvent;

    open spec fn view(&self) -> SpecTransportEvent {
        match self {
            TransportEvent::Payload(b) => SpecTransportEvent::Payload(b@),
            TransportEvent::Done => SpecTransportEvent::Done,
        }
    }
}

/// The per-request stream of decode results.  Each message payload handed in
/// yields exactly one item: the ordered attribute sequence it decodes to, or
/// the decode error for that message alone.  A failed item leaves the stream
/// able to yield further items; the end marker finishes the stream for good.
/// It is not restartable: a new query makes a new stream.  Dropping it at any
/// point is a valid way to stop consuming; it holds no transport resource.
pub struct ResponseStream {
    finished: bool,
}

impl ResponseStream {
    /// Whether the end-of-multipart marker has been consumed.
    pub closed spec fn spec_finished(&self) -> bool {
        self.finished
    }

    /// A stream awaiting its first delivery.
    pub fn new() -> (r: Self)
        ensures
            !r.spec_finished(),
    {
        ResponseStream { finished: false }
    }

    /// Whether the stream has terminated.
    pub fn is_finished(&self) -> (b: bool)
        ensures
            b == self.spec_finished(),
    {
        self.finished
    }

    /// Consumes one transport delivery.  A message payload is decoded here
    /// and now, one message per call, and yields its item; the end marker
    /// terminates the stream, and a finished stream yields nothing more.
    pub fn advance(&mut self, event: TransportEvent) -> (r: Option<
        Result<Vec<EthtoolAttr>, DecodeError>,
    >)
        ensures
            old(self).spec_finished() ==> final(self).spec_finished() && r is None,
            !old(self).spec_finished() ==> match event@ {
                SpecTransportEvent::Done => final(self).spec_finished() && r is None,
                SpecTransportEvent::Payload(b) => !final(self).spec_finished() && (match r {
                    Some(item) => attrs_result_view(item) == spec_parse_attrs(b),
                    None => false,
                }),
            },
    {
        if self.finished {
            return None;
        }
        match event {
            TransportEvent::Done => {
                self.finished = true;
                None
            },
            TransportEvent::Payload(bytes) => Some(parse_link_state_nlas(bytes.as_slice())),
        }
    }
}

} // verus!
