//! The dispatch-loop core: the decision rule for one connection on the
//! receiving side, and the response counter.
//!
//! The surrounding runtime owns the socket and the handler capability.
//! Its loop reads one frame, turns the read outcome into a `ReadEvent`,
//! and obeys `dispatch_step`: on `Dispatch` it calls the handler — total,
//! one call at a time per connection — then builds the response envelope
//! with `make_response` and writes its frame in full under the same
//! write mutual exclusion as any other writer.

use vstd::prelude::*;

use crate::client::ReadEvent;
use crate::packets::{Packet, PacketHeader};

verus! {

/// What the dispatch loop must do with one read outcome.
#[derive(Debug, PartialEq, Eq)]
pub enum ServerStep {
    /// Hand this message to the handler capability, then respond with
    /// the handler's result.
    Dispatch(Packet),
    /// A transport or protocol error: log it and keep reading.
    Continue,
    /// Clean end of stream: this connection is done.
    Stop,
}

/// One connection's responding side: the counter whose increments
/// become the correlation ids of the responses.
pub struct ServerPacketManager {
    num_packets: u64,
    issued: Ghost<Seq<u64>>,
}

/// The dispatch loop's decision rule: every well-formed envelope is
/// dispatched to the handler, whatever its id; only a clean end of
/// stream stops the loop; any other failure is logged and retried.
pub fn dispatch_step(event: ReadEvent) -> (step: ServerStep)
    ensures
        match event {
            ReadEvent::Frame(h) => step == ServerStep::Dispatch(h.packet),
            ReadEvent::CleanEof => step == ServerStep::Stop,
            ReadEvent::TransportError => step == ServerStep::Continue,
            ReadEvent::ProtocolError => step == ServerStep::Continue,
        },
{
    match event {
        ReadEvent::Frame(h) => ServerStep::Dispatch(h.packet),
        ReadEvent::CleanEof => ServerStep::Stop,
        ReadEvent::TransportError => ServerStep::Continue,
        ReadEvent::ProtocolError => ServerStep::Continue,
    }
}

impl ServerPacketManager {
    /// How many responses this connection has produced.
    pub closed spec fn counter(&self) -> u64 {
        self.num_packets
    }

    /// Every response id issued, in order of issue.
    pub closed spec fn issued_ids(&self) -> Seq<u64> {
        self.issued@
    }

    /// Response ids are issued as 1, 2, 3, ...: the counter incremented
    /// before each response is written becomes that response's id.
    pub open spec fn wf(&self) -> bool {
        &&& self.issued_ids().len() == self.counter()
        &&& forall|i: int| 0 <= i < self.issued_ids().len() ==> self.issued_ids()[i] == i + 1
    }

    /// A fresh connection: no responses yet.
    pub fn new() -> (s: Self)
        ensures
            s.wf(),
            s.counter() == 0,
            s.issued_ids() == Seq::<u64>::empty(),
    {
        ServerPacketManager { num_packets: 0, issued: Ghost(Seq::empty()) }
    }

    /// How many responses this connection has produced so far: the last
    /// response id issued.
    pub fn responses_count(&self) -> (n: u64)
        ensures
            n == self.counter(),
    {
        self.num_packets
    }

    /// Build the response envelope for a handler result: increment the
    /// counter and put the new value on the envelope. Response ids are
    /// never 0, so a response can never be mistaken for a request.
    pub fn make_response(&mut self, result: Packet) -> (h: PacketHeader)
        requires
            old(self).wf(),
            old(self).counter() < u64::MAX,
        ensures
            final(self).wf(),
            final(self).counter() == old(self).counter() + 1,
            h@.target_id == final(self).counter(),
            h@.target_id != 0,
            h@.packet == result@,
            final(self).issued_ids() == old(self).issued_ids().push(h@.target_id),
    {
        self.num_packets = self.num_packets + 1;
        let id = self.num_packets;
        self.issued = Ghost(self.issued@.push(id));
        result.as_response(id)
    }
}

/// Id monotonicity, responder side: sequential responses carry strictly
/// increasing, consecutive ids with no gaps — the i-th response ever
/// written on this connection carries id i + 1.
pub proof fn lemma_response_id_monotonicity(s: ServerPacketManager)
    requires
        s.wf(),
    ensures
        forall|i: int, j: int|
            0 <= i < j < s.issued_ids().len() ==> s.issued_ids()[i] < s.issued_ids()[j],
        forall|i: int|
            0 <= i && i + 1 < s.issued_ids().len() ==> #[trigger] s.issued_ids()[i + 1]
                == s.issued_ids()[i] + 1,
        s.issued_ids().len() == s.counter(),
{
}

} // verus!
