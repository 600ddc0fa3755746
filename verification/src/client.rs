//! The client session core: the send counter, the correlation table,
//! and the decision rule of the background receive loop.
//!
//! The surrounding runtime owns the sockets. To send, it writes one
//! encoded frame in full (under mutual exclusion with other writers),
//! then calls `register_send` with the resolver half of a fresh one-shot
//! waiter. To receive, one task reads frames, turns each read outcome
//! into a `ReadEvent`, and obeys the `ClientStep` that `client_on_read`
//! returns.

use vstd::prelude::*;

use crate::correlation::CorrelationTable;
use crate::packets::{Packet, PacketHeader};
use crate::server::ServerPacketManager;

verus! {

/// What one attempt to read an envelope from the transport produced.
/// The read loop builds this from its socket read and the decoder's
/// verdict.
#[derive(Debug, PartialEq, Eq)]
pub enum ReadEvent {
    /// A well-formed envelope arrived.
    Frame(PacketHeader),
    /// The peer closed the stream cleanly before any byte of a frame.
    CleanEof,
    /// An I/O error, or the stream was cut inside a frame.
    TransportError,
    /// A complete frame arrived whose bytes do not form an envelope.
    ProtocolError,
}

/// What the client's receive loop must do with one read outcome.
#[derive(Debug, PartialEq, Eq)]
pub enum ClientStep<W> {
    /// Deliver this message through this waiter: it is the response to
    /// the request registered under the envelope's id.
    Deliver(W, Packet),
    /// A nonzero id with no pending waiter: stale or unsolicited.
    /// Logged and discarded, never fatal.
    DiscardUnmatched(Packet),
    /// Id 0 arriving at the client is a protocol violation. Logged and
    /// discarded.
    DiscardViolation(Packet),
    /// A transport or protocol error: log it and keep reading.
    Continue,
    /// Clean end of stream: stop the loop. Pending waiters stay
    /// registered until the caller abandons them.
    Stop,
}

/// One connection's sending side: a monotonically increasing send
/// counter and the correlation table of pending waiters.
pub struct ClientPacketManager<W> {
    num_packets: u64,
    waiting_packets: CorrelationTable<W>,
    issued: Ghost<Seq<u64>>,
}

impl<W> ClientPacketManager<W> {
    /// How many sends this session has performed.
    pub closed spec fn counter(&self) -> u64 {
        self.num_packets
    }

    /// The pending registrations: id to waiter.
    pub closed spec fn table(&self) -> Map<u64, W> {
        self.waiting_packets@
    }

    /// Every id this session has allotted, in order of allotment.
    pub closed spec fn issued_ids(&self) -> Seq<u64> {
        self.issued@
    }

    /// Ids are allotted as 1, 2, 3, ...: one per send, consecutive, and
    /// every pending registration is under an id already allotted.
    pub open spec fn wf(&self) -> bool {
        &&& forall|id: u64| #[trigger] self.table().contains_key(id) ==> 1 <= id <= self.counter()
        &&& self.issued_ids().len() == self.counter()
        &&& forall|i: int| 0 <= i < self.issued_ids().len() ==> self.issued_ids()[i] == i + 1
    }

    /// A fresh session: nothing sent, nothing pending.
    pub fn new() -> (c: Self)
        ensures
            c.wf(),
            c.counter() == 0,
            c.table() == Map::<u64, W>::empty(),
            c.issued_ids() == Seq::<u64>::empty(),
    {
        ClientPacketManager {
            num_packets: 0,
            waiting_packets: CorrelationTable::new(),
            issued: Ghost(Seq::empty()),
        }
    }

    /// After one request frame has been written in full, allot the id
    /// under which the response will arrive — the responder increments
    /// its own counter the same way, and there is exactly one responder
    /// per direction — and register the waiter under it. The id is
    /// fresh: no pending registration is ever overwritten, so no id is
    /// reused while a waiter for it is pending.
    pub fn register_send(&mut self, waiter: W) -> (id: u64)
        requires
            old(self).wf(),
            old(self).counter() < u64::MAX,
        ensures
            final(self).wf(),
            id == old(self).counter() + 1,
            final(self).counter() == id,
            !old(self).table().contains_key(id),
            final(self).table() == old(self).table().insert(id, waiter),
            final(self).issued_ids() == old(self).issued_ids().push(id),
    {
        self.num_packets = self.num_packets + 1;
        let id = self.num_packets;
        proof {
            if old(self).table().contains_key(id) {
                assert(id <= old(self).counter());
            }
        }
        let fresh = self.waiting_packets.register(id, waiter);
        proof {
            assert(fresh);
        }
        self.issued = Ghost(self.issued@.push(id));
        proof {
            assert forall|j: u64| #[trigger] self.table().contains_key(j) implies 1 <= j
                <= self.counter() by {
                if j != id {
                    assert(old(self).table().contains_key(j));
                }
            }
            assert forall|i: int| 0 <= i < self.issued_ids().len() implies self.issued_ids()[i] == i
                + 1 by {
                if i < old(self).issued_ids().len() {
                    assert(self.issued_ids()[i] == old(self).issued_ids()[i]);
                }
            }
        }
        id
    }

    /// One step of the background receive loop. Only a clean end of
    /// stream stops the loop; everything else is delivered, discarded
    /// or retried, and the session state says so exactly.
    pub fn client_on_read(&mut self, event: ReadEvent) -> (step: ClientStep<W>)
        requires
            old(self).wf(),
        ensures
            final(self).wf(),
            final(self).counter() == old(self).counter(),
            final(self).issued_ids() == old(self).issued_ids(),
            match event {
                ReadEvent::Frame(h) => {
                    &&& final(self).table() == (if h.target_id != 0 {
                        old(self).table().remove(h.target_id)
                    } else {
                        old(self).table()
                    })
                    &&& (h.target_id == 0 ==> step == ClientStep::<W>::DiscardViolation(h.packet))
                    &&& (h.target_id != 0 && old(self).table().contains_key(h.target_id) ==> step
                        == ClientStep::<W>::Deliver(old(self).table()[h.target_id], h.packet))
                    &&& (h.target_id != 0 && !old(self).table().contains_key(h.target_id) ==> step
                        == ClientStep::<W>::DiscardUnmatched(h.packet))
                },
                ReadEvent::CleanEof => {
                    &&& step == ClientStep::<W>::Stop
                    &&& final(self).table() == old(self).table()
                },
                ReadEvent::TransportError => {
                    &&& step == ClientStep::<W>::Continue
                    &&& final(self).table() == old(self).table()
                },
                ReadEvent::ProtocolError => {
                    &&& step == ClientStep::<W>::Continue
                    &&& final(self).table() == old(self).table()
                },
            },
    {
        match event {
            ReadEvent::Frame(h) => {
                if h.target_id == 0 {
                    ClientStep::DiscardViolation(h.packet)
                } else {
                    match self.waiting_packets.resolve(h.target_id) {
                        Some(w) => ClientStep::Deliver(w, h.packet),
                        None => ClientStep::DiscardUnmatched(h.packet),
                    }
                }
            },
            ReadEvent::CleanEof => ClientStep::Stop,
            ReadEvent::TransportError => ClientStep::Continue,
            ReadEvent::ProtocolError => ClientStep::Continue,
        }
    }

    /// Cancellation: a caller that stops waiting must abandon its
    /// registration, or the entry would stay in the table forever.
    pub fn abandon(&mut self, id: u64) -> (present: bool)
        requires
            old(self).wf(),
        ensures
            final(self).wf(),
            final(self).counter() == old(self).counter(),
            final(self).issued_ids() == old(self).issued_ids(),
            present == old(self).table().contains_key(id),
            final(self).table() == old(self).table().remove(id),
    {
        let present = self.waiting_packets.abandon(id);
        proof {
            assert forall|j: u64| #[trigger] self.table().contains_key(j) implies 1 <= j
                <= self.counter() by {
                assert(old(self).table().contains_key(j));
            }
        }
        present
    }

    /// Whether a waiter is still pending under this id.
    pub fn pending(&self, id: u64) -> (r: bool)
        ensures
            r == self.table().contains_key(id),
    {
        self.waiting_packets.contains(id)
    }

    /// How many sends this session has performed: the last id allotted.
    pub fn sent_count(&self) -> (n: u64)
        ensures
            n == self.counter(),
    {
        self.num_packets
    }

    /// How many responses are still outstanding.
    pub fn pending_count(&self) -> (n: usize)
        ensures
            n == self.table().len(),
    {
        self.waiting_packets.len()
    }
}

/// Id monotonicity: the ids a session observes for its sends — one per
/// send, by the counter rule — are strictly increasing and consecutive,
/// with no gaps: the i-th send is answered under id i + 1.
pub proof fn lemma_id_monotonicity<W>(c: ClientPacketManager<W>)
    requires
        c.wf(),
    ensures
        forall|i: int, j: int|
            0 <= i < j < c.issued_ids().len() ==> c.issued_ids()[i] < c.issued_ids()[j],
        forall|i: int|
            0 <= i && i + 1 < c.issued_ids().len() ==> #[trigger] c.issued_ids()[i + 1]
                == c.issued_ids()[i] + 1,
        c.issued_ids().len() == c.counter(),
{
}

/// Why registering under the sender's own next counter value works: the
/// responder assigns response ids by the same counter rule, so a client
/// and a responder that have counted the same number of exchanges have
/// issued exactly the same ids, in the same order. There is one
/// responder and one counter per direction, so the counts agree.
pub proof fn lemma_counter_rule_agreement<W>(c: ClientPacketManager<W>, s: ServerPacketManager)
    requires
        c.wf(),
        s.wf(),
        c.counter() == s.counter(),
    ensures
        c.issued_ids() == s.issued_ids(),
{
    assert(c.issued_ids() =~= s.issued_ids());
}

} // verus!
