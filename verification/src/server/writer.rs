//! The hand-off between a session and the task that owns the socket: an
//! ordered queue of sealing commands with its byte reservations, the task's
//! own queue of sealed packets, and the rules by which it pulls, seals, writes
//! and stops. Sockets and ciphers stay with the program; what they return
//! comes in as an argument.
use bytes::Bytes;
use std::collections::{HashSet, VecDeque};
use vstd::prelude::*;

use crate::server::ledger;
use crate::server::ledger::FullLedger;
use crate::sshbuffer::{CipherKey, Compression};
use crate::wire;
use crate::wire::{bytes_len, WIRE_OVERHEAD_PER_PACKET};

verus! {

broadcast use vstd::std_specs::hash::group_hash_axioms;

/// Control commands that the writer's queue holds at most.
pub const KEX_QUEUE_CAP: usize = 16;

/// Sealing commands that the writer's queue holds at most.
pub const BULK_QUEUE_CAP: usize = 256;

/// Sealed packets at which the writer stops pulling commands.
pub const OUT_Q_SOFT_CAP: usize = 64;

/// Packets that one socket write gathers at most.
pub const MAX_GATHER_SEGMENTS: usize = 16;

/// The channels, by the peer's number, whose unsealed packets are to be dropped.
#[derive(Debug)]
pub struct CloseTombstone {
    pub ids: HashSet<u32>,
}

impl Default for CloseTombstone {
    /// No channel.
    fn default() -> (r: CloseTombstone)
        ensures
            r@ == Set::<u32>::empty(),
    {
        CloseTombstone { ids: HashSet::new() }
    }
}

impl View for CloseTombstone {
    type V = Set<u32>;

    open spec fn view(&self) -> Set<u32> {
        self.ids@
    }
}

impl CloseTombstone {
    /// No channel.
    pub fn new() -> (r: CloseTombstone)
        ensures
            r@ == Set::<u32>::empty(),
    {
        Self::default()
    }

    /// Marks a channel.
    pub fn insert(&mut self, recipient: u32)
        ensures
            final(self)@ == old(self)@.insert(recipient),
    {
        self.ids.insert(recipient);
    }

    /// Whether a channel is marked.
    pub fn contains(&self, recipient: u32) -> (r: bool)
        ensures
            r == self@.contains(recipient),
    {
        self.ids.contains(&recipient)
    }

    /// Unmarks a channel.
    pub fn remove(&mut self, recipient: u32)
        ensures
            final(self)@ == old(self)@.remove(recipient),
    {
        self.ids.remove(&recipient);
    }
}

/// The writer's packet count and sequence number, as last published.
#[derive(Clone, Copy, Debug, PartialEq, Eq, Structural)]
pub struct WriterObserveSlot {
    pub packets_this_epoch: u64,
    pub seqn: u32,
}

impl Default for WriterObserveSlot {
    /// Nothing published yet.
    fn default() -> (r: WriterObserveSlot)
        ensures
            r == (WriterObserveSlot { packets_this_epoch: 0, seqn: 0 }),
    {
        WriterObserveSlot { packets_this_epoch: 0, seqn: 0 }
    }
}

impl WriterObserveSlot {
    /// Nothing published yet.
    pub fn new() -> (r: WriterObserveSlot)
        ensures
            r == (WriterObserveSlot { packets_this_epoch: 0, seqn: 0 }),
    {
        Self::default()
    }

    /// Publishes the packet count.
    pub fn set_packets_this_epoch(&mut self, n: u64)
        ensures
            *final(self) == (WriterObserveSlot { packets_this_epoch: n, ..*old(self) }),
    {
        self.packets_this_epoch = n;
    }

    /// The packet count.
    pub fn packets_this_epoch(&self) -> (r: u64)
        ensures
            r == self.packets_this_epoch,
    {
        self.packets_this_epoch
    }

    /// Publishes the sequence number.
    pub fn set_seqn(&mut self, s: u32)
        ensures
            *final(self) == (WriterObserveSlot { seqn: s, ..*old(self) }),
    {
        self.seqn = s;
    }

    /// The sequence number.
    pub fn seqn(&self) -> (r: u32)
        ensures
            r == self.seqn,
    {
        self.seqn
    }
}

/// What a payload reserves until it is sealed.
pub open spec fn reservation(len: nat) -> usize {
    wire::sat(len + WIRE_OVERHEAD_PER_PACKET as nat)
}

/// What a payload reserves until it is sealed.
pub fn seal_reservation(payload_len: usize) -> (r: usize)
    ensures
        r == reservation(payload_len as nat),
{
    payload_len.saturating_add(WIRE_OVERHEAD_PER_PACKET)
}

/// What a list of payloads reserves.
pub open spec fn reservations(ps: Seq<Seq<u8>>) -> usize
    decreases ps.len(),
{
    if ps.len() == 0 {
        0
    } else {
        ledger::sat_sum(reservations(ps.drop_last()), reservation(ps.last().len()))
    }
}

/// What the buffers of `v` hold.
pub open spec fn payloads_view(v: Seq<Bytes>) -> Seq<Seq<u8>> {
    v.map_values(|b: Bytes| wire::bytes_view(b))
}

/// What a list of payloads reserves.
pub fn batch_reservation(payloads: &Vec<Bytes>, start: usize) -> (r: usize)
    requires
        start <= payloads@.len(),
    ensures
        r == reservations(payloads_view(payloads@).skip(start as int)),
{
    let ghost ps = payloads_view(payloads@).skip(start as int);
    let mut total: usize = 0;
    let mut i: usize = start;
    while i < payloads.len()
        invariant
            start <= i <= payloads@.len(),
            ps == payloads_view(payloads@).skip(start as int),
            total == reservations(ps.take(i - start)),
        decreases payloads@.len() - i,
    {
        assert(ps.take(i + 1 - start).drop_last() =~= ps.take(i - start));
        total = total.saturating_add(seal_reservation(bytes_len(&payloads[i])));
        i = i + 1;
    }
    assert(ps.take(i - start) =~= ps);
    total
}

/// A key to install for outbound packets, and what goes with it.
#[derive(Clone, Copy, Debug, PartialEq, Eq, Structural)]
pub struct OutboundEpoch {
    pub generation: u64,
    pub cipher: CipherKey,
    pub outbound_compression: Compression,
    /// Without it the compressor stays off until it is asked for.
    pub activate_compress: bool,
    pub reset_seqn: bool,
}

/// Why a payload was not taken.
#[derive(Debug)]
pub enum TrySendWireError {
    /// The queue is full; here is the payload back.
    Full(Bytes),
    /// The queue is full; the command carried no payload.
    FullCmd,
    /// The writer is gone.
    Closed,
}

/// Why an install was not taken.
#[derive(Debug)]
pub enum TrySendEpochError {
    /// The queue is full; here is everything back.
    Full { payloads: Vec<Bytes>, epoch: OutboundEpoch },
    /// The writer is gone.
    Closed,
}

/// What a session asks of the writer, in order.
#[derive(Debug)]
pub enum WriterCmd {
    SealPayload(Bytes),
    SealRaw(Bytes),
    /// Seal under the key in force, then install the new one, with nothing in
    /// between.
    SealBatchAndInstallEpoch { payloads: Vec<Bytes>, epoch: OutboundEpoch, ack: u64 },
    InstallOutboundEpoch { epoch: OutboundEpoch, ack: u64 },
    /// Start the compressor that was put off until authentication.
    InitOutboundCompress { compression: Compression, ack: u64 },
    Shutdown(u64),
}

/// The content of a [`WriterCmd`].
#[verifier::ext_equal]
pub enum Cmd {
    SealPayload(Seq<u8>),
    SealRaw(Seq<u8>),
    SealBatchAndInstallEpoch { payloads: Seq<Seq<u8>>, epoch: OutboundEpoch, ack: u64 },
    InstallOutboundEpoch { epoch: OutboundEpoch, ack: u64 },
    InitOutboundCompress { compression: Compression, ack: u64 },
    Shutdown(u64),
}

impl View for WriterCmd {
    type V = Cmd;

    open spec fn view(&self) -> Cmd {
        match *self {
            WriterCmd::SealPayload(b) => Cmd::SealPayload(wire::bytes_view(b)),
            WriterCmd::SealRaw(b) => Cmd::SealRaw(wire::bytes_view(b)),
            WriterCmd::SealBatchAndInstallEpoch { payloads, epoch, ack } => {
                Cmd::SealBatchAndInstallEpoch { payloads: payloads_view(payloads@), epoch, ack }
            },
            WriterCmd::InstallOutboundEpoch { epoch, ack } => Cmd::InstallOutboundEpoch {
                epoch,
                ack,
            },
            WriterCmd::InitOutboundCompress { compression, ack } => Cmd::InitOutboundCompress {
                compression,
                ack,
            },
            WriterCmd::Shutdown(ack) => Cmd::Shutdown(ack),
        }
    }
}

/// The commands of a queue.
pub open spec fn cmds(q: Seq<WriterCmd>) -> Seq<Cmd> {
    q.map_values(|c: WriterCmd| c@)
}

/// Control commands that overtake the queue.
#[derive(Clone, Copy, Debug, PartialEq, Eq, Structural)]
pub enum KexCmd {
    Shutdown(u64),
}

/// Why a socket write failed.
#[derive(Clone, Copy, Debug, PartialEq, Eq, Structural)]
pub enum WriteErrorKind {
    /// The socket took nothing.
    WriteZero,
    /// The reservations did not add up.
    Ledger,
    BrokenPipe,
    ConnectionAborted,
    ConnectionReset,
    NotConnected,
    TimedOut,
    Interrupted,
    WouldBlock,
    UnexpectedEof,
    /// The socket reported an error of another kind.
    Other,
}

/// What the writer tells the session.
#[derive(Clone, Copy, Debug, PartialEq, Eq, Structural)]
pub enum WriterEvent {
    InstallAckOutbound { generation: u64 },
    KexQueueFull,
    WriteError(WriteErrorKind),
    SealError,
}

/// What a session and its writer share.
#[derive(Debug)]
pub struct WriterHandle {
    pub bulk: VecDeque<WriterCmd>,
    pub kex: VecDeque<KexCmd>,
    /// The writer no longer takes commands.
    pub closed: bool,
    /// The session no longer sends any.
    pub hung_up: bool,
    /// Bytes taken and not yet on the socket.
    pub pending_bytes: usize,
    /// Payload bytes sealed under the key in force.
    pub cipher_bytes: u64,
    /// Packets sealed under the key in force.
    pub packets_this_epoch: u64,
    /// Room has become free since the session last looked.
    pub capacity: bool,
    pub tombstone: CloseTombstone,
    pub next_ack: u64,
    pub full_ledger: Option<FullLedger>,
    /// Refuses installs as if the queue were full.
    pub force_next_bulk_full: bool,
}

/// What a writer can be started with besides its packet writer.
#[derive(Debug)]
pub struct WriterHooks {
    pub tombstone: CloseTombstone,
    pub full_ledger: Option<FullLedger>,
    pub force_next_bulk_full: bool,
}

impl Default for WriterHooks {
    /// No channel marked, no ledger, nothing forced.
    fn default() -> (r: WriterHooks)
        ensures
            r.tombstone@ == Set::<u32>::empty(),
            r.full_ledger is None,
            !r.force_next_bulk_full,
    {
        WriterHooks {
            tombstone: CloseTombstone::new(),
            full_ledger: None,
            force_next_bulk_full: false,
        }
    }
}

/// The content of a [`WriterHandle`].
#[verifier::ext_equal]
pub struct Link {
    pub bulk: Seq<Cmd>,
    pub kex: Seq<KexCmd>,
    pub closed: bool,
    pub hung_up: bool,
    pub pending_bytes: usize,
    pub cipher_bytes: u64,
    pub packets_this_epoch: u64,
    pub capacity: bool,
    pub tombstone: Set<u32>,
    pub next_ack: u64,
    pub full_ledger: Option<FullLedger>,
    pub force_next_bulk_full: bool,
}

impl View for WriterHandle {
    type V = Link;

    open spec fn view(&self) -> Link {
        Link {
            bulk: cmds(self.bulk@),
            kex: self.kex@,
            closed: self.closed,
            hung_up: self.hung_up,
            pending_bytes: self.pending_bytes,
            cipher_bytes: self.cipher_bytes,
            packets_this_epoch: self.packets_this_epoch,
            capacity: self.capacity,
            tombstone: self.tombstone@,
            next_ack: self.next_ack,
            full_ledger: self.full_ledger,
            force_next_bulk_full: self.force_next_bulk_full,
        }
    }
}

impl Link {
    /// An empty queue.
    pub open spec fn idle(tombstone: Set<u32>, ledger: Option<FullLedger>, full: bool) -> Link {
        Link {
            bulk: Seq::empty(),
            kex: Seq::empty(),
            closed: false,
            hung_up: false,
            pending_bytes: 0,
            cipher_bytes: 0,
            packets_this_epoch: 0,
            capacity: false,
            tombstone,
            next_ack: 0,
            full_ledger: match ledger {
                Some(l) => Some(l.at_writer(0)),
                None => None,
            },
            force_next_bulk_full: full,
        }
    }

    /// Room for one more command.
    pub open spec fn room(self) -> bool {
        self.bulk.len() < BULK_QUEUE_CAP
    }

    /// `n` bytes taken in, for a key exchange or not.
    pub open spec fn reserved(self, n: usize, as_kex: bool) -> Link {
        Link {
            pending_bytes: self.pending_bytes.wrapping_add(n),
            full_ledger: match self.full_ledger {
                Some(l) => Some(
                    if as_kex {
                        l.at_writer(self.pending_bytes.wrapping_add(n)).kex_to_writer(n)
                    } else {
                        l.at_writer(self.pending_bytes.wrapping_add(n)).credited(n)
                    },
                ),
                None => None,
            },
            ..self
        }
    }

    /// `n` bytes of the ledger let out, for a key exchange or not.
    pub open spec fn ledger_debited(self, n: usize, as_kex: bool) -> Link {
        Link {
            full_ledger: match self.full_ledger {
                Some(l) => Some(
                    if as_kex {
                        l.at_writer(self.pending_bytes).kex_from_writer(n)
                    } else {
                        l.at_writer(self.pending_bytes).debited(n)
                    },
                ),
                None => None,
            },
            ..self
        }
    }

    /// A subtraction did not fit: counted in the ledger.
    pub open spec fn ledger_mismatched(self) -> Link {
        Link {
            full_ledger: match self.full_ledger {
                Some(l) => Some(FullLedger { slot: l.slot.mismatched(), ..l }),
                None => None,
            },
            ..self
        }
    }

    /// `n` bytes off what is pending, and off the ledger where they fit.
    pub open spec fn refunded(self, n: usize, as_kex: bool) -> Link {
        if n <= self.pending_bytes {
            (Link { pending_bytes: (self.pending_bytes - n) as usize, ..self }).ledger_debited(
                n,
                as_kex,
            )
        } else {
            self.ledger_mismatched()
        }
    }

    /// A reservation taken back because the queue refused the command.
    pub open spec fn rolled_back(self, n: usize, as_kex: bool) -> Link {
        if n == 0 {
            self
        } else if n <= self.pending_bytes {
            (Link { pending_bytes: (self.pending_bytes - n) as usize, ..self }).ledger_debited(
                n,
                as_kex,
            )
        } else {
            self.ledger_mismatched().ledger_debited(n, as_kex)
        }
    }

    /// The queue was full: counted in the ledger.
    pub open spec fn full_hit(self) -> Link {
        Link {
            full_ledger: match self.full_ledger {
                Some(l) => Some(
                    FullLedger {
                        slot: ledger::LedgerMaxSlot {
                            full_hits: l.slot.full_hits.wrapping_add(1),
                            ..l.slot
                        },
                        ..l
                    },
                ),
                None => None,
            },
            ..self
        }
    }

    /// The queue after a command of weight `n` was offered.
    pub open spec fn offered(self, c: Cmd, n: usize) -> Link {
        let r = if n > 0 {
            self.reserved(n, false)
        } else {
            self
        };
        if self.closed {
            r.rolled_back(n, false)
        } else if self.room() {
            Link { bulk: r.bulk.push(c), ..r }
        } else {
            r.rolled_back(n, false).full_hit()
        }
    }

    /// The queue after a payload was offered; an empty one is not queued.
    pub open spec fn offered_payload(self, p: Seq<u8>, raw: bool) -> Link {
        if p.len() == 0 {
            self
        } else {
            self.offered(
                if raw {
                    Cmd::SealRaw(p)
                } else {
                    Cmd::SealPayload(p)
                },
                reservation(p.len()),
            )
        }
    }

    /// A payload was taken.
    pub open spec fn takes_payload(self, p: Seq<u8>) -> bool {
        p.len() == 0 || (!self.closed && self.room())
    }

    /// The queue after a batch and its install were offered.
    pub open spec fn offered_batch(self, payloads: Seq<Seq<u8>>, epoch: OutboundEpoch) -> Link {
        let n = reservations(payloads);
        let r = if n > 0 {
            self.reserved(n, true)
        } else {
            self
        };
        if self.force_next_bulk_full {
            self
        } else if self.closed {
            (Link { next_ack: self.next_ack.wrapping_add(1), ..r }).rolled_back(n, true)
        } else if self.room() {
            Link {
                bulk: r.bulk.push(
                    Cmd::SealBatchAndInstallEpoch { payloads, epoch, ack: self.next_ack },
                ),
                next_ack: self.next_ack.wrapping_add(1),
                ..r
            }
        } else {
            (Link { next_ack: self.next_ack.wrapping_add(1), ..r }).rolled_back(n, true).full_hit()
        }
    }

    /// The queue after a key to install was offered.
    pub open spec fn offered_install(self, epoch: OutboundEpoch) -> Link {
        Link {
            bulk: if !self.closed && self.room() {
                self.bulk.push(Cmd::InstallOutboundEpoch { epoch, ack: self.next_ack })
            } else {
                self.bulk
            },
            next_ack: self.next_ack.wrapping_add(1),
            ..self
        }
    }

    /// The queues after the writer was asked to stop: past the queue where that
    /// is possible, else through it, else not at all.
    pub open spec fn asked_to_stop(self) -> Link {
        let next_ack = self.next_ack.wrapping_add(1);
        if !self.closed && self.kex.len() < KEX_QUEUE_CAP {
            Link { kex: self.kex.push(KexCmd::Shutdown(self.next_ack)), next_ack, ..self }
        } else if !self.closed && self.room() {
            Link { bulk: self.bulk.push(Cmd::Shutdown(self.next_ack)), next_ack, ..self }
        } else {
            Link { next_ack, ..self }
        }
    }
}

impl WriterHandle {
    /// An empty queue.
    pub fn new() -> (r: WriterHandle)
        ensures
            r@ == Link::idle(Set::empty(), None, false),
    {
        Self::with_hooks(WriterHooks::default())
    }

    /// An empty queue with the given hooks.
    pub fn with_hooks(hooks: WriterHooks) -> (r: WriterHandle)
        ensures
            r@ == Link::idle(hooks.tombstone@, hooks.full_ledger, hooks.force_next_bulk_full),
    {
        let mut full_ledger = hooks.full_ledger;
        if let Some(mut l) = full_ledger {
            l.note_writer(0);
            full_ledger = Some(l);
        }
        let r = WriterHandle {
            bulk: VecDeque::new(),
            kex: VecDeque::new(),
            closed: false,
            hung_up: false,
            pending_bytes: 0,
            cipher_bytes: 0,
            packets_this_epoch: 0,
            capacity: false,
            tombstone: hooks.tombstone,
            next_ack: 0,
            full_ledger,
            force_next_bulk_full: hooks.force_next_bulk_full,
        };
        assert(cmds(r.bulk@) =~= Seq::<Cmd>::empty());
        r
    }

    /// Takes `n` bytes in.
    pub(crate) fn reserve(&mut self, n: usize, as_kex: bool)
        ensures
            final(self)@ == old(self)@.reserved(n, as_kex),
    {
        self.pending_bytes = self.pending_bytes.wrapping_add(n);
        if let Some(mut l) = self.full_ledger {
            l.note_writer(self.pending_bytes);
            if as_kex {
                l.credit_kex_to_writer(n);
            } else {
                l.credit(n);
            }
            self.full_ledger = Some(l);
        }
    }

    /// Lets `n` bytes of the ledger out.
    fn debit_ledger(&mut self, n: usize, as_kex: bool)
        ensures
            final(self)@ == old(self)@.ledger_debited(n, as_kex),
    {
        if let Some(mut l) = self.full_ledger {
            l.note_writer(self.pending_bytes);
            if as_kex {
                l.debit_kex_from_writer(n);
            } else {
                l.debit(n);
            }
            self.full_ledger = Some(l);
        }
    }

    /// Counts a subtraction that did not fit.
    pub(crate) fn note_ledger_mismatch(&mut self)
        ensures
            final(self)@ == old(self)@.ledger_mismatched(),
    {
        if let Some(mut l) = self.full_ledger {
            l.slot.note_mismatch();
            self.full_ledger = Some(l);
        }
    }

    /// Counts a full queue.
    fn note_full_hit(&mut self)
        ensures
            final(self)@ == old(self)@.full_hit(),
    {
        if let Some(mut l) = self.full_ledger {
            l.slot.note_full_hit();
            self.full_ledger = Some(l);
        }
    }

    /// Takes a reservation back after the queue refused the command.
    fn rollback_reservation(&mut self, weight: usize, as_kex: bool)
        ensures
            final(self)@ == old(self)@.rolled_back(weight, as_kex),
    {
        if weight == 0 {
            return ;
        }
        if weight <= self.pending_bytes {
            self.pending_bytes = self.pending_bytes - weight;
        } else {
            self.note_ledger_mismatch();
        }
        self.debit_ledger(weight, as_kex);
    }

    /// Gives a reservation back for what was never written.
    pub(crate) fn refund(&mut self, n: usize, as_kex: bool)
        ensures
            final(self)@ == old(self)@.refunded(n, as_kex),
    {
        if n <= self.pending_bytes {
            self.pending_bytes = self.pending_bytes - n;
            self.debit_ledger(n, as_kex);
        } else {
            self.note_ledger_mismatch();
        }
    }

    /// Offers a command of the given weight. A full queue gives the payload
    /// back; a closed one is final. Either way the reservation is taken back.
    fn try_send_cmd(&mut self, cmd: WriterCmd, weight: usize) -> (r: Result<(), TrySendWireError>)
        ensures
            final(self)@ == old(self)@.offered(cmd@, weight),
            old(self)@.closed ==> r matches Err(TrySendWireError::Closed),
            !old(self)@.closed && old(self)@.room() ==> r is Ok,
            !old(self)@.closed && !old(self)@.room() ==> match cmd@ {
                Cmd::SealPayload(p) => r matches Err(TrySendWireError::Full(b)) && wire::bytes_view(
                    b,
                ) == p,
                Cmd::SealRaw(p) => r matches Err(TrySendWireError::Full(b)) && wire::bytes_view(b)
                    == p,
                _ => r matches Err(TrySendWireError::FullCmd),
            },
    {
        if weight > 0 {
            self.reserve(weight, false);
        }
        if self.closed {
            self.rollback_reservation(weight, false);
            return Err(TrySendWireError::Closed);
        }
        if self.bulk.len() < BULK_QUEUE_CAP {
            let ghost before = self.bulk@;
            self.bulk.push_back(cmd);
            assert(cmds(self.bulk@) =~= cmds(before).push(cmd@));
            return Ok(());
        }
        self.rollback_reservation(weight, false);
        self.note_full_hit();
        match cmd {
            WriterCmd::SealPayload(b) => Err(TrySendWireError::Full(b)),
            WriterCmd::SealRaw(b) => Err(TrySendWireError::Full(b)),
            _ => Err(TrySendWireError::FullCmd),
        }
    }

    /// Offers a payload; an empty one is taken without effect.
    pub fn try_seal_payload(&mut self, payload: Bytes) -> (r: Result<(), TrySendWireError>)
        ensures
            final(self)@ == old(self)@.offered_payload(wire::bytes_view(payload), false),
            r is Ok <==> old(self)@.takes_payload(wire::bytes_view(payload)),
            r matches Err(e) ==> match e {
                TrySendWireError::Full(b) => !old(self)@.closed && wire::bytes_view(b)
                    == wire::bytes_view(payload),
                TrySendWireError::FullCmd => false,
                TrySendWireError::Closed => old(self)@.closed,
            },
    {
        let len: usize = bytes_len(&payload);
        if len == 0 {
            return Ok(());
        }
        self.try_send_cmd(WriterCmd::SealPayload(payload), seal_reservation(len))
    }

    /// Offers a payload that was framed in the staging buffer.
    pub fn try_seal_raw(&mut self, payload: Bytes) -> (r: Result<(), TrySendWireError>)
        ensures
            final(self)@ == old(self)@.offered_payload(wire::bytes_view(payload), true),
            r is Ok <==> old(self)@.takes_payload(wire::bytes_view(payload)),
            r matches Err(e) ==> match e {
                TrySendWireError::Full(b) => !old(self)@.closed && wire::bytes_view(b)
                    == wire::bytes_view(payload),
                TrySendWireError::FullCmd => false,
                TrySendWireError::Closed => old(self)@.closed,
            },
    {
        let len: usize = bytes_len(&payload);
        if len == 0 {
            return Ok(());
        }
        self.try_send_cmd(WriterCmd::SealRaw(payload), seal_reservation(len))
    }

    /// Offers payloads to be sealed under the key in force and, right behind
    /// them, the key to install. Returns the number under which the writer
    /// will answer.
    pub fn try_seal_batch_and_install(&mut self, payloads: Vec<Bytes>, epoch: OutboundEpoch) -> (r:
        Result<u64, TrySendEpochError>)
        ensures
            final(self)@ == old(self)@.offered_batch(payloads_view(payloads@), epoch),
            r is Ok <==> !old(self)@.force_next_bulk_full && !old(self)@.closed && old(
                self,
            )@.room(),
            r matches Ok(ack) ==> ack == old(self)@.next_ack,
            r matches Err(e) ==> match e {
                TrySendEpochError::Full { payloads: back, epoch: e2 } => {
                    &&& back == payloads
                    &&& e2 == epoch
                    &&& old(self)@.force_next_bulk_full || !old(self)@.closed
                },
                TrySendEpochError::Closed => !old(self)@.force_next_bulk_full && old(self)@.closed,
            },
    {
        if self.force_next_bulk_full {
            return Err(TrySendEpochError::Full { payloads, epoch });
        }
        let weight: usize = batch_reservation(&payloads, 0);
        assert(payloads_view(payloads@).skip(0) =~= payloads_view(payloads@));
        if weight > 0 {
            self.reserve(weight, true);
        }
        let ack: u64 = self.next_ack;
        self.next_ack = self.next_ack.wrapping_add(1);
        if self.closed {
            self.rollback_reservation(weight, true);
            return Err(TrySendEpochError::Closed);
        }
        if self.bulk.len() < BULK_QUEUE_CAP {
            let ghost before = self.bulk@;
            let cmd = WriterCmd::SealBatchAndInstallEpoch { payloads, epoch, ack };
            let ghost c = cmd@;
            self.bulk.push_back(cmd);
            assert(cmds(self.bulk@) =~= cmds(before).push(c));
            return Ok(ack);
        }
        self.rollback_reservation(weight, true);
        self.note_full_hit();
        Err(TrySendEpochError::Full { payloads, epoch })
    }

    /// Offers a key to install with nothing to seal before it.
    pub fn try_install_outbound_epoch(&mut self, epoch: OutboundEpoch) -> (r: Result<
        u64,
        TrySendEpochError,
    >)
        ensures
            r is Ok <==> !old(self)@.closed && old(self)@.room(),
            r matches Ok(ack) ==> ack == old(self)@.next_ack,
            r matches Err(e) ==> match e {
                TrySendEpochError::Full { payloads: back, epoch: e2 } => back@.len() == 0 && e2
                    == epoch && !old(self)@.closed,
                TrySendEpochError::Closed => old(self)@.closed,
            },
            final(self)@ == old(self)@.offered_install(epoch),
    {
        let ack: u64 = self.next_ack;
        self.next_ack = self.next_ack.wrapping_add(1);
        if self.closed {
            return Err(TrySendEpochError::Closed);
        }
        if self.bulk.len() < BULK_QUEUE_CAP {
            let cmd = WriterCmd::InstallOutboundEpoch { epoch, ack };
            let ghost c = cmd@;
            self.bulk.push_back(cmd);
            assert(cmds(self.bulk@) =~= cmds(old(self).bulk@).push(c));
            return Ok(ack);
        }
        Err(TrySendEpochError::Full { payloads: Vec::new(), epoch })
    }

    /// Asks for the compressor that was put off until authentication.
    pub fn try_init_outbound_compress(&mut self, compression: Compression) -> (r: Result<
        u64,
        TrySendWireError,
    >)
        ensures
            r is Ok <==> !old(self)@.closed && old(self)@.room(),
            r matches Ok(ack) ==> ack == old(self)@.next_ack,
            r matches Err(e) ==> match e {
                TrySendWireError::Full(_) => false,
                TrySendWireError::FullCmd => !old(self)@.closed,
                TrySendWireError::Closed => old(self)@.closed,
            },
            final(self)@ == (Link {
                bulk: if r is Ok {
                    old(self)@.bulk.push(
                        Cmd::InitOutboundCompress { compression, ack: old(self)@.next_ack },
                    )
                } else {
                    old(self)@.bulk
                },
                next_ack: old(self)@.next_ack.wrapping_add(1),
                ..old(self)@
            }),
    {
        let ack: u64 = self.next_ack;
        self.next_ack = self.next_ack.wrapping_add(1);
        if self.closed {
            return Err(TrySendWireError::Closed);
        }
        if self.bulk.len() < BULK_QUEUE_CAP {
            let cmd = WriterCmd::InitOutboundCompress { compression, ack };
            let ghost c = cmd@;
            self.bulk.push_back(cmd);
            assert(cmds(self.bulk@) =~= cmds(old(self).bulk@).push(c));
            return Ok(ack);
        }
        Err(TrySendWireError::FullCmd)
    }

    /// Bytes taken and not yet on the socket.
    pub fn pending_bytes(&self) -> (r: usize)
        ensures
            r == self@.pending_bytes,
    {
        self.pending_bytes
    }

    /// Payload bytes sealed under the key in force.
    pub fn cipher_bytes(&self) -> (r: u64)
        ensures
            r == self@.cipher_bytes,
    {
        self.cipher_bytes
    }

    /// Packets sealed under the key in force.
    pub fn packets_this_epoch(&self) -> (r: u64)
        ensures
            r == self@.packets_this_epoch,
    {
        self.packets_this_epoch
    }

    /// Asks the writer to stop: past the queue where that is possible, else
    /// through it, else not at all.
    pub fn request_shutdown(&mut self)
        ensures
            final(self)@ == old(self)@.asked_to_stop(),
    {
        let ack: u64 = self.next_ack;
        self.next_ack = self.next_ack.wrapping_add(1);
        if !self.closed && self.kex.len() < KEX_QUEUE_CAP {
            self.kex.push_back(KexCmd::Shutdown(ack));
        } else if !self.closed && self.bulk.len() < BULK_QUEUE_CAP {
            let cmd = WriterCmd::Shutdown(ack);
            let ghost c = cmd@;
            self.bulk.push_back(cmd);
            assert(cmds(self.bulk@) =~= cmds(old(self).bulk@).push(c));
        }
    }
}

/// A refused command leaves no reservation behind.
pub proof fn law_refused_command_leaves_no_reservation(l: Link, c: Cmd, n: usize)
    requires
        l.closed || !l.room(),
        l.pending_bytes + n <= usize::MAX,
    ensures
        l.offered(c, n).pending_bytes == l.pending_bytes,
        l.offered(c, n).bulk == l.bulk,
{
}

/// A batch that is refused leaves no reservation behind, and one that is taken
/// reserves what its payloads do.
pub proof fn law_batch_reserves_what_it_carries(
    l: Link,
    payloads: Seq<Seq<u8>>,
    epoch: OutboundEpoch,
)
    requires
        l.pending_bytes + reservations(payloads) <= usize::MAX,
    ensures
        l.offered_batch(payloads, epoch).pending_bytes == l.pending_bytes + (
        if !l.force_next_bulk_full && !l.closed && l.room() {
            reservations(payloads) as int
        } else {
            0
        }),
{
}

} // verus!
