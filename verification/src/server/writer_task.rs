//! The task that owns the socket's write half: it seals commands in order,
//! keeps the sealed packets until the socket takes them, and knows when to
//! stop.
use bytes::Bytes;
use std::collections::VecDeque;
use vstd::prelude::*;

use crate::error::Error;
use crate::msg;
use crate::server::writer;
use crate::server::writer::{
    batch_reservation, seal_reservation, CloseTombstone, Cmd, Link, OutboundEpoch, WriterCmd,
    WriterEvent, WriterHandle, WriterObserveSlot,
};
use crate::sshbuffer;
use crate::sshbuffer::{PacketSink, PacketWriter, Stream};
use crate::wire;
use crate::wire::{bytes_as_slice, bytes_len, read_u32};

verus! {

broadcast use vstd::std_specs::hash::group_hash_axioms;

/// The message number and the recipient channel of a payload long enough to
/// hold them.
pub open spec fn channel_head(p: Seq<u8>) -> Option<(u8, u32)> {
    if p.len() < 5 {
        None
    } else {
        Some((p[0], wire::be_value(p.subrange(1, 5)) as u32))
    }
}

/// A packet of this kind may be dropped once its channel has been closed.
pub open spec fn droppable(m: u8) -> bool {
    m == msg::CHANNEL_DATA || m == msg::CHANNEL_EXTENDED_DATA || m == msg::CHANNEL_EOF || m
        == msg::CHANNEL_WINDOW_ADJUST || m == msg::CHANNEL_REQUEST || m == msg::CHANNEL_SUCCESS || m
        == msg::CHANNEL_FAILURE
}

/// This payload belongs to a closed channel and is not its CLOSE.
pub open spec fn should_drop(p: Seq<u8>, tombstone: Set<u32>) -> bool {
    match channel_head(p) {
        Some((m, to)) => m != msg::CHANNEL_CLOSE && droppable(m) && tombstone.contains(to),
        None => false,
    }
}

/// The channel that this payload closes.
pub open spec fn closes(p: Seq<u8>) -> Option<u32> {
    match channel_head(p) {
        Some((m, to)) => if m == msg::CHANNEL_CLOSE {
            Some(to)
        } else {
            None
        },
        None => None,
    }
}

/// The marked channels once `p` has been sealed: a CLOSE ends its mark.
pub open spec fn unmarked(p: Seq<u8>, tombstone: Set<u32>) -> Set<u32> {
    match closes(p) {
        Some(to) => tombstone.remove(to),
        None => tombstone,
    }
}

/// The message number and the recipient channel of a payload.
pub fn parse_channel_payload(payload: &[u8]) -> (r: Option<(u8, u32)>)
    ensures
        r == channel_head(payload@),
{
    if payload.len() < 5 {
        return None;
    }
    let to: u32 = read_u32(vstd::slice::slice_subrange(payload, 1, 5));
    assert(payload@.subrange(1, 5).subrange(0, 4) =~= payload@.subrange(1, 5));
    Some((payload[0], to))
}

/// Whether a payload is to be dropped.
pub fn tombstone_should_drop(payload: &[u8], tombstone: &CloseTombstone) -> (r: bool)
    ensures
        r == should_drop(payload@, tombstone@),
{
    match parse_channel_payload(payload) {
        None => false,
        Some((m, to)) => {
            if m == msg::CHANNEL_CLOSE {
                return false;
            }
            let may: bool = m == msg::CHANNEL_DATA || m == msg::CHANNEL_EXTENDED_DATA || m
                == msg::CHANNEL_EOF || m == msg::CHANNEL_WINDOW_ADJUST || m == msg::CHANNEL_REQUEST
                || m == msg::CHANNEL_SUCCESS || m == msg::CHANNEL_FAILURE;
            may && tombstone.contains(to)
        },
    }
}

/// A CLOSE is never dropped.
pub proof fn law_close_is_never_dropped(p: Seq<u8>, tombstone: Set<u32>)
    requires
        p.len() >= 1,
        p[0] == msg::CHANNEL_CLOSE,
    ensures
        !should_drop(p, tombstone),
{
}

/// A channel that is not marked loses nothing.
pub proof fn law_only_marked_channels_lose_packets(p: Seq<u8>, tombstone: Set<u32>)
    requires
        should_drop(p, tombstone),
    ensures
        channel_head(p) matches Some((m, to)) && tombstone.contains(to) && droppable(m),
{
}

/// The task's own state.
#[derive(Debug)]
pub struct WriterTask {
    pub packet_writer: PacketWriter,
    /// Sealed packets, in order.
    pub out_q: VecDeque<Bytes>,
    /// Length and kind (of a key exchange or not) of each sealed packet, the
    /// first less what is already written.
    pub drain_segs: VecDeque<(usize, bool)>,
    /// Bytes of `current` that are written.
    pub flush_cursor: usize,
    /// The packet being written.
    pub current: Option<Bytes>,
    pub shutting_down: bool,
    pub shutdown_ack: Option<u64>,
    pub bulk_closed: bool,
    pub poll_cancel: bool,
    /// Leaves commands where they are.
    pub dequeue_hold: bool,
    /// Leaves the socket alone.
    pub socket_hang: bool,
    pub observe: Option<WriterObserveSlot>,
    /// For the session.
    pub events: Vec<WriterEvent>,
    /// Answers to commands, by number.
    pub acks: Vec<(u64, Result<(), Error>)>,
}

/// The content of a [`WriterTask`].
#[verifier::ext_equal]
pub struct Task {
    pub sink: PacketSink,
    pub out: Seq<Seq<u8>>,
    pub segs: Seq<(usize, bool)>,
    pub cursor: usize,
    pub current: Option<Seq<u8>>,
    pub shutting_down: bool,
    pub shutdown_ack: Option<u64>,
    pub bulk_closed: bool,
    pub poll_cancel: bool,
    pub dequeue_hold: bool,
    pub socket_hang: bool,
    pub observe: Option<WriterObserveSlot>,
    pub events: Seq<WriterEvent>,
    pub acks: Seq<(u64, Result<(), Error>)>,
}

impl View for WriterTask {
    type V = Task;

    open spec fn view(&self) -> Task {
        Task {
            sink: self.packet_writer@,
            out: writer::payloads_view(self.out_q@),
            segs: self.drain_segs@,
            cursor: self.flush_cursor,
            current: match self.current {
                Some(b) => Some(wire::bytes_view(b)),
                None => None,
            },
            shutting_down: self.shutting_down,
            shutdown_ack: self.shutdown_ack,
            bulk_closed: self.bulk_closed,
            poll_cancel: self.poll_cancel,
            dequeue_hold: self.dequeue_hold,
            socket_hang: self.socket_hang,
            observe: self.observe,
            events: self.events@,
            acks: self.acks@,
        }
    }
}

/// The task and its link after a step, and whether the step succeeded.
#[verifier::ext_equal]
pub struct Step {
    pub task: Task,
    pub link: Link,
    pub result: Result<(), Error>,
}

/// What the holder of the key made of each payload of a command.
pub open spec fn given_views(g: Seq<Result<Bytes, Error>>) -> Seq<Result<Seq<u8>, Error>> {
    g.map_values(
        |r: Result<Bytes, Error>|
            match r {
                Ok(b) => Ok::<Seq<u8>, Error>(wire::bytes_view(b)),
                Err(e) => Err(e),
            },
    )
}

/// The entry for payload `i`, if there is one.
pub open spec fn nth(g: Seq<Result<Seq<u8>, Error>>, i: int) -> Option<Result<Seq<u8>, Error>> {
    if 0 <= i < g.len() {
        Some(g[i])
    } else {
        None
    }
}

impl Task {
    /// The packet `w` is sealed and counted, in place of `reserved` bytes.
    pub open spec fn settled(self, l: Link, w: Seq<u8>, reserved: usize, as_kex: bool) -> Step {
        if w.len() > reserved {
            self.queued(l.reserved((w.len() - reserved) as usize, as_kex), w, as_kex)
        } else if w.len() < reserved {
            if reserved - w.len() <= l.pending_bytes {
                self.queued(l.refunded((reserved - w.len()) as usize, as_kex), w, as_kex)
            } else {
                Step { task: self, link: l.ledger_mismatched(), result: Err(Error::Inconsistent) }
            }
        } else {
            self.queued(l, w, as_kex)
        }
    }

    /// The packet `w` joins the queue.
    pub open spec fn queued(self, l: Link, w: Seq<u8>, as_kex: bool) -> Step {
        Step {
            task: Task {
                out: if w.len() > 0 {
                    self.out.push(w)
                } else {
                    self.out
                },
                segs: if w.len() > 0 && l.full_ledger is Some {
                    self.segs.push((w.len() as usize, as_kex))
                } else {
                    self.segs
                },
                observe: match self.observe {
                    Some(o) => Some(WriterObserveSlot { seqn: self.sink.seqn, ..o }),
                    None => None,
                },
                ..self
            },
            link: Link {
                cipher_bytes: self.sink.bytes as u64,
                packets_this_epoch: l.packets_this_epoch.wrapping_add(1),
                ..l
            },
            result: Ok(()),
        }
    }

    /// One payload sealed, or dropped with its reservation given back.
    pub open spec fn seal_one(
        self,
        l: Link,
        p: Seq<u8>,
        as_kex: bool,
        given: Option<Result<Seq<u8>, Error>>,
    ) -> Step {
        let reserved = writer::reservation(p.len());
        if should_drop(p, l.tombstone) {
            Step { task: self, link: l.refunded(reserved, as_kex), result: Ok(()) }
        } else {
            match self.sink.seal_result(p, given) {
                Err(e) => Step { task: self, link: l, result: Err(e) },
                Ok(w) => (Task { sink: self.sink.sealed(p), ..self }).settled(
                    Link { tombstone: unmarked(p, l.tombstone), ..l },
                    w,
                    reserved,
                    as_kex,
                ),
            }
        }
    }

    /// The payloads from `i` on sealed in order, up to the first failure, and
    /// where that was.
    pub open spec fn seal_from(
        self,
        l: Link,
        ps: Seq<Seq<u8>>,
        given: Seq<Result<Seq<u8>, Error>>,
        i: int,
    ) -> (Step, int)
        decreases ps.len() - i,
    {
        if i >= ps.len() {
            (Step { task: self, link: l, result: Ok(()) }, i)
        } else {
            let s = self.seal_one(l, ps[i], true, nth(given, i));
            if s.result is Ok {
                s.task.seal_from(s.link, ps, given, i + 1)
            } else {
                (s, i)
            }
        }
    }

    /// The key of `e` in force.
    pub open spec fn installed(self, e: OutboundEpoch) -> Task {
        let seqn = if e.reset_seqn {
            0
        } else {
            self.sink.seqn
        };
        Task {
            sink: PacketSink {
                cipher: e.cipher,
                compress: if e.activate_compress {
                    e.outbound_compression.stream()
                } else {
                    Stream::Off
                },
                seqn,
                bytes: 0,
                ..self.sink
            },
            observe: match self.observe {
                Some(o) => Some(WriterObserveSlot { packets_this_epoch: 0, seqn }),
                None => None,
            },
            ..self
        }
    }

    /// One more event for the session.
    pub open spec fn told(self, e: WriterEvent) -> Task {
        Task { events: self.events.push(e), ..self }
    }

    /// One more answer to a command.
    pub open spec fn answered(self, ack: u64, r: Result<(), Error>) -> Task {
        Task { acks: self.acks.push((ack, r)), ..self }
    }

    /// Everything queued is written, and the task is on its way out.
    pub open spec fn stopping(self) -> Task {
        Task { shutting_down: true, poll_cancel: false, ..self }
    }

    /// A key taken into use and reported.
    pub open spec fn install_step(self, l: Link, e: OutboundEpoch, ack: u64) -> Step {
        Step {
            task: self.installed(e).answered(ack, Ok(())).told(
                WriterEvent::InstallAckOutbound { generation: e.generation },
            ),
            link: Link { cipher_bytes: 0, packets_this_epoch: 0, ..l },
            result: Ok(()),
        }
    }

    /// One command carried out.
    pub open spec fn handle(self, l: Link, c: Cmd, given: Seq<Result<Seq<u8>, Error>>) -> Step {
        match c {
            Cmd::SealPayload(p) => self.handle_payload(l, p, given),
            Cmd::SealRaw(p) => self.handle_payload(l, p, given),
            Cmd::SealBatchAndInstallEpoch { payloads, epoch, ack } => {
                let (s, i) = self.seal_from(l, payloads, given, 0);
                match s.result {
                    Ok(_) => s.task.install_step(s.link, epoch, ack),
                    Err(e) => Step {
                        task: s.task.answered(ack, Err(e)).told(WriterEvent::SealError),
                        link: s.link.refunded(writer::reservations(payloads.skip(i)), true),
                        result: Err(e),
                    },
                }
            },
            Cmd::InstallOutboundEpoch { epoch, ack } => self.install_step(l, epoch, ack),
            Cmd::InitOutboundCompress { compression, ack } => Step {
                task: (Task {
                    sink: PacketSink { compress: compression.stream(), ..self.sink },
                    ..self
                }).answered(ack, Ok(())),
                link: l,
                result: Ok(()),
            },
            Cmd::Shutdown(ack) => Step {
                task: Task {
                    shutdown_ack: match self.shutdown_ack {
                        None => Some(ack),
                        Some(first) => Some(first),
                    },
                    ..self.stopping()
                },
                link: l,
                result: Ok(()),
            },
        }
    }

    /// One payload sealed; where that fails its reservation is given back.
    pub open spec fn handle_payload(
        self,
        l: Link,
        p: Seq<u8>,
        given: Seq<Result<Seq<u8>, Error>>,
    ) -> Step {
        let s = self.seal_one(l, p, false, nth(given, 0));
        match s.result {
            Ok(_) => s,
            Err(e) => Step {
                task: s.task.told(WriterEvent::SealError),
                link: s.link.refunded(writer::reservation(p.len()), false),
                result: Err(e),
            },
        }
    }

    /// Something is left to write.
    pub open spec fn has_out(self) -> bool {
        self.current is Some || self.out.len() > 0
    }
}

impl Task {
    /// A task that has just taken over a packet writer.
    pub open spec fn started(sink: PacketSink, has_ledger: bool) -> Task {
        Task {
            sink: PacketSink { wire: Seq::empty(), ..sink },
            out: if sink.wire.len() > 0 {
                seq![sink.wire]
            } else {
                Seq::empty()
            },
            segs: if sink.wire.len() > 0 && has_ledger {
                seq![(sink.wire.len() as usize, false)]
            } else {
                Seq::empty()
            },
            cursor: 0,
            current: None,
            shutting_down: false,
            shutdown_ack: None,
            bulk_closed: false,
            poll_cancel: true,
            dequeue_hold: false,
            socket_hang: false,
            observe: None,
            events: Seq::empty(),
            acks: Seq::empty(),
        }
    }
}

impl Link {
    /// The link of a task that has just taken over a packet writer.
    pub open spec fn taken_over(self, sink: PacketSink) -> Link {
        Link {
            cipher_bytes: sink.bytes as u64,
            ..if sink.wire.len() > 0 {
                self.reserved(sink.wire.len() as usize, false)
            } else {
                self
            }
        }
    }
}

impl WriterTask {
    /// The task takes over a packet writer, with the wire bytes already in it.
    pub fn new(packet_writer: PacketWriter, link: &mut WriterHandle) -> (r: WriterTask)
        ensures
            r@ == Task::started(packet_writer@, old(link)@.full_ledger is Some),
            final(link)@ == old(link)@.taken_over(packet_writer@),
    {
        let mut packet_writer = packet_writer;
        let pre = packet_writer.take_pending_wire_bytes();
        let n: usize = bytes_len(&pre);
        let mut out_q: VecDeque<Bytes> = VecDeque::new();
        let mut drain_segs: VecDeque<(usize, bool)> = VecDeque::new();
        if n > 0 {
            link.reserve(n, false);
            out_q.push_back(pre);
            if link.full_ledger.is_some() {
                drain_segs.push_back((n, false));
            }
        }
        link.cipher_bytes = packet_writer.write_buffer.bytes as u64;
        let r = WriterTask {
            packet_writer,
            out_q,
            drain_segs,
            flush_cursor: 0,
            current: None,
            shutting_down: false,
            shutdown_ack: None,
            bulk_closed: false,
            poll_cancel: true,
            dequeue_hold: false,
            socket_hang: false,
            observe: None,
            events: Vec::new(),
            acks: Vec::new(),
        };
        assert(r@.out =~= (if n > 0 {
            seq![wire::bytes_view(pre)]
        } else {
            Seq::empty()
        }));
        assert(r@.segs =~= (if n > 0 && old(link)@.full_ledger is Some {
            seq![(n, false)]
        } else {
            Seq::empty()
        }));
        r
    }

    /// Queues a sealed packet and counts it.
    fn queue_packet(&mut self, link: &mut WriterHandle, packet: Bytes, as_kex: bool)
        ensures
            (Step { task: final(self)@, link: final(link)@, result: Ok(()) }) == old(self)@.queued(
                old(link)@,
                wire::bytes_view(packet),
                as_kex,
            ),
    {
        let wire_len: usize = bytes_len(&packet);
        if wire_len > 0 {
            let ghost before = self.out_q@;
            self.out_q.push_back(packet);
            assert(writer::payloads_view(self.out_q@) =~= writer::payloads_view(before).push(
                wire::bytes_view(packet),
            ));
            if link.full_ledger.is_some() {
                self.drain_segs.push_back((wire_len, as_kex));
            }
        }
        link.cipher_bytes = self.packet_writer.write_buffer.bytes as u64;
        link.packets_this_epoch = link.packets_this_epoch.wrapping_add(1);
        if let Some(mut o) = self.observe {
            o.set_seqn(self.packet_writer.write_buffer.seqn);
            self.observe = Some(o);
        }
    }

    /// Puts a sealed packet in the place of its reservation.
    fn settle(
        &mut self,
        link: &mut WriterHandle,
        packet: Bytes,
        reserved: usize,
        as_kex: bool,
    ) -> (r: Result<(), Error>)
        ensures
            (Step { task: final(self)@, link: final(link)@, result: r }) == old(self)@.settled(
                old(link)@,
                wire::bytes_view(packet),
                reserved,
                as_kex,
            ),
    {
        let wire_len: usize = bytes_len(&packet);
        if wire_len > reserved {
            link.reserve(wire_len - reserved, as_kex);
        } else if wire_len < reserved {
            let delta: usize = reserved - wire_len;
            if delta > link.pending_bytes {
                link.note_ledger_mismatch();
                return Err(Error::Inconsistent);
            }
            link.refund(delta, as_kex);
        }
        self.queue_packet(link, packet, as_kex);
        Ok(())
    }

    /// Seals one payload under the key in force. The packet of a closed
    /// channel is dropped instead, without taking a sequence number.
    pub fn seal_one_payload(
        &mut self,
        link: &mut WriterHandle,
        p: &Bytes,
        as_kex: bool,
        given: Option<&Result<Bytes, Error>>,
    ) -> (r: Result<(), Error>)
        ensures
            (Step { task: final(self)@, link: final(link)@, result: r }) == old(self)@.seal_one(
                old(link)@,
                wire::bytes_view(*p),
                as_kex,
                sshbuffer::given_view(given),
            ),
    {
        let reserved: usize = seal_reservation(bytes_len(p));
        let payload = bytes_as_slice(p);
        if tombstone_should_drop(payload, &link.tombstone) {
            link.refund(reserved, as_kex);
            return Ok(());
        }
        let wire_bytes = match self.packet_writer.seal(payload, given) {
            Ok(w) => w,
            Err(e) => {
                return Err(e);
            },
        };
        if let Some((m, to)) = parse_channel_payload(payload) {
            if m == msg::CHANNEL_CLOSE {
                link.tombstone.remove(to);
            }
        }
        self.settle(link, wire_bytes, reserved, as_kex)
    }

    /// Takes a new outbound key into use and starts its counts at zero.
    pub fn install_epoch(&mut self, link: &mut WriterHandle, epoch: OutboundEpoch)
        ensures
            final(self)@ == old(self)@.installed(epoch),
            final(link)@ == (Link { cipher_bytes: 0, packets_this_epoch: 0, ..old(link)@ }),
    {
        self.packet_writer.set_cipher(epoch.cipher);
        if epoch.activate_compress {
            epoch.outbound_compression.init_compress(&mut self.packet_writer.compress);
        } else {
            self.packet_writer.compress = Stream::Off;
        }
        if epoch.reset_seqn {
            self.packet_writer.reset_seqn();
        }
        self.packet_writer.write_buffer.bytes = 0;
        link.cipher_bytes = 0;
        link.packets_this_epoch = 0;
        if let Some(mut o) = self.observe {
            o.set_packets_this_epoch(0);
            o.set_seqn(self.packet_writer.write_buffer.seqn);
            self.observe = Some(o);
        }
    }

    /// Which payloads of a command will be sealed, taking each seal to
    /// succeed; the others will be dropped.
    pub fn seal_plan(link: &WriterHandle, cmd: &WriterCmd) -> (r: Vec<bool>)
        ensures
            r@ == plan(link@.tombstone, payloads_of(cmd@)),
    {
        let mut r: Vec<bool> = Vec::new();
        match cmd {
            WriterCmd::SealPayload(p) | WriterCmd::SealRaw(p) => {
                r.push(!tombstone_should_drop(bytes_as_slice(p), &link.tombstone));
                proof {
                    reveal_with_fuel(plan, 3);
                    assert(payloads_of(cmd@) =~= seq![wire::bytes_view(*p)]);
                    assert(payloads_of(cmd@).drop_first() =~= Seq::empty());
                    assert(r@ =~= plan(link@.tombstone, payloads_of(cmd@)));
                }
            },
            WriterCmd::SealBatchAndInstallEpoch { payloads, .. } => {
                let ghost ps = writer::payloads_view(payloads@);
                let mut closed: Vec<u32> = Vec::new();
                let ghost mut marks = link@.tombstone;
                let mut i: usize = 0;
                assert(ps.skip(0) =~= ps);
                while i < payloads.len()
                    invariant
                        i <= payloads@.len(),
                        ps == writer::payloads_view(payloads@),
                        forall|c: u32| #[trigger]
                            marks.contains(c) <==> link@.tombstone.contains(c)
                                && !closed@.contains(c),
                        plan(link@.tombstone, ps) == r@ + plan(marks, ps.skip(i as int)),
                    decreases payloads@.len() - i,
                {
                    assert(ps.skip(i as int).drop_first() =~= ps.skip(i + 1));
                    let payload = bytes_as_slice(&payloads[i]);
                    assert(payload@ == ps.skip(i as int)[0]);
                    let mut drop: bool = tombstone_should_drop(payload, &link.tombstone);
                    if let Some((m, to)) = parse_channel_payload(payload) {
                        if drop && contains(&closed, to) {
                            drop = false;
                        }
                        assert(drop == should_drop(payload@, marks));
                        if m == msg::CHANNEL_CLOSE {
                            let ghost before = closed@;
                            closed.push(to);
                            proof {
                                marks = marks.remove(to);
                                assert forall|c: u32| #[trigger] marks.contains(c) <==>
                                    link@.tombstone.contains(c) && !closed@.contains(c) by {
                                    assert(closed@[before.len() as int] == to);
                                    if before.contains(c) {
                                        let k = choose|k: int|
                                            0 <= k < before.len() && before[k] == c;
                                        assert(closed@[k] == c);
                                    }
                                }
                            }
                        }
                    }
                    let ghost before = r@;
                    r.push(!drop);
                    assert(r@ + plan(marks, ps.skip(i + 1)) =~= before + (seq![!drop] + plan(
                        marks,
                        ps.skip(i + 1),
                    )));
                    i = i + 1;
                }
                assert(ps.skip(i as int) =~= Seq::empty());
                assert(r@ + Seq::<bool>::empty() =~= r@);
            },
            _ => {
                assert(r@ =~= Seq::<bool>::empty());
            },
        }
        r
    }

    /// Carries out one command. `given` holds, for each payload of the
    /// command, what the holder of the key made of it; under the clear key
    /// nothing is needed. Nothing comes between a batch and its install.
    #[verifier::rlimit(60)]
    #[verifier::spinoff_prover]
    pub fn handle_writer_cmd(
        &mut self,
        link: &mut WriterHandle,
        cmd: WriterCmd,
        given: &Vec<Result<Bytes, Error>>,
    ) -> (r: Result<(), Error>)
        ensures
            (Step { task: final(self)@, link: final(link)@, result: r }) == old(self)@.handle(
                old(link)@,
                cmd@,
                given_views(given@),
            ),
    {
        let ghost g = given_views(given@);
        match cmd {
            WriterCmd::SealPayload(p) | WriterCmd::SealRaw(p) => {
                let reserved: usize = seal_reservation(bytes_len(&p));
                match self.seal_one_payload(link, &p, false, given_at(given, 0)) {
                    Ok(()) => Ok(()),
                    Err(e) => {
                        link.refund(reserved, false);
                        self.events.push(WriterEvent::SealError);
                        Err(e)
                    },
                }
            },
            WriterCmd::SealBatchAndInstallEpoch { payloads, epoch, ack } => {
                let ghost ps = writer::payloads_view(payloads@);
                let mut i: usize = 0;
                while i < payloads.len()
                    invariant
                        i <= payloads@.len(),
                        ps == writer::payloads_view(payloads@),
                        g == given_views(given@),
                        cmd@ == (Cmd::SealBatchAndInstallEpoch { payloads: ps, epoch, ack }),
                        old(self)@.seal_from(old(link)@, ps, g, 0) == self@.seal_from(
                            link@,
                            ps,
                            g,
                            i as int,
                        ),
                    decreases payloads@.len() - i,
                {
                    match self.seal_one_payload(link, &payloads[i], true, given_at(given, i)) {
                        Ok(()) => {},
                        Err(e) => {
                            let back: usize = batch_reservation(&payloads, i);
                            link.refund(back, true);
                            self.acks.push((ack, Err(e)));
                            self.events.push(WriterEvent::SealError);
                            return Err(e);
                        },
                    }
                    i = i + 1;
                }
                self.install_epoch(link, epoch);
                self.acks.push((ack, Ok(())));
                self.events.push(
                    WriterEvent::InstallAckOutbound { generation: epoch.generation },
                );
                Ok(())
            },
            WriterCmd::InstallOutboundEpoch { epoch, ack } => {
                self.install_epoch(link, epoch);
                self.acks.push((ack, Ok(())));
                self.events.push(
                    WriterEvent::InstallAckOutbound { generation: epoch.generation },
                );
                Ok(())
            },
            WriterCmd::InitOutboundCompress { compression, ack } => {
                compression.init_compress(&mut self.packet_writer.compress);
                self.acks.push((ack, Ok(())));
                Ok(())
            },
            WriterCmd::Shutdown(ack) => {
                self.shutting_down = true;
                self.poll_cancel = false;
                if self.shutdown_ack.is_none() {
                    self.shutdown_ack = Some(ack);
                }
                Ok(())
            },
        }
    }
}

/// The payloads that a command carries.
pub open spec fn payloads_of(c: Cmd) -> Seq<Seq<u8>> {
    match c {
        Cmd::SealPayload(p) => seq![p],
        Cmd::SealRaw(p) => seq![p],
        Cmd::SealBatchAndInstallEpoch { payloads, .. } => payloads,
        _ => Seq::empty(),
    }
}

/// Which of `ps` will be sealed: all but those of a marked channel, whose
/// mark ends with its CLOSE.
pub open spec fn plan(tombstone: Set<u32>, ps: Seq<Seq<u8>>) -> Seq<bool>
    decreases ps.len(),
{
    if ps.len() == 0 {
        Seq::empty()
    } else {
        seq![!should_drop(ps[0], tombstone)] + plan(unmarked(ps[0], tombstone), ps.drop_first())
    }
}

/// Whether `x` stands in `v`.
fn contains(v: &Vec<u32>, x: u32) -> (r: bool)
    ensures
        r == v@.contains(x),
{
    let mut i: usize = 0;
    while i < v.len()
        invariant
            i <= v@.len(),
            forall|k: int| 0 <= k < i ==> v@[k] != x,
        decreases v@.len() - i,
    {
        if v[i] == x {
            return true;
        }
        i = i + 1;
    }
    false
}

/// The entry for payload `i`.
fn given_at(given: &Vec<Result<Bytes, Error>>, i: usize) -> (r: Option<&Result<Bytes, Error>>)
    ensures
        sshbuffer::given_view(r) == nth(given_views(given@), i as int),
{
    if i < given.len() {
        Some(&given[i])
    } else {
        None
    }
}

} // verus!
