//! The way of a payload from the session to the writer: how much is on its way,
//! how much more may be taken in, and in which order it is handed over.
use bytes::Bytes;
use vstd::arithmetic::div_mod;
use vstd::arithmetic::mul;
use vstd::prelude::*;

use crate::common_session::Common;
use crate::error::Error;
use crate::server::parked::{ParkedCmd, PendingOutbound, PendingOutboundCmd};
use crate::server::session::{Peer, Session};
use crate::server::writer;
use crate::server::writer::{Link, TrySendWireError};
use crate::sshbuffer::{Compression, PacketSink, OUTBOUND_HIGH_WATERMARK};
use crate::wire;
use crate::wire::{bytes_as_slice, bytes_len, read_u32, WIRE_OVERHEAD_PER_PACKET};

verus! {

/// Framing of CHANNEL_DATA inside a packet: message, channel, string length.
pub const CHANNEL_DATA_FRAMING: usize = 1 + 4 + 4;

/// Framing of CHANNEL_EXTENDED_DATA: four bytes more for the data's type.
pub const CHANNEL_EXT_DATA_FRAMING: usize = 1 + 4 + 4 + 4;

/// What the largest reply to a request reserves.
pub const MAX_CONTROL_REPLY_RESERVATION: usize = 5 + WIRE_OVERHEAD_PER_PACKET;

/// What a WINDOW_ADJUST reserves.
pub const WINDOW_ADJUST_RESERVATION: usize = 9 + WIRE_OVERHEAD_PER_PACKET;

/// What staged packets reserve: payload and overhead of each. Bytes that do
/// not make up a packet count as they are.
pub open spec fn wire_weight(s: Seq<u8>) -> nat
    decreases s.len(),
{
    if s.len() < 4 || s.len() < wire::frame_len(s) {
        s.len()
    } else {
        (wire::frame_len(s) - 4) as nat + WIRE_OVERHEAD_PER_PACKET as nat + wire_weight(
            s.skip(wire::frame_len(s)),
        )
    }
}

/// What one packet of application data reserves besides the data.
pub open spec fn packet_cost(framing: usize) -> usize {
    wire::sat((framing + WIRE_OVERHEAD_PER_PACKET) as nat)
}

/// The number of packets of at most `m` bytes that `app` bytes take.
pub open spec fn packet_count(app: nat, m: nat) -> nat {
    ((app + m - 1) / (m as int)) as nat
}

/// What `app` bytes of application data reserve in packets of at most
/// `max_packet` bytes.
pub open spec fn data_cost(app: nat, max_packet: u32, framing: usize) -> usize {
    let m: nat = if max_packet == 0 {
        1
    } else {
        max_packet as nat
    };
    wire::sat(app + packet_count(app, m) * packet_cost(framing) as nat)
}

impl Peer {
    /// Staged bytes not yet handed on.
    pub open spec fn unsent(self) -> Seq<u8> {
        match self.common.enc {
            Some(e) => e.st.unsent(),
            None => Seq::empty(),
        }
    }

    /// Everything on its way to the socket: in the writer, parked, staged, or
    /// waiting with the next key.
    pub open spec fn backlog(self) -> usize {
        wire::sat(
            (match self.link {
                Some(l) => l.pending_bytes as nat,
                None => 0,
            }) + self.parked.bytes as nat + wire_weight(self.unsent()) + (match self.install {
                Some(p) => p.need() as nat,
                None => 0,
            }),
        )
    }

    /// The high watermark and one packet of `max_packet` bytes.
    pub open spec fn cap_for(max_packet: u32, framing: usize) -> usize {
        wire::sat(
            OUTBOUND_HIGH_WATERMARK as nat + max_packet as nat + packet_cost(framing) as nat,
        )
    }

    /// What may be on its way in all.
    pub open spec fn hard_cap(self) -> usize {
        Peer::cap_for(self.config.maximum_packet_size, CHANNEL_DATA_FRAMING)
    }

    /// `weight` more is above what may be on its way.
    pub open spec fn over(self, weight: usize) -> bool {
        wire::sat(self.backlog() as nat + weight as nat) > self.hard_cap()
    }

    /// What one more packet for a peer with packets of `max_packet` bytes may
    /// reserve. Close to the cap room is kept for a WINDOW_ADJUST.
    pub open spec fn budget(self, max_packet: u32, framing: usize) -> usize {
        let one = wire::sat(max_packet as nat + packet_cost(framing) as nat);
        let hard = Peer::cap_for(max_packet, framing);
        let headroom: nat = if self.backlog() <= hard {
            (hard - self.backlog()) as nat
        } else {
            0
        };
        if headroom <= one {
            if headroom >= WINDOW_ADJUST_RESERVATION {
                (headroom - WINDOW_ADJUST_RESERVATION) as usize
            } else {
                0
            }
        } else {
            one
        }
    }

    /// A command carried out here, where no writer runs.
    pub open spec fn done_here(self, c: ParkedCmd) -> Peer {
        let sink = match c {
            ParkedCmd::SealPayload(p) => self.common.sink.packet(p),
            ParkedCmd::SealRaw(p) => self.common.sink.packet(p),
            ParkedCmd::InitOutboundCompress(m) => PacketSink {
                compress: m.stream(),
                ..self.common.sink
            },
        };
        Peer { common: Common { sink, ..self.common }, ..self }
    }

    /// A command offered to the writer.
    pub open spec fn offer_link(l: Link, c: ParkedCmd) -> Link {
        match c {
            ParkedCmd::SealPayload(p) => l.offered_payload(p, false),
            ParkedCmd::SealRaw(p) => l.offered_payload(p, true),
            ParkedCmd::InitOutboundCompress(m) => Link {
                bulk: if !l.closed && l.room() {
                    l.bulk.push(
                        writer::Cmd::InitOutboundCompress { compression: m, ack: l.next_ack },
                    )
                } else {
                    l.bulk
                },
                next_ack: l.next_ack.wrapping_add(1),
                ..l
            },
        }
    }

    /// The writer takes the command.
    pub open spec fn link_takes(l: Link, c: ParkedCmd) -> bool {
        match c {
            ParkedCmd::SealPayload(p) => l.takes_payload(p),
            ParkedCmd::SealRaw(p) => l.takes_payload(p),
            ParkedCmd::InitOutboundCompress(_) => !l.closed && l.room(),
        }
    }

    /// A command offered to the writer; where its queue is full the command
    /// is parked behind the others.
    pub open spec fn submit_now(self, c: ParkedCmd) -> (Peer, Result<(), Error>) {
        match self.link {
            None => (self.done_here(c), Ok(())),
            Some(l) => {
                let after = Peer { link: Some(Peer::offer_link(l, c)), ..self };
                if Peer::link_takes(l, c) {
                    (after, Ok(()))
                } else if l.closed {
                    (after, Err(Error::SendError))
                } else {
                    (after.park(c), Ok(()))
                }
            },
        }
    }

    /// The parked commands handed over in order, as far as the writer's queue
    /// and the cap allow. A writer that is gone is an error.
    pub open spec fn retried(self) -> (Peer, Result<(), Error>)
        decreases self.parked.q.len(),
    {
        if self.parked.q.len() == 0 {
            (self, Ok(()))
        } else {
            let c = self.parked.q[0];
            match self.link {
                None => self.unparked().done_here(c).retried(),
                Some(_) => {
                    let seen = self.taken_up();
                    let l = seen.link->0;
                    let offered = Peer { link: Some(Peer::offer_link(l, c)), ..seen };
                    if c.weight() > 0 && seen.over(c.weight()) {
                        (seen.park_front(c), Ok(()))
                    } else if Peer::link_takes(l, c) {
                        offered.retried()
                    } else if l.closed {
                        (offered, Err(Error::SendError))
                    } else {
                        (offered.park_front(c), Ok(()))
                    }
                },
            }
        }
    }

    /// A command submitted behind everything that is parked.
    pub open spec fn submitted(self, c: ParkedCmd) -> (Peer, Result<(), Error>) {
        let (s, r) = self.retried();
        if r is Err {
            (s, r)
        } else if s.parked.q.len() > 0 {
            (s.park(c), Ok(()))
        } else {
            s.submit_now(c)
        }
    }

    /// A payload submitted; an empty one is not.
    pub open spec fn submitted_payload(self, p: Seq<u8>) -> (Peer, Result<(), Error>) {
        if p.len() == 0 {
            (self, Ok(()))
        } else {
            self.submitted(ParkedCmd::SealPayload(p))
        }
    }

    /// Payloads submitted one after the other, up to an error.
    pub open spec fn submitted_all(self, ps: Seq<Seq<u8>>) -> (Peer, Result<(), Error>)
        decreases ps.len(),
    {
        if ps.len() == 0 {
            (self, Ok(()))
        } else {
            let (s, r) = self.submitted_payload(ps[0]);
            if r is Err {
                (s, r)
            } else {
                s.submitted_all(ps.drop_first())
            }
        }
    }
}

/// The first packet is what the weight counts first.
proof fn lemma_wire_weight(s: Seq<u8>, i: int)
    requires
        0 <= i <= s.len(),
    ensures
        wire_weight(s.skip(i)) == (if s.len() - i < 4 || s.len() - i < wire::frame_len(s.skip(i)) {
            (s.len() - i) as nat
        } else {
            (wire::frame_len(s.skip(i)) - 4) as nat + WIRE_OVERHEAD_PER_PACKET as nat + wire_weight(
                s.skip(i + wire::frame_len(s.skip(i))),
            )
        }),
{
    if s.len() - i >= 4 && s.len() - i >= wire::frame_len(s.skip(i)) {
        assert(s.skip(i).skip(wire::frame_len(s.skip(i))) =~= s.skip(
            i + wire::frame_len(s.skip(i)),
        ));
    }
}

/// More bytes never take fewer packets.
proof fn lemma_packet_count_monotone(a: nat, b: nat, m: nat)
    requires
        a <= b,
        m >= 1,
    ensures
        packet_count(a, m) <= packet_count(b, m),
{
    div_mod::lemma_div_is_ordered(a + m - 1, b + m - 1, m as int);
    div_mod::lemma_div_pos_is_pos(a + m - 1, m as int);
    div_mod::lemma_div_pos_is_pos(b + m - 1, m as int);
}

/// More bytes never cost less.
proof fn lemma_data_cost_monotone(a: nat, b: nat, max_packet: u32, framing: usize)
    requires
        a <= b,
    ensures
        data_cost(a, max_packet, framing) <= data_cost(b, max_packet, framing),
{
    let m: nat = if max_packet == 0 {
        1
    } else {
        max_packet as nat
    };
    lemma_packet_count_monotone(a, b, m);
    mul::lemma_mul_inequality(
        packet_count(a, m) as int,
        packet_count(b, m) as int,
        packet_cost(framing) as int,
    );
}

/// The number of packets of at most `m` bytes that `app` bytes take.
fn div_ceil(app: usize, m: usize) -> (r: usize)
    requires
        m >= 1,
    ensures
        r == packet_count(app as nat, m as nat),
        r <= app,
{
    let q: usize = app / m;
    let rem: usize = app % m;
    proof {
        div_mod::lemma_fundamental_div_mod(app as int, m as int);
        let x = app as int;
        let mm = m as int;
        if rem == 0 {
            assert(x + mm - 1 == mm * q + (mm - 1));
            div_mod::lemma_fundamental_div_mod_converse(x + mm - 1, mm, q as int, mm - 1);
            assert(q <= x) by (nonlinear_arith)
                requires
                    x == mm * q,
                    mm >= 1,
                    q >= 0,
            ;
        } else {
            assert(x + mm - 1 == mm * (q + 1) + (rem - 1)) by (nonlinear_arith)
                requires
                    x == mm * q + rem,
            ;
            div_mod::lemma_fundamental_div_mod_converse(x + mm - 1, mm, q + 1, rem - 1);
            assert(q + 1 <= x) by (nonlinear_arith)
                requires
                    x == mm * q + rem,
                    mm >= 1,
                    q >= 0,
                    rem >= 1,
            ;
        }
    }
    if rem == 0 {
        q
    } else {
        q + 1
    }
}

impl Session {
    /// What the staged packets behind `cursor` reserve.
    pub fn enc_write_wire_weight(buf: &[u8], cursor: usize) -> (r: usize)
        ensures
            r == wire::sat(
                if cursor <= buf@.len() {
                    wire_weight(buf@.skip(cursor as int))
                } else {
                    0
                },
            ),
    {
        if cursor > buf.len() {
            return 0;
        }
        let mut i: usize = cursor;
        let mut total: usize = 0;
        while buf.len() - i >= 4
            invariant
                cursor <= i <= buf@.len(),
                wire::sat(wire_weight(buf@.skip(cursor as int))) == wire::sat(
                    total as nat + wire_weight(buf@.skip(i as int)),
                ),
            decreases buf@.len() - i,
        {
            proof {
                lemma_wire_weight(buf@, i as int);
            }
            let head: &[u8] = &buf[i..buf.len()];
            assert(head@ =~= buf@.skip(i as int));
            let len: usize = read_u32(head) as usize;
            if len > buf.len() - i - 4 {
                return total.saturating_add(buf.len() - i);
            }
            total = total.saturating_add(len).saturating_add(WIRE_OVERHEAD_PER_PACKET);
            i = i + 4 + len;
        }
        proof {
            lemma_wire_weight(buf@, i as int);
        }
        total.saturating_add(buf.len() - i)
    }

    /// What one packet of application data reserves besides the data.
    pub fn packet_reservation(framing: usize) -> (r: usize)
        ensures
            r == packet_cost(framing),
    {
        framing.saturating_add(WIRE_OVERHEAD_PER_PACKET)
    }

    /// The most application data that a budget allows, in CHANNEL_DATA.
    pub fn max_payload_for_budget(budget: usize, max_packet: u32) -> (r: usize)
        ensures
            data_cost(r as nat, max_packet, CHANNEL_DATA_FRAMING) <= budget,
            r <= budget,
            forall|x: nat|
                r < x <= budget ==> #[trigger] data_cost(x, max_packet, CHANNEL_DATA_FRAMING)
                    > budget,
    {
        Self::max_payload_for_budget_framed(budget, max_packet, CHANNEL_DATA_FRAMING)
    }

    /// The most application data that a budget allows, in packets of at most
    /// `max_packet` bytes with the given framing.
    pub fn max_payload_for_budget_framed(budget: usize, max_packet: u32, framing: usize) -> (r:
        usize)
        ensures
            data_cost(r as nat, max_packet, framing) <= budget,
            r <= budget,
            forall|x: nat|
                r < x <= budget ==> #[trigger] data_cost(x, max_packet, framing) > budget,
    {
        let m: usize = if max_packet == 0 {
            1
        } else {
            max_packet as usize
        };
        let per_packet: usize = Self::packet_reservation(framing);
        let mut lo: usize = 0;
        let mut hi: usize = budget;
        proof {
            assert(packet_count(0, m as nat) == 0) by {
                div_mod::lemma_basic_div(m - 1, m as int);
            }
            assert(packet_count(0, m as nat) * per_packet == 0) by (nonlinear_arith)
                requires
                    packet_count(0, m as nat) == 0,
            ;
        }
        while lo < hi
            invariant
                lo <= hi <= budget,
                m == (if max_packet == 0 {
                    1
                } else {
                    max_packet as usize
                }),
                per_packet == packet_cost(framing),
                data_cost(lo as nat, max_packet, framing) <= budget,
                forall|x: nat|
                    hi < x <= budget ==> #[trigger] data_cost(x, max_packet, framing) > budget,
            decreases hi - lo,
        {
            let step: usize = (hi - lo) / 2 + (hi - lo) % 2;
            let mid: usize = lo + step;
            let packets: usize = div_ceil(mid, m);
            let cost: usize = mid.saturating_add(wire::saturating_mul(packets, per_packet));
            assert(cost == data_cost(mid as nat, max_packet, framing));
            if cost <= budget {
                lo = mid;
            } else {
                proof {
                    assert forall|x: nat| mid <= x <= budget implies #[trigger] data_cost(
                        x,
                        max_packet,
                        framing,
                    ) > budget by {
                        lemma_data_cost_monotone(mid as nat, x, max_packet, framing);
                    }
                }
                hi = mid - 1;
            }
        }
        lo
    }

    /// What may be on its way in all.
    pub fn outbound_hard_cap(&self) -> (r: usize)
        ensures
            r == self.peer().hard_cap(),
    {
        let one: usize = (self.config.maximum_packet_size as usize).saturating_add(
            Self::packet_reservation(CHANNEL_DATA_FRAMING),
        );
        OUTBOUND_HIGH_WATERMARK.saturating_add(one)
    }

    /// What one more packet of the largest configured size may reserve.
    pub fn outbound_budget(&mut self) -> (r: usize)
        ensures
            r == old(self).peer().budget(
                old(self).config.maximum_packet_size,
                CHANNEL_DATA_FRAMING,
            ),
            final(self).app() == old(self).app(),
            final(self).peer() == old(self).peer().sampled(),
    {
        self.outbound_budget_for_peer_packet(self.config.maximum_packet_size, CHANNEL_DATA_FRAMING)
    }

    /// What one more packet may reserve, for a peer with packets of at most
    /// `max_packet` bytes.
    pub fn outbound_budget_for_peer_packet(&mut self, max_packet: u32, framing: usize) -> (r: usize)
        ensures
            r == old(self).peer().budget(max_packet, framing),
            final(self).app() == old(self).app(),
            final(self).peer() == old(self).peer().sampled(),
    {
        let one: usize = (max_packet as usize).saturating_add(Self::packet_reservation(framing));
        let hard: usize = OUTBOUND_HIGH_WATERMARK.saturating_add(one);
        let headroom: usize = hard.saturating_sub(self.sealed_backlog_bytes());
        if headroom <= one {
            headroom.saturating_sub(WINDOW_ADJUST_RESERVATION)
        } else {
            one
        }
    }

    /// The inbound side is never shut on account of the outbound backlog.
    pub fn outbound_blocks_inbound_read(&self) -> (r: bool)
        ensures
            !r,
    {
        false
    }

    /// Offers a command to the writer, or carries it out here where none runs.
    fn offer_now(&mut self, cmd: PendingOutboundCmd) -> (r: Result<
        (),
        (Error, Option<PendingOutboundCmd>),
    >)
        ensures
            final(self).app() == old(self).app(),
            match old(self).peer().link {
                None => r is Ok && final(self).peer() == old(self).peer().done_here(cmd@),
                Some(l) => {
                    &&& final(self).peer() == (Peer {
                        link: Some(Peer::offer_link(l, cmd@)),
                        ..old(self).peer()
                    })
                    &&& r is Ok <==> Peer::link_takes(l, cmd@)
                    &&& r matches Err((e, back)) ==> e == Error::SendError && match back {
                        Some(c) => c@ == cmd@ && !l.closed,
                        None => l.closed,
                    }
                },
            },
    {
        match &mut self.writer {
            None => {
                match cmd {
                    PendingOutboundCmd::SealPayload(p) | PendingOutboundCmd::SealRaw(p) => {
                        let _ = self.common.packet_writer.packet_raw(bytes_as_slice(&p));
                    },
                    PendingOutboundCmd::InitOutboundCompress(c) => {
                        c.init_compress(&mut self.common.packet_writer.compress);
                    },
                }
                Ok(())
            },
            Some(w) => match cmd {
                PendingOutboundCmd::SealPayload(p) => match w.try_seal_payload(p) {
                    Ok(()) => Ok(()),
                    Err(TrySendWireError::Full(b)) => Err(
                        (Error::SendError, Some(PendingOutboundCmd::SealPayload(b))),
                    ),
                    Err(_) => Err((Error::SendError, None)),
                },
                PendingOutboundCmd::SealRaw(p) => match w.try_seal_raw(p) {
                    Ok(()) => Ok(()),
                    Err(TrySendWireError::Full(b)) => Err(
                        (Error::SendError, Some(PendingOutboundCmd::SealRaw(b))),
                    ),
                    Err(_) => Err((Error::SendError, None)),
                },
                PendingOutboundCmd::InitOutboundCompress(c) => match w.try_init_outbound_compress(
                    c,
                ) {
                    Ok(_) => Ok(()),
                    Err(TrySendWireError::Closed) => Err((Error::SendError, None)),
                    Err(_) => Err(
                        (Error::SendError, Some(PendingOutboundCmd::InitOutboundCompress(c))),
                    ),
                },
            },
        }
    }

    /// Hands the parked commands over in order, as far as the writer's queue
    /// and the cap allow.
    pub fn retry_pending_outbound(&mut self) -> (r: Result<(), Error>)
        ensures
            final(self).app() == old(self).app(),
            (final(self).peer(), r) == old(self).peer().retried(),
    {
        let ghost want = self.peer().retried();
        let hard: usize = self.outbound_hard_cap();
        while !self.pending_outbound.is_empty()
            invariant
                self.app() == old(self).app(),
                self.peer().retried() == want,
                hard == self.peer().hard_cap(),
                want == old(self).peer().retried(),
            decreases self.peer().parked.q.len(),
        {
            if let Some(cmd) = self.unpark() {
                let w: usize = PendingOutbound::weight_of(&cmd);
                if self.writer.is_some() && w > 0 && self.sealed_backlog_bytes().saturating_add(w)
                    > hard {
                    self.park_front(cmd);
                    return Ok(());
                }
                match self.offer_now(cmd) {
                    Ok(()) => {},
                    Err((_, Some(back))) => {
                        self.park_front(back);
                        return Ok(());
                    },
                    Err((e, None)) => {
                        return Err(e);
                    },
                }
            }
        }
        Ok(())
    }

    /// Offers a command to the writer; where its queue is full the command is
    /// parked.
    pub(crate) fn submit_now(&mut self, cmd: PendingOutboundCmd) -> (r: Result<(), Error>)
        ensures
            final(self).app() == old(self).app(),
            (final(self).peer(), r) == old(self).peer().submit_now(cmd@),
    {
        match self.offer_now(cmd) {
            Ok(()) => Ok(()),
            Err((_, Some(back))) => {
                self.park(back);
                Ok(())
            },
            Err((e, None)) => Err(e),
        }
    }

    /// Submits a command behind everything that is parked.
    fn submit(&mut self, cmd: PendingOutboundCmd) -> (r: Result<(), Error>)
        ensures
            final(self).app() == old(self).app(),
            (final(self).peer(), r) == old(self).peer().submitted(cmd@),
    {
        self.retry_pending_outbound()?;
        if !self.pending_outbound.is_empty() {
            self.park(cmd);
            return Ok(());
        }
        self.submit_now(cmd)
    }

    /// Submits a payload to be sealed. A full queue is no error: the payload
    /// is parked.
    pub fn submit_seal_payload(&mut self, p: Bytes) -> (r: Result<(), Error>)
        ensures
            final(self).app() == old(self).app(),
            (final(self).peer(), r) == old(self).peer().submitted_payload(wire::bytes_view(p)),
    {
        if bytes_len(&p) == 0 {
            return Ok(());
        }
        self.submit(PendingOutboundCmd::SealPayload(p))
    }

    /// Submits payloads to be sealed, in order.
    pub fn seal_payloads(&mut self, payloads: Vec<Bytes>) -> (r: Result<(), Error>)
        ensures
            final(self).app() == old(self).app(),
            (final(self).peer(), r) == old(self).peer().submitted_all(
                writer::payloads_view(payloads@),
            ),
    {
        let ghost ps = writer::payloads_view(payloads@);
        let mut i: usize = 0;
        assert(ps.skip(0) =~= ps);
        while i < payloads.len()
            invariant
                i <= payloads@.len(),
                ps == writer::payloads_view(payloads@),
                self.app() == old(self).app(),
                self.peer().submitted_all(ps.skip(i as int)) == old(self).peer().submitted_all(ps),
            decreases payloads@.len() - i,
        {
            assert(ps.skip(i as int).drop_first() =~= ps.skip(i + 1));
            assert(ps.skip(i as int)[0] == wire::bytes_view(payloads@[i as int]));
            let p = wire::bytes_slice(&payloads[i], 0, bytes_len(&payloads[i]));
            assert(wire::bytes_view(p) =~= wire::bytes_view(payloads@[i as int]));
            self.submit_seal_payload(p)?;
            i = i + 1;
        }
        assert(ps.skip(i as int) =~= Seq::empty());
        Ok(())
    }

    /// Submits the start of the compressor that was put off until
    /// authentication.
    pub fn submit_init_outbound_compress(&mut self, compression: Compression) -> (r: Result<
        (),
        Error,
    >)
        ensures
            final(self).app() == old(self).app(),
            (final(self).peer(), r) == old(self).peer().submitted(
                ParkedCmd::InitOutboundCompress(compression),
            ),
    {
        self.submit(PendingOutboundCmd::InitOutboundCompress(compression))
    }
}

} // verus!
