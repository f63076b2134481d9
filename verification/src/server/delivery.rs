//! Bringing what comes in to the application, without ever waiting for it: a
//! channel whose application does not keep up gets a queue of its own, and
//! the peer gets no more window for it until the queue drains.
use vstd::prelude::*;

use crate::channel::{ChannelId, Lane};
use crate::common_session::Common;
use crate::error::Error;
use crate::listing;
use crate::msg;
use crate::server::closing;
use crate::server::inbound::{Inbound, InboundItem, InboundQueue, Item};
use crate::server::reader::ReaderCmd;
use crate::server::session;
use crate::server::session::{App, Peer, Sess, Session};
use crate::session::Staging;
use crate::sshbuffer::{SSHBuffer, Stream, OUTBOUND_HIGH_WATERMARK};
use crate::wire;

verus! {

broadcast use vstd::std_specs::hash::group_hash_axioms;

/// What the application's handler decides while the session delivers.
pub trait Handler {
    /// What the handler may answer when it is asked about `channel`, whose
    /// peer is kept at `current`: anything, unless the handler says more of
    /// itself.
    open spec fn may_answer(channel: ChannelId, current: u32, answer: u32) -> bool {
        true
    }

    /// The window to keep a channel's peer at from now on; zero leaves it at
    /// `current`.
    fn adjust_window(&mut self, channel: ChannelId, current: u32) -> (answer: u32)
        ensures
            Self::may_answer(channel, current, answer),
    ;
}

/// `w` answers the question that a grant on channel `id` raises, if it raises
/// one.
pub open spec fn answered<H: Handler>(s: Sess, id: u32, w: u32) -> bool {
    s.granted(id).1 ==> H::may_answer(ChannelId(id), s.app.target_window_size, w)
}

/// `ws` answer the questions that grants on several channels raise in turn.
pub open spec fn all_answered<H: Handler>(s: Sess, ids: Seq<u32>, ws: Seq<u32>) -> bool
    decreases ids.len(),
{
    ids.len() == ws.len() && (ids.len() == 0 || {
        &&& all_answered::<H>(s, ids.drop_last(), ws.drop_last())
        &&& answered::<H>(s.grants_made(ids.drop_last(), ws.drop_last()), ids.last(), ws.last())
    })
}

/// The state of the buffer at the application's end of a channel.
#[derive(Clone, Copy, Debug, PartialEq, Eq, Structural)]
pub enum Place {
    Free,
    Full,
    Gone,
}

/// What became of an item.
#[derive(Clone, Copy, Debug, PartialEq, Eq, Structural)]
pub enum InboundDelivery {
    /// In the application's buffer, or nothing to deliver.
    Delivered,
    /// Behind others in the channel's queue.
    Queued,
    /// Beyond what the channel may have queued.
    Overflow,
    /// Nobody is there to take it.
    ChannelGone,
}

/// What to tell the application's handler about an item.
#[derive(Clone, Copy, Debug, PartialEq, Eq, Structural)]
pub enum LaneStep {
    /// The item is with the application: with `grant`, the peer may be granted
    /// window; then the handler hears of it; after a CLOSE the channel is to be
    /// forgotten.
    Delivered { grant: bool },
    /// The item waits.
    Waits,
    /// The channel was closed on account of its backlog.
    Overflowed,
}

/// What the end of a wait for a place leads to.
#[derive(Debug)]
pub enum PumpStep {
    /// Nothing: the wait was for an earlier queue, or nothing is queued.
    Nothing,
    /// The item goes to the application.
    Deliver(InboundItem),
    /// The application has gone, and the peer's CLOSE is queued: the handler
    /// hears of the CLOSE and the channel is forgotten.
    CloseNow,
    /// The application has gone; the queue is dropped.
    Dropped,
}

/// The content of a [`PumpStep`].
#[verifier::ext_equal]
pub enum Pumped {
    Nothing,
    Deliver(Item),
    CloseNow,
    Dropped,
}

impl View for PumpStep {
    type V = Pumped;

    open spec fn view(&self) -> Pumped {
        match *self {
            PumpStep::Nothing => Pumped::Nothing,
            PumpStep::Deliver(item) => Pumped::Deliver(item@),
            PumpStep::CloseNow => Pumped::CloseNow,
            PumpStep::Dropped => Pumped::Dropped,
        }
    }
}

/// A message of the reader task about a channel.
#[derive(Clone, Copy, Debug, PartialEq, Eq, Structural)]
pub enum CtrlMsg {
    /// The peer's CLOSE was seen on the wire; the lane brings it later.
    WireClose { id: ChannelId },
    /// The lane of a channel ran over.
    Overflow { id: ChannelId },
    /// A CLOSE was dropped with its lane.
    CloseDropped { id: ChannelId, generation: u64 },
}

/// What a message of the reader task leads to.
#[derive(Clone, Copy, Debug, PartialEq, Eq, Structural)]
pub enum CtrlStep {
    Done,
    /// The handler hears of the CLOSE, and the lane is closed.
    NotifyThenForget,
    /// The handler hears of the CLOSE, and the channel is forgotten.
    NotifyThenFinalize,
}

/// What a packet of the reader task leads to.
#[derive(Clone, Copy, Debug, PartialEq, Eq, Structural)]
pub enum PacketStep {
    Ignore,
    /// The peer has disconnected.
    Stop,
    /// The packet is to be acted on.
    Reply,
}

impl App {
    /// An item offered to the application's end of channel `id`.
    pub open spec fn delivered(self, cap: usize, id: u32, item: Item, place: Place) -> (
        App,
        InboundDelivery,
    ) {
        if !self.channels.contains_key(id) {
            (self, InboundDelivery::ChannelGone)
        } else if self.inbound.contains_key(id) {
            let q = self.inbound[id];
            if item.is_payload() && item.size() == 0 {
                (self, InboundDelivery::Delivered)
            } else if (item is Eof && q.eof_queued) || (item is Close && q.close_queued) {
                (self, InboundDelivery::Queued)
            } else if q.pending_bytes + item.size() > cap {
                (self, InboundDelivery::Overflow)
            } else {
                (
                    App { inbound: self.inbound.insert(id, q.joined(item)), ..self },
                    InboundDelivery::Queued,
                )
            }
        } else if place == Place::Gone {
            (self, InboundDelivery::ChannelGone)
        } else if place == Place::Free || (item.is_payload() && item.size() == 0) {
            (self, InboundDelivery::Delivered)
        } else if item.size() > cap {
            (self, InboundDelivery::Overflow)
        } else {
            (
                App {
                    inbound: self.inbound.insert(
                        id,
                        Inbound::started(item, self.inbound_generation),
                    ),
                    inbound_generation: self.inbound_generation.wrapping_add(1),
                    needs_reserve: self.needs_reserve.push(id),
                    ..self
                },
                InboundDelivery::Queued,
            )
        }
    }

    /// The waits that are to begin: one for each flagged channel that is still
    /// there with a queue.
    pub open spec fn waits(self, flagged: Seq<u32>) -> Seq<(u32, u64)>
        decreases flagged.len(),
    {
        if flagged.len() == 0 {
            Seq::empty()
        } else {
            let id = flagged.last();
            let before = self.waits(flagged.drop_last());
            if self.channels.contains_key(id) && self.inbound.contains_key(id) {
                before.push((id, self.inbound[id].generation))
            } else {
                before
            }
        }
    }

    /// The waits that are to begin have begun.
    pub open spec fn flags_taken(self) -> App {
        App { needs_reserve: Seq::empty(), ..self }
    }

    /// The queue of a channel replaced.
    pub open spec fn with_queue(self, id: u32, q: Inbound) -> App {
        App { inbound: self.inbound.insert(id, q), ..self }
    }

    /// The queue of a channel after its first item was delivered: the next
    /// wait begins, or the channel flows freely again.
    pub open spec fn rearmed(self, id: u32) -> App {
        if self.inbound.contains_key(id) && self.inbound[id].queue.len() > 0 {
            App {
                needs_reserve: self.needs_reserve.push(id),
                ..self.with_queue(id, Inbound { reserving: true, ..self.inbound[id] })
            }
        } else {
            App { inbound: self.inbound.remove(id), ..self }
        }
    }
}

impl Peer {
    /// What an item carries taken off the window that its channel's peer was
    /// granted, where it is within it.
    pub open spec fn charged(self, id: u32, item: Item) -> Peer {
        match self.lane(id) {
            Some(l) if item.is_payload() && item.size() <= l.sender_window_size => self.with_st(
                self.st().with_lane(
                    id,
                    Lane {
                        sender_window_size: (l.sender_window_size - (item.size() as u32)) as u32,
                        ..l
                    },
                ),
            ),
            _ => self,
        }
    }
}

/// The payload of an opened packet, behind its length and padding length.
pub open spec fn opened_payload(packet: Seq<u8>) -> Seq<u8> {
    packet.skip(5)
}

impl Peer {
    /// What comes in is to be decompressed.
    pub open spec fn inflates(self) -> bool {
        self.common.enc matches Some(e) && e.keys.decompress != Stream::Off
    }

    /// A packet of the reader task has come in: one that is to be acted on
    /// shows that the client is alive.
    pub open spec fn packet_heard(self, packet: Seq<u8>) -> Peer {
        if packet_step(packet) == PacketStep::Reply {
            Peer { common: Common { received_data: true, ..self.common }, ..self }
        } else {
            self
        }
    }
}

/// What a packet of the reader task leads to.
pub open spec fn packet_step(packet: Seq<u8>) -> PacketStep {
    if packet.len() == 0 {
        PacketStep::Ignore
    } else if packet[0] == msg::DISCONNECT {
        PacketStep::Stop
    } else {
        PacketStep::Reply
    }
}

impl Sess {
    /// Bytes that came in on a channel and have not reached the application:
    /// in its queue and in the reader's lane.
    pub open spec fn undelivered(self, id: u32) -> u32 {
        let queued: nat = if self.app.inbound.contains_key(id) {
            self.app.inbound[id].pending_bytes as nat
        } else {
            0
        };
        let lane: nat = match self.peer.reader {
            Some(r) => r.occupancy(id) as nat,
            None => 0,
        };
        if wire::sat(queued + lane) <= u32::MAX {
            wire::sat(queued + lane) as u32
        } else {
            u32::MAX
        }
    }

    /// A window grant after a delivery: none once the channel is closing, put
    /// off while the backlog is at the high watermark, and else as much as
    /// what is undelivered leaves.
    #[verifier::opaque]
    pub open spec fn granted(self, id: u32) -> (Sess, bool) {
        let undeferred = Sess {
            app: App { deferred: self.app.deferred.remove(id), ..self.app },
            ..self
        };
        if !self.peer.accepts_ctrl(id) {
            (undeferred, false)
        } else if self.peer.backlog() >= OUTBOUND_HIGH_WATERMARK {
            (
                Sess {
                    app: App { deferred: self.app.deferred.insert(id), ..self.app },
                    peer: self.peer.sampled(),
                },
                false,
            )
        } else {
            let st = self.peer.st();
            let target = self.app.target_window_size;
            (
                Sess {
                    peer: self.peer.sampled().with_st(
                        st.grant(id, target, self.undelivered(id)),
                    ),
                    ..undeferred
                },
                st.grant_due(id, target, self.undelivered(id)),
            )
        }
    }

    /// The target that the handler set taken, where it set one, and the grant
    /// moved on.
    pub open spec fn grant_settled(self, w: u32) -> Sess {
        Sess {
            peer: self.peer.flushed().0,
            app: App {
                target_window_size: if w > 0 {
                    w
                } else {
                    self.app.target_window_size
                },
                ..self.app
            },
        }
    }

    /// A grant where one is due, after which the handler set the target `w`,
    /// or none where that is zero.
    pub open spec fn grant_made(self, id: u32, w: u32) -> Sess {
        let (s, granted) = self.granted(id);
        if granted {
            s.grant_settled(w)
        } else {
            s
        }
    }

    /// Grants on several channels in turn.
    pub open spec fn grants_made(self, ids: Seq<u32>, ws: Seq<u32>) -> Sess
        decreases ids.len(),
    {
        if ids.len() == 0 {
            self
        } else {
            self.grants_made(ids.drop_last(), ws.drop_last()).grant_made(ids.last(), ws.last())
        }
    }

    /// An item from a lane: a CLOSE of the peer first ends the channel's
    /// outbound side; then the item goes to the application; where the channel
    /// may not queue any more it is closed.
    #[verifier::opaque]
    pub open spec fn lane_payload(self, id: u32, item: Item, place: Place) -> (Sess, LaneStep) {
        let open = self.peer.lane(id) is Some || self.peer.common.enc is None;
        let a = if item is Close && open {
            self.outbound_discarded(id)
        } else {
            self
        };
        let (app, d) = a.app.delivered(a.peer.config.max_pending_inbound_bytes, id, item, place);
        let b = Sess { app, ..a };
        match d {
            InboundDelivery::Queued => (b, LaneStep::Waits),
            InboundDelivery::Overflow => {
                let c = b.outbound_discarded(id);
                (
                    Sess {
                        app: App {
                            inbound: c.app.inbound.remove(id),
                            channels: c.app.channels.remove(id),
                            ..c.app
                        },
                        ..c
                    },
                    LaneStep::Overflowed,
                )
            },
            _ => (b, LaneStep::Delivered { grant: item.is_payload() }),
        }
    }

    /// What the end of a wait for a place leads to.
    pub open spec fn pump_step(self, id: u32, generation: u64, ok: bool) -> Pumped {
        if !self.app.inbound.contains_key(id) || self.app.inbound[id].generation != generation {
            Pumped::Nothing
        } else {
            let q = self.app.inbound[id];
            if ok {
                if q.queue.len() == 0 {
                    Pumped::Nothing
                } else {
                    Pumped::Deliver(q.queue[0])
                }
            } else if q.close_queued {
                Pumped::CloseNow
            } else {
                Pumped::Dropped
            }
        }
    }

    /// The end of a wait for a place, found (`ok`) or given up.
    pub open spec fn pumped(self, id: u32, generation: u64, ok: bool) -> Sess {
        if !self.app.inbound.contains_key(id) || self.app.inbound[id].generation != generation {
            self
        } else {
            let q = Inbound { reserving: false, ..self.app.inbound[id] };
            let s = Sess { app: self.app.with_queue(id, q), ..self };
            if !ok {
                if q.close_queued {
                    s
                } else {
                    Sess { app: App { inbound: s.app.inbound.remove(id), ..s.app }, ..s }
                }
            } else if q.queue.len() == 0 {
                s
            } else {
                Sess { app: self.app.with_queue(id, q.popped()), ..s }
            }
        }
    }

    /// A channel that the application knows was closed under it.
    pub open spec fn forgotten(self, id: u32) -> Sess {
        Sess {
            app: App { channels: self.app.channels.remove(id), ..self.app },
            peer: Peer {
                reader: match self.peer.reader {
                    Some(r) => Some(r.shut(id)),
                    None => None,
                },
                ..self.peer
            },
        }
    }

    /// A message of the reader task about a channel, and the room it took
    /// given back.
    pub open spec fn ctrl_handled(self, m: CtrlMsg, size: usize) -> (Sess, CtrlStep) {
        let s = Sess {
            peer: Peer {
                reader: match self.peer.reader {
                    Some(r) => Some(r.told(ReaderCmd::ReleaseCtrl(size))),
                    None => None,
                },
                ..self.peer
            },
            ..self
        };
        match m {
            CtrlMsg::WireClose { id } => (
                if s.peer.common.enc is None || s.peer.lane(id.0) is Some {
                    s.outbound_discarded(id.0)
                } else {
                    s
                },
                CtrlStep::Done,
            ),
            CtrlMsg::Overflow { id } => {
                let d = s.outbound_discarded(id.0);
                let t = Sess { app: App { inbound: d.app.inbound.remove(id.0), ..d.app }, ..d };
                if t.app.channels.contains_key(id.0) {
                    (t, CtrlStep::NotifyThenForget)
                } else {
                    (t.forgotten(id.0), CtrlStep::Done)
                }
            },
            CtrlMsg::CloseDropped { id, generation } => {
                let stale = s.peer.reader matches Some(r) && r.lanes.contains_key(id.0)
                    && generation != 0 && r.lanes[id.0].generation != generation;
                if !s.app.channels.contains_key(id.0) || stale {
                    (s, CtrlStep::Done)
                } else {
                    (s, CtrlStep::NotifyThenFinalize)
                }
            },
        }
    }
}

/// Staging a window grant keeps what is staged readable.
proof fn lemma_grant_ok(st: Staging, id: u32, target: u32, undelivered: u32)
    requires
        st.ok(),
    ensures
        st.grant(id, target, undelivered).ok(),
{
    if st.grant_due(id, target, undelivered) {
        let l = st.channels[id];
        let c = Staging::ceiling(target, undelivered);
        let delta = (c - l.sender_window_size) as u32;
        let p = seq![msg::CHANNEL_WINDOW_ADJUST] + wire::be32(l.recipient_channel) + wire::be32(
            delta,
        );
        closing::lemma_lane_fits(st, id);
        closing::lemma_staged_ok(st, p);
        closing::lemma_with_lane_ok(st.staged(p), id, Lane { sender_window_size: c, ..l });
    }
}

impl Session {
    /// Offers an item to the application's end of a channel, whose buffer is
    /// as `place` says. Where the item is delivered and the buffer has room,
    /// the caller puts it there.
    pub fn deliver_inbound(&mut self, id: ChannelId, item: InboundItem, place: Place) -> (r:
        InboundDelivery)
        ensures
            final(self).peer() == old(self).peer(),
            (final(self).app(), r) == old(self).app().delivered(
                old(self).config.max_pending_inbound_bytes,
                id.0,
                item@,
                place,
            ),
    {
        let ghost before = self.app();
        let cap: usize = self.config.max_pending_inbound_bytes;
        if !self.channels.contains_key(&id.0) {
            return InboundDelivery::ChannelGone;
        }
        let empty: bool = item.grants_window() && item.byte_len() == 0;
        match self.inbound.remove(&id.0) {
            Some(mut q) => {
                let ghost q0 = q@;
                let repeat: bool = match &item {
                    InboundItem::Eof => q.eof_queued,
                    InboundItem::Close => q.close_queued,
                    _ => false,
                };
                let r = if empty {
                    InboundDelivery::Delivered
                } else if repeat {
                    InboundDelivery::Queued
                } else if item.byte_len() > cap || q.pending_bytes > cap - item.byte_len() {
                    InboundDelivery::Overflow
                } else {
                    q.join(item);
                    InboundDelivery::Queued
                };
                let ghost q1 = q@;
                self.inbound.insert(id.0, q);
                assert(session::inbound_view(self.inbound@) =~= before.inbound.insert(id.0, q1));
                assert(q1 == q0 ==> before.inbound.insert(id.0, q1) =~= before.inbound);
                r
            },
            None => {
                assert(session::inbound_view(self.inbound@) =~= before.inbound);
                if place == Place::Gone {
                    return InboundDelivery::ChannelGone;
                }
                if place == Place::Free || empty {
                    return InboundDelivery::Delivered;
                }
                if item.byte_len() > cap {
                    return InboundDelivery::Overflow;
                }
                let q = InboundQueue::start(item, self.inbound_generation);
                let ghost q1 = q@;
                self.inbound_generation = self.inbound_generation.wrapping_add(1);
                self.inbound.insert(id.0, q);
                assert(session::inbound_view(self.inbound@) =~= before.inbound.insert(id.0, q1));
                self.inbound_needs_reserve.push(id.0);
                InboundDelivery::Queued
            },
        }
    }

    /// The waits for a place that are to begin, each with the generation of
    /// its queue.
    pub fn drain_needs_reserve(&mut self) -> (r: Vec<(u32, u64)>)
        ensures
            final(self).peer() == old(self).peer(),
            r@ == old(self).app().waits(old(self).app().needs_reserve),
            final(self).app() == old(self).app().flags_taken(),
    {
        let mut flagged: Vec<u32> = Vec::new();
        std::mem::swap(&mut self.inbound_needs_reserve, &mut flagged);
        let ghost app = old(self).app();
        let mut out: Vec<(u32, u64)> = Vec::new();
        let mut i: usize = 0;
        assert(flagged@.take(0) =~= Seq::empty());
        while i < flagged.len()
            invariant
                i <= flagged@.len(),
                self.app() == (App { needs_reserve: Seq::empty(), ..app }),
                self.peer() == old(self).peer(),
                out@ == app.waits(flagged@.take(i as int)),
            decreases flagged@.len() - i,
        {
            let id: u32 = flagged[i];
            assert(flagged@.take(i + 1).drop_last() =~= flagged@.take(i as int));
            if self.channels.contains_key(&id) {
                if let Some(q) = self.inbound.get(&id) {
                    out.push((id, q.generation));
                }
            }
            i = i + 1;
        }
        assert(flagged@.take(i as int) =~= flagged@);
        out
    }

    /// Bytes that came in on a channel and have not reached the application.
    fn undelivered(&self, id: ChannelId) -> (r: u32)
        ensures
            r == self@.undelivered(id.0),
    {
        let queued: usize = match self.inbound.get(&id.0) {
            Some(q) => q.pending_bytes,
            None => 0,
        };
        let lane: usize = match &self.reader {
            Some(r) => r.occupancy_bytes(id.0),
            None => 0,
        };
        let sum: usize = queued.saturating_add(lane);
        if sum as u64 <= 0xffff_ffff {
            sum as u32
        } else {
            u32::MAX
        }
    }

    /// Stages a grant of more window for a channel, where that is due, and
    /// returns whether it did: the handler may then set another target, and
    /// [`Session::settle_grant`] is to follow.
    pub fn stage_grant(&mut self, id: ChannelId) -> (r: Result<bool, Error>)
        ensures
            r matches Ok(g) && (final(self)@, g) == old(self)@.granted(id.0),
            old(self).peer().ok() ==> final(self).peer().ok(),
    {
        proof {
            reveal(Sess::granted);
        }
        let target: u32 = self.target_window_size;
        let undelivered: u32 = self.undelivered(id);
        if !self.outbound_channel_accepts_ctrl(id) {
            self.deferred_window_grants.remove(&id.0);
            return Ok(false);
        }
        if self.sealed_backlog_bytes() >= OUTBOUND_HIGH_WATERMARK {
            self.deferred_window_grants.insert(id.0);
            return Ok(false);
        }
        let mut granted: bool = false;
        if let Some(enc) = &mut self.common.encrypted {
            proof {
                if enc@.ok() {
                    lemma_grant_ok(enc@, id.0, target, undelivered);
                }
            }
            granted = enc.maybe_grant_recv_window(id, target, undelivered)?;
        }
        self.deferred_window_grants.remove(&id.0);
        Ok(granted)
    }

    /// Takes the target that the handler set after a grant, where it set one,
    /// and moves the grant on before any data.
    pub fn settle_grant(&mut self, w: u32)
        requires
            old(self).peer().ok(),
        ensures
            final(self)@ == old(self)@.grant_settled(w),
            final(self).peer().ok(),
    {
        if w > 0 {
            self.target_window_size = w;
        }
        let _ = self.flush();
    }

    /// Grants the peer more window for a channel after a delivery, where that
    /// is due. After a grant the handler may set another target.
    pub fn maybe_grant_after_delivery<H: Handler>(&mut self, id: ChannelId, handler: &mut H) -> (r:
        Result<(), Error>)
        requires
            old(self).peer().ok(),
        ensures
            r == Ok::<(), Error>(()),
            exists|w: u32|
                answered::<H>(old(self)@, id.0, w) && final(self)@
                    == #[trigger] old(self)@.grant_made(id.0, w),
            final(self).peer().ok(),
    {
        let granted: bool = self.stage_grant(id)?;
        proof {
            reveal(Sess::granted);
        }
        let mut w: u32 = 0;
        if granted {
            w = handler.adjust_window(id, self.target_window_size);
            self.settle_grant(w);
        }
        assert(self@ == old(self)@.grant_made(id.0, w));
        Ok(())
    }

    /// Makes the grants that were put off, in ascending order of their
    /// channels. A channel that is closing loses its grant.
    pub fn retry_deferred_window_grants<H: Handler>(&mut self, handler: &mut H) -> (r: Result<
        (),
        Error,
    >)
        requires
            old(self).peer().ok(),
        ensures
            r == Ok::<(), Error>(()),
            exists|ws: Seq<u32>|
                all_answered::<H>(old(self)@, listing::listing(old(self).app().deferred), ws)
                    && final(self)@ == #[trigger] old(self)@.grants_made(
                    listing::listing(old(self).app().deferred),
                    ws,
                ),
            final(self).peer().ok(),
    {
        let ids: Vec<u32> = listing::sorted_members(&self.deferred_window_grants);
        let ghost mut ws: Seq<u32> = Seq::empty();
        let mut i: usize = 0;
        while i < ids.len()
            invariant
                i <= ids.len(),
                all_answered::<H>(old(self)@, ids@.take(i as int), ws),
                ids@ == listing::listing(old(self).app().deferred),
                self.peer().ok(),
                self@ == old(self)@.grants_made(ids@.take(i as int), ws),
            decreases ids.len() - i,
        {
            let ghost before = self@;
            let ghost given = ws;
            self.maybe_grant_after_delivery(ChannelId(ids[i]), handler)?;
            proof {
                let w = choose|w: u32|
                    answered::<H>(before, ids@[i as int], w) && self@
                        == #[trigger] before.grant_made(ids@[i as int], w);
                ws = given.push(w);
                assert(ws.drop_last() =~= given);
                assert(ids@.take(i + 1).drop_last() =~= ids@.take(i as int));
            }
            i += 1;
        }
        assert(ids@.take(ids@.len() as int) =~= ids@);
        Ok(())
    }

    /// Takes an item from a lane to the application; see [`LaneStep`].
    pub fn dispatch_lane_payload(&mut self, id: ChannelId, item: InboundItem, place: Place) -> (r:
        Result<LaneStep, Error>)
        ensures
            r matches Ok(step) && (final(self)@, step) == old(self)@.lane_payload(
                id.0,
                item@,
                place,
            ),
            old(self).peer().ok() ==> final(self).peer().ok(),
    {
        proof {
            reveal(Sess::lane_payload);
        }
        let is_close: bool = match &item {
            InboundItem::Close => true,
            _ => false,
        };
        let grant: bool = item.grants_window();
        if is_close {
            let we_closed_first: bool = match &self.common.encrypted {
                Some(enc) => !enc.channel_exists(id),
                None => false,
            };
            if !we_closed_first {
                self.discard_channel_outbound(id)?;
            }
        }
        match self.deliver_inbound(id, item, place) {
            InboundDelivery::Delivered | InboundDelivery::ChannelGone => Ok(
                LaneStep::Delivered { grant },
            ),
            InboundDelivery::Queued => Ok(LaneStep::Waits),
            InboundDelivery::Overflow => {
                self.discard_channel_outbound(id)?;
                self.teardown_inbound_channel(id);
                self.channels.remove(&id.0);
                Ok(LaneStep::Overflowed)
            },
        }
    }

    /// Charges a payload of a lane to the channel's window before it goes to
    /// the application.
    pub fn charge_lane_payload(&mut self, id: ChannelId, item: &InboundItem)
        ensures
            final(self).app() == old(self).app(),
            final(self).peer() == old(self).peer().charged(id.0, item@),
            old(self).peer().ok() ==> final(self).peer().ok(),
    {
        if item.grants_window() {
            if let Some(enc) = &mut self.common.encrypted {
                let ghost st = enc@;
                enc.consume_recv_window(id, item.byte_len());
                proof {
                    if st.ok() && st.channels.contains_key(id.0) {
                        closing::lemma_lane_fits(st, id.0);
                        assert(enc@.channels[id.0].fits());
                        closing::lemma_with_lane_ok(st, id.0, enc@.channels[id.0]);
                        assert(enc@.channels =~= st.channels.insert(id.0, enc@.channels[id.0])
                            || enc@ == st);
                    }
                }
            }
        }
    }

    /// The end of a wait for a place, found (`ok`) or given up; see
    /// [`PumpStep`]. After a delivery [`Session::rearm_inbound`] is to follow.
    pub fn pump_inbound(&mut self, id: ChannelId, generation: u64, ok: bool) -> (r: PumpStep)
        ensures
            final(self)@ == old(self)@.pumped(id.0, generation, ok),
            r@ == old(self)@.pump_step(id.0, generation, ok),
    {
        let ghost before = self.app();
        match self.inbound.remove(&id.0) {
            None => {
                assert(session::inbound_view(self.inbound@) =~= before.inbound);
                PumpStep::Nothing
            },
            Some(mut q) => {
                let ghost q0 = q@;
                if q.generation != generation {
                    self.inbound.insert(id.0, q);
                    assert(session::inbound_view(self.inbound@) =~= before.inbound);
                    return PumpStep::Nothing;
                }
                q.reserving = false;
                if !ok {
                    if q.close_queued {
                        let ghost q1 = q@;
                        self.inbound.insert(id.0, q);
                        assert(session::inbound_view(self.inbound@) =~= before.inbound.insert(
                            id.0,
                            q1,
                        ));
                        return PumpStep::CloseNow;
                    }
                    assert(session::inbound_view(self.inbound@) =~= before.inbound.insert(
                        id.0,
                        q@,
                    ).remove(id.0));
                    return PumpStep::Dropped;
                }
                let popped = q.pop();
                let ghost q1 = q@;
                self.inbound.insert(id.0, q);
                assert(session::inbound_view(self.inbound@) =~= before.inbound.insert(id.0, q1));
                match popped {
                    None => PumpStep::Nothing,
                    Some(item) => PumpStep::Deliver(item),
                }
            },
        }
    }

    /// Begins the next wait of a channel, or lets it flow freely again.
    pub fn rearm_inbound(&mut self, id: ChannelId)
        ensures
            final(self).peer() == old(self).peer(),
            final(self).app() == old(self).app().rearmed(id.0),
    {
        let ghost before = self.app();
        match self.inbound.remove(&id.0) {
            None => {
                assert(session::inbound_view(self.inbound@) =~= before.inbound.remove(id.0));
            },
            Some(mut q) => {
                if q.queue.len() > 0 {
                    q.reserving = true;
                    let ghost q1 = q@;
                    self.inbound.insert(id.0, q);
                    assert(session::inbound_view(self.inbound@) =~= before.inbound.insert(
                        id.0,
                        q1,
                    ));
                    self.inbound_needs_reserve.push(id.0);
                } else {
                    assert(session::inbound_view(self.inbound@) =~= before.inbound.remove(id.0));
                }
            },
        }
    }

    /// Forgets the application's end of a channel and closes its lane.
    pub fn forget_channel(&mut self, id: ChannelId)
        ensures
            final(self)@ == old(self)@.forgotten(id.0),
            old(self).peer().ok() ==> final(self).peer().ok(),
    {
        self.channels.remove(&id.0);
        if let Some(r) = &mut self.reader {
            r.close_lane(id.0);
        }
    }

    /// Acts on a message of the reader task about a channel. The handler hears
    /// of a CLOSE at most once for a channel that the application knows.
    pub fn handle_ctrl_msg(&mut self, m: CtrlMsg, size: usize) -> (r: Result<CtrlStep, Error>)
        ensures
            r matches Ok(step) && (final(self)@, step) == old(self)@.ctrl_handled(m, size),
            old(self).peer().ok() ==> final(self).peer().ok(),
    {
        if let Some(r) = &mut self.reader {
            r.release_ctrl(size);
        }
        match m {
            CtrlMsg::WireClose { id } => {
                let we_closed_first: bool = match &self.common.encrypted {
                    Some(enc) => !enc.channel_exists(id),
                    None => false,
                };
                if !we_closed_first {
                    self.discard_channel_outbound(id)?;
                }
                Ok(CtrlStep::Done)
            },
            CtrlMsg::Overflow { id } => {
                self.discard_channel_outbound(id)?;
                self.teardown_inbound_channel(id);
                if self.channels.contains_key(&id.0) {
                    return Ok(CtrlStep::NotifyThenForget);
                }
                self.forget_channel(id);
                Ok(CtrlStep::Done)
            },
            CtrlMsg::CloseDropped { id, generation } => {
                if !self.channels.contains_key(&id.0) {
                    return Ok(CtrlStep::Done);
                }
                let live: Option<u64> = match &self.reader {
                    Some(r) => r.lane_gen(id.0),
                    None => None,
                };
                if let Some(g) = live {
                    if generation != 0 && g != generation {
                        return Ok(CtrlStep::Done);
                    }
                }
                Ok(CtrlStep::NotifyThenFinalize)
            },
        }
    }

    /// Looks at a packet of the reader task: an empty one is ignored, a
    /// DISCONNECT stops the session, any other is to be acted on.
    pub fn handle_ctrl_packet(&mut self, packet: &[u8]) -> (r: PacketStep)
        ensures
            final(self).app() == old(self).app(),
            r == packet_step(packet@),
            final(self).peer() == old(self).peer().packet_heard(packet@),
    {
        if packet.len() == 0 {
            return PacketStep::Ignore;
        }
        if packet[0] == msg::DISCONNECT {
            return PacketStep::Stop;
        }
        self.common.received_data = true;
        PacketStep::Reply
    }

    /// The payload of an opened packet, behind its length and padding length,
    /// and whether it is still to be decompressed.
    pub fn maybe_decompress<'a>(&self, buffer: &'a SSHBuffer) -> (r: (&'a [u8], bool))
        requires
            buffer.buffer@.len() >= 5,
        ensures
            r.0@ == opened_payload(buffer.buffer@),
            r.1 == self.peer().inflates(),
    {
        let inflate: bool = match &self.common.encrypted {
            Some(enc) => enc.decompress != Stream::Off,
            None => false,
        };
        let all: &[u8] = buffer.buffer.as_slice();
        let payload: &[u8] = &all[5..all.len()];
        assert(payload@ =~= buffer.buffer@.skip(5));
        (payload, inflate)
    }
}

} // verus!
