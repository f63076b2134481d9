//! One channel's outbound lane: queued data, queued control items, and the
//! order in which the two may leave.
use bytes::Bytes;
use std::collections::VecDeque;
use vstd::prelude::*;

use crate::wire;
use crate::wire::{bytes_len, saturating_mul, WIRE_OVERHEAD_PER_PACKET};

verus! {

/// Our number for a channel.
#[derive(Clone, Copy, Debug, PartialEq, Eq, Structural, PartialOrd, Ord, Hash)]
pub struct ChannelId(pub u32);

impl ChannelId {
    /// The bare number.
    pub fn number(self) -> (r: u32)
        ensures
            r == self.0,
    {
        self.0
    }
}

/// Where a channel stands in its life.
#[derive(Clone, Copy, Debug, PartialEq, Eq, Structural)]
pub enum ChannelLaneState {
    /// Not confirmed yet.
    Opening,
    /// Open for data.
    Confirmed,
    /// Our CLOSE is queued or out.
    Closing,
}

/// A control item that keeps its place among the data of its lane.
#[derive(Debug)]
pub enum ChannelCtrlItem {
    OpenConfirmation {
        recipient_channel: u32,
        sender_channel: u32,
        window_size: u32,
        packet_size: u32,
    },
    Eof,
    Close,
    Success,
    Failure,
    Request { body: Bytes },
}

/// Bytes that a CHANNEL_SUCCESS or CHANNEL_FAILURE reserves on the wire.
pub const REPLY_RESERVATION: usize = 5 + WIRE_OVERHEAD_PER_PACKET;

impl ChannelCtrlItem {
    /// Bytes that a CHANNEL_SUCCESS or CHANNEL_FAILURE reserves on the wire.
    pub fn reply_reservation() -> (r: usize)
        ensures
            r == REPLY_RESERVATION,
    {
        REPLY_RESERVATION
    }
}

/// The largest application payload of one data packet on this transport.
pub const LOCAL_TRANSPORT_PAYLOAD_CAP: usize = 32 * 1024;

/// What discarding a lane threw away.
#[derive(Clone, Copy, Debug, PartialEq, Eq, Structural)]
pub struct StopDiscardStats {
    pub discarded_items: usize,
    pub discarded_bytes: usize,
    pub already_gone: bool,
}

/// The peer's answer to our CHANNEL_OPEN.
#[derive(Clone, Copy, Debug, PartialEq, Eq, Structural)]
pub struct ChannelOpenConfirmation {
    pub recipient_channel: u32,
    pub sender_channel: u32,
    pub initial_window_size: u32,
    pub maximum_packet_size: u32,
}

/// Both ends' numbers and windows for one channel, and its outbound lane.
#[derive(Debug)]
pub struct ChannelParams {
    pub recipient_channel: u32,
    pub sender_channel: ChannelId,
    pub recipient_window_size: u32,
    pub sender_window_size: u32,
    pub recipient_maximum_packet_size: u32,
    pub sender_maximum_packet_size: u32,
    pub confirmed: bool,
    pub wants_reply: bool,
    /// Unsent data: buffer, extended-data type, and how much of the buffer is gone.
    pub pending_data: VecDeque<(Bytes, Option<u32>, usize)>,
    /// When each entry of `pending_data` was queued.
    pub data_seqs: VecDeque<u64>,
    /// Unsent control items, each with the time it was queued.
    pub pending_ctrl: VecDeque<(u64, ChannelCtrlItem)>,
    /// The lane's clock: one tick per queued item.
    pub next_seq: u64,
    pub pending_eof: bool,
    pub pending_close: bool,
    /// Our CLOSE has been framed.
    pub outbound_closed: bool,
    /// The first data packet since the confirmation is still owed its boost.
    pub boost_pending: bool,
    pub lane: ChannelLaneState,
}

/// The mathematical content of a [`ChannelCtrlItem`].
#[verifier::ext_equal]
pub enum Ctrl {
    OpenConfirmation {
        recipient_channel: u32,
        sender_channel: u32,
        window_size: u32,
        packet_size: u32,
    },
    Eof,
    Close,
    Success,
    Failure,
    Request(Seq<u8>),
}

impl Ctrl {
    /// SUCCESS and FAILURE are the replies that a peer can ask for.
    pub open spec fn is_reply(self) -> bool {
        self is Success || self is Failure
    }
}

impl View for ChannelCtrlItem {
    type V = Ctrl;

    open spec fn view(&self) -> Ctrl {
        match *self {
            ChannelCtrlItem::OpenConfirmation {
                recipient_channel,
                sender_channel,
                window_size,
                packet_size,
            } => Ctrl::OpenConfirmation {
                recipient_channel,
                sender_channel,
                window_size,
                packet_size,
            },
            ChannelCtrlItem::Eof => Ctrl::Eof,
            ChannelCtrlItem::Close => Ctrl::Close,
            ChannelCtrlItem::Success => Ctrl::Success,
            ChannelCtrlItem::Failure => Ctrl::Failure,
            ChannelCtrlItem::Request { body } => Ctrl::Request(wire::bytes_view(body)),
        }
    }
}

/// The mathematical content of a [`ChannelParams`].
#[verifier::ext_equal]
pub struct Lane {
    pub recipient_channel: u32,
    pub sender_channel: ChannelId,
    pub recipient_window_size: u32,
    pub sender_window_size: u32,
    pub recipient_maximum_packet_size: u32,
    pub sender_maximum_packet_size: u32,
    pub confirmed: bool,
    pub wants_reply: bool,
    /// Unsent data: the bytes that are left, and their extended-data type.
    pub data: Seq<(Seq<u8>, Option<u32>)>,
    pub seqs: Seq<u64>,
    pub ctrl: Seq<(u64, Ctrl)>,
    pub next_seq: u64,
    pub pending_eof: bool,
    pub pending_close: bool,
    pub outbound_closed: bool,
    pub boost_pending: bool,
    pub state: ChannelLaneState,
}

impl View for ChannelParams {
    type V = Lane;

    open spec fn view(&self) -> Lane {
        Lane {
            recipient_channel: self.recipient_channel,
            sender_channel: self.sender_channel,
            recipient_window_size: self.recipient_window_size,
            sender_window_size: self.sender_window_size,
            recipient_maximum_packet_size: self.recipient_maximum_packet_size,
            sender_maximum_packet_size: self.sender_maximum_packet_size,
            confirmed: self.confirmed,
            wants_reply: self.wants_reply,
            data: data_queue(self.pending_data@),
            seqs: self.data_seqs@,
            ctrl: ctrl_queue(self.pending_ctrl@),
            next_seq: self.next_seq,
            pending_eof: self.pending_eof,
            pending_close: self.pending_close,
            outbound_closed: self.outbound_closed,
            boost_pending: self.boost_pending,
            state: self.lane,
        }
    }
}

/// The part of a queued entry that has not been sent.
pub open spec fn remaining(e: (Bytes, Option<u32>, usize)) -> Seq<u8> {
    if e.2 < wire::bytes_view(e.0).len() {
        wire::bytes_view(e.0).skip(e.2 as int)
    } else {
        Seq::empty()
    }
}

/// What a data queue has left to send.
pub open spec fn data_queue(q: Seq<(Bytes, Option<u32>, usize)>) -> Seq<(Seq<u8>, Option<u32>)> {
    q.map_values(|e: (Bytes, Option<u32>, usize)| (remaining(e), e.1))
}

/// The content of a control queue.
pub open spec fn ctrl_queue(q: Seq<(u64, ChannelCtrlItem)>) -> Seq<(u64, Ctrl)> {
    q.map_values(|e: (u64, ChannelCtrlItem)| (e.0, e.1@))
}

/// Unsent bytes in a data queue.
pub open spec fn queued_bytes(data: Seq<(Seq<u8>, Option<u32>)>) -> nat
    decreases data.len(),
{
    if data.len() == 0 {
        0
    } else {
        queued_bytes(data.drop_last()) + data.last().0.len()
    }
}

/// How many SUCCESS and FAILURE items a control queue holds.
pub open spec fn reply_count(ctrl: Seq<(u64, Ctrl)>) -> nat
    decreases ctrl.len(),
{
    if ctrl.len() == 0 {
        0
    } else {
        reply_count(ctrl.drop_last()) + if ctrl.last().1.is_reply() {
            1nat
        } else {
            0
        }
    }
}

impl Lane {
    /// The lane that a new channel starts with.
    pub open spec fn fresh(
        recipient_channel: u32,
        sender_channel: ChannelId,
        recipient_window_size: u32,
        sender_window_size: u32,
        recipient_maximum_packet_size: u32,
        sender_maximum_packet_size: u32,
        confirmed: bool,
    ) -> Lane {
        Lane {
            recipient_channel,
            sender_channel,
            recipient_window_size,
            sender_window_size,
            recipient_maximum_packet_size,
            sender_maximum_packet_size,
            confirmed,
            wants_reply: false,
            data: Seq::empty(),
            seqs: Seq::empty(),
            ctrl: Seq::empty(),
            next_seq: 0,
            pending_eof: false,
            pending_close: false,
            outbound_closed: false,
            boost_pending: false,
            state: ChannelLaneState::Opening,
        }
    }

    /// When the head of the data queue was queued.
    pub open spec fn next_data_seq(self) -> u64 {
        if self.seqs.len() > 0 {
            self.seqs[0]
        } else {
            self.next_seq
        }
    }

    /// The control head was queued no later than the data head, so it leaves first.
    pub open spec fn ctrl_ahead(self) -> bool {
        self.ctrl.len() > 0 && (self.data.len() == 0 || self.ctrl[0].0 <= self.next_data_seq())
    }

    /// Data is refused once EOF or CLOSE has been queued.
    pub open spec fn takes_data(self) -> bool {
        !self.pending_eof && !self.pending_close && !self.outbound_closed
    }

    /// Queues `bytes` behind everything queued so far.
    pub open spec fn enqueue_data(self, bytes: Seq<u8>, ext: Option<u32>) -> Lane {
        if self.takes_data() {
            Lane {
                data: self.data.push((bytes, ext)),
                seqs: self.seqs.push(self.next_seq),
                next_seq: self.next_seq.wrapping_add(1),
                ..self
            }
        } else {
            self
        }
    }

    /// Control is refused once CLOSE has been queued. EOF and CLOSE latch.
    pub open spec fn enqueue_ctrl(self, item: Ctrl) -> Lane {
        if self.pending_close || self.outbound_closed {
            self
        } else {
            Lane {
                ctrl: self.ctrl.push((self.next_seq, item)),
                next_seq: self.next_seq.wrapping_add(1),
                pending_eof: self.pending_eof || item is Eof,
                pending_close: item is Close,
                state: if item is Close {
                    ChannelLaneState::Closing
                } else {
                    self.state
                },
                ..self
            }
        }
    }

    /// Takes the control head off the queue, to be framed. A CLOSE shuts the
    /// lane; our own confirmation of a peer's open opens it for data.
    pub open spec fn pop_ctrl(self) -> Lane {
        let opens = self.ctrl[0].1 is OpenConfirmation && self.state == ChannelLaneState::Opening;
        Lane {
            ctrl: self.ctrl.drop_first(),
            outbound_closed: self.outbound_closed || self.ctrl[0].1 is Close,
            boost_pending: self.boost_pending || opens,
            state: if opens {
                ChannelLaneState::Confirmed
            } else {
                self.state
            },
            ..self
        }
    }

    /// Takes the data head off the queue.
    pub open spec fn pop_data(self) -> Lane {
        Lane {
            data: self.data.drop_first(),
            seqs: if self.seqs.len() > 0 {
                self.seqs.drop_first()
            } else {
                self.seqs
            },
            ..self
        }
    }

    /// Puts an entry back at the head, with the time it had.
    pub open spec fn push_data_front(self, bytes: Seq<u8>, ext: Option<u32>, seq: u64) -> Lane {
        Lane {
            data: seq![(bytes, ext)] + self.data,
            seqs: seq![seq] + self.seqs,
            ..self
        }
    }

    /// The peer confirmed the channel.
    pub open spec fn confirm(self, c: ChannelOpenConfirmation) -> Lane {
        Lane {
            recipient_channel: c.sender_channel,
            recipient_window_size: c.initial_window_size,
            recipient_maximum_packet_size: c.maximum_packet_size,
            confirmed: true,
            boost_pending: self.boost_pending || self.state == ChannelLaneState::Opening,
            state: if self.state == ChannelLaneState::Opening {
                ChannelLaneState::Confirmed
            } else {
                self.state
            },
            ..self
        }
    }

    /// A confirmed lane whose head is data that the peer's window lets out.
    pub open spec fn in_ready_set(self) -> bool {
        &&& self.state == ChannelLaneState::Confirmed
        &&& self.data.len() > 0
        &&& self.recipient_window_size > 0
        &&& !self.ctrl_ahead()
    }

    /// The lane's data head is extended data.
    pub open spec fn head_is_extended(self) -> bool {
        self.data.len() > 0 && self.data[0].1 is Some
    }

    /// Something is queued.
    pub open spec fn busy(self) -> bool {
        self.data.len() > 0 || self.ctrl.len() > 0
    }

    /// EOF queued, unless EOF or CLOSE has been.
    pub open spec fn park_eof(self) -> Lane {
        if self.pending_eof || self.pending_close {
            self
        } else {
            self.enqueue_ctrl(Ctrl::Eof)
        }
    }

    /// CLOSE queued, unless it has been.
    pub open spec fn park_close(self) -> Lane {
        self.enqueue_ctrl(Ctrl::Close)
    }

    /// What throwing away the queues throws away.
    pub open spec fn discarded(self) -> StopDiscardStats {
        StopDiscardStats {
            discarded_items: wire::sat(self.data.len() + self.ctrl.len()),
            discarded_bytes: wire::sat(queued_bytes(self.data)),
            already_gone: false,
        }
    }

    /// Our CLOSE is queued or out and nothing is queued any more.
    pub open spec fn finished(self) -> bool {
        self.state == ChannelLaneState::Closing && self.data.len() == 0 && self.ctrl.len() == 0
    }
}

impl ChannelParams {
    /// A channel with empty queues.
    pub fn new(
        recipient_channel: u32,
        sender_channel: ChannelId,
        recipient_window_size: u32,
        sender_window_size: u32,
        recipient_maximum_packet_size: u32,
        sender_maximum_packet_size: u32,
        confirmed: bool,
    ) -> (r: ChannelParams)
        ensures
            r@ == Lane::fresh(
                recipient_channel,
                sender_channel,
                recipient_window_size,
                sender_window_size,
                recipient_maximum_packet_size,
                sender_maximum_packet_size,
                confirmed,
            ),
    {
        let r = ChannelParams {
            recipient_channel,
            sender_channel,
            recipient_window_size,
            sender_window_size,
            recipient_maximum_packet_size,
            sender_maximum_packet_size,
            confirmed,
            wants_reply: false,
            pending_data: VecDeque::new(),
            data_seqs: VecDeque::new(),
            pending_ctrl: VecDeque::new(),
            next_seq: 0,
            pending_eof: false,
            pending_close: false,
            outbound_closed: false,
            boost_pending: false,
            lane: ChannelLaneState::Opening,
        };
        assert(r@ =~= Lane::fresh(
            recipient_channel,
            sender_channel,
            recipient_window_size,
            sender_window_size,
            recipient_maximum_packet_size,
            sender_maximum_packet_size,
            confirmed,
        ));
        r
    }

    /// Whether the control head leaves before the data head.
    pub fn ctrl_ahead_of_data(&self) -> (r: bool)
        ensures
            r == self@.ctrl_ahead(),
    {
        if self.pending_ctrl.len() == 0 {
            return false;
        }
        if self.pending_data.len() == 0 {
            return true;
        }
        let head: u64 = if self.data_seqs.len() > 0 {
            self.data_seqs[0]
        } else {
            self.next_seq
        };
        self.pending_ctrl[0].0 <= head
    }

    /// Queues data behind everything queued so far; `false` once EOF or CLOSE
    /// has been queued, and the data is dropped.
    pub fn enqueue_data(&mut self, buf: Bytes, ext: Option<u32>, from: usize) -> (r: bool)
        ensures
            r == old(self)@.takes_data(),
            final(self)@ == old(self)@.enqueue_data(remaining((buf, ext, from)), ext),
    {
        if self.pending_eof || self.pending_close || self.outbound_closed {
            return false;
        }
        self.pending_data.push_back((buf, ext, from));
        self.data_seqs.push_back(self.next_seq);
        self.next_seq = self.next_seq.wrapping_add(1);
        assert(self@ =~= old(self)@.enqueue_data(remaining((buf, ext, from)), ext));
        true
    }

    /// Queues a control item behind everything queued so far, unless CLOSE has
    /// been queued.
    pub fn enqueue_ctrl(&mut self, item: ChannelCtrlItem)
        ensures
            final(self)@ == old(self)@.enqueue_ctrl(item@),
    {
        if self.pending_close || self.outbound_closed {
            return ;
        }
        let ghost it = item@;
        match item {
            ChannelCtrlItem::Eof => {
                self.pending_eof = true;
            },
            ChannelCtrlItem::Close => {
                self.pending_close = true;
                self.lane = ChannelLaneState::Closing;
            },
            _ => {},
        }
        self.pending_ctrl.push_back((self.next_seq, item));
        self.next_seq = self.next_seq.wrapping_add(1);
        assert(self@ =~= old(self)@.enqueue_ctrl(it));
    }

    /// The control item that leaves next among the control items.
    pub fn peek_ctrl_front(&self) -> (r: Option<&ChannelCtrlItem>)
        ensures
            self@.ctrl.len() == 0 ==> r is None,
            self@.ctrl.len() > 0 ==> r is Some && r->0@ == self@.ctrl[0].1,
    {
        if self.pending_ctrl.len() == 0 {
            None
        } else {
            Some(&self.pending_ctrl[0].1)
        }
    }

    /// Takes the control head to be framed.
    pub fn pop_ctrl_front(&mut self) -> (r: Option<ChannelCtrlItem>)
        ensures
            old(self)@.ctrl.len() == 0 ==> r is None && final(self)@ == old(self)@,
            old(self)@.ctrl.len() > 0 ==> r is Some && r->0@ == old(self)@.ctrl[0].1 && final(self)@
                == old(self)@.pop_ctrl(),
    {
        match self.pending_ctrl.pop_front() {
            None => None,
            Some((_seq, item)) => {
                match item {
                    ChannelCtrlItem::Close => {
                        self.outbound_closed = true;
                    },
                    ChannelCtrlItem::OpenConfirmation { .. } => {
                        if self.lane == ChannelLaneState::Opening {
                            self.lane = ChannelLaneState::Confirmed;
                            self.boost_pending = true;
                        }
                    },
                    _ => {},
                }
                assert(self@ =~= old(self)@.pop_ctrl());
                Some(item)
            },
        }
    }

    /// Takes the data head: buffer, type, offset and queueing time.
    pub fn pop_data_front(&mut self) -> (r: Option<(Bytes, Option<u32>, usize, u64)>)
        ensures
            old(self)@.data.len() == 0 ==> r is None && final(self)@ == old(self)@,
            old(self)@.data.len() > 0 ==> {
                &&& final(self)@ == old(self)@.pop_data()
                &&& r is Some
                &&& r matches Some((buf, ext, from, seq)) && {
                    &&& remaining((buf, ext, from)) == old(self)@.data[0].0
                    &&& ext == old(self)@.data[0].1
                    &&& seq == old(self)@.next_data_seq()
                }
            },
    {
        match self.pending_data.pop_front() {
            None => None,
            Some((buf, ext, from)) => {
                let seq: u64 = match self.data_seqs.pop_front() {
                    Some(seq) => seq,
                    None => self.next_seq,
                };
                assert(self@ =~= old(self)@.pop_data());
                Some((buf, ext, from, seq))
            },
        }
    }

    /// Puts data back at the head of its queue.
    pub fn push_data_front(&mut self, buf: Bytes, ext: Option<u32>, from: usize, seq: u64)
        ensures
            final(self)@ == old(self)@.push_data_front(remaining((buf, ext, from)), ext, seq),
    {
        self.pending_data.push_front((buf, ext, from));
        self.data_seqs.push_front(seq);
        assert(self@ =~= old(self)@.push_data_front(remaining((buf, ext, from)), ext, seq));
    }

    /// Takes the peer's answer to our open. A lane that is already closing
    /// stays so.
    pub fn confirm(&mut self, c: &ChannelOpenConfirmation)
        ensures
            final(self)@ == old(self)@.confirm(*c),
    {
        self.recipient_channel = c.sender_channel;
        self.recipient_window_size = c.initial_window_size;
        self.recipient_maximum_packet_size = c.maximum_packet_size;
        self.confirmed = true;
        if self.lane == ChannelLaneState::Opening {
            self.lane = ChannelLaneState::Confirmed;
            self.boost_pending = true;
        }
        assert(self@ =~= old(self)@.confirm(*c));
    }

    /// Whether a control item is queued.
    pub fn has_pending_ctrl(&self) -> (r: bool)
        ensures
            r == (self@.ctrl.len() > 0),
    {
        self.pending_ctrl.len() > 0
    }

    /// Whether the data head is extended data.
    pub fn pending_head_is_extended(&self) -> (r: bool)
        ensures
            r == self@.head_is_extended(),
    {
        self.pending_data.len() > 0 && self.pending_data[0].1.is_some()
    }

    /// Whether the scheduler may take a data packet from this lane.
    pub fn in_ready_set(&self) -> (r: bool)
        ensures
            r == self@.in_ready_set(),
    {
        self.lane == ChannelLaneState::Confirmed && self.pending_data.len() > 0
            && self.recipient_window_size > 0 && !self.ctrl_ahead_of_data()
    }

    /// Unsent data bytes, capped at the largest `usize`.
    pub fn queued_data_bytes(&self) -> (r: usize)
        ensures
            r == wire::sat(queued_bytes(self@.data)),
    {
        let mut total: usize = 0;
        let mut i: usize = 0;
        while i < self.pending_data.len()
            invariant
                i <= self.pending_data@.len(),
                total == wire::sat(queued_bytes(data_queue(self.pending_data@).take(i as int))),
            decreases self.pending_data@.len() - i,
        {
            proof {
                let q = data_queue(self.pending_data@);
                assert(q.take(i + 1).drop_last() =~= q.take(i as int));
            }
            let left: usize = bytes_len(&self.pending_data[i].0).saturating_sub(
                self.pending_data[i].2,
            );
            total = total.saturating_add(left);
            i = i + 1;
        }
        proof {
            assert(self@.data.take(i as int) =~= self@.data);
        }
        total
    }

    /// How many SUCCESS and FAILURE items wait in this lane.
    pub fn queued_reply_count(&self) -> (r: usize)
        ensures
            r == reply_count(self@.ctrl),
    {
        let mut n: usize = 0;
        let mut i: usize = 0;
        while i < self.pending_ctrl.len()
            invariant
                i <= self.pending_ctrl@.len(),
                n <= i,
                n == reply_count(ctrl_queue(self.pending_ctrl@).take(i as int)),
            decreases self.pending_ctrl@.len() - i,
        {
            proof {
                let q = ctrl_queue(self.pending_ctrl@);
                assert(q.take(i + 1).drop_last() =~= q.take(i as int));
            }
            match &self.pending_ctrl[i].1 {
                ChannelCtrlItem::Success | ChannelCtrlItem::Failure => {
                    n = n + 1;
                },
                _ => {},
            }
            i = i + 1;
        }
        proof {
            assert(self@.ctrl.take(i as int) =~= self@.ctrl);
        }
        n
    }

    /// Wire bytes that the queued SUCCESS and FAILURE items reserve.
    pub fn queued_reply_reservation(&self) -> (r: usize)
        ensures
            r == wire::sat(reply_count(self@.ctrl) * REPLY_RESERVATION as nat),
    {
        saturating_mul(self.queued_reply_count(), REPLY_RESERVATION)
    }

    /// Drops everything queued and forgets EOF and CLOSE.
    pub fn clear_outbound(&mut self)
        ensures
            final(self)@ == (Lane {
                data: Seq::empty(),
                seqs: Seq::empty(),
                ctrl: Seq::empty(),
                pending_eof: false,
                pending_close: false,
                ..old(self)@
            }),
    {
        self.pending_data.clear();
        self.data_seqs.clear();
        self.pending_ctrl.clear();
        self.pending_eof = false;
        self.pending_close = false;
        assert(self@ =~= (Lane {
            data: Seq::empty(),
            seqs: Seq::empty(),
            ctrl: Seq::empty(),
            pending_eof: false,
            pending_close: false,
            ..old(self)@
        }));
    }

    /// Throws away whatever has not been framed and shuts the lane.
    pub fn stop_discard_unframed(&mut self) -> (r: StopDiscardStats)
        ensures
            r == old(self)@.discarded(),
            final(self)@ == (Lane {
                data: Seq::empty(),
                seqs: Seq::empty(),
                ctrl: Seq::empty(),
                outbound_closed: true,
                ..old(self)@
            }),
    {
        let stats = StopDiscardStats {
            discarded_items: self.pending_data.len().saturating_add(self.pending_ctrl.len()),
            discarded_bytes: self.queued_data_bytes(),
            already_gone: false,
        };
        self.pending_data.clear();
        self.data_seqs.clear();
        self.pending_ctrl.clear();
        self.outbound_closed = true;
        assert(self@ =~= (Lane {
            data: Seq::empty(),
            seqs: Seq::empty(),
            ctrl: Seq::empty(),
            outbound_closed: true,
            ..old(self)@
        }));
        stats
    }
}

} // verus!
