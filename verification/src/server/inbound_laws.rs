//! What comes in reaches the application: every item once, in order, whether
//! the application keeps up or not, and the client is granted window for what
//! has been taken.
use vstd::prelude::*;

use crate::server::delivery;
use crate::server::delivery::{
    CtrlMsg, CtrlStep, InboundDelivery, LaneStep, PacketStep, Place, Pumped,
};
use crate::server::inbound::Item;
use crate::server::reader::ReaderCmd;
use crate::server::session::{App, Peer, Sess};
use crate::server::session_laws::total_size;
use crate::session::Staging;
use crate::sshbuffer::OUTBOUND_HIGH_WATERMARK;
use crate::wire;

verus! {

/// What is queued for the application's end of a channel.
pub open spec fn queue_of(a: App, id: u32) -> Seq<Item> {
    if a.inbound.contains_key(id) {
        a.inbound[id].queue
    } else {
        Seq::empty()
    }
}

/// What came in on one channel up to some point, and what of it the
/// application has.
#[verifier::ext_equal]
pub struct Arrivals {
    pub sess: Sess,
    pub accepted: Seq<Item>,
    pub delivered: Seq<Item>,
}

/// What can happen on the way in.
pub enum Arrival {
    /// An item comes in; the application's buffer is as given.
    Item(Item, Place),
    /// A wait has found a place.
    Place(u64),
    /// The item has been handed over; the queue goes on.
    Next,
}

/// An item that carries nothing, or that repeats an EOF or CLOSE that is
/// queued: it need not be brought.
pub open spec fn idle_item(a: App, id: u32, item: Item) -> bool {
    match item {
        Item::Data(d) => d.len() == 0,
        Item::ExtendedData { ext, data } => data.len() == 0,
        Item::Eof => a.inbound.contains_key(id) && a.inbound[id].eof_queued,
        Item::Close => a.inbound.contains_key(id) && a.inbound[id].close_queued,
    }
}

impl Arrivals {
    /// One step on channel `id`.
    pub open spec fn next(self, id: u32, step: Arrival) -> Arrivals {
        match step {
            Arrival::Item(item, place) => {
                let a = self.sess.app;
                let (b, d) = a.delivered(
                    self.sess.peer.config.max_pending_inbound_bytes,
                    id,
                    item,
                    place,
                );
                let taken = (d == InboundDelivery::Delivered || d == InboundDelivery::Queued)
                    && !idle_item(a, id, item);
                Arrivals {
                    sess: Sess { app: b, ..self.sess },
                    accepted: if taken {
                        self.accepted.push(item)
                    } else {
                        self.accepted
                    },
                    delivered: if taken && d == InboundDelivery::Delivered {
                        self.delivered.push(item)
                    } else {
                        self.delivered
                    },
                }
            },
            Arrival::Place(generation) => Arrivals {
                sess: self.sess.pumped(id, generation, true),
                delivered: match self.sess.pump_step(id, generation, true) {
                    Pumped::Deliver(item) => self.delivered.push(item),
                    _ => self.delivered,
                },
                ..self
            },
            Arrival::Next => Arrivals {
                sess: Sess { app: self.sess.app.rearmed(id), ..self.sess },
                ..self
            },
        }
    }

    /// Several steps.
    pub open spec fn after(self, id: u32, steps: Seq<Arrival>) -> Arrivals
        decreases steps.len(),
    {
        if steps.len() == 0 {
            self
        } else {
            self.after(id, steps.drop_last()).next(id, steps.last())
        }
    }
}

proof fn lemma_arrival(r: Arrivals, id: u32, step: Arrival)
    requires
        r.delivered + queue_of(r.sess.app, id) == r.accepted,
    ensures
        r.next(id, step).delivered + queue_of(r.next(id, step).sess.app, id) == r.next(
            id,
            step,
        ).accepted,
{
    let n = r.next(id, step);
    let q = queue_of(r.sess.app, id);
    match step {
        Arrival::Item(item, place) => {
            assert((r.delivered + q).push(item) =~= r.delivered + q.push(item));
            if !r.sess.app.inbound.contains_key(id) {
                assert(q.push(item) =~= seq![item]);
                assert(r.delivered.push(item) + q =~= r.accepted.push(item));
            }
            assert(n.delivered + queue_of(n.sess.app, id) =~= n.accepted);
        },
        Arrival::Place(_) => {
            if q.len() > 0 {
                assert(r.delivered.push(q[0]) + q.drop_first() =~= r.delivered + q);
            }
            assert(n.delivered + queue_of(n.sess.app, id) =~= n.accepted);
        },
        Arrival::Next => {
            assert(n.delivered + queue_of(n.sess.app, id) =~= n.accepted);
        },
    }
}

/// Over any run, what the application has and what is queued for it are
/// together what came in, in the order in which it came: nothing is lost,
/// repeated or overtaken while the application lags behind.
pub proof fn law_what_comes_in_is_delivered_in_order(r: Arrivals, id: u32, steps: Seq<Arrival>)
    requires
        r.delivered + queue_of(r.sess.app, id) == r.accepted,
    ensures
        r.after(id, steps).delivered + queue_of(r.after(id, steps).sess.app, id) == r.after(
            id,
            steps,
        ).accepted,
    decreases steps.len(),
{
    if steps.len() > 0 {
        law_what_comes_in_is_delivered_in_order(r, id, steps.drop_last());
        lemma_arrival(r.after(id, steps.drop_last()), id, steps.last());
    }
}

/// Going on after a delivery loses no item: what is queued stays queued in its
/// order, and a wait for it is to begin; a queue that has drained is gone, and
/// the channel flows freely again. Other channels are left alone.
pub proof fn law_going_on_keeps_the_queue(a: App, id: u32, other: u32)
    requires
        other != id,
    ensures
        ({
            let b = a.rearmed(id);
            &&& queue_of(b, id) == queue_of(a, id)
            &&& queue_of(a, id).len() > 0 ==> b.needs_reserve.contains(id) && b.inbound[id].reserving
                && b.inbound[id].generation == a.inbound[id].generation
                && b.inbound[id].pending_bytes == a.inbound[id].pending_bytes
                && b.inbound[id].eof_queued == a.inbound[id].eof_queued
                && b.inbound[id].close_queued == a.inbound[id].close_queued
            &&& queue_of(a, id).len() == 0 ==> !b.inbound.contains_key(id)
            &&& b.inbound.contains_key(other) == a.inbound.contains_key(other)
            &&& a.inbound.contains_key(other) ==> b.inbound[other] == a.inbound[other]
            &&& forall|x: u32| a.needs_reserve.contains(x) ==> #[trigger] b.needs_reserve.contains(x)
            &&& b.channels == a.channels
        }),
{
    let b = a.rearmed(id);
    if queue_of(a, id).len() > 0 {
        assert(b.needs_reserve[a.needs_reserve.len() as int] == id);
    }
    assert forall|x: u32| a.needs_reserve.contains(x) implies #[trigger] b.needs_reserve.contains(
        x,
    ) by {
        let i = choose|i: int| 0 <= i < a.needs_reserve.len() && a.needs_reserve[i] == x;
        assert(b.needs_reserve[i] == x);
    }
}

/// A wait begins for each flagged channel that still has a queue, under that
/// queue's generation, and for no other.
pub proof fn law_waits_begin_for_flagged_channels(a: App, flagged: Seq<u32>, id: u32)
    ensures
        flagged.contains(id) && a.channels.contains_key(id) && a.inbound.contains_key(id)
            ==> a.waits(flagged).contains((id, a.inbound[id].generation)),
        forall|g: u64| #[trigger]
            a.waits(flagged).contains((id, g)) ==> flagged.contains(id) && a.channels.contains_key(
                id,
            ) && a.inbound.contains_key(id) && g == a.inbound[id].generation,
    decreases flagged.len(),
{
    if flagged.len() > 0 {
        let init = flagged.drop_last();
        let w = a.waits(init);
        let v = a.waits(flagged);
        let last = flagged.last();
        law_waits_begin_for_flagged_channels(a, init, id);
        assert(flagged.contains(id) <==> init.contains(id) || last == id) by {
            if flagged.contains(id) {
                let i = choose|i: int| 0 <= i < flagged.len() && flagged[i] == id;
                if i < init.len() {
                    assert(init[i] == id);
                }
            }
            if init.contains(id) {
                let i = choose|i: int| 0 <= i < init.len() && init[i] == id;
                assert(flagged[i] == id);
            }
            assert(flagged[flagged.len() - 1] == last);
        }
        assert forall|g: u64| #[trigger] v.contains((id, g)) <==> w.contains((id, g)) || (last == id
            && a.channels.contains_key(id) && a.inbound.contains_key(id) && g
            == a.inbound[id].generation) by {
            if w.contains((id, g)) {
                let i = choose|i: int| 0 <= i < w.len() && w[i] == (id, g);
                assert(v[i] == (id, g));
            }
            if v.contains((id, g)) {
                let i = choose|i: int| 0 <= i < v.len() && v[i] == (id, g);
                if i < w.len() {
                    assert(w[i] == (id, g));
                }
            }
            if last == id && a.channels.contains_key(id) && a.inbound.contains_key(id) && g
                == a.inbound[id].generation {
                assert(v[w.len() as int] == (id, g));
            }
        }
    }
}

/// An item that finds a place, with nothing queued before it, is delivered at
/// once; one that finds none is queued, and a wait for it begins under a
/// generation that no earlier queue had.
pub proof fn law_first_item_is_taken(a: App, cap: usize, id: u32, item: Item)
    requires
        a.channels.contains_key(id),
        !a.inbound.contains_key(id),
        !idle_item(a, id, item),
        item.size() <= cap,
    ensures
        a.delivered(cap, id, item, Place::Free) == (a, InboundDelivery::Delivered),
        a.delivered(cap, id, item, Place::Gone) == (a, InboundDelivery::ChannelGone),
        ({
            let (b, d) = a.delivered(cap, id, item, Place::Full);
            &&& d == InboundDelivery::Queued
            &&& queue_of(b, id) == seq![item]
            &&& b.inbound[id].reserving
            &&& b.needs_reserve == a.needs_reserve.push(id)
            &&& b.inbound[id].generation == a.inbound_generation
            &&& b.inbound_generation != a.inbound_generation
        }),
{
}

/// A channel is given up for its backlog exactly when the item would take what
/// is queued beyond the cap.
pub proof fn law_overflow_is_beyond_the_cap(a: App, cap: usize, id: u32, item: Item, place: Place)
    requires
        a.channels.contains_key(id),
        a.inbound.contains_key(id) ==> a.inbound[id].sound(cap),
        !idle_item(a, id, item),
    ensures
        a.inbound.contains_key(id) ==> (a.delivered(cap, id, item, place).1
            == InboundDelivery::Overflow <==> total_size(queue_of(a, id)) + item.size() > cap),
        !a.inbound.contains_key(id) ==> (a.delivered(cap, id, item, place).1
            == InboundDelivery::Overflow <==> place == Place::Full && item.size() > cap),
{
}

/// The end of a wait hands out the first item of the queue that it was for,
/// and leaves the rest; a wait for an earlier queue hands nothing out. Where
/// the application has gone, nothing is handed out: the queue is dropped,
/// unless the peer's CLOSE is in it, which the handler is still to hear of.
pub proof fn law_wait_hands_out_the_first_item(s: Sess, id: u32, generation: u64, other: u32)
    requires
        s.app.inbound.contains_key(id),
        s.app.inbound[id].queue.len() > 0,
        other != id,
    ensures
        ({
            let q = s.app.inbound[id];
            let t = s.pumped(id, generation, true);
            let gone = s.pumped(id, generation, false);
            let mine = q.generation == generation;
            &&& mine ==> s.pump_step(id, generation, true) == Pumped::Deliver(q.queue[0])
            &&& mine ==> seq![q.queue[0]] + queue_of(t.app, id) == q.queue
            &&& mine ==> t.app.inbound.contains_key(id) && !t.app.inbound[id].reserving
            &&& mine && q.pending_bytes == total_size(q.queue) ==> t.app.inbound[id].pending_bytes
                == total_size(t.app.inbound[id].queue)
            &&& !mine ==> s.pump_step(id, generation, true) == Pumped::Nothing && t == s
            &&& mine && q.close_queued ==> s.pump_step(id, generation, false) == Pumped::CloseNow
            &&& mine && !q.close_queued ==> s.pump_step(id, generation, false) == Pumped::Dropped
                && !gone.app.inbound.contains_key(id)
            &&& queue_of(t.app, other) == queue_of(s.app, other)
            &&& queue_of(gone.app, other) == queue_of(s.app, other)
            &&& t.peer == s.peer
        }),
{
    let q = s.app.inbound[id];
    assert(seq![q.queue[0]] + q.queue.drop_first() =~= q.queue);
}

/// What comes in is charged to the window that its channel was granted, byte
/// for byte; marks, what is beyond the window, and other channels cost
/// nothing.
pub proof fn law_what_comes_in_is_charged(s: Peer, id: u32, item: Item, other: u32)
    requires
        s.lane(id) is Some,
        other != id,
    ensures
        ({
            let before = s.lane(id)->0.sender_window_size;
            let t = s.charged(id, item);
            let after = t.lane(id)->0.sender_window_size;
            &&& t.lane(id) is Some
            &&& (item is Data || item is ExtendedData) && item.size() <= before ==> after
                + item.size() == before
            &&& item is Eof || item is Close || item.size() > before ==> after == before
            &&& t.lane(id)->0.data == s.lane(id)->0.data
            &&& t.lane(id)->0.recipient_window_size == s.lane(id)->0.recipient_window_size
            &&& t.lane(other) == s.lane(other)
            &&& t.unsent() == s.unsent()
        }),
{
    let t = s.charged(id, item);
    assert(t.unsent() =~= s.unsent());
}

/// What has come in and not reached the application is what its channel has
/// queued and what the reader's lane still holds.
pub proof fn law_undelivered_is_queued_and_on_the_way(s: Sess, id: u32)
    requires
        s.app.inbound.contains_key(id) ==> s.app.inbound[id].pending_bytes == total_size(
            queue_of(s.app, id),
        ),
    ensures
        ({
            let lane: nat = match s.peer.reader {
                Some(r) if r.lanes.contains_key(id) => r.lanes[id].bytes as nat,
                _ => 0,
            };
            let sum = total_size(queue_of(s.app, id)) + lane;
            &&& sum <= u32::MAX ==> s.undelivered(id) == sum
            &&& sum > u32::MAX ==> s.undelivered(id) == u32::MAX
        }),
{
}

/// A grant is made once less than half of what the target leaves beside the
/// undelivered bytes is left of the window. It tops the window up to just
/// that, and tells the client exactly the difference, in one WINDOW_ADJUST
/// under the client's number for the channel.
pub proof fn law_grant_tops_the_window_up(s: Sess, id: u32, other: u32)
    requires
        s.peer.ok(),
        s.peer.lane(id) matches Some(l) && !l.outbound_closed,
        s.peer.backlog() < OUTBOUND_HIGH_WATERMARK,
        other != id,
    ensures
        ({
            let target = s.app.target_window_size;
            let u = s.undelivered(id);
            let l = s.peer.lane(id)->0;
            let (t, due) = s.granted(id);
            let after = t.peer.lane(id)->0.sender_window_size;
            &&& due <==> u <= target && l.sender_window_size < (target - u) / 2
            &&& due ==> after + u == target
            &&& due ==> wire::packets(t.peer.unsent()) == wire::packets(s.peer.unsent()).push(
                seq![93u8] + wire::be32(l.recipient_channel) + wire::be32(
                    (after - l.sender_window_size) as u32,
                ),
            )
            &&& !due ==> after == l.sender_window_size && t.peer.unsent() == s.peer.unsent()
            &&& t.peer.lane(id) is Some
            &&& t.peer.lane(other) == s.peer.lane(other)
            &&& !t.app.deferred.contains(id)
            &&& queue_of(t.app, id) == queue_of(s.app, id)
            &&& t.app.target_window_size == target
        }),
{
    reveal(Staging::ok);
    reveal(Sess::granted);
    let (t, due) = s.granted(id);
    let l = s.peer.lane(id)->0;
    assert(s.peer.sampled().st() == s.peer.st());
    if due {
        let c = crate::session::Staging::ceiling(s.app.target_window_size, s.undelivered(id));
        let p = seq![93u8] + wire::be32(l.recipient_channel) + wire::be32(
            (c - l.sender_window_size) as u32,
        );
        wire::lemma_frame_appended(s.peer.unsent(), p);
        assert(t.peer.unsent() =~= s.peer.unsent() + wire::frame(p));
    } else {
        assert(t.peer.unsent() =~= s.peer.unsent());
    }
}

/// A grant that finds the backlog at the high watermark is put off, not lost:
/// its channel is remembered, and nothing is sent for it meanwhile.
pub proof fn law_grant_is_put_off_not_lost(s: Sess, id: u32)
    requires
        s.peer.lane(id) matches Some(l) && !l.outbound_closed,
        s.peer.backlog() >= OUTBOUND_HIGH_WATERMARK,
    ensures
        !s.granted(id).1,
        s.granted(id).0.app.deferred.contains(id),
        s.granted(id).0.peer.unsent() == s.peer.unsent(),
        s.granted(id).0.peer.lane(id) == s.peer.lane(id),
{
    reveal(Sess::granted);
}

/// The handler's answer is the target from then on; zero leaves it.
pub proof fn law_handlers_target_is_taken(s: Sess, w: u32)
    ensures
        w > 0 ==> s.grant_settled(w).app.target_window_size == w,
        w == 0 ==> s.grant_settled(w).app.target_window_size == s.app.target_window_size,
        s.grant_settled(w).peer == s.peer.flushed().0,
        s.grant_settled(w).app.inbound == s.app.inbound,
        s.grant_settled(w).app.deferred == s.app.deferred,
{
}

/// Data and EOF of a lane change nothing on the way out and go to the
/// application; only what carries data may be granted for. A CLOSE of the peer
/// also ends this side of the channel, with its own CLOSE as the last word.
pub proof fn law_lane_items_go_to_the_application(s: Sess, id: u32, item: Item, place: Place)
    requires
        s.app.channels.contains_key(id),
    ensures
        ({
            let cap = s.peer.config.max_pending_inbound_bytes;
            let (t, step) = s.lane_payload(id, item, place);
            &&& !(item is Close) && !(step is Overflowed) ==> t.peer == s.peer
            &&& step matches LaneStep::Delivered { grant } ==> (grant <==> item is Data
                || item is ExtendedData)
            &&& !(step is Overflowed) ==> t.app.channels == s.app.channels
            &&& step is Overflowed ==> !t.app.channels.contains_key(id)
                && !t.app.inbound.contains_key(id) && (s.peer.common.enc is Some ==> t.peer.lane(
                id,
            ) is None)
            &&& item is Close && s.peer.common.enc is Some ==> t.peer.lane(id) is None
            &&& step is Waits && !idle_item(s.app, id, item) ==> queue_of(t.app, id) == queue_of(
                s.app,
                id,
            ).push(item)
            &&& step is Delivered ==> queue_of(t.app, id) == queue_of(s.app, id)
            &&& place == Place::Free && !s.app.inbound.contains_key(id) ==> step is Delivered
        }),
{
    reveal(Sess::lane_payload);
    let t = s.lane_payload(id, item, place).0;
    if !s.app.inbound.contains_key(id) {
        assert(Seq::<Item>::empty().push(item) =~= seq![item]);
    }
}

/// The room that a message of the reader took is given back exactly, whatever
/// the message is.
pub proof fn law_readers_room_is_given_back(s: Sess, m: CtrlMsg, size: usize)
    requires
        s.peer.reader is Some,
    ensures
        s.ctrl_handled(m, size).0.peer.reader is Some,
        s.ctrl_handled(m, size).0.peer.reader->0.cmds.len() > s.peer.reader->0.cmds.len(),
        s.ctrl_handled(m, size).0.peer.reader->0.cmds[s.peer.reader->0.cmds.len() as int]
            == ReaderCmd::ReleaseCtrl(size),
{
}

/// The peer's CLOSE on the wire, and a lane that ran over, end this side of the
/// channel. A CLOSE that was dropped with the lane of an earlier channel of the
/// same number is nobody's; one of this channel has to be told and the channel
/// forgotten.
pub proof fn law_readers_messages_end_channels(s: Sess, id: crate::channel::ChannelId, g: u64, size: usize)
    requires
        s.peer.common.enc is Some,
    ensures
        ({
            let (a, x) = s.ctrl_handled(CtrlMsg::WireClose { id }, size);
            let (b, y) = s.ctrl_handled(CtrlMsg::Overflow { id }, size);
            let (c, z) = s.ctrl_handled(CtrlMsg::CloseDropped { id, generation: g }, size);
            let known = s.app.channels.contains_key(id.0);
            &&& a.peer.lane(id.0) is None && x == CtrlStep::Done
            &&& a.app.channels == s.app.channels
            &&& b.peer.lane(id.0) is None && !b.app.inbound.contains_key(id.0)
            &&& known <==> y == CtrlStep::NotifyThenForget
            &&& !known ==> z == CtrlStep::Done
            &&& known && (s.peer.reader matches Some(r) && r.lanes.contains_key(id.0)
                && r.lanes[id.0].generation == g) ==> z == CtrlStep::NotifyThenFinalize
            &&& known && g != 0 && (s.peer.reader matches Some(r) && r.lanes.contains_key(id.0)
                && r.lanes[id.0].generation != g) ==> z == CtrlStep::Done
            &&& c.app == s.app && c.peer.common == s.peer.common
        }),
{
}

/// A DISCONNECT of the client stops the session; what carries nothing is
/// ignored; anything else is acted on.
pub proof fn law_only_a_disconnect_stops(packet: Seq<u8>)
    ensures
        packet.len() > 0 ==> (delivery::packet_step(packet) == PacketStep::Stop <==> packet[0]
            == 1),
        packet.len() > 0 && packet[0] != 1 ==> delivery::packet_step(packet) == PacketStep::Reply,
        packet.len() == 0 ==> delivery::packet_step(packet) == PacketStep::Ignore,
{
}

/// The payload of an opened packet is what follows its length and padding
/// length, and it is inflated exactly where a decompressor runs.
pub proof fn law_opened_packet_gives_its_payload(s: Peer, head: Seq<u8>, payload: Seq<u8>)
    requires
        head.len() == 5,
    ensures
        delivery::opened_payload(head + payload) == payload,
        s.inflates() <==> (s.common.enc matches Some(e) && e.keys.decompress
            != crate::sshbuffer::Stream::Off),
{
    assert((head + payload).skip(5) =~= payload);
}

/// Any packet that is acted on shows that the client is alive; what is ignored,
/// and a DISCONNECT, show nothing. Nothing else changes.
pub proof fn law_packets_show_life(s: Peer, packet: Seq<u8>)
    ensures
        packet.len() > 0 && packet[0] != 1 ==> s.packet_heard(packet).common.received_data,
        packet.len() == 0 || packet[0] == 1 ==> s.packet_heard(packet) == s,
        s.packet_heard(packet).common.enc == s.common.enc,
        s.packet_heard(packet).link == s.link,
        s.packet_heard(packet).common.alive_timeouts == s.common.alive_timeouts,
{
}

/// A wait that has begun is not begun again: the flags are gone, and nothing
/// else is.
pub proof fn law_waits_begin_once(a: App)
    ensures
        a.flags_taken().needs_reserve.len() == 0,
        a.flags_taken().waits(a.flags_taken().needs_reserve).len() == 0,
        a.flags_taken().inbound == a.inbound,
        a.flags_taken().channels == a.channels,
        a.flags_taken().released == a.released,
{
}

/// A channel that is forgotten is gone for the application, and its lane is
/// closed at the reader; every other channel stays.
pub proof fn law_forgotten_channel_is_gone(s: Sess, id: u32, other: u32)
    requires
        other != id,
    ensures
        ({
            let t = s.forgotten(id);
            &&& !t.app.channels.contains_key(id)
            &&& t.app.channels.contains_key(other) == s.app.channels.contains_key(other)
            &&& s.peer.reader matches Some(r) ==> (t.peer.reader matches Some(q)
                && !q.lanes.contains_key(id) && q.lanes.contains_key(other)
                == r.lanes.contains_key(other) && q.cmds.len() == r.cmds.len() + 1)
            &&& t.peer.common == s.peer.common
            &&& t.app.inbound == s.app.inbound
        }),
{
}

/// A channel whose grant was put off is tried again with the others: once the
/// backlog is low its grant is no longer put off, whatever the handler says.
pub proof fn law_put_off_grants_are_tried(s: Sess, ids: Seq<u32>, ws: Seq<u32>)
    requires
        ids.len() > 0,
        ws.len() == ids.len(),
    ensures
        ({
            let before = s.grants_made(ids.drop_last(), ws.drop_last());
            let t = s.grants_made(ids, ws);
            let id = ids.last();
            &&& before.peer.backlog() < OUTBOUND_HIGH_WATERMARK ==> !t.app.deferred.contains(id)
            &&& before.peer.backlog() >= OUTBOUND_HIGH_WATERMARK && before.peer.accepts_ctrl(id)
                ==> t.app.deferred.contains(id)
            &&& before.granted(id).1 ==> t.peer == before.granted(id).0.peer.flushed().0
        }),
{
    reveal(Sess::granted);
}

} // verus!
