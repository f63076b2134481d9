//! Sending on a channel by way of the staging buffer: what leaves, what stays,
//! and that nothing is lost in between.
use vstd::prelude::*;

use crate::channel;
use crate::channel::{ChannelLaneState, Ctrl, Lane};
use crate::drain;
use crate::error::Error;
use crate::lane_laws;
use crate::lane_laws::{carried_all, stream};
use crate::session;
use crate::session::Staging;
use crate::sshbuffer::PacketSink;
use crate::staging_laws;
use crate::wire;
use crate::wire::be32;
use crate::wire_laws;

verus! {

/// The packets that were staged between `s` and `t`, behind those that were
/// there.
pub open spec fn added(s: Staging, t: Staging) -> Seq<Seq<u8>> {
    wire::packets(t.unsent()).skip(wire::packets(s.unsent()).len() as int)
}

/// What was staged before is still there, in front.
pub open spec fn grows(s: Staging, t: Staging) -> bool {
    wire::packets(t.unsent()) == wire::packets(s.unsent()) + added(s, t)
}

/// The data queued on a lane, none where there is no such lane.
pub open spec fn data_of(s: Staging, id: u32) -> Seq<(Seq<u8>, Option<u32>)> {
    if s.channels.contains_key(id) {
        s.channels[id].data
    } else {
        Seq::empty()
    }
}

proof fn lemma_stream_push(
    data: Seq<(Seq<u8>, Option<u32>)>,
    x: (Seq<u8>, Option<u32>),
    ext: Option<u32>,
)
    ensures
        stream(data.push(x), ext) == stream(data, ext) + (if x.1 == ext {
            x.0
        } else {
            Seq::empty()
        }),
    decreases data.len(),
{
    let more = if x.1 == ext {
        x.0
    } else {
        Seq::empty()
    };
    if data.len() == 0 {
        assert(data.push(x).drop_first() =~= data);
        assert(stream(data, ext) =~= Seq::empty());
        assert(stream(data.push(x), ext) =~= stream(data, ext) + more);
    } else {
        lemma_stream_push(data.drop_first(), x, ext);
        assert(data.push(x).drop_first() =~= data.drop_first().push(x));
        assert(stream(data.push(x), ext) =~= stream(data, ext) + more);
    }
}

/// Draining a lane stages what leaves it behind the rest: on every stream, what
/// was staged and what stays queued are what was queued.
proof fn lemma_flushed(s: Staging, id: u32, allow_data: bool, ext: Option<u32>)
    requires
        s.ok(),
    ensures
        ({
            let t = s.flush_lane(id, drain::gate_open(), allow_data);
            &&& grows(s, t)
            &&& carried_all(added(s, t), ext) + stream(data_of(t, id), ext) == stream(
                data_of(s, id),
                ext,
            )
        }),
{
    reveal(Staging::ok);
    let g = drain::gate_open();
    let t = s.flush_lane(id, g, allow_data);
    staging_laws::law_flush_lane_appends(s, id, g, allow_data);
    let ps = wire::packets(s.unsent());
    if s.channels.contains_key(id) {
        let l = s.channels[id];
        let d = drain::drain(l, g, allow_data);
        lane_laws::law_drain_conserves_streams(l, g, allow_data, ext);
        assert((ps + d.packets).skip(ps.len() as int) =~= d.packets);
        if !t.channels.contains_key(id) {
            assert(d.lane.data =~= Seq::empty());
        }
    } else {
        assert((ps + Seq::<Seq<u8>>::empty()).skip(ps.len() as int) =~= Seq::<Seq<u8>>::empty());
        assert(carried_all(added(s, t), ext) + stream(data_of(t, id), ext) =~= stream(
            data_of(s, id),
            ext,
        ));
    }
}

/// Data sent on a channel joins its stream: what was staged for the stream and
/// what is queued on it grow by exactly the data, and no other stream changes.
/// Once EOF or CLOSE has been said nothing changes; and while new keys are on
/// their way, or something is queued already, nothing is staged.
pub proof fn law_sent_data_joins_its_stream(
    s: Staging,
    id: u32,
    bytes: Seq<u8>,
    e: Option<u32>,
    rekeying: bool,
    ext: Option<u32>,
    other: u32,
)
    requires
        s.ok(),
        s.channels.contains_key(id),
        s.channels[id].confirmed,
        other != id,
    ensures
        ({
            let l = s.channels[id];
            let t = s.send(id, bytes, e, rekeying);
            let open = !l.pending_eof && !l.pending_close && !l.outbound_closed;
            &&& grows(s, t)
            &&& carried_all(added(s, t), ext) + stream(data_of(t, id), ext) == stream(
                data_of(s, id),
                ext,
            ) + (if open && e == ext {
                bytes
            } else {
                Seq::empty()
            })
            &&& rekeying || !open || l.data.len() > 0 || l.ctrl.len() > 0 ==> added(s, t).len() == 0
            &&& t.channels.contains_key(other) == s.channels.contains_key(other)
            &&& s.channels.contains_key(other) ==> t.channels[other] == s.channels[other]
        }),
{
    reveal(Staging::ok);
    let l = s.channels[id];
    let m = l.enqueue_data(bytes, e);
    let q = s.with_lane(id, m);
    let ps = wire::packets(s.unsent());
    assert(l.fits());
    assert(m.fits()) by {
        assert forall|j: int| 0 <= j < m.ctrl.len() implies #[trigger] staging_laws::ctrl_fits(
            m.ctrl[j].1,
        ) by {
            assert(staging_laws::ctrl_fits(l.ctrl[j].1));
        }
    }
    crate::server::closing::lemma_with_lane_ok(s, id, m);
    assert(q.unsent() =~= s.unsent());
    lemma_stream_push(l.data, (bytes, e), ext);
    lemma_flushed(q, id, true, ext);
    assert((ps + Seq::<Seq<u8>>::empty()) =~= ps);
    assert(ps.skip(ps.len() as int) =~= Seq::empty());
    let none = Seq::<u8>::empty();
    assert(stream(l.data, ext) + none =~= stream(l.data, ext));
    assert(none + stream(m.data, ext) =~= stream(m.data, ext));
    assert(added(q, q.flush_lane(id, drain::gate_open(), true)) == added(
        s,
        q.flush_lane(id, drain::gate_open(), true),
    ));
}

/// Data for a channel that is not confirmed is refused, and for one that is
/// gone forgotten; neither changes anything.
pub proof fn law_data_needs_a_confirmed_channel(
    s: Staging,
    id: u32,
    bytes: Seq<u8>,
    e: Option<u32>,
    rekeying: bool,
)
    ensures
        s.channels.contains_key(id) && !s.channels[id].confirmed ==> s.send_result(
            id,
            bytes,
            e,
            rekeying,
        ) == Err::<(), Error>(Error::WrongChannel) && s.send(id, bytes, e, rekeying) == s,
        !s.channels.contains_key(id) ==> s.send_result(id, bytes, e, rekeying) == Ok::<(), Error>(
            (),
        ) && s.send(id, bytes, e, rekeying) == s,
        s.channels.contains_key(id) && s.channels[id].confirmed
            && s.channels[id].recipient_maximum_packet_size > 0 ==> s.send_result(
            id,
            bytes,
            e,
            rekeying,
        ) is Ok,
{
    if s.channels.contains_key(id) && s.channels[id].recipient_maximum_packet_size > 0 {
        lemma_not_stuck(s.channels[id].enqueue_data(bytes, e), true);
    }
}

/// With a packet size to go by a drain is never stuck.
proof fn lemma_not_stuck(l: Lane, allow_data: bool)
    requires
        l.recipient_maximum_packet_size > 0,
    ensures
        !(drain::drain(l, drain::gate_open(), allow_data).end is Stuck),
    decreases l.ctrl.len(), l.recipient_window_size,
{
    let g = drain::gate_open();
    if l.ctrl_ahead() {
        drain::lemma_drain_ctrl(l, g, allow_data);
        lemma_not_stuck(l.pop_ctrl(), allow_data);
    } else if l.data.len() > 0 && allow_data && l.recipient_window_size > 0 {
        drain::lemma_drain_data(l, g, allow_data);
        let (m, bytes) = l.next_data();
        if bytes.len() > 0 {
            lemma_not_stuck(m.charged(bytes.len()), allow_data);
        }
    } else {
        drain::lemma_drain_stop(l, g, allow_data);
    }
}

/// Sending past an empty staging buffer brings the packet writer the same
/// packets, and leaves the same lanes, as staging them and handing them on.
pub proof fn law_direct_send_equals_staged(
    s: Staging,
    id: u32,
    bytes: Seq<u8>,
    e: Option<u32>,
    rekeying: bool,
    w: PacketSink,
)
    requires
        s.write.len() == 0,
        s.cursor == 0,
        s.fits(),
    ensures
        ({
            let t = s.send(id, bytes, e, rekeying);
            &&& s.send_direct(id, bytes, e, rekeying).channels == t.channels
            &&& s.send_sink(id, bytes, e, rekeying, w) == w.all(wire::packets(t.unsent()))
            &&& s.send_direct(id, bytes, e, rekeying).write.len() == 0
        }),
{
    assert(s.unsent() =~= Seq::<u8>::empty());
    assert(wire::packets(s.unsent()) =~= Seq::<Seq<u8>>::empty());
    let t = s.send(id, bytes, e, rekeying);
    if s.channels.contains_key(id) && s.channels[id].confirmed {
        let l = s.channels[id];
        let m = l.enqueue_data(bytes, e);
        let q = s.with_lane(id, m);
        assert(l.fits());
        assert(m.fits()) by {
            assert forall|j: int| 0 <= j < m.ctrl.len() implies #[trigger] staging_laws::ctrl_fits(
                m.ctrl[j].1,
            ) by {
                assert(staging_laws::ctrl_fits(l.ctrl[j].1));
            }
        }
        assert(q.fits()) by {
            assert forall|k: u32| #[trigger] q.channels.contains_key(k) implies q.channels[k].fits() by {
                if k != id {
                    assert(s.channels.contains_key(k));
                }
            }
        }
        assert(q.unsent() =~= Seq::<u8>::empty());
        staging_laws::law_direct_equals_staged(q, id, w);
    }
    assert(t.unsent().len() == 0 ==> wire::packets(t.unsent()) =~= Seq::<Seq<u8>>::empty());
}

/// Gathering leaves no empty entry behind.
proof fn lemma_gather_solid(l: Lane, ext: Option<u32>, cap: nat, acc: Seq<u8>)
    requires
        acc.len() <= cap,
        forall|i: int| 0 <= i < l.data.len() ==> (#[trigger] l.data[i]).0.len() > 0,
    ensures
        forall|i: int|
            0 <= i < l.gather(ext, cap, acc).0.data.len() ==> (#[trigger] l.gather(
                ext,
                cap,
                acc,
            ).0.data[i]).0.len() > 0,
        acc.len() == 0 && cap > 0 && l.data.len() > 0 && !l.ctrl_ahead() && l.data[0].1 == ext
            ==> l.gather(ext, cap, acc).1.len() > 0,
    decreases l.data.len(),
{
    if acc.len() >= cap || l.data.len() == 0 || l.ctrl_ahead() || l.data[0].1 != ext {
    } else {
        let left = l.data[0].0;
        let take = drain::min(left.len(), (cap - acc.len()) as nat) as int;
        let m = l.pop_data();
        assert forall|i: int| 0 <= i < m.data.len() implies (#[trigger] m.data[i]).0.len() > 0 by {
            assert(m.data[i] == l.data[i + 1]);
        }
        if take < left.len() {
            let n = l.gather(ext, cap, acc).0;
            assert forall|i: int| 0 <= i < n.data.len() implies (#[trigger] n.data[i]).0.len()
                > 0 by {
                if i > 0 {
                    assert(n.data[i] == l.data[i]);
                }
            }
        } else {
            lemma_gather_solid(m, ext, cap, acc + left);
            drain::lemma_gather(m, ext, cap, acc + left);
        }
    }
}

/// A drain sends all that it may: data stays queued only where the client's
/// window is used up; and every control item whose turn it is has left.
pub proof fn law_drain_sends_all_it_may(l: Lane)
    requires
        l.recipient_maximum_packet_size > 0,
        forall|i: int| 0 <= i < l.data.len() ==> (#[trigger] l.data[i]).0.len() > 0,
    ensures
        ({
            let m = drain::drain(l, drain::gate_open(), true).lane;
            &&& m.data.len() > 0 ==> m.recipient_window_size == 0
            &&& !m.ctrl_ahead()
        }),
    decreases l.ctrl.len(), l.recipient_window_size,
{
    let g = drain::gate_open();
    if l.ctrl_ahead() {
        drain::lemma_drain_ctrl(l, g, true);
        law_drain_sends_all_it_may(l.pop_ctrl());
    } else if l.data.len() > 0 && l.recipient_window_size > 0 {
        drain::lemma_drain_data(l, g, true);
        lemma_gather_solid(l, l.data[0].1, l.packet_cap(), Seq::empty());
        let (m, bytes) = l.next_data();
        assert forall|i: int| 0 <= i < m.charged(bytes.len()).data.len() implies (
        #[trigger] m.charged(bytes.len()).data[i]).0.len() > 0 by {
            assert(m.data[i].0.len() > 0);
        }
        law_drain_sends_all_it_may(m.charged(bytes.len()));
    } else {
        drain::lemma_drain_stop(l, g, true);
    }
}

/// EOF on a channel with nothing queued is staged at once, and once; behind
/// data it waits, as the last thing queued.
pub proof fn law_eof_follows_the_data(s: Staging, id: u32)
    requires
        s.ok(),
        s.channels.contains_key(id),
        s.channels[id].ctrl.len() == 0,
        !s.channels[id].pending_eof,
        !s.channels[id].pending_close,
        !s.channels[id].outbound_closed,
    ensures
        ({
            let l = s.channels[id];
            let t = s.fence(id, l.park_eof());
            &&& l.data.len() == 0 ==> grows(s, t) && added(s, t) == seq![
                seq![96u8] + be32(l.recipient_channel),
            ]
            &&& l.data.len() > 0 ==> t.write == s.write && t.channels[id].ctrl.len() == 1
                && t.channels[id].ctrl[0].1 is Eof && t.channels[id].data == l.data
            &&& t.channels.contains_key(id) ==> t.channels[id].pending_eof
        }),
{
    let l = s.channels[id];
    lemma_fence(s, id, Ctrl::Eof);
    wire_laws::law_control_messages(l.recipient_channel, 0, 0, 0, 0);
}

/// CLOSE on a channel with nothing queued is staged at once, and the channel is
/// gone; behind data it waits, as the last thing queued.
pub proof fn law_close_follows_the_data(s: Staging, id: u32)
    requires
        s.ok(),
        s.channels.contains_key(id),
        s.channels[id].ctrl.len() == 0,
        !s.channels[id].pending_close,
        !s.channels[id].outbound_closed,
    ensures
        ({
            let l = s.channels[id];
            let t = s.fence(id, l.park_close());
            &&& l.data.len() == 0 ==> grows(s, t) && added(s, t) == seq![
                seq![97u8] + be32(l.recipient_channel),
            ] && !t.channels.contains_key(id)
            &&& l.data.len() > 0 ==> t.write == s.write && t.channels[id].ctrl.len() == 1
                && t.channels[id].ctrl[0].1 is Close && t.channels[id].data == l.data
                && t.channels[id].pending_close
        }),
{
    let l = s.channels[id];
    lemma_fence(s, id, Ctrl::Close);
    wire_laws::law_control_messages(l.recipient_channel, 0, 0, 0, 0);
}

proof fn lemma_fence(s: Staging, id: u32, c: Ctrl)
    requires
        s.ok(),
        s.channels.contains_key(id),
        s.channels[id].ctrl.len() == 0,
        !s.channels[id].pending_close,
        !s.channels[id].outbound_closed,
        c is Eof || c is Close,
    ensures
        ({
            let l = s.channels[id];
            let m = l.enqueue_ctrl(c);
            let t = s.fence(id, m);
            let p = drain::ctrl_payload(l.recipient_channel, c);
            &&& l.data.len() == 0 ==> grows(s, t) && added(s, t) == seq![p]
            &&& l.data.len() == 0 && c is Close ==> !t.channels.contains_key(id)
            &&& l.data.len() == 0 && c is Eof ==> (t.channels.contains_key(id)
                ==> t.channels[id].pending_eof)
            &&& l.data.len() > 0 ==> t == s.with_lane(id, m)
        }),
{
    reveal(Staging::ok);
    let l = s.channels[id];
    let m = l.enqueue_ctrl(c);
    let g = drain::gate_open();
    let p = drain::ctrl_payload(l.recipient_channel, c);
    if l.data.len() == 0 {
        let q = s.with_lane(id, m);
        assert(l.fits());
        crate::server::sending::lemma_enqueue_fits(l, c);
        crate::server::closing::lemma_with_lane_ok(s, id, m);
        assert(q.unsent() =~= s.unsent());
        drain::lemma_drain_ctrl(m, g, true);
        drain::lemma_drain_stop(m.pop_ctrl(), g, true);
        let d = drain::drain(m, g, true);
        assert(d.packets =~= seq![p]);
        staging_laws::law_flush_lane_appends(q, id, g, true);
        let ps = wire::packets(s.unsent());
        assert((ps + seq![p]).skip(ps.len() as int) =~= seq![p]);
    }
}

/// One packet more was staged.
proof fn lemma_one_added(s: Staging, t: Staging, p: Seq<u8>)
    requires
        wire::packets(t.unsent()) == wire::packets(s.unsent()).push(p),
    ensures
        grows(s, t),
        added(s, t) == seq![p],
{
    let ps = wire::packets(s.unsent());
    assert(ps.push(p).skip(ps.len() as int) =~= seq![p]);
    assert(ps.push(p) =~= ps + seq![p]);
}

/// A packet staged behind the others.
proof fn lemma_staged_adds(s: Staging, t: Staging, p: Seq<u8>)
    requires
        s.ok(),
        p.len() <= wire::MAX_FRAME_PAYLOAD,
        t.write == s.write + wire::frame(p),
        t.cursor == s.cursor,
    ensures
        grows(s, t),
        added(s, t) == seq![p],
{
    reveal(Staging::ok);
    wire::lemma_frame_appended(s.unsent(), p);
    assert(t.unsent() =~= s.unsent() + wire::frame(p));
    lemma_one_added(s, t, p);
}

/// A WINDOW_ADJUST carries the client's number and the difference, and the
/// window is what it was set to.
pub proof fn law_adjust_is_staged(s: Staging, id: u32, delta: u32, window: u32)
    requires
        s.ok(),
        s.channels.contains_key(id),
    ensures
        ({
            let l = s.channels[id];
            let t = s.adjusted(id, delta, window);
            &&& grows(s, t)
            &&& added(s, t) == seq![seq![93u8] + be32(l.recipient_channel) + be32(delta)]
            &&& t.channels[id].sender_window_size == window
            &&& t.channels[id].data == l.data
            &&& t.channels[id].recipient_window_size == l.recipient_window_size
        }),
{
    let l = s.channels[id];
    let p = seq![93u8] + be32(l.recipient_channel) + be32(delta);
    assert(p.len() == 9);
    lemma_staged_adds(s, s.adjusted(id, delta, window), p);
}

/// What a discard reports is what it throws away.
pub proof fn law_discard_reports_what_it_drops(s: Staging, id: u32)
    ensures
        s.channels.contains_key(id) ==> ({
            let l = s.channels[id];
            let r = s.discard_stats(id);
            &&& !r.already_gone
            &&& l.data.len() + l.ctrl.len() <= usize::MAX ==> r.discarded_items == l.data.len()
                + l.ctrl.len()
            &&& channel::queued_bytes(l.data) <= usize::MAX ==> r.discarded_bytes
                == channel::queued_bytes(l.data)
        }),
        !s.channels.contains_key(id) ==> s.discard_stats(id).already_gone && s.discard(id) == s
            && s.discard_stats(id).discarded_items == 0 && s.discard_stats(id).discarded_bytes == 0,
{
}

/// What is queued on a lane is queued at its end; EOF and CLOSE are latched, and
/// after CLOSE nothing more is queued.
pub proof fn law_queueing_appends(l: Lane, bytes: Seq<u8>, ext: Option<u32>, c: Ctrl)
    ensures
        ({
            let m = l.enqueue_data(bytes, ext);
            let n = l.enqueue_ctrl(c);
            &&& l.pending_eof || l.pending_close || l.outbound_closed ==> m == l
            &&& !l.pending_eof && !l.pending_close && !l.outbound_closed ==> m.data == l.data.push(
                (bytes, ext),
            ) && m.ctrl == l.ctrl
            &&& l.pending_close || l.outbound_closed ==> n == l
            &&& !l.pending_close && !l.outbound_closed ==> n.ctrl.len() == l.ctrl.len() + 1
                && n.ctrl.last().1 == c && n.ctrl.drop_last() == l.ctrl && n.data == l.data
                && n.pending_eof == (l.pending_eof || c is Eof) && n.pending_close == (c is Close)
            &&& c is Close && !l.pending_close && !l.outbound_closed ==> n.state
                == ChannelLaneState::Closing && n.enqueue_ctrl(c) == n && n.enqueue_data(bytes, ext)
                == n
            &&& m.recipient_window_size == l.recipient_window_size && n.recipient_window_size
                == l.recipient_window_size
        }),
{
    let n = l.enqueue_ctrl(c);
    if !l.pending_close && !l.outbound_closed {
        assert(n.ctrl.drop_last() =~= l.ctrl);
    }
}

/// A control item leaves before data that was queued no earlier, and after data
/// that was queued before it.
pub proof fn law_order_is_that_of_queueing(l: Lane)
    requires
        l.data.len() > 0,
        l.ctrl.len() > 0,
        l.seqs.len() > 0,
    ensures
        l.ctrl_ahead() <==> l.ctrl[0].0 <= l.seqs[0],
{
}

/// A new number is the next one that no channel has.
pub proof fn law_new_number_is_the_next_free(s: Staging, n: nat)
    requires
        s.first_free(n),
        s.last_channel_id + n < 0x1_0000_0000,
    ensures
        s.nth_id(n) == s.last_channel_id + n,
        s.nth_id(n) > s.last_channel_id,
        !s.channels.contains_key(s.nth_id(n)),
        forall|x: u32| s.last_channel_id < x < s.nth_id(n) ==> #[trigger] s.channels.contains_key(x),
{
    vstd::arithmetic::div_mod::lemma_small_mod(
        (s.last_channel_id + n) as nat,
        0x1_0000_0000,
    );
    assert forall|x: u32| s.last_channel_id < x < s.nth_id(n) implies #[trigger] s.channels.contains_key(
        x,
    ) by {
        let k = (x - s.last_channel_id) as nat;
        vstd::arithmetic::div_mod::lemma_small_mod(
            (s.last_channel_id + k) as nat,
            0x1_0000_0000,
        );
        assert(s.nth_id(k) == x);
    }
}

/// What comes in is charged to the window of its channel, byte for byte, where
/// it is within it; beyond it, and on other channels, nothing changes.
pub proof fn law_received_bytes_are_charged(s: Staging, id: u32, n: nat, other: u32)
    requires
        s.channels.contains_key(id),
        other != id,
    ensures
        ({
            let t = s.consumed(id, n);
            let w = s.channels[id].sender_window_size;
            &&& t.channels.contains_key(id)
            &&& n <= w ==> t.channels[id].sender_window_size + n == w && t.sender_window(id) + n
                == s.sender_window(id)
            &&& n > w ==> t == s
            &&& t.channels[id].data == s.channels[id].data && t.channels[id].ctrl
                == s.channels[id].ctrl
            &&& t.write == s.write
            &&& t.channels.contains_key(other) == s.channels.contains_key(other)
            &&& s.channels.contains_key(other) ==> t.channels[other] == s.channels[other]
        }),
{
}

/// A channel that is gone has nothing queued and no window; one that is there
/// has what is in its queues.
pub proof fn law_questions_about_a_lane(s: Staging, id: u32)
    ensures
        !s.channels.contains_key(id) ==> !s.has_data(id) && !s.has_work(id) && s.data_bytes(id) == 0
            && s.sender_window(id) == 0,
        s.channels.contains_key(id) ==> {
            &&& s.has_data(id) <==> s.channels[id].data.len() > 0
            &&& s.has_work(id) <==> s.channels[id].data.len() > 0 || s.channels[id].ctrl.len() > 0
            &&& channel::queued_bytes(s.channels[id].data) <= usize::MAX ==> s.data_bytes(id)
                == channel::queued_bytes(s.channels[id].data)
            &&& s.sender_window(id) == s.channels[id].sender_window_size
        },
{
}

/// A control item that may not leave yet holds its lane: neither it nor anything
/// behind it leaves, and it is not lost.
pub proof fn law_refused_item_holds_the_lane(l: Lane, gate: spec_fn(Ctrl) -> bool, allow_data: bool)
    requires
        l.ctrl_ahead(),
        !gate(l.ctrl[0].1),
    ensures
        drain::drain(l, gate, allow_data).lane == l,
        drain::drain(l, gate, allow_data).packets.len() == 0,
        drain::drain(l, gate, allow_data).wrote == 0,
{
    drain::lemma_drain_ctrl(l, gate, allow_data);
}

/// The first control item whose turn it is leaves first, whatever the window.
pub proof fn law_due_item_leaves_first(l: Lane, gate: spec_fn(Ctrl) -> bool, allow_data: bool)
    requires
        l.ctrl_ahead(),
        gate(l.ctrl[0].1),
    ensures
        drain::drain(l, gate, allow_data).packets.len() > 0,
        drain::drain(l, gate, allow_data).packets[0] == drain::ctrl_payload(
            l.recipient_channel,
            l.ctrl[0].1,
        ),
{
    drain::lemma_drain_ctrl(l, gate, allow_data);
}

/// Every entry of a lane's data queue holds something.
pub open spec fn solid(l: Lane) -> bool {
    forall|i: int| 0 <= i < l.data.len() ==> (#[trigger] l.data[i]).0.len() > 0
}

/// Draining lanes one after the other drains each of them as far as its window
/// goes, and no other.
proof fn lemma_lanes_drained(s: Staging, ids: Seq<u32>, id: u32)
    requires
        ids.no_duplicates(),
        forall|x: u32| #[trigger] s.channels.contains_key(x) ==> solid(s.channels[x])
            && s.channels[x].recipient_maximum_packet_size > 0,
    ensures
        s.flush_lanes_result(ids) is Ok,
        ids.contains(id) ==> (s.flush_lanes(ids).channels.contains_key(id) ==> ({
            let m = s.flush_lanes(ids).channels[id];
            m.data.len() == 0 || m.recipient_window_size == 0
        })),
        !ids.contains(id) ==> s.flush_lanes(ids).channels.contains_key(id)
            == s.channels.contains_key(id) && (s.channels.contains_key(id) ==> s.flush_lanes(
            ids,
        ).channels[id] == s.channels[id]),
    decreases ids.len(),
{
    if ids.len() > 0 {
        let init = ids.drop_last();
        let last = ids.last();
        assert(init.no_duplicates());
        lemma_lanes_drained(s, init, id);
        lemma_lanes_drained(s, init, last);
        let before = s.flush_lanes(init);
        assert(!init.contains(last)) by {
            if init.contains(last) {
                let i = choose|i: int| 0 <= i < init.len() && init[i] == last;
                assert(ids[i] == ids[ids.len() - 1]);
            }
        }
        if before.channels.contains_key(last) {
            assert(before.channels[last] == s.channels[last]);
            lemma_not_stuck(s.channels[last], true);
            law_drain_sends_all_it_may(s.channels[last]);
        }
        assert(ids.contains(id) <==> init.contains(id) || id == last) by {
            if ids.contains(id) {
                let i = choose|i: int| 0 <= i < ids.len() && ids[i] == id;
                if i < init.len() {
                    assert(init[i] == id);
                }
            }
            if init.contains(id) {
                let i = choose|i: int| 0 <= i < init.len() && init[i] == id;
                assert(ids[i] == id);
            }
            assert(ids[ids.len() - 1] == last);
        }
    }
}

/// Draining all lanes leaves data queued only where the client's window is used
/// up.
pub proof fn law_all_lanes_are_drained(s: Staging, id: u32)
    requires
        forall|x: u32| #[trigger] s.channels.contains_key(x) ==> solid(s.channels[x])
            && s.channels[x].recipient_maximum_packet_size > 0,
        s.channels.contains_key(id),
    ensures
        ({
            let t = s.flush_lanes(crate::listing::listing(s.channels.dom()));
            t.channels.contains_key(id) ==> t.channels[id].data.len() == 0
                || t.channels[id].recipient_window_size == 0
        }),
{
    let ids = crate::listing::listing(s.channels.dom());
    crate::listing::lemma_listing_exists(s.channels.dom());
    assert(ids.contains(id));
    assert(ids.no_duplicates()) by {
        assert forall|i: int, j: int| 0 <= i < ids.len() && 0 <= j < ids.len() && i
            != j implies ids[i] != ids[j] by {
            if i < j {
                assert(ids[i] < ids[j]);
            } else {
                assert(ids[j] < ids[i]);
            }
        }
    }
    lemma_lanes_drained(s, ids, id);
}

/// Lanes counted one after the other, of which one changed.
proof fn lemma_replies(a: Map<u32, Lane>, b: Map<u32, Lane>, ids: Seq<u32>, id: u32)
    requires
        ids.no_duplicates(),
        forall|i: int| 0 <= i < ids.len() ==> a.contains_key(#[trigger] ids[i]),
        a.contains_key(id),
        b == a.insert(id, b[id]),
    ensures
        ids.contains(id) ==> session::replies_of(a, ids) + channel::reply_count(b[id].ctrl)
            == session::replies_of(b, ids) + channel::reply_count(a[id].ctrl),
        !ids.contains(id) ==> session::replies_of(a, ids) == session::replies_of(b, ids),
        ids.contains(id) ==> session::replies_of(a, ids) >= channel::reply_count(a[id].ctrl),
    decreases ids.len(),
{
    if ids.len() > 0 {
        let init = ids.drop_last();
        let last = ids.last();
        assert forall|i: int| 0 <= i < init.len() implies a.contains_key(#[trigger] init[i]) by {
            assert(init[i] == ids[i]);
        }
        lemma_replies(a, b, init, id);
        assert(a.contains_key(ids[ids.len() - 1]));
        assert(ids.contains(id) <==> init.contains(id) || id == last) by {
            if ids.contains(id) {
                let i = choose|i: int| 0 <= i < ids.len() && ids[i] == id;
                if i < init.len() {
                    assert(init[i] == id);
                }
            }
            if init.contains(id) {
                let i = choose|i: int| 0 <= i < init.len() && init[i] == id;
                assert(ids[i] == id);
            }
            assert(ids[ids.len() - 1] == last);
        }
        if init.contains(id) {
            let i = choose|i: int| 0 <= i < init.len() && init[i] == id;
            assert(ids[i] != ids[ids.len() - 1]);
        }
    }
}

/// The replies that wait on all lanes are counted: each lane's among them, and
/// one more reply on a lane is one more in all.
pub proof fn law_waiting_replies_are_counted(s: Staging, id: u32, success: bool)
    requires
        s.channels.contains_key(id),
        !s.channels[id].pending_close,
        !s.channels[id].outbound_closed,
    ensures
        ({
            let c = if success {
                Ctrl::Success
            } else {
                Ctrl::Failure
            };
            let l = s.channels[id];
            &&& s.reply_count() >= channel::reply_count(l.ctrl)
            &&& s.with_lane(id, l.enqueue_ctrl(c)).reply_count() == s.reply_count() + 1
            &&& s.with_lane(id, l.enqueue_ctrl(Ctrl::Eof)).reply_count() == s.reply_count()
        }),
{
    let c = if success {
        Ctrl::Success
    } else {
        Ctrl::Failure
    };
    let l = s.channels[id];
    let m = l.enqueue_ctrl(c);
    let n = l.enqueue_ctrl(Ctrl::Eof);
    let a = s.channels;
    let b = a.insert(id, m);
    let d = a.insert(id, n);
    let ids = crate::listing::listing(a.dom());
    crate::listing::lemma_listing_exists(a.dom());
    assert(b.dom() =~= a.dom());
    assert(d.dom() =~= a.dom());
    assert(ids.contains(id));
    assert(ids.no_duplicates()) by {
        assert forall|i: int, j: int| 0 <= i < ids.len() && 0 <= j < ids.len() && i
            != j implies ids[i] != ids[j] by {
            if i < j {
                assert(ids[i] < ids[j]);
            } else {
                assert(ids[j] < ids[i]);
            }
        }
    }
    assert forall|i: int| 0 <= i < ids.len() implies a.contains_key(#[trigger] ids[i]) by {
        assert(ids.contains(ids[i]));
    }
    lemma_replies(a, b, ids, id);
    lemma_replies(a, d, ids, id);
    assert(m.ctrl.drop_last() =~= l.ctrl);
    assert(n.ctrl.drop_last() =~= l.ctrl);
}

} // verus!
