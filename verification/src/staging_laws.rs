//! Laws of the staging buffer and the channel table.
use vstd::prelude::*;

use crate::channel::{Ctrl, Lane};
use crate::drain;
use crate::msg;
use crate::session::Staging;
use crate::sshbuffer::PacketSink;
use crate::wire;
use crate::wire::MAX_FRAME_PAYLOAD;

verus! {

impl Lane {
    /// Every queued request fits a packet.
    pub open spec fn fits(self) -> bool {
        forall|j: int|
            0 <= j < self.ctrl.len() ==> #[trigger] ctrl_fits(self.ctrl[j].1)
    }
}

/// The control item fits a packet.
pub open spec fn ctrl_fits(c: Ctrl) -> bool {
    c matches Ctrl::Request(body) ==> body.len() < MAX_FRAME_PAYLOAD
}

/// What leaves a lane whose requests fit can be framed, and the lane keeps
/// fitting.
pub proof fn law_drain_fits(l: Lane, gate: spec_fn(Ctrl) -> bool, allow_data: bool)
    requires
        l.fits(),
    ensures
        wire::all_fit(drain::drain(l, gate, allow_data).packets),
        drain::drain(l, gate, allow_data).lane.fits(),
    decreases l.ctrl.len(), l.recipient_window_size,
{
    let d = drain::drain(l, gate, allow_data);
    if l.ctrl_ahead() {
        drain::lemma_drain_ctrl(l, gate, allow_data);
        if gate(l.ctrl[0].1) {
            let m = l.pop_ctrl();
            assert forall|j: int| 0 <= j < m.ctrl.len() implies #[trigger] ctrl_fits(
                m.ctrl[j].1,
            ) by {
                assert(m.ctrl[j] == l.ctrl[j + 1]);
            }
            law_drain_fits(m, gate, allow_data);
            let rest = drain::drain(m, gate, allow_data);
            assert(ctrl_fits(l.ctrl[0].1));
            lemma_fit_cons(drain::ctrl_payload(l.recipient_channel, l.ctrl[0].1), rest.packets);
        }
    } else if l.data.len() > 0 && allow_data && l.recipient_window_size > 0
        && l.recipient_maximum_packet_size > 0 {
        drain::lemma_drain_data(l, gate, allow_data);
        let (m, bytes) = l.next_data();
        assert(m.fits());
        if bytes.len() > 0 {
            let m2 = m.charged(bytes.len());
            assert(m2.fits());
            law_drain_fits(m2, gate, allow_data);
            lemma_fit_cons(
                drain::data_payload(l.recipient_channel, l.data[0].1, bytes),
                drain::drain(m2, gate, allow_data).packets,
            );
        }
    } else {
        drain::lemma_drain_stop(l, gate, allow_data);
    }
}

proof fn lemma_fit_cons(p: Seq<u8>, rest: Seq<Seq<u8>>)
    requires
        p.len() <= MAX_FRAME_PAYLOAD,
        wire::all_fit(rest),
    ensures
        wire::all_fit(seq![p] + rest),
{
    let all = seq![p] + rest;
    assert forall|i: int| 0 <= i < all.len() implies (#[trigger] all[i]).len()
        <= MAX_FRAME_PAYLOAD by {
        if i > 0 {
            assert(all[i] == rest[i - 1]);
        }
    }
}

impl Staging {
    /// Every queued request on every lane fits a packet.
    pub open spec fn fits(self) -> bool {
        forall|id: u32| #[trigger] self.channels.contains_key(id) ==> self.channels[id].fits()
    }
}

/// Packets staged behind complete packets are read back behind them, unchanged
/// and in order.
pub proof fn law_staged_packets_are_read_back(s: Staging, ps: Seq<Seq<u8>>)
    requires
        s.wf(),
        s.cursor <= s.write.len(),
        wire::all_fit(ps),
    ensures
        s.staged_all(ps).wf(),
        wire::packets(s.staged_all(ps).unsent()) == wire::packets(s.unsent()) + ps,
{
    wire::lemma_frames_appended(s.unsent(), ps);
    assert(s.staged_all(ps).unsent() =~= s.unsent() + wire::frames(ps));
}

/// Draining a lane keeps the staging buffer whole and appends exactly the
/// drain's packets to it.
pub proof fn law_flush_lane_appends(
    s: Staging,
    id: u32,
    gate: spec_fn(Ctrl) -> bool,
    allow_data: bool,
)
    requires
        s.wf(),
        s.cursor <= s.write.len(),
        s.fits(),
    ensures
        ({
            let t = s.flush_lane(id, gate, allow_data);
            &&& t.wf()
            &&& t.fits()
            &&& t.cursor <= t.write.len()
            &&& wire::packets(t.unsent()) == wire::packets(s.unsent()) + (
            if s.channels.contains_key(id) {
                drain::drain(s.channels[id], gate, allow_data).packets
            } else {
                Seq::empty()
            })
        }),
{
    let t = s.flush_lane(id, gate, allow_data);
    if s.channels.contains_key(id) {
        let d = drain::drain(s.channels[id], gate, allow_data);
        law_drain_fits(s.channels[id], gate, allow_data);
        let mid = s.after_drain(id, d);
        assert(mid.unsent() == s.unsent());
        law_staged_packets_are_read_back(mid, d.packets);
        assert forall|k: u32| #[trigger]
            t.channels.contains_key(k) implies t.channels[k].fits() by {
            if k != id {
                assert(s.channels.contains_key(k));
            }
        }
    } else {
        assert(wire::packets(s.unsent()) + Seq::<Seq<u8>>::empty() =~= wire::packets(s.unsent()));
    }
}

/// One data packet more keeps the staging buffer whole: it stands behind what
/// was staged before.
pub proof fn law_one_packet_is_appended(s: Staging, id: u32, cap: u32)
    requires
        s.wf(),
        s.cursor <= s.write.len(),
        s.fits(),
        s.channels.contains_key(id) ==> cap <= s.channels[id].recipient_window_size,
    ensures
        ({
            let (t, n) = s.packet_staged(id, cap);
            &&& t.wf()
            &&& t.fits()
            &&& t.cursor <= t.write.len()
            &&& n == 0 ==> t.unsent() == s.unsent() && t.write == s.write
            &&& n > 0 ==> wire::packets(t.unsent()) == wire::packets(s.unsent()).push(
                drain::data_payload(
                    s.channels[id].recipient_channel,
                    s.channels[id].data[0].1,
                    s.channels[id].one_packet(cap).1,
                ),
            )
        }),
{
    let (t, n) = s.packet_staged(id, cap);
    if s.channels.contains_key(id) {
        let l = s.channels[id];
        drain::lemma_one_packet(l, cap);
        let (m, bytes) = l.one_packet(cap);
        assert(m.fits()) by {
            assert forall|j: int| 0 <= j < m.ctrl.len() implies #[trigger] ctrl_fits(m.ctrl[j].1) by {
                assert(m.ctrl[j] == l.ctrl[j]);
            }
        }
        assert forall|k: u32| #[trigger]
            t.channels.contains_key(k) implies t.channels[k].fits() by {
            if k != id {
                assert(s.channels.contains_key(k));
            }
        }
        if n > 0 {
            let p = drain::data_payload(l.recipient_channel, l.data[0].1, bytes);
            wire::lemma_frame_appended(s.unsent(), p);
            assert(t.unsent() =~= s.unsent() + wire::frame(p));
        }
    }
}

/// Draining one lane leaves every other lane as it was.
pub proof fn law_lanes_are_independent(
    s: Staging,
    id: u32,
    gate: spec_fn(Ctrl) -> bool,
    allow_data: bool,
    other: u32,
)
    requires
        other != id,
    ensures
        ({
            let t = s.flush_lane(id, gate, allow_data);
            &&& t.channels.contains_key(other) == s.channels.contains_key(other)
            &&& s.channels.contains_key(other) ==> t.channels[other] == s.channels[other]
        }),
{
}

/// Draining past an empty staging buffer puts the same packets on the wire as
/// staging them and handing them on, and leaves the same lanes.
pub proof fn law_direct_equals_staged(s: Staging, id: u32, w: PacketSink)
    requires
        s.write.len() == 0,
        s.cursor == 0,
        s.fits(),
    ensures
        ({
            let t = s.flush_lane(id, drain::gate_open(), true);
            &&& t.wf()
            &&& w.all(wire::packets(t.unsent())) == s.direct_sink(id, w)
            &&& t.channels == s.flush_lane_direct(id).channels
        }),
{
    assert(s.unsent() =~= Seq::<u8>::empty());
    assert(wire::packets(s.unsent()) =~= Seq::<Seq<u8>>::empty());
    law_flush_lane_appends(s, id, drain::gate_open(), true);
    if s.channels.contains_key(id) {
        let d = drain::drain(s.channels[id], drain::gate_open(), true);
        assert(Seq::<Seq<u8>>::empty() + d.packets =~= d.packets);
    } else {
        assert(Seq::<Seq<u8>>::empty() + Seq::<Seq<u8>>::empty() =~= Seq::<Seq<u8>>::empty());
    }
}

/// Discarding a channel keeps every packet that is already framed, adds at
/// most the one CLOSE, and is a no-op the second time.
pub proof fn law_discard_closes_once(s: Staging, id: u32)
    ensures
        ({
            let t = s.discard(id);
            &&& !t.channels.contains_key(id)
            &&& t.write.len() >= s.write.len()
            &&& t.write.take(s.write.len() as int) == s.write
            &&& t.discard(id) == t
            &&& t.discard_stats(id).already_gone
            &&& s.channels.contains_key(id) && s.channels[id].outbound_closed ==> t.write
                == s.write
            &&& s.channels.contains_key(id) && !s.channels[id].outbound_closed ==> t.write
                == s.write + wire::frame(
                seq![msg::CHANNEL_CLOSE] + wire::be32(s.channels[id].recipient_channel),
            )
        }),
{
    assert(s.discard(id).write.take(s.write.len() as int) =~= s.write);
}

/// A grant never advertises more than the target leaves beside the bytes that
/// are still undelivered, never takes credit back, and announces exactly the
/// difference.
pub proof fn law_grant_leaves_room_for_backlog(s: Staging, id: u32, target: u32, undelivered: u32)
    requires
        s.channels.contains_key(id),
    ensures
        ({
            let before = s.channels[id].sender_window_size;
            let after = s.grant(id, target, undelivered).channels[id].sender_window_size;
            &&& after >= before
            &&& s.grant_due(id, target, undelivered) ==> after + undelivered == target
            &&& !s.grant_due(id, target, undelivered) ==> s.grant(id, target, undelivered) == s
        }),
{
}

/// A number that is handed out belongs to no live channel, and a second one is
/// different as long as the first is in use.
pub proof fn law_new_ids_are_fresh(s: Staging, n: nat, l: Lane, m: nat)
    requires
        s.first_free(n),
        (Staging { last_channel_id: s.nth_id(n), ..s }).with_lane(s.nth_id(n), l).first_free(m),
    ensures
        !s.channels.contains_key(s.nth_id(n)),
        (Staging { last_channel_id: s.nth_id(n), ..s }).with_lane(s.nth_id(n), l).nth_id(m)
            != s.nth_id(n),
{
}

} // verus!
