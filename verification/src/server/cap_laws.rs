//! What holds of the backlog over a whole drain: data takes it no further than
//! the cap. Fences and a KEXINIT are not capped, and are counted apart.
use vstd::prelude::*;

use crate::channel::{Ctrl, Lane};
use crate::common_session::{Common, Enc, Keys};
use crate::drain;
use crate::error::Error;
use crate::server::backlog_laws;
use crate::server::backlog_laws::{counted, on_its_way};
use crate::server::flush;
use crate::server::parked;
use crate::server::parked::ParkedCmd;
use crate::server::pipeline::CHANNEL_EXT_DATA_FRAMING;
use crate::server::schedule;
use crate::server::session::{Peer, Sched, SessionKexState};
use crate::server::writer;
use crate::session::Staging;
use crate::staging_laws;
use crate::wire;
use crate::wire::WIRE_OVERHEAD_PER_PACKET;

verus! {

/// What control items for the peer's channel `to` reserve.
pub open spec fn ctrl_weight(to: u32, ctrl: Seq<(u64, Ctrl)>) -> nat
    decreases ctrl.len(),
{
    if ctrl.len() == 0 {
        0
    } else {
        drain::ctrl_payload(to, ctrl[0].1).len() + WIRE_OVERHEAD_PER_PACKET as nat + ctrl_weight(
            to,
            ctrl.drop_first(),
        )
    }
}

/// One more control item at the end.
pub proof fn lemma_ctrl_weight_push(to: u32, ctrl: Seq<(u64, Ctrl)>, c: (u64, Ctrl))
    ensures
        ctrl_weight(to, ctrl.push(c)) == ctrl_weight(to, ctrl) + drain::ctrl_payload(to, c.1).len()
            + WIRE_OVERHEAD_PER_PACKET,
    decreases ctrl.len(),
{
    if ctrl.len() == 0 {
        assert(ctrl.push(c).drop_first() =~= ctrl);
        assert(ctrl_weight(to, ctrl) == 0);
    } else {
        lemma_ctrl_weight_push(to, ctrl.drop_first(), c);
        assert(ctrl.push(c).drop_first() =~= ctrl.drop_first().push(c));
    }
}

/// What the control items of channel `id` reserve.
pub open spec fn fences_at(m: Map<u32, Lane>, id: u32) -> nat {
    if m.contains_key(id) {
        ctrl_weight(m[id].recipient_channel, m[id].ctrl)
    } else {
        0
    }
}

/// What the control items of the channels below `k` reserve.
pub open spec fn total_fences(m: Map<u32, Lane>, k: nat) -> nat
    decreases k,
{
    if k == 0 {
        0
    } else {
        total_fences(m, (k - 1) as nat) + fences_at(m, (k - 1) as u32)
    }
}

/// Tables that differ in one channel differ by that channel's control items.
pub proof fn lemma_total_fences(m: Map<u32, Lane>, n: Map<u32, Lane>, id: u32, k: nat)
    requires
        k <= 0x1_0000_0000,
        forall|x: u32| x != id ==> #[trigger] fences_at(m, x) == fences_at(n, x),
    ensures
        id < k ==> total_fences(m, k) + fences_at(n, id) == total_fences(n, k) + fences_at(m, id),
        id >= k ==> total_fences(m, k) == total_fences(n, k),
    decreases k,
{
    if k > 0 {
        lemma_total_fences(m, n, id, (k - 1) as nat);
        assert((k - 1) as u32 == k - 1);
        if (k - 1) as u32 != id {
            assert(fences_at(m, (k - 1) as u32) == fences_at(n, (k - 1) as u32));
        }
    }
}

/// What may still leave whatever the backlog: the control items on all lanes,
/// and the KEXINIT at hand.
pub open spec fn uncapped(s: Peer) -> nat {
    total_fences(s.st().channels, 0x1_0000_0000) + (match s.offer {
        Some(k) => writer::reservation(k.len()) as nat,
        None => 0,
    })
}

/// `cap` is no less than the cap for any channel's packets.
pub open spec fn covers(cap: nat, m: Map<u32, Lane>) -> bool {
    forall|id: u32| #[trigger]
        m.contains_key(id) ==> Peer::cap_for(
            m[id].recipient_maximum_packet_size,
            CHANNEL_EXT_DATA_FRAMING,
        ) <= cap
}

/// The backlog, and the cap, leave room below `most` for all that may leave
/// uncapped, and the staging buffer holds at most `handed` bytes that are no
/// longer on their way.
pub open spec fn within(s: Peer, cap: nat, most: nat, handed: nat) -> bool {
    &&& s.ok()
    &&& s.common.enc is Some
    &&& counted(s)
    &&& covers(cap, s.st().channels)
    &&& on_its_way(s) + uncapped(s) <= most
    &&& cap + uncapped(s) <= most
    &&& s.st().write.len() <= on_its_way(s) + handed
    &&& most + handed < usize::MAX
}

/// No packet of `ps` is empty, and none carries application data.
pub open spec fn no_data(ps: Seq<Seq<u8>>) -> bool {
    forall|i: int|
        0 <= i < ps.len() ==> (#[trigger] ps[i]).len() > 0 && !flush::held_during_kex(ps[i][0])
}

/// What leaves a lane without data are its control items: they weigh what they
/// reserved.
pub proof fn lemma_fences_weigh(l: Lane)
    ensures
        ({
            let d = drain::drain(l, drain::gate_open(), false);
            &&& backlog_laws::weight_of(d.packets) + ctrl_weight(l.recipient_channel, d.lane.ctrl)
                == ctrl_weight(l.recipient_channel, l.ctrl)
            &&& no_data(d.packets)
            &&& !d.lane.ctrl_ahead()
        }),
    decreases l.ctrl.len(),
{
    let g = drain::gate_open();
    let d = drain::drain(l, g, false);
    if l.ctrl_ahead() {
        drain::lemma_drain_ctrl(l, g, false);
        let m = l.pop_ctrl();
        lemma_fences_weigh(m);
        let rest = drain::drain(m, g, false);
        let p = drain::ctrl_payload(l.recipient_channel, l.ctrl[0].1);
        assert(d.packets.drop_first() =~= rest.packets);
        assert forall|i: int| 0 <= i < d.packets.len() implies (#[trigger] d.packets[i]).len() > 0
            && !flush::held_during_kex(d.packets[i][0]) by {
            if i > 0 {
                assert(d.packets[i] == rest.packets[i - 1]);
            } else {
                assert(d.packets[0] == p);
            }
        }
    } else {
        drain::lemma_drain_stop(l, g, false);
    }
}

/// Packets put one behind the other weigh their sum.
proof fn lemma_weight_add(ps: Seq<Seq<u8>>, qs: Seq<Seq<u8>>)
    ensures
        backlog_laws::weight_of(ps + qs) == backlog_laws::weight_of(ps) + backlog_laws::weight_of(
            qs,
        ),
    decreases qs.len(),
{
    if qs.len() == 0 {
        assert(ps + qs =~= ps);
    } else {
        lemma_weight_add(ps, qs.drop_last());
        let q = qs.last();
        assert(ps + qs =~= (ps + qs.drop_last()) + seq![q]);
        assert(qs =~= qs.drop_last() + seq![q]);
        backlog_laws::lemma_weight_push(ps + qs.drop_last(), q);
        backlog_laws::lemma_weight_push(qs.drop_last(), q);
    }
}

/// Framing takes less than a packet reserves.
proof fn lemma_frames_len(ps: Seq<Seq<u8>>)
    ensures
        wire::frames(ps).len() <= backlog_laws::weight_of(ps),
    decreases ps.len(),
{
    if ps.len() > 0 {
        let q = ps.last();
        lemma_frames_len(ps.drop_last());
        wire::lemma_frames_push(ps.drop_last(), q);
        assert(ps.drop_last().push(q) =~= ps);
        assert(ps =~= ps.drop_last() + seq![q]);
        backlog_laws::lemma_weight_push(ps.drop_last(), q);
    }
}

/// Letting a channel's fences out moves their weight from what is uncapped to
/// what is on its way.
pub proof fn lemma_fences(s: Peer, id: u32, cap: nat, most: nat, handed: nat)
    requires
        within(s, cap, most, handed),
    ensures
        within(s.lane_flushed(id, false).0, cap, most, handed),
        on_its_way(s.lane_flushed(id, false).0) + uncapped(s.lane_flushed(id, false).0)
            == on_its_way(s) + uncapped(s),
        s.lane_flushed(id, false).0.lane(id) matches Some(l) ==> !l.ctrl_ahead(),
{
    reveal(Staging::ok);
    let t = s.lane_flushed(id, false).0;
    let st = s.st();
    staging_laws::law_flush_lane_appends(st, id, drain::gate_open(), false);
    if st.channels.contains_key(id) {
        let l = st.channels[id];
        let d = drain::drain(l, drain::gate_open(), false);
        lemma_fences_weigh(l);
        drain::lemma_fences_only(l, drain::gate_open());
        lemma_weight_add(wire::packets(st.unsent()), d.packets);
        backlog_laws::lemma_weight_of(st.unsent());
        backlog_laws::lemma_weight_of(t.unsent());
        lemma_total_fences(st.channels, t.st().channels, id, 0x1_0000_0000);
        lemma_frames_len(d.packets);
        let ps = wire::packets(t.unsent());
        let qs = wire::packets(st.unsent());
        assert forall|i: int| 0 <= i < ps.len() implies (#[trigger] ps[i]).len() > 0 by {
            if i < qs.len() {
                assert(ps[i] == qs[i]);
            } else {
                assert(ps[i] == d.packets[i - qs.len()]);
            }
        }
        assert(counted(t));
        assert forall|k: u32| #[trigger] t.st().channels.contains_key(k) implies Peer::cap_for(
            t.st().channels[k].recipient_maximum_packet_size,
            CHANNEL_EXT_DATA_FRAMING,
        ) <= cap by {
            assert(st.channels.contains_key(k));
        }
    } else {
        assert(t =~= s);
    }
}

/// A data packet in a channel's turn stays within the cap.
pub proof fn lemma_packet(s: Peer, id: u32, cap: nat, most: nat, handed: nat)
    requires
        within(s, cap, most, handed),
        s.lane(id) matches Some(l) && !l.ctrl_ahead(),
        s.quantum(id) > 0,
    ensures
        within(s.packet_staged(id, s.quantum(id)).0, cap, most, handed),
{
    reveal(Staging::ok);
    let q = s.quantum(id);
    let (t, n) = s.packet_staged(id, q);
    let st = s.st();
    let l = st.channels[id];
    backlog_laws::law_data_packet_stays_below_the_cap(s, id);
    staging_laws::law_one_packet_is_appended(st, id, q);
    drain::lemma_one_packet(l, q);
    assert(st.channels.contains_key(id));
    assert(Peer::cap_for(s.next_shape(id).0, s.next_shape(id).1) <= cap);
    assert(t.backlog() == wire::sat(on_its_way(t)));
    assert(on_its_way(t) <= cap);
    lemma_total_fences(st.channels, t.st().channels, id, 0x1_0000_0000);
    assert(uncapped(t) == uncapped(s));
    backlog_laws::lemma_weight_of(st.unsent());
    backlog_laws::lemma_weight_of(t.unsent());
    let ps = wire::packets(t.unsent());
    let qs = wire::packets(st.unsent());
    if n > 0 {
        let p = drain::data_payload(l.recipient_channel, l.data[0].1, l.one_packet(q).1);
        assert(qs.push(p) =~= qs + seq![p]);
        backlog_laws::lemma_weight_push(qs, p);
        assert(t.st().write.len() == st.write.len() + 4 + p.len());
        assert forall|i: int| 0 <= i < ps.len() implies (#[trigger] ps[i]).len() > 0 by {
            if i < qs.len() {
                assert(ps[i] == qs[i]);
            }
        }
    }
    assert(counted(t));
    assert forall|k: u32| #[trigger] t.st().channels.contains_key(k) implies Peer::cap_for(
        t.st().channels[k].recipient_maximum_packet_size,
        CHANNEL_EXT_DATA_FRAMING,
    ) <= cap by {
        assert(st.channels.contains_key(k));
    }
}

/// Where no writer runs, carrying out what is parked only takes from the
/// backlog.
proof fn lemma_retried_here(s: Peer)
    requires
        s.link is None,
        counted(s),
    ensures
        s.retried().1 is Ok,
        on_its_way(s.retried().0) <= on_its_way(s),
        counted(s.retried().0),
    decreases s.parked.q.len(),
{
    if s.parked.q.len() > 0 {
        let t = s.unparked().done_here(s.parked.q[0]);
        parked::law_parked_count_is_exact(
            s.parked,
            ParkedCmd::InitOutboundCompress(crate::sshbuffer::Compression::Plain),
        );
        assert(t.unsent() == s.unsent());
        assert(t.parked == s.parked.popped());
        assert forall|i: int| 0 <= i < t.parked.q.len() implies #[trigger] backlog_laws::not_empty(
            t.parked.q[i],
        ) by {
            assert(t.parked.q[i] == s.parked.q[i + 1]);
            assert(backlog_laws::not_empty(s.parked.q[i + 1]));
        }
        lemma_retried_here(t);
    }
}

/// Handing staged packets on touches nothing but the writer, what is parked
/// and how far the staging buffer was handed on.
pub proof fn lemma_handed_on_frame(s: Peer, hold: bool)
    requires
        s.common.enc is Some,
    ensures
        ({
            let t = s.handed_on(hold).0;
            &&& t == (Peer { common: t.common, link: t.link, parked: t.parked, ..s })
            &&& t.common.enc is Some
            &&& t.common.enc->0.keys == s.common.enc->0.keys
            &&& t.st() == (Staging { cursor: t.st().cursor, ..s.st() })
            &&& t.link is Some <==> s.link is Some
        }),
    decreases s.unsent().len(),
{
    reveal(Peer::hand_step);
    let (t, r) = s.hand_step(hold);
    if r == Ok::<bool, Error>(true) && t.unsent().len() < s.unsent().len() {
        lemma_handed_on_frame(t, hold);
    }
}

/// A payload submitted adds what it reserves.
proof fn lemma_submitted(s: Peer, k: Seq<u8>)
    requires
        s.link is Some,
        counted(s),
        k.len() > 0,
        on_its_way(s) + writer::reservation(k.len()) < usize::MAX,
        s.submitted_payload(k).1 is Ok,
    ensures
        ({
            let t = s.submitted_payload(k).0;
            &&& on_its_way(t) == on_its_way(s) + writer::reservation(k.len())
            &&& counted(t)
            &&& t == (Peer { link: t.link, parked: t.parked, ..s })
            &&& t.link is Some
        }),
{
    let c = ParkedCmd::SealPayload(k);
    let a = s.retried().0;
    flush::lemma_retried_keeps(s);
    backlog_laws::law_retrying_keeps_the_backlog(s);
    parked::law_parked_count_is_exact(a.parked, c);
    let t = s.submitted_payload(k).0;
    assert(t.unsent() == s.unsent());
    assert forall|i: int| 0 <= i < t.parked.q.len() implies #[trigger] backlog_laws::not_empty(
        t.parked.q[i],
    ) by {
        if i < a.parked.q.len() {
            assert(t.parked.q[i] == a.parked.q[i]);
            assert(backlog_laws::not_empty(a.parked.q[i]));
        } else {
            assert(t.parked.q[i] == c);
        }
    }
}

/// Beginning a key exchange moves the weight of its KEXINIT to what is on its
/// way.
proof fn lemma_begun_if(s: Peer, due: bool, cap: nat, most: nat, handed: nat)
    requires
        within(s, cap, most, handed),
        s.begun_if(due).1 is Ok,
    ensures
        within(s.begun_if(due).0, cap, most, handed),
        s.begun_if(due).0.link is Some <==> s.link is Some,
{
    reveal(Staging::ok);
    reveal(Peer::begun_if);
    reveal(Peer::begun);
    reveal(Peer::kexinit_sent);
    let t = s.begun_if(due).0;
    let e = s.common.enc->0;
    if due && s.kex == SessionKexState::Idle && e.keys.exchange is Some {
        if s.offer is None && s.install is None {
            assert(t.unsent() =~= s.unsent());
        } else {
            let a = Peer {
                common: Common {
                    enc: Some(Enc { keys: Keys { exchange: None, ..e.keys }, ..e }),
                    ..s.common
                },
                ..s
            };
            let k = s.offer->0;
            let b = Peer { offer: None, kex: SessionKexState::InProgress, ..a };
            assert(b.unsent() == s.unsent());
            assert(counted(b));
            if s.link is Some {
                if k.len() > 0 {
                    lemma_submitted(b, k);
                }
            }
            assert(t.unsent() == s.unsent());
            assert(t.st() == s.st());
        }
    }
}

/// What leaves lanes, KEXINIT and backlog alone leaves all within the cap.
proof fn lemma_alike(s: Peer, t: Peer, cap: nat, most: nat, handed: nat)
    requires
        within(s, cap, most, handed),
        t.ok(),
        t.common.enc is Some,
        counted(t),
        t.st().channels == s.st().channels,
        t.st().write.len() <= on_its_way(t) + handed,
        on_its_way(t) <= on_its_way(s),
        t.offer == s.offer,
    ensures
        within(t, cap, most, handed),
{
}

/// Taking note of a key exchange that is due changes nothing else.
pub proof fn lemma_noted(s: Peer)
    requires
        s.common.enc is Some,
    ensures
        ({
            let t = s.rekey_noted();
            &&& t == (Peer { common: t.common, ..s })
            &&& t.common.enc is Some
            &&& t.st() == (Staging { rekey_wanted: t.st().rekey_wanted, ..s.st() })
            &&& t.unsent() == s.unsent()
            &&& s.ok() ==> t.ok()
        }),
{
    reveal(Staging::ok);
    assert(s.rekey_noted().unsent() =~= s.unsent());
}

proof fn lemma_flush_out(s: Peer, cap: nat, most: nat, handed: nat)
    requires
        within(s, cap, most, handed),
        s.link is Some,
        s.flushed_out().1 is Ok,
    ensures
        within(s.flushed_out().0, cap, most, handed),
        s.flushed_out().0.link is Some,
{
    reveal(Staging::ok);
    reveal(Peer::flushed_out);
    let hold = s.blocked();
    backlog_laws::law_handing_on_keeps_the_backlog(s, hold);
    lemma_handed_on_frame(s, hold);
    let c = s.handed_on(hold).0;
    lemma_alike(s, c, cap, most, handed);
    let d = c.tidied();
    assert(d.unsent() =~= c.unsent());
    lemma_alike(c, d, cap, most, handed);
    let f = d.rekey_noted();
    lemma_noted(d);
    lemma_alike(d, f, cap, most, handed);
    lemma_begun_if(f, d.rekey_due(), cap, most, handed);
}

proof fn lemma_flush_here(s: Peer, a: Peer, cap: nat, most: nat, handed: nat)
    requires
        within(s, cap, most, handed),
        a.ok(),
        a.common.enc is Some,
        counted(a),
        a.st().channels == s.st().channels,
        on_its_way(a) <= on_its_way(s),
        a.offer == s.offer,
        a.link is None,
        a.flushed_here().1 is Ok,
    ensures
        within(a.flushed_here().0, cap, most, handed),
        a.flushed_here().0.link is None,
{
    reveal(Staging::ok);
    reveal(Peer::flushed_here);
    let e = a.common.enc->0;
    let sink = a.common.sink.all(wire::packets(a.unsent()));
    let due = !e.keys.kex.skip_exchange && (e.st.rekey_wanted || sink.bytes
        >= a.config.limits.max_bytes);
    let b = Peer { common: Common { sink, ..a.common }, ..a };
    let c = b.with_st(Staging { write: Seq::empty(), cursor: 0, ..e.st });
    assert(c.unsent() =~= Seq::empty());
    assert(wire::packets(c.unsent()) =~= Seq::empty());
    lemma_alike(s, c, cap, most, handed);
    lemma_noted(c);
    let f = c.rekey_noted();
    lemma_alike(c, f, cap, most, handed);
    lemma_begun_if(f, due, cap, most, handed);
}

/// Flushing moves the backlog on without adding to it, but for the KEXINIT of
/// an exchange that it begins.
pub proof fn lemma_flush(s: Peer, cap: nat, most: nat, handed: nat)
    requires
        within(s, cap, most, handed),
        s.flushed().1 is Ok,
    ensures
        within(s.flushed().0, cap, most, handed),
        s.flushed().0.link is Some <==> s.link is Some,
{
    reveal(Peer::flushed);
    flush::lemma_retried_keeps(s);
    let a = s.retried().0;
    assert(a.unsent() == s.unsent());
    if s.link is Some {
        backlog_laws::law_retrying_keeps_the_backlog(s);
        lemma_alike(s, a, cap, most, handed);
        let b = a.restaged();
        assert(b.unsent() == a.unsent());
        lemma_alike(a, b, cap, most, handed);
        lemma_flush_out(b, cap, most, handed);
    } else {
        lemma_retried_here(s);
        lemma_flush_here(s, a, cap, most, handed);
    }
}

/// What a channel's turn stages stays within the cap.
pub proof fn lemma_turn_staged(s: Peer, id: u32, cap: nat, most: nat, handed: nat)
    requires
        within(s, cap, most, handed),
    ensures
        within(s.turn_staged(id), cap, most, handed),
        s.turn_staged(id).link is Some <==> s.link is Some,
{
    lemma_fences(s, id, cap, most, handed);
    let a = s.lane_flushed(id, false).0;
    let b = a.sampled();
    assert(b.unsent() == a.unsent());
    lemma_alike(a, b, cap, most, handed);
    if !a.blocked() && a.quantum(id) > 0 {
        assert(b.quantum(id) == a.quantum(id)) by {
            assert(b.backlog() == a.backlog());
        }
        lemma_packet(b, id, cap, most, handed);
        lemma_fences(b.packet_staged(id, a.quantum(id)).0, id, cap, most, handed);
    }
}

/// A channel's turn stays within the cap.
pub proof fn lemma_channel(s: Peer, id: u32, cap: nat, most: nat, handed: nat)
    requires
        within(s, cap, most, handed),
        s.channel_drained(id).1 is Ok,
    ensures
        within(s.channel_drained(id).0, cap, most, handed),
        s.channel_drained(id).0.link is Some <==> s.link is Some,
{
    reveal(Peer::channel_drained);
    reveal(Peer::one_packet_out);
    lemma_turn_staged(s, id, cap, most, handed);
    let a = s.lane_flushed(id, false).0;
    if !a.blocked() && a.quantum(id) > 0 {
        lemma_flush(s.turn_staged(id), cap, most, handed);
    }
}

proof fn lemma_pass(
    s: Peer,
    ready: Seq<u32>,
    start: int,
    i: int,
    progressed: bool,
    last: Option<u32>,
    cap: nat,
    most: nat,
    handed: nat,
)
    requires
        within(s, cap, most, handed),
        s.passed(ready, start, i, progressed, last).result is Ok,
    ensures
        within(s.passed(ready, start, i, progressed, last).peer, cap, most, handed),
    decreases ready.len() - i,
{
    if i < ready.len() {
        let id = ready[(start + i) % (ready.len() as int)];
        if s.sched.debt == Some(id) {
            lemma_pass(s, ready, start, i + 1, progressed, last, cap, most, handed);
        } else {
            lemma_channel(s, id, cap, most, handed);
            let (t, r) = s.channel_drained(id);
            if r->Ok_0 > 0 {
                let u = t.emit_seen(id, false);
                lemma_alike(t, u, cap, most, handed);
                lemma_pass(u, ready, start, i + 1, true, Some(id), cap, most, handed);
            }
        }
    }
}

/// A round stays within the cap.
proof fn lemma_round(s: Peer, cap: nat, most: nat, handed: nat)
    requires
        within(s, cap, most, handed),
        s.round().1 is Ok,
    ensures
        within(s.round().0, cap, most, handed),
{
    reveal(Peer::round);
    reveal(Peer::boosted);
    reveal(Peer::regular_round);
    if !s.blocked() && s.ready().len() > 0 {
        if let Some(id) = s.boost_candidate(s.ready()) {
            if s.sched.since_boost >= crate::server::session::BOOST_PERIOD {
                lemma_channel(s, id, cap, most, handed);
            }
        }
        let b = s.boosted().0;
        assert(within(b, cap, most, handed));
        if b.ready().len() > 0 {
            lemma_pass(
                b,
                b.ready(),
                schedule::start_of(b.ready(), b.sched.next),
                0,
                false,
                None,
                cap,
                most,
                handed,
            );
        }
    }
}

proof fn lemma_rounds(s: Peer, cap: nat, most: nat, handed: nat)
    requires
        within(s, cap, most, handed),
        s.rounds().1 is Ok,
    ensures
        within(s.rounds().0, cap, most, handed),
    decreases s.windows(),
{
    lemma_round(s, cap, most, handed);
    let (t, r) = s.round();
    if r == Ok::<bool, Error>(true) && t.windows() < s.windows() {
        lemma_rounds(t, cap, most, handed);
    }
}

proof fn lemma_all_fences(s: Peer, ids: Seq<u32>, cap: nat, most: nat, handed: nat)
    requires
        within(s, cap, most, handed),
    ensures
        within(s.fences_out(ids).0, cap, most, handed),
    decreases ids.len(),
{
    if ids.len() > 0 {
        lemma_fences(s, ids[0], cap, most, handed);
        lemma_all_fences(s.lane_flushed(ids[0], false).0, ids.drop_first(), cap, most, handed);
    }
}

/// The larger of two numbers.
pub open spec fn max(a: nat, b: nat) -> nat {
    if a <= b {
        b
    } else {
        a
    }
}

/// What a drain can come to fits the machine.
pub open spec fn fits_machine(s: Peer, cap: nat) -> bool {
    max(on_its_way(s), cap) + uncapped(s) + s.st().write.len() < usize::MAX
}

/// However many channels and rounds a drain goes through, data takes the
/// backlog no further than the cap. What is on its way in the end is at most
/// the larger of what was before and the cap, and beyond that only the control
/// items and the KEXINIT that left.
pub proof fn law_drain_stays_within_the_cap(s: Peer, cap: nat)
    requires
        s.ok(),
        s.common.enc is Some,
        counted(s),
        covers(cap, s.st().channels),
        fits_machine(s, cap),
        s.data_drained().1 is Ok,
    ensures
        on_its_way(s.data_drained().0) + uncapped(s.data_drained().0) <= max(on_its_way(s), cap)
            + uncapped(s),
        uncapped(s) == 0 ==> s.data_drained().0.backlog() <= max(s.backlog() as nat, cap),
{
    let most = max(on_its_way(s), cap) + uncapped(s);
    let handed = s.st().write.len();
    assert(within(s, cap, most, handed));
    lemma_all_fences(s, s.busy_channels(), cap, most, handed);
    let t = s.fences_out(s.busy_channels()).0;
    lemma_rounds(t, cap, most, handed);
}

/// The same holds of one channel's turn.
pub proof fn law_channel_stays_within_the_cap(s: Peer, id: u32, cap: nat)
    requires
        s.ok(),
        s.common.enc is Some,
        counted(s),
        covers(cap, s.st().channels),
        fits_machine(s, cap),
        s.channel_drained(id).1 is Ok,
    ensures
        on_its_way(s.channel_drained(id).0) + uncapped(s.channel_drained(id).0) <= max(
            on_its_way(s),
            cap,
        ) + uncapped(s),
{
    let most = max(on_its_way(s), cap) + uncapped(s);
    lemma_channel(s, id, cap, most, s.st().write.len());
}

} // verus!
