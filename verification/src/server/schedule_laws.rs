//! The scheduler gets on: a channel that may send does, every ready channel has
//! its turn, one that is refused comes first the next time, and what is staged
//! is handed on as far as the writer takes it.
use vstd::prelude::*;

use crate::channel::{ChannelLaneState, Lane};
use crate::common_session::Common;
use crate::drain;
use crate::error::Error;
use crate::lane_laws;
use crate::listing;
use crate::server::flush;
use crate::server::parked::ParkedCmd;
use crate::server::pipeline;
use crate::server::quantum_laws;
use crate::server::schedule;
use crate::server::session::{Peer, Sched, SessionKexState, BOOST_PERIOD};
use crate::server::session_laws;
use crate::session::Staging;
use crate::wire;

verus! {

/// A channel whose head is data, whose window is open and which the backlog
/// does not refuse sends: as much of the head of its queue as one packet may
/// carry, and not nothing.
pub proof fn law_ready_channel_sends(s: Peer, id: u32)
    requires
        s.ok(),
        !s.blocked(),
        s.lane(id) matches Some(l) && l.data.len() > 0 && !l.ctrl_ahead() && l.data[0].0.len() > 0
            && l.recipient_window_size > 0,
        s.next_allowance(id) > 0,
        s.channel_drained(id).1 is Ok,
    ensures
        ({
            let n = s.channel_drained(id).1->Ok_0;
            let l = s.lane(id)->0;
            let run = l.head_run(l.data[0].1);
            let most = drain::min(s.next_allowance(id), l.recipient_window_size as nat);
            &&& n > 0
            &&& n == drain::min(most, run.len())
        }),
{
    reveal(Peer::channel_drained);
    reveal(Peer::one_packet_out);
    let l = s.lane(id)->0;
    let g = drain::gate_open();
    drain::lemma_drain_stop(l, g, false);
    let a = s.lane_flushed(id, false).0;
    assert(wire::frames(Seq::empty()) =~= Seq::<u8>::empty());
    let st = s.st();
    let d = drain::drain(l, g, false);
    assert(!d.lane.finished());
    assert(st.with_lane(id, l).channels =~= st.channels);
    assert(st.with_lane(id, l).staged_all(Seq::empty()).write =~= st.write);
    assert(a =~= s);
    let q = s.quantum(id);
    lane_laws::law_one_packet_carries_the_head(l, q);
    drain::lemma_one_packet(l, q);
    let run = l.head_run(l.data[0].1);
    assert(run == l.data[0].0 + l.pop_data().head_run(l.data[0].1));
}

/// A channel without data, without window or refused by the backlog sends no
/// data.
pub proof fn law_other_channels_send_nothing(s: Peer, id: u32)
    requires
        s.channel_drained(id).1 is Ok,
        s.blocked() || !(s.lane(id) matches Some(l) && l.data.len() > 0
            && l.recipient_window_size > 0),
    ensures
        s.channel_drained(id).1 == Ok::<usize, Error>(0),
{
    reveal(Peer::channel_drained);
    if s.common.enc is Some && s.st().channels.contains_key(id) {
        drain::lemma_fences_only(s.st().channels[id], drain::gate_open());
    }
    let a = s.lane_flushed(id, false).0;
    assert(a.blocked() == s.blocked());
}

/// The list of ready channels holds exactly those that are confirmed, have data
/// at the head and an open window, in the order of their numbers.
pub proof fn law_ready_channels(s: Peer, id: u32)
    requires
        s.common.enc is Some,
    ensures
        s.ready().contains(id) <==> (s.lane(id) matches Some(l) && l.state
            == ChannelLaneState::Confirmed && l.data.len() > 0 && l.recipient_window_size > 0 && !(
        l.ctrl.len() > 0 && l.ctrl[0].0 <= l.next_data_seq())),
        forall|i: int, j: int| 0 <= i < j < s.ready().len() ==> s.ready()[i] < s.ready()[j],
        s.busy_channels().contains(id) <==> (s.lane(id) matches Some(l) && (l.data.len() > 0
            || l.ctrl.len() > 0)),
{
    let e = s.common.enc->0;
    let set = e.st.channels.dom();
    let pred = |id: u32| e.st.channels.contains_key(id) && e.st.channels[id].in_ready_set();
    let busy = |id: u32| e.st.channels.contains_key(id) && e.st.channels[id].busy();
    listing::lemma_listing_exists(set);
    let all = listing::listing(set);
    listing::lemma_ascending_part(all, pred);
    listing::lemma_ascending_part(all, busy);
    if pred(id) {
        assert(all.contains(id));
        listing::lemma_part_holds(all, pred, id);
    }
    if busy(id) {
        assert(all.contains(id));
        listing::lemma_part_holds(all, busy, id);
    }
}

/// In a round that was not stopped every ready channel was served, but for one
/// that was boosted just before.
proof fn lemma_all_are_served(
    s: Peer,
    ready: Seq<u32>,
    start: int,
    i: int,
    progressed: bool,
    last: Option<u32>,
    j: int,
)
    requires
        s.passed(ready, start, i, progressed, last).result is Ok,
        !s.passed(ready, start, i, progressed, last).stopped,
        0 <= i <= j < ready.len(),
        s.sched.debt != Some(ready[(start + j) % (ready.len() as int)]),
    ensures
        s.served(ready, start, i).contains(ready[(start + j) % (ready.len() as int)]),
    decreases ready.len() - i,
{
    let len = ready.len() as int;
    let id = ready[(start + i) % len];
    let x = ready[(start + j) % len];
    if s.sched.debt == Some(id) {
        lemma_all_are_served(s, ready, start, i + 1, progressed, last, j);
    } else {
        let (t, r) = s.channel_drained(id);
        schedule::lemma_channel_drained_windows(s, id);
        assert(r is Ok && r->Ok_0 > 0);
        let u = t.emit_seen(id, false);
        let rest = u.served(ready, start, i + 1);
        let all = seq![id] + rest;
        assert(s.served(ready, start, i) == all);
        assert(all[0] == id);
        if i < j {
            lemma_all_are_served(u, ready, start, i + 1, true, Some(id), j);
            let k = choose|k: int| 0 <= k < rest.len() && rest[k] == x;
            assert(all[k + 1] == x);
        }
    }
}

/// The channel at which a round stops was not served in it.
proof fn lemma_stop_is_not_served(
    s: Peer,
    ready: Seq<u32>,
    start: int,
    i: int,
    progressed: bool,
    last: Option<u32>,
)
    requires
        s.passed(ready, start, i, progressed, last).stopped,
        ready.no_duplicates(),
        0 <= start < ready.len(),
        0 <= i < ready.len(),
    ensures
        ({
            let y = s.passed(ready, start, i, progressed, last).peer.sched.next->0;
            &&& s.passed(ready, start, i, progressed, last).peer.sched.next is Some
            &&& ready.contains(y)
            &&& !s.served(ready, start, i).contains(y)
        }),
    decreases ready.len() - i,
{
    let len = ready.len() as int;
    let id = ready[(start + i) % len];
    let p = s.passed(ready, start, i, progressed, last);
    quantum_laws::lemma_place(start, i, len);
    assert(ready.contains(id));
    if s.sched.debt == Some(id) {
        lemma_stop_is_not_served(s, ready, start, i + 1, progressed, last);
    } else {
        let (t, r) = s.channel_drained(id);
        if r is Ok && r->Ok_0 > 0 {
            let u = t.emit_seen(id, false);
            let rest = u.served(ready, start, i + 1);
            let all = seq![id] + rest;
            assert(s.served(ready, start, i) == all);
            lemma_stop_is_not_served(u, ready, start, i + 1, true, Some(id));
            quantum_laws::lemma_stop_is_later(u, ready, start, i + 1, true, Some(id));
            let y = p.peer.sched.next->0;
            let k = choose|k: int| i + 1 <= k < len && y == #[trigger] ready[(start + k) % len];
            quantum_laws::lemma_place(start, k, len);
            assert(y != id);
            if all.contains(y) {
                let k = choose|k: int| 0 <= k < all.len() && all[k] == y;
                assert(rest[k - 1] == y);
            }
        }
    }
}

/// A round serves every ready channel in turn, but for one that was boosted
/// just before; where the backlog refuses a channel the round ends, and that
/// channel, which was not served, is the one that the next round begins with.
pub proof fn law_every_ready_channel_has_its_turn(s: Peer, x: u32)
    requires
        s.ready().contains(x),
        s.regular_round().1 is Ok,
    ensures
        s.served_regularly().contains(x) || s.sched.debt == Some(x) || (
        s.regular_round().0.sched.next matches Some(y) && s.ready().contains(y)
            && !s.served_regularly().contains(y)),
        s.regular_round().0.sched.debt is None,
{
    reveal(Peer::regular_round);
    let ready = s.ready();
    let len = ready.len() as int;
    let start = schedule::start_of(ready, s.sched.next);
    quantum_laws::lemma_ready(s);
    quantum_laws::lemma_start(ready, s.sched.next);
    let k = choose|k: int| 0 <= k < len && ready[k] == x;
    let j = if k >= start {
        k - start
    } else {
        k - start + len
    };
    quantum_laws::lemma_place(start, j, len);
    let p = s.passed(ready, start, 0, false, None);
    if p.stopped {
        lemma_stop_is_not_served(s, ready, start, 0, false, None);
    } else if s.sched.debt != Some(x) {
        lemma_all_are_served(s, ready, start, 0, false, None, j);
    }
}

/// A round begins at the first ready channel not below the one that is next,
/// or with the first of all.
pub proof fn law_round_begins_where_the_last_stopped(ready: Seq<u32>, n: u32)
    requires
        ready.len() > 0,
        forall|i: int, j: int| 0 <= i < j < ready.len() ==> ready[i] < ready[j],
    ensures
        ready.contains(n) ==> ready[schedule::start_of(ready, Some(n))] == n,
        schedule::start_of(ready, None) == 0,
        ready.last() < n ==> schedule::start_of(ready, Some(n)) == 0,
        ready.contains(n) && n != ready.last() ==> ready.contains(schedule::successor(ready, n))
            && schedule::successor(ready, n) > n,
        n == ready.last() ==> schedule::successor(ready, n) == ready[0],
{
    lemma_position(ready, n, 0);
    lemma_successor(ready, n, 0);
}

proof fn lemma_position(ready: Seq<u32>, n: u32, i: int)
    requires
        ready.len() > 0,
        0 <= i <= ready.len(),
        forall|a: int, b: int| 0 <= a < b < ready.len() ==> ready[a] < ready[b],
        forall|a: int| 0 <= a < i ==> ready[a] < n,
    ensures
        ready.contains(n) ==> ready[schedule::position_from(ready, n, i)] == n,
        ready.last() < n ==> schedule::position_from(ready, n, i) == 0,
    decreases ready.len() - i,
{
    if i < ready.len() {
        if ready[i] < n {
            lemma_position(ready, n, i + 1);
        } else if ready.contains(n) {
            let k = choose|k: int| 0 <= k < ready.len() && ready[k] == n;
            assert(k >= i);
            if k > i {
                assert(ready[i] < ready[k]);
            }
        }
        if ready.last() < n && ready[i] >= n {
            if i < ready.len() - 1 {
                assert(ready[i] < ready[ready.len() - 1]);
            }
        }
    } else if ready.contains(n) {
        let k = choose|k: int| 0 <= k < ready.len() && ready[k] == n;
        assert(ready[k] < n);
    }
}

proof fn lemma_successor(ready: Seq<u32>, n: u32, i: int)
    requires
        ready.len() > 0,
        0 <= i <= ready.len(),
        forall|a: int, b: int| 0 <= a < b < ready.len() ==> ready[a] < ready[b],
        forall|a: int| 0 <= a < i ==> ready[a] <= n,
    ensures
        ready.contains(n) && n != ready.last() ==> ready.contains(
            schedule::successor_from(ready, n, i),
        ) && schedule::successor_from(ready, n, i) > n,
        n == ready.last() ==> schedule::successor_from(ready, n, i) == ready[0],
    decreases ready.len() - i,
{
    if i < ready.len() {
        if ready[i] <= n {
            lemma_successor(ready, n, i + 1);
        } else if n == ready.last() {
            if i < ready.len() - 1 {
                assert(ready[i] < ready[ready.len() - 1]);
            }
        }
    } else if ready.contains(n) && n != ready.last() {
        let k = choose|k: int| 0 <= k < ready.len() && ready[k] == n;
        assert(k < ready.len() - 1);
        assert(ready[k] < ready[ready.len() - 1]);
        assert(ready[ready.len() - 1] <= n);
    }
}

/// Rounds go on until one lets nothing out.
pub proof fn law_rounds_go_on_until_nothing_leaves(s: Peer)
    requires
        s.rounds().1 is Ok,
    ensures
        exists|u: Peer| #[trigger] u.round() == (s.rounds().0, Ok::<bool, Error>(false)),
    decreases s.windows(),
{
    schedule::lemma_round_windows(s);
    let (t, r) = s.round();
    if r == Ok::<bool, Error>(true) {
        law_rounds_go_on_until_nothing_leaves(t);
        let u = choose|u: Peer| #[trigger] u.round() == (t.rounds().0, Ok::<bool, Error>(false));
        assert(u.round() == (s.rounds().0, Ok::<bool, Error>(false)));
    } else {
        assert(r is Ok);
        assert(r->Ok_0 == false);
        assert(s.rounds() == (t, Ok::<(), Error>(())));
        assert(s.round() == (s.rounds().0, Ok::<bool, Error>(false)));
    }
}

/// A channel that was just confirmed goes first once eight rounds have let data
/// out since the last boost: the first such channel, once; it owes a round for
/// it.
pub proof fn law_new_channel_is_boosted(s: Peer, id: u32)
    requires
        s.boost_candidate(s.ready()) == Some(id),
        s.sched.since_boost >= 8,
        s.channel_drained(id).1 is Ok,
    ensures
        ({
            let n = s.channel_drained(id).1->Ok_0;
            let (t, r) = s.boosted();
            &&& r is Ok
            &&& s.ready().contains(id)
            &&& s.lane(id) matches Some(l) && l.boost_pending
            &&& n > 0 ==> t.sched.debt == Some(id) && t.sched.since_boost == 0
            &&& n == 0 ==> t.sched == s.sched
            &&& t.st() == s.channel_drained(id).0.st()
        }),
{
    reveal(Peer::boosted);
    schedule::lemma_channel_drained_windows(s, id);
    lemma_candidate(s, s.ready());
}

proof fn lemma_candidate(s: Peer, ready: Seq<u32>)
    ensures
        s.boost_candidate(ready) matches Some(id) ==> ready.contains(id) && s.boostable(id),
        s.boost_candidate(ready) is None ==> forall|i: int|
            0 <= i < ready.len() ==> !#[trigger] s.boostable(ready[i]),
    decreases ready.len(),
{
    if ready.len() > 0 {
        let rest = ready.drop_first();
        if s.boostable(ready[0]) {
            assert(ready.contains(ready[0]));
        } else {
            lemma_candidate(s, rest);
            if let Some(id) = s.boost_candidate(rest) {
                let k = choose|k: int| 0 <= k < rest.len() && rest[k] == id;
                assert(ready[k + 1] == id);
            } else {
                assert forall|i: int| 0 <= i < ready.len() implies !#[trigger] s.boostable(
                    ready[i],
                ) by {
                    if i > 0 {
                        assert(ready[i] == rest[i - 1]);
                    }
                }
            }
        }
    }
}

/// No channel that waits for its boost is passed over.
pub proof fn law_waiting_boost_is_found(s: Peer, i: int)
    requires
        0 <= i < s.ready().len(),
        s.boostable(s.ready()[i]),
    ensures
        s.boost_candidate(s.ready()) is Some,
        s.sched.since_boost >= 8 && s.boosted().1 is Ok ==> s.boosted().0.sched.debt
            == s.boost_candidate(s.ready()) || s.channel_drained(
            s.boost_candidate(s.ready())->0,
        ).1 == Ok::<usize, Error>(0),
{
    reveal(Peer::boosted);
    lemma_candidate(s, s.ready());
}

/// Staged packets are handed on as far as it goes: what stays staged waits for
/// what is parked before it, or (with `hold`) is data that waits for a key
/// exchange.
pub proof fn law_staged_packets_are_handed_on(s: Peer, hold: bool)
    requires
        s.ok(),
        s.common.enc is Some,
        s.st().write.len() <= usize::MAX,
        s.handed_on(hold).1 is Ok,
    ensures
        ({
            let t = s.handed_on(hold).0;
            t.unsent().len() == 0 || t.parked.q.len() > 0 || (hold && t.st().head_is_held())
        }),
    decreases s.unsent().len(),
{
    reveal(Staging::ok);
    reveal(Peer::hand_step);
    let (t, r) = s.hand_step(hold);
    if s.parked.q.len() > 0 || s.unsent().len() == 0 || (hold && s.st().head_is_held()) {
    } else {
        let rest = s.unsent();
        wire::lemma_first_frame(rest);
        let a = s.with_st(s.st().advanced());
        assert(a.st().unsent() =~= rest.skip(wire::frame_len(rest)));
        assert(t.unsent() == a.unsent());
        if r == Ok::<bool, Error>(true) {
            law_staged_packets_are_handed_on(t, hold);
        }
    }
}

/// A staged packet is parked only where the backlog is at the cap or the
/// writer's queue is full; else the writer has it.
pub proof fn law_packet_is_parked_only_for_want_of_room(s: Peer, hold: bool)
    requires
        s.common.enc is Some,
        s.parked.q.len() == 0,
        s.unsent().len() > 0,
        !(hold && s.st().head_is_held()),
        s.link matches Some(l) && !l.closed && l.room(),
        s.st().first_packet().len() > 0,
        wire::sat(
            s.with_st(s.st().advanced()).backlog() as nat + wire::sat(
                s.st().first_packet().len() + wire::WIRE_OVERHEAD_PER_PACKET as nat,
            ) as nat,
        ) <= s.hard_cap(),
    ensures
        ({
            let (t, r) = s.hand_step(hold);
            &&& r == Ok::<bool, Error>(true)
            &&& t.parked.q.len() == 0
            &&& t.link->0.bulk.len() == s.link->0.bulk.len() + 1
            &&& t.link->0.bulk.last() matches crate::server::writer::Cmd::SealRaw(p) && p
                == s.st().first_packet()
        }),
{
    reveal(Peer::hand_step);
    let a = s.with_st(s.st().advanced());
    let b = a.restaged().sampled();
    assert(b.backlog() == a.backlog());
}

/// What is parked is taken up again as far as it goes: it stays only where the
/// backlog is at the cap or the writer's queue is full.
pub proof fn law_parked_commands_are_taken_up(s: Peer)
    requires
        s.link is Some,
        s.retried().1 is Ok,
        s.retried().0.parked.q.len() > 0,
    ensures
        ({
            let t = s.retried().0;
            let c = t.parked.q[0];
            !t.link->0.room() || (c.weight() > 0 && t.unparked().over(c.weight()))
        }),
    decreases s.parked.q.len(),
{
    let c = s.parked.q[0];
    let seen = s.taken_up();
    let l = seen.link->0;
    let next = Peer { link: Some(Peer::offer_link(l, c)), ..seen };
    let t = s.retried().0;
    if c.weight() > 0 && seen.over(c.weight()) {
        lemma_put_back(s, seen, t, c);
    } else if Peer::link_takes(l, c) {
        law_parked_commands_are_taken_up(next);
    } else {
        assert(!l.room());
    }
}

/// A command put back and taken up again leaves the backlog as it was.
proof fn lemma_put_back(s: Peer, seen: Peer, t: Peer, c: ParkedCmd)
    requires
        s.link is Some,
        s.parked.q.len() > 0,
        c == s.parked.q[0],
        seen == s.taken_up(),
        t == seen.park_front(c),
        c.weight() > 0,
        seen.over(c.weight()),
    ensures
        t.parked.q.len() > 0,
        t.parked.q[0] == c,
        t.unparked().over(c.weight()) || !t.link->0.room(),
{
    assert(t.parked.q.drop_first() =~= seen.parked.q);
}

/// A key exchange is due when it was asked for, or when enough bytes or enough
/// time have gone by under the keys in force; and never where the algorithm
/// needs none.
pub proof fn law_rekey_is_due(s: Peer)
    requires
        s.common.enc is Some,
        s.link is Some,
        s.now >= s.common.enc->0.keys.last_rekey,
    ensures
        ({
            let k = s.common.enc->0.keys;
            s.rekey_due() <==> !k.kex.skip_exchange && (s.st().rekey_wanted || s.link->0.cipher_bytes
                >= s.config.limits.max_bytes || s.now - k.last_rekey >= s.config.limits.max_millis)
        }),
        s.common.enc->0.keys.kex.skip_exchange ==> s.rekey_noted() == s,
        !s.common.enc->0.keys.kex.skip_exchange ==> !s.rekey_noted().st().rekey_wanted,
{
}

/// A flush begins an exchange that is due, and only then; one that is under way
/// is left alone.
pub proof fn law_due_exchange_begins(s: Peer, due: bool)
    requires
        s.common.enc matches Some(e) && e.keys.exchange is Some,
        s.install is None,
        s.offer is Some,
    ensures
        due && s.kex == SessionKexState::Idle && s.begun_if(due).1 is Ok ==> s.begun_if(due).0.kex
            == SessionKexState::InProgress && s.begun_if(due).0.offer is None && s.begun_if(
            due,
        ).0.common.enc->0.keys.exchange is None,
        !due || s.kex != SessionKexState::Idle ==> s.begun_if(due) == (s, Ok::<(), Error>(())),
{
    reveal(Peer::begun_if);
    reveal(Peer::begun);
    reveal(Peer::kexinit_sent);
    if due && s.kex == SessionKexState::Idle {
        let e = s.common.enc->0;
        let t = Peer {
            offer: None,
            kex: SessionKexState::InProgress,
            common: Common {
                enc: Some(
                    crate::common_session::Enc {
                        keys: crate::common_session::Keys { exchange: None, ..e.keys },
                        ..e
                    },
                ),
                ..s.common
            },
            ..s
        };
        flush::lemma_retried_keeps(t);
    }
}

/// Where no writer runs, a flush writes every staged packet to the packet
/// buffer, in order, and leaves none staged.
pub proof fn law_flush_without_writer_writes_all(s: Peer)
    requires
        s.common.enc is Some,
        s.link is None,
        s.parked.q.len() == 0,
        s.kex != SessionKexState::Idle,
    ensures
        s.flushed().1 is Ok,
        s.flushed().0.common.sink == s.common.sink.all(wire::packets(s.unsent())),
        s.flushed().0.unsent().len() == 0,
        s.flushed().0.st().channels == s.st().channels,
{
    reveal(Peer::flushed);
    reveal(Peer::flushed_here);
    reveal(Peer::begun_if);
    assert(s.flushed().0.unsent() =~= Seq::empty());
}

/// Where no writer runs, a flush begins an exchange when it was asked for or
/// enough bytes have gone out under the keys in force.
pub proof fn law_flush_without_writer_begins_what_is_due(s: Peer)
    requires
        s.common.enc matches Some(e) && e.keys.exchange is Some,
        s.link is None,
        s.parked.q.len() == 0,
        s.kex == SessionKexState::Idle,
        s.install is None,
        s.offer matches Some(k) && k.len() > 0,
    ensures
        ({
            let sink = s.common.sink.all(wire::packets(s.unsent()));
            let due = !s.common.enc->0.keys.kex.skip_exchange && (s.st().rekey_wanted || sink.bytes
                >= s.config.limits.max_bytes);
            let t = s.flushed().0;
            &&& s.flushed().1 is Ok
            &&& due ==> t.kex == SessionKexState::InProgress && t.common.sink == sink.packet(
                s.offer->0,
            )
            &&& !due ==> t.kex == SessionKexState::Idle && t.common.sink == sink && t.offer
                == s.offer
            &&& t.unsent().len() == 0
        }),
{
    reveal(Peer::flushed);
    reveal(Peer::flushed_here);
    reveal(Peer::begun_if);
    reveal(Peer::begun);
    reveal(Peer::kexinit_sent);
    assert(s.flushed().0.unsent() =~= Seq::empty());
}

/// Every round in which data left counts towards the next boost, and no other
/// does.
pub proof fn law_rounds_are_counted(s: Peer)
    requires
        s.sched.since_boost < u32::MAX,
        s.regular_round().1 is Ok,
    ensures
        s.regular_round().1 == Ok::<bool, Error>(true) ==> s.regular_round().0.sched.since_boost
            == s.sched.since_boost + 1,
        s.regular_round().1 == Ok::<bool, Error>(false) ==> s.regular_round().0.sched.since_boost
            == s.sched.since_boost,
        s.regular_round().1 == Ok::<bool, Error>(s.served_regularly().len() > 0),
{
    reveal(Peer::regular_round);
    let ready = s.ready();
    if ready.len() > 0 {
        let start = schedule::start_of(ready, s.sched.next);
        lemma_progress(s, ready, start, 0, false, None);
    }
}

/// A round has let data out where it has served a channel.
proof fn lemma_progress(
    s: Peer,
    ready: Seq<u32>,
    start: int,
    i: int,
    progressed: bool,
    last: Option<u32>,
)
    ensures
        s.passed(ready, start, i, progressed, last).peer.sched.since_boost == s.sched.since_boost,
        s.passed(ready, start, i, progressed, last).result is Ok ==> (s.passed(
            ready,
            start,
            i,
            progressed,
            last,
        ).progressed <==> progressed || s.served(ready, start, i).len() > 0),
    decreases ready.len() - i,
{
    if i < ready.len() {
        let id = ready[(start + i) % (ready.len() as int)];
        if s.sched.debt == Some(id) {
            lemma_progress(s, ready, start, i + 1, progressed, last);
        } else {
            schedule::lemma_channel_drained_windows(s, id);
            let (t, r) = s.channel_drained(id);
            if r is Ok && r->Ok_0 > 0 {
                lemma_progress(t.emit_seen(id, false), ready, start, i + 1, true, Some(id));
            }
        }
    }
}

} // verus!
