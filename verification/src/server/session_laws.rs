//! What holds of a session whatever happens in it.
use vstd::prelude::*;

use crate::error::Error;
use crate::server::delivery::{InboundDelivery, Place};
use crate::server::flush;
use crate::server::inbound::{Inbound, Item};
use crate::server::install;
use crate::server::parked::ParkedCmd;
use crate::server::pipeline;
use crate::server::pipeline::WINDOW_ADJUST_RESERVATION;
use crate::server::schedule;
use crate::server::session::{App, KexAfterInstall, Peer, Phase, Sess, BOOST_PERIOD};
use crate::server::writer;
use crate::server::writer::{Cmd, Link, OutboundEpoch};
use crate::server::writer_task;
use crate::session::Staging;
use crate::wire;
use crate::wire::WIRE_OVERHEAD_PER_PACKET;

verus! {

/// An install completes exactly when the outbound key is in, the peer is done
/// and, where a reader runs, the inbound key is in.
pub proof fn law_install_completes_when_all_is_in(s: Peer)
    ensures
        s.finalized().1 is Some <==> (s.install matches Some(p) && p.phase == Phase::InstallAcked
            && p.after is Some && (s.reader is None || p.inbound_acked)),
        s.finalized().1 is Some ==> s.finalized().0.install is None && s.finalized().1
            == s.install->0.after,
        s.finalized().1 is None ==> s.finalized().0 == s,
{
}

/// It does not matter whether the writer's answer or the peer's end of the
/// exchange comes first: the later of the two completes the install.
pub proof fn law_ack_and_done_commute(s: Peer, after: KexAfterInstall)
    requires
        s.install matches Some(p) && p.phase == Phase::WaitingAck && p.after is None && (
        s.reader is None || p.inbound_acked),
    ensures
        ({
            let g = s.install->0.generation;
            let (ack_first, a) = s.outbound_acked(g);
            let (done_first, d) = s.peer_done(after);
            &&& a is None
            &&& d is None
            &&& ack_first.peer_done(after) == done_first.outbound_acked(g)
            &&& ack_first.peer_done(after).1 == Some(after)
            &&& ack_first.peer_done(after).0.install is None
        }),
{
}

/// Where a reader runs, its answer is waited for as well, and it does not
/// matter when it comes.
pub proof fn law_inbound_ack_is_waited_for(s: Peer, after: KexAfterInstall)
    requires
        s.install matches Some(p) && p.phase == Phase::InstallAcked && p.after is None
            && !p.inbound_acked,
        s.reader is Some,
    ensures
        ({
            let g = s.install->0.generation;
            &&& s.peer_done(after).1 is None
            &&& s.inbound_acked(g).1 is None
            &&& s.peer_done(after).0.inbound_acked(g).1 == Some(after)
            &&& s.inbound_acked(g).0.peer_done(after) == s.peer_done(after).0.inbound_acked(g)
        }),
{
}

/// Answers for another generation change nothing.
pub proof fn law_other_generations_change_nothing(s: Peer, generation: u64)
    requires
        s.install matches Some(p) ==> p.generation != generation,
    ensures
        s.outbound_acked(generation) == (s, None::<KexAfterInstall>),
        s.inbound_acked(generation) == (s, None::<KexAfterInstall>),
{
}

/// A second install never takes the place of one that is open.
pub proof fn law_open_install_is_kept(
    s: Peer,
    payloads: Seq<Seq<u8>>,
    epoch: OutboundEpoch,
    after: Option<KexAfterInstall>,
)
    requires
        s.install is Some,
    ensures
        s.registered(payloads, epoch, after).install == s.install,
        s.registered(payloads, epoch, after).cause is Some,
        s.begun().1 is Err,
{
    reveal(Peer::begun);
    reveal(Peer::kexinit_sent);
}

/// A new key never overtakes a command that was parked before it: as long as
/// one is left, the install waits.
pub proof fn law_install_waits_for_parked_commands(s: Peer)
    requires
        s.waits_to_submit(),
        s.retried().1 is Ok,
        s.retried().0.parked.q.len() > 0,
    ensures
        s.advanced().install == s.install,
        s.advanced() == s.retried().0,
{
    reveal(Peer::advanced);
    reveal(Peer::install_handed);
    flush::lemma_retried_keeps(s);
}

/// Handing parked commands over keeps their order: what is left is the end of
/// what there was.
pub proof fn law_parked_commands_keep_their_order(s: Peer)
    requires
        s.retried().1 is Ok,
    ensures
        exists|k: int|
            0 <= k <= s.parked.q.len() && s.retried().0.parked.q == #[trigger] s.parked.q.skip(k),
    decreases s.parked.q.len(),
{
    let q = s.parked.q;
    if q.len() == 0 {
        assert(q.skip(0) =~= q);
    } else {
        let c = q[0];
        match s.link {
            None => {
                let next = s.unparked().done_here(c);
                law_parked_commands_keep_their_order(next);
                let k = choose|k: int|
                    0 <= k <= next.parked.q.len() && next.retried().0.parked.q
                        == #[trigger] next.parked.q.skip(k);
                assert(next.parked.q.skip(k) =~= q.skip(k + 1));
            },
            Some(_) => {
                let rest = s.taken_up();
                let l = rest.link->0;
                let next = Peer { link: Some(Peer::offer_link(l, c)), ..rest };
                if !(c.weight() > 0 && rest.over(c.weight())) && Peer::link_takes(l, c) {
                    law_parked_commands_keep_their_order(next);
                    let k = choose|k: int|
                        0 <= k <= next.parked.q.len() && next.retried().0.parked.q
                            == #[trigger] next.parked.q.skip(k);
                    assert(next.parked.q.skip(k) =~= q.skip(k + 1));
                } else {
                    assert(seq![c] + q.drop_first() =~= q.skip(0));
                }
            },
        }
    }
}

/// A command of the writer's queue as it was submitted; empty payloads, and
/// what is not submitted this way, leave no trace.
pub open spec fn as_submitted(c: Cmd) -> Seq<ParkedCmd> {
    match c {
        Cmd::SealPayload(p) => kept(ParkedCmd::SealPayload(p)),
        Cmd::SealRaw(p) => kept(ParkedCmd::SealRaw(p)),
        Cmd::InitOutboundCompress { compression, .. } => seq![
            ParkedCmd::InitOutboundCompress(compression),
        ],
        _ => Seq::empty(),
    }
}

/// A command that has something to do.
pub open spec fn kept(c: ParkedCmd) -> Seq<ParkedCmd> {
    match c {
        ParkedCmd::SealPayload(p) if p.len() == 0 => Seq::empty(),
        ParkedCmd::SealRaw(p) if p.len() == 0 => Seq::empty(),
        _ => seq![c],
    }
}

/// The commands of the writer's queue as they were submitted, in order.
pub open spec fn queue_line(q: Seq<Cmd>) -> Seq<ParkedCmd>
    decreases q.len(),
{
    if q.len() == 0 {
        Seq::empty()
    } else {
        queue_line(q.drop_last()) + as_submitted(q.last())
    }
}

/// The parked commands that have something to do, in order.
pub open spec fn parked_line(q: Seq<ParkedCmd>) -> Seq<ParkedCmd>
    decreases q.len(),
{
    if q.len() == 0 {
        Seq::empty()
    } else {
        kept(q[0]) + parked_line(q.drop_first())
    }
}

/// The staged packets as commands, in order.
pub open spec fn staged_line(ps: Seq<Seq<u8>>) -> Seq<ParkedCmd>
    decreases ps.len(),
{
    if ps.len() == 0 {
        Seq::empty()
    } else {
        kept(ParkedCmd::SealRaw(ps[0])) + staged_line(ps.drop_first())
    }
}

impl Peer {
    /// What has been submitted, in order: first what the writer has, then what
    /// is parked.
    pub open spec fn line(self) -> Seq<ParkedCmd> {
        queue_line(self.link->0.bulk) + parked_line(self.parked.q)
    }
}

/// One more command at the end of the writer's queue.
proof fn lemma_queue_line_push(q: Seq<Cmd>, c: Cmd)
    ensures
        queue_line(q.push(c)) == queue_line(q) + as_submitted(c),
{
    assert(q.push(c).drop_last() =~= q);
}

/// One more parked command at the end.
proof fn lemma_parked_line_push(q: Seq<ParkedCmd>, c: ParkedCmd)
    ensures
        parked_line(q.push(c)) == parked_line(q) + kept(c),
    decreases q.len(),
{
    if q.len() == 0 {
        assert(q.push(c).drop_first() =~= Seq::empty());
        assert(parked_line(q.push(c)) =~= kept(c) + parked_line(Seq::empty()));
        assert(parked_line(q.push(c)) =~= parked_line(q) + kept(c));
    } else {
        lemma_parked_line_push(q.drop_first(), c);
        assert(q.push(c).drop_first() =~= q.drop_first().push(c));
        assert(parked_line(q.push(c)) =~= kept(q[0]) + parked_line(q.drop_first().push(c)));
        assert(parked_line(q.push(c)) =~= parked_line(q) + kept(c));
    }
}

/// A command that the writer takes stands at the end of its queue.
proof fn lemma_offer_line(l: Link, c: ParkedCmd)
    requires
        Peer::link_takes(l, c),
    ensures
        queue_line(Peer::offer_link(l, c).bulk) == queue_line(l.bulk) + kept(c),
{
    match c {
        ParkedCmd::SealPayload(p) => {
            lemma_queue_line_push(l.bulk, Cmd::SealPayload(p));
            assert(queue_line(l.bulk) + Seq::<ParkedCmd>::empty() =~= queue_line(l.bulk));
        },
        ParkedCmd::SealRaw(p) => {
            lemma_queue_line_push(l.bulk, Cmd::SealRaw(p));
            assert(queue_line(l.bulk) + Seq::<ParkedCmd>::empty() =~= queue_line(l.bulk));
        },
        ParkedCmd::InitOutboundCompress(m) => {
            lemma_queue_line_push(
                l.bulk,
                Cmd::InitOutboundCompress { compression: m, ack: l.next_ack },
            );
        },
    }
}

/// A command that the writer does not take leaves its queue alone.
proof fn lemma_refused_offer_line(l: Link, c: ParkedCmd)
    requires
        !Peer::link_takes(l, c),
    ensures
        Peer::offer_link(l, c).bulk == l.bulk,
{
}

/// Handing parked commands over loses none, repeats none and changes no order.
pub proof fn law_retrying_keeps_the_line(s: Peer)
    requires
        s.link is Some,
        s.retried().1 is Ok,
    ensures
        s.retried().0.line() == s.line(),
    decreases s.parked.q.len(),
{
    if s.parked.q.len() > 0 {
        let c = s.parked.q[0];
        let rest = s.taken_up();
        let l = rest.link->0;
        let next = Peer { link: Some(Peer::offer_link(l, c)), ..rest };
        assert(l.bulk == s.link->0.bulk);
        if c.weight() > 0 && rest.over(c.weight()) {
            assert(seq![c] + s.parked.q.drop_first() =~= s.parked.q);
        } else if Peer::link_takes(l, c) {
            lemma_offer_line(l, c);
            law_retrying_keeps_the_line(next);
            assert((queue_line(l.bulk) + kept(c)) + parked_line(rest.parked.q) =~= queue_line(
                l.bulk,
            ) + (kept(c) + parked_line(rest.parked.q)));
        } else {
            lemma_refused_offer_line(l, c);
            assert(seq![c] + s.parked.q.drop_first() =~= s.parked.q);
        }
    }
}

/// A new command goes to the end of everything submitted before it.
pub proof fn law_submissions_keep_their_order(s: Peer, c: ParkedCmd)
    requires
        s.link is Some,
        s.submitted(c).1 is Ok,
    ensures
        s.submitted(c).0.line() == s.line() + kept(c),
{
    let (a, r) = s.retried();
    flush::lemma_retried_keeps(s);
    law_retrying_keeps_the_line(s);
    let l = a.link->0;
    let q = queue_line(l.bulk);
    if a.parked.q.len() > 0 {
        lemma_parked_line_push(a.parked.q, c);
        assert(q + (parked_line(a.parked.q) + kept(c)) =~= (q + parked_line(a.parked.q)) + kept(c));
    } else {
        assert(q + parked_line(a.parked.q) =~= q);
        if Peer::link_takes(l, c) {
            lemma_offer_line(l, c);
            assert((q + kept(c)) + parked_line(a.parked.q) =~= q + kept(c));
        } else {
            lemma_refused_offer_line(l, c);
            lemma_parked_line_push(a.parked.q, c);
            assert(parked_line(a.parked.q) + kept(c) =~= kept(c));
        }
    }
}

/// The first staged packet handed on stands at the end of what has been
/// submitted.
pub proof fn lemma_handed_line(s: Peer)
    requires
        s.common.enc is Some,
        s.link is Some,
        s.parked.q.len() == 0,
        s.unsent().len() > 0,
        s.hand_step(false).1 is Ok,
    ensures
        s.hand_step(false).0.line() == s.line() + kept(ParkedCmd::SealRaw(s.st().first_packet())),
{
    reveal(Peer::hand_step);
    let c = ParkedCmd::SealRaw(s.st().first_packet());
    let a = s.with_st(s.st().advanced());
    let l = s.link->0;
    let q = queue_line(l.bulk);
    let t = s.hand_step(false).0;
    assert(q + parked_line(s.parked.q) =~= q);
    assert(parked_line(s.parked.q.push(c)) =~= kept(c)) by {
        lemma_parked_line_push(s.parked.q, c);
    }
    if !a.over(c.weight()) && Peer::link_takes(l, c) {
        lemma_offer_line(l, c);
        assert(t.line() =~= q + kept(c));
    } else {
        if !Peer::link_takes(l, c) {
            lemma_refused_offer_line(l, c);
        }
        assert(t.line() =~= q + kept(c));
    }
}

/// Handing staged packets on loses none, repeats none and changes no order:
/// what has been submitted and what is still staged, taken together, stays the
/// same.
pub proof fn law_handing_on_keeps_the_packets(s: Peer, hold: bool)
    requires
        s.ok(),
        s.common.enc is Some,
        s.st().write.len() <= usize::MAX,
        s.link is Some,
        s.handed_on(hold).1 is Ok,
    ensures
        s.handed_on(hold).0.line() + staged_line(wire::packets(s.handed_on(hold).0.unsent()))
            == s.line() + staged_line(wire::packets(s.unsent())),
    decreases s.unsent().len(),
{
    reveal(Staging::ok);
    reveal(Peer::hand_step);
    let (t, r) = s.hand_step(hold);
    let rest = s.unsent();
    if s.parked.q.len() > 0 || rest.len() == 0 || (hold && s.st().head_is_held()) {
    } else {
        wire::lemma_first_frame(rest);
        let p = s.st().first_packet();
        let c = ParkedCmd::SealRaw(p);
        let a = s.with_st(s.st().advanced());
        assert(a.st().unsent() =~= rest.skip(wire::frame_len(rest)));
        assert(a.ok());
        assert(wire::packets(rest) =~= seq![p] + wire::packets(a.unsent()));
        assert(wire::packets(rest).drop_first() =~= wire::packets(a.unsent()));
        let tail = staged_line(wire::packets(a.unsent()));
        assert(staged_line(wire::packets(rest)) == kept(c) + tail);
        lemma_handed_line(s);
        assert(t.unsent() == a.unsent());
        assert((s.line() + kept(c)) + tail =~= s.line() + (kept(c) + tail));
        if r == Ok::<bool, Error>(true) {
            law_handing_on_keeps_the_packets(t, hold);
        }
    }
}

/// While something is parked, a new command goes behind it.
pub proof fn law_new_commands_queue_behind_parked_ones(s: Peer, c: ParkedCmd)
    requires
        s.retried().1 is Ok,
        s.retried().0.parked.q.len() > 0,
    ensures
        s.submitted(c).1 is Ok,
        s.submitted(c).0.parked.q == s.retried().0.parked.q.push(c),
        s.submitted(c).0 == s.retried().0.park(c),
{
}

/// A payload weighs the same in the writer's queue and parked: whether it is
/// taken or parked, the backlog grows by its weight.
pub proof fn law_parking_is_a_transfer(s: Peer, p: Seq<u8>)
    requires
        p.len() > 0,
        s.link matches Some(l) && !l.closed && l.pending_bytes + writer::reservation(p.len())
            <= usize::MAX,
        s.parked.bytes + writer::reservation(p.len()) <= usize::MAX,
    ensures
        s.submit_now(ParkedCmd::SealRaw(p)).0.backlog() == wire::sat(
            (s.link->0.pending_bytes + s.parked.bytes + pipeline::wire_weight(s.unsent()) + (
            match s.install {
                Some(i) => i.need() as int,
                None => 0,
            }) + writer::reservation(p.len())) as nat,
        ),
{
    let c = ParkedCmd::SealRaw(p);
    let l = s.link->0;
    let t = s.submit_now(c).0;
    assert(t.unsent() == s.unsent());
    assert(t.install == s.install);
    if !l.room() {
        assert(l.offered_payload(p, true).pending_bytes == l.pending_bytes);
    }
}

/// A staged packet weighs what it will weigh as a command, so that handing it
/// on leaves the backlog as it is.
pub proof fn law_staged_packet_weighs_its_reservation(st: Staging)
    requires
        st.ok(),
        st.unsent().len() > 0,
        st.write.len() <= usize::MAX,
        st.first_packet().len() + WIRE_OVERHEAD_PER_PACKET <= usize::MAX,
    ensures
        pipeline::wire_weight(st.unsent()) == writer::reservation(st.first_packet().len())
            + pipeline::wire_weight(st.advanced().unsent()),
{
    reveal(Staging::ok);
    let rest = st.unsent();
    wire::lemma_first_frame(rest);
    assert(st.advanced().unsent() =~= rest.skip(wire::frame_len(rest)));
}

/// A budget never reaches beyond the cap; close to it, room is left for a
/// WINDOW_ADJUST.
pub proof fn law_budget_stays_below_the_cap(s: Peer, max_packet: u32, framing: usize)
    requires
        s.backlog() <= Peer::cap_for(max_packet, framing),
    ensures
        s.backlog() + s.budget(max_packet, framing) <= Peer::cap_for(max_packet, framing),
        Peer::cap_for(max_packet, framing) - s.backlog() <= max_packet && s.budget(
            max_packet,
            framing,
        ) > 0 ==> s.backlog() + s.budget(max_packet, framing) + WINDOW_ADJUST_RESERVATION
            <= Peer::cap_for(max_packet, framing),
{
}

/// The data that a budget allows costs no more than the budget.
pub proof fn law_payload_costs_at_most_the_budget(
    budget: usize,
    max_packet: u32,
    framing: usize,
    x: nat,
)
    ensures
        ({
            let n = schedule::largest_payload(budget, max_packet, framing, x);
            n <= x && (n > 0 ==> pipeline::data_cost(n, max_packet, framing) <= budget)
        }),
    decreases x,
{
    if x > 0 && pipeline::data_cost(x, max_packet, framing) > budget {
        law_payload_costs_at_most_the_budget(budget, max_packet, framing, (x - 1) as nat);
    }
}

/// An admitted reply leaves the backlog below the cap.
pub proof fn law_admitted_replies_stay_below_the_cap(s: Peer, weight: usize)
    requires
        s.admits(weight),
    ensures
        s.backlog() + weight < s.hard_cap() || s.hard_cap() == usize::MAX,
        s.backlog() < s.hard_cap(),
{
}

/// Closing a channel for its backlog leaves every other channel as it is.
pub proof fn law_cap_closes_only_its_channel(s: Sess, id: u32, other: u32)
    requires
        other != id,
    ensures
        s.cap_enforced(id).peer.lane(other) == s.peer.lane(other),
        s.cap_enforced(id).app.channels.contains_key(other) == s.app.channels.contains_key(other),
        s.cap_enforced(id).app.inbound.contains_key(other) == s.app.inbound.contains_key(other),
        s.cap_enforced(id).app.acks.contains_key(other) == s.app.acks.contains_key(other),
        s.cap_enforced(id).app.deferred.contains(other) == s.app.deferred.contains(other),
{
    reveal(Sess::cap_enforced);
}

/// Tearing a channel down leaves nothing of it behind.
pub proof fn law_closed_channel_is_forgotten(s: Sess, id: u32)
    ensures
        s.close_finalized(id).peer.lane(id) is None,
        !s.close_finalized(id).app.channels.contains_key(id),
        !s.close_finalized(id).app.inbound.contains_key(id),
        !s.close_finalized(id).app.acks.contains_key(id),
        !s.close_finalized(id).app.deferred.contains(id),
        s.close_finalized(id).peer.reader matches Some(r) ==> !r.lanes.contains_key(id),
{
}

/// The producers of a channel whose backlog is thrown away learn that their
/// bytes did not go out.
pub proof fn law_discarded_producers_fail(s: Sess, id: u32, i: int)
    requires
        s.app.acks.contains_key(id),
        0 <= i < s.app.acks[id].len(),
    ensures
        s.outbound_discarded(id).app.released.contains((s.app.acks[id][i], false)),
        !s.outbound_discarded(id).app.acks.contains_key(id),
{
    let r = s.outbound_discarded(id).app.released;
    assert(r[s.app.released.len() + i] == (s.app.acks[id][i], false));
}

/// Once a channel's outbound side is torn down, the data packets that the
/// writer still holds for it are dropped there; its CLOSE is not.
pub proof fn law_discard_reaches_the_writer(s: Peer, id: u32, p: Seq<u8>)
    requires
        s.link is Some,
        s.accepts_ctrl(id),
        p.len() >= 5,
        wire::be_value(p.subrange(1, 5)) == s.lane(id)->0.recipient_channel,
    ensures
        writer_task::droppable(p[0]) && p[0] != crate::msg::CHANNEL_CLOSE
            ==> writer_task::should_drop(p, s.discarded(id).link->0.tombstone),
        p[0] == crate::msg::CHANNEL_CLOSE ==> !writer_task::should_drop(
            p,
            s.discarded(id).link->0.tombstone,
        ),
{
}

/// A round does not count towards a boost before it is over.
proof fn lemma_passed_keeps_count(
    s: Peer,
    ready: Seq<u32>,
    start: int,
    i: int,
    progressed: bool,
    last: Option<u32>,
)
    ensures
        s.passed(ready, start, i, progressed, last).peer.sched.since_boost == s.sched.since_boost,
    decreases ready.len() - i,
{
    if i < ready.len() {
        let id = ready[(start + i) % (ready.len() as int)];
        if s.sched.debt == Some(id) {
            lemma_passed_keeps_count(s, ready, start, i + 1, progressed, last);
        } else {
            schedule::lemma_channel_drained_windows(s, id);
            let (t, r) = s.channel_drained(id);
            if r is Ok && r->Ok_0 > 0 {
                lemma_passed_keeps_count(
                    t.emit_seen(id, false),
                    ready,
                    start,
                    i + 1,
                    true,
                    Some(id),
                );
            }
        }
    }
}

/// Boosts are rare: none comes before enough regular rounds have passed since
/// the last one, and a regular round counts at most once, and only where data
/// left in it.
pub proof fn law_boosts_are_spaced(s: Peer)
    ensures
        s.sched.since_boost < BOOST_PERIOD ==> s.boosted() == (s, Ok::<(), Error>(())),
        s.regular_round().0.sched.since_boost <= s.sched.since_boost + 1,
        s.regular_round().1 == Ok::<bool, Error>(false)
            ==> s.regular_round().0.sched.since_boost == s.sched.since_boost,
{
    reveal(Peer::boosted);
    reveal(Peer::regular_round);
    let ready = s.ready();
    lemma_passed_keeps_count(
        s,
        ready,
        schedule::start_of(ready, s.sched.next),
        0,
        false,
        None,
    );
}

/// No grant goes out for a channel that is closing, and none while the backlog
/// is at the high watermark.
pub proof fn law_no_grant_when_closing_or_full(s: Sess, id: u32)
    requires
        !s.peer.accepts_ctrl(id) || s.peer.backlog()
            >= crate::sshbuffer::OUTBOUND_HIGH_WATERMARK,
    ensures
        !s.granted(id).1,
        s.granted(id).0.peer == s.peer || s.granted(id).0.peer == s.peer.sampled(),
{
    reveal(Sess::granted);
}

/// Payload bytes of queued items.
pub open spec fn total_size(q: Seq<Item>) -> nat
    decreases q.len(),
{
    if q.len() == 0 {
        0
    } else {
        q[0].size() + total_size(q.drop_first())
    }
}

/// Items that carry nothing.
pub open spec fn marks(q: Seq<Item>) -> nat
    decreases q.len(),
{
    if q.len() == 0 {
        0
    } else {
        (if q[0].is_payload() {
            0nat
        } else {
            1nat
        }) + marks(q.drop_first())
    }
}

impl Inbound {
    /// The count is exact and within the cap, no payload is empty, and EOF and
    /// CLOSE are there at most once each.
    pub open spec fn sound(self, cap: usize) -> bool {
        &&& self.pending_bytes == total_size(self.queue)
        &&& self.pending_bytes <= cap
        &&& forall|i: int|
            0 <= i < self.queue.len() && (#[trigger] self.queue[i]).is_payload()
                ==> self.queue[i].size() > 0
        &&& marks(self.queue) <= (if self.eof_queued {
            1int
        } else {
            0
        }) + (if self.close_queued {
            1int
        } else {
            0
        })
    }
}

/// One more item at the end.
proof fn lemma_queue_push(q: Seq<Item>, i: Item)
    ensures
        total_size(q.push(i)) == total_size(q) + i.size(),
        marks(q.push(i)) == marks(q) + (if i.is_payload() {
            0nat
        } else {
            1nat
        }),
    decreases q.len(),
{
    if q.len() == 0 {
        assert(q.push(i).drop_first() =~= Seq::empty());
        assert(total_size(Seq::<Item>::empty()) == 0);
        assert(marks(Seq::<Item>::empty()) == 0);
    } else {
        lemma_queue_push(q.drop_first(), i);
        assert(q.push(i).drop_first() =~= q.drop_first().push(i));
    }
}

/// A queue of non-empty payloads and few marks is no longer than its bytes and
/// marks together.
proof fn lemma_queue_len(q: Seq<Item>)
    requires
        forall|i: int| 0 <= i < q.len() && (#[trigger] q[i]).is_payload() ==> q[i].size() > 0,
    ensures
        q.len() <= total_size(q) + marks(q),
    decreases q.len(),
{
    if q.len() > 0 {
        assert forall|i: int| 0 <= i < q.drop_first().len() && (
        #[trigger] q.drop_first()[i]).is_payload() implies q.drop_first()[i].size() > 0 by {
            assert(q.drop_first()[i] == q[i + 1]);
        }
        lemma_queue_len(q.drop_first());
    }
}

/// Whatever comes in, a channel's queue stays within the cap, also in its
/// length: items that carry nothing cannot make it grow.
pub proof fn law_inbound_queue_is_bounded(a: App, cap: usize, id: u32, item: Item, place: Place)
    requires
        a.inbound.contains_key(id) ==> a.inbound[id].sound(cap),
        item.size() <= usize::MAX,
    ensures
        ({
            let b = a.delivered(cap, id, item, place).0;
            b.inbound.contains_key(id) ==> b.inbound[id].sound(cap) && b.inbound[id].queue.len()
                <= cap + 2
        }),
{
    let b = a.delivered(cap, id, item, place).0;
    if b.inbound.contains_key(id) {
        if a.inbound.contains_key(id) {
            lemma_queue_push(a.inbound[id].queue, item);
        } else {
            let q = Inbound::started(item, a.inbound_generation);
            assert(q.queue.drop_first() =~= Seq::empty());
            reveal_with_fuel(total_size, 2);
            reveal_with_fuel(marks, 2);
        }
        lemma_queue_len(b.inbound[id].queue);
    }
}

/// Delivering the first item keeps the queue sound.
pub proof fn law_delivery_keeps_the_queue_sound(q: Inbound, cap: usize)
    requires
        q.sound(cap),
        q.queue.len() > 0,
    ensures
        q.popped().sound(cap),
{
    let t = q.queue.drop_first();
    assert forall|i: int| 0 <= i < t.len() && (#[trigger] t[i]).is_payload() implies t[i].size()
        > 0 by {
        assert(t[i] == q.queue[i + 1]);
    }
}

/// Items reach the application in the order in which they came in.
pub proof fn law_inbound_order_is_kept(a: App, cap: usize, id: u32, item: Item, place: Place)
    requires
        a.inbound.contains_key(id),
        a.delivered(cap, id, item, place).0.inbound[id] != a.inbound[id],
    ensures
        a.delivered(cap, id, item, place).1 == InboundDelivery::Queued,
        a.delivered(cap, id, item, place).0.inbound[id].queue == a.inbound[id].queue.push(item),
{
}

/// What overflows one channel changes nothing, there or elsewhere.
pub proof fn law_overflow_changes_nothing(a: App, cap: usize, id: u32, item: Item, place: Place)
    requires
        a.delivered(cap, id, item, place).1 == InboundDelivery::Overflow,
    ensures
        a.delivered(cap, id, item, place).0 == a,
{
}

/// The packets that were kept during a key exchange come back whole, in the
/// order in which they came in, and keeping them touches nothing else.
pub proof fn law_kept_packets_come_back_in_order(a: App, ps: Seq<Seq<u8>>)
    ensures
        a.reads_kept(ps).pending_reads == a.pending_reads + ps,
        a.reads_kept(ps).reads_taken() == a.reads_taken(),
    decreases ps.len(),
{
    if ps.len() > 0 {
        law_kept_packets_come_back_in_order(a, ps.drop_last());
        assert((a.pending_reads + ps.drop_last()).push(ps.last()) =~= a.pending_reads + ps);
    } else {
        assert(a.pending_reads + ps =~= a.pending_reads);
    }
}

/// The end of a wait that belongs to an earlier queue changes nothing.
pub proof fn law_stale_waits_change_nothing(s: Sess, id: u32, generation: u64, ok: bool)
    requires
        s.app.inbound.contains_key(id) ==> s.app.inbound[id].generation != generation,
    ensures
        s.pumped(id, generation, ok) == s,
{
}

} // verus!
