//! What holds of the data that a session lets out: none leaves during a key
//! exchange, moving it on keeps the backlog as it is, and a packet of it leaves
//! the backlog within the cap.
use vstd::prelude::*;

use crate::drain;
use crate::error::Error;
use crate::server::flush;
use crate::server::parked;
use crate::server::parked::ParkedCmd;
use crate::server::pipeline;
use crate::server::schedule;
use crate::server::session::Peer;
use crate::server::session_laws;
use crate::session::Staging;
use crate::staging_laws;
use crate::wire;
use crate::wire::WIRE_OVERHEAD_PER_PACKET;

verus! {

/// Between `s` and `t` exactly the first `k` staged packets were submitted, and
/// none of them carries application data.
pub open spec fn hands_on_no_data(s: Peer, t: Peer, k: int) -> bool {
    let ps = wire::packets(s.unsent());
    &&& 0 <= k <= ps.len()
    &&& t.line() == s.line() + session_laws::staged_line(ps.take(k))
    &&& forall|j: int|
        0 <= j < k && (#[trigger] ps[j]).len() > 0 ==> !flush::held_during_kex(ps[j][0])
}

/// One more packet at the front.
proof fn lemma_staged_cons(p: Seq<u8>, qs: Seq<Seq<u8>>)
    ensures
        session_laws::staged_line(seq![p] + qs) == session_laws::kept(ParkedCmd::SealRaw(p))
            + session_laws::staged_line(qs),
{
    assert((seq![p] + qs).drop_first() =~= qs);
}

/// What handing on one packet comes to.
proof fn lemma_one_handed_on(s: Peer)
    requires
        s.ok(),
        s.common.enc is Some,
        s.st().write.len() <= usize::MAX,
        s.link is Some,
        s.hand_step(true).1 is Ok,
        s.parked.q.len() == 0,
        s.unsent().len() > 0,
        !s.st().head_is_held(),
    ensures
        ({
            let t = s.hand_step(true).0;
            let p = s.st().first_packet();
            &&& t.ok()
            &&& t.common.enc is Some
            &&& t.st().write.len() <= usize::MAX
            &&& t.link is Some
            &&& t.line() == s.line() + session_laws::kept(ParkedCmd::SealRaw(p))
            &&& t.unsent().len() < s.unsent().len()
            &&& wire::packets(s.unsent()) == seq![p] + wire::packets(t.unsent())
            &&& p.len() > 0 ==> !flush::held_during_kex(p[0])
        }),
{
    reveal(Staging::ok);
    reveal(Peer::hand_step);
    let rest = s.unsent();
    wire::lemma_first_frame(rest);
    let a = s.with_st(s.st().advanced());
    let t = s.hand_step(true).0;
    assert(a.st().unsent() =~= rest.skip(wire::frame_len(rest)));
    assert(t.unsent() == a.unsent());
    assert(wire::packets(rest) =~= seq![s.st().first_packet()] + wire::packets(t.unsent()));
    session_laws::lemma_handed_line(s);
}

/// While a key exchange is under way, what is handed to the writer are the
/// first staged packets, and none of them carries application data.
pub proof fn law_no_data_is_handed_on_during_a_key_exchange(s: Peer)
    requires
        s.ok(),
        s.common.enc is Some,
        s.st().write.len() <= usize::MAX,
        s.link is Some,
        s.handed_on(true).1 is Ok,
    ensures
        exists|k: int| hands_on_no_data(s, s.handed_on(true).0, k),
    decreases s.unsent().len(),
{
    let (t, r) = s.hand_step(true);
    let end = s.handed_on(true).0;
    let ps = wire::packets(s.unsent());
    if s.parked.q.len() > 0 || s.unsent().len() == 0 || s.st().head_is_held() {
        reveal(Peer::hand_step);
        assert(ps.take(0) =~= Seq::empty());
        assert(s.line() + session_laws::staged_line(ps.take(0)) =~= s.line());
        assert(hands_on_no_data(s, end, 0));
    } else {
        lemma_one_handed_on(s);
        let p = s.st().first_packet();
        let qs = wire::packets(t.unsent());
        let k: int = if r == Ok::<bool, Error>(true) {
            law_no_data_is_handed_on_during_a_key_exchange(t);
            choose|k: int| hands_on_no_data(t, end, k)
        } else {
            assert(qs.take(0) =~= Seq::empty());
            assert(t.line() + session_laws::staged_line(qs.take(0)) =~= t.line());
            0
        };
        assert(hands_on_no_data(t, end, k));
        assert(ps.take(k + 1) =~= seq![p] + qs.take(k));
        lemma_staged_cons(p, qs.take(k));
        assert(end.line() =~= s.line() + session_laws::staged_line(ps.take(k + 1)));
        assert forall|j: int| 0 <= j < k + 1 && (#[trigger] ps[j]).len() > 0 implies
            !flush::held_during_kex(ps[j][0]) by {
            if j > 0 {
                assert(ps[j] == qs[j - 1]);
            }
        }
        assert(hands_on_no_data(s, end, k + 1));
    }
}

/// The data queued on a channel, none where there is no such channel.
pub open spec fn queued(s: Peer, id: u32) -> Seq<(Seq<u8>, Option<u32>)> {
    match s.lane(id) {
        Some(l) => l.data,
        None => Seq::empty(),
    }
}

proof fn lemma_fences_out_leave_data(s: Peer, ids: Seq<u32>, id: u32)
    ensures
        queued(s.fences_out(ids).0, id) == queued(s, id),
        s.fences_out(ids).0.blocked() == s.blocked(),
    decreases ids.len(),
{
    if ids.len() > 0 {
        let (t, r) = s.lane_flushed(ids[0], false);
        if s.common.enc is Some && s.st().channels.contains_key(ids[0]) {
            drain::lemma_fences_only(s.st().channels[ids[0]], drain::gate_open());
        }
        assert(queued(t, id) =~= queued(s, id));
        if r is Ok {
            lemma_fences_out_leave_data(t, ids.drop_first(), id);
        }
    }
}

/// While a key exchange is under way, the data that is queued on a channel
/// stays queued.
pub proof fn law_queued_data_waits_for_the_key_exchange(s: Peer, id: u32)
    requires
        s.blocked(),
    ensures
        queued(s.data_drained().0, id) == queued(s, id),
        queued(s.channel_drained(id).0, id) == queued(s, id),
{
    reveal(Peer::round);
    reveal(Peer::channel_drained);
    lemma_fences_out_leave_data(s, s.busy_channels(), id);
    lemma_fences_out_leave_data(s, seq![id], id);
    assert(seq![id].drop_first() =~= Seq::<u32>::empty());
    reveal_with_fuel(Peer::fences_out, 2);
}

/// Nothing on its way is counted twice or not at all: the backlog is the sum of
/// what its stages hold.
pub proof fn law_backlog_is_the_sum_of_its_parts(s: Peer)
    ensures
        s.backlog() == wire::sat(
            s.backlog_parts()[0] as nat + s.backlog_parts()[1] as nat + s.backlog_parts()[2] as nat
                + s.backlog_parts()[3] as nat,
        ),
{
}

/// The backlog without a machine limit.
pub open spec fn on_its_way(s: Peer) -> nat {
    (match s.link {
        Some(l) => l.pending_bytes as nat,
        None => 0,
    }) + s.parked.bytes as nat + pipeline::wire_weight(s.unsent()) + s.install_need() as nat
}

/// The command has a payload, or needs none.
pub open spec fn not_empty(c: ParkedCmd) -> bool {
    match c {
        ParkedCmd::SealPayload(p) => p.len() > 0,
        ParkedCmd::SealRaw(p) => p.len() > 0,
        ParkedCmd::InitOutboundCompress(_) => true,
    }
}

/// Nothing parked or staged is empty, and what is parked is counted exactly.
pub open spec fn counted(s: Peer) -> bool {
    &&& s.parked.exact()
    &&& forall|i: int| 0 <= i < s.parked.q.len() ==> #[trigger] not_empty(s.parked.q[i])
    &&& forall|i: int|
        0 <= i < wire::packets(s.unsent()).len() ==> (#[trigger] wire::packets(
            s.unsent(),
        )[i]).len() > 0
}

/// Handing parked commands over moves their weight to the writer: the backlog
/// stays as it is.
pub proof fn law_retrying_keeps_the_backlog(s: Peer)
    requires
        s.link is Some,
        counted(s),
        on_its_way(s) <= usize::MAX,
        s.retried().1 is Ok,
    ensures
        on_its_way(s.retried().0) == on_its_way(s),
        s.retried().0.backlog() == s.backlog(),
        counted(s.retried().0),
    decreases s.parked.q.len(),
{
    if s.parked.q.len() > 0 {
        let c = s.parked.q[0];
        let rest = s.taken_up();
        let l = rest.link->0;
        assert(rest.parked == s.parked.popped());
        assert(rest.unsent() == s.unsent());
        assert(not_empty(c));
        parked::law_parked_count_is_exact(s.parked, ParkedCmd::InitOutboundCompress(
            crate::sshbuffer::Compression::Plain,
        ));
        assert forall|i: int| 0 <= i < rest.parked.q.len() implies #[trigger] not_empty(
            rest.parked.q[i],
        ) by {
            assert(rest.parked.q[i] == s.parked.q[i + 1]);
            assert(not_empty(s.parked.q[i + 1]));
        }
        let next = Peer { link: Some(Peer::offer_link(l, c)), ..rest };
        if c.weight() > 0 && rest.over(c.weight()) {
            assert(rest.parked.pushed_front(c) == s.parked);
        } else if Peer::link_takes(l, c) {
            assert(counted(next));
            assert(on_its_way(next) == on_its_way(s));
            law_retrying_keeps_the_backlog(next);
        } else {
            assert(rest.parked.pushed_front(c) == s.parked);
        }
    }
}

/// Handing staged packets on moves their weight to the writer, or to what is
/// parked: the backlog stays as it is.
pub proof fn law_handing_on_keeps_the_backlog(s: Peer, hold: bool)
    requires
        s.ok(),
        s.common.enc is Some,
        s.st().write.len() <= usize::MAX,
        s.link is Some,
        counted(s),
        on_its_way(s) <= usize::MAX,
        s.handed_on(hold).1 is Ok,
    ensures
        on_its_way(s.handed_on(hold).0) == on_its_way(s),
        s.handed_on(hold).0.backlog() == s.backlog(),
        counted(s.handed_on(hold).0),
        s.handed_on(hold).0.ok(),
    decreases s.unsent().len(),
{
    let (t, r) = s.hand_step(hold);
    let stays = s.parked.q.len() > 0 || s.unsent().len() == 0 || (hold && s.st().head_is_held());
    if stays {
        reveal(Peer::hand_step);
    } else {
        lemma_hand_step_keeps_the_backlog(s, hold);
        if r == Ok::<bool, Error>(true) {
            law_handing_on_keeps_the_backlog(t, hold);
        }
    }
}

/// One packet handed on.
proof fn lemma_hand_step_keeps_the_backlog(s: Peer, hold: bool)
    requires
        s.ok(),
        s.common.enc is Some,
        s.st().write.len() <= usize::MAX,
        s.link is Some,
        counted(s),
        on_its_way(s) <= usize::MAX,
        s.hand_step(hold).1 is Ok,
        s.parked.q.len() == 0,
        s.unsent().len() > 0,
        !(hold && s.st().head_is_held()),
    ensures
        ({
            let t = s.hand_step(hold).0;
            &&& on_its_way(t) == on_its_way(s)
            &&& counted(t)
            &&& t.ok()
            &&& t.common.enc is Some
            &&& t.st().write.len() <= usize::MAX
            &&& t.link is Some
            &&& t.unsent().len() < s.unsent().len()
        }),
{
    reveal(Staging::ok);
    reveal(Peer::hand_step);
    let rest = s.unsent();
    wire::lemma_first_frame(rest);
    let a = s.with_st(s.st().advanced());
    let t = s.hand_step(hold).0;
    let p = s.st().first_packet();
    let c = ParkedCmd::SealRaw(p);
    assert(a.st().unsent() =~= rest.skip(wire::frame_len(rest)));
    assert(t.unsent() == a.unsent());
    let ps = wire::packets(rest);
    let qs = wire::packets(t.unsent());
    assert(ps[0].len() > 0);
    assert forall|i: int| 0 <= i < qs.len() implies (#[trigger] qs[i]).len() > 0 by {
        assert(qs[i] == ps[i + 1]);
    }
    assert(pipeline::wire_weight(rest) == p.len() + WIRE_OVERHEAD_PER_PACKET as nat
        + pipeline::wire_weight(t.unsent()));
    assert(c.weight() == p.len() + WIRE_OVERHEAD_PER_PACKET);
    parked::law_parked_count_is_exact(s.parked, c);
    assert forall|i: int| 0 <= i < t.parked.q.len() implies #[trigger] not_empty(t.parked.q[i]) by {
        assert(t.parked.q[i] == c);
    }
}

/// What packets reserve in all.
pub open spec fn weight_of(ps: Seq<Seq<u8>>) -> nat
    decreases ps.len(),
{
    if ps.len() == 0 {
        0
    } else {
        ps[0].len() + WIRE_OVERHEAD_PER_PACKET as nat + weight_of(ps.drop_first())
    }
}

/// The weight of a staging buffer is that of its packets.
pub proof fn lemma_weight_of(s: Seq<u8>)
    requires
        wire::framed(s),
    ensures
        pipeline::wire_weight(s) == weight_of(wire::packets(s)),
    decreases s.len(),
{
    if s.len() > 0 {
        wire::lemma_first_frame(s);
        lemma_weight_of(s.skip(wire::frame_len(s)));
    }
}

/// One packet more at the end.
pub proof fn lemma_weight_push(ps: Seq<Seq<u8>>, p: Seq<u8>)
    ensures
        weight_of(ps + seq![p]) == weight_of(ps) + p.len() + WIRE_OVERHEAD_PER_PACKET,
    decreases ps.len(),
{
    if ps.len() == 0 {
        assert(ps + seq![p] =~= seq![p]);
        assert(seq![p].drop_first() =~= Seq::empty());
        assert(weight_of(seq![p].drop_first()) == 0);
    } else {
        lemma_weight_push(ps.drop_first(), p);
        assert((ps + seq![p]).drop_first() =~= ps.drop_first() + seq![p]);
    }
}

/// The data packet that a channel's turn allows leaves the backlog within the
/// cap for that channel's packets, whatever is queued behind it.
pub proof fn law_data_packet_stays_below_the_cap(s: Peer, id: u32)
    requires
        s.ok(),
        s.lane(id) matches Some(l) && l.data.len() > 0 && !l.ctrl_ahead()
            && l.recipient_window_size > 0,
        s.next_allowance(id) > 0,
    ensures
        s.packet_staged(id, s.quantum(id)).0.backlog() <= Peer::cap_for(
            s.next_shape(id).0,
            s.next_shape(id).1,
        ),
{
    reveal(Staging::ok);
    let (max_packet, framing) = s.next_shape(id);
    let budget = s.budget(max_packet, framing);
    let cap = s.quantum(id);
    let l = s.lane(id)->0;
    let (t, n) = s.packet_staged(id, cap);
    let st = s.st();
    staging_laws::law_one_packet_is_appended(st, id, cap);
    drain::lemma_one_packet(l, cap);
    let most = schedule::largest_payload(budget, max_packet, framing, budget as nat);
    session_laws::law_payload_costs_at_most_the_budget(
        budget,
        max_packet,
        framing,
        budget as nat,
    );
    let pc = pipeline::packet_cost(framing) as nat;
    let count = pipeline::packet_count(most, max_packet as nat);
    assert(count >= 1) by (nonlinear_arith)
        requires
            most >= 1,
            max_packet >= 1,
            count == ((most + max_packet - 1) / (max_packet as int)) as nat,
    ;
    assert(count * pc >= pc) by (nonlinear_arith)
        requires
            count >= 1,
    ;
    assert(n + pc <= budget);
    if n > 0 {
        let p = drain::data_payload(l.recipient_channel, l.data[0].1, l.one_packet(cap).1);
        assert(wire::packets(st.unsent()).push(p) =~= wire::packets(st.unsent()) + seq![p]);
        lemma_weight_push(wire::packets(st.unsent()), p);
        lemma_weight_of(st.unsent());
        lemma_weight_of(t.unsent());
        assert(p.len() == framing + n);
    }
}

} // verus!
