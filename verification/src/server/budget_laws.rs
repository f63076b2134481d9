//! How much may be on its way, in numbers; and what is counted for it.
use vstd::prelude::*;

use crate::channel;
use crate::channel::{Ctrl, Lane};
use crate::server::backlog_laws;
use crate::server::ledger::FullLedger;
use crate::server::parked::{Parked, ParkedCmd};
use crate::server::pipeline;
use crate::server::published;
use crate::server::reader::{LaneInfo, Reader, ReaderCmd};
use crate::server::schedule;
use crate::server::session::{App, Install, Peer, Phase, Sess};
use crate::server::session_laws;
use crate::server::writer;
use crate::server::writer_run;
use crate::server::writer_run::End;
use crate::server::writer_task;
use crate::server::writer_task::Task;
use crate::sshbuffer::{Compression, Stream};
use crate::wire;

verus! {

/// The cap is the high watermark of 128 KiB and one packet: its data, its
/// framing and 88 bytes that sealing may add.
pub proof fn law_cap_is_watermark_and_one_packet(max_packet: u32, framing: usize)
    requires
        131072 + max_packet + framing + 88 <= usize::MAX,
    ensures
        Peer::cap_for(max_packet, framing) == 131072 + max_packet + framing + 88,
{
}

/// A budget is one packet's worth far from the cap; close to it, all that is
/// left but for a WINDOW_ADJUST; and nothing at the cap.
pub proof fn law_budget_in_numbers(s: Peer, max_packet: u32, framing: usize)
    requires
        framing >= 9,
        131072 + max_packet + framing + 88 <= usize::MAX,
    ensures
        ({
            let one = max_packet + framing + 88;
            let hard = 131072 + one;
            let b = s.budget(max_packet, framing);
            &&& s.backlog() + one < hard ==> b == one
            &&& s.backlog() + one >= hard && s.backlog() + 97 <= hard ==> b + s.backlog() + 97
                == hard
            &&& s.backlog() + 97 > hard ==> b == 0
        }),
{
}

/// Data costs itself, and for each packet that it takes the framing and the 88
/// bytes that sealing may add.
pub proof fn law_data_cost_in_numbers(n: nat, max_packet: u32, framing: usize)
    requires
        max_packet > 0,
        0 < n <= max_packet,
        n + framing + 88 <= usize::MAX,
    ensures
        pipeline::data_cost(n, max_packet, framing) == n + framing + 88,
        pipeline::data_cost(0, max_packet, framing) == 0,
{
    assert(pipeline::packet_count(n, max_packet as nat) == 1) by (nonlinear_arith)
        requires
            0 < n <= max_packet,
            pipeline::packet_count(n, max_packet as nat) == ((n + max_packet - 1) / (
            max_packet as int)) as nat,
    ;
    assert(pipeline::packet_count(0, max_packet as nat) == 0) by (nonlinear_arith)
        requires
            max_packet > 0,
            pipeline::packet_count(0, max_packet as nat) == ((0 + max_packet - 1) / (
            max_packet as int)) as nat,
    ;
}

/// What a budget allows is the most that it allows: one byte more costs more
/// than the budget.
pub proof fn law_payload_is_the_largest(
    budget: usize,
    max_packet: u32,
    framing: usize,
    x: nat,
    more: nat,
)
    requires
        schedule::largest_payload(budget, max_packet, framing, x) < more <= x,
    ensures
        pipeline::data_cost(more, max_packet, framing) > budget,
    decreases x,
{
    if x > 0 && pipeline::data_cost(x, max_packet, framing) > budget {
        if more < x {
            law_payload_is_the_largest(budget, max_packet, framing, (x - 1) as nat, more);
        }
    }
}

/// Staged packets weigh their payloads and 88 bytes each.
pub proof fn law_staged_packets_weigh(s: Seq<u8>, p: Seq<u8>)
    requires
        wire::framed(s),
        p.len() <= wire::MAX_FRAME_PAYLOAD,
    ensures
        pipeline::wire_weight(s + wire::frame(p)) == pipeline::wire_weight(s) + p.len() + 88,
        pipeline::wire_weight(Seq::empty()) == 0,
{
    wire::lemma_frame_appended(s, p);
    backlog_laws::lemma_weight_of(s);
    backlog_laws::lemma_weight_of(s + wire::frame(p));
    assert(wire::packets(s).push(p) =~= wire::packets(s) + seq![p]);
    backlog_laws::lemma_weight_push(wire::packets(s), p);
}

/// A command reserves its payload and 88 bytes, whether it is parked or with
/// the writer; the start of a compressor reserves nothing.
pub proof fn law_reservations_in_numbers(p: Seq<u8>, c: Compression)
    requires
        p.len() + 88 <= usize::MAX,
    ensures
        ParkedCmd::SealPayload(p).weight() == p.len() + 88,
        ParkedCmd::SealRaw(p).weight() == p.len() + 88,
        ParkedCmd::InitOutboundCompress(c).weight() == 0,
        writer::reservation(p.len()) == p.len() + 88,
        writer::reservations(seq![p]) == p.len() + 88,
        writer::reservations(Seq::empty()) == 0,
{
    reveal_with_fuel(writer::reservations, 2);
    assert(seq![p].drop_last() =~= Seq::empty());
}

/// A reply is admitted exactly while it stays below the cap.
pub proof fn law_replies_are_admitted_below_the_cap(s: Peer, weight: usize)
    requires
        s.backlog() + weight < usize::MAX,
    ensures
        s.admits(weight) <==> s.backlog() + weight < s.hard_cap(),
        s.over(weight) <==> s.backlog() + weight > s.hard_cap(),
{
}

/// Parking counts a command and taking it up again uncounts it; commands are
/// taken up in the order in which they were parked.
pub proof fn law_parked_commands_in_order(q: Parked, c: ParkedCmd, d: ParkedCmd)
    requires
        q.bytes + c.weight() + d.weight() <= usize::MAX,
        q.q.len() == 0,
    ensures
        q.pushed_back(c).pushed_back(d).q == seq![c, d],
        q.pushed_back(c).pushed_back(d).popped().q == seq![d],
        q.pushed_back(c).pushed_front(d).q == seq![d, c],
        q.pushed_back(c).pushed_back(d).bytes == q.bytes + c.weight() + d.weight(),
        q.pushed_back(c).pushed_back(d).popped().bytes == q.bytes + d.weight(),
{
    assert(q.pushed_back(c).pushed_back(d).q =~= seq![c, d]);
    assert(q.pushed_back(c).pushed_back(d).popped().q =~= seq![d]);
    assert(q.pushed_back(c).pushed_front(d).q =~= seq![d, c]);
}

/// A credit adds its bytes to the total, a debit takes them off; of a key
/// exchange, to and off what key exchanges hold as well.
pub proof fn law_ledger_counts_exactly(l: FullLedger, n: usize)
    requires
        l.total + n <= usize::MAX,
        l.kex_live + n <= usize::MAX,
    ensures
        l.credited(n).total == l.total + n,
        l.credited(n).kex_live == l.kex_live,
        l.kex_credited(n).total == l.total + n,
        l.kex_credited(n).kex_live == l.kex_live + n,
        n <= l.total ==> l.debited(n).total + n == l.total,
        n <= l.total ==> l.debited(n).slot.mismatch == l.slot.mismatch,
        n <= l.total && n <= l.kex_live ==> l.kex_debited(n).total + n == l.total && l.kex_debited(
            n,
        ).kex_live + n == l.kex_live,
        n > l.total && l.slot.mismatch < u64::MAX ==> l.debited(n).slot.mismatch > l.slot.mismatch,
{
    reveal(FullLedger::looked_at);
}

/// Queued bytes and queued replies are what is queued.
pub proof fn law_queues_are_counted(
    data: Seq<(Seq<u8>, Option<u32>)>,
    x: (Seq<u8>, Option<u32>),
    ctrl: Seq<(u64, Ctrl)>,
    c: (u64, Ctrl),
)
    ensures
        channel::queued_bytes(Seq::empty()) == 0,
        channel::queued_bytes(data.push(x)) == channel::queued_bytes(data) + x.0.len(),
        channel::reply_count(Seq::empty()) == 0,
        channel::reply_count(ctrl.push(c)) == channel::reply_count(ctrl) + (if c.1 is Success
            || c.1 is Failure {
            1nat
        } else {
            0
        }),
{
    assert(data.push(x).drop_last() =~= data);
    assert(ctrl.push(c).drop_last() =~= ctrl);
}

/// A reader's lane is opened under a generation that no lane had, and the
/// reader is told of it; closed, it is named by that generation. Other lanes
/// are left alone.
pub proof fn law_readers_lanes(r: Reader, id: u32, window: u32, max_packet: u32, other: u32)
    requires
        other != id,
    ensures
        ({
            let a = r.opened(id, window, max_packet);
            let b = a.shut(id);
            let g = a.lanes[id].generation;
            &&& a.lanes.contains_key(id) && a.lanes[id].bytes == 0
            &&& g == r.next_generation && a.next_generation != r.next_generation
            &&& a.cmds == r.cmds.push(ReaderCmd::OpenLane { id, generation: g, window, max_packet })
            &&& !b.lanes.contains_key(id)
            &&& b.cmds == a.cmds.push(ReaderCmd::CloseLane { id, generation: g })
            &&& a.lanes.contains_key(other) == r.lanes.contains_key(other)
            &&& b.lanes.contains_key(other) == r.lanes.contains_key(other)
            &&& r.lanes.contains_key(other) ==> a.lanes[other] == r.lanes[other] && b.lanes[other]
                == r.lanes[other]
            &&& r.lanes.contains_key(other) ==> r.occupancy(other) == r.lanes[other].bytes
            &&& !r.lanes.contains_key(other) ==> r.occupancy(other) == 0 && r.shut(other).cmds
                == r.cmds.push(ReaderCmd::CloseLane { id: other, generation: 0 })
        }),
{
}

/// The phases of an install have their numbers.
pub proof fn law_phases_have_their_numbers(s: Peer)
    ensures
        s.install is None ==> s.phase_number() == 0,
        (s.install matches Some(p) && p.phase is NeedSubmit) ==> s.phase_number() == 1,
        (s.install matches Some(p) && p.phase is WaitingAck) ==> s.phase_number() == 2,
        (s.install matches Some(p) && p.phase is InstallAcked) ==> s.phase_number() == 3,
{
}

/// The log of staged packets holds of each channel message its channel, its
/// number and how much data it carries.
pub proof fn law_log_tells_what_is_staged(to: u32, code: u32, bytes: Seq<u8>, rest: Seq<u8>)
    requires
        bytes.len() < 0x1000_0000,
    ensures
        published::log_entry(crate::drain::data_payload(to, None, bytes)) == (
            to,
            94u8,
            bytes.len() as u32,
        ),
        published::log_entry(crate::drain::data_payload(to, Some(code), bytes)) == (
            to,
            95u8,
            bytes.len() as u32,
        ),
        published::log_entry(seq![97u8] + wire::be32(to)) == (to, 97u8, 0u32),
{
    let p = crate::drain::data_payload(to, None, bytes);
    let q = crate::drain::data_payload(to, Some(code), bytes);
    let n = bytes.len() as u32;
    assert(p.skip(1) =~= wire::be32(to) + wire::ssh_string(bytes));
    assert(p.skip(5) =~= wire::be32(n) + bytes);
    assert(q.skip(1) =~= wire::be32(to) + (wire::be32(code) + wire::ssh_string(bytes)));
    assert(q.skip(9) =~= wire::be32(n) + bytes);
    wire::lemma_be32(to, wire::ssh_string(bytes));
    wire::lemma_be32(to, wire::be32(code) + wire::ssh_string(bytes));
    wire::lemma_be32(n, bytes);
    assert((seq![97u8] + wire::be32(to)).skip(1) =~= wire::be32(to));
    wire::lemma_be32(to, Seq::empty());
}

/// A compression runs a stream, and none runs none.
pub proof fn law_compressions_run_streams()
    ensures
        Compression::Plain.stream() == Stream::Off,
        Compression::Zlib.stream() == Stream::Zlib,
        Compression::ZlibDeferred.stream() == Stream::Zlib,
{
}

/// The plan of a command tells of each payload whether it will be sealed: those
/// that are planned are, and the others are dropped.
pub proof fn law_plan_tells_what_is_sealed(
    t: Task,
    l: writer::Link,
    ps: Seq<Seq<u8>>,
    given: Seq<Result<Seq<u8>, crate::error::Error>>,
    i: int,
    k: int,
)
    requires
        0 <= i <= k < ps.len(),
        t.seal_from(l, ps, given, i).0.result is Ok,
    ensures
        ({
            let plan = writer_task::plan(l.tombstone, ps.skip(i));
            let fs = writer_run::fates_from(t, l, ps, true, given, i);
            &&& plan.len() == ps.len() - i
            &&& fs.len() == ps.len() - i
            &&& plan[k - i] <==> fs[k - i].end is Sealed
            &&& !plan[k - i] <==> fs[k - i].end is Dropped
        }),
    decreases ps.len() - i,
{
    let s = t.seal_one(l, ps[i], true, writer_task::nth(given, i));
    let rest = ps.skip(i).drop_first();
    assert(rest =~= ps.skip(i + 1));
    assert(ps.skip(i)[0] == ps[i]);
    let m = writer_task::unmarked(ps[i], l.tombstone);
    assert(s.result is Ok);
    assert(s.link.tombstone =~= m);
    if i + 1 < ps.len() {
        if k > i {
            law_plan_tells_what_is_sealed(s.task, s.link, ps, given, i + 1, k);
        } else {
            law_plan_tells_what_is_sealed(s.task, s.link, ps, given, i + 1, i + 1);
        }
    } else {
        assert(rest.len() == 0);
        assert(writer_task::plan(m, rest).len() == 0);
        assert(writer_run::fates_from(s.task, s.link, ps, true, given, i + 1).len() == 0);
    }
}

/// Tearing a channel down leaves every other channel as it is.
pub proof fn law_forgetting_leaves_the_others(s: Sess, id: u32, other: u32)
    requires
        other != id,
    ensures
        ({
            let t = s.close_finalized(id);
            &&& t.peer.lane(other) == s.peer.lane(other)
            &&& t.peer.unsent() == s.peer.unsent()
            &&& t.app.channels.contains_key(other) == s.app.channels.contains_key(other)
            &&& t.app.inbound.contains_key(other) == s.app.inbound.contains_key(other)
            &&& s.app.inbound.contains_key(other) ==> t.app.inbound[other] == s.app.inbound[other]
            &&& t.app.acks.contains_key(other) == s.app.acks.contains_key(other)
            &&& s.app.acks.contains_key(other) ==> t.app.acks[other] == s.app.acks[other]
            &&& t.app.deferred.contains(other) == s.app.deferred.contains(other)
            &&& s.peer.reader matches Some(r) ==> (t.peer.reader matches Some(q)
                && q.lanes.contains_key(other) == r.lanes.contains_key(other))
        }),
{
    let t = s.close_finalized(id);
    assert(t.peer.unsent() =~= s.peer.unsent());
}

} // verus!
