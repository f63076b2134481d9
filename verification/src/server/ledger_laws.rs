//! What holds of the ledger over every step of a session and its writer: its
//! total is what is on its way, and a transfer from one stage to the next
//! leaves it as it is.
use vstd::prelude::*;

use crate::error::Error;
use crate::server::keeping;
use crate::server::ledger;
use crate::server::ledger::FullLedger;
use crate::server::parked::ParkedCmd;
use crate::server::session::Peer;
use crate::server::writer;
use crate::server::writer::{Cmd, Link, OutboundEpoch};
use crate::server::writer_drain;
use crate::server::writer_task;
use crate::server::writer_task::Task;

verus! {

/// The failed subtractions on record; none without a ledger.
pub open spec fn failures(ledger: Option<FullLedger>) -> u64 {
    match ledger {
        Some(fl) => fl.slot.mismatch,
        None => 0,
    }
}

/// The sum of four counts, as far as a machine number goes.
pub open spec fn sum4(a: usize, b: usize, c: usize, d: usize) -> usize {
    a.wrapping_add(b).wrapping_add(c).wrapping_add(d)
}

/// What is added to one of them is added to the sum.
proof fn lemma_sum4(a: usize, b: usize, c: usize, d: usize, n: usize)
    ensures
        sum4(a.wrapping_add(n), b, c, d) == sum4(a, b, c, d).wrapping_add(n),
        sum4(a, b.wrapping_add(n), c, d) == sum4(a, b, c, d).wrapping_add(n),
        sum4(a, b, c.wrapping_add(n), d) == sum4(a, b, c, d).wrapping_add(n),
        sum4(a, b, c, d.wrapping_add(n)) == sum4(a, b, c, d).wrapping_add(n),
{
    ledger::lemma_wrapping(a, b, n);
    ledger::lemma_wrapping(a.wrapping_add(b), c, n);
    ledger::lemma_wrapping(a.wrapping_add(b).wrapping_add(c), d, n);
}

impl FullLedger {
    /// The ledger has the counts of the stages, and its sums are theirs.
    #[verifier::opaque]
    pub open spec fn tells(self, writer: usize, parked: usize) -> bool {
        &&& self.writer_pending == writer
        &&& self.session_pending == parked
        &&& self.total == sum4(writer, parked, self.enc_write, self.kex_need)
        &&& self.kex_adds_up()
    }
}

/// The ledger, if one is kept, has the counts of the stages, and its sums are
/// theirs.
pub open spec fn in_step(s: Peer) -> bool {
    s.ledger() matches Some(fl) ==> fl.tells(s.link->0.pending_bytes, s.parked.bytes)
}

/// Between `s` and `t` the ledger was kept: no failure was forgotten, and as
/// long as there was none, a ledger that was in step is.
#[verifier::opaque]
pub open spec fn keeps(s: Peer, t: Peer) -> bool {
    &&& s.ledger() is Some <==> t.ledger() is Some
    &&& failures(s.ledger()) <= failures(t.ledger())
    &&& in_step(s) && failures(s.ledger()) == failures(t.ledger()) < u64::MAX ==> in_step(t)
}

/// Between `l` and `m` the writer kept the ledger: as long as there was no
/// failure, a ledger that was in step is, whatever is parked.
pub open spec fn link_keeps(l: Link, m: Link) -> bool {
    &&& l.full_ledger is Some <==> m.full_ledger is Some
    &&& failures(l.full_ledger) <= failures(m.full_ledger)
    &&& forall|parked: usize|
        link_tells(l, parked) && failures(l.full_ledger) == failures(m.full_ledger) < u64::MAX
            ==> #[trigger] link_tells(m, parked)
}

/// The ledger, if the writer has one, is in step with `parked` bytes parked.
pub open spec fn link_tells(l: Link, parked: usize) -> bool {
    l.full_ledger matches Some(fl) ==> fl.tells(l.pending_bytes, parked)
}

/// One step after another.
pub proof fn lemma_on(s: Peer, t: Peer, u: Peer)
    requires
        keeps(s, t),
        keeps(t, u),
    ensures
        keeps(s, u),
{
    reveal(keeps);
}

/// What leaves the writer's link and what is parked alone keeps the ledger.
pub proof fn lemma_same(s: Peer, t: Peer)
    requires
        s.link == t.link,
        s.parked == t.parked,
    ensures
        keeps(s, t),
{
    reveal(keeps);
}

/// What the writer's link went through.
pub proof fn lemma_link(s: Peer, m: Link)
    requires
        s.link is Some,
        link_keeps(s.link->0, m),
    ensures
        keeps(s, Peer { link: Some(m), ..s }),
{
    reveal(keeps);
    if in_step(s) {
        assert(link_tells(s.link->0, s.parked.bytes));
        if failures(s.ledger()) == failures(m.full_ledger) && failures(s.ledger()) < u64::MAX {
            assert(link_tells(m, s.parked.bytes));
        }
    }
}

/// Parking keeps the ledger.
pub proof fn lemma_parking_keeps(s: Peer, c: ParkedCmd)
    ensures
        keeps(s, s.park(c)),
        keeps(s, s.park_front(c)),
{
    reveal(keeps);
    reveal(keeping::ledger_parked);
    reveal(FullLedger::tells);
    let w = c.weight();
    let b = s.parked.bytes.wrapping_add(w);
    if let Some(fl) = s.ledger() {
        ledger::lemma_moved_bytes(fl.at_session(b), w);
        lemma_sum4(s.link->0.pending_bytes, s.parked.bytes, fl.enc_write, fl.kex_need, w);
    }
}

/// Taking a parked command up again keeps the ledger.
pub proof fn lemma_unparking_keeps(s: Peer)
    requires
        s.parked.q.len() > 0,
    ensures
        keeps(s, s.unparked()),
        keeps(s, s.taken_up()),
{
    reveal(keeps);
    reveal(keeping::ledger_unparked);
    reveal(FullLedger::tells);
    let w = s.parked.q[0].weight();
    let b = s.parked.popped().bytes;
    if let Some(fl) = s.ledger() {
        let l = fl.at_session(b);
        if w <= s.parked.bytes {
            ledger::lemma_moved_bytes(l, w);
            lemma_sum4(s.link->0.pending_bytes, b, fl.enc_write, fl.kex_need, w);
            ledger::lemma_wrapping(s.parked.bytes, 0, w);
            ledger::lemma_wrapping(
                l.debited(w).total,
                sum4(s.link->0.pending_bytes, b, fl.enc_write, fl.kex_need),
                w,
            );
        }
    }
    lemma_looking_keeps(s.unparked());
    lemma_same(s.unparked(), s.unparked());
    lemma_on(s, s.unparked(), s.unparked().sampled());
}

/// What is staged came to weigh `n`.
proof fn lemma_staging_tells(l: FullLedger, n: usize, writer: usize, parked: usize)
    requires
        l.tells(writer, parked),
        l.staging_at(n).slot.mismatch == l.slot.mismatch < u64::MAX,
    ensures
        l.staging_at(n).tells(writer, parked),
{
    reveal(FullLedger::tells);
    ledger::lemma_staging_at(l, n);
    lemma_sum4(writer, parked, l.enc_write, l.kex_need, n);
    lemma_sum4(writer, parked, n, l.kex_need, l.enc_write);
    ledger::lemma_wrapping(l.enc_write, n, 0);
    ledger::lemma_wrapping(
        l.staging_at(n).total,
        sum4(writer, parked, n, l.kex_need),
        l.enc_write,
    );
}

/// `n` came to wait with the next key.
proof fn lemma_needing_tells(l: FullLedger, n: usize, writer: usize, parked: usize)
    requires
        l.tells(writer, parked),
        l.needing(n).slot.mismatch == l.slot.mismatch < u64::MAX,
    ensures
        l.needing(n).tells(writer, parked),
{
    reveal(FullLedger::tells);
    ledger::lemma_needing(l, n);
    let r = l.needing(n);
    lemma_sum4(writer, parked, l.enc_write, l.kex_need, n);
    lemma_sum4(writer, parked, l.enc_write, n, l.kex_need);
    ledger::lemma_wrapping(l.kex_need, n, 0);
    ledger::lemma_wrapping(r.total, sum4(writer, parked, l.enc_write, n), l.kex_need);
    ledger::lemma_wrapping(l.kex_need, l.kex_in_writer, n);
    ledger::lemma_wrapping(n, l.kex_in_writer, l.kex_need);
    ledger::lemma_wrapping(r.kex_live, n.wrapping_add(l.kex_in_writer), l.kex_need);
}

/// Looking at the backlog keeps the ledger.
pub proof fn lemma_looking_keeps(s: Peer)
    ensures
        keeps(s, s.sampled()),
        keeps(s, s.restaged()),
        keeps(s, s.needed()),
        keeps(s, s.need_dropped()),
        keeps(s, s.intake_refused()),
{
    reveal(keeps);
    reveal(keeping::ledger_sampled);
    reveal(keeping::ledger_staged);
    reveal(keeping::ledger_needing);
    reveal(keeping::ledger_refusing);
    if let Some(fl) = s.ledger() {
        let w = s.link->0.pending_bytes;
        let p = s.parked.bytes;
        let a = fl.staging_at(s.staged_weight());
        ledger::lemma_staging_at(fl, s.staged_weight());
        ledger::lemma_needing(a, s.install_need());
        ledger::lemma_needing(fl, s.install_need());
        ledger::lemma_needing(fl, 0);
        if fl.tells(w, p) && fl.slot.mismatch < u64::MAX {
            if a.slot.mismatch == fl.slot.mismatch {
                lemma_staging_tells(fl, s.staged_weight(), w, p);
                if a.needing(s.install_need()).slot.mismatch == a.slot.mismatch {
                    lemma_needing_tells(a, s.install_need(), w, p);
                }
            }
            if fl.needing(s.install_need()).slot.mismatch == fl.slot.mismatch {
                lemma_needing_tells(fl, s.install_need(), w, p);
            }
            if fl.needing(0).slot.mismatch == fl.slot.mismatch {
                lemma_needing_tells(fl, 0, w, p);
            }
        }
        reveal(FullLedger::tells);
    }
}

/// Taking a reservation in keeps the ledger.
proof fn lemma_reserving_keeps(l: Link, n: usize, as_kex: bool)
    ensures
        link_keeps(l, l.reserved(n, as_kex)),
{
    reveal(FullLedger::tells);
    if let Some(fl) = l.full_ledger {
        let w = l.pending_bytes.wrapping_add(n);
        ledger::lemma_moved_bytes(fl.at_writer(w), n);
        ledger::lemma_moved_writer_kex_bytes(fl.at_writer(w), n);
        ledger::lemma_wrapping(fl.kex_need, fl.kex_in_writer, n);
        assert forall|parked: usize| link_tells(l, parked) implies #[trigger] link_tells(
            l.reserved(n, as_kex),
            parked,
        ) by {
            lemma_sum4(l.pending_bytes, parked, fl.enc_write, fl.kex_need, n);
        }
    }
}

/// Letting bytes of the ledger out that the writer no longer counts keeps the
/// ledger.
proof fn lemma_letting_out_keeps(l: Link, n: usize, as_kex: bool)
    requires
        n <= l.pending_bytes,
    ensures
        link_keeps(
            l,
            (Link { pending_bytes: (l.pending_bytes - n) as usize, ..l }).ledger_debited(n, as_kex),
        ),
{
    reveal(FullLedger::tells);
    let w = (l.pending_bytes - n) as usize;
    let m = (Link { pending_bytes: w, ..l }).ledger_debited(n, as_kex);
    if let Some(fl) = l.full_ledger {
        let a = fl.at_writer(w);
        ledger::lemma_moved_bytes(a, n);
        ledger::lemma_moved_writer_kex_bytes(a, n);
        let r = m.full_ledger->0;
        assert forall|parked: usize|
            link_tells(l, parked) && failures(l.full_ledger) == failures(m.full_ledger)
                < u64::MAX implies #[trigger] link_tells(m, parked) by {
            lemma_sum4(w, parked, fl.enc_write, fl.kex_need, n);
            ledger::lemma_wrapping(l.pending_bytes, 0, n);
            ledger::lemma_wrapping(r.total, sum4(w, parked, fl.enc_write, fl.kex_need), n);
            ledger::lemma_wrapping(fl.kex_need, r.kex_in_writer, n);
            ledger::lemma_wrapping(r.kex_live, fl.kex_need.wrapping_add(r.kex_in_writer), n);
        }
    }
}

/// Giving a reservation back keeps the ledger.
proof fn lemma_giving_back_keeps(l: Link, n: usize, as_kex: bool)
    ensures
        link_keeps(l, l.refunded(n, as_kex)),
        link_keeps(l, l.rolled_back(n, as_kex)),
        link_keeps(l, l.ledger_mismatched()),
        link_keeps(l, l.full_hit()),
{
    if n <= l.pending_bytes {
        lemma_letting_out_keeps(l, n, as_kex);
    }
    reveal(FullLedger::tells);
    if let Some(fl) = l.full_ledger {
        let a = FullLedger { slot: fl.slot.mismatched(), ..fl };
        ledger::lemma_moved_bytes(a.at_writer(l.pending_bytes), n);
        ledger::lemma_moved_writer_kex_bytes(a.at_writer(l.pending_bytes), n);
    }
}

/// One step after another.
pub proof fn lemma_link_keeps_on(l: Link, m: Link, n: Link)
    requires
        link_keeps(l, m),
        link_keeps(m, n),
    ensures
        link_keeps(l, n),
{
    assert forall|parked: usize|
        link_tells(l, parked) && failures(l.full_ledger) == failures(n.full_ledger)
            < u64::MAX implies #[trigger] link_tells(n, parked) by {
        assert(link_tells(m, parked));
    }
}

/// Offering a command keeps the ledger, whether it is taken or not.
proof fn lemma_offered_keeps(l: Link, c: Cmd, n: usize)
    ensures
        link_keeps(l, l.offered(c, n)),
{
    let r = if n > 0 {
        l.reserved(n, false)
    } else {
        l
    };
    lemma_reserving_keeps(l, n, false);
    assert(link_keeps(l, r));
    let b = r.rolled_back(n, false);
    lemma_giving_back_keeps(r, n, false);
    lemma_giving_back_keeps(b, n, false);
    lemma_link_keeps_on(l, r, b);
    lemma_link_keeps_on(l, b, b.full_hit());
    let q = Link { bulk: r.bulk.push(c), ..r };
    assert(link_keeps(r, q)) by {
        assert forall|parked: usize| link_tells(r, parked) implies #[trigger] link_tells(
            q,
            parked,
        ) by {}
    }
    lemma_link_keeps_on(l, r, q);
}

/// Offering a payload, or the start of a compressor, keeps the ledger.
pub proof fn lemma_offer_link_keeps(l: Link, c: ParkedCmd)
    ensures
        link_keeps(l, Peer::offer_link(l, c)),
{
    match c {
        ParkedCmd::SealPayload(p) => lemma_offered_keeps(l, Cmd::SealPayload(p), c.weight()),
        ParkedCmd::SealRaw(p) => lemma_offered_keeps(l, Cmd::SealRaw(p), c.weight()),
        ParkedCmd::InitOutboundCompress(_) => {
            assert forall|parked: usize| link_tells(l, parked) implies #[trigger] link_tells(
                Peer::offer_link(l, c),
                parked,
            ) by {}
        },
    }
}

/// Offering a batch and its install keeps the ledger.
pub proof fn lemma_offered_batch_keeps(l: Link, payloads: Seq<Seq<u8>>, epoch: OutboundEpoch)
    ensures
        link_keeps(l, l.offered_batch(payloads, epoch)),
{
    let n = writer::reservations(payloads);
    let r = if n > 0 {
        l.reserved(n, true)
    } else {
        l
    };
    lemma_reserving_keeps(l, n, true);
    assert(link_keeps(l, r));
    let b = r.rolled_back(n, true);
    lemma_giving_back_keeps(r, n, true);
    lemma_giving_back_keeps(b, n, true);
    lemma_giving_back_keeps(l, n, true);
    lemma_link_keeps_on(l, r, b);
    lemma_link_keeps_on(l, b, b.full_hit());
    let t = l.offered_batch(payloads, epoch);
    lemma_same_counts(r, t);
    lemma_same_counts(l, t);
    lemma_same_counts(b, t);
    lemma_same_counts(b.full_hit(), t);
    lemma_same_counts(l.full_hit(), t);
    if t.pending_bytes == r.pending_bytes && t.full_ledger == r.full_ledger {
        lemma_link_keeps_on(l, r, t);
    } else if t.pending_bytes == b.pending_bytes && t.full_ledger == b.full_ledger {
        lemma_link_keeps_on(l, b, t);
    } else if t.pending_bytes == b.pending_bytes && t.full_ledger == b.full_hit().full_ledger {
        lemma_link_keeps_on(l, b.full_hit(), t);
    } else if t.pending_bytes == l.pending_bytes && t.full_ledger == l.full_hit().full_ledger {
        lemma_link_keeps_on(l, l.full_hit(), t);
    }
}

/// What leaves the ledger and the pending count alone keeps the ledger.
pub proof fn lemma_same_counts(l: Link, m: Link)
    ensures
        l.pending_bytes == m.pending_bytes && l.full_ledger == m.full_ledger ==> link_keeps(l, m),
{
    if l.pending_bytes == m.pending_bytes && l.full_ledger == m.full_ledger {
        assert forall|parked: usize| link_tells(l, parked) implies #[trigger] link_tells(
            m,
            parked,
        ) by {}
    }
}

/// Written bytes leave the ledger as what they were taken in for.
proof fn lemma_retiring(fl: FullLedger, segs: Seq<(usize, bool)>, n: nat)
    requires
        n <= usize::MAX,
    ensures
        ({
            let r = writer_drain::retire(fl, segs, n).0;
            &&& fl.slot.mismatch <= r.slot.mismatch
            &&& r == (FullLedger {
                total: r.total,
                kex_live: r.kex_live,
                kex_in_writer: r.kex_in_writer,
                slot: r.slot,
                ..fl
            })
            &&& r.slot.mismatch == fl.slot.mismatch < u64::MAX ==> {
                &&& r.total.wrapping_add(n as usize) == fl.total
                &&& fl.kex_adds_up() ==> r.kex_adds_up()
            }
        }),
    decreases segs.len(),
{
    if n > 0 && segs.len() > 0 {
        let (rem, is_kex) = segs[0];
        let take: usize = if n < rem {
            n as usize
        } else {
            rem
        };
        let l2 = if is_kex {
            fl.kex_from_writer(take)
        } else {
            fl.debited(take)
        };
        ledger::lemma_moved_bytes(fl, take);
        ledger::lemma_moved_writer_kex_bytes(fl, take);
        if l2.slot.mismatch == fl.slot.mismatch < u64::MAX && fl.kex_adds_up() && is_kex {
            ledger::lemma_wrapping(fl.kex_need, l2.kex_in_writer, take);
            ledger::lemma_wrapping(
                l2.kex_live,
                fl.kex_need.wrapping_add(l2.kex_in_writer),
                take,
            );
        }
        if take >= rem {
            lemma_retiring(l2, segs.drop_first(), (n - take) as nat);
            let r = writer_drain::retire(fl, segs, n).0;
            ledger::lemma_wrapping(r.total, (n - take) as usize, take);
        }
    }
}

/// A write keeps the ledger: its total falls with what the writer holds.
pub proof fn law_writes_keep_the_ledger(t: Task, l: Link, n: usize)
    requires
        n <= l.pending_bytes,
    ensures
        link_keeps(l, t.wrote(l, n).1),
{
    let m = t.wrote(l, n).1;
    let w = (l.pending_bytes - n) as usize;
    if let Some(fl) = l.full_ledger {
        lemma_retiring(fl.at_writer(w), t.segs, n as nat);
        let r = m.full_ledger->0;
        assert forall|parked: usize|
            link_tells(l, parked) && failures(l.full_ledger) == failures(m.full_ledger)
                < u64::MAX implies #[trigger] link_tells(m, parked) by {
            reveal(FullLedger::tells);
            lemma_sum4(w, parked, fl.enc_write, fl.kex_need, n);
            ledger::lemma_wrapping(l.pending_bytes, 0, n);
            ledger::lemma_wrapping(r.total, sum4(w, parked, fl.enc_write, fl.kex_need), n);
        }
    }
}

/// Sealing or dropping one payload keeps the ledger.
proof fn lemma_seal_one_keeps(
    t: Task,
    l: Link,
    p: Seq<u8>,
    as_kex: bool,
    given: Option<Result<Seq<u8>, Error>>,
)
    ensures
        link_keeps(l, t.seal_one(l, p, as_kex, given).link),
{
    let reserved = writer::reservation(p.len());
    let s = t.seal_one(l, p, as_kex, given);
    lemma_giving_back_keeps(l, reserved, as_kex);
    lemma_same_counts(l, l);
    if !writer_task::should_drop(p, l.tombstone) {
        if let Ok(w) = t.sink.seal_result(p, given) {
            let u = Link { tombstone: writer_task::unmarked(p, l.tombstone), ..l };
            lemma_same_counts(l, u);
            lemma_same_counts(u, s.link);
            if w.len() > reserved {
                let v = u.reserved((w.len() - reserved) as usize, as_kex);
                lemma_reserving_keeps(u, (w.len() - reserved) as usize, as_kex);
                lemma_same_counts(v, s.link);
                lemma_link_keeps_on(l, u, v);
                lemma_link_keeps_on(l, v, s.link);
            } else if w.len() < reserved {
                let d = (reserved - w.len()) as usize;
                lemma_giving_back_keeps(u, d, as_kex);
                if d <= l.pending_bytes {
                    lemma_same_counts(u.refunded(d, as_kex), s.link);
                    lemma_link_keeps_on(l, u, u.refunded(d, as_kex));
                    lemma_link_keeps_on(l, u.refunded(d, as_kex), s.link);
                } else {
                    lemma_link_keeps_on(l, u, u.ledger_mismatched());
                }
            } else {
                lemma_link_keeps_on(l, u, s.link);
            }
        }
    }
}

/// Sealing a batch keeps the ledger.
proof fn lemma_seal_from_keeps(
    t: Task,
    l: Link,
    ps: Seq<Seq<u8>>,
    given: Seq<Result<Seq<u8>, Error>>,
    i: int,
)
    requires
        0 <= i,
    ensures
        link_keeps(l, t.seal_from(l, ps, given, i).0.link),
    decreases ps.len() - i,
{
    lemma_same_counts(l, l);
    if i < ps.len() {
        let s = t.seal_one(l, ps[i], true, writer_task::nth(given, i));
        lemma_seal_one_keeps(t, l, ps[i], true, writer_task::nth(given, i));
        if s.result is Ok {
            lemma_seal_from_keeps(s.task, s.link, ps, given, i + 1);
            lemma_link_keeps_on(l, s.link, t.seal_from(l, ps, given, i).0.link);
        }
    }
}

/// Every command keeps the ledger, whether its seals succeed or fail.
pub proof fn law_commands_keep_the_ledger(
    t: Task,
    l: Link,
    c: Cmd,
    given: Seq<Result<Seq<u8>, Error>>,
)
    ensures
        link_keeps(l, t.handle(l, c, given).link),
{
    let end = t.handle(l, c, given).link;
    lemma_same_counts(l, end);
    match c {
        Cmd::SealPayload(p) => lemma_handle_payload_keeps(t, l, p, given),
        Cmd::SealRaw(p) => lemma_handle_payload_keeps(t, l, p, given),
        Cmd::SealBatchAndInstallEpoch { payloads, .. } => {
            lemma_seal_from_keeps(t, l, payloads, given, 0);
            let (s, i) = t.seal_from(l, payloads, given, 0);
            if s.result is Ok {
                lemma_same_counts(s.link, end);
            } else {
                lemma_giving_back_keeps(
                    s.link,
                    writer::reservations(payloads.skip(i)),
                    true,
                );
            }
            lemma_link_keeps_on(l, s.link, end);
        },
        _ => {},
    }
}

/// One payload sealed, or given back.
proof fn lemma_handle_payload_keeps(
    t: Task,
    l: Link,
    p: Seq<u8>,
    given: Seq<Result<Seq<u8>, Error>>,
)
    ensures
        link_keeps(l, t.handle_payload(l, p, given).link),
{
    let s = t.seal_one(l, p, false, writer_task::nth(given, 0));
    lemma_seal_one_keeps(t, l, p, false, writer_task::nth(given, 0));
    if s.result is Err {
        lemma_giving_back_keeps(s.link, writer::reservation(p.len()), false);
        lemma_link_keeps_on(l, s.link, s.link.refunded(writer::reservation(p.len()), false));
    }
}

} // verus!
