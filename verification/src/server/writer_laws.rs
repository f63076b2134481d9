//! What holds of the writer over all its steps: bytes leave in the order in
//! which they were sealed, and the pending count is what was taken in and has
//! not left.
use vstd::prelude::*;

use crate::error::Error;
use crate::server::writer;
use crate::server::writer::{Cmd, Link, OutboundEpoch};
use crate::server::writer_drain;
use crate::server::writer_task;
use crate::server::writer_task::Task;
use crate::wire;

verus! {

/// One more packet at the end.
pub proof fn lemma_flatten_push(s: Seq<Seq<u8>>, x: Seq<u8>)
    ensures
        s.push(x).flatten() == s.flatten() + x,
    decreases s.len(),
{
    if s.len() == 0 {
        assert(s.push(x).drop_first() =~= Seq::empty());
        assert(s.flatten() =~= Seq::empty());
        assert(s.push(x).flatten() =~= x + Seq::<Seq<u8>>::empty().flatten());
        assert(s.push(x).flatten() =~= s.flatten() + x);
    } else {
        lemma_flatten_push(s.drop_first(), x);
        assert(s.push(x).drop_first() =~= s.drop_first().push(x));
        assert(s.push(x).flatten() =~= s[0] + s.drop_first().push(x).flatten());
        assert(s.flatten() =~= s[0] + s.drop_first().flatten());
        assert(s.push(x).flatten() =~= s.flatten() + x);
    }
}

/// The first packets hold the first bytes.
proof fn lemma_flatten_take(s: Seq<Seq<u8>>, k: int)
    requires
        0 <= k <= s.len(),
    ensures
        s.take(k).flatten().is_prefix_of(s.flatten()),
    decreases k,
{
    if k == 0 {
        assert(s.take(0).flatten() =~= Seq::empty());
    } else {
        lemma_flatten_take(s.drop_first(), k - 1);
        assert(s.take(k).drop_first() =~= s.drop_first().take(k - 1));
        assert(s.take(k).flatten() =~= s[0] + s.drop_first().take(k - 1).flatten());
        assert(s.flatten() =~= s[0] + s.drop_first().flatten());
        let a = s.drop_first().take(k - 1).flatten();
        let b = s.drop_first().flatten();
        assert(a =~= b.take(a.len() as int));
        assert((s[0] + a) =~= (s[0] + b).take((s[0] + a).len() as int));
    }
}

/// The written part of a packet stays within the packet.
pub open spec fn cursor_ok(t: Task) -> bool {
    t.current matches Some(b) ==> t.cursor <= b.len()
}

/// Looking for the next packet neither loses nor reorders a byte.
pub proof fn law_seeking_keeps_the_bytes(t: Task)
    ensures
        t.headed().unsent() == t.unsent(),
        cursor_ok(t) ==> cursor_ok(t.headed()),
    decreases t.depth(),
{
    match t.current {
        None => {
            if t.out.len() > 0 {
                law_seeking_keeps_the_bytes(t.advanced());
                assert(t.out[0].skip(0) =~= t.out[0]);
                assert(t.out.flatten() =~= t.out[0] + t.out.drop_first().flatten());
            }
        },
        Some(b) => {
            if t.cursor >= b.len() {
                let u = Task { current: None, cursor: 0, ..t };
                law_seeking_keeps_the_bytes(u);
                assert(t.unsent() =~= u.unsent());
            }
        },
    }
}

/// What the socket is given is the beginning of what is not yet written.
pub proof fn law_gathered_bytes_come_first(t: Task, vectored: bool)
    requires
        cursor_ok(t),
    ensures
        t.gathered(vectored).flatten().is_prefix_of(t.unsent()),
{
    match t.current {
        None => {
            assert(t.gathered(vectored).flatten() =~= Seq::empty());
        },
        Some(b) => {
            let all = seq![b.skip(t.cursor as int)] + t.out;
            assert(all.drop_first() =~= t.out);
            assert(all.flatten() =~= b.skip(t.cursor as int) + t.out.flatten());
            assert(all.take(all.len() as int) =~= all);
            lemma_flatten_take(all, t.gathered(vectored).len() as int);
        },
    }
}

/// A write of `n` bytes takes the first `n` bytes off, whichever packets they
/// lie in.
pub proof fn law_writes_take_the_first_bytes(t: Task, n: nat)
    requires
        cursor_ok(t),
        n <= t.unsent().len(),
        forall|k: int| 0 <= k < t.out.len() ==> (#[trigger] t.out[k]).len() <= usize::MAX,
        t.current matches Some(b) ==> b.len() <= usize::MAX,
        t.current is None ==> t.out.len() == 0,
    ensures
        t.spent(n).unsent() == t.unsent().skip(n as int),
        cursor_ok(t.spent(n)),
    decreases t.depth(),
{
    match t.current {
        None => {
            assert(t.unsent() =~= Seq::empty());
            assert(t.unsent().skip(0) =~= t.unsent());
        },
        Some(b) => {
            let remaining: nat = (b.len() - t.cursor) as nat;
            let rest = t.advanced();
            if t.out.len() > 0 {
                assert(t.out[0].skip(0) =~= t.out[0]);
                assert(t.out.flatten() =~= t.out[0] + t.out.drop_first().flatten());
            }
            assert(rest.unsent() =~= t.out.flatten());
            if n < remaining {
                assert(t.spent(n).unsent() =~= t.unsent().skip(n as int));
            } else if n == remaining {
                assert(rest.unsent() =~= t.unsent().skip(n as int));
            } else {
                assert forall|k: int| 0 <= k < rest.out.len() implies (#[trigger] rest.out[k]).len()
                    <= usize::MAX by {
                    assert(rest.out[k] == t.out[k + 1]);
                }
                law_writes_take_the_first_bytes(rest, (n - remaining) as nat);
                assert(t.unsent().skip(n as int) =~= rest.unsent().skip(n - remaining));
            }
        },
    }
}

/// What the payloads reserve, without a machine limit.
pub open spec fn reserved_for(ps: Seq<Seq<u8>>) -> nat
    decreases ps.len(),
{
    if ps.len() == 0 {
        0
    } else {
        writer::reservation(ps[0].len()) as nat + reserved_for(ps.drop_first())
    }
}

/// Within the machine limit the reservations of a batch add up.
proof fn lemma_reservations(ps: Seq<Seq<u8>>)
    ensures
        writer::reservations(ps) == wire::sat(reserved_for(ps)),
    decreases ps.len(),
{
    if ps.len() > 0 {
        lemma_reservations(ps.drop_last());
        lemma_reserved_for_last(ps);
    }
}

/// The sum taken from the other end.
proof fn lemma_reserved_for_last(ps: Seq<Seq<u8>>)
    requires
        ps.len() > 0,
    ensures
        reserved_for(ps) == reserved_for(ps.drop_last()) + writer::reservation(ps.last().len()),
    decreases ps.len(),
{
    if ps.len() == 1 {
        assert(ps.drop_first() =~= Seq::empty());
        assert(ps.drop_last() =~= Seq::empty());
    } else {
        lemma_reserved_for_last(ps.drop_first());
        assert(ps.drop_first().drop_last() =~= ps.drop_last().drop_first());
        assert(ps.drop_first().last() == ps.last());
    }
}

/// What a command reserves.
pub open spec fn weight(c: Cmd) -> nat {
    match c {
        Cmd::SealPayload(p) => writer::reservation(p.len()) as nat,
        Cmd::SealRaw(p) => writer::reservation(p.len()) as nat,
        Cmd::SealBatchAndInstallEpoch { payloads, .. } => reserved_for(payloads),
        _ => 0,
    }
}

/// What the commands of a queue reserve.
pub open spec fn queue_weight(q: Seq<Cmd>) -> nat
    decreases q.len(),
{
    if q.len() == 0 {
        0
    } else {
        weight(q[0]) + queue_weight(q.drop_first())
    }
}

/// One more command at the end.
pub proof fn lemma_queue_weight_push(q: Seq<Cmd>, c: Cmd)
    ensures
        queue_weight(q.push(c)) == queue_weight(q) + weight(c),
    decreases q.len(),
{
    if q.len() == 0 {
        assert(q.push(c).drop_first() =~= Seq::empty());
        assert(queue_weight(Seq::<Cmd>::empty()) == 0);
    } else {
        lemma_queue_weight_push(q.drop_first(), c);
        assert(q.push(c).drop_first() =~= q.drop_first().push(c));
    }
}

/// The pending count is what the queue reserves, plus what is sealed and not
/// yet written, plus `more`.
pub open spec fn in_balance(t: Task, l: Link, more: nat) -> bool {
    l.pending_bytes == queue_weight(l.bulk) + t.unsent().len() + more
}

/// Offering a payload keeps the balance, whether it is taken or not.
pub proof fn law_offers_keep_the_balance(t: Task, l: Link, p: Seq<u8>, raw: bool)
    requires
        in_balance(t, l, 0),
        l.pending_bytes + writer::reservation(p.len()) <= usize::MAX,
    ensures
        in_balance(t, l.offered_payload(p, raw), 0),
{
    if p.len() > 0 {
        let c = if raw {
            Cmd::SealRaw(p)
        } else {
            Cmd::SealPayload(p)
        };
        lemma_queue_weight_push(l.bulk, c);
    }
}

/// Offering a batch keeps the balance, whether it is taken or not.
pub proof fn law_batch_offers_keep_the_balance(
    t: Task,
    l: Link,
    payloads: Seq<Seq<u8>>,
    epoch: OutboundEpoch,
)
    requires
        in_balance(t, l, 0),
        l.pending_bytes + reserved_for(payloads) <= usize::MAX,
    ensures
        in_balance(t, l.offered_batch(payloads, epoch), 0),
{
    lemma_reservations(payloads);
    lemma_queue_weight_push(
        l.bulk,
        Cmd::SealBatchAndInstallEpoch { payloads, epoch, ack: l.next_ack },
    );
}

/// The packets that a step adds keep within the machine limit: within what was
/// reserved for them, or with room to spare.
pub open spec fn fits(t: Task, l: Link, p: Seq<u8>, given: Option<Result<Seq<u8>, Error>>) -> bool {
    t.sink.seal_result(p, given) matches Ok(w) ==> w.len() <= writer::reservation(p.len())
        || l.pending_bytes + w.len() <= usize::MAX
}

/// One payload sealed or dropped gives up its reservation and adds its packet;
/// one that fails keeps the reservation for its caller to give back. No count
/// ever runs short.
pub proof fn lemma_seal_one_balance(
    t: Task,
    l: Link,
    p: Seq<u8>,
    as_kex: bool,
    given: Option<Result<Seq<u8>, Error>>,
    more: nat,
)
    requires
        in_balance(t, l, writer::reservation(p.len()) as nat + more),
        fits(t, l, p, given),
    ensures
        ({
            let s = t.seal_one(l, p, as_kex, given);
            &&& s.result is Ok ==> in_balance(s.task, s.link, more)
            &&& s.result is Err ==> in_balance(
                s.task,
                s.link,
                writer::reservation(p.len()) as nat + more,
            )
            &&& s.result is Err <==> !writer_task::should_drop(p, l.tombstone)
                && t.sink.seal_result(p, given) is Err
            &&& s.link.bulk == l.bulk
            &&& s.task.current == t.current
            &&& s.task.cursor == t.cursor
        }),
{
    if !writer_task::should_drop(p, l.tombstone) {
        match t.sink.seal_result(p, given) {
            Ok(w) => {
                lemma_flatten_push(t.out, w);
                let s = t.seal_one(l, p, as_kex, given);
                if w.len() > 0 {
                    assert(s.task.out == t.out.push(w));
                    assert(s.task.unsent().len() == t.unsent().len() + w.len());
                } else {
                    assert(s.task.unsent() == t.unsent());
                }
            },
            Err(_) => {},
        }
    }
}

/// Every payload of a batch, as far as it is sealed, keeps within the machine
/// limit.
pub open spec fn batch_fits(
    t: Task,
    l: Link,
    ps: Seq<Seq<u8>>,
    given: Seq<Result<Seq<u8>, Error>>,
    i: int,
) -> bool
    decreases ps.len() - i,
{
    if 0 <= i < ps.len() {
        let s = t.seal_one(l, ps[i], true, writer_task::nth(given, i));
        &&& fits(t, l, ps[i], writer_task::nth(given, i))
        &&& s.result is Ok ==> batch_fits(s.task, s.link, ps, given, i + 1)
    } else {
        true
    }
}

/// A batch gives up the reservation of what it sealed; from the payload that
/// failed on, the reservations stay.
proof fn lemma_seal_from_balance(
    t: Task,
    l: Link,
    ps: Seq<Seq<u8>>,
    given: Seq<Result<Seq<u8>, Error>>,
    i: int,
)
    requires
        0 <= i <= ps.len(),
        in_balance(t, l, reserved_for(ps.skip(i))),
        batch_fits(t, l, ps, given, i),
    ensures
        ({
            let (s, k) = t.seal_from(l, ps, given, i);
            &&& i <= k <= ps.len()
            &&& s.result is Ok ==> in_balance(s.task, s.link, 0)
            &&& s.result is Err ==> in_balance(s.task, s.link, reserved_for(ps.skip(k)))
        }),
    decreases ps.len() - i,
{
    if i < ps.len() {
        assert(ps.skip(i).drop_first() =~= ps.skip(i + 1));
        assert(ps.skip(i)[0] == ps[i]);
        lemma_seal_one_balance(
            t,
            l,
            ps[i],
            true,
            writer_task::nth(given, i),
            reserved_for(ps.skip(i + 1)),
        );
        let s = t.seal_one(l, ps[i], true, writer_task::nth(given, i));
        if s.result is Ok {
            lemma_seal_from_balance(s.task, s.link, ps, given, i + 1);
        }
    } else {
        assert(ps.skip(i) =~= Seq::empty());
    }
}

/// What a command adds keeps within the machine limit.
pub open spec fn cmd_fits(t: Task, l: Link, c: Cmd, given: Seq<Result<Seq<u8>, Error>>) -> bool {
    match c {
        Cmd::SealPayload(p) => fits(t, l, p, writer_task::nth(given, 0)),
        Cmd::SealRaw(p) => fits(t, l, p, writer_task::nth(given, 0)),
        Cmd::SealBatchAndInstallEpoch { payloads, .. } => batch_fits(t, l, payloads, given, 0),
        _ => true,
    }
}

/// Carrying out the command at the head of the queue keeps the balance,
/// whether its seals succeed or fail: a failed batch gives back the failed
/// payload and every one behind it.
pub proof fn law_commands_keep_the_balance(t: Task, l: Link, given: Seq<Result<Seq<u8>, Error>>)
    requires
        l.bulk.len() > 0,
        in_balance(t, l, 0),
        cmd_fits(t, Link { bulk: l.bulk.drop_first(), ..l }, l.bulk[0], given),
    ensures
        ({
            let s = t.handle(Link { bulk: l.bulk.drop_first(), ..l }, l.bulk[0], given);
            in_balance(s.task, s.link, 0)
        }),
{
    let popped = Link { bulk: l.bulk.drop_first(), ..l };
    let c = l.bulk[0];
    match c {
        Cmd::SealPayload(p) => {
            lemma_seal_one_balance(t, popped, p, false, writer_task::nth(given, 0), 0);
        },
        Cmd::SealRaw(p) => {
            lemma_seal_one_balance(t, popped, p, false, writer_task::nth(given, 0), 0);
        },
        Cmd::SealBatchAndInstallEpoch { payloads, epoch, ack } => {
            assert(payloads.skip(0) =~= payloads);
            lemma_seal_from_balance(t, popped, payloads, given, 0);
            let (s, k) = t.seal_from(popped, payloads, given, 0);
            lemma_reservations(payloads.skip(k));
            if s.result is Ok {
                let u = s.task.install_step(s.link, epoch, ack).task;
                assert(u.unsent() == s.task.unsent());
            }
        },
        _ => {},
    }
}

/// A write keeps the balance, and never runs the pending count short.
pub proof fn law_writes_keep_the_balance(t: Task, l: Link, n: usize)
    requires
        in_balance(t, l, 0),
        cursor_ok(t),
        0 < n <= t.unsent().len(),
        forall|k: int| 0 <= k < t.out.len() ==> (#[trigger] t.out[k]).len() <= usize::MAX,
        t.current matches Some(b) ==> b.len() <= usize::MAX,
        t.current is None ==> t.out.len() == 0,
    ensures
        n <= l.pending_bytes,
        ({
            let (u, m) = t.wrote(l, n);
            in_balance(u, m, 0)
        }),
{
    let segs = t.wrote(l, n).0.segs;
    let v = Task { segs: match l.full_ledger {
        Some(fl) => writer_drain::retire(
            fl.at_writer((l.pending_bytes - n) as usize),
            t.segs,
            n as nat,
        ).1,
        None => t.segs,
    }, ..t };
    assert(v.unsent() == t.unsent());
    law_writes_take_the_first_bytes(v, n as nat);
}

/// A task that was told to stop exits only when nothing is left to seal or to
/// write.
pub proof fn law_exit_leaves_nothing_behind(t: Task, l: Link)
    requires
        t.action(l) == writer_drain::WriterAction::Exit,
        t.bulk_closed ==> l.bulk.len() == 0,
    ensures
        l.bulk.len() == 0,
        t.unsent().len() == 0,
{
    assert(t.out.flatten() =~= Seq::empty());
}

/// Installing a key starts its packet count at zero and leaves every sealed
/// packet as it is.
pub proof fn law_install_starts_the_count(t: Task, l: Link, epoch: OutboundEpoch, ack: u64)
    ensures
        t.install_step(l, epoch, ack).link.packets_this_epoch == 0,
        t.install_step(l, epoch, ack).link.cipher_bytes == 0,
        t.install_step(l, epoch, ack).task.unsent() == t.unsent(),
        t.install_step(l, epoch, ack).task.sink.cipher == epoch.cipher,
{
}

/// A dropped packet takes neither a sequence number nor a place in the count.
pub proof fn law_drops_take_no_number(
    t: Task,
    l: Link,
    p: Seq<u8>,
    as_kex: bool,
    given: Option<Result<Seq<u8>, Error>>,
)
    requires
        writer_task::should_drop(p, l.tombstone),
    ensures
        t.seal_one(l, p, as_kex, given).task == t,
        t.seal_one(l, p, as_kex, given).link.packets_this_epoch == l.packets_this_epoch,
        t.seal_one(l, p, as_kex, given).result is Ok,
{
}

} // verus!
