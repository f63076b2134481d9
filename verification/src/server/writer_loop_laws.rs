//! The writer task goes on until all is written, stops when it is told to, and
//! says so.
use vstd::prelude::*;

use crate::error::Error;
use crate::server::writer;
use crate::server::writer::{
    Cmd, KexCmd, Link, OutboundEpoch, WriteErrorKind, WriterEvent,
};
use crate::server::writer_drain::WriterAction;
use crate::server::writer_task;
use crate::server::writer_task::Task;
use crate::sshbuffer;
use crate::sshbuffer::{PacketSink, Stream};

verus! {

/// Commands are taken in the order in which they were queued, none twice and
/// none past another.
pub proof fn law_commands_are_taken_in_order(t: Task, l: Link)
    ensures
        ({
            let (u, m) = t.pulled(l);
            &&& t.next_command(l) matches Some(c) ==> seq![c] + m.bulk == l.bulk && u == t
            &&& t.next_command(l) is None ==> m.bulk == l.bulk
            &&& !t.dequeue_hold && t.out.len() < 64 && l.bulk.len() > 0 ==> t.next_command(
                l,
            ) is Some
            &&& t.shutting_down && !t.bulk_closed && l.bulk.len() > 0 ==> t.next_command(l) is Some
            &&& t.next_command(l) is Some && !t.shutting_down ==> m.capacity
            &&& m.pending_bytes == l.pending_bytes && m.tombstone == l.tombstone
            &&& u.out == t.out && u.current == t.current && u.cursor == t.cursor && u.sink
                == t.sink
        }),
{
    if l.bulk.len() > 0 {
        assert(seq![l.bulk[0]] + l.bulk.drop_first() =~= l.bulk);
    }
}

/// A session that hung up is noticed once its commands have been taken.
pub proof fn law_end_of_commands_is_noticed(t: Task, l: Link)
    requires
        l.bulk.len() == 0,
        l.hung_up,
        !t.dequeue_hold,
        t.out.len() < 64,
    ensures
        t.pulled(l).0.bulk_closed,
        t.pulled(l).0.shutting_down,
{
}

/// The task exits only when it was told to stop, all commands are taken and all
/// packets are written; and then it does. While something is sealed it writes,
/// unless it is held back; until it stops it listens for commands.
pub proof fn law_task_exits_when_all_is_done(t: Task, l: Link)
    ensures
        t.action(l) == WriterAction::Exit <==> t.shutting_down && t.current is None && t.out.len()
            == 0 && (t.bulk_closed || l.bulk.len() == 0),
        t.action(l) == WriterAction::Pull ==> l.bulk.len() > 0 && t.shutting_down,
        (t.current is Some || t.out.len() > 0) && !t.dequeue_hold && !t.socket_hang ==> (t.action(
            l,
        ) matches WriterAction::Wait { drain, .. } && drain),
        !t.shutting_down && !t.bulk_closed && !t.dequeue_hold && !t.socket_hang && t.out.len() < 64
            ==> (t.action(l) matches WriterAction::Wait { command, control, .. } && command
            && control),
        t.action(l) matches WriterAction::Wait { cancel, .. } ==> cancel == t.poll_cancel,
{
}

/// A request to stop is heard, whichever way it comes, and the last of several
/// is the one that is answered; what is sealed is left alone.
pub proof fn law_stop_is_heard(t: Task, l: Link, cancelled: bool, ack: u64)
    ensures
        ({
            let u = t.round_begun(l, cancelled);
            &&& l.kex.len() > 0 ==> u.shutting_down && (l.kex.last() matches KexCmd::Shutdown(a)
                && u.shutdown_ack == Some(a))
            &&& l.kex.len() == 0 ==> u.shutdown_ack == t.shutdown_ack
            &&& cancelled && t.poll_cancel ==> u.shutting_down
            &&& l.kex.len() == 0 && !(cancelled && t.poll_cancel) ==> u == t
            &&& u.out == t.out && u.current == t.current && u.cursor == t.cursor
        }),
        t.cancel_heard(Some(true)).shutting_down && t.cancel_heard(None).shutting_down,
        t.cancel_heard(Some(false)) == t,
        t.control_heard(Some(KexCmd::Shutdown(ack))).shutdown_ack == Some(ack),
        t.control_heard(Some(KexCmd::Shutdown(ack))).shutting_down,
        t.control_heard(None).shutting_down && t.control_heard(None).shutdown_ack
            == t.shutdown_ack,
        t.commands_ended().bulk_closed && t.commands_ended().shutting_down,
        t.commands_ended().out == t.out && t.control_heard(None).out == t.out,
{
}

/// The end of the task is told: a failure as such, and otherwise the one who
/// asked for it is answered, once. From then on the session cannot offer it
/// anything.
pub proof fn law_end_is_told(t: Task, l: Link, k: WriteErrorKind)
    ensures
        t.finished(Some(k)).events == t.events.push(WriterEvent::WriteError(k)),
        t.finished(Some(k)).acks == t.acks,
        t.finished(None).events == t.events,
        t.shutdown_ack matches Some(a) ==> t.finished(None).acks == t.acks.push(
            (a, Ok::<(), Error>(())),
        ) && t.finished(None).finished(None) == t.finished(None),
        t.shutdown_ack is None ==> t.finished(None) == t,
        l.left().closed,
        l.left().capacity,
        l.left().pending_bytes == l.pending_bytes,
{
}

/// A new key is reported and answered under its generation, and what goes out
/// behind it is sealed under it; where it asks for that, the sequence numbers
/// start over, else they go on.
pub proof fn law_new_key_is_in_force(t: Task, l: Link, e: OutboundEpoch, ack: u64)
    ensures
        ({
            let u = t.install_step(l, e, ack).task;
            &&& u.sink.cipher == e.cipher
            &&& e.reset_seqn ==> u.sink.seqn == 0
            &&& !e.reset_seqn ==> u.sink.seqn == t.sink.seqn
            &&& e.activate_compress ==> u.sink.compress == e.outbound_compression.stream()
            &&& !e.activate_compress ==> u.sink.compress == Stream::Off
            &&& u.acks == t.acks.push((ack, Ok::<(), Error>(())))
            &&& u.events == t.events.push(
                WriterEvent::InstallAckOutbound { generation: e.generation },
            )
            &&& u.out == t.out && u.current == t.current
            &&& t.install_step(l, e, ack).result is Ok
        }),
{
}

/// A batch that was sealed ends with its key in force and its answer given; one
/// that failed changes no key, is answered with the failure, and is reported.
pub proof fn law_batch_is_all_or_reported(
    t: Task,
    l: Link,
    payloads: Seq<Seq<u8>>,
    epoch: OutboundEpoch,
    ack: u64,
    given: Seq<Result<Seq<u8>, Error>>,
)
    ensures
        ({
            let c = Cmd::SealBatchAndInstallEpoch { payloads, epoch, ack };
            let s = t.handle(l, c, given);
            &&& s.result is Ok ==> s.task.sink.cipher == epoch.cipher && s.task.acks == t.acks.push(
                (ack, Ok::<(), Error>(())),
            ) && s.task.events == t.events.push(
                WriterEvent::InstallAckOutbound { generation: epoch.generation },
            )
            &&& s.result matches Err(e) ==> s.task.sink.cipher == t.sink.cipher && s.task.acks
                == t.acks.push((ack, Err::<(), Error>(e))) && s.task.events == t.events.push(
                WriterEvent::SealError,
            )
        }),
{
    lemma_seal_from(t, l, payloads, given, 0);
}

/// Sealing payloads reports nothing, and leaves the key.
proof fn lemma_seal_from(
    t: Task,
    l: Link,
    ps: Seq<Seq<u8>>,
    given: Seq<Result<Seq<u8>, Error>>,
    i: int,
)
    ensures
        t.seal_from(l, ps, given, i).0.task.sink.cipher == t.sink.cipher,
        t.seal_from(l, ps, given, i).0.task.acks == t.acks,
        t.seal_from(l, ps, given, i).0.task.events == t.events,
    decreases ps.len() - i,
{
    if i < ps.len() {
        let s = t.seal_one(l, ps[i], true, writer_task::nth(given, i));
        if s.result is Ok {
            lemma_seal_from(s.task, s.link, ps, given, i + 1);
        }
    }
}

/// A payload that cannot be sealed is reported, and its reservation is given
/// back.
pub proof fn law_failed_seal_is_reported(
    t: Task,
    l: Link,
    p: Seq<u8>,
    e: Error,
)
    requires
        p.len() > 0,
        !t.sink.cipher.is_clear(),
        !writer_task::should_drop(p, l.tombstone),
        writer::reservation(p.len()) <= l.pending_bytes,
    ensures
        ({
            let s = t.handle(l, Cmd::SealPayload(p), seq![Err(e)]);
            &&& s.result == Err::<(), Error>(e)
            &&& s.task.events == t.events.push(WriterEvent::SealError)
            &&& s.task.out == t.out
            &&& s.link.pending_bytes + writer::reservation(p.len()) == l.pending_bytes
        }),
{
}

/// Sealing takes a sequence number, and counts as one packet under the key in
/// force.
pub proof fn law_sealed_packet_is_counted(
    t: Task,
    l: Link,
    p: Seq<u8>,
    given: Option<Result<Seq<u8>, Error>>,
)
    requires
        p.len() > 0,
        !writer_task::should_drop(p, l.tombstone),
        t.seal_one(l, p, false, given).result is Ok,
        t.sink.seqn < u32::MAX,
        l.packets_this_epoch < u64::MAX,
    ensures
        t.seal_one(l, p, false, given).task.sink.seqn == t.sink.seqn + 1,
        t.seal_one(l, p, false, given).link.packets_this_epoch == l.packets_this_epoch + 1,
{
}

/// A mark ends with the CLOSE of its channel and with nothing else.
pub proof fn law_mark_ends_with_close(p: Seq<u8>, marks: Set<u32>, to: u32)
    ensures
        writer_task::unmarked(p, marks).contains(to) <==> marks.contains(to) && !(p.len() >= 5
            && p[0] == 97 && crate::wire::be_value(p.subrange(1, 5)) as u32 == to),
        writer_task::should_drop(p, marks) ==> p.len() >= 5 && marks.contains(
            crate::wire::be_value(p.subrange(1, 5)) as u32,
        ) && (93 <= p[0] && p[0] <= 100 && p[0] != 97),
        p.len() >= 5 && marks.contains(crate::wire::be_value(p.subrange(1, 5)) as u32) && (p[0]
            == 94 || p[0] == 95 || p[0] == 96 || p[0] == 93 || p[0] == 98 || p[0] == 99 || p[0]
            == 100) ==> writer_task::should_drop(p, marks),
{
}

/// A queue with room takes what it is offered, at its end, and counts it; a
/// full or closed one changes neither queue nor count.
pub proof fn law_queue_takes_what_fits(l: Link, p: Seq<u8>, raw: bool)
    requires
        p.len() > 0,
        l.pending_bytes + writer::reservation(p.len()) <= usize::MAX,
    ensures
        ({
            let m = l.offered_payload(p, raw);
            let c = if raw {
                Cmd::SealRaw(p)
            } else {
                Cmd::SealPayload(p)
            };
            let takes = !l.closed && l.bulk.len() < 256;
            &&& takes == l.takes_payload(p)
            &&& takes ==> m.bulk == l.bulk.push(c) && m.pending_bytes == l.pending_bytes
                + writer::reservation(p.len())
            &&& !takes ==> m.bulk == l.bulk && m.pending_bytes == l.pending_bytes
            &&& l.offered_payload(Seq::empty(), raw) == l
        }),
{
}

/// A write is given something whenever something is sealed: the rest of the
/// packet at the head, and, where the socket takes several buffers, up to
/// sixteen in all, in their order.
pub proof fn law_write_is_given_the_head(t: Task, vectored: bool)
    ensures
        ({
            let h = t.headed();
            let g = h.gathered(vectored);
            &&& h.current is Some ==> g.len() > 0 && g[0] == h.current->0.skip(h.cursor as int)
                && g[0].len() > 0 && g.len() <= 16
            &&& h.current is Some && !vectored ==> g.len() == 1
            &&& h.current is Some && vectored && h.out.len() < 16 ==> g.len() == h.out.len() + 1
            &&& h.current is Some ==> forall|i: int|
                1 <= i < g.len() ==> #[trigger] g[i] == h.out[i - 1]
            &&& h.current is None ==> g.len() == 0 && h.out.len() == 0
        }),
{
    crate::server::writer_drain::lemma_headed(t);
    lemma_none_left(t);
}

proof fn lemma_none_left(t: Task)
    ensures
        t.headed().current is None ==> t.headed().out.len() == 0,
    decreases t.depth(),
{
    match t.current {
        None => {
            if t.out.len() > 0 {
                lemma_none_left(t.advanced());
            }
        },
        Some(b) => {
            if t.cursor >= b.len() {
                lemma_none_left(Task { current: None, cursor: 0, ..t });
            }
        },
    }
}

} // verus!
