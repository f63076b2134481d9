//! The writer task at its socket and in its loop: which packets go into the
//! next write, what a write of some bytes leaves, and what to wait for next.
use bytes::Bytes;
use std::collections::VecDeque;
use vstd::prelude::*;

use crate::server::ledger::FullLedger;
use crate::server::supervisor::AtomicWriteProgress;
use crate::server::writer;
use crate::server::writer::{
    Cmd, KexCmd, Link, WriteErrorKind, WriterCmd, WriterEvent, WriterHandle, MAX_GATHER_SEGMENTS,
    OUT_Q_SOFT_CAP,
};
use crate::server::writer_task::{Task, WriterTask};
use crate::wire;
use crate::wire::{bytes_len, bytes_slice};

verus! {

/// The ledger and the packet list after `n` bytes left the head of the list.
pub open spec fn retire(l: FullLedger, segs: Seq<(usize, bool)>, n: nat) -> (
    FullLedger,
    Seq<(usize, bool)>,
)
    decreases segs.len(),
{
    if n == 0 {
        (l, segs)
    } else if segs.len() == 0 {
        (FullLedger { slot: l.slot.mismatched(), ..l }, segs)
    } else {
        let (rem, is_kex) = segs[0];
        let take: usize = if n < rem {
            n as usize
        } else {
            rem
        };
        let l2 = if is_kex {
            l.kex_from_writer(take)
        } else {
            l.debited(take)
        };
        if take < rem {
            (l2, segs.update(0, ((rem - take) as usize, is_kex)))
        } else {
            retire(l2, segs.drop_first(), (n - take) as nat)
        }
    }
}

/// Takes `n` written bytes off the head of the packet list, each under the
/// kind of the packet that it belongs to.
pub fn debit_drain_segments(segs: &mut VecDeque<(usize, bool)>, fl: &mut FullLedger, n: usize)
    ensures
        (*final(fl), final(segs)@) == retire(*old(fl), old(segs)@, n as nat),
{
    let mut n: usize = n;
    let ghost want = retire(*old(fl), old(segs)@, n as nat);
    while n > 0
        invariant_except_break
            want == retire(*fl, segs@, n as nat),
        ensures
            want == (*fl, segs@),
        decreases segs@.len() + n,
    {
        match segs.pop_front() {
            None => {
                fl.slot.note_mismatch();
                break ;
            },
            Some((rem, is_kex)) => {
                let take: usize = if n < rem {
                    n
                } else {
                    rem
                };
                if is_kex {
                    fl.debit_kex_from_writer(take);
                } else {
                    fl.debit(take);
                }
                let ghost rest = segs@;
                if take < rem {
                    segs.push_front((rem - take, is_kex));
                }
                n = n - take;
                proof {
                    let before = seq![(rem, is_kex)] + rest;
                    assert(before.drop_first() =~= rest);
                    if take < rem {
                        assert(segs@ =~= before.update(0, ((rem - take) as usize, is_kex)));
                    }
                }
            },
        }
    }
}

impl Task {
    /// The next packet at the head.
    pub open spec fn advanced(self) -> Task {
        Task {
            current: if self.out.len() > 0 {
                Some(self.out[0])
            } else {
                None
            },
            out: if self.out.len() > 0 {
                self.out.drop_first()
            } else {
                self.out
            },
            cursor: 0,
            ..self
        }
    }

    /// Bounds the steps until nothing is left to write.
    pub open spec fn depth(self) -> nat {
        2 * self.out.len() + if self.current is Some {
            1nat
        } else {
            0nat
        }
    }

    /// A packet with something left to write at the head, if there is one.
    pub open spec fn headed(self) -> Task
        decreases self.depth(),
    {
        match self.current {
            None => if self.out.len() > 0 {
                self.advanced().headed()
            } else {
                Task { cursor: 0, ..self }
            },
            Some(b) => if self.cursor >= b.len() {
                (Task { current: None, cursor: 0, ..self }).headed()
            } else {
                self
            },
        }
    }

    /// What one socket write is given: the rest of the head packet and, where
    /// the socket takes several buffers at once, packets behind it.
    pub open spec fn gathered(self, vectored: bool) -> Seq<Seq<u8>> {
        match self.current {
            Some(b) => {
                let all = seq![b.skip(self.cursor as int)] + self.out;
                if !vectored {
                    all.take(1)
                } else if all.len() > MAX_GATHER_SEGMENTS {
                    all.take(MAX_GATHER_SEGMENTS as int)
                } else {
                    all
                }
            },
            None => Seq::empty(),
        }
    }

    /// The packets after `left` bytes of them were written.
    pub open spec fn spent(self, left: nat) -> Task
        decreases self.depth(),
    {
        match self.current {
            None => self,
            Some(b) => {
                let remaining: nat = if self.cursor <= b.len() {
                    (b.len() - self.cursor) as nat
                } else {
                    0
                };
                if left < remaining {
                    Task { cursor: (self.cursor + left) as usize, ..self }
                } else if left == remaining {
                    self.advanced()
                } else {
                    self.advanced().spent((left - remaining) as nat)
                }
            },
        }
    }

    /// The task after a write of `n` bytes that the ledger can account for.
    pub open spec fn wrote(self, l: Link, n: usize) -> (Task, Link) {
        let paid = match l.full_ledger {
            Some(fl) => Some(
                retire(fl.at_writer((l.pending_bytes - n) as usize), self.segs, n as nat),
            ),
            None => None,
        };
        (
            (Task {
                segs: match paid {
                    Some(p) => p.1,
                    None => self.segs,
                },
                ..self
            }).spent(n as nat),
            Link {
                pending_bytes: (l.pending_bytes - n) as usize,
                capacity: true,
                full_ledger: match paid {
                    Some(p) => Some(p.0),
                    None => None,
                },
                ..l
            },
        )
    }

    /// Bytes sealed and not yet written, in order.
    pub open spec fn unsent(self) -> Seq<u8> {
        match self.current {
            Some(b) => if self.cursor <= b.len() {
                b.skip(self.cursor as int) + self.out.flatten()
            } else {
                self.out.flatten()
            },
            None => self.out.flatten(),
        }
    }
}

/// A packet at the head has something left to write.
pub proof fn lemma_headed(t: Task)
    ensures
        t.headed().current matches Some(b) ==> t.headed().cursor < b.len(),
    decreases t.depth(),
{
    match t.current {
        None => {
            if t.out.len() > 0 {
                lemma_headed(t.advanced());
            }
        },
        Some(b) => {
            if t.cursor >= b.len() {
                lemma_headed(Task { current: None, cursor: 0, ..t });
            }
        },
    }
}

/// What the task is to do next.
#[derive(Clone, Copy, Debug, PartialEq, Eq, Structural)]
pub enum WriterAction {
    /// Shut the socket down, answer and stop.
    Exit,
    /// Take another command.
    Pull,
    /// Look again shortly.
    Pause,
    /// Wait for the first of these.
    Wait {
        cancel: bool,
        control: bool,
        drain: bool,
        command: bool,
    },
}

impl WriterTask {
    /// Moves the head on to the next packet.
    fn advance(&mut self)
        ensures
            final(self)@ == old(self)@.advanced(),
    {
        let ghost before = self.out_q@;
        self.current = self.out_q.pop_front();
        self.flush_cursor = 0;
        proof {
            if before.len() > 0 {
                assert(writer::payloads_view(self.out_q@) =~= writer::payloads_view(
                    before,
                ).drop_first());
            } else {
                assert(writer::payloads_view(self.out_q@) =~= writer::payloads_view(before));
            }
        }
    }

    /// Puts a packet with something left to write at the head.
    fn seek_head(&mut self)
        ensures
            final(self)@ == old(self)@.headed(),
    {
        let ghost want = self@.headed();
        loop
            invariant_except_break
                self@.headed() == want,
            ensures
                self@ == want,
            decreases self@.depth(),
        {
            let over: bool = match &self.current {
                Some(b) => self.flush_cursor >= bytes_len(b),
                None => false,
            };
            if over {
                self.current = None;
                self.flush_cursor = 0;
            } else if self.current.is_some() {
                break ;
            } else if self.out_q.len() == 0 {
                self.flush_cursor = 0;
                break ;
            } else {
                self.advance();
            }
        }
    }

    /// What to hand the socket next; nothing where nothing is left.
    pub fn next_write(&mut self, link: &mut WriterHandle, vectored: bool) -> (r: Option<Vec<Bytes>>)
        ensures
            final(self)@ == old(self)@.headed(),
            r is Some <==> old(self)@.headed().current is Some,
            r matches Some(v) ==> writer::payloads_view(v@) == old(self)@.headed().gathered(
                vectored,
            ),
            final(link)@ == (Link {
                capacity: old(link)@.capacity || r is None,
                ..old(link)@
            }),
    {
        self.seek_head();
        let ghost want = self@;
        let mut v: Vec<Bytes> = Vec::new();
        match &self.current {
            None => {
                link.capacity = true;
                return None;
            },
            Some(b) => {
                proof {
                    lemma_headed(old(self)@);
                }
                v.push(bytes_slice(b, self.flush_cursor, bytes_len(b)));
                assert(wire::bytes_view(*b).subrange(
                    self.flush_cursor as int,
                    wire::bytes_view(*b).len() as int,
                ) =~= wire::bytes_view(*b).skip(self.flush_cursor as int));
            },
        }
        let ghost all = seq![self@.current->0.skip(self@.cursor as int)] + self@.out;
        assert(writer::payloads_view(v@) =~= all.take(1));
        let mut i: usize = 0;
        while vectored && i < self.out_q.len() && v.len() < MAX_GATHER_SEGMENTS
            invariant
                self@ == want,
                link@ == old(link)@,
                i <= self.out_q@.len(),
                v@.len() == i + 1,
                v@.len() <= MAX_GATHER_SEGMENTS,
                all == seq![self@.current->0.skip(self@.cursor as int)] + self@.out,
                writer::payloads_view(v@) == all.take(v@.len() as int),
                !vectored ==> i == 0,
            decreases self.out_q@.len() - i,
        {
            let b = &self.out_q[i];
            let ghost before = v@;
            v.push(bytes_slice(b, 0, bytes_len(b)));
            proof {
                assert(wire::bytes_view(*b).subrange(0, wire::bytes_view(*b).len() as int)
                    =~= wire::bytes_view(*b));
                assert(self@.out[i as int] == wire::bytes_view(*b));
                assert(writer::payloads_view(v@) =~= writer::payloads_view(before).push(
                    wire::bytes_view(*b),
                ));
                assert(all.take(before.len() as int + 1) =~= all.take(before.len() as int).push(
                    all[before.len() as int],
                ));
            }
            i = i + 1;
        }
        assert(all.take(all.len() as int) =~= all);
        Some(v)
    }

    /// Spends `n` written bytes on the packets in order.
    fn spend(&mut self, n: usize)
        ensures
            final(self)@ == old(self)@.spent(n as nat),
    {
        let ghost want = self@.spent(n as nat);
        let mut left: usize = n;
        loop
            invariant_except_break
                self@.spent(left as nat) == want,
            ensures
                self@ == want,
            decreases self@.depth(),
        {
            let remaining: usize = match &self.current {
                None => {
                    break ;
                },
                Some(b) => bytes_len(b).saturating_sub(self.flush_cursor),
            };
            if left < remaining {
                self.flush_cursor = self.flush_cursor + left;
                break ;
            }
            left = left - remaining;
            self.advance();
            if left == 0 {
                break ;
            }
        }
    }

    /// The socket took `n` bytes of what it was given. Returns whether all is
    /// written, so that the socket is to be flushed.
    pub fn note_written(
        &mut self,
        link: &mut WriterHandle,
        progress: &mut AtomicWriteProgress,
        n: usize,
        now_ms: u64,
    ) -> (r: Result<bool, WriteErrorKind>)
        ensures
            final(progress).inner == old(progress).inner.noted(n, now_ms),
            if n == 0 {
                &&& r == Err::<bool, WriteErrorKind>(WriteErrorKind::WriteZero)
                &&& final(self)@ == old(self)@
                &&& final(link)@ == old(link)@
            } else if n > old(link)@.pending_bytes {
                &&& r == Err::<bool, WriteErrorKind>(WriteErrorKind::Ledger)
                &&& final(self)@ == old(self)@
                &&& final(link)@ == old(link)@.ledger_mismatched()
            } else {
                &&& r == Ok::<bool, WriteErrorKind>(!final(self)@.has_out())
                &&& (final(self)@, final(link)@) == old(self)@.wrote(old(link)@, n)
            },
    {
        if n == 0 {
            return Err(WriteErrorKind::WriteZero);
        }
        progress.note_write(n, now_ms);
        if n > link.pending_bytes {
            link.note_ledger_mismatch();
            return Err(WriteErrorKind::Ledger);
        }
        link.pending_bytes = link.pending_bytes - n;
        if let Some(mut fl) = link.full_ledger {
            fl.note_writer(link.pending_bytes);
            debit_drain_segments(&mut self.drain_segs, &mut fl, n);
            link.full_ledger = Some(fl);
        }
        link.capacity = true;
        self.spend(n);
        Ok(self.current.is_none() && self.out_q.len() == 0)
    }

    /// The top of a round: publishes what waits for the socket and takes in
    /// every request to stop. Of several requests the last is answered.
    pub fn begin_round(
        &mut self,
        link: &mut WriterHandle,
        progress: &mut AtomicWriteProgress,
        cancelled: bool,
    )
        ensures
            final(progress).inner == old(progress).inner.eligible(old(link)@.pending_bytes as u64),
            final(link)@ == (Link { kex: Seq::empty(), ..old(link)@ }),
            final(self)@ == old(self)@.round_begun(old(link)@, cancelled),
    {
        progress.store_eligible(link.pending_bytes as u64);
        if self.poll_cancel && cancelled {
            self.shutting_down = true;
            self.poll_cancel = false;
        }
        let ghost start = *self;
        let ghost kex = link.kex@;
        let ghost mut seen: int = 0;
        while link.kex.len() > 0
            invariant
                0 <= seen <= kex.len(),
                link.kex@ == kex.skip(seen),
                kex == old(link)@.kex,
                link@ == (Link { kex: link.kex@, ..old(link)@ }),
                self@ == (Task {
                    shutdown_ack: if seen > 0 {
                        Some(kex[seen - 1]->Shutdown_0)
                    } else {
                        start@.shutdown_ack
                    },
                    ..if seen > 0 {
                        start@.stopping()
                    } else {
                        start@
                    }
                }),
            decreases link.kex@.len(),
        {
            let ghost before = link.kex@;
            if let Some(KexCmd::Shutdown(ack)) = link.kex.pop_front() {
                self.shutting_down = true;
                self.poll_cancel = false;
                self.shutdown_ack = Some(ack);
                proof {
                    assert(before[0] == kex[seen]);
                    seen = seen + 1;
                    assert(link.kex@ =~= kex.skip(seen));
                }
            }
        }
        assert(link.kex@ =~= Seq::empty());
    }

    /// Takes the next command, as long as few packets wait or the task is
    /// stopping. Notices that no more commands will come.
    pub fn pull(&mut self, link: &mut WriterHandle) -> (r: Option<WriterCmd>)
        ensures
            (match r {
                Some(c) => Some(c@),
                None => None,
            }) == old(self)@.next_command(old(link)@),
            (final(self)@, final(link)@) == old(self)@.pulled(old(link)@),
    {
        if !self.dequeue_hold && self.out_q.len() < OUT_Q_SOFT_CAP {
            let ghost before = link.bulk@;
            match link.bulk.pop_front() {
                Some(cmd) => {
                    link.capacity = true;
                    assert(writer::cmds(link.bulk@) =~= writer::cmds(before).drop_first());
                    return Some(cmd);
                },
                None => {
                    if link.hung_up {
                        self.bulk_closed = true;
                        self.shutting_down = true;
                        self.poll_cancel = false;
                    }
                },
            }
        }
        if self.shutting_down && !self.bulk_closed {
            let ghost before = link.bulk@;
            match link.bulk.pop_front() {
                Some(cmd) => {
                    assert(writer::cmds(link.bulk@) =~= writer::cmds(before).drop_first());
                    return Some(cmd);
                },
                None => {
                    if link.hung_up {
                        self.bulk_closed = true;
                    }
                },
            }
        }
        None
    }

    /// What to do now that no command is to be taken at once.
    pub fn next_action(&self, link: &WriterHandle) -> (r: WriterAction)
        ensures
            r == self@.action(link@),
    {
        let has_out: bool = self.current.is_some() || self.out_q.len() > 0;
        if self.shutting_down && !has_out {
            if !self.bulk_closed && link.bulk.len() > 0 {
                return WriterAction::Pull;
            }
            return WriterAction::Exit;
        }
        if self.dequeue_hold {
            return WriterAction::Pause;
        }
        if self.socket_hang && has_out {
            return WriterAction::Pause;
        }
        WriterAction::Wait {
            cancel: self.poll_cancel,
            control: !self.shutting_down,
            drain: has_out,
            command: !self.shutting_down && !self.bulk_closed && self.out_q.len() < OUT_Q_SOFT_CAP,
        }
    }

    /// The session's cancel flag changed, or (`None`) its owner is gone.
    pub fn on_cancel(&mut self, changed: Option<bool>)
        ensures
            final(self)@ == old(self)@.cancel_heard(changed),
    {
        let stop: bool = match changed {
            Some(flag) => flag,
            None => true,
        };
        if stop {
            self.shutting_down = true;
            self.poll_cancel = false;
        }
    }

    /// A control command came in, or (`None`) none will any more.
    pub fn on_control(&mut self, cmd: Option<KexCmd>)
        ensures
            final(self)@ == old(self)@.control_heard(cmd),
    {
        self.shutting_down = true;
        self.poll_cancel = false;
        if let Some(KexCmd::Shutdown(ack)) = cmd {
            self.shutdown_ack = Some(ack);
        }
    }

    /// No command will come any more.
    pub fn on_commands_closed(&mut self, link: &mut WriterHandle)
        ensures
            final(self)@ == old(self)@.commands_ended(),
            final(link)@ == (Link { capacity: true, ..old(link)@ }),
    {
        self.bulk_closed = true;
        self.shutting_down = true;
        self.poll_cancel = false;
        link.capacity = true;
    }

    /// The task ends, after all was written or (with `failure`) after the
    /// socket failed.
    pub fn finish(
        &mut self,
        link: &mut WriterHandle,
        progress: &mut AtomicWriteProgress,
        failure: Option<WriteErrorKind>,
    )
        ensures
            final(self)@ == old(self)@.finished(failure),
            final(progress).inner == old(progress).inner.eligible(0),
            final(link)@ == old(link)@.left(),
    {
        match failure {
            Some(k) => {
                self.events.push(WriterEvent::WriteError(k));
            },
            None => {
                if let Some(ack) = self.shutdown_ack {
                    self.shutdown_ack = None;
                    self.acks.push((ack, Ok(())));
                }
            },
        }
        progress.store_eligible(0);
        link.capacity = true;
        link.closed = true;
    }
}

impl Link {
    /// The writer has gone.
    pub open spec fn left(self) -> Link {
        Link { capacity: true, closed: true, ..self }
    }
}

impl Task {
    /// The command that is taken next, if one is.
    pub open spec fn next_command(self, l: Link) -> Option<Cmd> {
        if self.pulls() && l.bulk.len() > 0 {
            Some(l.bulk[0])
        } else {
            None
        }
    }

    /// The task and its link after it looked for a command.
    pub open spec fn pulled(self, l: Link) -> (Task, Link) {
        if self.pulls() && l.bulk.len() > 0 {
            (
                self,
                Link {
                    bulk: l.bulk.drop_first(),
                    capacity: l.capacity || self.roomy(),
                    ..l
                },
            )
        } else {
            (self.pulled_none(l), l)
        }
    }

    /// The top of a round: every request to stop heard.
    pub open spec fn round_begun(self, l: Link, cancelled: bool) -> Task {
        Task {
            shutdown_ack: if l.kex.len() > 0 {
                Some(l.kex.last()->Shutdown_0)
            } else {
                self.shutdown_ack
            },
            ..if (self.poll_cancel && cancelled) || l.kex.len() > 0 {
                self.stopping()
            } else {
                self
            }
        }
    }

    /// The session's cancel flag changed, or (`None`) its owner is gone.
    pub open spec fn cancel_heard(self, changed: Option<bool>) -> Task {
        if changed == Some(false) {
            self
        } else {
            self.stopping()
        }
    }

    /// A control command came in, or (`None`) none will any more.
    pub open spec fn control_heard(self, cmd: Option<KexCmd>) -> Task {
        Task {
            shutdown_ack: match cmd {
                Some(KexCmd::Shutdown(ack)) => Some(ack),
                None => self.shutdown_ack,
            },
            ..self.stopping()
        }
    }

    /// No command will come any more.
    pub open spec fn commands_ended(self) -> Task {
        Task { bulk_closed: true, ..self.stopping() }
    }

    /// The task ended.
    pub open spec fn finished(self, failure: Option<WriteErrorKind>) -> Task {
        match failure {
            Some(k) => self.told(WriterEvent::WriteError(k)),
            None => match self.shutdown_ack {
                Some(ack) => (Task { shutdown_ack: None, ..self }).answered(ack, Ok(())),
                None => self,
            },
        }
    }

    /// Few enough packets wait for another command to be taken.
    pub open spec fn roomy(self) -> bool {
        !self.dequeue_hold && self.out.len() < OUT_Q_SOFT_CAP
    }

    /// A command is to be taken if one is there.
    pub open spec fn pulls(self) -> bool {
        self.roomy() || (self.shutting_down && !self.bulk_closed)
    }

    /// The task after it found no command to take.
    pub open spec fn pulled_none(self, l: Link) -> Task {
        let t = if self.roomy() && l.hung_up {
            Task { bulk_closed: true, ..self.stopping() }
        } else {
            self
        };
        if t.shutting_down && !t.bulk_closed && l.hung_up {
            Task { bulk_closed: true, ..t }
        } else {
            t
        }
    }

    /// What the task does once no command is to be taken at once.
    pub open spec fn action(self, l: Link) -> WriterAction {
        if self.shutting_down && !self.has_out() {
            if !self.bulk_closed && l.bulk.len() > 0 {
                WriterAction::Pull
            } else {
                WriterAction::Exit
            }
        } else if self.dequeue_hold || (self.socket_hang && self.has_out()) {
            WriterAction::Pause
        } else {
            WriterAction::Wait {
                cancel: self.poll_cancel,
                control: !self.shutting_down,
                drain: self.has_out(),
                command: !self.shutting_down && !self.bulk_closed && self.out.len()
                    < OUT_Q_SOFT_CAP,
            }
        }
    }
}

} // verus!
