//! How a session keeps the ledger of the whole pipeline, where its writer has
//! one: a command that is parked or taken up again moves the ledger with the
//! parked count, and what is staged and what waits with the next key enter it
//! whenever the backlog is looked at.
use vstd::prelude::*;

use crate::server::ledger::FullLedger;
use crate::server::parked::{ParkedCmd, PendingOutbound, PendingOutboundCmd};
use crate::server::pipeline;
use crate::server::session::{Peer, Session};
use crate::server::writer::Link;
use crate::wire;
use crate::wire::bytes_mut_as_slice;

verus! {

/// A ledger after a command of weight `w` was parked, which made it `parked` in
/// all.
#[verifier::opaque]
pub open spec fn ledger_parked(
    ledger: Option<FullLedger>,
    parked: usize,
    w: usize,
) -> Option<FullLedger> {
    match ledger {
        Some(fl) => Some(fl.at_session(parked).credited(w)),
        None => None,
    }
}

/// A ledger after a command of weight `w` was taken up again, which left
/// `parked` in all; with `short`, the parked count ran short of it.
#[verifier::opaque]
pub open spec fn ledger_unparked(
    ledger: Option<FullLedger>,
    parked: usize,
    w: usize,
    short: bool,
) -> Option<FullLedger> {
    match ledger {
        Some(fl) => {
            let l = fl.at_session(parked);
            Some(
                if short {
                    FullLedger { slot: l.slot.mismatched(), ..l }
                } else {
                    l.debited(w)
                },
            )
        },
        None => None,
    }
}

/// A ledger after the staged packets came to weigh `n`.
#[verifier::opaque]
pub open spec fn ledger_staged(ledger: Option<FullLedger>, n: usize) -> Option<FullLedger> {
    match ledger {
        Some(fl) => Some(fl.staging_at(n)),
        None => None,
    }
}

/// A ledger after `n` came to wait with the next key.
#[verifier::opaque]
pub open spec fn ledger_needing(ledger: Option<FullLedger>, n: usize) -> Option<FullLedger> {
    match ledger {
        Some(fl) => Some(fl.needing(n)),
        None => None,
    }
}

/// A ledger after the backlog was looked at: what is staged, what waits with
/// the next key, and the backlog itself.
#[verifier::opaque]
pub open spec fn ledger_sampled(
    ledger: Option<FullLedger>,
    staged: usize,
    need: usize,
    backlog: usize,
) -> Option<FullLedger> {
    match ledger {
        Some(fl) => {
            let l = fl.staging_at(staged).needing(need);
            Some(FullLedger { slot: l.slot.seen_backlog(backlog), ..l })
        },
        None => None,
    }
}

/// A ledger after new data was not taken in.
#[verifier::opaque]
pub open spec fn ledger_refusing(ledger: Option<FullLedger>) -> Option<FullLedger> {
    match ledger {
        Some(fl) => Some(FullLedger { slot: fl.slot.intake_blocked(), ..fl }),
        None => None,
    }
}

impl Peer {
    /// The ledger, if one is kept.
    pub open spec fn ledger(self) -> Option<FullLedger> {
        match self.link {
            Some(l) => l.full_ledger,
            None => None,
        }
    }

    /// The ledger replaced.
    pub open spec fn with_ledger(self, fl: Option<FullLedger>) -> Peer {
        Peer {
            link: match self.link {
                Some(l) => Some(Link { full_ledger: fl, ..l }),
                None => None,
            },
            ..self
        }
    }

    /// What an install that waits to be submitted reserves.
    pub open spec fn install_need(self) -> usize {
        match self.install {
            Some(p) => p.need(),
            None => 0,
        }
    }

    /// What is staged reserves.
    pub open spec fn staged_weight(self) -> usize {
        wire::sat(pipeline::wire_weight(self.unsent()))
    }

    /// A command parked behind the others.
    pub open spec fn park(self, c: ParkedCmd) -> Peer {
        let s = Peer { parked: self.parked.pushed_back(c), ..self };
        s.with_ledger(ledger_parked(s.ledger(), s.parked.bytes, c.weight()))
    }

    /// A command put back before the others.
    pub open spec fn park_front(self, c: ParkedCmd) -> Peer {
        let s = Peer { parked: self.parked.pushed_front(c), ..self };
        s.with_ledger(ledger_parked(s.ledger(), s.parked.bytes, c.weight()))
    }

    /// The first parked command taken up again.
    pub open spec fn unparked(self) -> Peer {
        let w = self.parked.q[0].weight();
        let s = Peer { parked: self.parked.popped(), ..self };
        s.with_ledger(
            ledger_unparked(s.ledger(), s.parked.bytes, w, w > self.parked.bytes),
        )
    }

    /// The first parked command taken up again, and the backlog looked at if
    /// the command weighs anything.
    pub open spec fn taken_up(self) -> Peer {
        if self.parked.q[0].weight() > 0 {
            self.unparked().sampled()
        } else {
            self.unparked()
        }
    }

    /// What is staged entered in the ledger.
    pub open spec fn restaged(self) -> Peer {
        self.with_ledger(ledger_staged(self.ledger(), self.staged_weight()))
    }

    /// What waits with the next key entered in the ledger.
    pub open spec fn needed(self) -> Peer {
        self.with_ledger(ledger_needing(self.ledger(), self.install_need()))
    }

    /// Nothing waits with the next key any more, as far as the ledger goes.
    pub open spec fn need_dropped(self) -> Peer {
        self.with_ledger(ledger_needing(self.ledger(), 0))
    }

    /// The backlog looked at.
    pub open spec fn sampled(self) -> Peer {
        self.with_ledger(
            ledger_sampled(
                self.ledger(),
                self.staged_weight(),
                self.install_need(),
                self.backlog(),
            ),
        )
    }

    /// New data not taken in, on account of the backlog.
    pub open spec fn intake_refused(self) -> Peer {
        self.with_ledger(ledger_refusing(self.ledger()))
    }
}

impl Session {
    /// Parks a command behind the others.
    pub(crate) fn park(&mut self, cmd: PendingOutboundCmd)
        ensures
            final(self).app() == old(self).app(),
            final(self).peer() == old(self).peer().park(cmd@),
    {
        let w: usize = PendingOutbound::weight_of(&cmd);
        self.pending_outbound.push_back_already_counted(cmd);
        self.credit_parked(w);
    }

    /// Puts a command back before the others.
    pub(crate) fn park_front(&mut self, cmd: PendingOutboundCmd)
        ensures
            final(self).app() == old(self).app(),
            final(self).peer() == old(self).peer().park_front(cmd@),
    {
        let w: usize = PendingOutbound::weight_of(&cmd);
        self.pending_outbound.push_front(cmd);
        self.credit_parked(w);
    }

    /// Moves the ledger with the parked count.
    fn credit_parked(&mut self, w: usize)
        ensures
            final(self).app() == old(self).app(),
            final(self).peer() == old(self).peer().with_ledger(
                ledger_parked(old(self).peer().ledger(), old(self).peer().parked.bytes, w),
            ),
    {
        proof {
            reveal(ledger_parked);
        }
        let parked: usize = self.pending_outbound.bytes();
        if let Some(writer) = &mut self.writer {
            if let Some(mut fl) = writer.full_ledger {
                fl.note_session(parked);
                fl.credit(w);
                writer.full_ledger = Some(fl);
            }
        }
    }

    /// Takes the first parked command up again.
    pub(crate) fn unpark(&mut self) -> (r: Option<PendingOutboundCmd>)
        ensures
            final(self).app() == old(self).app(),
            match r {
                Some(c) => old(self).peer().parked.q.len() > 0 && c@ == old(self).peer().parked.q[0]
                    && final(self).peer() == old(self).peer().unparked(),
                None => old(self).peer().parked.q.len() == 0 && final(self).peer()
                    == old(self).peer(),
            },
    {
        proof {
            reveal(ledger_unparked);
        }
        let before: usize = self.pending_outbound.bytes();
        let cmd = match self.pending_outbound.pop_front() {
            Some(c) => c,
            None => {
                return None;
            },
        };
        let w: usize = PendingOutbound::weight_of(&cmd);
        let parked: usize = self.pending_outbound.bytes();
        if let Some(writer) = &mut self.writer {
            if let Some(mut fl) = writer.full_ledger {
                fl.note_session(parked);
                if w > before {
                    fl.slot.note_mismatch();
                } else {
                    fl.debit(w);
                }
                writer.full_ledger = Some(fl);
            }
        }
        Some(cmd)
    }

    /// What is staged reserves.
    pub(crate) fn staged_weight(&self) -> (r: usize)
        ensures
            r == self.peer().staged_weight(),
    {
        match &self.common.encrypted {
            Some(enc) => Self::enc_write_wire_weight(
                bytes_mut_as_slice(&enc.write),
                enc.write_cursor,
            ),
            None => 0,
        }
    }

    /// What an install that waits to be submitted reserves.
    pub(crate) fn install_need(&self) -> (r: usize)
        ensures
            r == self.peer().install_need(),
    {
        match &self.pending_kex_install {
            Some(p) => p.need_submit_bytes(),
            None => 0,
        }
    }

    /// Enters what is staged in the ledger.
    pub(crate) fn note_staged(&mut self)
        ensures
            final(self).app() == old(self).app(),
            final(self).peer() == old(self).peer().restaged(),
    {
        proof {
            reveal(ledger_staged);
        }
        let staged: usize = self.staged_weight();
        if let Some(writer) = &mut self.writer {
            if let Some(mut fl) = writer.full_ledger {
                fl.set_enc_write(staged);
                writer.full_ledger = Some(fl);
            }
        }
    }

    /// Enters in the ledger that `n` waits with the next key.
    fn note_need(&mut self, n: usize)
        ensures
            final(self).app() == old(self).app(),
            final(self).peer() == old(self).peer().with_ledger(
                ledger_needing(old(self).peer().ledger(), n),
            ),
    {
        proof {
            reveal(ledger_needing);
        }
        if let Some(writer) = &mut self.writer {
            if let Some(mut fl) = writer.full_ledger {
                fl.set_kex_need(n);
                writer.full_ledger = Some(fl);
            }
        }
    }

    /// Enters what waits with the next key in the ledger.
    pub(crate) fn note_needed(&mut self)
        ensures
            final(self).app() == old(self).app(),
            final(self).peer() == old(self).peer().needed(),
    {
        let n: usize = self.install_need();
        self.note_need(n);
    }

    /// Enters in the ledger that nothing waits with the next key any more.
    pub(crate) fn note_need_dropped(&mut self)
        ensures
            final(self).app() == old(self).app(),
            final(self).peer() == old(self).peer().need_dropped(),
    {
        self.note_need(0);
    }

    /// Everything on its way to the socket, as the ledger will have it.
    pub(crate) fn backlog(&self) -> (r: usize)
        ensures
            r == self.peer().backlog(),
    {
        let writer: usize = match &self.writer {
            Some(w) => w.pending_bytes(),
            None => 0,
        };
        let pending: usize = self.pending_outbound.bytes();
        writer.saturating_add(pending).saturating_add(self.staged_weight()).saturating_add(
            self.install_need(),
        )
    }

    /// Everything on its way to the socket. The ledger, where one is kept, is
    /// brought up to date.
    pub fn sealed_backlog_bytes(&mut self) -> (r: usize)
        ensures
            r == old(self).peer().backlog(),
            final(self).app() == old(self).app(),
            final(self).peer() == old(self).peer().sampled(),
    {
        proof {
            reveal(ledger_sampled);
        }
        let n: usize = self.backlog();
        let staged: usize = self.staged_weight();
        let need: usize = self.install_need();
        if let Some(writer) = &mut self.writer {
            if let Some(mut fl) = writer.full_ledger {
                fl.set_enc_write(staged);
                fl.set_kex_need(need);
                fl.slot.note_live_hwm(n);
                writer.full_ledger = Some(fl);
            }
        }
        n
    }

    /// Counts that new data was not taken in on account of the backlog.
    pub(crate) fn note_intake_refused(&mut self)
        ensures
            final(self).app() == old(self).app(),
            final(self).peer() == old(self).peer().intake_refused(),
    {
        proof {
            reveal(ledger_refusing);
        }
        if let Some(writer) = &mut self.writer {
            if let Some(mut fl) = writer.full_ledger {
                fl.slot.note_intake_block();
                writer.full_ledger = Some(fl);
            }
        }
    }
}

} // verus!
