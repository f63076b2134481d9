//! The session's loop, as decisions: what each turn does before it waits, what
//! each event leads to, how long to sleep at most, and how the session ends.
//! Waiting itself, and calling the application's handler, is the program's.
use vstd::prelude::*;

use crate::common_session;
use crate::common_session::Common;
use crate::error::Error;
use crate::server::requests;
use crate::server::sending;
use crate::server::session::{
    GlobalRequestResponse, KexAfterInstall, Peer, PendingKexPhase, Sess, Session,
};
use crate::server::supervisor;
use crate::server::supervisor::{DisconnectCause, WriteProgress, WriteWatchdog};
use crate::server::writer::WriterEvent;
use crate::sshbuffer::OUTBOUND_HIGH_WATERMARK;
use crate::wire;

verus! {

/// Messages of the application that one turn takes at most before it looks at
/// the client again.
pub const MAX_MESSAGES_PER_BATCH: usize = 64;

/// The longest sleep, in milliseconds, where nothing else sets one.
pub const LONGEST_SLEEP: u64 = 3_600_000;

/// The reason code of a DISCONNECT that this side decides on.
pub const BY_APPLICATION: u32 = 11;

/// How often, in milliseconds, an install that waits to be submitted is tried.
pub const SUBMIT_RETRY: u64 = 20;

/// What the loop watches over: the first cause to stop, the handshake's
/// deadline, and the writer's progress.
#[derive(Clone, Copy, Debug, PartialEq, Eq, Structural)]
pub struct Supervisor {
    pub watchdog: WriteWatchdog,
    pub handshake_done: bool,
    pub handshake_deadline_at: u64,
    pub cause: Option<DisconnectCause>,
    /// The session was still up when it was stopped, and its client has not
    /// been told why.
    pub unannounced: bool,
    pub last_progress: WriteProgress,
}

/// How a turn goes on.
#[derive(Clone, Copy, Debug, PartialEq, Eq, Structural)]
pub enum RoundStep {
    /// With the next part of the turn.
    Go,
    /// With the next turn.
    Again,
    /// The loop is over.
    Leave,
}

/// What the reader task reports.
#[derive(Clone, Copy, Debug, PartialEq, Eq, Structural)]
pub enum ReaderEvent {
    InstallAckInbound { generation: u64 },
    ReadError,
    CtrlFull,
    Eof,
}

/// Which timers start over at the end of a turn.
#[derive(Clone, Copy, Debug, PartialEq, Eq, Structural)]
pub struct TimerResets {
    pub keepalive: bool,
    pub inactivity: bool,
}

impl Supervisor {
    /// A cause recorded, unless there is one already.
    pub open spec fn recorded(self, c: DisconnectCause) -> Supervisor {
        Supervisor {
            cause: match self.cause {
                Some(first) => Some(first),
                None => Some(c),
            },
            ..self
        }
    }

    /// Nothing has happened yet.
    pub fn new(handshake_deadline_at: u64, progress: WriteProgress) -> (r: Supervisor)
        ensures
            r == (Supervisor {
                watchdog: WriteWatchdog::idle(),
                handshake_done: false,
                handshake_deadline_at,
                cause: None,
                unannounced: false,
                last_progress: progress,
            }),
    {
        Supervisor {
            watchdog: WriteWatchdog::new(),
            handshake_done: false,
            handshake_deadline_at,
            cause: None,
            unannounced: false,
            last_progress: progress,
        }
    }

    /// Records a cause, unless there is one already.
    pub fn record(&mut self, c: DisconnectCause)
        ensures
            *final(self) == old(self).recorded(c),
    {
        if self.cause.is_none() {
            self.cause = Some(c);
        }
    }
}

/// A session and its supervisor.
#[verifier::ext_equal]
pub struct Turn {
    pub sess: Sess,
    pub sup: Supervisor,
}

impl Peer {
    /// The loop is to end.
    pub open spec fn halted(self) -> Peer {
        Peer { common: Common { disconnected: true, ..self.common }, ..self }
    }

    /// Authentication is over.
    pub open spec fn authenticated_already(self) -> bool {
        self.common.enc matches Some(e) && e.keys.state.spec_post_auth()
    }

    /// What is parked, staged and queued moved on, up to an error.
    #[verifier::opaque]
    pub open spec fn moved_on(self) -> (Peer, Result<(), Error>) {
        let (a, r) = self.retried();
        if r is Err {
            (a, r)
        } else {
            let (b, q) = a.flushed();
            if q is Err {
                (b, q)
            } else {
                b.data_drained()
            }
        }
    }

    /// New messages of the application may be taken: no key exchange is under
    /// way, and the backlog is below the high watermark.
    pub open spec fn receives(self) -> bool {
        !self.blocked() && self.backlog() < OUTBOUND_HIGH_WATERMARK
    }

    /// Asked whether new messages may be taken: a refusal on account of the
    /// backlog is counted.
    pub open spec fn intake_asked(self) -> (Peer, bool) {
        if self.blocked() {
            (self, false)
        } else if self.receives() {
            (self.sampled(), true)
        } else {
            (self.sampled().intake_refused(), false)
        }
    }

    /// Asked whether one turn may take another message, after `drained` of
    /// them: a refusal on account of the backlog is counted.
    pub open spec fn intake_asked_again(self, drained: usize) -> (Peer, bool) {
        if drained >= MAX_MESSAGES_PER_BATCH {
            (self, false)
        } else if self.backlog() < OUTBOUND_HIGH_WATERMARK {
            (self.sampled(), true)
        } else {
            (self.sampled().intake_refused(), false)
        }
    }

    /// An install waits to be submitted.
    pub open spec fn waits_to_submit(self) -> bool {
        self.install matches Some(p) && p.phase is NeedSubmit
    }
}

impl Sess {
    /// The client pinged, unless it has let too many pings go unanswered.
    pub open spec fn pinged(self) -> (Sess, Result<(), Error>) {
        let n = if self.peer.common.alive_timeouts == usize::MAX {
            usize::MAX
        } else {
            (self.peer.common.alive_timeouts + 1) as usize
        };
        let t = Sess {
            peer: Peer {
                common: Common { alive_timeouts: n, ..self.peer.common },
                ..self.peer
            },
            ..self
        };
        let max = self.peer.config.keepalive_max;
        if max != 0 && n > max {
            (t, Err(Error::KeepaliveTimeout))
        } else {
            t.asked(Some(GlobalRequestResponse::Keepalive), requests::keepalive_body())
        }
    }

    /// A turn ended: producers released, and the timers that start over.
    pub open spec fn turn_ended(self, sent_keepalive: bool) -> (Sess, TimerResets) {
        let heard = self.peer.common.received_data;
        (
            Sess {
                app: if self.peer.common.enc is Some {
                    self.app.released_all(self.drained_waits())
                } else {
                    self.app
                },
                peer: Peer {
                    common: Common {
                        alive_timeouts: if heard {
                            0
                        } else {
                            self.peer.common.alive_timeouts
                        },
                        ..self.peer.common
                    },
                    ..self.peer
                },
            },
            TimerResets { keepalive: heard || sent_keepalive, inactivity: !sent_keepalive },
        )
    }
}

/// The earlier of two times.
pub open spec fn sooner(a: u64, b: u64) -> u64 {
    if a < b {
        a
    } else {
        b
    }
}

/// A time, or the longest sleep.
pub open spec fn or_longest(t: Option<u64>) -> u64 {
    match t {
        Some(x) => x,
        None => LONGEST_SLEEP,
    }
}

impl Turn {
    /// The session stops for a cause; the first cause counts. One that is
    /// still up is owed an announcement.
    pub open spec fn stopped(self, c: DisconnectCause) -> Turn {
        Turn {
            sess: Sess { peer: self.sess.peer.halted(), ..self.sess },
            sup: Supervisor {
                unannounced: self.sup.unannounced || !self.sess.peer.common.disconnected,
                ..self.sup.recorded(c)
            },
        }
    }

    /// The session stops; no cause is recorded.
    pub open spec fn halted(self) -> Turn {
        Turn { sess: Sess { peer: self.sess.peer.halted(), ..self.sess }, ..self }
    }

    /// A cause that the session put down taken over.
    pub open spec fn cause_taken(self) -> Turn {
        match self.sess.peer.cause {
            Some(c) => (Turn {
                sess: Sess { peer: Peer { cause: None, ..self.sess.peer }, ..self.sess },
                ..self
            }).stopped(c),
            None => self,
        }
    }

    /// The part that faces the peer replaced.
    pub open spec fn with_peer(self, p: Peer) -> Turn {
        Turn { sess: Sess { peer: p, ..self.sess }, ..self }
    }

    /// A turn begun at the time `now`: an authentication that takes too long
    /// ends the session.
    pub open spec fn begun(self, now: u64) -> (Turn, RoundStep) {
        let p = self.sess.peer;
        let t = self.with_peer(
            (Peer { now, common: Common { received_data: false, ..p.common }, ..p }).needed(),
        );
        if self.sup.handshake_done {
            (t, RoundStep::Go)
        } else if p.authenticated_already() {
            (Turn { sup: Supervisor { handshake_done: true, ..t.sup }, ..t }, RoundStep::Go)
        } else if now >= self.sup.handshake_deadline_at {
            (t.stopped(DisconnectCause::HandshakeTimeout), RoundStep::Leave)
        } else {
            (t, RoundStep::Go)
        }
    }

    /// What waits moved on; a failure ends the session.
    pub open spec fn pushed(self) -> (Turn, RoundStep) {
        let (p, r) = self.sess.peer.moved_on();
        if r is Err {
            (self.with_peer(p).stopped(DisconnectCause::PeerError), RoundStep::Again)
        } else {
            (self.with_peer(p), RoundStep::Go)
        }
    }

    /// The watchdog brought up to date with the backlog and with what the
    /// writer wrote since the last turn.
    pub open spec fn watched(self, snap: WriteProgress) -> WriteWatchdog {
        let now = self.sess.peer.now;
        let seen = self.sup.watchdog.observed(self.sess.peer.backlog() as u64, now);
        if snap.drained_bytes_epoch > self.sup.last_progress.drained_bytes_epoch {
            seen.wrote(
                (snap.drained_bytes_epoch - self.sup.last_progress.drained_bytes_epoch) as usize,
                now,
            )
        } else {
            seen
        }
    }

    /// The deadlines looked at: a write path that has stalled and a key
    /// exchange that takes too long end the session.
    pub open spec fn deadlines_checked(self, snap: WriteProgress) -> (Turn, RoundStep) {
        let p = self.sess.peer;
        let w = self.watched(snap);
        let deadline = p.config.write_progress_deadline;
        let drain = p.config.write_min_drain;
        let t = Turn {
            sup: Supervisor {
                watchdog: w.polled(deadline, drain, p.now),
                last_progress: snap,
                ..self.sup
            },
            ..self.with_peer(p.sampled())
        };
        if w.stalled(deadline, drain, p.now) {
            (t.stopped(DisconnectCause::WriteStalled), RoundStep::Leave)
        } else if p.rekey_deadline.fires(p.active_gen(), p.now) {
            (t.stopped(DisconnectCause::RekeyTimeout), RoundStep::Leave)
        } else {
            (t, RoundStep::Go)
        }
    }

    /// An install that waits tried, and a cause that the session put down
    /// taken over.
    pub open spec fn install_tried(self) -> (Turn, RoundStep) {
        let t = self.with_peer(self.sess.peer.advanced());
        if t.sess.peer.cause is Some {
            (t.cause_taken(), RoundStep::Again)
        } else {
            (t, RoundStep::Go)
        }
    }

    /// The longest sleep that misses no deadline; at least one millisecond.
    pub open spec fn sleep(self) -> u64 {
        let p = self.sess.peer;
        let w = self.sup.watchdog;
        supervisor::at_least_one(
            sooner(
                sooner(
                    sooner(
                        sooner(
                            or_longest(w.activity_sleep(p.config.write_progress_deadline, p.now)),
                            or_longest(w.drain_sleep(p.config.write_min_drain, p.now)),
                        ),
                        or_longest(
                            match p.rekey_deadline.deadline_at {
                                Some(at) => Some(supervisor::sat_sub(at, p.now)),
                                None => None,
                            },
                        ),
                    ),
                    if self.sup.handshake_done {
                        LONGEST_SLEEP
                    } else {
                        supervisor::sat_sub(self.sup.handshake_deadline_at, p.now)
                    },
                ),
                if p.waits_to_submit() {
                    SUBMIT_RETRY
                } else {
                    LONGEST_SLEEP
                },
            ),
        )
    }

    /// A flush after the application's messages; a failure ends the session.
    pub open spec fn flushed(self) -> (Turn, bool) {
        let (p, r) = self.sess.peer.flushed();
        if r is Err {
            (self.with_peer(p).stopped(DisconnectCause::PeerError), false)
        } else {
            (self.with_peer(p), true)
        }
    }

    /// An install completed, if it is.
    pub open spec fn completed(self, x: (Peer, Option<KexAfterInstall>)) -> (Turn, bool) {
        match x.1 {
            Some(after) => (self.with_peer(x.0.after_install(after)), true),
            None => (self.with_peer(x.0), false),
        }
    }

    /// Kept packets were acted on, with (`ok`) or without success.
    pub open spec fn replayed(self, ok: bool) -> Turn {
        let a = if ok {
            self
        } else {
            self.stopped(DisconnectCause::PeerError)
        };
        let b = a.cause_taken();
        b.with_peer(b.sess.peer.flushed().0)
    }

    /// What the reader reported, or (`None`) that it has gone. The flag says
    /// that an install is complete and kept packets are to be acted on.
    pub open spec fn reader_reported(self, e: Option<ReaderEvent>) -> (Turn, bool) {
        match e {
            Some(ReaderEvent::InstallAckInbound { generation }) => self.completed(
                self.sess.peer.inbound_acked(generation),
            ),
            Some(ReaderEvent::ReadError) => (self.stopped(DisconnectCause::PeerError), false),
            Some(ReaderEvent::CtrlFull) => (self.stopped(DisconnectCause::PeerError), false),
            Some(ReaderEvent::Eof) => (self.halted(), false),
            None => (self.halted(), false),
        }
    }

    /// What the reader still reported after its messages had ended. The flag
    /// says that nothing more is to be expected.
    pub open spec fn reader_harvested(self, e: Option<ReaderEvent>) -> (Turn, bool) {
        match e {
            Some(ReaderEvent::InstallAckInbound { generation }) => {
                let (t, done) = self.completed(self.sess.peer.inbound_acked(generation));
                (
                    if done {
                        t.with_peer(t.sess.peer.flushed().0)
                    } else {
                        t
                    },
                    false,
                )
            },
            _ => (self.reader_reported(e).0, true),
        }
    }

    /// What the writer reported, or (`None`) that it has gone. The flag says
    /// that an install is complete and kept packets are to be acted on.
    pub open spec fn writer_reported(self, e: Option<WriterEvent>) -> (Turn, bool) {
        match e {
            Some(WriterEvent::InstallAckOutbound { generation }) => self.completed(
                self.sess.peer.outbound_acked(generation),
            ),
            _ => {
                let t = self.with_peer(self.sess.peer.install_failed());
                (
                    if t.sess.peer.cause is Some {
                        t.cause_taken()
                    } else {
                        t.stopped(DisconnectCause::PeerError)
                    },
                    false,
                )
            },
        }
    }

    /// The writer has room again: what is parked is taken up.
    pub open spec fn capacity_heard(self) -> (Turn, bool) {
        let (p, r) = self.sess.peer.retried();
        let t = self.with_peer(p);
        if r is Ok {
            (t, true)
        } else {
            (t.stopped(DisconnectCause::PeerError), false)
        }
    }

    /// The writer has room again: an install that waits is tried, and data
    /// goes out.
    pub open spec fn room_used(self) -> Turn {
        let a = self.with_peer(self.sess.peer.advanced()).cause_taken();
        let (p, r) = a.sess.peer.data_drained();
        if r is Err {
            a.with_peer(p).stopped(DisconnectCause::PeerError)
        } else {
            a.with_peer(p)
        }
    }

    /// What is staged and queued moved on at the end of a turn. A failure of
    /// the first does not keep the second from being tried.
    pub open spec fn closed_out(self) -> Turn {
        let a = self.flushed().0;
        let (p, r) = a.sess.peer.data_drained();
        if r is Err {
            a.with_peer(p).stopped(DisconnectCause::PeerError)
        } else {
            a.with_peer(p)
        }
    }
}

/// What the client is told when the session stops for `cause`.
pub open spec fn farewell_of(cause: DisconnectCause) -> Seq<char> {
    match cause {
        DisconnectCause::WriteStalled => "supervisor: WriteStalled"@,
        DisconnectCause::RekeyTimeout => "supervisor: RekeyTimeout"@,
        DisconnectCause::HandshakeTimeout => "supervisor: HandshakeTimeout"@,
        DisconnectCause::PeerError => "supervisor: PeerError"@,
        DisconnectCause::LocalShutdown => "supervisor: LocalShutdown"@,
    }
}

/// What the client is told when the session stops for `cause`.
fn farewell(cause: DisconnectCause) -> (r: &'static str)
    ensures
        r@ == farewell_of(cause),
        wire::text(r@).len() < 40,
{
    proof {
        reveal_strlit("supervisor: WriteStalled");
        reveal_strlit("supervisor: RekeyTimeout");
        reveal_strlit("supervisor: HandshakeTimeout");
        reveal_strlit("supervisor: PeerError");
        reveal_strlit("supervisor: LocalShutdown");
        sending::lemma_ascii_len("supervisor: WriteStalled");
        sending::lemma_ascii_len("supervisor: RekeyTimeout");
        sending::lemma_ascii_len("supervisor: HandshakeTimeout");
        sending::lemma_ascii_len("supervisor: PeerError");
        sending::lemma_ascii_len("supervisor: LocalShutdown");
    }
    match cause {
        DisconnectCause::WriteStalled => "supervisor: WriteStalled",
        DisconnectCause::RekeyTimeout => "supervisor: RekeyTimeout",
        DisconnectCause::HandshakeTimeout => "supervisor: HandshakeTimeout",
        DisconnectCause::PeerError => "supervisor: PeerError",
        DisconnectCause::LocalShutdown => "supervisor: LocalShutdown",
    }
}

impl Peer {
    /// A session that stopped for `cause`: a DISCONNECT, unless it was down
    /// before that, and what is staged moved on. With `unannounced` the stop
    /// itself is all that brought it down.
    pub open spec fn wound_up(self, cause: DisconnectCause, unannounced: bool) -> Peer {
        let s = if unannounced {
            Peer { common: Common { disconnected: false, ..self.common }, ..self }
        } else {
            self
        };
        s.disconnected(
            common_session::disconnect_body(
                BY_APPLICATION,
                wire::text(farewell_of(cause)),
                wire::text("en"@),
            ),
        ).0.flushed().0
    }
}

/// What a session that stopped for `cause` returns.
pub open spec fn outcome(cause: Option<DisconnectCause>, rekey_gen: u64) -> Result<(), Error> {
    match cause {
        Some(DisconnectCause::WriteStalled) => Err(Error::WriteStalled),
        Some(DisconnectCause::RekeyTimeout) => Err(Error::RekeyTimeout(rekey_gen)),
        Some(DisconnectCause::HandshakeTimeout) => Err(Error::HandshakeTimeout),
        _ => Ok(()),
    }
}

impl Session {
    /// The session and its supervisor.
    pub open spec fn turn(self, sup: Supervisor) -> Turn {
        Turn { sess: self@, sup }
    }

    /// Stops the session for a cause; the first cause counts. One that is still
    /// up is owed an announcement.
    pub fn stop_for(&mut self, sup: &mut Supervisor, cause: DisconnectCause)
        ensures
            final(self).turn(*final(sup)) == old(self).turn(*old(sup)).stopped(cause),
            old(self).peer().ok() ==> final(self).peer().ok(),
    {
        sup.record(cause);
        if !self.common.disconnected {
            sup.unannounced = true;
        }
        self.common.disconnected = true;
    }

    /// Takes a cause over that the session put down. Returns whether there was
    /// one.
    pub fn take_cause(&mut self, sup: &mut Supervisor) -> (r: bool)
        ensures
            r == (old(self).peer().cause is Some),
            final(self).turn(*final(sup)) == old(self).turn(*old(sup)).cause_taken(),
            old(self).peer().ok() ==> final(self).peer().ok(),
    {
        match self.pending_supervisor_cause {
            Some(c) => {
                self.pending_supervisor_cause = None;
                self.stop_for(sup, c);
                true
            },
            None => false,
        }
    }

    /// Begins a turn.
    pub fn begin_turn(&mut self, sup: &mut Supervisor, now: u64) -> (r: RoundStep)
        ensures
            (final(self).turn(*final(sup)), r) == old(self).turn(*old(sup)).begun(now),
            old(self).peer().ok() ==> final(self).peer().ok(),
    {
        self.now = now;
        self.common.received_data = false;
        self.note_needed();
        if !sup.handshake_done {
            let authenticated: bool = match &self.common.encrypted {
                Some(enc) => enc.state.post_auth(),
                None => false,
            };
            if authenticated {
                sup.handshake_done = true;
            } else if now >= sup.handshake_deadline_at {
                self.stop_for(sup, DisconnectCause::HandshakeTimeout);
                return RoundStep::Leave;
            }
        }
        RoundStep::Go
    }

    /// Moves on what is parked, staged and queued.
    fn move_on(&mut self) -> (r: Result<(), Error>)
        requires
            old(self).peer().ok(),
        ensures
            final(self).app() == old(self).app(),
            (final(self).peer(), r) == old(self).peer().moved_on(),
            final(self).peer().ok(),
    {
        proof {
            reveal(Peer::moved_on);
            crate::server::flush::lemma_retried_keeps(self.peer());
        }
        self.retry_pending_outbound()?;
        self.flush()?;
        self.try_drain_pending_data_under_budget()
    }

    /// Moves on what waits, before the backlog is looked at.
    pub fn push_outbound(&mut self, sup: &mut Supervisor) -> (r: RoundStep)
        requires
            old(self).peer().ok(),
        ensures
            (final(self).turn(*final(sup)), r) == old(self).turn(*old(sup)).pushed(),
            final(self).peer().ok(),
    {
        if self.move_on().is_err() {
            self.stop_for(sup, DisconnectCause::PeerError);
            return RoundStep::Again;
        }
        RoundStep::Go
    }

    /// Looks at the deadlines. `snap` is what the writer has published.
    pub fn check_deadlines(&mut self, sup: &mut Supervisor, snap: WriteProgress) -> (r: RoundStep)
        ensures
            (final(self).turn(*final(sup)), r) == old(self).turn(*old(sup)).deadlines_checked(snap),
            old(self).peer().ok() ==> final(self).peer().ok(),
    {
        let backlog: usize = self.sealed_backlog_bytes();
        sup.watchdog.observe_eligible(backlog as u64, self.now);
        if snap.drained_bytes_epoch > sup.last_progress.drained_bytes_epoch {
            #[verifier::truncate]
            let delta: usize = (snap.drained_bytes_epoch - sup.last_progress.drained_bytes_epoch)
                as usize;
            sup.watchdog.note_write_ok(delta, self.now);
        }
        sup.last_progress = snap;
        if let Some(cause) = sup.watchdog.poll_timeout(
            self.config.write_progress_deadline,
            self.config.write_min_drain,
            self.now,
        ) {
            self.stop_for(sup, cause);
            return RoundStep::Leave;
        }
        let active = self.active_rekey_gen();
        if self.rekey_deadline.poll(active, self.now).is_some() {
            self.stop_for(sup, DisconnectCause::RekeyTimeout);
            return RoundStep::Leave;
        }
        RoundStep::Go
    }

    /// Whether new messages of the application may be taken. A refusal on
    /// account of the backlog is counted.
    pub fn can_receive_outbound(&mut self) -> (r: bool)
        ensures
            final(self).app() == old(self).app(),
            (final(self).peer(), r) == old(self).peer().intake_asked(),
            r == old(self).peer().receives(),
            old(self).peer().ok() ==> final(self).peer().ok(),
    {
        if self.blocks_outbound_intake() {
            return false;
        }
        if self.sealed_backlog_bytes() < OUTBOUND_HIGH_WATERMARK {
            return true;
        }
        self.note_intake_refused();
        false
    }

    /// Whether new messages of the application may still be taken.
    pub fn has_intake_room(&mut self) -> (r: bool)
        ensures
            final(self).app() == old(self).app(),
            r == old(self).peer().receives(),
            final(self).peer() == (if old(self).peer().blocked() {
                old(self).peer()
            } else {
                old(self).peer().sampled()
            }),
            old(self).peer().ok() ==> final(self).peer().ok(),
    {
        !self.blocks_outbound_intake() && self.sealed_backlog_bytes() < OUTBOUND_HIGH_WATERMARK
    }

    /// Whether one turn may take another message, after `drained` of them. A
    /// refusal on account of the backlog is counted.
    pub fn may_dispatch(&mut self, drained: usize) -> (r: bool)
        ensures
            final(self).app() == old(self).app(),
            (final(self).peer(), r) == old(self).peer().intake_asked_again(drained),
            old(self).peer().ok() ==> final(self).peer().ok(),
    {
        if drained >= MAX_MESSAGES_PER_BATCH {
            return false;
        }
        if self.sealed_backlog_bytes() < OUTBOUND_HIGH_WATERMARK {
            return true;
        }
        self.note_intake_refused();
        false
    }

    /// Flushes after a message of the application. Returns whether that went
    /// well.
    pub fn flush_turn(&mut self, sup: &mut Supervisor) -> (r: bool)
        requires
            old(self).peer().ok(),
        ensures
            (final(self).turn(*final(sup)), r) == old(self).turn(*old(sup)).flushed(),
            final(self).peer().ok(),
    {
        if self.flush().is_err() {
            self.stop_for(sup, DisconnectCause::PeerError);
            return false;
        }
        true
    }

    /// Tries an install that waits.
    pub fn try_install(&mut self, sup: &mut Supervisor) -> (r: RoundStep)
        ensures
            (final(self).turn(*final(sup)), r) == old(self).turn(*old(sup)).install_tried(),
            old(self).peer().ok() ==> final(self).peer().ok(),
    {
        self.try_advance_pending_kex_install();
        if self.take_cause(sup) {
            return RoundStep::Again;
        }
        RoundStep::Go
    }

    /// How long to sleep at most, in milliseconds.
    pub fn supervisor_sleep(&self, sup: &Supervisor) -> (r: u64)
        ensures
            r == self.turn(*sup).sleep(),
    {
        let mut t: u64 = match sup.watchdog.next_activity_deadline(
            self.config.write_progress_deadline,
            self.now,
        ) {
            Some(x) => x,
            None => LONGEST_SLEEP,
        };
        let drain: u64 = match sup.watchdog.next_min_drain_deadline(
            self.config.write_min_drain,
            self.now,
        ) {
            Some(x) => x,
            None => LONGEST_SLEEP,
        };
        if drain <= t {
            t = drain;
        }
        let rekey: u64 = match self.rekey_deadline.remaining(self.now) {
            Some(x) => x,
            None => LONGEST_SLEEP,
        };
        if rekey <= t {
            t = rekey;
        }
        let handshake: u64 = if sup.handshake_done {
            LONGEST_SLEEP
        } else {
            sup.handshake_deadline_at.saturating_sub(self.now)
        };
        if handshake <= t {
            t = handshake;
        }
        let waits: bool = match &self.pending_kex_install {
            Some(p) => match p.phase {
                PendingKexPhase::NeedSubmit { .. } => true,
                _ => false,
            },
            None => false,
        };
        let submit: u64 = if waits {
            SUBMIT_RETRY
        } else {
            LONGEST_SLEEP
        };
        if submit <= t {
            t = submit;
        }
        if t == 0 {
            1
        } else {
            t
        }
    }

    /// Completes an install, if it is complete.
    fn complete(&mut self, after: Option<KexAfterInstall>) -> (r: bool)
        requires
            old(self).peer().ok(),
            old(self).peer().algs_fit(),
        ensures
            final(self).app() == old(self).app(),
            r == (after is Some),
            final(self).peer() == (match after {
                Some(a) => old(self).peer().after_install(a),
                None => old(self).peer(),
            }),
            final(self).peer().ok(),
            final(self).peer().sig_algs == old(self).peer().sig_algs,
    {
        match after {
            Some(a) => {
                self.apply_kex_after_install(a);
                true
            },
            None => false,
        }
    }

    /// Acts on what the reader reported. Returns whether kept packets are to be
    /// acted on, with [`Session::after_replay`] to follow.
    pub fn on_reader_event(&mut self, sup: &mut Supervisor, event: Option<ReaderEvent>) -> (r: bool)
        requires
            old(self).peer().ok(),
            old(self).peer().algs_fit(),
        ensures
            (final(self).turn(*final(sup)), r) == old(self).turn(*old(sup)).reader_reported(event),
            final(self).peer().ok(),
    {
        match event {
            Some(ReaderEvent::InstallAckInbound { generation }) => {
                let after = self.on_install_ack_inbound(generation);
                self.complete(after)
            },
            Some(ReaderEvent::ReadError) | Some(ReaderEvent::CtrlFull) => {
                self.stop_for(sup, DisconnectCause::PeerError);
                false
            },
            Some(ReaderEvent::Eof) | None => {
                self.common.disconnected = true;
                false
            },
        }
    }

    /// Acts on what the reader still reported after its messages had ended.
    /// Returns whether nothing more is to be expected.
    pub fn harvest_reader_event(&mut self, sup: &mut Supervisor, event: Option<ReaderEvent>) -> (r:
        bool)
        requires
            old(self).peer().ok(),
            old(self).peer().algs_fit(),
        ensures
            (final(self).turn(*final(sup)), r) == old(self).turn(*old(sup)).reader_harvested(event),
            final(self).peer().ok(),
    {
        match event {
            Some(ReaderEvent::InstallAckInbound { generation }) => {
                let after = self.on_install_ack_inbound(generation);
                if self.complete(after) {
                    let _ = self.flush();
                }
                false
            },
            other => {
                let _ = self.on_reader_event(sup, other);
                true
            },
        }
    }

    /// Acts on what the writer reported. Returns whether kept packets are to
    /// be acted on, with [`Session::after_replay`] to follow.
    pub fn on_writer_event(&mut self, sup: &mut Supervisor, event: Option<WriterEvent>) -> (r: bool)
        requires
            old(self).peer().ok(),
            old(self).peer().algs_fit(),
        ensures
            (final(self).turn(*final(sup)), r) == old(self).turn(*old(sup)).writer_reported(event),
            final(self).peer().ok(),
    {
        match event {
            Some(WriterEvent::InstallAckOutbound { generation }) => {
                let after = self.on_install_ack_outbound(generation);
                self.complete(after)
            },
            _ => {
                self.fail_pending_kex_install();
                if !self.take_cause(sup) {
                    self.stop_for(sup, DisconnectCause::PeerError);
                }
                false
            },
        }
    }

    /// Goes on after kept packets were acted on, with (`ok`) or without
    /// success.
    pub fn after_replay(&mut self, sup: &mut Supervisor, ok: bool)
        requires
            old(self).peer().ok(),
        ensures
            final(self).turn(*final(sup)) == old(self).turn(*old(sup)).replayed(ok),
            final(self).peer().ok(),
    {
        if !ok {
            self.stop_for(sup, DisconnectCause::PeerError);
        }
        let _ = self.take_cause(sup);
        let _ = self.flush();
    }

    /// The writer has room again: hands parked commands over. Returns whether
    /// that went well, with put-off grants and [`Session::use_room`] to follow.
    pub fn on_capacity(&mut self, sup: &mut Supervisor) -> (r: bool)
        ensures
            (final(self).turn(*final(sup)), r) == old(self).turn(*old(sup)).capacity_heard(),
            old(self).peer().ok() ==> final(self).peer().ok(),
    {
        proof {
            crate::server::flush::lemma_retried_keeps(self.peer());
        }
        if self.retry_pending_outbound().is_err() {
            self.stop_for(sup, DisconnectCause::PeerError);
            return false;
        }
        true
    }

    /// Uses the room that the writer has: for an install that waits, then for
    /// data.
    pub fn use_room(&mut self, sup: &mut Supervisor)
        requires
            old(self).peer().ok(),
        ensures
            final(self).turn(*final(sup)) == old(self).turn(*old(sup)).room_used(),
            final(self).peer().ok(),
    {
        self.try_advance_pending_kex_install();
        let _ = self.take_cause(sup);
        if self.try_drain_pending_data_under_budget().is_err() {
            self.stop_for(sup, DisconnectCause::PeerError);
        }
    }

    /// The keepalive timer went off: pings the client, unless it has let too
    /// many pings go unanswered.
    pub fn on_keepalive(&mut self) -> (r: Result<(), Error>)
        ensures
            (final(self)@, r) == old(self)@.pinged(),
            old(self).peer().ok() ==> final(self).peer().ok(),
    {
        self.common.alive_timeouts = self.common.alive_timeouts.saturating_add(1);
        if self.config.keepalive_max != 0 && self.common.alive_timeouts
            > self.config.keepalive_max {
            return Err(Error::KeepaliveTimeout);
        }
        self.keepalive_request()
    }

    /// Moves on what is staged and queued at the end of a turn.
    pub fn close_out_turn(&mut self, sup: &mut Supervisor)
        requires
            old(self).peer().ok(),
        ensures
            final(self).turn(*final(sup)) == old(self).turn(*old(sup)).closed_out(),
            final(self).peer().ok(),
    {
        let _ = self.flush_turn(sup);
        if self.try_drain_pending_data_under_budget().is_err() {
            self.stop_for(sup, DisconnectCause::PeerError);
        }
    }

    /// Ends a turn: releases producers, and says which timers start over. A
    /// client that sent anything counts as alive.
    pub fn end_turn(&mut self, sent_keepalive: bool) -> (r: TimerResets)
        ensures
            (final(self)@, r) == old(self)@.turn_ended(sent_keepalive),
    {
        self.release_outbound_acks();
        if self.common.received_data {
            self.common.alive_timeouts = 0;
        }
        TimerResets {
            keepalive: self.common.received_data || sent_keepalive,
            inactivity: !sent_keepalive,
        }
    }

    /// Tells the client why the session stopped, where a cause is known and the
    /// session was up until then, and moves on what is staged.
    pub fn wind_up(&mut self, sup: &mut Supervisor)
        requires
            old(self).peer().ok(),
        ensures
            final(self).app() == old(self).app(),
            final(self).peer() == (match old(sup).cause {
                Some(c) => old(self).peer().wound_up(c, old(sup).unannounced),
                None => old(self).peer(),
            }),
            *final(sup) == (match old(sup).cause {
                Some(c) => Supervisor { unannounced: false, ..*old(sup) },
                None => *old(sup),
            }),
            final(self).peer().ok(),
    {
        if let Some(c) = sup.cause {
            if sup.unannounced {
                self.common.disconnected = false;
                sup.unannounced = false;
            }
            let words = farewell(c);
            proof {
                reveal_strlit("en");
                sending::lemma_ascii_len("en");
            }
            let _ = self.disconnect(BY_APPLICATION, words, "en");
            let _ = self.flush();
        }
    }

    /// What the session returns after it stopped.
    pub fn run_outcome(&self, sup: &Supervisor) -> (r: Result<(), Error>)
        ensures
            r == outcome(sup.cause, self.rekey_gen),
    {
        match sup.cause {
            Some(DisconnectCause::WriteStalled) => Err(Error::WriteStalled),
            Some(DisconnectCause::RekeyTimeout) => Err(Error::RekeyTimeout(self.rekey_gen)),
            Some(DisconnectCause::HandshakeTimeout) => Err(Error::HandshakeTimeout),
            _ => Ok(()),
        }
    }
}

/// The first cause that stopped the session is the one it returns.
pub proof fn law_first_cause_is_kept(t: Turn, a: DisconnectCause, b: DisconnectCause)
    ensures
        t.stopped(a).stopped(b).sup.cause == t.stopped(a).sup.cause,
        t.sup.cause is Some ==> t.stopped(a).sup.cause == t.sup.cause,
        t.sess.peer.cause is Some ==> t.sess.peer.caused(a).cause == t.sess.peer.cause,
{
}

/// A session that is stopped while it is up tells its client why, once: the
/// DISCONNECT goes out with the first cause, and none after it.
pub proof fn law_a_stop_is_announced_once(t: Turn, c: DisconnectCause, again: DisconnectCause)
    requires
        !t.sess.peer.common.disconnected,
        t.sup.cause is None,
    ensures
        ({
            let u = t.stopped(c);
            let body = common_session::disconnect_body(
                BY_APPLICATION,
                wire::text(farewell_of(c)),
                wire::text("en"@),
            );
            &&& u.sup.cause == Some(c)
            &&& u.sup.unannounced
            &&& u.sess.peer.wound_up(c, true) == t.sess.peer.disconnected(body).0.flushed().0
            &&& u.sess.peer.disconnected(body) == (u.sess.peer, Ok::<(), Error>(()))
            &&& !t.halted().stopped(again).sup.unannounced || t.sup.unannounced
        }),
{
    let p = t.sess.peer;
    let u = t.stopped(c).sess.peer;
    assert((Peer { common: Common { disconnected: false, ..u.common }, ..u }) =~= p);
}

/// No deadline is slept through: after the sleep that the loop asks for, at
/// the latest, each of them is looked at.
pub proof fn law_sleep_misses_no_deadline(t: Turn)
    ensures
        1 <= t.sleep() <= LONGEST_SLEEP,
        !t.sup.handshake_done ==> t.sleep() <= supervisor::at_least_one(
            supervisor::sat_sub(t.sup.handshake_deadline_at, t.sess.peer.now),
        ),
        t.sess.peer.rekey_deadline.deadline_at matches Some(at) ==> t.sleep()
            <= supervisor::at_least_one(supervisor::sat_sub(at, t.sess.peer.now)),
        t.sup.watchdog.activity_sleep(
            t.sess.peer.config.write_progress_deadline,
            t.sess.peer.now,
        ) matches Some(x) ==> t.sleep() <= x,
        t.sess.peer.waits_to_submit() ==> t.sleep() <= SUBMIT_RETRY,
{
}

} // verus!
