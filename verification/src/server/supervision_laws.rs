//! When a connection is given up, and when it is not: progress puts a stall
//! off, silence is one; deadlines neither come early nor stay out.
use vstd::prelude::*;

use crate::error::Error;
use crate::server::parked::ParkedCmd;
use crate::server::requests;
use crate::server::run;
use crate::server::run::{ReaderEvent, RoundStep, Turn};
use crate::server::session::{GlobalRequestResponse, KexAfterInstall, Peer, Sess, SessionKexState};
use crate::server::supervisor;
use crate::server::supervisor::{
    DisconnectCause, MinDrain, RekeyDeadline, WriteProgress, WriteWatchdog,
};
use crate::server::writer::WriterEvent;

verus! {

/// After the socket took at least one byte at the time `t`, an armed watchdog
/// reports no missing progress before `t` plus the deadline, however many
/// bytes are found waiting meanwhile; and from then on it does.
pub proof fn law_progress_puts_the_stall_off(
    w: WriteWatchdog,
    n: usize,
    t: u64,
    bytes: u64,
    seen: u64,
    now: u64,
    deadline: u64,
)
    requires
        w.armed_at is Some,
        n > 0,
        bytes > 0,
        t <= now,
        t + deadline <= u64::MAX,
    ensures
        w.wrote(n, t).stalled(deadline, None, now) <==> now >= t + deadline,
        w.wrote(n, t).observed(bytes, seen).stalled(deadline, None, now) <==> now >= t + deadline,
        w.observed(bytes, seen).wrote(n, t).stalled(deadline, None, now) <==> now >= t + deadline,
{
}

/// A write of nothing is no progress: it changes nothing.
pub proof fn law_empty_write_is_no_progress(w: WriteWatchdog, t: u64)
    ensures
        w.wrote(0, t) == w,
{
}

/// The clock starts when bytes begin to wait, and stops when none do.
pub proof fn law_clock_runs_while_bytes_wait(
    w: WriteWatchdog,
    bytes: u64,
    t: u64,
    now: u64,
    deadline: u64,
    min_drain: Option<MinDrain>,
)
    requires
        t <= now,
        t + deadline <= u64::MAX,
        bytes > 0,
    ensures
        w.armed_at is None ==> (w.observed(bytes, t).stalled(deadline, None, now) <==> now >= t
            + deadline),
        !w.observed(0, t).stalled(deadline, min_drain, now),
        w.observed(0, t).armed_at is None,
        w.observed(bytes, t).armed_at is Some,
        w.armed_at is Some ==> (w.observed(bytes, t).stalled(deadline, min_drain, now)
            <==> w.stalled(deadline, min_drain, now)),
{
}

/// What a watchdog is told, in order.
pub enum Sight {
    /// The socket took bytes.
    Wrote(usize, u64),
    /// So many bytes were found waiting.
    Waiting(u64, u64),
    /// The deadlines were looked at.
    Look(u64),
}

/// A watchdog, and what its owner remembers of what it was told: since when no
/// byte has left while some waited, when the drain window began, and how much
/// left in it.
#[verifier::ext_equal]
pub struct Watch {
    pub dog: WriteWatchdog,
    pub since: Option<u64>,
    pub window_from: u64,
    pub left: nat,
}

impl Watch {
    /// More happened.
    pub open spec fn next(self, s: Sight, deadline: u64, min_drain: Option<MinDrain>) -> Watch {
        match s {
            Sight::Wrote(n, t) => Watch {
                dog: self.dog.wrote(n, t),
                since: if n > 0 && self.since is Some {
                    Some(t)
                } else {
                    self.since
                },
                left: self.left + n as nat,
                ..self
            },
            Sight::Waiting(bytes, t) => Watch {
                dog: self.dog.observed(bytes, t),
                since: if bytes == 0 {
                    None
                } else if self.since is None {
                    Some(t)
                } else {
                    self.since
                },
                window_from: if self.since is None {
                    t
                } else {
                    self.window_from
                },
                left: if bytes == 0 || self.since is None {
                    0
                } else {
                    self.left
                },
            },
            Sight::Look(t) => {
                let over = min_drain matches Some(m) && self.since is Some && t - self.window_from
                    >= m.window_ms && self.left >= m.min_bytes && (t - self.since->0) < deadline;
                Watch {
                    dog: self.dog.polled(deadline, min_drain, t),
                    window_from: if over {
                        t
                    } else {
                        self.window_from
                    },
                    left: if over {
                        0
                    } else {
                        self.left
                    },
                    ..self
                }
            },
        }
    }

    /// The watchdog goes by what its owner remembers.
    pub open spec fn agrees(self, now: u64) -> bool {
        &&& self.since is Some <==> self.dog.armed_at is Some
        &&& self.since matches Some(t) ==> t <= now && self.window_from <= now && forall|
            deadline: u64,
            later: u64,
        |
            later >= now ==> (#[trigger] self.dog.stalled(deadline, None, later) <==> later - t
                >= deadline)
        &&& self.since matches Some(t) ==> forall|m: MinDrain, later: u64|
            later >= now ==> (#[trigger] self.dog.too_slow(later, Some(m)) <==> later
                - self.window_from >= m.window_ms && self.left < m.min_bytes)
        &&& self.since is Some ==> self.dog.last_progress_at == self.since
            && self.dog.drain_window_start == Some(self.window_from) && self.dog.drained_in_window
            == (if self.left > u64::MAX {
            u64::MAX as nat
        } else {
            self.left
        })
    }
}

/// When something was seen.
pub open spec fn time_of(s: Sight) -> u64 {
    match s {
        Sight::Wrote(_, t) => t,
        Sight::Waiting(_, t) => t,
        Sight::Look(t) => t,
    }
}

/// Over any run the watchdog reports missing progress exactly when bytes have
/// been waiting, and none has left, for as long as the deadline; and too slow a
/// drain exactly when a window has gone by in which less left than it should.
pub proof fn law_watchdog_reports_silence_and_nothing_else(
    w: Watch,
    s: Sight,
    now: u64,
    deadline: u64,
    min_drain: Option<MinDrain>,
)
    requires
        w.agrees(now),
        time_of(s) >= now,
    ensures
        w.next(s, deadline, min_drain).agrees(time_of(s)),
{
}

/// A new watchdog has seen nothing.
pub proof fn law_new_watchdog_is_silent(now: u64)
    ensures
        (Watch { dog: WriteWatchdog::idle(), since: None, window_from: 0, left: 0 }).agrees(now),
        forall|deadline: u64, m: Option<MinDrain>, later: u64|
            !(#[trigger] WriteWatchdog::idle().stalled(deadline, m, later)),
{
}

/// The writer's count grows by what the socket took, at the time it took it.
pub proof fn law_progress_is_counted(p: WriteProgress, n: usize, t: u64)
    requires
        n > 0,
        p.drained_bytes_epoch + n <= u64::MAX,
    ensures
        p.noted(n, t).drained_bytes_epoch == p.drained_bytes_epoch + n,
        p.noted(n, t).last_write_ok_ms == t,
        p.noted(n, t).generation != p.generation,
        p.noted(n, t).wire_eligible_bytes <= p.wire_eligible_bytes,
        n <= p.wire_eligible_bytes ==> p.noted(n, t).wire_eligible_bytes + n
            == p.wire_eligible_bytes,
        p.noted(0, t) == p,
        p.eligible(n as u64).wire_eligible_bytes == n,
        p.eligible(n as u64).drained_bytes_epoch == p.drained_bytes_epoch,
        p.eligible(n as u64).last_write_ok_ms == p.last_write_ok_ms,
        p.eligible(n as u64).generation != p.generation,
{
}

/// A session whose writer wrote anything since the last look is not given up
/// for want of progress.
pub proof fn law_writing_session_is_not_stalled(t: Turn, snap: WriteProgress)
    requires
        snap.drained_bytes_epoch > t.sup.last_progress.drained_bytes_epoch,
        snap.drained_bytes_epoch - t.sup.last_progress.drained_bytes_epoch <= usize::MAX,
        t.sess.peer.config.write_progress_deadline > 0,
        t.sess.peer.config.write_min_drain is None,
        t.sup.cause is None,
    ensures
        t.deadlines_checked(snap).0.sup.cause != Some(DisconnectCause::WriteStalled),
        t.deadlines_checked(snap).0.sup.last_progress == snap,
{
}

/// A session with bytes waiting and none written for the deadline is given up,
/// with that cause unless there was one before.
pub proof fn law_silent_session_is_stalled(t: Turn, snap: WriteProgress)
    requires
        snap.drained_bytes_epoch <= t.sup.last_progress.drained_bytes_epoch,
        t.sess.peer.backlog() > 0,
        t.sup.watchdog.armed_at is Some,
        t.sup.watchdog.stalled(
            t.sess.peer.config.write_progress_deadline,
            t.sess.peer.config.write_min_drain,
            t.sess.peer.now,
        ),
    ensures
        t.deadlines_checked(snap).1 == RoundStep::Leave,
        t.deadlines_checked(snap).0.sess.peer.common.disconnected,
        t.sup.cause is None ==> t.deadlines_checked(snap).0.sup.cause
            == Some(DisconnectCause::WriteStalled),
        t.sup.cause is Some ==> t.deadlines_checked(snap).0.sup.cause == t.sup.cause,
{
}

/// A session with nothing on its way is never stalled.
pub proof fn law_idle_session_is_not_stalled(t: Turn, snap: WriteProgress)
    requires
        t.sess.peer.backlog() == 0,
        t.sup.cause is None,
    ensures
        t.deadlines_checked(snap).0.sup.cause != Some(DisconnectCause::WriteStalled),
{
}

/// A deadline that is set at the time `t` fires at `t` plus its length and not
/// before, for its own exchange and for no other; dropped, it never fires.
pub proof fn law_rekey_deadline_fires_in_time(
    before: RekeyDeadline,
    generation: u64,
    deadline: u64,
    t: u64,
    active: Option<u64>,
    now: u64,
    other: u64,
)
    requires
        t + deadline <= u64::MAX,
        other != generation,
    ensures
        ({
            let d = RekeyDeadline::registered(generation, deadline, t);
            &&& d.fires(active, now) <==> active == Some(generation) && now >= t + deadline
            &&& !d.cleared_for(generation).fires(active, now)
            &&& d.cleared_for(other) == d
            &&& now <= t + deadline ==> d.left(now) == Some((t + deadline - now) as u64)
            &&& now > t + deadline ==> d.left(now) == Some(0u64)
            &&& d.cleared_for(generation).left(now) is None
        }),
{
}

/// A key exchange that is begun at the time it is, and is still under way when
/// its time is up, ends the session; one within its time does not.
pub proof fn law_long_exchange_ends_the_session(t: Turn, snap: WriteProgress, begun: u64, g: u64)
    requires
        t.sess.peer.kex == SessionKexState::InProgress,
        t.sess.peer.install is None,
        begun + t.sess.peer.config.rekey_deadline <= u64::MAX,
        t.sess.peer.rekey_deadline == RekeyDeadline::registered(
            g,
            t.sess.peer.config.rekey_deadline,
            begun,
        ),
        t.sess.peer.backlog() == 0,
        t.sup.cause is None,
    ensures
        t.sess.peer.now >= begun + t.sess.peer.config.rekey_deadline ==> t.deadlines_checked(snap).1
            == RoundStep::Leave && t.deadlines_checked(snap).0.sup.cause
            == Some(DisconnectCause::RekeyTimeout)
            && t.deadlines_checked(snap).0.sess.peer.common.disconnected,
        t.sess.peer.now < begun + t.sess.peer.config.rekey_deadline ==> t.deadlines_checked(snap).1
            == RoundStep::Go && t.deadlines_checked(snap).0.sup.cause is None
            && t.deadlines_checked(snap).0.sess.peer.common == t.sess.peer.common,
{
}

/// An authentication that is not over in time ends the session, with that
/// cause; one that is over is never held against it; and the session goes by
/// the time that it is told.
pub proof fn law_handshake_has_its_time(t: Turn, now: u64)
    requires
        t.sup.cause is None,
        !t.sess.peer.common.disconnected,
    ensures
        ({
            let (u, step) = t.begun(now);
            let p = t.sess.peer;
            let late = !t.sup.handshake_done && !p.authenticated_already() && now
                >= t.sup.handshake_deadline_at;
            &&& step == RoundStep::Leave <==> late
            &&& step != RoundStep::Leave ==> step == RoundStep::Go && u.sup.cause is None
                && !u.sess.peer.common.disconnected
            &&& late ==> u.sup.cause == Some(DisconnectCause::HandshakeTimeout)
                && u.sess.peer.common.disconnected
            &&& p.authenticated_already() ==> u.sup.handshake_done
            &&& t.sup.handshake_done ==> u.sup.handshake_done
            &&& u.sup.handshake_done && step == RoundStep::Go ==> u.begun(u64::MAX).1
                == RoundStep::Go
            &&& u.sess.peer.now == now
            &&& !u.sess.peer.common.received_data
            &&& u.sess.app == t.sess.app
            &&& u.sess.peer.unsent() == p.unsent()
        }),
{
}

/// What a session that stopped returns: the timeouts are errors, each its own;
/// the end of a connection, by either side, is none.
pub proof fn law_outcome_tells_the_cause(rekey_gen: u64)
    ensures
        run::outcome(Some(DisconnectCause::WriteStalled), rekey_gen) == Err::<(), Error>(
            Error::WriteStalled,
        ),
        run::outcome(Some(DisconnectCause::RekeyTimeout), rekey_gen) == Err::<(), Error>(
            Error::RekeyTimeout(rekey_gen),
        ),
        run::outcome(Some(DisconnectCause::HandshakeTimeout), rekey_gen) == Err::<(), Error>(
            Error::HandshakeTimeout,
        ),
        run::outcome(Some(DisconnectCause::PeerError), rekey_gen) == Ok::<(), Error>(()),
        run::outcome(Some(DisconnectCause::LocalShutdown), rekey_gen) == Ok::<(), Error>(()),
        run::outcome(None, rekey_gen) == Ok::<(), Error>(()),
{
}

/// The numbers that stand for the causes.
pub proof fn law_causes_have_their_numbers()
    ensures
        DisconnectCause::WriteStalled.code() == 1,
        DisconnectCause::RekeyTimeout.code() == 2,
        DisconnectCause::HandshakeTimeout.code() == 3,
        DisconnectCause::PeerError.code() == 4,
        DisconnectCause::LocalShutdown.code() == 5,
{
}

/// Every unanswered ping counts; one more than allowed ends the session, and
/// until then the ping goes out and its answer is waited for. A client that
/// sent anything starts over.
pub proof fn law_silent_client_is_given_up(s: Sess, sent: bool)
    requires
        s.peer.common.enc is Some,
        s.peer.common.alive_timeouts < usize::MAX,
    ensures
        ({
            let max = s.peer.config.keepalive_max;
            let n = s.peer.common.alive_timeouts;
            let (t, r) = s.pinged();
            let (u, resets) = s.turn_ended(sent);
            &&& t.peer.common.alive_timeouts == n + 1
            &&& r == Err::<(), Error>(Error::KeepaliveTimeout) <==> max != 0 && n + 1 > max
            &&& !(max != 0 && n + 1 > max) ==> t.app.requests == s.app.requests.push(
                GlobalRequestResponse::Keepalive,
            ) && t.peer.st().write.len() > s.peer.st().write.len()
            &&& s.peer.common.received_data ==> u.peer.common.alive_timeouts == 0
            &&& !s.peer.common.received_data ==> u.peer.common.alive_timeouts == n
            &&& resets.keepalive <==> s.peer.common.received_data || sent
            &&& resets.inactivity <==> !sent
            &&& u.peer.st() == s.peer.st()
        }),
{
    assert(requests::keepalive_body().framed().len() >= 4);
}

/// New messages are taken only while no key exchange is under way and the
/// backlog is below the high watermark, and no more than a batch in one turn.
pub proof fn law_intake_follows_the_backlog(s: Peer, drained: usize)
    ensures
        s.intake_asked().1 <==> !s.blocked() && s.backlog()
            < crate::sshbuffer::OUTBOUND_HIGH_WATERMARK,
        s.intake_asked_again(drained).1 <==> drained < 64 && s.backlog()
            < crate::sshbuffer::OUTBOUND_HIGH_WATERMARK,
        s.intake_asked().0.unsent() == s.unsent(),
        s.intake_asked().0.cause == s.cause,
{
}

/// What the writer's end of an install completes goes on: data is no longer
/// held back, and what was kept is to be acted on. Any other word of the
/// writer, and its end, stop the session with a cause.
pub proof fn law_writers_failure_stops_the_session(t: Turn, e: Option<WriterEvent>)
    requires
        !(e matches Some(WriterEvent::InstallAckOutbound { .. })),
    ensures
        t.writer_reported(e).0.sess.peer.common.disconnected,
        t.writer_reported(e).0.sup.cause is Some,
        t.sup.cause is Some ==> t.writer_reported(e).0.sup.cause == t.sup.cause,
        t.writer_reported(e).0.sess.peer.install is None,
        !t.writer_reported(e).1,
{
}

/// The writer's and the reader's answers to an install go to the install.
pub proof fn law_answers_reach_the_install(t: Turn, g: u64)
    requires
        t.sess.peer.install matches Some(p) && p.generation == g,
    ensures
        ({
            let p = t.sess.peer.install->0;
            let (a, x) = t.writer_reported(Some(WriterEvent::InstallAckOutbound { generation: g }));
            let (b, y) = t.reader_reported(Some(ReaderEvent::InstallAckInbound { generation: g }));
            &&& x == t.sess.peer.outbound_acked(g).1 is Some
            &&& y == t.sess.peer.inbound_acked(g).1 is Some
            &&& x ==> a.sess.peer.install is None && !a.sess.peer.blocked()
            &&& y ==> b.sess.peer.install is None && !b.sess.peer.blocked()
            &&& !y ==> (b.sess.peer.install matches Some(q) && q.inbound_acked)
            &&& a.sup == t.sup && b.sup == t.sup
        }),
{
}

/// A failed read and a full queue stop the session with a cause; the client's
/// end of the connection stops it without one.
pub proof fn law_readers_end_stops_the_session(t: Turn)
    requires
        t.sup.cause is None,
    ensures
        t.reader_reported(Some(ReaderEvent::ReadError)).0.sup.cause
            == Some(DisconnectCause::PeerError),
        t.reader_reported(Some(ReaderEvent::CtrlFull)).0.sup.cause
            == Some(DisconnectCause::PeerError),
        t.reader_reported(Some(ReaderEvent::Eof)).0.sup.cause is None,
        t.reader_reported(None).0.sup.cause is None,
        t.reader_reported(Some(ReaderEvent::ReadError)).0.sess.peer.common.disconnected,
        t.reader_reported(Some(ReaderEvent::CtrlFull)).0.sess.peer.common.disconnected,
        t.reader_reported(Some(ReaderEvent::Eof)).0.sess.peer.common.disconnected,
        t.reader_reported(None).0.sess.peer.common.disconnected,
        t.reader_harvested(Some(ReaderEvent::Eof)).1 && t.reader_harvested(None).1,
        forall|g: u64|
            !(#[trigger] t.reader_harvested(Some(ReaderEvent::InstallAckInbound { generation: g }))).1,
{
}

/// Each look at the deadlines arms the watchdog where bytes wait and disarms it
/// where none do, and remembers how far the writer has come.
pub proof fn law_watchdog_follows_the_backlog(t: Turn, snap: WriteProgress)
    ensures
        t.deadlines_checked(snap).0.sup.watchdog.armed_at is Some <==> t.sess.peer.backlog() as u64
            > 0,
        t.deadlines_checked(snap).0.sup.last_progress == snap,
        t.deadlines_checked(snap).0.sup.handshake_done == t.sup.handshake_done,
        t.deadlines_checked(snap).0.sess.app == t.sess.app,
{
}

} // verus!
