//! What a turn of the session's loop comes to: what can leave does, and the
//! loop sleeps as long as it can and no longer.
use vstd::prelude::*;

use crate::channel::ChannelId;
use crate::error::{ChannelOpenFailure, Error};
use crate::server::dispatch::{ChannelMsg, Msg};
use crate::server::facade::FacadeCmd;
use crate::server::flush;
use crate::server::opening;
use crate::server::opening::{OpenedChannel, OpeningMsg};
use crate::server::run;
use crate::server::run::{RoundStep, Turn};
use crate::server::schedule_laws;
use crate::server::session::{Peer, Phase, Sess};
use crate::server::supervisor;
use crate::server::supervisor::{DisconnectCause, MinDrain, WriteWatchdog};

verus! {

/// Nothing more can leave: a round of the scheduler has just let nothing out.
pub open spec fn run_dry(t: Peer) -> bool {
    exists|u: Peer| #[trigger] u.round() == (t, Ok::<bool, Error>(false))
}

/// Letting data out goes on until nothing more can leave.
proof fn lemma_drained(s: Peer)
    requires
        s.data_drained().1 is Ok,
    ensures
        run_dry(s.data_drained().0),
{
    schedule_laws::law_rounds_go_on_until_nothing_leaves(s.fences_out(s.busy_channels()).0);
}

/// At the top of a turn, when the writer has room again, and at the end of a
/// turn, data goes out until nothing more can leave; a failure stops the
/// session with a cause.
pub proof fn law_turns_let_out_what_can_leave(t: Turn)
    ensures
        t.pushed().1 == RoundStep::Go ==> run_dry(t.pushed().0.sess.peer),
        t.pushed().1 != RoundStep::Go ==> t.pushed().0.sess.peer.common.disconnected
            && t.pushed().0.sup.cause is Some,
        t.room_used().sup.cause is None ==> run_dry(t.room_used().sess.peer),
        t.closed_out().sup.cause is None ==> run_dry(t.closed_out().sess.peer),
        t.flushed().1 <==> t.sess.peer.flushed().1 is Ok,
        !t.flushed().1 ==> t.flushed().0.sup.cause is Some,
{
    reveal(Peer::moved_on);
    let p = t.sess.peer;
    if p.moved_on().1 is Ok {
        lemma_drained(p.retried().0.flushed().0);
    }
    let a = t.with_peer(p.advanced()).cause_taken();
    if a.sess.peer.data_drained().1 is Ok {
        lemma_drained(a.sess.peer);
    }
    let b = t.flushed().0;
    if b.sess.peer.data_drained().1 is Ok {
        lemma_drained(b.sess.peer);
    }
}

/// The loop sleeps no shorter than it can: where nothing is due before `x`, it
/// sleeps at least that long.
pub proof fn law_sleep_is_not_cut_short(t: Turn, x: u64)
    requires
        x <= 3_600_000,
        t.sup.watchdog.activity_sleep(
            t.sess.peer.config.write_progress_deadline,
            t.sess.peer.now,
        ) matches Some(a) ==> a >= x,
        t.sup.watchdog.drain_sleep(t.sess.peer.config.write_min_drain, t.sess.peer.now) matches Some(
            a,
        ) ==> a >= x,
        t.sess.peer.rekey_deadline.deadline_at matches Some(at) ==> at >= t.sess.peer.now + x,
        t.sup.handshake_done || t.sup.handshake_deadline_at >= t.sess.peer.now + x,
        (t.sess.peer.install matches Some(p) && p.phase is NeedSubmit) ==> x <= 20,
    ensures
        t.sleep() >= x,
        t.sleep() <= 3_600_000,
{
}

/// The watchdog asks for no shorter a sleep than until missing progress, or the
/// end of a drain window, can be noticed.
pub proof fn law_watchdog_does_not_wake_early(
    w: WriteWatchdog,
    now: u64,
    deadline: u64,
    m: MinDrain,
    later: u64,
)
    requires
        w.armed_at is Some,
        w.last() <= now,
        w.window_start() <= now,
        now + deadline <= u64::MAX,
        now + m.window_ms <= u64::MAX,
    ensures
        w.activity_sleep(deadline, now) matches Some(x) && (now <= later < now + x && x > 1
            ==> !w.inactive(later, deadline)),
        w.drain_sleep(Some(m), now) matches Some(x) && (now <= later < now + x && x > 1
            ==> !w.window_over(later, Some(m))),
        w.drain_sleep(None, now) is None,
        WriteWatchdog::idle().activity_sleep(deadline, now) is None,
{
}

/// Kept packets that failed stop the session with a cause; a cause that the
/// session put down is taken over, and counts unless there was one before.
pub proof fn law_replay_failure_stops(t: Turn)
    ensures
        t.replayed(false).sup.cause is Some,
        t.sup.cause is Some ==> t.replayed(false).sup.cause == t.sup.cause,
        t.sess.peer.cause is None ==> t.replayed(true).sup == t.sup,
        t.sess.peer.cause is Some && t.sup.cause is None ==> t.replayed(true).sup.cause
            == t.sess.peer.cause,
        t.sess.peer.cause is Some ==> t.cause_taken().sess.peer.cause is None
            && t.cause_taken().sess.peer.common.disconnected,
        t.sess.peer.cause is None ==> t.cause_taken() == t,
{
}

/// An install that waits is tried every turn, and a cause that this brings
/// ends the turn.
pub proof fn law_waiting_install_is_tried(t: Turn)
    ensures
        t.install_tried().1 == RoundStep::Go <==> t.sess.peer.advanced().cause is None,
        t.install_tried().1 == RoundStep::Go ==> t.install_tried().0.sess.peer
            == t.sess.peer.advanced() && t.install_tried().0.sup == t.sup,
        t.install_tried().1 != RoundStep::Go ==> t.install_tried().0.sup.cause is Some,
{
}

/// An ordinary message is taken: data, EOF and CLOSE as soon as there are keys,
/// a reply or a short request on a confirmed channel, a channel while a number
/// is free, and the rest always.
pub proof fn law_ordinary_messages_are_taken(s: Sess, m: Msg)
    requires
        s.peer.common.enc is Some,
        s.has_room(),
        m matches Msg::Channel(id, c) ==> s.confirmed(id.0) && !(c is ExitSignal),
    ensures
        s.takes(m),
{
}

/// The end of the wait for a channel that this side asked for: what the peer
/// opened, what it refused with, or that the session is over; anything else
/// leaves the wait as it is.
pub proof fn law_wait_for_a_channel_ends(id: ChannelId, size: u32, window: u32, r: ChannelOpenFailure)
    ensures
        opening::outcome(
            Some(OpeningMsg::Open { id, max_packet_size: size, window_size: window }),
        ) matches Some(Ok(c)) && c.id == id && c.max_packet_size == size && c.window_size == window,
        opening::outcome(Some(OpeningMsg::OpenFailure(r))) == Some(
            Err::<OpenedChannel, Error>(Error::ChannelOpenFailure(r)),
        ),
        opening::outcome(Some(OpeningMsg::Other)) is None,
        opening::outcome(None) == Some(Err::<OpenedChannel, Error>(Error::Disconnect)),
{
}

/// Room in the writer is used for what is parked first; a writer that has gone
/// stops the session.
pub proof fn law_room_is_used_for_parked_commands(t: Turn)
    ensures
        t.capacity_heard().1 <==> t.sess.peer.retried().1 is Ok,
        t.capacity_heard().1 ==> t.capacity_heard().0.sess.peer == t.sess.peer.retried().0
            && t.capacity_heard().0.sup == t.sup,
        !t.capacity_heard().1 ==> t.capacity_heard().0.sup.cause is Some
            && t.capacity_heard().0.sess.peer.common.disconnected,
{
}

/// An ordinary command of another task is taken as well.
pub proof fn law_ordinary_commands_are_taken(s: Sess, c: FacadeCmd, channel: ChannelId)
    requires
        s.peer.common.enc is Some,
        s.has_room(),
        s.confirmed(channel.0),
    ensures
        c matches FacadeCmd::Data { channel: x, .. } ==> s.takes_command(c),
        c matches FacadeCmd::ExtendedData { channel: x, .. } ==> s.takes_command(c),
        c == (FacadeCmd::Eof { channel }) ==> s.takes_command(c),
        c == (FacadeCmd::Close { channel }) ==> s.takes_command(c),
        c == (FacadeCmd::ChannelSuccess { channel }) ==> s.takes_command(c),
        c == (FacadeCmd::ChannelFailure { channel }) ==> s.takes_command(c),
        c is ChannelOpenSession ==> s.takes_command(c),
        c is Flush ==> s.takes_command(c),
{
}

} // verus!
