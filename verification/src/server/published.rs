//! What a session shows of itself to its observers.
use vstd::prelude::*;

use crate::channel::ChannelId;
use crate::msg;
use crate::server::ledger::LedgerMaxSlot;
use crate::server::observe::{
    KexInstallObserveSlot, OutboundOrderSlot, ReplyQueueSlot, SchedSlot,
};
use crate::server::session::{Peer, PendingKexPhase, Phase, Session};
use crate::wire;
use crate::wire::{bytes_mut_as_slice, read_u32};

verus! {

/// The packets that the order log keeps.
pub open spec fn is_logged(m: u8) -> bool {
    m == msg::CHANNEL_OPEN_CONFIRMATION || m == msg::CHANNEL_WINDOW_ADJUST || m == msg::CHANNEL_DATA
        || m == msg::CHANNEL_EXTENDED_DATA || m == msg::CHANNEL_EOF || m == msg::CHANNEL_CLOSE || m
        == msg::CHANNEL_SUCCESS || m == msg::CHANNEL_FAILURE || m == msg::CHANNEL_REQUEST
}

/// Channel, message and data length of a packet.
pub open spec fn log_entry(p: Seq<u8>) -> (u32, u8, u32) {
    (
        if p.len() >= 5 {
            wire::be_value(p.skip(1)) as u32
        } else {
            0
        },
        p[0],
        if p[0] == msg::CHANNEL_DATA && p.len() >= 9 {
            wire::be_value(p.skip(5)) as u32
        } else if p[0] == msg::CHANNEL_EXTENDED_DATA && p.len() >= 13 {
            wire::be_value(p.skip(9)) as u32
        } else {
            0
        },
    )
}

/// The entries of staged packets, up to an empty or incomplete one, and how
/// far that is.
pub open spec fn log_entries(s: Seq<u8>) -> (Seq<(u32, u8, u32)>, int)
    decreases s.len(),
{
    if s.len() < 4 || wire::frame_len(s) > s.len() || wire::frame_len(s) <= 4 {
        (Seq::empty(), 0)
    } else {
        let p = s.subrange(4, wire::frame_len(s));
        let (rest, n) = log_entries(s.skip(wire::frame_len(s)));
        (
            if is_logged(p[0]) {
                seq![log_entry(p)] + rest
            } else {
                rest
            },
            n + wire::frame_len(s),
        )
    }
}

/// The entry of a packet.
fn entry_of(p: &[u8]) -> (r: (u32, u8, u32))
    requires
        p@.len() >= 1,
    ensures
        r == log_entry(p@),
{
    let m: u8 = p[0];
    let channel: u32 = if p.len() >= 5 {
        let rest: &[u8] = &p[1..p.len()];
        assert(rest@ =~= p@.skip(1));
        read_u32(rest)
    } else {
        0
    };
    let size: u32 = if m == msg::CHANNEL_DATA && p.len() >= 9 {
        let rest: &[u8] = &p[5..p.len()];
        assert(rest@ =~= p@.skip(5));
        read_u32(rest)
    } else if m == msg::CHANNEL_EXTENDED_DATA && p.len() >= 13 {
        let rest: &[u8] = &p[9..p.len()];
        assert(rest@ =~= p@.skip(9));
        read_u32(rest)
    } else {
        0
    };
    (channel, m, size)
}

impl Peer {
    /// Where an install stands, as a number; 0 where none is open.
    pub open spec fn phase_number(self) -> u8 {
        match self.install {
            None => 0,
            Some(p) => match p.phase {
                Phase::NeedSubmit { .. } => 1,
                Phase::WaitingAck => 2,
                Phase::InstallAcked => 3,
            },
        }
    }
}

impl Peer {
    /// The parts of the backlog: in the writer, parked, waiting with the next
    /// key, staged.
    pub open spec fn backlog_parts(self) -> [usize; 4] {
        [
            match self.link {
                Some(l) => l.pending_bytes,
                None => 0,
            },
            self.parked.bytes,
            self.install_need(),
            self.staged_weight(),
        ]
    }
}

impl Session {
    /// Shows the backlog and its parts.
    pub fn publish_backlog(&self, slot: &mut LedgerMaxSlot)
        ensures
            *final(slot) == old(slot).observed_parts(
                self.peer().backlog(),
                self.peer().backlog_parts(),
            ),
    {
        let writer: usize = match &self.writer {
            Some(w) => w.pending_bytes(),
            None => 0,
        };
        let parts: [usize; 4] = [
            writer,
            self.pending_outbound.bytes(),
            self.install_need(),
            self.staged_weight(),
        ];
        assert(parts =~= self.peer().backlog_parts());
        slot.observe_parts(self.backlog(), parts);
    }

    /// Shows where an install stands.
    pub fn publish_kex_observe(&self, slot: &mut KexInstallObserveSlot)
        ensures
            *final(slot) == (KexInstallObserveSlot {
                phase: self.peer().phase_number(),
                after_known: self.peer().install matches Some(p) && p.after is Some,
                inbound_acked: (self.peer().install matches Some(p) && p.inbound_acked)
                    || self.peer().reader is None,
                non_idle: self.peer().blocked(),
                ..*old(slot)
            }),
    {
        let mut phase: u8 = 0;
        let mut after_known: bool = false;
        let mut acked: bool = false;
        if let Some(p) = &self.pending_kex_install {
            phase =
            match p.phase {
                PendingKexPhase::NeedSubmit { .. } => 1,
                PendingKexPhase::WaitingAck => 2,
                PendingKexPhase::InstallAcked => 3,
            };
            after_known = p.after.is_some();
            acked = p.inbound_acked;
        }
        slot.set_phase(phase);
        slot.set_after_known(after_known);
        slot.set_inbound_acked(acked || self.reader.is_none());
        slot.set_non_idle(self.blocks_outbound_intake());
    }

    /// Shows how many replies wait.
    pub fn publish_reply_queue(&self, slot: &mut ReplyQueueSlot)
        ensures
            ({
                let n = match self.peer().common.enc {
                    Some(e) => wire::sat(e.st.reply_count()),
                    None => 0,
                };
                &&& final(slot).current == n
                &&& final(slot).max == (if n > old(slot).max {
                    n
                } else {
                    old(slot).max
                })
            }),
    {
        let n: usize = match &self.common.encrypted {
            Some(enc) => enc.queued_reply_count(),
            None => 0,
        };
        slot.observe(n);
    }

    /// Shows that a channel's data went out, in a boost or in a regular round.
    pub fn note_sched_emit(&self, slot: &mut SchedSlot, id: ChannelId, boost: bool)
        ensures
            ({
                let to = match self.peer().lane(id.0) {
                    Some(l) => l.recipient_channel,
                    None => id.0,
                };
                final(slot)@ == old(slot)@.one_emit(to, boost, self.peer().ready().len() as u32)
            }),
    {
        let to: u32 = match &self.common.encrypted {
            Some(enc) => match enc.channels.get(&id.0) {
                Some(ch) => ch.recipient_channel,
                None => id.0,
            },
            None => id.0,
        };
        #[verifier::truncate]
        let ready: u32 = self.ready_set().len() as u32;
        slot.note_emit(to, boost, ready);
    }

    /// Logs the packets staged since `from`, and returns up to where the log
    /// goes now.
    pub fn record_outbound_from_write(&self, log: &mut OutboundOrderSlot, from: usize) -> (r: usize)
        ensures
            match self.peer().common.enc {
                None => r == from && final(log).msgs@ == old(log).msgs@,
                Some(e) => {
                    let start = if from < e.st.cursor {
                        e.st.cursor
                    } else {
                        from
                    };
                    if start <= e.st.write.len() {
                        let (entries, n) = log_entries(e.st.write.skip(start as int));
                        r == start + n && final(log).msgs@ == old(log).msgs@ + entries
                    } else {
                        r == start && final(log).msgs@ == old(log).msgs@
                    }
                },
            },
    {
        match &self.common.encrypted {
            None => from,
            Some(enc) => {
                let buf: &[u8] = bytes_mut_as_slice(&enc.write);
                let start: usize = if from < enc.write_cursor {
                    enc.write_cursor
                } else {
                    from
                };
                if start > buf.len() {
                    return start;
                }
                let ghost all = log_entries(buf@.skip(start as int));
                let ghost mut done: Seq<(u32, u8, u32)> = Seq::empty();
                let mut at: usize = start;
                assert(old(log).msgs@ + done =~= old(log).msgs@);
                assert(done + all.0 =~= all.0);
                while buf.len() - at >= 4
                    invariant
                        start <= at <= buf@.len(),
                        buf@ == enc@.write,
                        all == log_entries(buf@.skip(start as int)),
                        log.msgs@ == old(log).msgs@ + done,
                        done + log_entries(buf@.skip(at as int)).0 == all.0,
                        at + log_entries(buf@.skip(at as int)).1 == start + all.1,
                    ensures
                        log.msgs@ == old(log).msgs@ + all.0,
                        at == start + all.1,
                    decreases buf@.len() - at,
                {
                    let ghost rest = buf@.skip(at as int);
                    let head: &[u8] = &buf[at..buf.len()];
                    assert(head@ =~= rest);
                    let len: usize = read_u32(head) as usize;
                    if len == 0 || len > buf.len() - at - 4 {
                        assert(done + Seq::<(u32, u8, u32)>::empty() =~= done);
                        break ;
                    }
                    let p: &[u8] = &buf[at + 4..at + 4 + len];
                    assert(p@ =~= rest.subrange(4, wire::frame_len(rest)));
                    assert(rest.skip(wire::frame_len(rest)) =~= buf@.skip(at + 4 + len));
                    let ghost tail = log_entries(rest.skip(wire::frame_len(rest))).0;
                    let e = entry_of(p);
                    let m: u8 = e.1;
                    if m == msg::CHANNEL_OPEN_CONFIRMATION || m == msg::CHANNEL_WINDOW_ADJUST || m
                        == msg::CHANNEL_DATA || m == msg::CHANNEL_EXTENDED_DATA || m
                        == msg::CHANNEL_EOF || m == msg::CHANNEL_CLOSE || m == msg::CHANNEL_SUCCESS
                        || m == msg::CHANNEL_FAILURE || m == msg::CHANNEL_REQUEST {
                        log.push(e.0, e.1, e.2);
                        proof {
                            assert(done + (seq![e] + tail) =~= done.push(e) + tail);
                            assert((old(log).msgs@ + done).push(e) =~= old(log).msgs@ + done.push(
                                e,
                            ));
                            done = done.push(e);
                        }
                    }
                    at = at + 4 + len;
                }
                at
            },
        }
    }
}

} // verus!
