//! Counters and records that observe a running session.
use vstd::prelude::*;

use crate::msg;

verus! {

/// How often a key-exchange install had to wait for room.
#[derive(Clone, Copy, Debug, PartialEq, Eq, Structural)]
pub struct NeedSubmitSeenSlot {
    /// Waits so far.
    pub count: u64,
}

impl Default for NeedSubmitSeenSlot {
    /// Nothing observed yet.
    fn default() -> (r: NeedSubmitSeenSlot)
        ensures
            r.count == 0,
    {
        NeedSubmitSeenSlot { count: 0 }
    }
}

impl NeedSubmitSeenSlot {
    /// Nothing observed yet.
    pub fn new() -> (r: NeedSubmitSeenSlot)
        ensures
            r.count == 0,
    {
        Self::default()
    }

    /// One more wait.
    pub fn mark(&mut self)
        ensures
            *final(self) == (NeedSubmitSeenSlot {
                count: old(self).count.wrapping_add(1),
                ..*old(self)
            }),
    {
        self.count = self.count.wrapping_add(1);
    }

    /// Waits so far.
    pub fn count(&self) -> (r: u64)
        ensures
            r == self.count,
    {
        self.count
    }
}

/// Where a pending key-exchange install stands, and what it has done so far.
#[derive(Clone, Copy, Debug, PartialEq, Eq, Structural)]
pub struct KexInstallObserveSlot {
    /// The phase last set.
    pub phase: u8,
    /// A key exchange is under way.
    pub non_idle: bool,
    /// The peer is done with its side.
    pub after_known: bool,
    /// Data seen while an install was open.
    pub data_while_pending: u64,
    /// Packets handled while an install was open.
    pub packets_while_pending: u64,
    /// Inbound keys committed.
    pub inbound_commits: u64,
    /// Installs completed.
    pub completions: u64,
    /// Parked packets replayed.
    pub replays: u64,
    /// Deadlines cleared.
    pub deadline_clears: u64,
    /// Packets parked.
    pub parks: u64,
    /// The reader has taken the new key.
    pub inbound_acked: bool,
}

impl Default for KexInstallObserveSlot {
    /// Nothing observed yet.
    fn default() -> (r: KexInstallObserveSlot)
        ensures
            r.phase == 0,
            r.non_idle == false,
            r.after_known == false,
            r.data_while_pending == 0,
            r.packets_while_pending == 0,
            r.inbound_commits == 0,
            r.completions == 0,
            r.replays == 0,
            r.deadline_clears == 0,
            r.parks == 0,
            r.inbound_acked == false,
    {
        KexInstallObserveSlot {
            phase: 0,
            non_idle: false,
            after_known: false,
            data_while_pending: 0,
            packets_while_pending: 0,
            inbound_commits: 0,
            completions: 0,
            replays: 0,
            deadline_clears: 0,
            parks: 0,
            inbound_acked: false,
        }
    }
}

impl KexInstallObserveSlot {
    /// Nothing observed yet.
    pub fn new() -> (r: KexInstallObserveSlot)
        ensures
            r.phase == 0,
            r.non_idle == false,
            r.after_known == false,
            r.data_while_pending == 0,
            r.packets_while_pending == 0,
            r.inbound_commits == 0,
            r.completions == 0,
            r.replays == 0,
            r.deadline_clears == 0,
            r.parks == 0,
            r.inbound_acked == false,
    {
        Self::default()
    }

    /// Sets the phase: 0 none, 1 to be submitted, 2 waiting, 3 acknowledged.
    pub fn set_phase(&mut self, v: u8)
        ensures
            *final(self) == (KexInstallObserveSlot { phase: v, ..*old(self) }),
    {
        self.phase = v;
    }

    /// The phase last set.
    pub fn phase(&self) -> (r: u8)
        ensures
            r == self.phase,
    {
        self.phase
    }

    /// Sets whether a key exchange is under way.
    pub fn set_non_idle(&mut self, v: bool)
        ensures
            *final(self) == (KexInstallObserveSlot { non_idle: v, ..*old(self) }),
    {
        self.non_idle = v;
    }

    /// A key exchange is under way.
    pub fn non_idle(&self) -> (r: bool)
        ensures
            r == self.non_idle,
    {
        self.non_idle
    }

    /// Sets whether the peer is done with its side.
    pub fn set_after_known(&mut self, v: bool)
        ensures
            *final(self) == (KexInstallObserveSlot { after_known: v, ..*old(self) }),
    {
        self.after_known = v;
    }

    /// The peer is done with its side.
    pub fn after_known(&self) -> (r: bool)
        ensures
            r == self.after_known,
    {
        self.after_known
    }

    /// Data seen while an install was open.
    pub fn data_while_pending(&self) -> (r: u64)
        ensures
            r == self.data_while_pending,
    {
        self.data_while_pending
    }

    /// One more packet handled while an install was open.
    pub fn mark_packet_while_pending(&mut self)
        ensures
            *final(self) == (KexInstallObserveSlot {
                packets_while_pending: old(self).packets_while_pending.wrapping_add(1),
                ..*old(self)
            }),
    {
        self.packets_while_pending = self.packets_while_pending.wrapping_add(1);
    }

    /// Packets handled while an install was open.
    pub fn packets_while_pending(&self) -> (r: u64)
        ensures
            r == self.packets_while_pending,
    {
        self.packets_while_pending
    }

    /// One more inbound key committed.
    pub fn mark_inbound_commit(&mut self)
        ensures
            *final(self) == (KexInstallObserveSlot {
                inbound_commits: old(self).inbound_commits.wrapping_add(1),
                ..*old(self)
            }),
    {
        self.inbound_commits = self.inbound_commits.wrapping_add(1);
    }

    /// Inbound keys committed.
    pub fn inbound_commits(&self) -> (r: u64)
        ensures
            r == self.inbound_commits,
    {
        self.inbound_commits
    }

    /// One more install completed.
    pub fn mark_completion(&mut self)
        ensures
            *final(self) == (KexInstallObserveSlot {
                completions: old(self).completions.wrapping_add(1),
                ..*old(self)
            }),
    {
        self.completions = self.completions.wrapping_add(1);
    }

    /// Installs completed.
    pub fn completions(&self) -> (r: u64)
        ensures
            r == self.completions,
    {
        self.completions
    }

    /// One more parked packet replayed.
    pub fn mark_replay(&mut self)
        ensures
            *final(self) == (KexInstallObserveSlot {
                replays: old(self).replays.wrapping_add(1),
                ..*old(self)
            }),
    {
        self.replays = self.replays.wrapping_add(1);
    }

    /// Parked packets replayed.
    pub fn replays(&self) -> (r: u64)
        ensures
            r == self.replays,
    {
        self.replays
    }

    /// One more deadline cleared.
    pub fn mark_deadline_clear(&mut self)
        ensures
            *final(self) == (KexInstallObserveSlot {
                deadline_clears: old(self).deadline_clears.wrapping_add(1),
                ..*old(self)
            }),
    {
        self.deadline_clears = self.deadline_clears.wrapping_add(1);
    }

    /// Deadlines cleared.
    pub fn deadline_clears(&self) -> (r: u64)
        ensures
            r == self.deadline_clears,
    {
        self.deadline_clears
    }

    /// One more packet parked.
    pub fn mark_park(&mut self)
        ensures
            *final(self) == (KexInstallObserveSlot {
                parks: old(self).parks.wrapping_add(1),
                ..*old(self)
            }),
    {
        self.parks = self.parks.wrapping_add(1);
    }

    /// Packets parked.
    pub fn parks(&self) -> (r: u64)
        ensures
            r == self.parks,
    {
        self.parks
    }

    /// Sets whether the reader has taken the new key.
    pub fn set_inbound_acked(&mut self, v: bool)
        ensures
            *final(self) == (KexInstallObserveSlot { inbound_acked: v, ..*old(self) }),
    {
        self.inbound_acked = v;
    }

    /// The reader has taken the new key.
    pub fn inbound_acked(&self) -> (r: bool)
        ensures
            r == self.inbound_acked,
    {
        self.inbound_acked
    }

    /// Counts `n` more data, but only while an install is open.
    pub fn mark_data_while_pending(&mut self, n: u64)
        ensures
            *final(self) == (KexInstallObserveSlot {
                data_while_pending: if old(self).phase != 0 {
                    old(self).data_while_pending.wrapping_add(n)
                } else {
                    old(self).data_while_pending
                },
                ..*old(self)
            }),
    {
        if self.phase != 0 {
            self.data_while_pending = self.data_while_pending.wrapping_add(n);
        }
    }
}

/// The chain from a freed queue slot to an install that moves on.
#[derive(Clone, Copy, Debug, PartialEq, Eq, Structural)]
pub struct CapacityChainSlot {
    /// Slots freed by the writer.
    pub dequeue_notifies: u64,
    /// Wake-ups of the session for room.
    pub arm_runs: u64,
    /// Installs moved on by such a wake-up.
    pub install_advances: u64,
}

impl Default for CapacityChainSlot {
    /// Nothing observed yet.
    fn default() -> (r: CapacityChainSlot)
        ensures
            r.dequeue_notifies == 0,
            r.arm_runs == 0,
            r.install_advances == 0,
    {
        CapacityChainSlot { dequeue_notifies: 0, arm_runs: 0, install_advances: 0 }
    }
}

impl CapacityChainSlot {
    /// Nothing observed yet.
    pub fn new() -> (r: CapacityChainSlot)
        ensures
            r.dequeue_notifies == 0,
            r.arm_runs == 0,
            r.install_advances == 0,
    {
        Self::default()
    }

    /// One more slot freed by the writer.
    pub fn mark_dequeue_notify(&mut self)
        ensures
            *final(self) == (CapacityChainSlot {
                dequeue_notifies: old(self).dequeue_notifies.wrapping_add(1),
                ..*old(self)
            }),
    {
        self.dequeue_notifies = self.dequeue_notifies.wrapping_add(1);
    }

    /// Slots freed by the writer.
    pub fn dequeue_notifies(&self) -> (r: u64)
        ensures
            r == self.dequeue_notifies,
    {
        self.dequeue_notifies
    }

    /// One more wake-up of the session for room.
    pub fn mark_arm_run(&mut self)
        ensures
            *final(self) == (CapacityChainSlot {
                arm_runs: old(self).arm_runs.wrapping_add(1),
                ..*old(self)
            }),
    {
        self.arm_runs = self.arm_runs.wrapping_add(1);
    }

    /// Wake-ups of the session for room.
    pub fn arm_runs(&self) -> (r: u64)
        ensures
            r == self.arm_runs,
    {
        self.arm_runs
    }

    /// One more install moved on by such a wake-up.
    pub fn mark_install_advance(&mut self)
        ensures
            *final(self) == (CapacityChainSlot {
                install_advances: old(self).install_advances.wrapping_add(1),
                ..*old(self)
            }),
    {
        self.install_advances = self.install_advances.wrapping_add(1);
    }

    /// Installs moved on by such a wake-up.
    pub fn install_advances(&self) -> (r: u64)
        ensures
            r == self.install_advances,
    {
        self.install_advances
    }
}

/// Window grants put off, retried and given.
#[derive(Clone, Copy, Debug, PartialEq, Eq, Structural)]
pub struct DeferredGrantSlot {
    /// Grants put off.
    pub inserts: u64,
    /// Grants retried.
    pub replays: u64,
    /// Grants given.
    pub emitted: u64,
}

impl Default for DeferredGrantSlot {
    /// Nothing observed yet.
    fn default() -> (r: DeferredGrantSlot)
        ensures
            r.inserts == 0,
            r.replays == 0,
            r.emitted == 0,
    {
        DeferredGrantSlot { inserts: 0, replays: 0, emitted: 0 }
    }
}

impl DeferredGrantSlot {
    /// Nothing observed yet.
    pub fn new() -> (r: DeferredGrantSlot)
        ensures
            r.inserts == 0,
            r.replays == 0,
            r.emitted == 0,
    {
        Self::default()
    }

    /// One more grant put off.
    pub fn note_insert(&mut self)
        ensures
            *final(self) == (DeferredGrantSlot {
                inserts: old(self).inserts.wrapping_add(1),
                ..*old(self)
            }),
    {
        self.inserts = self.inserts.wrapping_add(1);
    }

    /// Grants put off.
    pub fn inserts(&self) -> (r: u64)
        ensures
            r == self.inserts,
    {
        self.inserts
    }

    /// One more grant retried.
    pub fn note_replay(&mut self)
        ensures
            *final(self) == (DeferredGrantSlot {
                replays: old(self).replays.wrapping_add(1),
                ..*old(self)
            }),
    {
        self.replays = self.replays.wrapping_add(1);
    }

    /// Grants retried.
    pub fn replays(&self) -> (r: u64)
        ensures
            r == self.replays,
    {
        self.replays
    }

    /// One more grant given.
    pub fn note_emitted(&mut self)
        ensures
            *final(self) == (DeferredGrantSlot {
                emitted: old(self).emitted.wrapping_add(1),
                ..*old(self)
            }),
    {
        self.emitted = self.emitted.wrapping_add(1);
    }

    /// Grants given.
    pub fn emitted(&self) -> (r: u64)
        ensures
            r == self.emitted,
    {
        self.emitted
    }
}

/// What discarding channels has thrown away.
#[derive(Debug)]
pub struct StopDiscardSlot {
    /// Queued items thrown away.
    pub discarded_items: u64,
    /// Queued bytes thrown away.
    pub discarded_bytes: u64,
    /// Put-off grants that a discard cancelled.
    pub grant_clears: u64,
    /// Recipient and message number of each payload handed to the writer.
    pub queued_unsealed: Vec<(u32, u8)>,
    /// Payloads that the writer dropped instead of sealing.
    pub seal_drops: u64,
    /// The last close left its CLOSE in the lane.
    pub pending_close: bool,
}

impl Default for StopDiscardSlot {
    /// Nothing observed yet.
    fn default() -> (r: StopDiscardSlot)
        ensures
            r.discarded_items == 0,
            r.discarded_bytes == 0,
            r.grant_clears == 0,
            r.queued_unsealed@.len() == 0,
            r.seal_drops == 0,
            !r.pending_close,
    {
        StopDiscardSlot {
            discarded_items: 0,
            discarded_bytes: 0,
            grant_clears: 0,
            queued_unsealed: Vec::new(),
            seal_drops: 0,
            pending_close: false,
        }
    }
}

/// This record is a data packet for `recipient`.
pub open spec fn is_data_for(recipient: u32) -> spec_fn((u32, u8)) -> bool {
    |e: (u32, u8)| e.0 == recipient && e.1 == msg::CHANNEL_DATA
}

impl StopDiscardSlot {
    /// Nothing observed yet.
    pub fn new() -> (r: StopDiscardSlot)
        ensures
            r.discarded_items == 0,
            r.discarded_bytes == 0,
            r.grant_clears == 0,
            r.queued_unsealed@.len() == 0,
            r.seal_drops == 0,
            !r.pending_close,
    {
        Self::default()
    }

    /// Counts what one discard threw away.
    pub fn note_discard(&mut self, items: usize, bytes: usize)
        ensures
            *final(self) == (StopDiscardSlot {
                discarded_items: old(self).discarded_items.wrapping_add(items as u64),
                discarded_bytes: old(self).discarded_bytes.wrapping_add(bytes as u64),
                ..*old(self)
            }),
    {
        self.discarded_items = self.discarded_items.wrapping_add(items as u64);
        self.discarded_bytes = self.discarded_bytes.wrapping_add(bytes as u64);
    }

    /// One more put-off grant cancelled.
    pub fn note_grant_clear(&mut self)
        ensures
            *final(self) == (StopDiscardSlot {
                grant_clears: old(self).grant_clears.wrapping_add(1),
                ..*old(self)
            }),
    {
        self.grant_clears = self.grant_clears.wrapping_add(1);
    }

    /// Queued items thrown away.
    pub fn discarded_items(&self) -> (r: u64)
        ensures
            r == self.discarded_items,
    {
        self.discarded_items
    }

    /// Queued bytes thrown away.
    pub fn discarded_bytes(&self) -> (r: u64)
        ensures
            r == self.discarded_bytes,
    {
        self.discarded_bytes
    }

    /// Put-off grants that a discard cancelled.
    pub fn grant_clears(&self) -> (r: u64)
        ensures
            r == self.grant_clears,
    {
        self.grant_clears
    }

    /// Records a payload handed to the writer.
    pub fn note_queued_unsealed(&mut self, recipient: u32, msg: u8)
        ensures
            final(self).queued_unsealed@ == old(self).queued_unsealed@.push((recipient, msg)),
            *final(self) == (StopDiscardSlot {
                queued_unsealed: final(self).queued_unsealed,
                ..*old(self)
            }),
    {
        self.queued_unsealed.push((recipient, msg));
    }

    /// The payloads handed to the writer, in order.
    pub fn queued_unsealed(&self) -> (r: Vec<(u32, u8)>)
        ensures
            r@ == self.queued_unsealed@,
    {
        let mut out: Vec<(u32, u8)> = Vec::new();
        let mut i: usize = 0;
        while i < self.queued_unsealed.len()
            invariant
                i <= self.queued_unsealed@.len(),
                out@ == self.queued_unsealed@.take(i as int),
            decreases self.queued_unsealed@.len() - i,
        {
            out.push(self.queued_unsealed[i]);
            i = i + 1;
            assert(out@ =~= self.queued_unsealed@.take(i as int));
        }
        assert(self.queued_unsealed@.take(i as int) =~= self.queued_unsealed@);
        out
    }

    /// How many data packets for `recipient` were handed to the writer.
    pub fn queued_unsealed_data(&self, recipient: u32) -> (r: usize)
        ensures
            r == self.queued_unsealed@.filter(is_data_for(recipient)).len(),
    {
        let ghost q = self.queued_unsealed@;
        let mut n: usize = 0;
        let mut i: usize = 0;
        proof {
            reveal(Seq::filter);
            assert(q.take(0).filter(is_data_for(recipient)) =~= Seq::empty());
        }
        while i < self.queued_unsealed.len()
            invariant
                i <= q.len(),
                q == self.queued_unsealed@,
                n <= i,
                n == q.take(i as int).filter(is_data_for(recipient)).len(),
            decreases q.len() - i,
        {
            let e = self.queued_unsealed[i];
            proof {
                reveal(Seq::filter);
                assert(q.take(i + 1).drop_last() =~= q.take(i as int));
            }
            if e.0 == recipient && e.1 == msg::CHANNEL_DATA {
                n = n + 1;
            }
            i = i + 1;
        }
        assert(q.take(i as int) =~= q);
        n
    }

    /// One more payload dropped instead of sealed.
    pub fn note_seal_drop(&mut self)
        ensures
            *final(self) == (StopDiscardSlot {
                seal_drops: old(self).seal_drops.wrapping_add(1),
                ..*old(self)
            }),
    {
        self.seal_drops = self.seal_drops.wrapping_add(1);
    }

    /// Payloads dropped instead of sealed.
    pub fn seal_drops(&self) -> (r: u64)
        ensures
            r == self.seal_drops,
    {
        self.seal_drops
    }

    /// Records whether the last close left its CLOSE in the lane.
    pub fn set_pending_close(&mut self, pending: bool)
        ensures
            *final(self) == (StopDiscardSlot { pending_close: pending, ..*old(self) }),
    {
        self.pending_close = pending;
    }

    /// Whether the last close left its CLOSE in the lane.
    pub fn pending_close(&self) -> (r: bool)
        ensures
            r == self.pending_close,
    {
        self.pending_close
    }
}

/// Channel messages in the order in which they were staged.
#[derive(Debug)]
pub struct OutboundOrderSlot {
    /// Channel, message number, and length of the data carried.
    pub msgs: Vec<(u32, u8, u32)>,
}

impl Default for OutboundOrderSlot {
    /// Nothing recorded yet.
    fn default() -> (r: OutboundOrderSlot)
        ensures
            r.msgs@.len() == 0,
    {
        OutboundOrderSlot { msgs: Vec::new() }
    }
}

/// This record belongs to `channel`.
pub open spec fn is_for(channel: u32) -> spec_fn((u32, u8, u32)) -> bool {
    |e: (u32, u8, u32)| e.0 == channel
}

/// The message numbers of records.
pub open spec fn types_of(s: Seq<(u32, u8, u32)>) -> Seq<u8> {
    s.map_values(|e: (u32, u8, u32)| e.1)
}

impl OutboundOrderSlot {
    /// Nothing recorded yet.
    pub fn new() -> (r: OutboundOrderSlot)
        ensures
            r.msgs@.len() == 0,
    {
        Self::default()
    }

    /// Records one message behind the others.
    pub fn push(&mut self, channel: u32, msg: u8, payload_len: u32)
        ensures
            final(self).msgs@ == old(self).msgs@.push((channel, msg, payload_len)),
    {
        self.msgs.push((channel, msg, payload_len));
    }

    /// Everything recorded, in order.
    pub fn snapshot(&self) -> (r: Vec<(u32, u8, u32)>)
        ensures
            r@ == self.msgs@,
    {
        let mut out: Vec<(u32, u8, u32)> = Vec::new();
        let mut i: usize = 0;
        while i < self.msgs.len()
            invariant
                i <= self.msgs@.len(),
                out@ == self.msgs@.take(i as int),
            decreases self.msgs@.len() - i,
        {
            out.push(self.msgs[i]);
            i = i + 1;
            assert(out@ =~= self.msgs@.take(i as int));
        }
        assert(self.msgs@.take(i as int) =~= self.msgs@);
        out
    }

    /// The message numbers recorded for one channel, in order.
    pub fn types_for(&self, channel: u32) -> (r: Vec<u8>)
        ensures
            r@ == types_of(self.msgs@.filter(is_for(channel))),
    {
        let ghost q = self.msgs@;
        let mut out: Vec<u8> = Vec::new();
        let mut i: usize = 0;
        proof {
            reveal(Seq::filter);
            assert(q.take(0).filter(is_for(channel)) =~= Seq::empty());
            assert(types_of(Seq::empty()) =~= Seq::<u8>::empty());
        }
        while i < self.msgs.len()
            invariant
                i <= q.len(),
                q == self.msgs@,
                out@ == types_of(q.take(i as int).filter(is_for(channel))),
            decreases q.len() - i,
        {
            let e = self.msgs[i];
            let ghost f = q.take(i as int).filter(is_for(channel));
            proof {
                reveal(Seq::filter);
                assert(q.take(i + 1).drop_last() =~= q.take(i as int));
                assert(types_of(f.push(e)) =~= types_of(f).push(e.1));
            }
            if e.0 == channel {
                out.push(e.1);
            }
            i = i + 1;
        }
        assert(q.take(i as int) =~= q);
        out
    }
}

/// Replies that wait in the lanes, now and at most.
#[derive(Clone, Copy, Debug, PartialEq, Eq, Structural)]
pub struct ReplyQueueSlot {
    pub current: usize,
    pub max: usize,
}

impl Default for ReplyQueueSlot {
    /// Nothing observed yet.
    fn default() -> (r: ReplyQueueSlot)
        ensures
            r.current == 0,
            r.max == 0,
    {
        ReplyQueueSlot { current: 0, max: 0 }
    }
}

impl ReplyQueueSlot {
    /// Nothing observed yet.
    pub fn new() -> (r: ReplyQueueSlot)
        ensures
            r.current == 0,
            r.max == 0,
    {
        Self::default()
    }

    /// Records how many replies wait.
    pub fn observe(&mut self, n: usize)
        ensures
            final(self).current == n,
            final(self).max == (if n > old(self).max {
                n
            } else {
                old(self).max
            }),
    {
        self.current = n;
        if n > self.max {
            self.max = n;
        }
    }

    /// Replies that wait.
    pub fn current(&self) -> (r: usize)
        ensures
            r == self.current,
    {
        self.current
    }

    /// The most replies that ever waited.
    pub fn max(&self) -> (r: usize)
        ensures
            r == self.max,
    {
        self.max
    }
}

/// What the scheduler did.
#[derive(Debug)]
pub struct SchedSlot {
    pub regular_quanta: u64,
    pub boosts: u64,
    /// Recipient, whether it was a boost, and how many lanes were ready.
    pub emits: Vec<(u32, bool, u32)>,
    /// `regular_quanta` at each boost.
    pub boost_at: Vec<u64>,
}

/// The content of a [`SchedSlot`].
#[verifier::ext_equal]
pub struct SchedSeen {
    pub regular_quanta: u64,
    pub boosts: u64,
    pub emits: Seq<(u32, bool, u32)>,
    pub boost_at: Seq<u64>,
}

impl View for SchedSlot {
    type V = SchedSeen;

    open spec fn view(&self) -> SchedSeen {
        SchedSeen {
            regular_quanta: self.regular_quanta,
            boosts: self.boosts,
            emits: self.emits@,
            boost_at: self.boost_at@,
        }
    }
}

impl SchedSeen {
    /// One more regular quantum.
    pub open spec fn one_quantum(self) -> SchedSeen {
        SchedSeen { regular_quanta: self.regular_quanta.wrapping_add(1), ..self }
    }

    /// One more boost.
    pub open spec fn one_boost(self) -> SchedSeen {
        SchedSeen {
            boosts: self.boosts.wrapping_add(1),
            boost_at: self.boost_at.push(self.regular_quanta),
            ..self
        }
    }

    /// One more packet.
    pub open spec fn one_emit(self, to: u32, boost: bool, ready: u32) -> SchedSeen {
        SchedSeen { emits: self.emits.push((to, boost, ready)), ..self }
    }
}

impl Default for SchedSlot {
    /// Nothing observed yet.
    fn default() -> (r: SchedSlot)
        ensures
            r.regular_quanta == 0,
            r.boosts == 0,
            r.emits@.len() == 0,
            r.boost_at@.len() == 0,
    {
        SchedSlot { regular_quanta: 0, boosts: 0, emits: Vec::new(), boost_at: Vec::new() }
    }
}

impl SchedSlot {
    /// Nothing observed yet.
    pub fn new() -> (r: SchedSlot)
        ensures
            r.regular_quanta == 0,
            r.boosts == 0,
            r.emits@.len() == 0,
            r.boost_at@.len() == 0,
    {
        Self::default()
    }

    /// One more regular quantum.
    pub fn note_quantum(&mut self)
        ensures
            final(self)@ == old(self)@.one_quantum(),
    {
        self.regular_quanta = self.regular_quanta.wrapping_add(1);
    }

    /// One more boost; it remembers how many quanta there were.
    pub fn note_boost(&mut self)
        ensures
            final(self)@ == old(self)@.one_boost(),
    {
        self.boosts = self.boosts.wrapping_add(1);
        self.boost_at.push(self.regular_quanta);
    }

    /// Records one packet that the scheduler let out.
    pub fn note_emit(&mut self, channel: u32, boost: bool, ready_len: u32)
        ensures
            final(self)@ == old(self)@.one_emit(channel, boost, ready_len),
    {
        self.emits.push((channel, boost, ready_len));
    }

    /// Regular quanta so far.
    pub fn regular_quanta(&self) -> (r: u64)
        ensures
            r == self.regular_quanta,
    {
        self.regular_quanta
    }

    /// Boosts so far.
    pub fn boosts(&self) -> (r: u64)
        ensures
            r == self.boosts,
    {
        self.boosts
    }

    /// The packets let out, in order.
    pub fn emits(&self) -> (r: Vec<(u32, bool, u32)>)
        ensures
            r@ == self.emits@,
    {
        let mut out: Vec<(u32, bool, u32)> = Vec::new();
        let mut i: usize = 0;
        while i < self.emits.len()
            invariant
                i <= self.emits@.len(),
                out@ == self.emits@.take(i as int),
            decreases self.emits@.len() - i,
        {
            out.push(self.emits[i]);
            i = i + 1;
            assert(out@ =~= self.emits@.take(i as int));
        }
        assert(self.emits@.take(i as int) =~= self.emits@);
        out
    }

    /// How many regular quanta there were at each boost.
    pub fn boost_at_quanta(&self) -> (r: Vec<u64>)
        ensures
            r@ == self.boost_at@,
    {
        let mut out: Vec<u64> = Vec::new();
        let mut i: usize = 0;
        while i < self.boost_at.len()
            invariant
                i <= self.boost_at@.len(),
                out@ == self.boost_at@.take(i as int),
            decreases self.boost_at@.len() - i,
        {
            out.push(self.boost_at[i]);
            i = i + 1;
            assert(out@ =~= self.boost_at@.take(i as int));
        }
        assert(self.boost_at@.take(i as int) =~= self.boost_at@);
        out
    }
}

/// The edges of the write watchdog.
#[derive(Clone, Copy, Debug, PartialEq, Eq, Structural)]
pub struct WatchdogObserveSlot {
    pub ever_armed: bool,
    pub armed_now: bool,
    pub last_eligible: u64,
    pub disarmed_after_arm: bool,
    pub last_rekey_gen: u64,
}

impl Default for WatchdogObserveSlot {
    /// Nothing observed yet.
    fn default() -> (r: WatchdogObserveSlot)
        ensures
            r == (WatchdogObserveSlot {
                ever_armed: false,
                armed_now: false,
                last_eligible: 0,
                disarmed_after_arm: false,
                last_rekey_gen: 0,
            }),
    {
        WatchdogObserveSlot {
            ever_armed: false,
            armed_now: false,
            last_eligible: 0,
            disarmed_after_arm: false,
            last_rekey_gen: 0,
        }
    }
}

impl WatchdogObserveSlot {
    /// Nothing observed yet.
    pub fn new() -> (r: WatchdogObserveSlot)
        ensures
            r == (WatchdogObserveSlot {
                ever_armed: false,
                armed_now: false,
                last_eligible: 0,
                disarmed_after_arm: false,
                last_rekey_gen: 0,
            }),
    {
        Self::default()
    }

    /// Records one look at the watchdog. Only a disarm that follows an arm counts.
    pub fn observe(&mut self, armed: bool, eligible: u64, rekey_gen: u64)
        ensures
            *final(self) == (WatchdogObserveSlot {
                ever_armed: old(self).ever_armed || armed,
                armed_now: armed || (old(self).armed_now && !old(self).ever_armed),
                last_eligible: eligible,
                disarmed_after_arm: old(self).disarmed_after_arm || (!armed && old(self).ever_armed
                    && old(self).armed_now),
                last_rekey_gen: rekey_gen,
            }),
    {
        self.last_eligible = eligible;
        self.last_rekey_gen = rekey_gen;
        if armed {
            self.ever_armed = true;
            self.armed_now = true;
        } else if self.ever_armed {
            if self.armed_now {
                self.disarmed_after_arm = true;
            }
            self.armed_now = false;
        }
    }

    /// Whether the watchdog was ever armed.
    pub fn ever_armed(&self) -> (r: bool)
        ensures
            r == self.ever_armed,
    {
        self.ever_armed
    }

    /// Whether the watchdog was armed at the last look.
    pub fn is_armed(&self) -> (r: bool)
        ensures
            r == self.armed_now,
    {
        self.armed_now
    }

    /// Eligible bytes at the last look.
    pub fn last_eligible(&self) -> (r: u64)
        ensures
            r == self.last_eligible,
    {
        self.last_eligible
    }

    /// Whether the watchdog was disarmed after it had been armed.
    pub fn disarmed_after_arm(&self) -> (r: bool)
        ensures
            r == self.disarmed_after_arm,
    {
        self.disarmed_after_arm
    }

    /// The key-exchange generation at the last look.
    pub fn last_rekey_gen(&self) -> (r: u64)
        ensures
            r == self.last_rekey_gen,
    {
        self.last_rekey_gen
    }
}

} // verus!
