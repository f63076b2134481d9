//! One ledger for every byte that waits between the channels and the socket.
use vstd::prelude::*;

use crate::sshbuffer::OUTBOUND_HIGH_WATERMARK;

verus! {

/// The larger of two sizes.
pub open spec fn larger(a: usize, b: usize) -> usize {
    if a >= b {
        a
    } else {
        b
    }
}

/// `a + b`, or the largest size where that does not fit.
pub open spec fn sat_sum(a: usize, b: usize) -> usize {
    if a + b > usize::MAX {
        usize::MAX
    } else {
        (a + b) as usize
    }
}

/// `a - b`, or zero.
pub open spec fn sat_diff(a: usize, b: usize) -> usize {
    if a >= b {
        (a - b) as usize
    } else {
        0
    }
}

/// The peaks of a ledger, and the errors found in it.
#[derive(Clone, Copy, Debug)]
pub struct LedgerMaxSlot {
    pub max: usize,
    /// Writer, session, key exchange and staging buffer when `max` was reached.
    pub parts: [usize; 4],
    /// Subtractions that did not fit. The count never starts over by itself.
    pub mismatch: u64,
    /// Times that the writer's queue was full.
    pub full_hits: u64,
    /// Times that no more data was taken in.
    pub intake_blocks: u64,
    /// The most that a key exchange held.
    pub kex_peak: usize,
    /// The most that everything else held.
    pub max_excluding_kex: usize,
    /// What key exchanges held when that was last noted.
    pub kex_seen: usize,
    /// How much key exchanges last came to hold more.
    pub last_kex_jump: usize,
    /// The high watermark has been reached.
    pub live_hwm: bool,
}

impl Default for LedgerMaxSlot {
    /// Nothing observed yet.
    fn default() -> (r: LedgerMaxSlot)
        ensures
            r == LedgerMaxSlot::blank([0usize, 0, 0, 0]),
    {
        LedgerMaxSlot {
            max: 0,
            parts: [0, 0, 0, 0],
            mismatch: 0,
            full_hits: 0,
            intake_blocks: 0,
            kex_peak: 0,
            max_excluding_kex: 0,
            kex_seen: 0,
            last_kex_jump: 0,
            live_hwm: false,
        }
    }
}

impl LedgerMaxSlot {
    /// Nothing observed, but for the parts of an earlier peak.
    pub open spec fn blank(parts: [usize; 4]) -> LedgerMaxSlot {
        LedgerMaxSlot {
            max: 0,
            parts,
            mismatch: 0,
            full_hits: 0,
            intake_blocks: 0,
            kex_peak: 0,
            max_excluding_kex: 0,
            kex_seen: 0,
            last_kex_jump: 0,
            live_hwm: false,
        }
    }

    /// The total was `n`.
    pub open spec fn observed(self, n: usize) -> LedgerMaxSlot {
        LedgerMaxSlot { max: larger(self.max, n), ..self }
    }

    /// The total was `n`, made up of `parts`.
    pub open spec fn observed_parts(self, n: usize, parts: [usize; 4]) -> LedgerMaxSlot {
        if n > self.max {
            LedgerMaxSlot { max: n, parts, ..self }
        } else {
            self
        }
    }

    /// A key exchange held `n`.
    pub open spec fn noted_kex(self, n: usize) -> LedgerMaxSlot {
        LedgerMaxSlot {
            kex_peak: larger(self.kex_peak, n),
            kex_seen: n,
            last_kex_jump: if n > self.kex_seen {
                (n - self.kex_seen) as usize
            } else {
                self.last_kex_jump
            },
            ..self
        }
    }

    /// The total was `total`, of which a key exchange held `kex`.
    pub open spec fn observed_linearized(self, total: usize, kex: usize) -> LedgerMaxSlot {
        let s = self.observed(total).noted_kex(kex);
        LedgerMaxSlot {
            max_excluding_kex: larger(s.max_excluding_kex, sat_diff(total, kex)),
            ..s
        }
    }

    /// One more subtraction that did not fit.
    pub open spec fn mismatched(self) -> LedgerMaxSlot {
        LedgerMaxSlot {
            mismatch: if self.mismatch < u64::MAX {
                (self.mismatch + 1) as u64
            } else {
                u64::MAX
            },
            ..self
        }
    }

    /// One more time that no more data was taken in.
    pub open spec fn intake_blocked(self) -> LedgerMaxSlot {
        LedgerMaxSlot { intake_blocks: self.intake_blocks.wrapping_add(1), ..self }
    }

    /// After a backlog was seen that may reach the high watermark.
    pub open spec fn seen_backlog(self, n: usize) -> LedgerMaxSlot {
        LedgerMaxSlot { live_hwm: self.live_hwm || n >= OUTBOUND_HIGH_WATERMARK, ..self }
    }

    /// Nothing observed yet.
    pub fn new() -> (r: LedgerMaxSlot)
        ensures
            r == LedgerMaxSlot::blank([0usize, 0, 0, 0]),
    {
        Self::default()
    }

    /// Takes note of a total.
    pub fn observe(&mut self, n: usize)
        ensures
            *final(self) == old(self).observed(n),
    {
        if n > self.max {
            self.max = n;
        }
    }

    /// Takes note of a total and of its parts, which are kept with a new peak.
    pub fn observe_parts(&mut self, n: usize, parts: [usize; 4])
        ensures
            *final(self) == old(self).observed_parts(n, parts),
    {
        if n > self.max {
            self.max = n;
            self.parts = parts;
        }
    }

    /// Takes note of a total and of what a key exchange holds of it.
    pub fn observe_linearized(&mut self, total: usize, kex_live: usize)
        ensures
            *final(self) == old(self).observed_linearized(total, kex_live),
    {
        self.observe(total);
        self.note_kex_need(kex_live);
        let non_kex: usize = total.saturating_sub(kex_live);
        if non_kex > self.max_excluding_kex {
            self.max_excluding_kex = non_kex;
        }
    }

    /// The parts of the peak.
    pub fn parts(&self) -> (r: [usize; 4])
        ensures
            r == self.parts,
    {
        self.parts
    }

    /// The peak.
    pub fn max(&self) -> (r: usize)
        ensures
            r == self.max,
    {
        self.max
    }

    /// One more subtraction that did not fit.
    pub fn note_mismatch(&mut self)
        ensures
            *final(self) == old(self).mismatched(),
    {
        self.mismatch = self.mismatch.saturating_add(1);
    }

    /// Subtractions that did not fit.
    pub fn mismatch(&self) -> (r: u64)
        ensures
            r == self.mismatch,
    {
        self.mismatch
    }

    /// One more time that the writer's queue was full.
    pub fn note_full_hit(&mut self)
        ensures
            *final(self) == (LedgerMaxSlot {
                full_hits: old(self).full_hits.wrapping_add(1),
                ..*old(self)
            }),
    {
        self.full_hits = self.full_hits.wrapping_add(1);
    }

    /// Times that the writer's queue was full.
    pub fn full_hits(&self) -> (r: u64)
        ensures
            r == self.full_hits,
    {
        self.full_hits
    }

    /// One more time that no more data was taken in.
    pub fn note_intake_block(&mut self)
        ensures
            *final(self) == old(self).intake_blocked(),
    {
        self.intake_blocks = self.intake_blocks.wrapping_add(1);
    }

    /// Times that no more data was taken in.
    pub fn intake_blocks(&self) -> (r: u64)
        ensures
            r == self.intake_blocks,
    {
        self.intake_blocks
    }

    /// Takes note of what a key exchange holds.
    pub fn note_kex_need(&mut self, n: usize)
        ensures
            *final(self) == old(self).noted_kex(n),
    {
        if n > self.kex_seen {
            self.last_kex_jump = n - self.kex_seen;
        }
        self.kex_seen = n;
        if n > self.kex_peak {
            self.kex_peak = n;
        }
    }

    /// The most that a key exchange held.
    pub fn kex_peak(&self) -> (r: usize)
        ensures
            r == self.kex_peak,
    {
        self.kex_peak
    }

    /// The most that everything but key exchanges held.
    pub fn max_excluding_kex_need(&self) -> (r: usize)
        ensures
            r == self.max_excluding_kex,
    {
        self.max_excluding_kex
    }

    /// How much key exchanges last came to hold more.
    pub fn last_kex_jump(&self) -> (r: usize)
        ensures
            r == self.last_kex_jump,
    {
        self.last_kex_jump
    }

    /// Takes note of a backlog, which may reach the high watermark.
    pub fn note_live_hwm(&mut self, n: usize)
        ensures
            *final(self) == old(self).seen_backlog(n),
    {
        if n >= OUTBOUND_HIGH_WATERMARK {
            self.live_hwm = true;
        }
    }

    /// Whether the high watermark has been reached.
    pub fn live_hwm(&self) -> (r: bool)
        ensures
            r == self.live_hwm,
    {
        self.live_hwm
    }

    /// Forgets everything but the parts of the last peak.
    pub fn clear(&mut self)
        ensures
            *final(self) == LedgerMaxSlot::blank(old(self).parts),
    {
        self.max = 0;
        self.mismatch = 0;
        self.full_hits = 0;
        self.intake_blocks = 0;
        self.kex_peak = 0;
        self.max_excluding_kex = 0;
        self.kex_seen = 0;
        self.last_kex_jump = 0;
        self.live_hwm = false;
    }
}

/// The whole pipeline's reservations. `total` is the sum; a transfer between
/// stages leaves it alone. `kex_live` is what key exchanges hold of it.
///
/// The writer and the session keep the ledger: each moves it together with the
/// count that the move is about. What is staged, and what waits with the next
/// key, enter it when the backlog is looked at.
#[derive(Clone, Copy, Debug)]
pub struct FullLedger {
    /// What the writer holds.
    pub writer_pending: usize,
    /// What the session has parked.
    pub session_pending: usize,
    /// What waits with the next key.
    pub kex_need: usize,
    /// What is staged.
    pub enc_write: usize,
    pub total: usize,
    pub kex_live: usize,
    /// What key exchanges hold inside the writer.
    pub kex_in_writer: usize,
    pub slot: LedgerMaxSlot,
}

impl FullLedger {
    /// After the staging buffer came to hold `new`.
    pub open spec fn staging_at(self, new: usize) -> FullLedger {
        let moved = FullLedger { enc_write: new, ..self };
        if new >= self.enc_write {
            moved.credited((new - self.enc_write) as usize)
        } else {
            moved.debited((self.enc_write - new) as usize)
        }
    }

    /// After `new` came to wait to be submitted for a key exchange.
    pub open spec fn needing(self, new: usize) -> FullLedger {
        let moved = FullLedger { kex_need: new, ..self };
        if new >= self.kex_need {
            moved.kex_credited((new - self.kex_need) as usize)
        } else {
            moved.kex_debited((self.kex_need - new) as usize)
        }
    }

    /// The four parts of the total.
    pub open spec fn part_array(self) -> [usize; 4] {
        [self.writer_pending, self.session_pending, self.kex_need, self.enc_write]
    }

    /// The peaks, once `total` and `kex` have been looked at.
    #[verifier::opaque]
    pub open spec fn looked_at(self, total: usize, kex: usize) -> FullLedger {
        FullLedger {
            slot: (LedgerMaxSlot { kex_seen: kex, ..self.slot }).observed_parts(
                total,
                self.part_array(),
            ).observed_linearized(total, kex),
            ..self
        }
    }

    /// The writer holds `n`.
    pub open spec fn at_writer(self, n: usize) -> FullLedger {
        FullLedger { writer_pending: n, ..self }
    }

    /// The session has `n` parked.
    pub open spec fn at_session(self, n: usize) -> FullLedger {
        FullLedger { session_pending: n, ..self }
    }

    /// `n` more bytes that belong to no key exchange.
    pub open spec fn credited(self, n: usize) -> FullLedger {
        if n == 0 {
            self
        } else {
            (FullLedger { total: self.total.wrapping_add(n), ..self }).looked_at(
                sat_sum(self.total, n),
                self.kex_live,
            )
        }
    }

    /// `n` bytes off the total; one that does not fit is counted, and the
    /// total starts again at zero.
    pub open spec fn less(self, n: usize) -> FullLedger {
        if n <= self.total {
            FullLedger { total: (self.total - n) as usize, ..self }
        } else {
            FullLedger { total: 0, slot: self.slot.mismatched(), ..self }
        }
    }

    /// `n` bytes fewer that belong to no key exchange.
    pub open spec fn debited(self, n: usize) -> FullLedger {
        if n == 0 {
            self
        } else if n <= self.total {
            self.less(n).looked_at((self.total - n) as usize, self.kex_live)
        } else {
            self.less(n).looked_at(0, 0)
        }
    }

    /// `n` more bytes of a key exchange.
    pub open spec fn kex_credited(self, n: usize) -> FullLedger {
        if n == 0 {
            self
        } else {
            let kex = sat_sum(self.kex_live, n);
            (FullLedger {
                kex_live: self.kex_live.wrapping_add(n),
                total: self.total.wrapping_add(n),
                slot: (LedgerMaxSlot { kex_seen: self.kex_live, ..self.slot }).noted_kex(kex),
                ..self
            }).looked_at(sat_sum(self.total, n), kex)
        }
    }

    /// `n` bytes fewer of a key exchange.
    pub open spec fn kex_debited(self, n: usize) -> FullLedger {
        if n == 0 {
            self
        } else {
            let a = self.less(n);
            let b = if n <= a.kex_live {
                FullLedger { kex_live: (a.kex_live - n) as usize, ..a }
            } else {
                FullLedger { kex_live: 0, slot: a.slot.mismatched(), ..a }
            };
            b.looked_at(
                if n <= self.total {
                    (self.total - n) as usize
                } else {
                    0
                },
                b.kex_live,
            )
        }
    }

    /// `n` bytes of a key exchange have entered the writer.
    pub open spec fn kex_to_writer(self, n: usize) -> FullLedger {
        if n == 0 {
            self
        } else {
            (FullLedger { kex_in_writer: self.kex_in_writer.wrapping_add(n), ..self }).kex_credited(
                n,
            )
        }
    }

    /// `n` bytes of a key exchange have left the writer.
    pub open spec fn kex_from_writer(self, n: usize) -> FullLedger {
        if n == 0 {
            self
        } else if n <= self.kex_in_writer {
            (FullLedger { kex_in_writer: (self.kex_in_writer - n) as usize, ..self }).kex_debited(n)
        } else {
            (FullLedger {
                kex_in_writer: 0,
                slot: self.slot.mismatched(),
                ..self
            }).kex_debited(n)
        }
    }

    /// An empty ledger with these peaks.
    pub open spec fn empty(
        writer_pending: usize,
        session_pending: usize,
        slot: LedgerMaxSlot,
    ) -> FullLedger {
        FullLedger {
            writer_pending,
            session_pending,
            kex_need: 0,
            enc_write: 0,
            total: 0,
            kex_live: 0,
            kex_in_writer: 0,
            slot,
        }
    }

    /// An empty ledger with these peaks.
    pub fn new(
        writer_pending: usize,
        session_pending: usize,
        slot: LedgerMaxSlot,
    ) -> (r: FullLedger)
        ensures
            r == FullLedger::empty(writer_pending, session_pending, slot),
    {
        FullLedger {
            writer_pending,
            session_pending,
            kex_need: 0,
            enc_write: 0,
            total: 0,
            kex_live: 0,
            kex_in_writer: 0,
            slot,
        }
    }

    /// The writer holds `n`.
    pub fn note_writer(&mut self, n: usize)
        ensures
            *final(self) == old(self).at_writer(n),
    {
        self.writer_pending = n;
    }

    /// The session has `n` parked.
    pub fn note_session(&mut self, n: usize)
        ensures
            *final(self) == old(self).at_session(n),
    {
        self.session_pending = n;
    }

    /// The sum of all reservations.
    pub fn total(&self) -> (r: usize)
        ensures
            r == self.total,
    {
        self.total
    }

    /// Takes `n` bytes in that belong to no key exchange.
    pub fn credit(&mut self, n: usize)
        ensures
            *final(self) == old(self).credited(n),
    {
        if n == 0 {
            return ;
        }
        let now: usize = self.total.saturating_add(n);
        self.total = self.total.wrapping_add(n);
        let kex: usize = self.kex_live;
        self.observe_now(now, kex);
    }

    /// Lets `n` bytes out that belong to no key exchange.
    pub fn debit(&mut self, n: usize)
        ensures
            *final(self) == old(self).debited(n),
    {
        if n == 0 {
            return ;
        }
        match self.sub_total(n) {
            Some(now) => {
                let kex: usize = self.kex_live;
                self.observe_now(now, kex);
            },
            None => {
                self.observe_now(0, 0);
            },
        }
    }

    /// Takes `n` bytes of a key exchange in.
    pub fn credit_kex(&mut self, n: usize)
        ensures
            *final(self) == old(self).kex_credited(n),
    {
        if n == 0 {
            return ;
        }
        let kex: usize = self.kex_live.saturating_add(n);
        self.slot.kex_seen = self.kex_live;
        self.kex_live = self.kex_live.wrapping_add(n);
        let now: usize = self.total.saturating_add(n);
        self.total = self.total.wrapping_add(n);
        self.slot.note_kex_need(kex);
        self.observe_now(now, kex);
    }

    /// Lets `n` bytes of a key exchange out.
    pub fn debit_kex(&mut self, n: usize)
        ensures
            *final(self) == old(self).kex_debited(n),
    {
        if n == 0 {
            return ;
        }
        let now: Option<usize> = self.sub_total(n);
        if n <= self.kex_live {
            self.kex_live = self.kex_live - n;
        } else {
            self.slot.note_mismatch();
            self.kex_live = 0;
        }
        let kex: usize = self.kex_live;
        self.observe_now(
            match now {
                Some(t) => t,
                None => 0,
            },
            kex,
        );
    }

    /// Takes `n` bytes of a key exchange into the writer.
    pub fn credit_kex_to_writer(&mut self, n: usize)
        ensures
            *final(self) == old(self).kex_to_writer(n),
    {
        if n == 0 {
            return ;
        }
        self.kex_in_writer = self.kex_in_writer.wrapping_add(n);
        self.credit_kex(n);
    }

    /// Lets `n` bytes of a key exchange out of the writer.
    pub fn debit_kex_from_writer(&mut self, n: usize)
        ensures
            *final(self) == old(self).kex_from_writer(n),
    {
        if n == 0 {
            return ;
        }
        if n <= self.kex_in_writer {
            self.kex_in_writer = self.kex_in_writer - n;
        } else {
            self.slot.note_mismatch();
            self.kex_in_writer = 0;
        }
        self.debit_kex(n);
    }

    /// What key exchanges hold inside the writer.
    pub fn kex_in_writer(&self) -> (r: usize)
        ensures
            r == self.kex_in_writer,
    {
        self.kex_in_writer
    }

    /// Takes `n` off the total.
    fn sub_total(&mut self, n: usize) -> (r: Option<usize>)
        ensures
            *final(self) == old(self).less(n),
            r == (if n <= old(self).total {
                Some((old(self).total - n) as usize)
            } else {
                None
            }),
    {
        if n <= self.total {
            self.total = self.total - n;
            Some(self.total)
        } else {
            self.slot.note_mismatch();
            self.total = 0;
            None
        }
    }

    /// What the staging buffer holds now; the difference is taken in or let out.
    pub fn set_enc_write(&mut self, new: usize)
        ensures
            *final(self) == old(self).staging_at(new),
    {
        let old_w: usize = self.enc_write;
        self.enc_write = new;
        if new > old_w {
            self.credit(new - old_w);
        } else if old_w > new {
            self.debit(old_w - new);
        }
    }

    /// What waits to be submitted of a key exchange; the difference is taken
    /// in or let out.
    pub fn set_kex_need(&mut self, new: usize)
        ensures
            *final(self) == old(self).needing(new),
    {
        let old_w: usize = self.kex_need;
        self.kex_need = new;
        if new > old_w {
            self.credit_kex(new - old_w);
        } else if old_w > new {
            self.debit_kex(old_w - new);
        }
    }

    /// Takes note of a total and of what a key exchange holds of it.
    fn observe_now(&mut self, total: usize, kex_live: usize)
        ensures
            *final(self) == old(self).looked_at(total, kex_live),
    {
        proof {
            reveal(FullLedger::looked_at);
        }
        let parts: [usize; 4] = [
            self.writer_pending,
            self.session_pending,
            self.kex_need,
            self.enc_write,
        ];
        assert(parts == self.part_array());
        self.slot.kex_seen = kex_live;
        self.slot.observe_parts(total, parts);
        self.slot.observe_linearized(total, kex_live);
    }

    /// What key exchanges hold.
    pub fn kex_live(&self) -> (r: usize)
        ensures
            r == self.kex_live,
    {
        self.kex_live
    }

    /// Takes note of the ledger as it is.
    pub fn sample(&mut self)
        ensures
            *final(self) == old(self).looked_at(old(self).total, old(self).kex_live),
    {
        let total: usize = self.total;
        let kex: usize = self.kex_live;
        self.observe_now(total, kex);
    }
}

/// What was taken in and let out again has left no trace in the sums.
pub proof fn law_credit_then_debit_restores(l: FullLedger, n: usize)
    requires
        l.total + n <= usize::MAX,
    ensures
        l.credited(n).debited(n).total == l.total,
        l.credited(n).debited(n).kex_live == l.kex_live,
        l.credited(n).debited(n).slot.mismatch == l.slot.mismatch,
{
    reveal(FullLedger::looked_at);
}

/// The same for a key exchange, which never changes what the rest holds.
pub proof fn law_kex_credit_then_debit_restores(l: FullLedger, n: usize)
    requires
        l.total + n <= usize::MAX,
        l.kex_live + n <= usize::MAX,
    ensures
        l.kex_credited(n).total - l.kex_credited(n).kex_live == l.total - l.kex_live,
        l.kex_credited(n).kex_debited(n).total == l.total,
        l.kex_credited(n).kex_debited(n).kex_live == l.kex_live,
        l.kex_credited(n).kex_debited(n).slot.mismatch == l.slot.mismatch,
{
    reveal(FullLedger::looked_at);
}

/// Handing a waiting key exchange to the writer moves its bytes and changes
/// neither the total nor what key exchanges hold.
pub proof fn law_kex_submit_is_a_transfer(l: FullLedger, n: usize)
    requires
        n <= l.kex_live <= l.total,
    ensures
        l.kex_debited(n).kex_to_writer(n).total == l.total,
        l.kex_debited(n).kex_to_writer(n).kex_live == l.kex_live,
        l.kex_debited(n).kex_to_writer(n).slot.mismatch == l.slot.mismatch,
{
    reveal(FullLedger::looked_at);
}

/// Moving bytes from one stage to the next, out of the first before into the
/// second, keeps the total and sets no new peak.
pub proof fn law_transfer_keeps_total(l: FullLedger, n: usize)
    requires
        n <= l.total,
        l.kex_live <= l.total - n,
        l.slot.max >= l.total,
    ensures
        l.debited(n).credited(n).total == l.total,
        l.debited(n).credited(n).slot.max == l.slot.max,
{
    reveal(FullLedger::looked_at);
}

/// Peaks never go down, and the total never exceeds its peak.
pub proof fn law_peaks_are_monotone(l: FullLedger, n: usize)
    requires
        l.total + n <= usize::MAX,
        l.kex_live + n <= usize::MAX,
    ensures
        l.credited(n).slot.max >= l.slot.max,
        l.kex_credited(n).slot.max >= l.slot.max,
        l.debited(n).slot.max >= l.slot.max,
        l.kex_debited(n).slot.max >= l.slot.max,
        l.kex_credited(n).slot.kex_peak >= l.slot.kex_peak,
        l.credited(n).slot.max_excluding_kex >= l.slot.max_excluding_kex,
        n > 0 ==> l.credited(n).slot.max >= l.credited(n).total,
        n > 0 ==> l.kex_credited(n).slot.kex_peak >= l.kex_credited(n).kex_live,
{
    reveal(FullLedger::looked_at);
}

/// What was last noted as a growth is the last growth, whether or not it set a
/// peak.
pub proof fn law_kex_jump_is_the_last_growth(l: FullLedger, n: usize, m: usize)
    requires
        0 < n,
        l.kex_live + n <= usize::MAX,
    ensures
        l.kex_credited(n).slot.last_kex_jump == n,
        l.credited(m).slot.last_kex_jump == l.slot.last_kex_jump,
        l.debited(m).slot.last_kex_jump == l.slot.last_kex_jump,
        l.kex_debited(m).slot.last_kex_jump == l.slot.last_kex_jump,
{
    reveal(FullLedger::looked_at);
}

/// What can be done to a ledger by those who keep it.
pub enum LedgerMove {
    Credit(usize),
    Debit(usize),
    Staging(usize),
    Need(usize),
    KexToWriter(usize),
    KexFromWriter(usize),
    Writer(usize),
    Session(usize),
}

impl FullLedger {
    /// After one move.
    pub open spec fn moved(self, m: LedgerMove) -> FullLedger {
        match m {
            LedgerMove::Credit(n) => self.credited(n),
            LedgerMove::Debit(n) => self.debited(n),
            LedgerMove::Staging(n) => self.staging_at(n),
            LedgerMove::Need(n) => self.needing(n),
            LedgerMove::KexToWriter(n) => self.kex_to_writer(n),
            LedgerMove::KexFromWriter(n) => self.kex_from_writer(n),
            LedgerMove::Writer(n) => self.at_writer(n),
            LedgerMove::Session(n) => self.at_session(n),
        }
    }

    /// After several moves.
    pub open spec fn moved_all(self, ms: Seq<LedgerMove>) -> FullLedger
        decreases ms.len(),
    {
        if ms.len() == 0 {
            self
        } else {
            self.moved_all(ms.drop_last()).moved(ms.last())
        }
    }

    /// What key exchanges hold is what waits with the next key and what the
    /// writer holds of them.
    pub open spec fn kex_adds_up(self) -> bool {
        self.kex_live == self.kex_need.wrapping_add(self.kex_in_writer)
    }
}

/// Sums that wrap can be taken in any order, and what was added can be taken
/// away again.
pub proof fn lemma_wrapping(a: usize, b: usize, n: usize)
    ensures
        a.wrapping_add(n).wrapping_add(b) == a.wrapping_add(b).wrapping_add(n),
        a.wrapping_add(b.wrapping_add(n)) == a.wrapping_add(b).wrapping_add(n),
        a.wrapping_add(b) == b.wrapping_add(a),
        a.wrapping_add(n) == b.wrapping_add(n) ==> a == b,
        n <= a ==> ((a - n) as usize).wrapping_add(n) == a,
{
}

/// Looking changes nothing but the peaks.
pub proof fn lemma_looked_at(l: FullLedger, total: usize, kex: usize)
    ensures
        l.looked_at(total, kex) == (FullLedger { slot: l.looked_at(total, kex).slot, ..l }),
        l.looked_at(total, kex).slot.mismatch == l.slot.mismatch,
{
    reveal(FullLedger::looked_at);
}

/// What a move of bytes that belong to no key exchange does, but for the peaks.
/// A failed subtraction leaves its mark, as long as the count has room.
pub proof fn lemma_moved_bytes(l: FullLedger, n: usize)
    ensures
        l.credited(n) == (FullLedger {
            total: l.total.wrapping_add(n),
            slot: l.credited(n).slot,
            ..l
        }),
        l.credited(n).slot.mismatch == l.slot.mismatch,
        l.debited(n) == (FullLedger {
            total: l.debited(n).total,
            slot: l.debited(n).slot,
            ..l
        }),
        l.slot.mismatch <= l.debited(n).slot.mismatch,
        l.debited(n).slot.mismatch == l.slot.mismatch < u64::MAX
            ==> l.debited(n).total.wrapping_add(n) == l.total,
{
    lemma_looked_at(
        FullLedger { total: l.total.wrapping_add(n), ..l },
        sat_sum(l.total, n),
        l.kex_live,
    );
    lemma_looked_at(l.less(n), 0, 0);
    if n <= l.total {
        lemma_looked_at(l.less(n), (l.total - n) as usize, l.kex_live);
    }
}

/// The same for bytes of a key exchange.
pub proof fn lemma_moved_kex_bytes(l: FullLedger, n: usize)
    ensures
        l.kex_credited(n) == (FullLedger {
            total: l.total.wrapping_add(n),
            kex_live: l.kex_live.wrapping_add(n),
            slot: l.kex_credited(n).slot,
            ..l
        }),
        l.kex_credited(n).slot.mismatch == l.slot.mismatch,
        l.kex_debited(n) == (FullLedger {
            total: l.kex_debited(n).total,
            kex_live: l.kex_debited(n).kex_live,
            slot: l.kex_debited(n).slot,
            ..l
        }),
        l.slot.mismatch <= l.kex_debited(n).slot.mismatch,
        l.kex_debited(n).slot.mismatch == l.slot.mismatch < u64::MAX ==> {
            &&& l.kex_debited(n).total.wrapping_add(n) == l.total
            &&& l.kex_debited(n).kex_live.wrapping_add(n) == l.kex_live
        },
{
    let kex = sat_sum(l.kex_live, n);
    lemma_looked_at(
        FullLedger {
            kex_live: l.kex_live.wrapping_add(n),
            total: l.total.wrapping_add(n),
            slot: (LedgerMaxSlot { kex_seen: l.kex_live, ..l.slot }).noted_kex(kex),
            ..l
        },
        sat_sum(l.total, n),
        kex,
    );
    if n > 0 {
        let a = l.less(n);
        let b = if n <= a.kex_live {
            FullLedger { kex_live: (a.kex_live - n) as usize, ..a }
        } else {
            FullLedger { kex_live: 0, slot: a.slot.mismatched(), ..a }
        };
        lemma_looked_at(
            b,
            if n <= l.total {
                (l.total - n) as usize
            } else {
                0
            },
            b.kex_live,
        );
    }
}

/// The same for bytes of a key exchange on their way through the writer.
pub proof fn lemma_moved_writer_kex_bytes(l: FullLedger, n: usize)
    ensures
        l.kex_to_writer(n) == (FullLedger {
            total: l.total.wrapping_add(n),
            kex_live: l.kex_live.wrapping_add(n),
            kex_in_writer: l.kex_in_writer.wrapping_add(n),
            slot: l.kex_to_writer(n).slot,
            ..l
        }),
        l.kex_to_writer(n).slot.mismatch == l.slot.mismatch,
        l.kex_from_writer(n) == (FullLedger {
            total: l.kex_from_writer(n).total,
            kex_live: l.kex_from_writer(n).kex_live,
            kex_in_writer: l.kex_from_writer(n).kex_in_writer,
            slot: l.kex_from_writer(n).slot,
            ..l
        }),
        l.slot.mismatch <= l.kex_from_writer(n).slot.mismatch,
        l.kex_from_writer(n).slot.mismatch == l.slot.mismatch < u64::MAX ==> {
            &&& l.kex_from_writer(n).total.wrapping_add(n) == l.total
            &&& l.kex_from_writer(n).kex_live.wrapping_add(n) == l.kex_live
            &&& l.kex_from_writer(n).kex_in_writer.wrapping_add(n) == l.kex_in_writer
        },
{
    lemma_moved_kex_bytes(
        FullLedger { kex_in_writer: l.kex_in_writer.wrapping_add(n), ..l },
        n,
    );
    if n <= l.kex_in_writer {
        lemma_moved_kex_bytes(
            FullLedger { kex_in_writer: (l.kex_in_writer - n) as usize, ..l },
            n,
        );
    } else {
        lemma_moved_kex_bytes(
            FullLedger { kex_in_writer: 0, slot: l.slot.mismatched(), ..l },
            n,
        );
    }
}

/// What a new weight of what is staged does, but for the peaks.
pub proof fn lemma_staging_at(l: FullLedger, n: usize)
    ensures
        ({
            let r = l.staging_at(n);
            &&& r == (FullLedger { total: r.total, enc_write: n, slot: r.slot, ..l })
            &&& l.slot.mismatch <= r.slot.mismatch
            &&& r.slot.mismatch == l.slot.mismatch < u64::MAX ==> r.total.wrapping_add(l.enc_write)
                == l.total.wrapping_add(n)
        }),
{
    let moved = FullLedger { enc_write: n, ..l };
    if n >= l.enc_write {
        lemma_moved_bytes(moved, (n - l.enc_write) as usize);
        lemma_wrapping(l.total, l.enc_write, (n - l.enc_write) as usize);
    } else {
        lemma_moved_bytes(moved, (l.enc_write - n) as usize);
        lemma_wrapping(l.staging_at(n).total, n, (l.enc_write - n) as usize);
    }
}

/// What a new weight of what waits with the next key does, but for the peaks.
pub proof fn lemma_needing(l: FullLedger, n: usize)
    ensures
        ({
            let r = l.needing(n);
            &&& r == (FullLedger {
                total: r.total,
                kex_live: r.kex_live,
                kex_need: n,
                slot: r.slot,
                ..l
            })
            &&& l.slot.mismatch <= r.slot.mismatch
            &&& r.slot.mismatch == l.slot.mismatch < u64::MAX ==> r.total.wrapping_add(l.kex_need)
                == l.total.wrapping_add(n)
            &&& r.slot.mismatch == l.slot.mismatch < u64::MAX ==> r.kex_live.wrapping_add(
                l.kex_need,
            ) == l.kex_live.wrapping_add(n)
        }),
{
    let moved = FullLedger { kex_need: n, ..l };
    if n >= l.kex_need {
        let d = (n - l.kex_need) as usize;
        lemma_moved_kex_bytes(moved, d);
        lemma_wrapping(l.total, l.kex_need, d);
        lemma_wrapping(l.kex_live, l.kex_need, d);
    } else {
        let d = (l.kex_need - n) as usize;
        lemma_moved_kex_bytes(moved, d);
        lemma_wrapping(l.needing(n).total, n, d);
        lemma_wrapping(l.needing(n).kex_live, n, d);
    }
}

/// As long as no subtraction fails, every move keeps what key exchanges hold
/// equal to what waits with the next key plus what the writer holds of them.
/// A failure is never forgotten.
pub proof fn law_moves_keep_the_kex_sum(l: FullLedger, m: LedgerMove)
    ensures
        l.slot.mismatch <= l.moved(m).slot.mismatch,
        l.kex_adds_up() && l.moved(m).slot.mismatch == 0 ==> l.moved(m).kex_adds_up(),
{
    let r = l.moved(m);
    match m {
        LedgerMove::Credit(n) => lemma_moved_bytes(l, n),
        LedgerMove::Debit(n) => lemma_moved_bytes(l, n),
        LedgerMove::Staging(n) => lemma_staging_at(l, n),
        LedgerMove::Need(n) => {
            lemma_needing(l, n);
            lemma_wrapping(l.kex_need, l.kex_in_writer, n);
            lemma_wrapping(n, l.kex_in_writer, l.kex_need);
            lemma_wrapping(r.kex_live, n.wrapping_add(l.kex_in_writer), l.kex_need);
            lemma_wrapping(l.kex_need, n, 0);
        },
        LedgerMove::KexToWriter(n) => {
            lemma_moved_writer_kex_bytes(l, n);
            lemma_wrapping(l.kex_need, l.kex_in_writer, n);
        },
        LedgerMove::KexFromWriter(n) => {
            lemma_moved_writer_kex_bytes(l, n);
            lemma_wrapping(l.kex_need, r.kex_in_writer, n);
            lemma_wrapping(r.kex_live, l.kex_need.wrapping_add(r.kex_in_writer), n);
        },
        _ => {},
    }
}

/// Over any run of moves from an empty ledger after which no failed subtraction
/// is on record, what key exchanges hold is what waits with the next key plus
/// what the writer holds of them.
pub proof fn law_kex_sum_holds_over_any_run(
    writer: usize,
    session: usize,
    slot: LedgerMaxSlot,
    ms: Seq<LedgerMove>,
)
    ensures
        ({
            let l = FullLedger::empty(writer, session, slot).moved_all(ms);
            &&& slot.mismatch <= l.slot.mismatch
            &&& l.slot.mismatch == 0 ==> l.kex_adds_up()
            &&& l.slot.mismatch == 0 && l.kex_need + l.kex_in_writer <= usize::MAX ==> l.kex_live
                == l.kex_need + l.kex_in_writer
        }),
    decreases ms.len(),
{
    if ms.len() > 0 {
        law_kex_sum_holds_over_any_run(writer, session, slot, ms.drop_last());
        law_moves_keep_the_kex_sum(
            FullLedger::empty(writer, session, slot).moved_all(ms.drop_last()),
            ms.last(),
        );
    }
}

} // verus!
