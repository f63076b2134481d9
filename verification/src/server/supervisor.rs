//! Why and when a connection is given up: causes, write progress, the write
//! watchdog and the key-exchange deadline. Times are milliseconds since the
//! session started; the caller reads the clock.
use vstd::prelude::*;

verus! {

/// Why a connection was torn down. The first cause wins.
#[derive(Clone, Copy, Debug, PartialEq, Eq, Structural)]
pub enum DisconnectCause {
    /// Sealed bytes made no progress in time.
    WriteStalled,
    /// A key exchange did not finish in time.
    RekeyTimeout,
    /// Banner, first key exchange and authentication did not finish in time.
    HandshakeTimeout,
    /// The peer or the session itself failed.
    PeerError,
    /// We asked for it.
    LocalShutdown,
}

impl DisconnectCause {
    /// The number that stands for a cause.
    pub open spec fn code(self) -> u8 {
        match self {
            DisconnectCause::WriteStalled => 1,
            DisconnectCause::RekeyTimeout => 2,
            DisconnectCause::HandshakeTimeout => 3,
            DisconnectCause::PeerError => 4,
            DisconnectCause::LocalShutdown => 5,
        }
    }

    /// The cause that a number stands for.
    pub fn from_u8(v: u8) -> (r: Option<DisconnectCause>)
        ensures
            r is Some <==> 1 <= v <= 5,
            r matches Some(c) ==> c.code() == v,
    {
        match v {
            1 => Some(DisconnectCause::WriteStalled),
            2 => Some(DisconnectCause::RekeyTimeout),
            3 => Some(DisconnectCause::HandshakeTimeout),
            4 => Some(DisconnectCause::PeerError),
            5 => Some(DisconnectCause::LocalShutdown),
            _ => None,
        }
    }

    /// The number that stands for this cause.
    pub fn as_u8(self) -> (r: u8)
        ensures
            r == self.code(),
    {
        match self {
            DisconnectCause::WriteStalled => 1,
            DisconnectCause::RekeyTimeout => 2,
            DisconnectCause::HandshakeTimeout => 3,
            DisconnectCause::PeerError => 4,
            DisconnectCause::LocalShutdown => 5,
        }
    }
}

/// No two causes share a number, and none has the number that means "none".
pub proof fn law_cause_codes_are_distinct(a: DisconnectCause, b: DisconnectCause)
    ensures
        a.code() == b.code() ==> a == b,
        a.code() != 0,
{
}

/// The first of two causes.
pub open spec fn first_cause(
    held: Option<DisconnectCause>,
    cause: DisconnectCause,
) -> Option<DisconnectCause> {
    match held {
        Some(c) => Some(c),
        None => Some(cause),
    }
}

/// Whatever is recorded later, the first cause stays.
pub proof fn law_first_cause_wins(
    held: Option<DisconnectCause>,
    a: DisconnectCause,
    b: DisconnectCause,
)
    ensures
        first_cause(first_cause(held, a), b) == first_cause(held, a),
        first_cause(None, a) == Some(a),
{
}

/// Holds the first cause that is recorded.
#[derive(Clone, Copy, Debug, PartialEq, Eq, Structural)]
pub struct DisconnectCauseSlot {
    pub raw: Option<DisconnectCause>,
}

impl Default for DisconnectCauseSlot {
    /// No cause yet.
    fn default() -> (r: DisconnectCauseSlot)
        ensures
            r.raw is None,
    {
        DisconnectCauseSlot { raw: None }
    }
}

impl DisconnectCauseSlot {
    /// No cause yet.
    pub fn new() -> (r: DisconnectCauseSlot)
        ensures
            r.raw is None,
    {
        Self::default()
    }

    /// Records a cause; later ones are ignored.
    pub fn record(&mut self, cause: DisconnectCause)
        ensures
            final(self).raw == first_cause(old(self).raw, cause),
    {
        if self.raw.is_none() {
            self.raw = Some(cause);
        }
    }

    /// The cause recorded first.
    pub fn get(&self) -> (r: Option<DisconnectCause>)
        ensures
            r == self.raw,
    {
        self.raw
    }

    /// Forgets the cause.
    pub fn clear(&mut self)
        ensures
            final(self).raw is None,
    {
        self.raw = None;
    }
}

/// `a + b`, or the largest number where that does not fit.
pub open spec fn sat_add(a: u64, b: u64) -> u64 {
    if a + b > u64::MAX {
        u64::MAX
    } else {
        (a + b) as u64
    }
}

/// `a - b`, or zero.
pub open spec fn sat_sub(a: u64, b: u64) -> u64 {
    if a >= b {
        (a - b) as u64
    } else {
        0
    }
}

/// How the writer is getting on; always read and written as a whole.
#[derive(Clone, Copy, Debug, PartialEq, Eq, Structural)]
pub struct WriteProgress {
    pub generation: u64,
    pub last_write_ok_ms: u64,
    pub wire_eligible_bytes: u64,
    pub drained_bytes_epoch: u64,
}

impl WriteProgress {
    /// After the socket took `n` bytes at the time `now_ms`.
    pub open spec fn noted(self, n: usize, now_ms: u64) -> WriteProgress {
        if n == 0 {
            self
        } else {
            WriteProgress {
                generation: self.generation.wrapping_add(1),
                last_write_ok_ms: now_ms,
                wire_eligible_bytes: sat_sub(self.wire_eligible_bytes, n as u64),
                drained_bytes_epoch: sat_add(self.drained_bytes_epoch, n as u64),
            }
        }
    }

    /// After `bytes` were found waiting for the socket.
    pub open spec fn eligible(self, bytes: u64) -> WriteProgress {
        WriteProgress {
            generation: self.generation.wrapping_add(1),
            wire_eligible_bytes: bytes,
            ..self
        }
    }

    /// Nothing written yet.
    pub fn new() -> (r: WriteProgress)
        ensures
            r == (WriteProgress {
                generation: 0,
                last_write_ok_ms: 0,
                wire_eligible_bytes: 0,
                drained_bytes_epoch: 0,
            }),
    {
        WriteProgress {
            generation: 0,
            last_write_ok_ms: 0,
            wire_eligible_bytes: 0,
            drained_bytes_epoch: 0,
        }
    }
}

/// The snapshot that the writer publishes and the supervisor reads.
#[derive(Clone, Copy, Debug, PartialEq, Eq, Structural)]
pub struct AtomicWriteProgress {
    pub inner: WriteProgress,
}

impl Default for AtomicWriteProgress {
    /// Nothing written yet.
    fn default() -> (r: AtomicWriteProgress)
        ensures
            r.inner == (WriteProgress {
                generation: 0,
                last_write_ok_ms: 0,
                wire_eligible_bytes: 0,
                drained_bytes_epoch: 0,
            }),
    {
        AtomicWriteProgress { inner: WriteProgress::new() }
    }
}

impl AtomicWriteProgress {
    /// Nothing written yet.
    pub fn new() -> (r: AtomicWriteProgress)
        ensures
            r.inner == (WriteProgress {
                generation: 0,
                last_write_ok_ms: 0,
                wire_eligible_bytes: 0,
                drained_bytes_epoch: 0,
            }),
    {
        Self::default()
    }

    /// The whole snapshot.
    pub fn load(&self) -> (r: WriteProgress)
        ensures
            r == self.inner,
    {
        self.inner
    }

    /// Replaces the whole snapshot.
    pub fn store(&mut self, snap: WriteProgress)
        ensures
            final(self).inner == snap,
    {
        self.inner = snap;
    }

    /// The socket took `n` bytes at the time `now_ms`.
    pub fn note_write(&mut self, n: usize, now_ms: u64)
        ensures
            final(self).inner == old(self).inner.noted(n, now_ms),
    {
        if n == 0 {
            return ;
        }
        let g = self.inner;
        self.inner = WriteProgress {
            generation: g.generation.wrapping_add(1),
            last_write_ok_ms: now_ms,
            wire_eligible_bytes: g.wire_eligible_bytes.saturating_sub(n as u64),
            drained_bytes_epoch: g.drained_bytes_epoch.saturating_add(n as u64),
        };
    }

    /// Publishes how many bytes wait for the socket.
    pub fn store_eligible(&mut self, wire_eligible_bytes: u64)
        ensures
            final(self).inner == old(self).inner.eligible(wire_eligible_bytes),
    {
        self.inner.wire_eligible_bytes = wire_eligible_bytes;
        self.inner.generation = self.inner.generation.wrapping_add(1);
    }
}

/// How many bytes have to leave in how many milliseconds.
#[derive(Clone, Copy, Debug, PartialEq, Eq, Structural)]
pub struct MinDrain {
    pub min_bytes: usize,
    pub window_ms: u64,
}

/// Watches that waiting bytes leave: any progress within a deadline, and
/// optionally a minimum amount per window.
#[derive(Clone, Copy, Debug, PartialEq, Eq, Structural)]
pub struct WriteWatchdog {
    /// When bytes began to wait; `None` while none do.
    pub armed_at: Option<u64>,
    pub last_progress_at: Option<u64>,
    pub drain_window_start: Option<u64>,
    pub drained_in_window: u64,
    pub snapshot: WriteProgress,
    pub snapshot_gen: u64,
}

impl Default for WriteWatchdog {
    /// Not armed.
    fn default() -> (r: WriteWatchdog)
        ensures
            r == WriteWatchdog::idle(),
    {
        WriteWatchdog {
            armed_at: None,
            last_progress_at: None,
            drain_window_start: None,
            drained_in_window: 0,
            snapshot: WriteProgress::new(),
            snapshot_gen: 0,
        }
    }
}

impl WriteWatchdog {
    /// The watchdog that has seen nothing.
    pub open spec fn idle() -> WriteWatchdog {
        WriteWatchdog {
            armed_at: None,
            last_progress_at: None,
            drain_window_start: None,
            drained_in_window: 0,
            snapshot: WriteProgress {
                generation: 0,
                last_write_ok_ms: 0,
                wire_eligible_bytes: 0,
                drained_bytes_epoch: 0,
            },
            snapshot_gen: 0,
        }
    }

    /// When there was progress last, in an armed watchdog.
    pub open spec fn last(self) -> u64 {
        match self.last_progress_at {
            Some(t) => t,
            None => self.armed_at->0,
        }
    }

    /// When the current drain window began, in an armed watchdog.
    pub open spec fn window_start(self) -> u64 {
        match self.drain_window_start {
            Some(t) => t,
            None => self.armed_at->0,
        }
    }

    /// No progress for too long.
    pub open spec fn inactive(self, now: u64, deadline_ms: u64) -> bool {
        self.armed_at is Some && sat_sub(now, self.last()) >= deadline_ms
    }

    /// A drain window has gone by.
    pub open spec fn window_over(self, now: u64, min_drain: Option<MinDrain>) -> bool {
        self.armed_at is Some && (min_drain matches Some(m) && sat_sub(now, self.window_start())
            >= m.window_ms)
    }

    /// Too little left in the drain window that has gone by.
    pub open spec fn too_slow(self, now: u64, min_drain: Option<MinDrain>) -> bool {
        self.window_over(now, min_drain) && self.drained_in_window < min_drain->0.min_bytes
    }

    /// After `bytes` were found waiting: none disarm, the first ones arm with a
    /// fresh clock, more or fewer change nothing.
    pub open spec fn observed(self, bytes: u64, now: u64) -> WriteWatchdog {
        let seen = WriteProgress {
            wire_eligible_bytes: bytes,
            generation: self.snapshot_gen,
            ..self.snapshot
        };
        if bytes == 0 {
            WriteWatchdog {
                armed_at: None,
                last_progress_at: None,
                drain_window_start: None,
                drained_in_window: 0,
                snapshot: seen,
                ..self
            }
        } else if self.armed_at is None {
            WriteWatchdog {
                armed_at: Some(now),
                last_progress_at: Some(now),
                drain_window_start: Some(now),
                drained_in_window: 0,
                snapshot: WriteProgress { last_write_ok_ms: now, ..seen },
                ..self
            }
        } else {
            WriteWatchdog { snapshot: seen, ..self }
        }
    }

    /// After the socket took `n` bytes.
    pub open spec fn wrote(self, n: usize, now: u64) -> WriteWatchdog {
        if n == 0 {
            self
        } else {
            WriteWatchdog {
                last_progress_at: Some(now),
                drained_in_window: sat_add(self.drained_in_window, n as u64),
                snapshot: WriteProgress {
                    generation: self.snapshot_gen.wrapping_add(1),
                    last_write_ok_ms: now,
                    drained_bytes_epoch: sat_add(self.snapshot.drained_bytes_epoch, n as u64),
                    ..self.snapshot
                },
                snapshot_gen: self.snapshot_gen.wrapping_add(1),
                ..self
            }
        }
    }

    /// The write path has stalled.
    pub open spec fn stalled(
        self,
        deadline_ms: u64,
        min_drain: Option<MinDrain>,
        now: u64,
    ) -> bool {
        self.inactive(now, deadline_ms) || self.too_slow(now, min_drain)
    }

    /// After a look at the deadlines: a drain window in which enough left gives
    /// way to a new one.
    pub open spec fn polled(
        self,
        deadline_ms: u64,
        min_drain: Option<MinDrain>,
        now: u64,
    ) -> WriteWatchdog {
        if !self.stalled(deadline_ms, min_drain, now) && self.window_over(now, min_drain) {
            WriteWatchdog { drain_window_start: Some(now), drained_in_window: 0, ..self }
        } else {
            self
        }
    }

    /// How long until missing progress could be noticed.
    pub open spec fn activity_sleep(self, deadline_ms: u64, now: u64) -> Option<u64> {
        if self.armed_at is Some {
            Some(at_least_one(sat_sub(deadline_ms, sat_sub(now, self.last()))))
        } else {
            None
        }
    }

    /// How long until a drain window is over.
    pub open spec fn drain_sleep(self, min_drain: Option<MinDrain>, now: u64) -> Option<u64> {
        if self.armed_at is Some && min_drain is Some {
            Some(at_least_one(sat_sub(min_drain->0.window_ms, sat_sub(now, self.window_start()))))
        } else {
            None
        }
    }

    /// Not armed.
    pub fn new() -> (r: WriteWatchdog)
        ensures
            r == WriteWatchdog::idle(),
    {
        Self::default()
    }

    /// The progress seen so far.
    pub fn snapshot(&self) -> (r: WriteProgress)
        ensures
            r == self.snapshot,
    {
        self.snapshot
    }

    /// Whether bytes wait.
    pub fn is_armed(&self) -> (r: bool)
        ensures
            r == (self.armed_at is Some),
    {
        self.armed_at.is_some()
    }

    /// Takes note of how many bytes wait. None disarms; the first ones arm
    /// with a fresh clock; more or fewer change nothing.
    pub fn observe_eligible(&mut self, wire_eligible_bytes: u64, now: u64)
        ensures
            *final(self) == old(self).observed(wire_eligible_bytes, now),
    {
        self.snapshot.wire_eligible_bytes = wire_eligible_bytes;
        self.snapshot.generation = self.snapshot_gen;
        if wire_eligible_bytes == 0 {
            self.armed_at = None;
            self.last_progress_at = None;
            self.drain_window_start = None;
            self.drained_in_window = 0;
            return ;
        }
        if self.armed_at.is_none() {
            self.armed_at = Some(now);
            self.last_progress_at = Some(now);
            self.drain_window_start = Some(now);
            self.drained_in_window = 0;
            self.snapshot.last_write_ok_ms = now;
        }
    }

    /// The socket took `n` bytes.
    pub fn note_write_ok(&mut self, n: usize, now: u64)
        ensures
            *final(self) == old(self).wrote(n, now),
    {
        if n == 0 {
            return ;
        }
        self.last_progress_at = Some(now);
        self.drained_in_window = self.drained_in_window.saturating_add(n as u64);
        self.snapshot.drained_bytes_epoch = self.snapshot.drained_bytes_epoch.saturating_add(
            n as u64,
        );
        self.snapshot.last_write_ok_ms = now;
        self.snapshot_gen = self.snapshot_gen.wrapping_add(1);
        self.snapshot.generation = self.snapshot_gen;
    }

    /// Whether the write path has stalled. A drain window in which enough left
    /// gives way to a new one.
    pub fn poll_timeout(&mut self, deadline_ms: u64, min_drain: Option<MinDrain>, now: u64) -> (r:
        Option<DisconnectCause>)
        ensures
            r == (if old(self).stalled(deadline_ms, min_drain, now) {
                Some(DisconnectCause::WriteStalled)
            } else {
                None
            }),
            *final(self) == old(self).polled(deadline_ms, min_drain, now),
    {
        let armed_at: u64 = match self.armed_at {
            Some(t) => t,
            None => {
                return None;
            },
        };
        let last: u64 = match self.last_progress_at {
            Some(t) => t,
            None => armed_at,
        };
        if now.saturating_sub(last) >= deadline_ms {
            return Some(DisconnectCause::WriteStalled);
        }
        if let Some(m) = min_drain {
            let start: u64 = match self.drain_window_start {
                Some(t) => t,
                None => armed_at,
            };
            if now.saturating_sub(start) >= m.window_ms {
                if self.drained_in_window < m.min_bytes as u64 {
                    return Some(DisconnectCause::WriteStalled);
                }
                self.drain_window_start = Some(now);
                self.drained_in_window = 0;
            }
        }
        None
    }

    /// How long until missing progress could be noticed; at least one millisecond.
    pub fn next_activity_deadline(&self, deadline_ms: u64, now: u64) -> (r: Option<u64>)
        ensures
            r == self.activity_sleep(deadline_ms, now),
    {
        let armed_at: u64 = match self.armed_at {
            Some(t) => t,
            None => {
                return None;
            },
        };
        let last: u64 = match self.last_progress_at {
            Some(t) => t,
            None => armed_at,
        };
        let left: u64 = deadline_ms.saturating_sub(now.saturating_sub(last));
        Some(
            if left == 0 {
                1
            } else {
                left
            },
        )
    }

    /// How long until a drain window is over; at least one millisecond.
    pub fn next_min_drain_deadline(&self, min_drain: Option<MinDrain>, now: u64) -> (r: Option<u64>)
        ensures
            r == self.drain_sleep(min_drain, now),
    {
        let window_ms: u64 = match min_drain {
            Some(m) => m.window_ms,
            None => {
                return None;
            },
        };
        let armed_at: u64 = match self.armed_at {
            Some(t) => t,
            None => {
                return None;
            },
        };
        let start: u64 = match self.drain_window_start {
            Some(t) => t,
            None => armed_at,
        };
        let left: u64 = window_ms.saturating_sub(now.saturating_sub(start));
        Some(
            if left == 0 {
                1
            } else {
                left
            },
        )
    }
}

/// A sleep of at least one millisecond.
pub open spec fn at_least_one(ms: u64) -> u64 {
    if ms == 0 {
        1
    } else {
        ms
    }
}

/// A watchdog that is not armed never fires, whatever the deadlines.
pub proof fn law_disarmed_watchdog_is_silent(
    w: WriteWatchdog,
    now: u64,
    deadline_ms: u64,
    min_drain: Option<MinDrain>,
)
    requires
        w.armed_at is None,
    ensures
        !w.inactive(now, deadline_ms),
        !w.too_slow(now, min_drain),
{
}

/// After as long a sleep as the watchdog asks for, either layer has had its
/// chance: no stall is slept through.
pub proof fn law_watchdog_sleep_reaches_the_deadline(
    w: WriteWatchdog,
    now: u64,
    deadline_ms: u64,
    min_drain: Option<MinDrain>,
)
    requires
        w.armed_at is Some,
        w.last() <= now,
        w.window_start() <= now,
        now + deadline_ms + 1 <= u64::MAX,
        min_drain matches Some(m) ==> now + m.window_ms + 1 <= u64::MAX,
    ensures
        w.inactive(
            (now + at_least_one(sat_sub(deadline_ms, sat_sub(now, w.last())))) as u64,
            deadline_ms,
        ),
        min_drain matches Some(m) ==> w.window_over(
            (now + at_least_one(sat_sub(m.window_ms, sat_sub(now, w.window_start())))) as u64,
            min_drain,
        ),
{
}

/// The deadline of the key exchange under way.
#[derive(Clone, Copy, Debug, PartialEq, Eq, Structural)]
pub struct RekeyDeadline {
    /// The generation that the deadline is for.
    pub generation: Option<u64>,
    pub deadline_at: Option<u64>,
}

impl Default for RekeyDeadline {
    /// No deadline.
    fn default() -> (r: RekeyDeadline)
        ensures
            r == (RekeyDeadline { generation: None, deadline_at: None }),
    {
        RekeyDeadline { generation: None, deadline_at: None }
    }
}

impl RekeyDeadline {
    /// The deadline has passed, and the key exchange it is for is still the
    /// one under way.
    pub open spec fn fires(self, active: Option<u64>, now: u64) -> bool {
        &&& self.generation is Some
        &&& self.deadline_at is Some
        &&& active == self.generation
        &&& now >= self.deadline_at->0
    }

    /// The deadline of a generation.
    pub open spec fn registered(generation: u64, deadline_ms: u64, now: u64) -> RekeyDeadline {
        RekeyDeadline {
            generation: Some(generation),
            deadline_at: Some(sat_add(now, deadline_ms)),
        }
    }

    /// The deadline dropped if it is for this generation.
    pub open spec fn cleared_for(self, generation: u64) -> RekeyDeadline {
        if self.generation == Some(generation) {
            RekeyDeadline { generation: None, deadline_at: None }
        } else {
            self
        }
    }

    /// How long until the deadline.
    pub open spec fn left(self, now: u64) -> Option<u64> {
        match self.deadline_at {
            Some(at) => Some(sat_sub(at, now)),
            None => None,
        }
    }

    /// Sets the deadline of a generation.
    pub fn register(&mut self, generation: u64, deadline_ms: u64, now: u64)
        ensures
            *final(self) == RekeyDeadline::registered(generation, deadline_ms, now),
    {
        self.generation = Some(generation);
        self.deadline_at = Some(now.saturating_add(deadline_ms));
    }

    /// Drops the deadline if it is for this generation.
    pub fn clear_if_generation(&mut self, generation: u64)
        ensures
            *final(self) == old(self).cleared_for(generation),
    {
        if self.generation == Some(generation) {
            self.generation = None;
            self.deadline_at = None;
        }
    }

    /// Drops the deadline.
    pub fn clear(&mut self)
        ensures
            *final(self) == (RekeyDeadline { generation: None, deadline_at: None }),
    {
        self.generation = None;
        self.deadline_at = None;
    }

    /// The generation whose deadline has passed, if it is still under way.
    pub fn poll(&self, active: Option<u64>, now: u64) -> (r: Option<u64>)
        ensures
            r == (if self.fires(active, now) {
                self.generation
            } else {
                None
            }),
    {
        let generation: u64 = match self.generation {
            Some(g) => g,
            None => {
                return None;
            },
        };
        let at: u64 = match self.deadline_at {
            Some(t) => t,
            None => {
                return None;
            },
        };
        if active != Some(generation) {
            return None;
        }
        if now >= at {
            Some(generation)
        } else {
            None
        }
    }

    /// How long until the deadline; zero once it has passed.
    pub fn remaining(&self, now: u64) -> (r: Option<u64>)
        ensures
            r == self.left(now),
    {
        match self.deadline_at {
            Some(at) => Some(at.saturating_sub(now)),
            None => None,
        }
    }
}

/// A deadline never fires for another generation than its own, nor early.
pub proof fn law_deadline_fires_for_its_generation_only(
    d: RekeyDeadline,
    active: Option<u64>,
    now: u64,
)
    ensures
        d.fires(active, now) ==> active == d.generation && active is Some,
        d.fires(active, now) ==> d.deadline_at->0 <= now,
        d.generation is None ==> !d.fires(active, now),
{
}

} // verus!
