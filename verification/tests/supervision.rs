use russh::server::ledger::{FullLedger, LedgerMaxSlot};
use russh::server::supervisor::{
    AtomicWriteProgress, DisconnectCause, DisconnectCauseSlot, MinDrain, RekeyDeadline,
    WriteWatchdog,
};

#[test]
fn min_drain_trips_while_activity_resets() {
    let mut wd = WriteWatchdog::new();
    wd.observe_eligible(4096, 0);
    wd.note_write_ok(1, 0);
    wd.note_write_ok(1, 30);
    let cause = wd.poll_timeout(
        30_000,
        Some(MinDrain { min_bytes: 4096, window_ms: 100 }),
        130,
    );
    assert_eq!(cause, Some(DisconnectCause::WriteStalled));
}

#[test]
fn min_drain_off_does_not_trip_on_trickle() {
    let mut wd = WriteWatchdog::new();
    wd.observe_eligible(4096, 0);
    wd.note_write_ok(1, 0);
    wd.note_write_ok(1, 50);
    let cause = wd.poll_timeout(30_000, None, 50);
    assert_eq!(cause, None);
}

#[test]
fn zero_eligible_disarms() {
    let mut wd = WriteWatchdog::new();
    wd.observe_eligible(1024, 0);
    wd.observe_eligible(0, 0);
    let cause = wd.poll_timeout(10, Some(MinDrain { min_bytes: 1, window_ms: 10 }), 20);
    assert_eq!(cause, None);
}

#[test]
fn atomic_write_progress_no_tear() {
    let mut p = AtomicWriteProgress::new();
    p.store_eligible(100);
    p.note_write(50, 7);
    let snap = p.load();
    assert_eq!(snap.wire_eligible_bytes, 50);
    assert_eq!(snap.drained_bytes_epoch, 50);
    assert!(snap.generation >= 2);
    assert_eq!(snap.last_write_ok_ms, 7);
}

#[test]
fn watchdog_fires_at_the_deadline_and_not_before() {
    let mut wd = WriteWatchdog::new();
    wd.observe_eligible(10, 1_000);
    assert_eq!(wd.next_activity_deadline(500, 1_200), Some(300));
    assert_eq!(wd.poll_timeout(500, None, 1_499), None);
    assert_eq!(wd.poll_timeout(500, None, 1_500), Some(DisconnectCause::WriteStalled));
}

#[test]
fn drain_window_starts_over_when_enough_left() {
    let mut wd = WriteWatchdog::new();
    let min = Some(MinDrain { min_bytes: 100, window_ms: 50 });
    wd.observe_eligible(1_000, 0);
    wd.note_write_ok(100, 10);
    assert_eq!(wd.next_min_drain_deadline(min, 20), Some(30));
    assert_eq!(wd.poll_timeout(10_000, min, 50), None);
    assert_eq!(wd.poll_timeout(10_000, min, 99), None);
    assert_eq!(wd.poll_timeout(10_000, min, 100), Some(DisconnectCause::WriteStalled));
}

#[test]
fn deadline_fires_for_its_own_generation() {
    let mut d = RekeyDeadline::default();
    d.register(3, 100, 1_000);
    assert_eq!(d.remaining(1_040), Some(60));
    assert_eq!(d.poll(Some(3), 1_099), None);
    assert_eq!(d.poll(Some(4), 1_100), None);
    assert_eq!(d.poll(Some(3), 1_100), Some(3));
    d.clear_if_generation(4);
    assert_eq!(d.generation, Some(3));
    d.clear_if_generation(3);
    assert_eq!(d.poll(Some(3), 5_000), None);
    assert_eq!(d.remaining(5_000), None);
}

#[test]
fn cause_codes_go_there_and_back() {
    let all = [
        DisconnectCause::HandshakeTimeout,
        DisconnectCause::RekeyTimeout,
        DisconnectCause::WriteStalled,
        DisconnectCause::PeerError,
        DisconnectCause::LocalShutdown,
    ];
    for c in all {
        assert_eq!(DisconnectCause::from_u8(c.as_u8()), Some(c));
    }
    let mut slot = DisconnectCauseSlot::new();
    assert_eq!(slot.get(), None);
    slot.record(DisconnectCause::WriteStalled);
    slot.record(DisconnectCause::PeerError);
    assert_eq!(slot.get(), Some(DisconnectCause::WriteStalled));
    slot.clear();
    assert_eq!(slot.get(), None);
}

#[test]
fn ledger_credit_and_debit_cancel_out() {
    let mut l = FullLedger::new(0, 0, LedgerMaxSlot::new());
    l.credit(300);
    l.credit_kex_to_writer(120);
    assert_eq!(l.total(), 420);
    assert_eq!(l.kex_in_writer(), 120);
    l.debit_kex_from_writer(120);
    l.debit(300);
    assert_eq!(l.total(), 0);
    assert_eq!(l.kex_live(), 0);
    assert_eq!(l.slot.max(), 420);
    assert_eq!(l.slot.mismatch(), 0);
    l.debit(1);
    assert_eq!(l.slot.mismatch(), 1);
}
