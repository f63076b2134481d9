use russh::common_session::newkeys_rewrites_compression_enums;
use russh::msg;
use russh::server::ledger::{FullLedger, LedgerMaxSlot};
use russh::server::observe::{
    CapacityChainSlot, DeferredGrantSlot, KexInstallObserveSlot, NeedSubmitSeenSlot,
    OutboundOrderSlot, ReplyQueueSlot, SchedSlot, StopDiscardSlot, WatchdogObserveSlot,
};
use russh::server::supervisor::{AtomicWriteProgress, WriteProgress};
use russh::sshbuffer::{Compression, OUTBOUND_HIGH_WATERMARK};

#[test]
fn install_slot_counts_each_event() {
    let mut seen = NeedSubmitSeenSlot::new();
    seen.mark();
    seen.mark();
    assert_eq!(seen.count(), 2);
    let mut slot = KexInstallObserveSlot::new();
    slot.set_phase(3);
    slot.set_non_idle(true);
    slot.set_after_known(true);
    slot.set_inbound_acked(true);
    slot.mark_data_while_pending(5);
    slot.mark_packet_while_pending();
    slot.mark_inbound_commit();
    slot.mark_completion();
    slot.mark_completion();
    slot.mark_replay();
    slot.mark_deadline_clear();
    slot.mark_park();
    assert_eq!(slot.phase(), 3);
    assert!(slot.non_idle() && slot.after_known() && slot.inbound_acked());
    assert_eq!(slot.data_while_pending(), 5);
    assert_eq!(slot.packets_while_pending(), 1);
    assert_eq!(slot.inbound_commits(), 1);
    assert_eq!(slot.completions(), 2);
    assert_eq!(slot.replays(), 1);
    assert_eq!(slot.deadline_clears(), 1);
    assert_eq!(slot.parks(), 1);
}

#[test]
fn chains_and_grants_are_counted() {
    let mut chain = CapacityChainSlot::new();
    chain.mark_dequeue_notify();
    chain.mark_arm_run();
    chain.mark_arm_run();
    chain.mark_install_advance();
    assert_eq!(
        (chain.dequeue_notifies(), chain.arm_runs(), chain.install_advances()),
        (1, 2, 1)
    );
    let mut grants = DeferredGrantSlot::new();
    grants.note_insert();
    grants.note_insert();
    grants.note_replay();
    grants.note_emitted();
    assert_eq!((grants.inserts(), grants.replays(), grants.emitted()), (2, 1, 1));
}

#[test]
fn discards_are_counted_with_what_they_drop() {
    let mut slot = StopDiscardSlot::new();
    slot.note_discard(2, 30);
    slot.note_discard(1, 4);
    slot.note_grant_clear();
    slot.note_seal_drop();
    slot.set_pending_close(true);
    slot.note_queued_unsealed(7, msg::CHANNEL_DATA);
    slot.note_queued_unsealed(7, msg::CHANNEL_EOF);
    slot.note_queued_unsealed(7, msg::CHANNEL_EXTENDED_DATA);
    slot.note_queued_unsealed(8, msg::CHANNEL_DATA);
    assert_eq!((slot.discarded_items(), slot.discarded_bytes()), (3, 34));
    assert_eq!((slot.grant_clears(), slot.seal_drops()), (1, 1));
    assert!(slot.pending_close());
    assert_eq!(slot.queued_unsealed_data(7), 1);
    assert_eq!(slot.queued_unsealed().len(), 4);
}

#[test]
fn orders_and_peaks_are_kept() {
    let mut order = OutboundOrderSlot::new();
    order.push(1, msg::CHANNEL_DATA, 3);
    order.push(2, msg::CHANNEL_EOF, 0);
    order.push(1, msg::CHANNEL_CLOSE, 0);
    assert_eq!(order.types_for(1), vec![msg::CHANNEL_DATA, msg::CHANNEL_CLOSE]);
    assert_eq!(order.snapshot()[1], (2, msg::CHANNEL_EOF, 0));
    let mut replies = ReplyQueueSlot::new();
    replies.observe(3);
    replies.observe(1);
    assert_eq!((replies.current(), replies.max()), (1, 3));
}

#[test]
fn scheduler_slot_remembers_when_boosts_came() {
    let mut slot = SchedSlot::new();
    slot.note_boost();
    slot.note_quantum();
    slot.note_quantum();
    slot.note_boost();
    slot.note_emit(4, true, 2);
    assert_eq!((slot.regular_quanta(), slot.boosts()), (2, 2));
    assert_eq!(slot.boost_at_quanta(), vec![0, 2]);
    assert_eq!(slot.emits(), vec![(4, true, 2)]);
}

#[test]
fn watchdog_slot_latches_a_disarm() {
    let mut slot = WatchdogObserveSlot::new();
    slot.observe(false, 0, 0);
    assert!(!slot.ever_armed() && !slot.disarmed_after_arm());
    slot.observe(true, 10, 3);
    assert!(slot.ever_armed() && slot.is_armed());
    assert_eq!((slot.last_eligible(), slot.last_rekey_gen()), (10, 3));
    slot.observe(false, 0, 0);
    assert!(slot.disarmed_after_arm() && !slot.is_armed());
}

#[test]
fn ledger_keeps_peaks_and_counts() {
    let mut slot = LedgerMaxSlot::new();
    slot.observe(5);
    slot.observe(3);
    slot.observe_parts(9, [1, 2, 3, 3]);
    slot.note_full_hit();
    slot.note_intake_block();
    slot.note_live_hwm(OUTBOUND_HIGH_WATERMARK - 1);
    assert!(!slot.live_hwm());
    slot.note_live_hwm(OUTBOUND_HIGH_WATERMARK);
    assert!(slot.live_hwm());
    assert_eq!(slot.max(), 9);
    assert_eq!(slot.parts(), [1, 2, 3, 3]);
    assert_eq!((slot.full_hits(), slot.intake_blocks()), (1, 1));
    slot.clear();
    assert_eq!((slot.max(), slot.full_hits()), (0, 0));
    assert_eq!(slot.parts(), [1, 2, 3, 3]);
}

#[test]
fn ledger_parts_move_without_a_new_total() {
    let mut fl = FullLedger::new(0, 0, LedgerMaxSlot::new());
    fl.set_enc_write(100);
    fl.set_kex_need(40);
    assert_eq!((fl.total(), fl.kex_live()), (140, 40));
    assert_eq!(fl.slot.max_excluding_kex_need(), 100);
    fl.set_kex_need(0);
    fl.credit_kex_to_writer(40);
    assert_eq!((fl.total(), fl.kex_live(), fl.kex_in_writer()), (140, 40, 40));
    fl.debit_kex_from_writer(40);
    fl.set_enc_write(30);
    assert_eq!((fl.total(), fl.kex_live()), (30, 0));
    assert_eq!(fl.slot.max(), 140);
    fl.sample();
    fl.debit(31);
    assert_eq!((fl.total(), fl.slot.mismatch()), (0, 1));
}

#[test]
fn progress_is_stored_whole() {
    let mut p = AtomicWriteProgress::new();
    let snap = WriteProgress {
        generation: 4,
        last_write_ok_ms: 2,
        wire_eligible_bytes: 1,
        drained_bytes_epoch: 3,
    };
    p.store(snap);
    assert_eq!(p.load(), snap);
}

#[test]
fn key_exchange_replaces_what_was_agreed_before() {
    assert_eq!(
        newkeys_rewrites_compression_enums(
            Compression::Zlib,
            Compression::Plain,
            Compression::Plain,
            Compression::ZlibDeferred,
        ),
        (Compression::Plain, Compression::ZlibDeferred)
    );
}

#[test]
fn last_jump_is_the_last_growth() {
    let mut fl = FullLedger::new(0, 0, LedgerMaxSlot::new());
    fl.credit_kex(100);
    assert_eq!(fl.slot.last_kex_jump(), 100);
    fl.debit_kex(50);
    fl.credit_kex(80);
    assert_eq!(fl.slot.last_kex_jump(), 80);
    assert_eq!(fl.slot.kex_peak(), 130);
    fl.credit(7);
    assert_eq!(fl.slot.last_kex_jump(), 80);
}

#[test]
fn kex_bytes_are_what_waits_and_what_the_writer_holds() {
    let mut fl = FullLedger::new(0, 0, LedgerMaxSlot::new());
    fl.set_kex_need(30);
    fl.credit_kex_to_writer(12);
    fl.credit(5);
    fl.debit(5);
    fl.set_enc_write(9);
    assert_eq!(fl.kex_live(), fl.kex_need + fl.kex_in_writer());
    fl.debit_kex_from_writer(2);
    fl.set_kex_need(3);
    assert_eq!(fl.kex_live(), 13);
    assert_eq!(fl.slot.mismatch(), 0);
}
