use bytes::Bytes;
use russh::error::Error;
use russh::msg;
use russh::server::ledger::{FullLedger, LedgerMaxSlot};
use russh::server::supervisor::AtomicWriteProgress;
use russh::server::writer::{
    seal_reservation, CloseTombstone, KexCmd, OutboundEpoch, TrySendEpochError, TrySendWireError,
    WriteErrorKind, WriterCmd, WriterEvent, WriterHandle, WriterHooks, WriterObserveSlot,
    BULK_QUEUE_CAP, KEX_QUEUE_CAP, OUT_Q_SOFT_CAP,
};
use russh::server::writer_drain::{debit_drain_segments, WriterAction};
use russh::server::writer_task::{parse_channel_payload, tombstone_should_drop, WriterTask};
use russh::sshbuffer::{CipherKey, Compression, PacketWriter, Stream};
use std::collections::VecDeque;

fn epoch(generation: u64, cipher: u64, activate_compress: bool, reset_seqn: bool) -> OutboundEpoch {
    OutboundEpoch {
        generation,
        cipher: CipherKey(cipher),
        outbound_compression: Compression::Plain,
        activate_compress,
        reset_seqn,
    }
}

fn pull_all(task: &mut WriterTask, link: &mut WriterHandle) {
    while let Some(cmd) = task.pull(link) {
        let _ = task.handle_writer_cmd(link, cmd, &Vec::new());
    }
}

/// Writes everything that is sealed, at most `limit` bytes.
fn drain(task: &mut WriterTask, link: &mut WriterHandle, limit: usize) -> Vec<u8> {
    let mut progress = AtomicWriteProgress::new();
    let mut wire = Vec::new();
    while wire.len() < limit {
        let Some(segments) = task.next_write(link, true) else {
            break;
        };
        let mut given: Vec<u8> = Vec::new();
        for s in &segments {
            given.extend_from_slice(s);
        }
        given.truncate(limit - wire.len());
        wire.extend_from_slice(&given);
        if task.note_written(link, &mut progress, given.len(), 0).unwrap() {
            break;
        }
    }
    wire
}

#[test]
fn writer_empty_queue_shutdown_no_panic() {
    let mut link = WriterHandle::new();
    let mut task = WriterTask::new(PacketWriter::clear(), &mut link);
    let mut progress = AtomicWriteProgress::new();
    task.begin_round(&mut link, &mut progress, true);
    assert!(task.pull(&mut link).is_none());
    assert_eq!(task.next_action(&link), WriterAction::Exit);
    task.finish(&mut link, &mut progress, None);
    assert!(link.closed);
}

#[test]
fn capacity_notify_before_waiter_is_not_lost() {
    let mut link = WriterHandle::new();
    let mut task = WriterTask::new(PacketWriter::clear(), &mut link);
    link.try_seal_payload(Bytes::from(vec![7u8; 32])).expect("send");
    pull_all(&mut task, &mut link);
    drain(&mut task, &mut link, usize::MAX);
    assert_eq!(link.pending_bytes(), 0);
    assert!(link.capacity);
}

#[test]
fn install_outbound_epoch_is_real() {
    let mut link = WriterHandle::new();
    let mut task = WriterTask::new(PacketWriter::clear(), &mut link);
    link.try_seal_payload(Bytes::from_static(&[msg::IGNORE])).unwrap();
    let ack = link
        .try_seal_batch_and_install(
            vec![Bytes::from_static(&[msg::NEWKEYS])],
            epoch(1, 0, true, true),
        )
        .unwrap();
    pull_all(&mut task, &mut link);
    assert_eq!(task.acks, vec![(ack, Ok(()))]);
    assert_eq!(task.events, vec![WriterEvent::InstallAckOutbound { generation: 1 }]);
    assert_eq!(task.packet_writer.write_buffer.seqn, 0);
    assert_eq!(link.packets_this_epoch(), 0);
    assert_eq!(link.cipher_bytes(), 0);
}

#[test]
fn seal_batch_and_install_is_atomic_wrt_soft_cap() {
    let mut link = WriterHandle::new();
    let mut pw = PacketWriter::clear();
    pw.set_cipher(CipherKey(0x11));
    let mut task = WriterTask::new(pw, &mut link);
    let mut payloads = Vec::new();
    for _ in 0..70 {
        payloads.push(Bytes::from_static(&[msg::IGNORE]));
    }
    payloads.push(Bytes::from_static(&[msg::NEWKEYS]));
    let given: Vec<Result<Bytes, Error>> =
        payloads.iter().map(|p| Ok(Bytes::from(vec![p[0] ^ 0x11; 16]))).collect();
    let ack = link.try_seal_batch_and_install(payloads, epoch(7, 0x22, false, true)).unwrap();
    let cmd = task.pull(&mut link).unwrap();
    assert_eq!(WriterTask::seal_plan(&link, &cmd), vec![true; 71]);
    task.handle_writer_cmd(&mut link, cmd, &given).unwrap();
    assert_eq!(task.acks, vec![(ack, Ok(()))]);
    assert!(task.events.contains(&WriterEvent::InstallAckOutbound { generation: 7 }));
    assert_eq!(task.out_q.len(), 71);
    assert!(task.out_q.len() > OUT_Q_SOFT_CAP);

    link.try_seal_payload(Bytes::from_static(&[msg::IGNORE, 0xAA])).unwrap();
    let cmd = link.bulk.pop_front().unwrap();
    let given = vec![Ok(Bytes::from(vec![msg::IGNORE ^ 0x22, 0xAA ^ 0x22]))];
    task.handle_writer_cmd(&mut link, cmd, &given).unwrap();
    assert_eq!(task.packet_writer.cipher, CipherKey(0x22));
    let wire = drain(&mut task, &mut link, usize::MAX);
    let old = wire.iter().position(|&b| b == msg::NEWKEYS ^ 0x11).unwrap();
    let new = wire.windows(2).position(|w| w == [msg::IGNORE ^ 0x22, 0xAA ^ 0x22]).unwrap();
    assert!(old < new);
    assert_eq!(link.pending_bytes(), 0);
}

#[test]
fn try_send_observes_full_then_closed() {
    let mut link = WriterHandle::new();
    let mut task = WriterTask::new(PacketWriter::clear(), &mut link);
    pull_all(&mut task, &mut link);
    let mut full_hits = 0usize;
    for _ in 0..(BULK_QUEUE_CAP + 64) {
        match link.try_seal_payload(Bytes::from(vec![0x2u8; 8])) {
            Ok(()) => {}
            Err(TrySendWireError::Full(_)) => full_hits += 1,
            Err(TrySendWireError::FullCmd) => panic!("seal must not return FullCmd"),
            Err(TrySendWireError::Closed) => panic!("must not see Closed while writer alive"),
        }
    }
    assert_eq!(full_hits, 64);
    assert_eq!(link.pending_bytes(), BULK_QUEUE_CAP * seal_reservation(8));

    let mut progress = AtomicWriteProgress::new();
    task.finish(&mut link, &mut progress, Some(WriteErrorKind::Other));
    assert!(matches!(
        link.try_seal_payload(Bytes::from_static(&[msg::IGNORE])),
        Err(TrySendWireError::Closed)
    ));
    assert_eq!(task.events, vec![WriterEvent::WriteError(WriteErrorKind::Other)]);
}

#[test]
fn seal_order_preserved_across_full_retry() {
    let mut link = WriterHandle::new();
    let mut task = WriterTask::new(PacketWriter::clear(), &mut link);
    let n = BULK_QUEUE_CAP + 40;
    const MAGIC: [u8; 4] = [0xA5, 0x5A, 0xC3, 0x3C];
    let mut accepted = 0usize;
    let mut parked: Vec<Bytes> = Vec::new();
    for i in 0..n {
        let mut payload = vec![msg::IGNORE];
        payload.extend_from_slice(&MAGIC);
        payload.push((i >> 8) as u8);
        payload.push((i & 0xff) as u8);
        match link.try_seal_payload(Bytes::from(payload)) {
            Ok(()) => accepted += 1,
            Err(TrySendWireError::Full(p)) => parked.push(p),
            Err(e) => panic!("unexpected {e:?}"),
        }
    }
    assert!(accepted > 0);
    assert!(!parked.is_empty());
    let mut recorded = Vec::new();
    while link.pending_bytes() > 0 {
        pull_all(&mut task, &mut link);
        recorded.extend(drain(&mut task, &mut link, usize::MAX));
    }
    for p in parked {
        link.try_seal_payload(p).unwrap();
    }
    while link.pending_bytes() > 0 {
        pull_all(&mut task, &mut link);
        recorded.extend(drain(&mut task, &mut link, usize::MAX));
    }
    let mut start = 0;
    for i in 0..n {
        let mut needle = vec![msg::IGNORE];
        needle.extend_from_slice(&MAGIC);
        needle.push((i >> 8) as u8);
        needle.push((i & 0xff) as u8);
        let count = recorded.windows(needle.len()).filter(|w| *w == needle.as_slice()).count();
        assert_eq!(count, 1, "packet {i} must appear exactly once");
        let rel = recorded[start..]
            .windows(needle.len())
            .position(|w| w == needle.as_slice())
            .expect("in order");
        start += rel + 1;
    }
}

#[test]
fn capacity_notify_on_dequeue_without_socket_progress() {
    let mut link = WriterHandle::new();
    let mut task = WriterTask::new(PacketWriter::clear(), &mut link);
    for _ in 0..80 {
        let _ = link.try_seal_payload(Bytes::from(vec![1u8; 16]));
    }
    pull_all(&mut task, &mut link);
    assert!(link.capacity);
    assert!(link.pending_bytes() > 0);
    assert_eq!(task.out_q.len(), OUT_Q_SOFT_CAP);
    assert_eq!(link.bulk.len(), 80 - OUT_Q_SOFT_CAP);
}

#[test]
fn try_seal_batch_classifies_full_and_closed() {
    let mut link = WriterHandle::new();
    for _ in 0..(BULK_QUEUE_CAP + 8) {
        let _ = link.try_seal_payload(Bytes::from(vec![1u8; 4]));
    }
    let before = link.pending_bytes();
    match link.try_seal_batch_and_install(
        vec![Bytes::from_static(&[msg::NEWKEYS])],
        epoch(1, 0, true, false),
    ) {
        Err(TrySendEpochError::Full { payloads, .. }) => assert_eq!(payloads.len(), 1),
        other => panic!("expected Full, got {other:?}"),
    }
    assert_eq!(link.pending_bytes(), before);
    assert!(matches!(
        link.try_install_outbound_epoch(epoch(2, 0, true, false)),
        Err(TrySendEpochError::Full { .. })
    ));
    assert!(matches!(
        link.try_init_outbound_compress(Compression::ZlibDeferred),
        Err(TrySendWireError::FullCmd)
    ));
    link.closed = true;
    match link.try_seal_batch_and_install(
        vec![Bytes::from_static(&[msg::NEWKEYS])],
        epoch(1, 0, true, false),
    ) {
        Err(TrySendEpochError::Closed) => {}
        other => panic!("expected Closed after writer exit, got {other:?}"),
    }
    assert!(matches!(
        link.try_install_outbound_epoch(epoch(2, 0, true, false)),
        Err(TrySendEpochError::Closed)
    ));
    assert!(matches!(
        link.try_init_outbound_compress(Compression::Zlib),
        Err(TrySendWireError::Closed)
    ));
}

#[test]
fn drain_akb_fifo_retires_kex_before_trailing_nonkex() {
    let hooks = WriterHooks {
        full_ledger: Some(FullLedger::new(0, 0, LedgerMaxSlot::new())),
        ..WriterHooks::default()
    };
    let mut link = WriterHandle::with_hooks(hooks);
    let mut task = WriterTask::new(PacketWriter::clear(), &mut link);

    link.try_seal_raw(Bytes::from(vec![msg::IGNORE; 40])).expect("A");
    pull_all(&mut task, &mut link);
    let a_wire = link.pending_bytes();
    assert!(a_wire > 0);

    link.try_seal_batch_and_install(
        vec![Bytes::from(vec![0u8; 80]), Bytes::from_static(&[msg::NEWKEYS])],
        epoch(7, 0, false, false),
    )
    .expect("K accept");
    pull_all(&mut task, &mut link);
    let after_k = link.pending_bytes();
    let k_wire = after_k - a_wire;
    assert!(k_wire > 0);
    assert_eq!(link.full_ledger.unwrap().kex_in_writer(), k_wire);

    link.try_seal_raw(Bytes::from(vec![msg::IGNORE; 400])).expect("B");
    pull_all(&mut task, &mut link);
    let b_wire = link.pending_bytes() - after_k;
    assert!(b_wire >= k_wire);
    let fl = link.full_ledger.unwrap();
    assert_eq!(fl.total() - fl.kex_live(), a_wire + b_wire);
    assert!(fl.slot.max_excluding_kex_need() >= a_wire + b_wire);

    drain(&mut task, &mut link, a_wire + k_wire);
    let fl = link.full_ledger.unwrap();
    assert_eq!(fl.kex_in_writer(), 0);
    assert_eq!(fl.kex_live(), 0);
    assert_eq!(link.pending_bytes(), b_wire);
    assert_eq!(fl.total() - fl.kex_live(), b_wire);
    assert_eq!(fl.slot.mismatch(), 0);

    drain(&mut task, &mut link, usize::MAX);
    let fl = link.full_ledger.unwrap();
    assert_eq!(link.pending_bytes(), 0);
    assert_eq!(fl.kex_live(), 0);
    assert_eq!(fl.kex_in_writer(), 0);
    assert_eq!(fl.slot.mismatch(), 0);
}

#[test]
fn batch_seal_first_fail_refunds_remainder() {
    let hooks = WriterHooks {
        full_ledger: Some(FullLedger::new(0, 0, LedgerMaxSlot::new())),
        ..WriterHooks::default()
    };
    let mut link = WriterHandle::with_hooks(hooks);
    let mut pw = PacketWriter::clear();
    pw.set_cipher(CipherKey(9));
    let mut task = WriterTask::new(pw, &mut link);
    let baseline = link.pending_bytes();
    assert_eq!(baseline, 0);

    let ack = link
        .try_seal_batch_and_install(
            vec![Bytes::from(vec![0u8; 120]), Bytes::from(vec![0u8; 80])],
            epoch(3, 0, false, false),
        )
        .expect("batch accepted before seal");
    assert_eq!(link.pending_bytes(), 120 + 80 + 2 * 88);
    let cmd = task.pull(&mut link).unwrap();
    let res = task.handle_writer_cmd(&mut link, cmd, &vec![Err(Error::Inconsistent)]);
    assert_eq!(res, Err(Error::Inconsistent));
    assert_eq!(task.acks, vec![(ack, Err(Error::Inconsistent))]);
    assert_eq!(task.events, vec![WriterEvent::SealError]);
    let fl = link.full_ledger.unwrap();
    assert_eq!(link.pending_bytes(), baseline);
    assert_eq!(fl.kex_live(), 0);
    assert_eq!(fl.kex_in_writer(), 0);
    assert_eq!(fl.slot.mismatch(), 0);
}

fn data_payload(recip: u32) -> Bytes {
    let mut v = vec![msg::CHANNEL_DATA];
    v.extend_from_slice(&recip.to_be_bytes());
    v.extend_from_slice(&[0, 0, 0, 1, b'x']);
    Bytes::from(v)
}

#[test]
fn tombstone_drop_does_not_count_packets() {
    let mut tomb = CloseTombstone::new();
    tomb.insert(7);
    let hooks = WriterHooks { tombstone: tomb, ..WriterHooks::default() };
    let mut link = WriterHandle::with_hooks(hooks);
    let mut task = WriterTask::new(PacketWriter::clear(), &mut link);
    link.try_seal_payload(data_payload(7)).unwrap();
    pull_all(&mut task, &mut link);
    assert_eq!(link.packets_this_epoch(), 0);
    assert_eq!(link.pending_bytes(), 0);
    assert_eq!(task.packet_writer.write_buffer.seqn, 0);

    link.try_seal_payload(data_payload(8)).unwrap();
    let mut close = vec![msg::CHANNEL_CLOSE];
    close.extend_from_slice(&7u32.to_be_bytes());
    link.try_seal_payload(Bytes::from(close)).unwrap();
    link.try_seal_payload(data_payload(7)).unwrap();
    pull_all(&mut task, &mut link);
    assert_eq!(link.packets_this_epoch(), 3);
    assert!(!link.tombstone.contains(7));
}

#[test]
fn channel_heads_are_read_and_close_is_exempt() {
    let mut tomb = CloseTombstone::new();
    tomb.insert(0x0102_0304);
    assert_eq!(parse_channel_payload(&[94, 1, 2, 3]), None);
    assert_eq!(parse_channel_payload(&[94, 1, 2, 3, 4]), Some((94, 0x0102_0304)));
    for m in [
        msg::CHANNEL_DATA,
        msg::CHANNEL_EXTENDED_DATA,
        msg::CHANNEL_EOF,
        msg::CHANNEL_WINDOW_ADJUST,
        msg::CHANNEL_REQUEST,
        msg::CHANNEL_SUCCESS,
        msg::CHANNEL_FAILURE,
    ] {
        assert!(tombstone_should_drop(&[m, 1, 2, 3, 4], &tomb));
        assert!(!tombstone_should_drop(&[m, 1, 2, 3, 5], &tomb));
    }
    assert!(!tombstone_should_drop(&[msg::CHANNEL_CLOSE, 1, 2, 3, 4], &tomb));
    assert!(!tombstone_should_drop(&[msg::CHANNEL_OPEN, 1, 2, 3, 4], &tomb));
    tomb.remove(0x0102_0304);
    assert!(!tombstone_should_drop(&[msg::CHANNEL_DATA, 1, 2, 3, 4], &tomb));
}

#[test]
fn reservations_follow_the_sealed_size() {
    let mut link = WriterHandle::new();
    let mut task = WriterTask::new(PacketWriter::clear(), &mut link);
    link.try_seal_raw(Bytes::from(vec![msg::IGNORE; 10])).unwrap();
    assert_eq!(link.pending_bytes(), 98);
    assert_eq!(link.packets_this_epoch(), 0);
    pull_all(&mut task, &mut link);
    assert_eq!(link.pending_bytes(), 24);
    assert_eq!(link.cipher_bytes(), 10);
    assert_eq!(link.packets_this_epoch(), 1);
    assert!(task.drain_segs.is_empty());
    let mut kept = WriterHandle::with_hooks(WriterHooks {
        full_ledger: Some(FullLedger::new(0, 0, LedgerMaxSlot::new())),
        ..WriterHooks::default()
    });
    let mut task = WriterTask::new(PacketWriter::clear(), &mut kept);
    kept.try_seal_raw(Bytes::from(vec![msg::IGNORE; 10])).unwrap();
    pull_all(&mut task, &mut kept);
    assert_eq!(task.drain_segs, VecDeque::from([(24, false)]));
}

#[test]
fn wire_bytes_of_the_packet_writer_go_first() {
    let mut pw = PacketWriter::clear();
    pw.packet_raw(&[msg::KEXINIT, 1, 2]).unwrap();
    let expected = pw.buffer().buffer.clone();
    let mut link = WriterHandle::new();
    let mut task = WriterTask::new(pw, &mut link);
    assert_eq!(link.pending_bytes(), expected.len());
    assert_eq!(link.cipher_bytes(), 3);
    assert_eq!(drain(&mut task, &mut link, usize::MAX), expected);
}

#[test]
fn one_write_gathers_at_most_sixteen_packets() {
    let mut link = WriterHandle::new();
    let mut task = WriterTask::new(PacketWriter::clear(), &mut link);
    for i in 0..20u8 {
        link.try_seal_raw(Bytes::from(vec![msg::IGNORE, i])).unwrap();
    }
    pull_all(&mut task, &mut link);
    assert_eq!(task.next_write(&mut link, false).unwrap().len(), 1);
    let segments = task.next_write(&mut link, true).unwrap();
    assert_eq!(segments.len(), 16);
    let mut progress = AtomicWriteProgress::new();
    let first = segments[0].len();
    assert_eq!(task.note_written(&mut link, &mut progress, first + 3, 5), Ok(false));
    assert_eq!(task.flush_cursor, 3);
    assert_eq!(task.out_q.len(), 18);
    assert_eq!(progress.load().drained_bytes_epoch, first as u64 + 3);
    let rest = task.next_write(&mut link, true).unwrap();
    assert_eq!(&rest[0][..], &segments[1][3..]);
}

#[test]
fn writes_of_nothing_and_of_too_much_are_errors() {
    let mut link = WriterHandle::new();
    let mut task = WriterTask::new(PacketWriter::clear(), &mut link);
    link.try_seal_raw(Bytes::from(vec![msg::IGNORE])).unwrap();
    pull_all(&mut task, &mut link);
    let mut progress = AtomicWriteProgress::new();
    assert_eq!(
        task.note_written(&mut link, &mut progress, 0, 0),
        Err(WriteErrorKind::WriteZero)
    );
    let too_much = link.pending_bytes() + 1;
    assert_eq!(
        task.note_written(&mut link, &mut progress, too_much, 0),
        Err(WriteErrorKind::Ledger)
    );
}

#[test]
fn shutdown_is_answered_once_everything_is_out() {
    let mut link = WriterHandle::new();
    let mut task = WriterTask::new(PacketWriter::clear(), &mut link);
    let mut progress = AtomicWriteProgress::new();
    link.try_seal_raw(Bytes::from(vec![msg::IGNORE])).unwrap();
    link.request_shutdown();
    task.begin_round(&mut link, &mut progress, false);
    assert!(task.shutting_down);
    pull_all(&mut task, &mut link);
    assert_eq!(
        task.next_action(&link),
        WriterAction::Wait { cancel: false, control: false, drain: true, command: false }
    );
    drain(&mut task, &mut link, usize::MAX);
    assert_eq!(task.next_action(&link), WriterAction::Exit);
    task.finish(&mut link, &mut progress, None);
    assert_eq!(task.acks, vec![(0, Ok(()))]);
    assert!(task.shutdown_ack.is_none());
}

#[test]
fn shutdown_goes_through_the_queue_when_control_is_full() {
    let mut link = WriterHandle::new();
    for _ in 0..KEX_QUEUE_CAP {
        link.request_shutdown();
    }
    assert!(link.bulk.is_empty());
    link.request_shutdown();
    assert!(matches!(link.bulk.front(), Some(WriterCmd::Shutdown(_))));
    let mut task = WriterTask::new(PacketWriter::clear(), &mut link);
    task.on_control(Some(KexCmd::Shutdown(77)));
    assert_eq!(task.shutdown_ack, Some(77));
    let cmd = task.pull(&mut link).unwrap();
    task.handle_writer_cmd(&mut link, cmd, &Vec::new()).unwrap();
    assert_eq!(task.shutdown_ack, Some(77));
}

#[test]
fn loop_waits_for_what_it_may_take() {
    let mut link = WriterHandle::new();
    let mut task = WriterTask::new(PacketWriter::clear(), &mut link);
    assert_eq!(
        task.next_action(&link),
        WriterAction::Wait { cancel: true, control: true, drain: false, command: true }
    );
    task.on_cancel(Some(false));
    assert!(!task.shutting_down);
    task.dequeue_hold = true;
    assert_eq!(task.next_action(&link), WriterAction::Pause);
    task.dequeue_hold = false;
    task.on_commands_closed(&mut link);
    assert!(task.bulk_closed);
    assert_eq!(task.next_action(&link), WriterAction::Exit);
    let mut other = WriterTask::new(PacketWriter::clear(), &mut link);
    other.on_cancel(None);
    assert!(other.shutting_down && !other.poll_cancel);
    link.hung_up = true;
    let mut third = WriterTask::new(PacketWriter::clear(), &mut link);
    assert!(third.pull(&mut link).is_none());
    assert!(third.bulk_closed && third.shutting_down);
}

#[test]
fn deferred_compressor_starts_on_command() {
    let mut link = WriterHandle::new();
    let mut task = WriterTask::new(PacketWriter::clear(), &mut link);
    task.observe = Some(WriterObserveSlot::new());
    link.try_install_outbound_epoch(OutboundEpoch {
        generation: 4,
        cipher: CipherKey(0),
        outbound_compression: Compression::ZlibDeferred,
        activate_compress: false,
        reset_seqn: false,
    })
    .unwrap();
    pull_all(&mut task, &mut link);
    assert_eq!(task.packet_writer.compress, Stream::Off);
    link.try_init_outbound_compress(Compression::ZlibDeferred).unwrap();
    link.try_seal_raw(Bytes::from(vec![msg::IGNORE])).unwrap();
    pull_all(&mut task, &mut link);
    assert_eq!(task.packet_writer.compress, Stream::Zlib);
    assert_eq!(task.observe.unwrap().seqn(), 1);
    let mut slot = WriterObserveSlot::new();
    slot.set_packets_this_epoch(3);
    slot.set_seqn(9);
    assert_eq!((slot.packets_this_epoch(), slot.seqn()), (3, 9));
}

#[test]
fn segments_retire_in_order() {
    let mut fl = FullLedger::new(0, 0, LedgerMaxSlot::new());
    fl.credit(10);
    fl.credit_kex_to_writer(20);
    fl.credit(30);
    let mut segs: VecDeque<(usize, bool)> = VecDeque::from([(10, false), (20, true), (30, false)]);
    debit_drain_segments(&mut segs, &mut fl, 15);
    assert_eq!(segs, VecDeque::from([(15, true), (30, false)]));
    assert_eq!(fl.kex_in_writer(), 15);
    debit_drain_segments(&mut segs, &mut fl, 45);
    assert!(segs.is_empty());
    assert_eq!(fl.total(), 0);
    debit_drain_segments(&mut segs, &mut fl, 1);
    assert_eq!(fl.slot.mismatch(), 1);
}

#[test]
fn run_under_two_keys_writes_what_was_sealed() {
    let mut link = WriterHandle::new();
    let mut pw = PacketWriter::clear();
    pw.set_cipher(CipherKey(0x11));
    let mut task = WriterTask::new(pw, &mut link);
    link.tombstone.insert(9);
    link.try_seal_payload(Bytes::from_static(&[msg::IGNORE])).unwrap();
    link.try_seal_payload(data_payload(9)).unwrap();
    link.try_seal_batch_and_install(
        vec![Bytes::from_static(&[msg::NEWKEYS])],
        epoch(3, 0x22, false, false),
    )
    .unwrap();
    link.try_seal_payload(Bytes::from_static(&[msg::DEBUG])).unwrap();
    let mut keys = Vec::new();
    while let Some(cmd) = task.pull(&mut link) {
        let key = task.packet_writer.cipher.0 as u8;
        keys.push(key);
        let given = vec![Ok(Bytes::from(vec![key; 8]))];
        task.handle_writer_cmd(&mut link, cmd, &given).unwrap();
    }
    assert_eq!(keys, [0x11, 0x11, 0x11, 0x22]);
    let wire = drain(&mut task, &mut link, usize::MAX);
    assert_eq!(wire, [[0x11u8; 8], [0x11; 8], [0x22; 8]].concat());
    assert_eq!(link.pending_bytes(), 0);
}

#[test]
fn run_goes_on_behind_a_failed_batch() {
    let mut link = WriterHandle::new();
    let mut pw = PacketWriter::clear();
    pw.set_cipher(CipherKey(0x11));
    let mut task = WriterTask::new(pw, &mut link);
    let one = Bytes::from_static(&[msg::IGNORE]);
    link.try_seal_batch_and_install(
        vec![one.clone(), one.clone(), one.clone()],
        epoch(4, 0x22, false, false),
    )
    .unwrap();
    link.try_seal_payload(one).unwrap();
    let cmd = task.pull(&mut link).unwrap();
    let made: Result<Bytes, Error> = Ok(Bytes::from(vec![1u8; 8]));
    let given = vec![made, Err(Error::Inconsistent), Ok(Bytes::from(vec![3u8; 8]))];
    assert!(task.handle_writer_cmd(&mut link, cmd, &given).is_err());
    assert_eq!(task.packet_writer.cipher, CipherKey(0x11));
    let cmd = task.pull(&mut link).unwrap();
    let given = vec![Ok(Bytes::from(vec![4u8; 8]))];
    task.handle_writer_cmd(&mut link, cmd, &given).unwrap();
    assert_eq!(drain(&mut task, &mut link, usize::MAX), [[1u8; 8], [4; 8]].concat());
    assert_eq!(link.pending_bytes(), 0);
}
