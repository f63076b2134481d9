use std::collections::{HashMap, HashSet, VecDeque};

use byteorder::{BigEndian, ByteOrder};
use bytes::{Bytes, BytesMut};
use russh::channel::{ChannelCtrlItem, ChannelId, ChannelOpenConfirmation, ChannelParams};
use russh::common_session::{CipherPair, CommonSession, Names, NewKeys};
use russh::error::{ChannelOpenFailure, Error};
use russh::msg;
use russh::server::delivery::{
    CtrlMsg, CtrlStep, Handler, InboundDelivery, LaneStep, PacketStep, Place, PumpStep,
};
use russh::server::dispatch::{ChannelMsg, Msg};
use russh::server::ext_info::{holds_name, join_names};
use russh::server::facade::{
    facade_count, facade_ok, facade_opened, flag_or_false, length_or_zero, push_facade,
    size_or_zero, Facade, FacadeCmd,
};
use russh::server::gates::{InjectIgnoreGate, InstallAckHoldGate};
use russh::server::inbound::{InboundItem, InboundQueue};
use russh::server::install::InboundEpochInstall;
use russh::server::ledger::{FullLedger, LedgerMaxSlot};
use russh::server::observe::{
    KexInstallObserveSlot, OutboundOrderSlot, ReplyQueueSlot, SchedSlot,
};
use russh::server::opening::{opening_step, OpenedChannel, OpeningMsg};
use russh::server::parked::{PendingOutbound, PendingOutboundCmd};
use russh::server::pipeline::{CHANNEL_DATA_FRAMING, MAX_CONTROL_REPLY_RESERVATION};
use russh::server::reader::{LaneInfo, ReaderCmd, ReaderHandle};
use russh::server::run::{ReaderEvent, RoundStep, Supervisor, TimerResets, LONGEST_SLEEP};
use russh::server::session::{
    ChannelOpenReply, ChannelRef, Config, GlobalRequestResponse, KexAfterInstall,
    PendingChannelOpen, PendingKexInstall, PendingKexPhase, Refusal, Session, SessionKexState,
    BOOST_PERIOD,
};
use russh::server::supervisor::{
    AtomicWriteProgress, DisconnectCause, DisconnectCauseSlot, RekeyDeadline, WriteProgress,
    WriteWatchdog,
};
use russh::server::writer::{
    OutboundEpoch, TrySendEpochError, WriteErrorKind, WriterCmd, WriterEvent, WriterHandle,
    WriterHooks, BULK_QUEUE_CAP,
};
use russh::server::writer_task::WriterTask;
use russh::session::{
    Encrypted, EncryptedState, Exchange, KexAlgorithm, MacName, RekeyPolicy,
};
use russh::sshbuffer::{
    CipherKey, Compression, PacketWriter, SSHBuffer, Stream, OUTBOUND_HIGH_WATERMARK,
};
use russh::wire::WIRE_OVERHEAD_PER_PACKET;

fn config() -> Config {
    Config {
        window_size: 2_097_152,
        maximum_packet_size: 32_768,
        limits: RekeyPolicy::default(),
        rekey_deadline: 60_000,
        max_pending_inbound_bytes: 16 * 1024 * 1024,
        max_pending_outbound_bytes: 16 * 1024 * 1024,
        inactivity_timeout: None,
        keepalive_interval: None,
        keepalive_max: 3,
        write_progress_deadline: 30_000,
        write_min_drain: None,
    }
}

fn authenticated_session() -> Session {
    authenticated_session_with(config())
}

fn authenticated_session_with(config: Config) -> Session {
    Session {
        common: CommonSession {
            remote_sshid: b"SSH-2.0-test".to_vec(),
            encrypted: Some(Encrypted {
                state: EncryptedState::Authenticated,
                exchange: Some(Exchange::default()),
                kex: KexAlgorithm { id: 0, skip_exchange: true },
                key: 0,
                client_mac: MacName(0),
                server_mac: MacName(0),
                session_id: Vec::new(),
                channels: HashMap::new(),
                last_channel_id: 0,
                write: BytesMut::new(),
                write_cursor: 0,
                last_rekey: 0,
                server_compression: Compression::Plain,
                client_compression: Compression::Plain,
                decompress: Stream::Off,
                rekey_wanted: false,
                received_extensions: Vec::new(),
            }),
            packet_writer: PacketWriter::clear(),
            remote_to_local: CipherKey(0),
            wants_reply: false,
            disconnected: false,
            strict_kex: false,
            alive_timeouts: 0,
            received_data: false,
        },
        config,
        now: 0,
        offer: None,
        server_sig_algs: Vec::new(),
        target_window_size: config.window_size,
        pending_reads: Vec::new(),
        pending_len: 0,
        channels: HashMap::new(),
        inbound: HashMap::new(),
        inbound_generation: 0,
        inbound_needs_reserve: Vec::new(),
        outbound_acks: HashMap::new(),
        released: Vec::new(),
        open_global_requests: VecDeque::new(),
        open_replies: VecDeque::new(),
        kex: SessionKexState::Idle,
        rekey_gen: 0,
        rekey_deadline: RekeyDeadline::default(),
        writer: None,
        reader: None,
        pending_supervisor_cause: None,
        pending_outbound: PendingOutbound::default(),
        pending_kex_install: None,
        deferred_window_grants: HashSet::new(),
        sched_next: None,
        sched_since_boost: BOOST_PERIOD,
        sched_debt: None,
        sched_slot: None,
    }
}

fn enc(session: &mut Session) -> &mut Encrypted {
    session.common.encrypted.as_mut().unwrap()
}

fn epoch(generation: u64) -> OutboundEpoch {
    OutboundEpoch {
        generation,
        cipher: CipherKey(0),
        outbound_compression: Compression::Plain,
        activate_compress: false,
        reset_seqn: false,
    }
}

fn install(
    generation: u64,
    after: Option<KexAfterInstall>,
    phase: PendingKexPhase,
) -> Option<PendingKexInstall> {
    Some(PendingKexInstall {
        generation,
        after,
        phase,
        inbound_acked: false,
        inbound_sent: false,
    })
}

fn need_submit(payloads: Vec<Bytes>) -> PendingKexPhase {
    PendingKexPhase::NeedSubmit { payloads, epoch: epoch(0) }
}

fn insert_test_channel(session: &mut Session, id: ChannelId, reader_gone: bool) {
    session.channels.insert(id.0, ChannelRef { handle: id.0 as u64, reader_gone });
}

fn insert_encrypted_channel(session: &mut Session, window: u32) -> ChannelId {
    enc(session).new_channel(window, 32768)
}

fn confirm_test_channel(session: &mut Session, id: ChannelId, peer_window: u32) {
    enc(session).channels.get_mut(&id.0).unwrap().confirm(&ChannelOpenConfirmation {
        recipient_channel: 0,
        sender_channel: 0,
        initial_window_size: peer_window,
        maximum_packet_size: 32768,
    });
}

fn queue(pending_bytes: usize) -> InboundQueue {
    InboundQueue {
        queue: VecDeque::new(),
        pending_bytes,
        generation: 0,
        reserving: false,
        eof_queued: false,
        close_queued: false,
    }
}

/// Answers every grant with the same window.
struct KeepWindow(u32);

impl Handler for KeepWindow {
    fn adjust_window(&mut self, _channel: ChannelId, _current: u32) -> u32 {
        self.0
    }
}

fn packet_types(buf: &[u8]) -> Vec<u8> {
    let mut types = Vec::new();
    let mut cursor = 0;
    while cursor < buf.len() {
        let len = BigEndian::read_u32(&buf[cursor..cursor + 4]) as usize;
        types.push(buf[cursor + 4]);
        cursor += 4 + len;
    }
    types
}

#[test]
fn kex_install_ack_before_done_waits_then_finalizes() {
    let mut session = authenticated_session();
    session.pending_kex_install = install(3, None, PendingKexPhase::WaitingAck);
    assert!(session.on_install_ack_outbound(3).is_none());
    assert!(matches!(
        session.pending_kex_install.as_ref().map(|p| &p.phase),
        Some(PendingKexPhase::InstallAcked)
    ));
    assert!(session.blocks_outbound_intake());

    let ready = session.merge_peer_done_into_pending(KexAfterInstall::RekeyComplete);
    assert!(ready.is_some(), "both conditions met → finalize");
    assert!(session.pending_kex_install.is_none());
}

#[test]
fn kex_install_done_before_ack_waits_then_finalizes() {
    let mut session = authenticated_session();
    session.pending_kex_install = install(7, None, PendingKexPhase::WaitingAck);
    assert!(session.merge_peer_done_into_pending(KexAfterInstall::RekeyComplete).is_none());
    assert_eq!(
        session.pending_kex_install.as_ref().unwrap().after,
        Some(KexAfterInstall::RekeyComplete)
    );
    assert!(matches!(
        session.pending_kex_install.as_ref().map(|p| &p.phase),
        Some(PendingKexPhase::WaitingAck)
    ));
    session.kex = SessionKexState::Taken;
    let ready = session.on_install_ack_outbound(7);
    assert!(ready.is_some(), "ACK after Done → finalize");
    session.apply_kex_after_install(ready.unwrap());
    assert!(session.pending_kex_install.is_none());
    assert_eq!(session.kex, SessionKexState::Idle);
}

#[test]
fn apply_kex_after_does_not_replace_inbound_cipher() {
    let mut session = authenticated_session();
    session.common.remote_to_local = CipherKey(5);
    session.kex = SessionKexState::Taken;
    session.apply_kex_after_install(KexAfterInstall::RekeyComplete);
    assert_eq!(session.kex, SessionKexState::Idle);
    assert_eq!(session.common.remote_to_local, CipherKey(5));
}

#[test]
fn park_pending_read_pushes() {
    let mut session = authenticated_session();
    assert!(session.pending_reads.is_empty());
    session.park_pending_read(vec![msg::KEXINIT, 1, 2, 3]);
    assert_eq!(session.pending_reads.len(), 1);
    assert_eq!(session.pending_reads[0][0], msg::KEXINIT);
    assert!(session.pending_len >= 4);
}

#[test]
fn kex_install_register_conflict_preserves_existing() {
    let mut session = authenticated_session();
    session.pending_kex_install = install(1, None, PendingKexPhase::WaitingAck);
    let err = session.register_seal_batch_and_install(
        vec![],
        OutboundEpoch {
            generation: 99,
            cipher: CipherKey(0),
            outbound_compression: Compression::Plain,
            activate_compress: true,
            reset_seqn: false,
        },
        None,
    );
    assert!(err.is_err());
    assert_eq!(
        session.pending_kex_install.as_ref().unwrap().generation,
        1,
        "must not overwrite open transaction"
    );
    assert!(session.pending_supervisor_cause.is_some());
}

#[test]
fn fail_pending_kex_preserves_first_cause() {
    let mut session = authenticated_session();
    session.pending_supervisor_cause = Some(DisconnectCause::WriteStalled);
    session.pending_kex_install = install(1, None, PendingKexPhase::WaitingAck);
    session.fail_pending_kex_install();
    assert_eq!(session.pending_supervisor_cause, Some(DisconnectCause::WriteStalled));
    assert!(session.pending_kex_install.is_none());
}

#[test]
fn need_submit_bytes_count_in_sealed_backlog() {
    let mut session = authenticated_session();
    let payloads = vec![Bytes::from(vec![0u8; 1000])];
    session.pending_kex_install = install(0, None, need_submit(payloads));
    assert!(
        session.sealed_backlog_bytes() >= 1000 + WIRE_OVERHEAD_PER_PACKET,
        "NeedSubmit must count payload+wire overhead on the HWM ledger"
    );
}

#[test]
fn kex_need_submit_jumps_hard_after_control_fill() {
    let mut session = authenticated_session();
    let hard = session.outbound_hard_cap();
    let edge = hard.saturating_sub(50);
    let body = edge.saturating_sub(WIRE_OVERHEAD_PER_PACKET);
    assert!(body > 4, "hard cap must leave room for one framed packet");
    let mut pkt = vec![0u8; 4 + body];
    BigEndian::write_u32(&mut pkt[..4], body as u32);
    pkt[4] = msg::IGNORE;
    enc(&mut session).write.extend_from_slice(&pkt);
    let at_edge = session.sealed_backlog_bytes();
    assert!(at_edge < hard);
    assert!(at_edge + MAX_CONTROL_REPLY_RESERVATION >= hard || at_edge + 50 >= hard);

    let reply = vec![0u8; 1200];
    let newkeys = vec![msg::NEWKEYS];
    let kex_weight = reply.len() + newkeys.len() + 2 * WIRE_OVERHEAD_PER_PACKET;
    session.pending_kex_install =
        install(1, None, need_submit(vec![Bytes::from(reply), Bytes::from(newkeys)]));
    let after = session.sealed_backlog_bytes();
    let jumped = after.saturating_sub(at_edge);
    assert_eq!(jumped, kex_weight, "jump must be exactly the NeedSubmit reservation");
    assert!(after > hard);
    assert!(after.saturating_sub(kex_weight) <= hard);
}

#[test]
fn max_payload_for_budget_accounts_for_framing() {
    let budget = 1000;
    let max_packet = 8u32;
    let p = Session::max_payload_for_budget(budget, max_packet);
    let pkts = if p == 0 { 0 } else { p.div_ceil(max_packet as usize) };
    let cost = p + pkts * Session::packet_reservation(CHANNEL_DATA_FRAMING);
    assert!(cost <= budget, "cost {cost} must fit budget {budget}");
    assert!(p < budget || budget == 0);
    assert_eq!(Session::max_payload_for_budget(50, 32 * 1024), 0);
    assert_eq!(Session::max_payload_for_budget(97, 32 * 1024), 0);
    assert_eq!(Session::max_payload_for_budget(98, 32 * 1024), 1);
}

#[test]
fn need_submit_not_idle_and_rekey_gen_active() {
    let mut session = authenticated_session();
    session.kex = SessionKexState::Taken;
    session.rekey_gen = 5;
    session.pending_kex_install = install(
        5,
        Some(KexAfterInstall::RekeyComplete),
        need_submit(vec![Bytes::from_static(&[1, 2, 3])]),
    );
    assert!(session.blocks_outbound_intake());
    assert_eq!(session.active_rekey_gen(), Some(5));
    assert_ne!(session.kex, SessionKexState::Idle);
    assert!(session.sealed_backlog_bytes() >= 3);
}

#[test]
fn write_stalled_while_need_submit_eligible() {
    let mut wd = WriteWatchdog::new();
    let mut session = authenticated_session();
    session.kex = SessionKexState::Taken;
    session.pending_kex_install = install(
        2,
        Some(KexAfterInstall::RekeyComplete),
        need_submit(vec![Bytes::from(vec![0u8; 4096])]),
    );
    let eligible = session.sealed_backlog_bytes() as u64;
    assert!(eligible >= 4096);
    wd.observe_eligible(eligible, 0);
    let cause = wd.poll_timeout(10, None, 30);
    assert_eq!(
        cause,
        Some(DisconnectCause::WriteStalled),
        "short watchdog must fire WriteStalled while NeedSubmit holds backlog"
    );
    assert_ne!(session.kex, SessionKexState::Idle);
    assert!(session.pending_kex_install.is_some());
}

#[test]
fn sealed_backlog_includes_need_submit_under_hwm_cap_formula() {
    let hwm = OUTBOUND_HIGH_WATERMARK;
    let mut session = authenticated_session();
    enc(&mut session).write.resize(hwm / 2, 0);
    session.pending_kex_install =
        install(0, None, need_submit(vec![Bytes::from(vec![0u8; hwm / 4])]));
    let backlog = session.sealed_backlog_bytes();
    assert!(
        backlog >= hwm / 2 + hwm / 4,
        "backlog={backlog} expected >= {}",
        hwm / 2 + hwm / 4
    );
    let one = Session::packet_reservation(CHANNEL_DATA_FRAMING);
    assert_eq!(
        session.outbound_budget(),
        hwm.saturating_add(one).saturating_sub(backlog),
        "budget must be HWM+one_pkt_res - sealed_backlog"
    );
    assert!(session.outbound_budget() < hwm.saturating_add(one));
}

#[test]
fn skip_exchange_ack_fail_keeps_non_idle() {
    let mut session = authenticated_session();
    session.kex = SessionKexState::Taken;
    session.rekey_gen = 9;
    session.pending_kex_install =
        install(9, Some(KexAfterInstall::RekeyComplete), PendingKexPhase::WaitingAck);
    session.stage_cause(DisconnectCause::WriteStalled);
    session.fail_pending_kex_install();
    assert!(session.pending_kex_install.is_none());
    assert_eq!(
        session.pending_supervisor_cause,
        Some(DisconnectCause::WriteStalled),
        "first cause preserved"
    );
    assert_eq!(session.kex, SessionKexState::Taken, "must not Idle on fail");
}

/// Seals and opens by exclusive or with the key's number.
fn tag(key: CipherKey, bytes: &[u8]) -> Vec<u8> {
    bytes.iter().map(|b| b ^ (key.0 as u8)).collect()
}

#[test]
fn r1_done_before_ack_swaps_new_inbound_into_read_future() {
    let mut session = authenticated_session();
    let mut opening = CipherKey(0x11);
    session.common.remote_to_local = CipherKey(0x11);
    session.kex = SessionKexState::Taken;
    session.pending_kex_install = install(7, None, PendingKexPhase::WaitingAck);
    session.common.remote_to_local = CipherKey(0x22);
    let _ = session.merge_peer_done_into_pending(KexAfterInstall::RekeyComplete);
    assert!(session.pending_kex_install.is_some(), "completion still waits InstallAck");
    assert_ne!(session.kex, SessionKexState::Idle);

    std::mem::swap(&mut opening, &mut session.common.remote_to_local);
    let mut pw = PacketWriter::clear();
    pw.set_cipher(CipherKey(0x22));
    let plain = [msg::IGNORE, 0, 0, 0, 1, 0x42];
    let sealed = Ok(Bytes::from(tag(CipherKey(0x22), &plain)));
    let wire = pw.seal(&plain, Some(&sealed)).unwrap();
    let opened = tag(opening, &wire);
    assert!(!opened.is_empty());
    assert_eq!(opened[0], msg::IGNORE);
    let opened_old = tag(CipherKey(0x11), &wire);
    assert_ne!(opened_old[0], msg::IGNORE);
    assert!(session.pending_kex_install.is_some());
    assert_ne!(session.kex, SessionKexState::Idle);
}

#[test]
fn r1_initial_done_commits_inbound_before_ack() {
    let mut session = authenticated_session();
    let mut opening = CipherKey(0);
    session.common.remote_to_local = CipherKey(0);
    session.kex = SessionKexState::Taken;
    session.pending_kex_install =
        install(0, Some(KexAfterInstall::InitialComplete), PendingKexPhase::WaitingAck);
    session.common.remote_to_local = CipherKey(0x33);
    std::mem::swap(&mut opening, &mut session.common.remote_to_local);
    let mut pw = PacketWriter::clear();
    pw.set_cipher(CipherKey(0x33));
    let plain = [msg::SERVICE_REQUEST, 0, 0, 0, 0];
    let sealed = Ok(Bytes::from(tag(CipherKey(0x33), &plain)));
    let wire = pw.seal(&plain, Some(&sealed)).unwrap();
    assert_eq!(tag(opening, &wire), plain);
    assert!(session.pending_kex_install.is_some(), "ACK still pending");
    assert_ne!(session.kex, SessionKexState::Idle);
    assert!(matches!(
        session.pending_kex_install.as_ref().map(|p| &p.phase),
        Some(PendingKexPhase::WaitingAck)
    ));
}

fn park_ready_channel(session: &mut Session, id: ChannelId, len: usize) {
    let ch = enc(session).channels.get_mut(&id.0).unwrap();
    ch.confirm(&ChannelOpenConfirmation {
        recipient_channel: id.0,
        sender_channel: id.0,
        initial_window_size: 1 << 20,
        maximum_packet_size: 1024,
    });
    ch.boost_pending = false;
    assert!(ch.enqueue_data(Bytes::from(vec![0u8; len]), None, 0));
}

#[test]
fn sched_stopped_mid_not_overwritten_by_last_served() {
    let mut session = authenticated_session();
    session.writer = Some(WriterHandle::new());
    let framing = CHANNEL_DATA_FRAMING;
    let one_1k = 1024 + Session::packet_reservation(framing);
    let hard = OUTBOUND_HIGH_WATERMARK.saturating_add(one_1k);
    let adjust = 9usize.saturating_add(WIRE_OVERHEAD_PER_PACKET);
    let lo = hard.saturating_sub(adjust).saturating_sub(one_1k);
    let hi = hard.saturating_sub(adjust);
    for _ in 0..512 {
        let sealed = session.sealed_backlog_bytes();
        if sealed >= lo && sealed < hi {
            break;
        }
        assert!(sealed < hi);
        let chunk = lo.saturating_sub(sealed).max(1).min(1024);
        session
            .writer
            .as_mut()
            .unwrap()
            .try_seal_payload(Bytes::from(vec![1u8; chunk]))
            .unwrap();
    }
    let sealed = session.sealed_backlog_bytes();
    assert!(sealed >= lo && sealed < hi, "got {sealed}");

    let c1 = insert_encrypted_channel(&mut session, 1 << 20);
    let c2 = insert_encrypted_channel(&mut session, 1 << 20);
    let c3 = insert_encrypted_channel(&mut session, 1 << 20);
    park_ready_channel(&mut session, c1, 1024);
    park_ready_channel(&mut session, c2, 1024);
    park_ready_channel(&mut session, c3, 1024);
    assert!(c1.0 < c2.0 && c2.0 < c3.0);

    session.sched_debt = Some(c3.0);
    session.sched_next = Some(c2.0);
    session.sched_since_boost = 0;

    session.try_drain_pending_data_under_budget().unwrap();

    assert_eq!(session.sched_next, Some(c1.0));
    let left = |session: &Session, id: ChannelId| -> usize {
        session.common.encrypted.as_ref().unwrap().channels[&id.0].queued_data_bytes()
    };
    assert!(left(&session, c2) < 1024);
    assert_eq!(left(&session, c1), 1024);
    assert_eq!(session.sched_since_boost, 1);
}

#[test]
fn session_extended_data_propagates_zero_max_packet() {
    let mut session = authenticated_session();
    let id = insert_encrypted_channel(&mut session, 1024);
    confirm_test_channel(&mut session, id, 1024);
    enc(&mut session).channels.get_mut(&id.0).unwrap().recipient_maximum_packet_size = 0;
    let err = session.extended_data(id, 1, Bytes::from_static(b"x")).unwrap_err();
    assert!(matches!(err, Error::Inconsistent), "expected Inconsistent, got {err:?}");
    let pending = enc(&mut session).channels[&id.0].pending_data.len();
    assert!(pending > 0, "failed drain must leave the EXTENDED_DATA queued");
}

#[test]
fn r6_should_park_kexinit_requires_peer_done() {
    let mut session = authenticated_session();
    session.pending_kex_install = install(1, None, PendingKexPhase::WaitingAck);
    assert!(!session.should_park_kexinit(), "must not park KEXINIT before peer Done");
    session.pending_kex_install.as_mut().unwrap().after = Some(KexAfterInstall::RekeyComplete);
    assert!(
        session.should_park_kexinit(),
        "must park KEXINIT while waiting only for InstallAck"
    );
}

#[test]
fn r6_replay_pending_kexinit_reenters_reply_gate_done_before_ack() {
    let mut session = authenticated_session();
    session.kex = SessionKexState::Taken;
    session.pending_kex_install =
        install(2, Some(KexAfterInstall::RekeyComplete), PendingKexPhase::WaitingAck);
    assert!(session.should_park_kexinit());
    session.park_pending_read(vec![msg::KEXINIT, 0, 1, 2, 3]);
    assert_eq!(session.pending_reads.len(), 1);
    let after = session.on_install_ack_outbound(2).expect("ready");
    session.apply_kex_after_install(after);
    assert_eq!(session.kex, SessionKexState::Idle);
    assert_eq!(session.take_pending_reads(), vec![vec![msg::KEXINIT, 0, 1, 2, 3]]);
    assert!(session.pending_reads.is_empty());
    assert_eq!(session.pending_len, 0);
}

#[test]
fn r6_replay_ack_before_done_order() {
    let mut session = authenticated_session();
    session.kex = SessionKexState::Taken;
    session.pending_kex_install = install(4, None, PendingKexPhase::WaitingAck);
    assert!(!session.should_park_kexinit());
    assert!(session.on_install_ack_outbound(4).is_none());
    assert!(matches!(
        session.pending_kex_install.as_ref().map(|p| &p.phase),
        Some(PendingKexPhase::InstallAcked)
    ));
    session.park_pending_read(vec![msg::KEXINIT, 9, 9, 9]);
    let ready = session
        .merge_peer_done_into_pending(KexAfterInstall::RekeyComplete)
        .expect("ACK already seen → finalize on Done");
    session.apply_kex_after_install(ready);
    assert_eq!(session.kex, SessionKexState::Idle);
    assert!(session.pending_kex_install.is_none());
    assert_eq!(session.take_pending_reads().len(), 1);
    assert!(session.pending_reads.is_empty());
}

#[test]
fn flush_full_park_does_not_duplicate_seal_raw() {
    let mut session = authenticated_session();
    session.writer = Some(WriterHandle::new());
    let mut task = WriterTask::new(PacketWriter::clear(), session.writer.as_mut().unwrap());
    let n = BULK_QUEUE_CAP + 16;
    const MAGIC: [u8; 4] = [0xA5, 0x5A, 0xC3, 0x3C];
    for i in 0..n {
        let mut payload = vec![msg::IGNORE];
        payload.extend_from_slice(&MAGIC);
        payload.push((i >> 8) as u8);
        payload.push((i & 0xff) as u8);
        let mut len_buf = [0u8; 4];
        BigEndian::write_u32(&mut len_buf, payload.len() as u32);
        let e = enc(&mut session);
        e.write.extend_from_slice(&len_buf);
        e.write.extend_from_slice(&payload);
    }
    session.flush().unwrap();
    assert!(!session.pending_outbound.is_empty());
    assert!(session.sealed_backlog_bytes() > 0);
    assert!(enc(&mut session).write_cursor > 0);
    session.flush().unwrap();

    let mut recorded: Vec<u8> = Vec::new();
    let mut progress = AtomicWriteProgress::new();
    for _ in 0..64 {
        let link = session.writer.as_mut().unwrap();
        while let Some(cmd) = task.pull(link) {
            task.handle_writer_cmd(link, cmd, &Vec::new()).unwrap();
        }
        while let Some(segments) = task.next_write(link, true) {
            let mut total = 0;
            for s in &segments {
                recorded.extend_from_slice(s);
                total += s.len();
            }
            task.note_written(link, &mut progress, total, 0).unwrap();
        }
        session.retry_pending_outbound().unwrap();
        session.flush().unwrap();
        if session.sealed_backlog_bytes() == 0 {
            break;
        }
    }
    assert_eq!(session.sealed_backlog_bytes(), 0);
    assert!(session.pending_outbound.is_empty());
    for i in 0..n {
        let mut needle = vec![msg::IGNORE];
        needle.extend_from_slice(&MAGIC);
        needle.push((i >> 8) as u8);
        needle.push((i & 0xff) as u8);
        let count = recorded.windows(needle.len()).filter(|w| *w == needle.as_slice()).count();
        assert_eq!(count, 1, "packet {i} must appear exactly once");
    }
}

#[test]
fn server_initiated_close_is_cleaned_up_by_peer_reply() {
    let mut session = authenticated_session();
    let id = insert_encrypted_channel(&mut session, 1024);
    confirm_test_channel(&mut session, id, 1024);
    insert_test_channel(&mut session, id, false);
    session.close(id).unwrap();
    assert!(!enc(&mut session).channel_exists(id));
    assert!(session.channels.contains_key(&id.0));
    let staged = enc(&mut session).write.len();

    let step = session.dispatch_lane_payload(id, InboundItem::Close, Place::Free).unwrap();
    assert_eq!(step, LaneStep::Delivered { grant: false });
    session.finalize_close(id);
    assert!(!session.channels.contains_key(&id.0));
    assert_eq!(enc(&mut session).write.len(), staged);
}

#[test]
fn server_initiated_close_releases_state_without_peer_reply() {
    let mut session = authenticated_session();
    let id = insert_encrypted_channel(&mut session, 1024);
    confirm_test_channel(&mut session, id, 1024);
    insert_test_channel(&mut session, id, true);
    session.close(id).unwrap();
    assert!(!session.channels.contains_key(&id.0));
}

#[test]
fn server_initiated_close_keeps_state_while_app_still_reads() {
    let mut session = authenticated_session();
    let id = insert_encrypted_channel(&mut session, 1024);
    confirm_test_channel(&mut session, id, 1024);
    insert_test_channel(&mut session, id, false);
    session.close(id).unwrap();
    assert!(session.channels.contains_key(&id.0));
}

#[test]
fn handler_side_writes_are_capped() {
    let mut session =
        authenticated_session_with(Config { max_pending_outbound_bytes: 4096, ..config() });
    let id = insert_encrypted_channel(&mut session, 0);
    confirm_test_channel(&mut session, id, 0);
    for _ in 0..8 {
        if enc(&mut session).channel_exists(id) {
            session.data(id, Bytes::from_static(&[0u8; 1024])).unwrap();
        }
    }
    assert!(!enc(&mut session).channel_exists(id));
}

#[test]
fn window_grant_excludes_undelivered_backlog() {
    let mut session = authenticated_session();
    let target = session.target_window_size;
    let id = insert_encrypted_channel(&mut session, target);
    insert_test_channel(&mut session, id, false);
    let undelivered = target / 2;
    enc(&mut session).consume_recv_window(id, target as usize);
    assert_eq!(enc(&mut session).sender_window_size(id), 0);
    session.inbound.insert(id.0, queue(undelivered as usize));
    session.maybe_grant_after_delivery(id, &mut KeepWindow(0)).unwrap();
    assert_eq!(enc(&mut session).sender_window_size(id), (target - undelivered) as usize);
}

#[test]
fn window_grant_sums_lane_and_scheme_c() {
    let mut session = authenticated_session();
    let target = session.target_window_size;
    let id = insert_encrypted_channel(&mut session, target);
    insert_test_channel(&mut session, id, false);
    enc(&mut session).consume_recv_window(id, target as usize);
    assert_eq!(enc(&mut session).sender_window_size(id), 0);
    let lane_hold = 64usize;
    let scheme_c = (target / 4) as usize;
    let mut reader = ReaderHandle::new();
    reader.open_lane(id.0, target, 32768);
    reader.lanes.insert(id.0, LaneInfo { generation: 1, bytes: lane_hold });
    session.reader = Some(reader);
    session.inbound.insert(id.0, queue(scheme_c));
    session.maybe_grant_after_delivery(id, &mut KeepWindow(0)).unwrap();
    let want = target as usize - scheme_c - lane_hold;
    assert_eq!(enc(&mut session).sender_window_size(id), want);
}

#[test]
fn window_grant_restores_full_target_when_drained() {
    let mut session = authenticated_session();
    let target = session.target_window_size;
    let id = insert_encrypted_channel(&mut session, target);
    insert_test_channel(&mut session, id, false);
    enc(&mut session).consume_recv_window(id, target as usize);
    session.maybe_grant_after_delivery(id, &mut KeepWindow(77)).unwrap();
    assert_eq!(enc(&mut session).sender_window_size(id), target as usize);
    assert_eq!(session.target_window_size, 77);
}

#[test]
fn window_grant_is_put_off_at_the_high_watermark() {
    let mut session = authenticated_session();
    let target = session.target_window_size;
    let id = insert_encrypted_channel(&mut session, target);
    enc(&mut session).consume_recv_window(id, target as usize);
    session.pending_outbound.push_back(PendingOutboundCmd::SealRaw(Bytes::from(vec![
        msg::IGNORE;
        OUTBOUND_HIGH_WATERMARK
    ])));
    session.maybe_grant_after_delivery(id, &mut KeepWindow(0)).unwrap();
    assert!(session.deferred_window_grants.contains(&id.0));
    session.retry_pending_outbound().unwrap();
    session.retry_deferred_window_grants(&mut KeepWindow(0)).unwrap();
    assert!(session.deferred_window_grants.is_empty());
    assert_eq!(enc(&mut session).sender_window_size(id), target as usize);
    let wire = &session.common.packet_writer.buffer().buffer;
    assert_eq!(wire[wire.len() - 24..][5], msg::CHANNEL_WINDOW_ADJUST);
}

#[test]
fn discarded_producer_is_woken_with_error_not_success() {
    let mut session = authenticated_session();
    let id = insert_encrypted_channel(&mut session, 0);
    session.outbound_acks.entry(id.0).or_default().push_back(41);
    session.discard_channel_outbound(id).unwrap();
    session.release_outbound_acks();
    assert_eq!(session.released, vec![(41, false)]);
}

#[test]
fn producer_is_woken_with_success_after_orderly_flush_and_close() {
    let mut session = authenticated_session();
    let id = insert_encrypted_channel(&mut session, 1024);
    session.outbound_acks.entry(id.0).or_default().push_back(42);
    enc(&mut session).close(id).unwrap();
    assert!(!enc(&mut session).channel_exists(id));
    session.release_outbound_acks();
    assert_eq!(session.released, vec![(42, true)]);
}

#[test]
fn drained_producer_is_woken_with_success() {
    let mut session = authenticated_session();
    let id = insert_encrypted_channel(&mut session, 1024);
    session.outbound_acks.entry(id.0).or_default().push_back(43);
    session.release_outbound_acks();
    assert_eq!(session.released, vec![(43, true)]);
}

#[test]
fn inbound_fifo_preserves_order_and_backpressures() {
    let mut session = authenticated_session();
    let id = ChannelId(1);
    insert_test_channel(&mut session, id, false);
    assert_eq!(
        session.deliver_inbound(id, InboundItem::Data(Bytes::from_static(b"a")), Place::Free),
        InboundDelivery::Delivered
    );
    assert_eq!(
        session.deliver_inbound(id, InboundItem::Data(Bytes::from_static(b"bb")), Place::Full),
        InboundDelivery::Queued
    );
    assert_eq!(
        session.deliver_inbound(id, InboundItem::Data(Bytes::from_static(b"ccc")), Place::Full),
        InboundDelivery::Queued
    );
    assert_eq!(
        session.deliver_inbound(id, InboundItem::Close, Place::Full),
        InboundDelivery::Queued
    );
    let q = session.inbound.get(&id.0).expect("backpressured");
    assert_eq!(q.queue.len(), 3);
    assert_eq!(q.pending_bytes, 2 + 3);
    assert!(q.reserving);
    assert!(matches!(q.queue.front(), Some(InboundItem::Data(d)) if d.as_ref() == b"bb"));
    assert!(matches!(q.queue.back(), Some(InboundItem::Close)));
    assert_eq!(session.inbound_needs_reserve, vec![id.0]);
    assert_eq!(session.drain_needs_reserve(), vec![(id.0, 0)]);
    assert!(session.inbound_needs_reserve.is_empty());
}

#[test]
fn queued_handler_callback_is_deferred_until_delivery() {
    let mut session = authenticated_session();
    let id = ChannelId(1);
    insert_test_channel(&mut session, id, false);
    assert_eq!(
        session.deliver_inbound(id, InboundItem::Data(Bytes::from_static(b"a")), Place::Free),
        InboundDelivery::Delivered
    );
    assert_eq!(
        session
            .dispatch_lane_payload(
                id,
                InboundItem::Data(Bytes::from_static(b"b")),
                Place::Full
            )
            .unwrap(),
        LaneStep::Waits
    );
    let generation = session.inbound[&id.0].generation;
    match session.pump_inbound(id, generation, true) {
        PumpStep::Deliver(InboundItem::Data(data)) => assert_eq!(data.as_ref(), b"b"),
        other => panic!("expected delivered Data(b), got {other:?}"),
    }
    session.rearm_inbound(id);
    assert!(!session.inbound.contains_key(&id.0));
}

#[test]
fn first_full_item_respects_pending_cap() {
    let mut session =
        authenticated_session_with(Config { max_pending_inbound_bytes: 4, ..config() });
    let id = ChannelId(1);
    insert_test_channel(&mut session, id, false);
    assert_eq!(
        session.deliver_inbound(id, InboundItem::Data(Bytes::from_static(b"aaaa")), Place::Free),
        InboundDelivery::Delivered
    );
    assert_eq!(
        session.deliver_inbound(id, InboundItem::Data(Bytes::from_static(b"bbbbb")), Place::Full),
        InboundDelivery::Overflow
    );
    assert!(!session.inbound.contains_key(&id.0));
}

#[test]
fn overflow_while_backpressured_isolated_to_channel() {
    let mut session =
        authenticated_session_with(Config { max_pending_inbound_bytes: 6, ..config() });
    let victim = ChannelId(1);
    let other = ChannelId(2);
    insert_test_channel(&mut session, victim, false);
    insert_test_channel(&mut session, other, false);
    assert_eq!(
        session.deliver_inbound(victim, InboundItem::Data(Bytes::from_static(b"aa")), Place::Free),
        InboundDelivery::Delivered
    );
    assert_eq!(
        session.deliver_inbound(
            victim,
            InboundItem::Data(Bytes::from_static(b"bbbb")),
            Place::Full
        ),
        InboundDelivery::Queued
    );
    assert_eq!(
        session.deliver_inbound(victim, InboundItem::Data(Bytes::from_static(b"ccc")), Place::Full),
        InboundDelivery::Overflow
    );
    assert_eq!(session.inbound[&victim.0].queue.len(), 1);
    assert_eq!(
        session.deliver_inbound(other, InboundItem::Data(Bytes::from_static(b"z")), Place::Free),
        InboundDelivery::Delivered
    );
    assert!(!session.inbound.contains_key(&other.0));
}

#[test]
fn zero_byte_items_cannot_grow_queue_unboundedly() {
    let mut session = authenticated_session();
    let id = ChannelId(1);
    insert_test_channel(&mut session, id, false);
    assert_eq!(
        session.deliver_inbound(id, InboundItem::Data(Bytes::from_static(b"a")), Place::Free),
        InboundDelivery::Delivered
    );
    assert_eq!(
        session.deliver_inbound(id, InboundItem::Data(Bytes::from_static(b"bb")), Place::Full),
        InboundDelivery::Queued
    );
    for _ in 0..64 {
        assert_eq!(
            session.deliver_inbound(id, InboundItem::Data(Bytes::new()), Place::Full),
            InboundDelivery::Delivered
        );
        assert_eq!(
            session.deliver_inbound(
                id,
                InboundItem::ExtendedData { ext: 1, data: Bytes::new() },
                Place::Full
            ),
            InboundDelivery::Delivered
        );
    }
    assert_eq!(session.inbound[&id.0].queue.len(), 1);
    for _ in 0..64 {
        assert_eq!(
            session.deliver_inbound(id, InboundItem::Eof, Place::Full),
            InboundDelivery::Queued
        );
    }
    for _ in 0..64 {
        assert_eq!(
            session.deliver_inbound(id, InboundItem::Close, Place::Full),
            InboundDelivery::Queued
        );
    }
    let q = &session.inbound[&id.0];
    assert_eq!(q.queue.len(), 3, "bb + one Eof + one Close, nothing else");
    assert_eq!(q.pending_bytes, 2);
}

#[test]
fn receiver_drop_with_queued_close_still_finalizes() {
    let mut session = authenticated_session();
    let id = ChannelId(1);
    insert_test_channel(&mut session, id, false);
    assert_eq!(
        session.deliver_inbound(id, InboundItem::Data(Bytes::from_static(b"bb")), Place::Full),
        InboundDelivery::Queued
    );
    assert_eq!(
        session.deliver_inbound(id, InboundItem::Close, Place::Full),
        InboundDelivery::Queued
    );
    let generation = session.inbound[&id.0].generation;
    assert!(matches!(session.pump_inbound(id, generation, false), PumpStep::CloseNow));
    session.finalize_close(id);
    assert!(!session.channels.contains_key(&id.0));
    assert!(!session.inbound.contains_key(&id.0));
}

#[test]
fn receiver_drop_without_queued_close_only_drops_queue() {
    let mut session = authenticated_session();
    let id = ChannelId(1);
    insert_test_channel(&mut session, id, false);
    assert_eq!(
        session.deliver_inbound(id, InboundItem::Data(Bytes::from_static(b"bb")), Place::Full),
        InboundDelivery::Queued
    );
    let generation = session.inbound[&id.0].generation;
    assert!(matches!(session.pump_inbound(id, generation + 1, false), PumpStep::Nothing));
    assert!(session.inbound.contains_key(&id.0));
    assert!(matches!(session.pump_inbound(id, generation, false), PumpStep::Dropped));
    assert!(session.channels.contains_key(&id.0));
    assert!(!session.inbound.contains_key(&id.0));
}

#[test]
fn unknown_and_gone_channels_take_nothing() {
    let mut session = authenticated_session();
    let id = ChannelId(9);
    assert_eq!(
        session.deliver_inbound(id, InboundItem::Eof, Place::Free),
        InboundDelivery::ChannelGone
    );
    insert_test_channel(&mut session, id, true);
    assert_eq!(
        session.deliver_inbound(id, InboundItem::Eof, Place::Gone),
        InboundDelivery::ChannelGone
    );
}

#[test]
fn lane_overflow_closes_the_channel() {
    let mut session =
        authenticated_session_with(Config { max_pending_inbound_bytes: 3, ..config() });
    let id = insert_encrypted_channel(&mut session, 1024);
    confirm_test_channel(&mut session, id, 1024);
    insert_test_channel(&mut session, id, false);
    let item = InboundItem::Data(Bytes::from_static(b"four"));
    session.charge_lane_payload(id, &item);
    assert_eq!(enc(&mut session).sender_window_size(id), 1020);
    assert_eq!(
        session.dispatch_lane_payload(id, item, Place::Full).unwrap(),
        LaneStep::Overflowed
    );
    assert!(!session.channels.contains_key(&id.0));
    assert!(!enc(&mut session).channel_exists(id));
    assert_eq!(packet_types(&enc(&mut session).write), vec![msg::CHANNEL_CLOSE]);
}

#[test]
fn reader_messages_close_channels_once() {
    let mut session = authenticated_session();
    session.reader = Some(ReaderHandle::new());
    let id = insert_encrypted_channel(&mut session, 1024);
    confirm_test_channel(&mut session, id, 1024);
    insert_test_channel(&mut session, id, false);
    session.register_inbound_lane(id);
    assert_eq!(
        session.handle_ctrl_msg(CtrlMsg::WireClose { id }, 5),
        Ok(CtrlStep::Done)
    );
    assert_eq!(
        session.handle_ctrl_msg(CtrlMsg::WireClose { id }, 5),
        Ok(CtrlStep::Done)
    );
    assert_eq!(packet_types(&enc(&mut session).write), vec![msg::CHANNEL_CLOSE]);
    assert_eq!(
        session.handle_ctrl_msg(CtrlMsg::CloseDropped { id, generation: 9 }, 1),
        Ok(CtrlStep::Done)
    );
    assert_eq!(
        session.handle_ctrl_msg(CtrlMsg::CloseDropped { id, generation: 1 }, 1),
        Ok(CtrlStep::NotifyThenFinalize)
    );
    assert_eq!(
        session.handle_ctrl_msg(CtrlMsg::Overflow { id }, 2),
        Ok(CtrlStep::NotifyThenForget)
    );
    session.forget_channel(id);
    assert_eq!(session.handle_ctrl_msg(CtrlMsg::Overflow { id }, 2), Ok(CtrlStep::Done));
    assert_eq!(
        session.handle_ctrl_msg(CtrlMsg::CloseDropped { id, generation: 1 }, 1),
        Ok(CtrlStep::Done)
    );
    let cmds = &session.reader.as_ref().unwrap().cmds;
    assert_eq!(cmds[0], ReaderCmd::OpenLane {
        id: id.0,
        generation: 1,
        window: 2_097_152,
        max_packet: 32_768
    });
    assert_eq!(cmds[1], ReaderCmd::ReleaseCtrl(5));
}

#[test]
fn reader_packets_are_sorted_by_their_first_byte() {
    let mut session = authenticated_session();
    assert_eq!(session.handle_ctrl_packet(&[]), PacketStep::Ignore);
    assert_eq!(session.handle_ctrl_packet(&[msg::DISCONNECT]), PacketStep::Stop);
    assert!(!session.common.received_data);
    assert_eq!(session.handle_ctrl_packet(&[msg::CHANNEL_DATA, 1]), PacketStep::Reply);
    assert!(session.common.received_data);
}

#[test]
fn payload_starts_behind_the_lengths() {
    let mut session = authenticated_session();
    let buffer = SSHBuffer { buffer: vec![0, 0, 0, 3, 1, 80, 81], bytes: 0, seqn: 4 };
    assert_eq!(session.maybe_decompress(&buffer), (&[80u8, 81][..], false));
    enc(&mut session).decompress = Stream::Zlib;
    assert!(session.maybe_decompress(&buffer).1);
}

#[test]
fn inbound_key_goes_to_the_reader_once() {
    let mut session = authenticated_session();
    let half = InboundEpochInstall {
        cipher: CipherKey(8),
        compression: Compression::ZlibDeferred,
        reset_seqn: false,
    };
    session.reader = Some(ReaderHandle::new());
    session.common.strict_kex = true;
    session.pending_kex_install = install(3, None, PendingKexPhase::WaitingAck);
    session.push_inbound_from_kex(Some(half), 3).unwrap();
    session.push_inbound_from_newkeys_if_needed(half, 3).unwrap();
    let cmds = &session.reader.as_ref().unwrap().cmds;
    assert_eq!(cmds.len(), 1);
    assert!(matches!(
        cmds[0],
        ReaderCmd::Install(e) if e.reset_seqn && e.activate_decompress && e.cipher == CipherKey(8)
    ));
    assert_eq!(session.on_install_ack_outbound(3), None);
    assert_eq!(session.merge_peer_done_into_pending(KexAfterInstall::RekeyComplete), None);
    assert_eq!(session.on_install_ack_inbound(2), None);
    assert_eq!(session.on_install_ack_inbound(3), Some(KexAfterInstall::RekeyComplete));

    session.pending_kex_install = install(4, None, PendingKexPhase::WaitingAck);
    assert!(session.push_inbound_from_kex(Some(half), 4).is_err());
    assert_eq!(session.pending_supervisor_cause, Some(DisconnectCause::PeerError));

    let mut alone = authenticated_session();
    enc(&mut alone).state =
        EncryptedState::WaitingAuthServiceRequest { sent: true, accepted: false };
    alone.push_inbound_from_newkeys_if_needed(half, 1).unwrap();
    assert_eq!(alone.common.remote_to_local, CipherKey(8));
    assert_eq!(enc(&mut alone).decompress, Stream::Off);
}

fn new_keys(client: Compression, server: Compression, strict_kex: bool) -> NewKeys {
    NewKeys {
        exchange: Exchange::new(b"c", b"s"),
        names: Names {
            client_mac: MacName(1),
            server_mac: MacName(2),
            client_compression: client,
            server_compression: server,
            strict_kex,
        },
        kex: KexAlgorithm { id: 3, skip_exchange: false },
        key: 4,
        cipher: CipherPair { local_to_remote: CipherKey(10), remote_to_local: CipherKey(11) },
        session_id: vec![1, 2],
    }
}

#[test]
fn rekey_commits_what_was_agreed_on() {
    let mut session = authenticated_session();
    session.now = 500;
    session.common.remote_to_local = CipherKey(77);
    let mut keys = new_keys(Compression::Zlib, Compression::Plain, true);
    assert_eq!(
        Session::take_outbound_from_newkeys_server(&mut keys),
        (CipherKey(10), Compression::Plain, true)
    );
    assert_eq!(keys.cipher.local_to_remote, CipherKey(0));
    session.commit_rekey_inbound(keys);
    let e = enc(&mut session);
    assert_eq!(e.last_rekey, 500);
    assert_eq!(e.client_compression, Compression::Zlib);
    assert_eq!(e.decompress, Stream::Zlib);
    assert_eq!(e.kex.id, 3);
    assert!(session.common.strict_kex);
    assert_eq!(session.common.remote_to_local, CipherKey(77));
}

#[test]
fn first_keys_leave_deferred_compression_off() {
    let mut session = authenticated_session();
    session.commit_initial_encrypted(
        EncryptedState::WaitingAuthServiceRequest { sent: false, accepted: false },
        new_keys(Compression::ZlibDeferred, Compression::ZlibDeferred, false),
    );
    assert_eq!(session.common.remote_to_local, CipherKey(11));
    assert_eq!(enc(&mut session).decompress, Stream::Off);
    assert_eq!(enc(&mut session).last_channel_id, 1);
    session.writer = Some(WriterHandle::new());
    session.reader = Some(ReaderHandle::new());
    enc(&mut session).write.extend_from_slice(&[0, 0, 0, 1, 52]);
    session.complete_auth_compress_barrier().unwrap();
    assert_eq!(enc(&mut session).state, EncryptedState::Authenticated);
    assert_eq!(enc(&mut session).decompress, Stream::Zlib);
    let bulk = &session.writer.as_ref().unwrap().bulk;
    assert!(matches!(&bulk[0], WriterCmd::SealRaw(p) if p.as_ref() == [52]));
    assert!(matches!(bulk[1], WriterCmd::InitOutboundCompress { .. }));
    assert_eq!(
        session.reader.as_ref().unwrap().cmds,
        vec![ReaderCmd::EnableDecompress(Compression::ZlibDeferred)]
    );
}

#[test]
fn install_without_a_writer_is_done_here() {
    let mut session = authenticated_session();
    session
        .register_seal_batch_and_install(
            vec![Bytes::from_static(&[msg::NEWKEYS])],
            OutboundEpoch {
                generation: 6,
                cipher: CipherKey(12),
                outbound_compression: Compression::Zlib,
                activate_compress: true,
                reset_seqn: true,
            },
            None,
        )
        .unwrap();
    assert_eq!(session.common.packet_writer.cipher, CipherKey(12));
    assert_eq!(session.common.packet_writer.compress, Stream::Zlib);
    assert_eq!(session.common.packet_writer.buffer().seqn, 0);
    assert_eq!(session.common.packet_writer.buffer().buffer[5], msg::NEWKEYS);
    assert!(session.should_park_kexinit());
}

#[test]
fn install_waits_behind_parked_commands() {
    let mut session = authenticated_session();
    let mut writer = WriterHandle::new();
    for _ in 0..BULK_QUEUE_CAP {
        writer.try_seal_raw(Bytes::from_static(&[msg::IGNORE])).unwrap();
    }
    session.writer = Some(writer);
    session.submit_seal_payload(Bytes::from_static(&[msg::DEBUG])).unwrap();
    assert!(!session.pending_outbound.is_empty());
    session
        .register_seal_batch_and_install(
            vec![Bytes::from_static(&[msg::NEWKEYS])],
            epoch(2),
            None,
        )
        .unwrap();
    assert!(matches!(
        session.pending_kex_install.as_ref().map(|p| &p.phase),
        Some(PendingKexPhase::NeedSubmit { .. })
    ));
    let w = session.writer.as_mut().unwrap();
    w.bulk.pop_front();
    w.bulk.pop_front();
    session.try_advance_pending_kex_install();
    assert!(session.pending_outbound.is_empty());
    assert!(matches!(
        session.pending_kex_install.as_ref().map(|p| &p.phase),
        Some(PendingKexPhase::WaitingAck)
    ));
    let bulk = &session.writer.as_ref().unwrap().bulk;
    assert!(matches!(&bulk[254], WriterCmd::SealPayload(p) if p.as_ref() == [msg::DEBUG]));
    assert!(matches!(bulk[255], WriterCmd::SealBatchAndInstallEpoch { .. }));
}

#[test]
fn closed_writer_ends_the_install_and_fails_the_flush() {
    let mut session = authenticated_session();
    let mut writer = WriterHandle::new();
    writer.closed = true;
    session.writer = Some(writer);
    session.register_seal_batch_and_install(vec![], epoch(2), None).unwrap();
    assert!(session.pending_kex_install.is_none());
    assert_eq!(session.pending_supervisor_cause, Some(DisconnectCause::PeerError));
    enc(&mut session).write.extend_from_slice(&[0, 0, 0, 1, 2]);
    assert_eq!(session.flush(), Err(Error::SendError));
}

#[test]
fn application_data_waits_for_the_key_exchange() {
    let mut session = authenticated_session();
    session.writer = Some(WriterHandle::new());
    session.kex = SessionKexState::InProgress;
    let e = enc(&mut session);
    e.write.extend_from_slice(&[0, 0, 0, 1, msg::IGNORE]);
    e.write.extend_from_slice(&[0, 0, 0, 2, msg::CHANNEL_DATA, 9]);
    e.write.extend_from_slice(&[0, 0, 0, 1, msg::IGNORE]);
    session.flush().unwrap();
    assert_eq!(session.writer.as_ref().unwrap().bulk.len(), 1);
    assert_eq!(enc(&mut session).write_cursor, 5);
    session.kex = SessionKexState::Idle;
    session.flush().unwrap();
    assert_eq!(session.writer.as_ref().unwrap().bulk.len(), 3);
    assert_eq!(enc(&mut session).write_cursor, 0);
    assert!(enc(&mut session).write.is_empty());
}

#[test]
fn wanted_rekey_begins_with_the_flush() {
    let mut session = authenticated_session();
    session.now = 1_000;
    enc(&mut session).kex.skip_exchange = false;
    enc(&mut session).rekey_wanted = true;
    session.writer = Some(WriterHandle::new());
    session.offer = Some(Bytes::from_static(&[msg::KEXINIT, 1]));
    session.flush().unwrap();
    assert_eq!(session.kex, SessionKexState::InProgress);
    assert_eq!(session.rekey_gen, 1);
    assert_eq!(session.rekey_deadline.deadline_at, Some(61_000));
    assert_eq!(session.active_rekey_gen(), Some(1));
    assert!(matches!(
        &session.writer.as_ref().unwrap().bulk[0],
        WriterCmd::SealPayload(p) if p.as_ref() == [msg::KEXINIT, 1]
    ));
    assert!(!enc(&mut session).rekey_wanted);
    session.clear_rekey_deadline();
    assert_eq!(session.rekey_deadline, RekeyDeadline::default());
    session.pending_kex_install = install(1, None, PendingKexPhase::WaitingAck);
    assert_eq!(session.begin_rekey(), Err(Error::Kex));
}

#[test]
fn old_keys_are_replaced_after_their_time() {
    let mut session = authenticated_session();
    enc(&mut session).kex.skip_exchange = false;
    session.writer = Some(WriterHandle::new());
    session.now = 3_599_999;
    session.flush().unwrap();
    assert_eq!(session.kex, SessionKexState::Idle);
    session.now = 3_600_000;
    session.offer = Some(Bytes::from_static(&[msg::KEXINIT]));
    session.flush().unwrap();
    assert_eq!(session.kex, SessionKexState::InProgress);
}

#[test]
fn weights_of_staged_packets() {
    assert_eq!(Session::enc_write_wire_weight(&[], 0), 0);
    assert_eq!(Session::enc_write_wire_weight(&[0, 0, 0, 1, 7], 0), 1 + 88);
    assert_eq!(Session::enc_write_wire_weight(&[0, 0, 0, 1, 7], 5), 0);
    assert_eq!(Session::enc_write_wire_weight(&[0, 0, 0, 9, 7], 0), 5);
    assert_eq!(Session::enc_write_wire_weight(&[0, 0, 0, 1, 7, 0, 0], 0), 1 + 88 + 2);
    assert_eq!(Session::enc_write_wire_weight(&[0, 0, 0, 1, 7], 9), 0);
}

#[test]
fn replies_are_refused_at_the_cap() {
    let mut session = authenticated_session();
    let hard = session.outbound_hard_cap();
    assert_eq!(hard, 128 * 1024 + 32_768 + 97);
    session.common.wants_reply = true;
    session.emit_global_request_reply(true, Some(22)).unwrap();
    assert!(!session.common.wants_reply);
    assert_eq!(
        enc(&mut session).write.as_ref(),
        [0, 0, 0, 5, msg::REQUEST_SUCCESS, 0, 0, 0, 22]
    );
    session.request_success();
    assert_eq!(enc(&mut session).write.len(), 9);
    session.request_failure();
    assert_eq!(packet_types(&enc(&mut session).write), vec![
        msg::REQUEST_SUCCESS,
        msg::REQUEST_FAILURE
    ]);

    session.pending_outbound.bytes = hard;
    session.common.wants_reply = true;
    session.request_success();
    assert_eq!(session.pending_supervisor_cause, Some(DisconnectCause::PeerError));
    assert!(session.common.wants_reply);
}

#[test]
fn channel_replies_follow_what_was_sent() {
    let mut session = authenticated_session();
    let id = insert_encrypted_channel(&mut session, 1024);
    confirm_test_channel(&mut session, id, 1024);
    enc(&mut session).channels.get_mut(&id.0).unwrap().wants_reply = true;
    session.channel_success(id).unwrap();
    session.channel_success(id).unwrap();
    assert_eq!(packet_types(&enc(&mut session).write), vec![msg::CHANNEL_SUCCESS]);
    enc(&mut session).channels.get_mut(&id.0).unwrap().wants_reply = true;
    session.channel_failure(id).unwrap();
    assert_eq!(
        packet_types(&enc(&mut session).write),
        vec![msg::CHANNEL_SUCCESS, msg::CHANNEL_FAILURE]
    );
    enc(&mut session).channels.get_mut(&id.0).unwrap().wants_reply = true;
    session.pending_outbound.bytes = session.outbound_hard_cap();
    session.channel_success(id).unwrap();
    assert_eq!(session.pending_supervisor_cause, Some(DisconnectCause::PeerError));
    assert!(!enc(&mut session).channels[&id.0].wants_reply);
}

#[test]
fn data_goes_round_and_new_channels_go_first() {
    let mut session = authenticated_session();
    session.writer = Some(WriterHandle::new());
    let a = insert_encrypted_channel(&mut session, 1 << 20);
    let b = insert_encrypted_channel(&mut session, 1 << 20);
    park_ready_channel(&mut session, a, 2048);
    park_ready_channel(&mut session, b, 2048);
    assert_eq!(session.ready_set(), vec![a.0, b.0]);
    enc(&mut session).channels.get_mut(&b.0).unwrap().boost_pending = true;
    session.try_drain_pending_data_under_budget().unwrap();
    let order: Vec<u32> = session
        .writer
        .as_ref()
        .unwrap()
        .bulk
        .iter()
        .map(|c| match c {
            WriterCmd::SealRaw(p) => BigEndian::read_u32(&p[1..5]),
            other => panic!("unexpected {other:?}"),
        })
        .collect();
    assert_eq!(order, vec![b.0, a.0, b.0, a.0]);
    assert_eq!(session.sched_since_boost, 2);
    assert!(session.ready_set().is_empty());
}

#[test]
fn data_is_refused_before_confirmation() {
    let mut session = authenticated_session();
    let id = insert_encrypted_channel(&mut session, 1024);
    assert_eq!(session.data(id, Bytes::from_static(b"x")), Err(Error::WrongChannel));
    confirm_test_channel(&mut session, id, 1024);
    session.data(id, Bytes::from_static(b"x")).unwrap();
    session.eof(id).unwrap();
    assert_eq!(session.common.packet_writer.buffer().seqn, 1);
    assert_eq!(packet_types(&enc(&mut session).write), vec![msg::CHANNEL_EOF]);
    assert_eq!(session.sender_window_size(id), 1024);
    assert_eq!(session.window_size(id), 1024);
    assert_eq!(session.max_packet_size(id), 32768);
    assert_eq!(session.writable_packet_size(id), 1024);
    assert!(!session.has_pending_data(id));
    assert_eq!(session.remote_sshid(), b"SSH-2.0-test");
    assert_eq!(session.config().maximum_packet_size, 32_768);
}

/// Lets the writer take what is queued, as far as it has room itself.
fn let_writer_take(session: &mut Session, task: &mut WriterTask) {
    let link = session.writer.as_mut().unwrap();
    while let Some(cmd) = task.pull(link) {
        task.handle_writer_cmd(link, cmd, &Vec::new()).unwrap();
    }
}

/// Writes all that the writer holds, and returns it.
fn let_writer_write(session: &mut Session, task: &mut WriterTask) -> Vec<u8> {
    let mut wire = Vec::new();
    let mut progress = AtomicWriteProgress::new();
    let link = session.writer.as_mut().unwrap();
    while let Some(segments) = task.next_write(link, true) {
        let mut total = 0;
        for s in &segments {
            wire.extend_from_slice(s);
            total += s.len();
        }
        task.note_written(link, &mut progress, total, 0).unwrap();
    }
    wire
}

fn with_writer() -> (Session, WriterTask) {
    let mut session = authenticated_session();
    session.writer = Some(WriterHandle::new());
    let task = WriterTask::new(PacketWriter::clear(), session.writer.as_mut().unwrap());
    (session, task)
}

fn install_epoch(generation: u64, reset_seqn: bool) -> OutboundEpoch {
    OutboundEpoch { activate_compress: true, reset_seqn, ..epoch(generation) }
}

fn phase(session: &Session) -> Option<&PendingKexPhase> {
    session.pending_kex_install.as_ref().map(|p| &p.phase)
}

#[test]
fn kex_direct_accept_after_control_fill_tracks_identity() {
    let mut session = authenticated_session();
    session.writer = Some(WriterHandle::with_hooks(WriterHooks {
        full_ledger: Some(FullLedger::new(0, 0, LedgerMaxSlot::new())),
        ..WriterHooks::default()
    }));
    let hard = session.outbound_hard_cap();
    let edge = hard.saturating_sub(50);
    let body = edge.saturating_sub(WIRE_OVERHEAD_PER_PACKET);
    let mut pkt = vec![0u8; 4 + body];
    BigEndian::write_u32(&mut pkt[..4], body as u32);
    pkt[4] = msg::IGNORE;
    enc(&mut session).write.extend_from_slice(&pkt);
    let at_edge = session.sealed_backlog_bytes();
    assert!(at_edge < hard, "fill under hard at_edge={at_edge} hard={hard}");
    let ledger = session.writer.as_ref().unwrap().full_ledger.as_ref().unwrap();
    assert_eq!(ledger.total(), at_edge);
    assert_eq!(ledger.slot.kex_peak(), 0, "no kex identity before register");

    let reply = vec![0u8; 2867];
    let newkeys = vec![msg::NEWKEYS];
    let kex_weight = reply.len() + newkeys.len() + 2 * WIRE_OVERHEAD_PER_PACKET;
    assert_eq!(kex_weight, 3044);
    session
        .register_seal_batch_and_install(
            vec![Bytes::from(reply), Bytes::from(newkeys)],
            install_epoch(11, false),
            None,
        )
        .expect("direct accept");

    let slot = session.writer.as_ref().unwrap().full_ledger.as_ref().unwrap().slot;
    let max = slot.max();
    let kex_peak = slot.kex_peak();
    let max_ex = slot.max_excluding_kex_need();
    assert_eq!(kex_peak, kex_weight);
    assert!(max > hard);
    assert!(max <= hard.saturating_add(kex_peak));
    assert!(max_ex <= hard);
}

#[test]
fn p0_seal_order_newkeys_before_post_kex_data_under_need_submit() {
    let (mut session, mut task) = with_writer();
    for _ in 0..BULK_QUEUE_CAP {
        session
            .writer
            .as_mut()
            .unwrap()
            .try_seal_payload(Bytes::from(vec![msg::IGNORE; 4]))
            .unwrap();
    }
    session.kex = SessionKexState::Taken;
    session.rekey_gen = 11;
    let cid = insert_encrypted_channel(&mut session, 65536);
    confirm_test_channel(&mut session, cid, 0);
    enc(&mut session).data(cid, Bytes::from_static(b"POSTKEX-MAGIC-DATA"), true).unwrap();
    assert!(enc(&mut session).has_pending_data(cid), "fixture: pending_data must exist");

    session.common.remote_to_local = CipherKey(0xA5);
    assert!(enc(&mut session).has_pending_data(cid));
    let write_len_before = enc(&mut session).write.len();
    session.flush().unwrap();
    assert!(enc(&mut session).has_pending_data(cid));
    assert_eq!(enc(&mut session).write.len(), write_len_before);

    session
        .register_seal_batch_and_install(
            vec![Bytes::from_static(&[msg::NEWKEYS])],
            install_epoch(11, true),
            Some(KexAfterInstall::RekeyComplete),
        )
        .unwrap();
    assert!(matches!(phase(&session), Some(PendingKexPhase::NeedSubmit { .. })));
    assert!(session.pending_outbound.is_empty());

    let_writer_take(&mut session, &mut task);
    session.try_advance_pending_kex_install();
    assert!(matches!(
        phase(&session),
        Some(PendingKexPhase::WaitingAck | PendingKexPhase::InstallAcked)
    ));
    assert!(enc(&mut session).has_pending_data(cid));

    let mut wire = Vec::new();
    let mut got_ack = false;
    for _ in 0..64 {
        wire.extend(let_writer_write(&mut session, &mut task));
        let_writer_take(&mut session, &mut task);
        for event in std::mem::take(&mut task.events) {
            if let WriterEvent::InstallAckOutbound { generation } = event {
                got_ack = got_ack || generation == 11;
                if let Some(after) = session.on_install_ack_outbound(generation) {
                    enc(&mut session)
                        .channels
                        .get_mut(&cid.0)
                        .unwrap()
                        .recipient_window_size = 65536;
                    session.apply_kex_after_install(after);
                }
            }
        }
        session.retry_pending_outbound().unwrap();
        session.flush().unwrap();
    }
    assert!(got_ack, "must observe InstallAck for gen 11");
    assert_eq!(session.kex, SessionKexState::Idle);
    assert!(!enc(&mut session).has_pending_data(cid), "RekeyComplete must flush_all_pending");
    wire.extend(let_writer_write(&mut session, &mut task));
    let nk_pos = wire.iter().position(|&b| b == msg::NEWKEYS).unwrap();
    let data_pos = wire
        .windows(b"POSTKEX-MAGIC-DATA".len())
        .position(|w| w == b"POSTKEX-MAGIC-DATA")
        .unwrap();
    assert!(nk_pos < data_pos);
}

#[test]
fn p0_ack_fail_does_not_flush_pending_or_idle() {
    let (mut session, _task) = with_writer();
    session.kex = SessionKexState::Taken;
    session.rekey_gen = 3;
    let cid = insert_encrypted_channel(&mut session, 65536);
    confirm_test_channel(&mut session, cid, 0);
    enc(&mut session).data(cid, Bytes::from_static(b"no-flush-on-fail"), true).unwrap();
    session.pending_kex_install =
        install(3, Some(KexAfterInstall::RekeyComplete), PendingKexPhase::WaitingAck);
    session.writer.as_mut().unwrap().closed = true;
    session.fail_pending_kex_install();
    assert_eq!(session.kex, SessionKexState::Taken, "fail must not Idle");
    assert!(enc(&mut session).has_pending_data(cid), "ACK-fail must not flush_all_pending");
    assert_eq!(session.pending_supervisor_cause, Some(DisconnectCause::PeerError));
}

/// A session whose writer refused an install for want of room.
fn with_refused_install() -> (Session, WriterTask) {
    let (mut session, task) = with_writer();
    let writer = session.writer.as_mut().unwrap();
    for _ in 0..BULK_QUEUE_CAP {
        writer.try_seal_payload(Bytes::from(vec![0x2u8; 8])).expect("pre-yield fill");
    }
    let refused = writer.try_seal_batch_and_install(
        vec![Bytes::from_static(&[msg::NEWKEYS])],
        install_epoch(42, true),
    );
    let Err(TrySendEpochError::Full { payloads, epoch }) = refused else {
        panic!("must observe real Full");
    };
    session.kex = SessionKexState::Taken;
    session.rekey_gen = 42;
    session.pending_kex_install = install(
        epoch.generation,
        Some(KexAfterInstall::RekeyComplete),
        PendingKexPhase::NeedSubmit { payloads, epoch },
    );
    (session, task)
}

#[test]
fn r2_write_stalled_first_cause_while_need_submit_with_writer() {
    let (mut session, _task) = with_refused_install();
    session.rekey_deadline.register(42, 30_000, 0);
    let mut wd = WriteWatchdog::new();
    let mut slot = DisconnectCauseSlot::new();
    for now in (0..2_000).step_by(5) {
        assert_ne!(session.kex, SessionKexState::Idle);
        assert!(session.pending_kex_install.is_some());
        assert!(session.rekey_deadline.generation.is_some());
        let eligible = session.sealed_backlog_bytes() as u64;
        assert!(eligible > 0, "NeedSubmit must keep eligible backlog");
        wd.observe_eligible(eligible, now);
        if let Some(c) = wd.poll_timeout(40, None, now) {
            slot.record(c);
            break;
        }
    }
    assert_eq!(slot.get(), Some(DisconnectCause::WriteStalled));
    assert_ne!(session.kex, SessionKexState::Idle);
    assert!(session.pending_kex_install.is_some());
}

#[test]
fn r3_need_submit_advances_after_dequeue_without_socket_write() {
    let (mut session, mut task) = with_refused_install();
    session.writer.as_mut().unwrap().capacity = false;
    let_writer_take(&mut session, &mut task);
    assert!(session.writer.as_ref().unwrap().capacity, "dequeue must notify");
    session.retry_pending_outbound().unwrap();
    session.try_advance_pending_kex_install();
    assert!(matches!(
        phase(&session),
        Some(PendingKexPhase::WaitingAck | PendingKexPhase::InstallAcked)
    ));
    assert!(session.writer.as_ref().unwrap().pending_bytes() > 0, "socket never progressed");
}

#[test]
fn r4_hwm_tiny_max_packet_gatewrite_samples() {
    let (mut session, mut task) = with_writer();
    let cid = insert_encrypted_channel(&mut session, 1 << 20);
    let ch = enc(&mut session).channels.get_mut(&cid.0).unwrap();
    ch.confirmed = true;
    ch.recipient_window_size = 1 << 20;
    ch.recipient_maximum_packet_size = 16;
    let mut max_backlog = 0;
    let chunk = vec![0xABu8; 64 * 1024];
    for _ in 0..8 {
        session.data(cid, Bytes::from(chunk.clone())).unwrap();
        max_backlog = max_backlog.max(session.sealed_backlog_bytes());
        session.flush().unwrap();
        max_backlog = max_backlog.max(session.sealed_backlog_bytes());
        let_writer_take(&mut session, &mut task);
        max_backlog = max_backlog.max(session.sealed_backlog_bytes());
    }
    let one_pkt = Session::packet_reservation(CHANNEL_DATA_FRAMING);
    assert!(max_backlog <= OUTBOUND_HIGH_WATERMARK + one_pkt + 16);
}

#[test]
fn r4_hwm_long_channel_open_gatewrite_samples() {
    let (mut session, mut task) = with_writer();
    let mut max_backlog = 0;
    let long_host = "x".repeat(32 * 1024);
    for _ in 0..4 {
        let _ = session.channel_open_direct_tcpip(&long_host, 22, "127.0.0.1", 1234);
        max_backlog = max_backlog.max(session.sealed_backlog_bytes());
        session.flush().unwrap();
        max_backlog = max_backlog.max(session.sealed_backlog_bytes());
        let_writer_take(&mut session, &mut task);
        max_backlog = max_backlog.max(session.sealed_backlog_bytes());
    }
    let one_pkt = Session::packet_reservation(CHANNEL_DATA_FRAMING);
    let open_one = (32 * 1024) + WIRE_OVERHEAD_PER_PACKET + 64;
    assert!(max_backlog <= OUTBOUND_HIGH_WATERMARK + open_one.max(one_pkt));
}

#[test]
fn r4_hwm_kex_full_need_submit_samples() {
    let (mut session, _task) = with_writer();
    for _ in 0..BULK_QUEUE_CAP {
        session
            .writer
            .as_mut()
            .unwrap()
            .try_seal_payload(Bytes::from(vec![1u8; 32]))
            .unwrap();
    }
    session.kex = SessionKexState::Taken;
    let mut max_backlog = session.sealed_backlog_bytes();
    session
        .register_seal_batch_and_install(
            vec![Bytes::from(vec![msg::NEWKEYS; 1]), Bytes::from(vec![0u8; 1024])],
            install_epoch(9, false),
            Some(KexAfterInstall::RekeyComplete),
        )
        .unwrap();
    max_backlog = max_backlog.max(session.sealed_backlog_bytes());
    assert!(matches!(phase(&session), Some(PendingKexPhase::NeedSubmit { .. })));
    assert!(session.sealed_backlog_bytes() >= 1025 + WIRE_OVERHEAD_PER_PACKET);
    assert!(max_backlog <= OUTBOUND_HIGH_WATERMARK + 4096);
}

#[test]
fn r5_rekey_success_session_writer() {
    let (mut session, mut task) = with_writer();
    session.kex = SessionKexState::Taken;
    session.rekey_gen = 5;
    let cid = insert_encrypted_channel(&mut session, 65536);
    confirm_test_channel(&mut session, cid, 0);
    enc(&mut session).data(cid, Bytes::from_static(b"after"), true).unwrap();
    session
        .register_seal_batch_and_install(
            vec![Bytes::from_static(&[msg::NEWKEYS])],
            install_epoch(5, true),
            Some(KexAfterInstall::RekeyComplete),
        )
        .unwrap();
    let_writer_take(&mut session, &mut task);
    assert_eq!(task.events, vec![WriterEvent::InstallAckOutbound { generation: 5 }]);
    enc(&mut session).channels.get_mut(&cid.0).unwrap().recipient_window_size = 65536;
    let after = session.on_install_ack_outbound(5).expect("dual-condition ready");
    session.apply_kex_after_install(after);
    assert_eq!(session.kex, SessionKexState::Idle);
    assert!(session.pending_kex_install.is_none());
    assert!(!enc(&mut session).has_pending_data(cid));
}

#[test]
fn r5_rekey_ack_fail_session_writer() {
    let (mut session, _task) = with_writer();
    session.kex = SessionKexState::Taken;
    session.rekey_gen = 8;
    session.rekey_deadline.register(8, 30_000, 0);
    let cid = insert_encrypted_channel(&mut session, 65536);
    confirm_test_channel(&mut session, cid, 0);
    enc(&mut session).data(cid, Bytes::from_static(b"hold"), true).unwrap();
    session.pending_kex_install =
        install(8, Some(KexAfterInstall::RekeyComplete), PendingKexPhase::WaitingAck);
    session.writer.as_mut().unwrap().closed = true;
    session.fail_pending_kex_install();
    assert_eq!(session.kex, SessionKexState::Taken);
    assert!(session.rekey_deadline.generation.is_some());
    assert!(enc(&mut session).has_pending_data(cid), "no completion flush on fail");
    assert!(session.pending_reads.is_empty());
    assert_eq!(session.pending_supervisor_cause, Some(DisconnectCause::PeerError));
}

#[test]
fn r5_initial_success_session_writer() {
    let (mut session, mut task) = with_writer();
    session.kex = SessionKexState::Taken;
    session
        .register_seal_batch_and_install(
            vec![Bytes::from_static(&[msg::NEWKEYS])],
            install_epoch(0, true),
            Some(KexAfterInstall::InitialComplete),
        )
        .unwrap();
    let_writer_take(&mut session, &mut task);
    assert_eq!(task.events, vec![WriterEvent::InstallAckOutbound { generation: 0 }]);
    let after = session.on_install_ack_outbound(0).expect("ready");
    session.apply_kex_after_install(after);
    assert_eq!(session.kex, SessionKexState::Idle);
    assert!(session.common.encrypted.is_some());
}

#[test]
fn r5_initial_ack_fail_session_writer() {
    let (mut session, _task) = with_writer();
    session.kex = SessionKexState::Taken;
    session.pending_kex_install =
        install(0, Some(KexAfterInstall::InitialComplete), PendingKexPhase::WaitingAck);
    session.writer.as_mut().unwrap().closed = true;
    session.fail_pending_kex_install();
    assert_eq!(session.kex, SessionKexState::Taken);
    assert!(session.pending_supervisor_cause.is_some());
}

fn str_field(s: &str) -> Vec<u8> {
    let mut v = (s.len() as u32).to_be_bytes().to_vec();
    v.extend_from_slice(s.as_bytes());
    v
}

fn framed(parts: &[&[u8]]) -> Vec<u8> {
    let body: Vec<u8> = parts.concat();
    let mut v = (body.len() as u32).to_be_bytes().to_vec();
    v.extend(body);
    v
}

#[test]
fn global_requests_as_sent() {
    let mut session = authenticated_session();
    session.keepalive_request().unwrap();
    session.send_ping(4).unwrap();
    session.tcpip_forward("h", 80, Some(5)).unwrap();
    session.cancel_tcpip_forward("h", 80, None).unwrap();
    let alive = framed(&[
        &[msg::GLOBAL_REQUEST],
        &str_field("keepalive@openssh.com"),
        &[1],
    ]);
    let want = [
        alive.clone(),
        alive,
        framed(&[&[msg::GLOBAL_REQUEST], &str_field("tcpip-forward"), &[1], &str_field("h"), &[
            0, 0, 0, 80,
        ]]),
        framed(&[
            &[msg::GLOBAL_REQUEST],
            &str_field("cancel-tcpip-forward"),
            &[0],
            &str_field("h"),
            &[0, 0, 0, 80],
        ]),
    ]
    .concat();
    assert_eq!(enc(&mut session).write.as_ref(), want.as_slice());
    assert_eq!(session.open_global_requests, [
        GlobalRequestResponse::Keepalive,
        GlobalRequestResponse::Ping(4),
        GlobalRequestResponse::TcpIpForward(5),
    ]);
}

#[test]
fn channels_are_asked_for_as_sent() {
    let mut session = authenticated_session();
    let head = |kind: &str, id: u32| -> Vec<u8> {
        [
            vec![msg::CHANNEL_OPEN],
            str_field(kind),
            id.to_be_bytes().to_vec(),
            2_097_152u32.to_be_bytes().to_vec(),
            32_768u32.to_be_bytes().to_vec(),
        ]
        .concat()
    };
    let port = 7u32.to_be_bytes();
    assert_eq!(session.channel_open_session(), Ok(ChannelId(1)));
    assert_eq!(session.channel_open_agent(), Ok(ChannelId(2)));
    assert_eq!(session.channel_open_direct_tcpip("a", 7, "b", 7), Ok(ChannelId(3)));
    assert_eq!(session.channel_open_direct_streamlocal("/s"), Ok(ChannelId(4)));
    assert_eq!(session.channel_open_forwarded_tcpip("a", 7, "b", 7), Ok(ChannelId(5)));
    assert_eq!(session.channel_open_forwarded_streamlocal("/s"), Ok(ChannelId(6)));
    assert_eq!(session.channel_open_x11("b", 7), Ok(ChannelId(7)));
    let want = [
        framed(&[&head("session", 1)]),
        framed(&[&head("auth-agent@openssh.com", 2)]),
        framed(&[&head("direct-tcpip", 3), &str_field("a"), &port, &str_field("b"), &port]),
        framed(&[
            &head("direct-streamlocal@openssh.com", 4),
            &str_field("/s"),
            &str_field(""),
            &[0, 0, 0, 0],
        ]),
        framed(&[&head("forwarded-tcpip", 5), &str_field("a"), &port, &str_field("b"), &port]),
        framed(&[
            &head("forwarded-streamlocal@openssh.com", 6),
            &str_field("/s"),
            &str_field(""),
        ]),
        framed(&[&head("x11", 7), &str_field("b"), &port]),
    ]
    .concat();
    assert_eq!(enc(&mut session).write.as_ref(), want.as_slice());
    let mut bare = authenticated_session();
    bare.common.encrypted = None;
    assert_eq!(bare.channel_open_session(), Err(Error::Inconsistent));
    assert_eq!(bare.keepalive_request(), Ok(()));
}

#[test]
fn channel_requests_as_sent() {
    let mut session = authenticated_session();
    let id = insert_encrypted_channel(&mut session, 1024);
    enc(&mut session).channels.get_mut(&id.0).unwrap().confirm(&ChannelOpenConfirmation {
        recipient_channel: 0,
        sender_channel: 9,
        initial_window_size: 1024,
        maximum_packet_size: 1024,
    });
    session.xon_xoff_request(id, true).unwrap();
    session.exit_status_request(id, 300).unwrap();
    session.exit_signal_request(id, "KILL", true, "m", "en").unwrap();
    let head: &[u8] = &[msg::CHANNEL_REQUEST, 0, 0, 0, 9];
    let want = [
        framed(&[head, &str_field("xon-xoff"), &[0, 1]]),
        framed(&[head, &str_field("exit-status"), &[0, 0, 0, 1, 44]]),
        framed(&[
            head,
            &str_field("exit-signal"),
            &[0],
            &str_field("KILL"),
            &[1],
            &str_field("m"),
            &str_field("en"),
        ]),
    ]
    .concat();
    assert_eq!(enc(&mut session).write.as_ref(), want.as_slice());
}

#[test]
fn disconnect_is_sent_once_and_debug_as_often_as_asked() {
    let mut session = authenticated_session();
    session.debug(true, "d", "").unwrap();
    session.disconnect(11, "bye", "en").unwrap();
    session.disconnect(2, "again", "en").unwrap();
    let want = [
        framed(&[&[msg::DEBUG, 1], &str_field("d"), &str_field("")]),
        framed(&[&[msg::DISCONNECT, 0, 0, 0, 11], &str_field("bye"), &str_field("en")]),
    ]
    .concat();
    assert!(session.common.disconnected);
    assert_eq!(enc(&mut session).write.as_ref(), want.as_slice());
}

/// A KEXINIT with the given list of key exchange names.
fn kexinit(names: &str) -> Vec<u8> {
    [vec![msg::KEXINIT], vec![7; 16], str_field(names)].concat()
}

#[test]
fn extensions_are_offered_to_clients_that_ask() {
    let asked = |names: &str| -> Vec<u8> {
        let mut session = authenticated_session();
        session.server_sig_algs = vec![b"ssh-ed25519".to_vec(), b"rsa-sha2-512".to_vec()];
        let mut exchange = Exchange::new(b"c", b"s");
        exchange.client_kex_init = Bytes::from(kexinit(names));
        enc(&mut session).exchange = Some(exchange);
        session.maybe_send_ext_info().unwrap();
        enc(&mut session).write.to_vec()
    };
    let want = framed(&[
        &[msg::EXT_INFO, 0, 0, 0, 1],
        &str_field("server-sig-algs"),
        &str_field("ssh-ed25519,rsa-sha2-512"),
    ]);
    assert_eq!(asked("curve25519-sha256,ext-info-c"), want);
    assert_eq!(asked("ext-info-c"), want);
    assert!(asked("curve25519-sha256,ext-info-cc").is_empty());
    assert!(asked("").is_empty());
}

#[test]
fn names_in_lists() {
    assert!(holds_name(b"a,bb,c", b"bb"));
    assert!(!holds_name(b"a,bb,c", b"b"));
    assert!(!holds_name(b"abb", b"bb"));
    assert_eq!(join_names(&vec![b"a".to_vec(), b"b".to_vec()]), b"a,b");
    assert_eq!(join_names(&Vec::new()), b"");
}

#[test]
fn decided_channels_are_confirmed_or_refused() {
    let mut session = authenticated_session();
    session.reader = Some(ReaderHandle::new());
    let id = enc(&mut session).new_channel_id();
    let pending = |sender_channel: ChannelId| {
        let mut scratch = authenticated_session();
        let made = insert_encrypted_channel(&mut scratch, 100);
        confirm_test_channel(&mut scratch, made, 70);
        let mut channel_params: ChannelParams = enc(&mut scratch).channels.remove(&made.0).unwrap();
        channel_params.recipient_channel = 6;
        channel_params.sender_channel = sender_channel;
        PendingChannelOpen {
            recipient_channel: 6,
            sender_channel,
            window_size: 100,
            packet_size: 50,
            channel_params,
            channel_ref: ChannelRef { handle: 3, reader_gone: false },
        }
    };
    session.finalize_channel_open_reply(pending(id), Ok(())).unwrap();
    assert!(session.channels.contains_key(&id.0));
    assert!(enc(&mut session).channel_exists(id));
    session
        .finalize_channel_open_reply(
            pending(ChannelId(40)),
            Err(Refusal {
                reason: ChannelOpenFailure::ConnectFailed,
                description: String::from("no"),
            }),
        )
        .unwrap();
    assert!(!enc(&mut session).channel_exists(ChannelId(40)));
    assert_eq!(packet_types(&enc(&mut session).write), vec![
        msg::CHANNEL_OPEN_CONFIRMATION,
        msg::CHANNEL_OPEN_FAILURE
    ]);
    let reply = ChannelOpenReply { pending: pending(ChannelId(41)), result: Ok(()) };
    session.open_replies.push_back(reply);
    session.drain_open_replies().unwrap();
    assert!(session.open_replies.is_empty());
    assert!(session.channels.contains_key(&41));
}

#[test]
fn application_messages_reach_the_session() {
    let mut session = authenticated_session();
    let channel_ref = ChannelRef { handle: 1, reader_gone: false };
    let open = Msg::ChannelOpenSession { channel_ref };
    assert!(session.can_take(&open));
    session.dispatch_msg(open).unwrap();
    let id = ChannelId(1);
    assert_eq!(session.channels[&1], channel_ref);
    assert!(!session.can_take(&Msg::Channel(id, ChannelMsg::Success)));
    confirm_test_channel(&mut session, id, 3);
    session
        .dispatch_msg(Msg::ChannelDataAcked {
            id,
            ext: None,
            data: Bytes::from_static(b"abcd"),
            ack: 70,
        })
        .unwrap();
    assert_eq!(session.outbound_acks[&1], [70]);
    session
        .dispatch_msg(Msg::ChannelDataAcked {
            id: ChannelId(8),
            ext: None,
            data: Bytes::new(),
            ack: 71,
        })
        .unwrap();
    assert_eq!(session.released, vec![(71, false)]);
    session.dispatch_msg(Msg::Channel(id, ChannelMsg::Eof)).unwrap();
    session.dispatch_msg(Msg::Channel(id, ChannelMsg::WindowAdjusted { new_size: 1 })).unwrap();
    session
        .dispatch_msg(Msg::Disconnect {
            reason: 11,
            description: String::new(),
            language_tag: String::new(),
        })
        .unwrap();
    assert!(session.common.disconnected);
}

#[test]
fn facade_commands_are_bounded_and_answered() {
    let mut none: Option<Facade> = None;
    assert_eq!(push_facade(&mut none, FacadeCmd::Flush), Err(Error::SendError));
    let mut facade = Some(Facade::new(1));
    assert_eq!(push_facade(&mut facade, FacadeCmd::Keepalive), Ok(0));
    assert_eq!(push_facade(&mut facade, FacadeCmd::Flush), Err(Error::SendError));
    let (ticket, cmd) = facade.as_mut().unwrap().queue.pop_front().unwrap();
    assert_eq!(ticket, 0);

    let mut session = authenticated_session();
    assert_eq!(facade_ok(Some(session.apply_facade(cmd))), Ok(()));
    assert_eq!(session.open_global_requests, [GlobalRequestResponse::Keepalive]);
    let reply = session.apply_facade(FacadeCmd::ChannelOpenSession);
    let id = facade_opened(Some(reply)).unwrap();
    assert_eq!(
        size_or_zero(Some(session.apply_facade(FacadeCmd::WindowSize { channel: id }))),
        2_097_152
    );
    assert_eq!(
        size_or_zero(Some(session.apply_facade(FacadeCmd::WritablePacketSize { channel: id }))),
        32_768
    );
    assert_eq!(
        length_or_zero(Some(session.apply_facade(FacadeCmd::SenderWindowSize { channel: id }))),
        2_097_152
    );
    assert!(!flag_or_false(Some(
        session.apply_facade(FacadeCmd::HasPendingData { channel: id })
    )));
    assert_eq!(
        facade_count(Some(session.apply_facade(FacadeCmd::FlushPending { channel: id }))),
        Ok(0)
    );
    assert_eq!(size_or_zero(None), 0);
    assert_eq!(length_or_zero(None), 0);
    assert!(!flag_or_false(None));
    assert_eq!(facade_ok(None), Err(Error::SendError));
    assert_eq!(facade_count(None), Err(Error::SendError));
    assert_eq!(facade_opened(None), Err(Error::SendError));
}

fn supervisor() -> Supervisor {
    Supervisor::new(1_000, WriteProgress::new())
}

#[test]
fn slow_authentication_ends_the_session() {
    let mut session = authenticated_session();
    enc(&mut session).state =
        EncryptedState::WaitingAuthServiceRequest { sent: true, accepted: false };
    let mut sup = supervisor();
    assert_eq!(session.begin_turn(&mut sup, 999), RoundStep::Go);
    assert_eq!(session.supervisor_sleep(&sup), 1);
    assert_eq!(session.begin_turn(&mut sup, 1_000), RoundStep::Leave);
    assert_eq!(session.run_outcome(&sup), Err(Error::HandshakeTimeout));

    let mut quick = authenticated_session();
    let mut sup = supervisor();
    assert_eq!(quick.begin_turn(&mut sup, 2_000), RoundStep::Go);
    assert!(sup.handshake_done);
    assert_eq!(quick.supervisor_sleep(&sup), LONGEST_SLEEP);
}

#[test]
fn stalled_writes_and_late_keys_end_the_session() {
    let mut session = authenticated_session();
    let mut sup = supervisor();
    enc(&mut session).write.extend_from_slice(&[0, 0, 0, 1, msg::IGNORE]);
    assert_eq!(session.begin_turn(&mut sup, 0), RoundStep::Go);
    assert_eq!(session.check_deadlines(&mut sup, WriteProgress::new()), RoundStep::Go);
    assert_eq!(session.supervisor_sleep(&sup), 30_000);
    session.now = 30_000;
    assert_eq!(session.check_deadlines(&mut sup, WriteProgress::new()), RoundStep::Leave);
    assert_eq!(session.run_outcome(&sup), Err(Error::WriteStalled));

    let mut late = authenticated_session();
    let mut sup = supervisor();
    late.kex = SessionKexState::InProgress;
    late.rekey_gen = 4;
    late.rekey_deadline.register(4, 100, 0);
    assert_eq!(late.begin_turn(&mut sup, 99), RoundStep::Go);
    assert_eq!(late.check_deadlines(&mut sup, WriteProgress::new()), RoundStep::Go);
    late.now = 100;
    assert_eq!(late.check_deadlines(&mut sup, WriteProgress::new()), RoundStep::Leave);
    assert_eq!(late.run_outcome(&sup), Err(Error::RekeyTimeout(4)));
}

#[test]
fn messages_are_taken_in_batches_below_the_watermark() {
    let mut session = authenticated_session();
    assert!(session.can_receive_outbound());
    assert!(session.may_dispatch(63));
    assert!(!session.may_dispatch(64));
    session.kex = SessionKexState::InProgress;
    assert!(!session.can_receive_outbound());
    session.kex = SessionKexState::Idle;
    session.pending_outbound.bytes = OUTBOUND_HIGH_WATERMARK;
    assert!(!session.can_receive_outbound());
    assert!(!session.may_dispatch(0));
}

#[test]
fn reports_of_the_tasks() {
    let mut session = authenticated_session();
    let mut sup = supervisor();
    session.pending_kex_install =
        install(3, Some(KexAfterInstall::RekeyComplete), PendingKexPhase::WaitingAck);
    session.kex = SessionKexState::Taken;
    assert!(session
        .on_writer_event(&mut sup, Some(WriterEvent::InstallAckOutbound { generation: 3 })));
    assert_eq!(session.kex, SessionKexState::Idle);
    session.after_replay(&mut sup, true);
    assert!(!session.common.disconnected);
    assert!(!session.on_reader_event(&mut sup, Some(ReaderEvent::Eof)));
    assert!(session.common.disconnected);
    assert_eq!(sup.cause, None);
    assert!(!session.on_reader_event(&mut sup, Some(ReaderEvent::CtrlFull)));
    assert_eq!(sup.cause, Some(DisconnectCause::PeerError));
    assert!(!session
        .on_writer_event(&mut sup, Some(WriterEvent::WriteError(WriteErrorKind::WriteZero))));
    assert_eq!(session.run_outcome(&sup), Ok(()));
}

#[test]
fn unanswered_pings_end_the_session() {
    let mut session = authenticated_session();
    for _ in 0..3 {
        session.on_keepalive().unwrap();
    }
    assert_eq!(session.on_keepalive(), Err(Error::KeepaliveTimeout));
    session.common.received_data = true;
    let resets = session.end_turn(false);
    assert_eq!(resets, TimerResets { keepalive: true, inactivity: true });
    assert_eq!(session.common.alive_timeouts, 0);
    session.common.received_data = false;
    assert_eq!(session.end_turn(true), TimerResets { keepalive: true, inactivity: false });
    session.config.keepalive_max = 0;
    session.common.alive_timeouts = 1_000;
    session.on_keepalive().unwrap();
}

#[test]
fn failed_pushes_end_the_session() {
    let (mut session, _task) = with_writer();
    let mut sup = supervisor();
    assert_eq!(session.push_outbound(&mut sup), RoundStep::Go);
    enc(&mut session).write.extend_from_slice(&[0, 0, 0, 1, msg::IGNORE]);
    session.writer.as_mut().unwrap().closed = true;
    assert_eq!(session.push_outbound(&mut sup), RoundStep::Again);
    assert_eq!(sup.cause, Some(DisconnectCause::PeerError));
    assert!(session.common.disconnected);
    enc(&mut session).write.extend_from_slice(&[0, 0, 0, 1, msg::IGNORE]);
    assert!(!session.flush_turn(&mut sup));
    session.stage_cause(DisconnectCause::RekeyTimeout);
    assert_eq!(session.try_install(&mut sup), RoundStep::Again);
    assert_eq!(sup.cause, Some(DisconnectCause::PeerError));
}

#[test]
fn held_installs_and_injected_packets() {
    let mut hold = InstallAckHoldGate::new_held();
    assert!(hold.is_held());
    hold.release();
    assert!(!hold.is_held());
    hold.hold_again();
    assert!(hold.is_held());
    let mut inject = InjectIgnoreGate::new();
    assert!(!inject.take_requested());
    inject.request();
    assert!(inject.take_requested());
    assert!(!inject.take_requested());
    assert!(!inject.is_done());
    inject.mark_done();
    assert!(inject.is_done());
}

#[test]
fn state_is_shown_to_observers() {
    let mut session = authenticated_session();
    session.kex = SessionKexState::Taken;
    session.pending_kex_install =
        install(3, Some(KexAfterInstall::RekeyComplete), PendingKexPhase::WaitingAck);
    let mut slot = KexInstallObserveSlot::new();
    session.publish_kex_observe(&mut slot);
    assert_eq!((slot.phase(), slot.non_idle(), slot.after_known()), (2, true, true));
    let mut replies = ReplyQueueSlot::new();
    session.publish_reply_queue(&mut replies);
    assert_eq!((replies.current(), replies.max()), (0, 0));

    enc(&mut session).write.extend_from_slice(&[
        0, 0, 0, 5, msg::CHANNEL_EOF, 0, 0, 0, 7, 0, 0, 0, 1, msg::IGNORE,
    ]);
    let mut log = OutboundOrderSlot::new();
    assert_eq!(session.record_outbound_from_write(&mut log, 0), 14);
    assert_eq!(log.types_for(7), vec![msg::CHANNEL_EOF]);
}

#[test]
fn waits_for_a_channel_end() {
    assert_eq!(opening_step(Some(OpeningMsg::Other)), None);
    assert_eq!(opening_step(None), Some(Err(Error::Disconnect)));
    assert_eq!(
        opening_step(Some(OpeningMsg::OpenFailure(ChannelOpenFailure::ResourceShortage))),
        Some(Err(Error::ChannelOpenFailure(ChannelOpenFailure::ResourceShortage)))
    );
    let open = OpeningMsg::Open { id: ChannelId(2), max_packet_size: 9, window_size: 8 };
    assert_eq!(
        opening_step(Some(open)),
        Some(Ok(OpenedChannel { id: ChannelId(2), max_packet_size: 9, window_size: 8 }))
    );
}

#[test]
fn payloads_are_submitted_in_order() {
    let (mut session, _task) = with_writer();
    session
        .seal_payloads(vec![
            Bytes::from_static(&[msg::IGNORE]),
            Bytes::new(),
            Bytes::from_static(&[msg::DEBUG]),
        ])
        .unwrap();
    let bulk = &session.writer.as_ref().unwrap().bulk;
    assert_eq!(bulk.len(), 2);
    assert!(matches!(&bulk[0], WriterCmd::SealPayload(p) if p.as_ref() == [msg::IGNORE]));
    assert!(matches!(&bulk[1], WriterCmd::SealPayload(p) if p.as_ref() == [msg::DEBUG]));
    assert!(!session.outbound_blocks_inbound_read());
}

#[test]
fn refused_control_items_stay_queued() {
    let mut session = authenticated_session();
    let id = insert_encrypted_channel(&mut session, 1024);
    confirm_test_channel(&mut session, id, 1024);
    let e = enc(&mut session);
    e.data(id, Bytes::from_static(b"ab"), true).unwrap();
    e.channels.get_mut(&id.0).unwrap().enqueue_ctrl(ChannelCtrlItem::Eof);
    let wrote = e
        .flush_pending_admitted(id, |i: &ChannelCtrlItem| !matches!(i, ChannelCtrlItem::Eof), true)
        .unwrap();
    assert_eq!(wrote, 2);
    assert_eq!(packet_types(&e.write), vec![msg::CHANNEL_DATA]);
    assert_eq!(e.flush_pending_admitted(id, |_: &ChannelCtrlItem| true, true), Ok(0));
    assert_eq!(packet_types(&e.write), vec![msg::CHANNEL_DATA, msg::CHANNEL_EOF]);
}

#[test]
fn adjusts_end_with_our_close() {
    let mut session = authenticated_session();
    let id = insert_encrypted_channel(&mut session, 10);
    confirm_test_channel(&mut session, id, 1024);
    let e = enc(&mut session);
    assert_eq!(e.emit_window_adjust(id, 90, 100), Ok(true));
    assert_eq!(e.sender_window_size(id), 100);
    assert_eq!(&e.write[4..13], &[msg::CHANNEL_WINDOW_ADJUST, 0, 0, 0, 0, 0, 0, 0, 90]);
    e.channels.get_mut(&id.0).unwrap().outbound_closed = true;
    assert_eq!(e.emit_window_adjust(id, 90, 190), Ok(false));
    assert_eq!(e.emit_window_adjust(ChannelId(77), 90, 190), Ok(false));
}

#[test]
fn every_lane_can_go_straight_to_the_wire() {
    let mut session = authenticated_session();
    let a = insert_encrypted_channel(&mut session, 1024);
    let b = insert_encrypted_channel(&mut session, 1024);
    for id in [a, b] {
        confirm_test_channel(&mut session, id, 1024);
        enc(&mut session).data(id, Bytes::from_static(b"xyz"), true).unwrap();
    }
    let mut writer = PacketWriter::clear();
    enc(&mut session).flush_all_pending_with_writer(&mut writer).unwrap();
    assert_eq!(writer.buffer().seqn, 2);
    assert!(enc(&mut session).write.is_empty());
    assert!(!enc(&mut session).has_pending_data(a) && !enc(&mut session).has_pending_data(b));
}

#[test]
fn emits_are_shown_with_the_peers_number() {
    let mut session = authenticated_session();
    let id = insert_encrypted_channel(&mut session, 1024);
    park_ready_channel(&mut session, id, 5);
    enc(&mut session).channels.get_mut(&id.0).unwrap().recipient_channel = 33;
    let mut slot = SchedSlot::new();
    session.note_sched_emit(&mut slot, id, true);
    session.note_sched_emit(&mut slot, ChannelId(99), false);
    assert_eq!(slot.emits(), vec![(33, true, 1), (99, false, 1)]);
}

#[test]
fn new_numbers_are_free_and_lanes_apart() {
    let mut session = authenticated_session();
    let a = insert_encrypted_channel(&mut session, 1024);
    enc(&mut session).last_channel_id = u32::MAX;
    let b = insert_encrypted_channel(&mut session, 1024);
    let c = insert_encrypted_channel(&mut session, 1024);
    assert!(a != b && b != c && a != c);
    confirm_test_channel(&mut session, a, 1024);
    confirm_test_channel(&mut session, b, 1024);
    enc(&mut session).data(b, Bytes::from_static(b"keep"), true).unwrap();
    let before = enc(&mut session).channels[&b.0].queued_data_bytes();
    enc(&mut session).data(a, Bytes::from_static(b"gone"), true).unwrap();
    session.discard_channel_outbound(a).unwrap();
    session.discard_channel_outbound(a).unwrap();
    assert_eq!(packet_types(&enc(&mut session).write), vec![msg::CHANNEL_CLOSE]);
    assert_eq!(enc(&mut session).channels[&b.0].queued_data_bytes(), before);
}

#[test]
fn kept_packets_come_back_in_order() {
    let mut session = authenticated_session();
    for n in 0..3u8 {
        session.park_pending_read(vec![msg::KEXINIT, n]);
    }
    assert_eq!(session.pending_len, 6);
    let kept = session.take_pending_reads();
    assert_eq!(kept, vec![vec![msg::KEXINIT, 0], vec![msg::KEXINIT, 1], vec![msg::KEXINIT, 2]]);
    assert!(session.take_pending_reads().is_empty());
}

#[test]
fn one_data_packet_stays_within_the_cap() {
    let mut session = authenticated_session();
    let id = insert_encrypted_channel(&mut session, 1 << 20);
    park_ready_channel(&mut session, id, 4096);
    let one = 1024 + Session::packet_reservation(CHANNEL_DATA_FRAMING);
    let cap = OUTBOUND_HIGH_WATERMARK + one;
    let body = cap - 600 - WIRE_OVERHEAD_PER_PACKET;
    session.writer = Some(WriterHandle::new());
    let payload = Bytes::from(vec![msg::IGNORE; body]);
    session.writer.as_mut().unwrap().try_seal_payload(payload).unwrap();
    assert_eq!(session.sealed_backlog_bytes(), cap - 600);
    let n = session.try_drain_channel_under_budget(id).unwrap();
    assert_eq!(n, 600 - 97 - 97);
    assert_eq!(session.sealed_backlog_bytes(), cap - 97);
}

#[test]
fn backlog_is_shown_with_its_parts() {
    let (mut session, _task) = with_writer();
    let writer = session.writer.as_mut().unwrap();
    writer.try_seal_payload(Bytes::from_static(&[msg::IGNORE; 10])).unwrap();
    session
        .pending_outbound
        .push_back(PendingOutboundCmd::SealRaw(Bytes::from_static(&[msg::IGNORE; 2])));
    session.pending_kex_install =
        install(1, None, need_submit(vec![Bytes::from_static(&[msg::NEWKEYS; 3])]));
    enc(&mut session).write.extend_from_slice(&[0, 0, 0, 1, msg::DEBUG]);
    let mut slot = LedgerMaxSlot::new();
    session.publish_backlog(&mut slot);
    assert_eq!(slot.parts(), [98, 90, 91, 89]);
    assert_eq!(slot.max(), 98 + 90 + 91 + 89);
    assert_eq!(session.sealed_backlog_bytes(), slot.max());
}

#[test]
fn flushing_moves_the_backlog_and_keeps_its_sum() {
    let (mut session, _task) = with_writer();
    let staged = [0, 0, 0, 1, msg::DEBUG, 0, 0, 0, 2, msg::IGNORE, 0];
    enc(&mut session).write.extend_from_slice(&staged);
    session
        .pending_outbound
        .push_back(PendingOutboundCmd::SealRaw(Bytes::from_static(&[msg::IGNORE; 5])));
    let before = session.sealed_backlog_bytes();
    assert_eq!(before, 89 + 90 + 93);
    session.flush().unwrap();
    assert_eq!(session.sealed_backlog_bytes(), before);
    assert_eq!(session.writer.as_ref().unwrap().pending_bytes(), before);
}

#[test]
fn room_in_the_writer_is_used() {
    let (mut session, mut task) = with_refused_install();
    let mut sup = supervisor();
    let id = insert_encrypted_channel(&mut session, 1 << 20);
    park_ready_channel(&mut session, id, 10);
    let_writer_take(&mut session, &mut task);
    assert!(session.on_capacity(&mut sup));
    session.use_room(&mut sup);
    assert!(matches!(phase(&session), Some(PendingKexPhase::WaitingAck)));
    assert!(enc(&mut session).has_pending_data(id));
    session.pending_kex_install = None;
    session.kex = SessionKexState::Idle;
    session.close_out_turn(&mut sup);
    assert!(!enc(&mut session).has_pending_data(id));
    assert_eq!(sup.cause, None);
}

#[test]
fn last_reports_of_the_reader_are_taken_in() {
    let mut session = authenticated_session();
    let mut sup = supervisor();
    session.reader = Some(ReaderHandle::new());
    session.kex = SessionKexState::Taken;
    session.pending_kex_install =
        install(6, Some(KexAfterInstall::RekeyComplete), PendingKexPhase::InstallAcked);
    let ack = ReaderEvent::InstallAckInbound { generation: 6 };
    assert!(!session.harvest_reader_event(&mut sup, Some(ack)));
    assert_eq!(session.kex, SessionKexState::Idle);
    session.stage_cause(DisconnectCause::RekeyTimeout);
    assert!(session.take_cause(&mut sup));
    assert!(!session.take_cause(&mut sup));
    assert!(session.harvest_reader_event(&mut sup, Some(ReaderEvent::ReadError)));
    assert_eq!(sup.cause, Some(DisconnectCause::RekeyTimeout));
}

fn with_ledger() -> (Session, WriterTask) {
    let mut session = authenticated_session();
    session.writer = Some(WriterHandle::with_hooks(WriterHooks {
        full_ledger: Some(FullLedger::new(0, 0, LedgerMaxSlot::new())),
        ..WriterHooks::default()
    }));
    let task = WriterTask::new(PacketWriter::clear(), session.writer.as_mut().unwrap());
    (session, task)
}

fn ledger(session: &Session) -> FullLedger {
    session.writer.as_ref().unwrap().full_ledger.unwrap()
}

#[test]
fn ledger_follows_every_stage() {
    let (mut session, mut task) = with_ledger();
    enc(&mut session).write.extend_from_slice(&[0, 0, 0, 1, msg::DEBUG]);
    assert_eq!(session.sealed_backlog_bytes(), 89);
    assert_eq!(ledger(&session).total(), 89);
    session.flush().unwrap();
    let fl = ledger(&session);
    assert_eq!((fl.total(), fl.writer_pending, fl.enc_write), (89, 89, 0));
    for _ in 1..BULK_QUEUE_CAP {
        session.submit_seal_payload(Bytes::from_static(&[msg::IGNORE])).unwrap();
    }
    session.submit_seal_payload(Bytes::from_static(&[msg::IGNORE, 1])).unwrap();
    let fl = ledger(&session);
    assert_eq!(fl.session_pending, 90);
    assert_eq!(fl.total(), 256 * 89 + 90);
    assert_eq!(fl.slot.full_hits(), 1);
    let_writer_take(&mut session, &mut task);
    session.retry_pending_outbound().unwrap();
    assert_eq!(ledger(&session).session_pending, 0);
    let backlog = session.sealed_backlog_bytes();
    assert_eq!(ledger(&session).total(), backlog);
    for _ in 0..64 {
        let_writer_write(&mut session, &mut task);
        let_writer_take(&mut session, &mut task);
    }
    let fl = ledger(&session);
    assert_eq!((fl.total(), fl.writer_pending, fl.slot.mismatch()), (0, 0, 0));
    assert_eq!(session.sealed_backlog_bytes(), 0);
}

#[test]
fn ledger_counts_a_waiting_batch_once() {
    let (mut session, mut task) = with_ledger();
    for _ in 0..BULK_QUEUE_CAP {
        session.submit_seal_payload(Bytes::from_static(&[msg::IGNORE])).unwrap();
    }
    session
        .register_seal_batch_and_install(
            vec![Bytes::from_static(&[msg::NEWKEYS])],
            install_epoch(3, true),
            None,
        )
        .unwrap();
    let fl = ledger(&session);
    assert_eq!((fl.kex_need, fl.kex_live(), fl.kex_in_writer()), (89, 89, 0));
    assert_eq!(fl.total(), 257 * 89);
    let_writer_take(&mut session, &mut task);
    let before = session.sealed_backlog_bytes();
    session.try_advance_pending_kex_install();
    let fl = ledger(&session);
    assert_eq!((fl.kex_need, fl.kex_live(), fl.kex_in_writer()), (0, 89, 89));
    assert_eq!(fl.total(), before);
    assert_eq!(session.sealed_backlog_bytes(), before);
    for _ in 0..64 {
        let_writer_write(&mut session, &mut task);
        let_writer_take(&mut session, &mut task);
    }
    let fl = ledger(&session);
    assert_eq!((fl.total(), fl.kex_live(), fl.slot.mismatch()), (0, 0, 0));
    assert_eq!(fl.slot.kex_peak(), 89);
}

#[test]
fn refused_intake_is_counted() {
    let (mut session, _task) = with_ledger();
    let big = Bytes::from(vec![msg::IGNORE; OUTBOUND_HIGH_WATERMARK]);
    session.writer.as_mut().unwrap().try_seal_payload(big).unwrap();
    assert!(!session.has_intake_room());
    assert_eq!(ledger(&session).slot.intake_blocks(), 0);
    assert!(!session.can_receive_outbound());
    assert!(!session.may_dispatch(0));
    assert!(!session.may_dispatch(64));
    assert_eq!(ledger(&session).slot.intake_blocks(), 2);
    assert!(ledger(&session).slot.live_hwm());
}

#[test]
fn first_sample_has_the_writers_part() {
    let (mut session, _task) = with_ledger();
    session.submit_seal_payload(Bytes::from_static(&[msg::IGNORE])).unwrap();
    let slot = ledger(&session).slot;
    assert_eq!(slot.max(), 89);
    assert_eq!(slot.parts(), [89, 0, 0, 0]);
}

#[test]
fn wind_up_says_why_and_flushes() {
    let (mut session, _task) = with_writer();
    let mut sup = supervisor();
    enc(&mut session).write.extend_from_slice(&[0, 0, 0, 1, msg::DEBUG]);
    session.wind_up(&mut sup);
    assert_eq!(session.writer.as_ref().unwrap().bulk.len(), 0);
    session.stop_for(&mut sup, DisconnectCause::WriteStalled);
    assert!(sup.unannounced && session.common.disconnected);
    session.wind_up(&mut sup);
    let want = [
        vec![msg::DISCONNECT, 0, 0, 0, 11],
        str_field("supervisor: WriteStalled"),
        str_field("en"),
    ]
    .concat();
    let bulk = &session.writer.as_ref().unwrap().bulk;
    assert_eq!(bulk.len(), 2);
    assert!(matches!(&bulk[1], WriterCmd::SealRaw(p) if p.as_ref() == want.as_slice()));
    assert!(!sup.unannounced && session.common.disconnected);
    session.wind_up(&mut sup);
    assert_eq!(session.writer.as_ref().unwrap().bulk.len(), 2);

    let (mut down, _task) = with_writer();
    let mut sup = supervisor();
    down.common.disconnected = true;
    down.stop_for(&mut sup, DisconnectCause::PeerError);
    down.wind_up(&mut sup);
    assert_eq!(down.writer.as_ref().unwrap().bulk.len(), 0);

    let (mut open, _task) = with_writer();
    let mut sup = supervisor();
    sup.record(DisconnectCause::PeerError);
    open.wind_up(&mut sup);
    let bulk = &open.writer.as_ref().unwrap().bulk;
    let want = [
        vec![msg::DISCONNECT, 0, 0, 0, 11],
        str_field("supervisor: PeerError"),
        str_field("en"),
    ]
    .concat();
    assert!(matches!(&bulk[0], WriterCmd::SealRaw(p) if p.as_ref() == want.as_slice()));
    assert!(open.common.disconnected);
}

#[test]
fn texts_are_short_or_not() {
    let session = authenticated_session();
    let msg = Msg::TcpIpForward {
        reply_channel: None,
        address: String::from("host"),
        port: 1,
    };
    assert!(msg.has_short_texts() && session.can_take(&msg));
    let cmd = FacadeCmd::Debug {
        always_display: true,
        message: String::from("m"),
        language_tag: String::new(),
    };
    assert!(cmd.has_short_texts() && session.can_take_command(&cmd));
    let open = Msg::ChannelOpenSession {
        channel_ref: ChannelRef { handle: 0, reader_gone: false },
    };
    assert!(session.can_take(&open));
}

#[test]
fn payload_beyond_the_window_is_ignored() {
    let mut session = authenticated_session();
    let id = insert_encrypted_channel(&mut session, 100);
    enc(&mut session).consume_recv_window(id, 101);
    assert_eq!(enc(&mut session).sender_window_size(id), 100);
    enc(&mut session).consume_recv_window(id, 0x1_0000_0000);
    enc(&mut session).consume_recv_window(id, 0x1_0000_0001);
    assert_eq!(enc(&mut session).sender_window_size(id), 100);
    enc(&mut session).consume_recv_window(id, 100);
    assert_eq!(enc(&mut session).sender_window_size(id), 0);
}

/// The payloads that the session has handed its writer.
fn handed(session: &Session) -> Vec<Vec<u8>> {
    let bulk = &session.writer.as_ref().unwrap().bulk;
    bulk.iter()
        .map(|c| match c {
            WriterCmd::SealPayload(p) | WriterCmd::SealRaw(p) => p.to_vec(),
            _ => Vec::new(),
        })
        .collect()
}

fn ready_channel(session: &mut Session, window: u32) -> ChannelId {
    let id = insert_encrypted_channel(session, window);
    confirm_test_channel(session, id, window);
    id
}

#[test]
fn a_turn_ends_where_the_stream_changes() {
    let (mut session, _task) = with_writer();
    let id = ready_channel(&mut session, 20);
    let ch = enc(&mut session).channels.get_mut(&id.0).unwrap();
    assert!(ch.enqueue_data(Bytes::from(vec![1u8; 10]), None, 0));
    assert!(ch.enqueue_data(Bytes::from(vec![2u8; 10]), Some(1), 0));
    assert_eq!(session.try_drain_channel_under_budget(id), Ok(10));
    let out = handed(&session);
    assert_eq!(out.len(), 1);
    assert_eq!(out[0], [vec![msg::CHANNEL_DATA, 0, 0, 0, 0, 0, 0, 0, 10], vec![1; 10]].concat());
    assert_eq!(enc(&mut session).channels[&id.0].recipient_window_size, 10);
    assert_eq!(session.try_drain_channel_under_budget(id), Ok(10));
    let out = handed(&session);
    assert_eq!(out.len(), 2);
    let head = vec![msg::CHANNEL_EXTENDED_DATA, 0, 0, 0, 0, 0, 0, 0, 1, 0, 0, 0, 10];
    assert_eq!(out[1], [head, vec![2; 10]].concat());
    assert_eq!(enc(&mut session).channels[&id.0].recipient_window_size, 0);
}

#[test]
fn a_turn_takes_the_fences_behind_its_packet() {
    let (mut session, _task) = with_writer();
    let id = ready_channel(&mut session, 100);
    let ch = enc(&mut session).channels.get_mut(&id.0).unwrap();
    assert!(ch.enqueue_data(Bytes::from_static(b"ab"), None, 0));
    ch.enqueue_ctrl(ChannelCtrlItem::Success);
    assert!(ch.enqueue_data(Bytes::from_static(b"cd"), None, 0));
    ch.enqueue_ctrl(ChannelCtrlItem::Eof);
    assert_eq!(session.try_drain_channel_under_budget(id), Ok(2));
    let kinds: Vec<u8> = handed(&session).iter().map(|p| p[0]).collect();
    assert_eq!(kinds, [msg::CHANNEL_DATA, msg::CHANNEL_SUCCESS]);
    assert_eq!(session.try_drain_channel_under_budget(id), Ok(2));
    let kinds: Vec<u8> = handed(&session).iter().map(|p| p[0]).collect();
    assert_eq!(
        kinds,
        [msg::CHANNEL_DATA, msg::CHANNEL_SUCCESS, msg::CHANNEL_DATA, msg::CHANNEL_EOF]
    );
    assert_eq!(session.try_drain_channel_under_budget(id), Ok(0));
}

#[test]
fn alternating_streams_stay_within_the_cap() {
    let (mut session, _task) = with_writer();
    let id = ready_channel(&mut session, 1 << 20);
    let ch = enc(&mut session).channels.get_mut(&id.0).unwrap();
    ch.boost_pending = false;
    for i in 0..6000u32 {
        let ext = if i % 2 == 0 { None } else { Some(1) };
        assert!(ch.enqueue_data(Bytes::from_static(b"x"), ext, 0));
    }
    session.try_drain_pending_data_under_budget().unwrap();
    let cap = OUTBOUND_HIGH_WATERMARK + 32_768 + 13 + WIRE_OVERHEAD_PER_PACKET;
    let backlog = session.sealed_backlog_bytes();
    assert!(backlog <= cap);
    assert!(backlog + 97 + 102 >= cap);
    assert!(enc(&mut session).has_pending_data(id));
}

#[test]
fn a_round_serves_each_ready_channel_once() {
    let (mut session, _task) = with_writer();
    let mut ids = Vec::new();
    for _ in 0..3 {
        let id = insert_encrypted_channel(&mut session, 1 << 20);
        park_ready_channel(&mut session, id, 2048);
        ids.push(id.0);
    }
    session.try_drain_pending_data_under_budget().unwrap();
    let to: Vec<u32> =
        handed(&session).iter().map(|p| BigEndian::read_u32(&p[1..5])).collect();
    assert_eq!(to, [ids.clone(), ids].concat());
}

#[test]
fn rounds_are_counted_beyond_a_boost() {
    let (mut session, _task) = with_writer();
    session.sched_since_boost = BOOST_PERIOD;
    let id = insert_encrypted_channel(&mut session, 1 << 20);
    park_ready_channel(&mut session, id, 3 * 1024);
    session.try_drain_pending_data_under_budget().unwrap();
    assert_eq!(session.sched_since_boost, BOOST_PERIOD + 3);
    session.sched_since_boost = u32::MAX;
    let ch = enc(&mut session).channels.get_mut(&id.0).unwrap();
    assert!(ch.enqueue_data(Bytes::from_static(b"x"), None, 0));
    session.try_drain_pending_data_under_budget().unwrap();
    assert_eq!(session.sched_since_boost, u32::MAX);
}

#[test]
fn due_exchange_waits_for_its_kexinit() {
    let mut session = authenticated_session();
    enc(&mut session).kex.skip_exchange = false;
    enc(&mut session).rekey_wanted = true;
    session.writer = Some(WriterHandle::new());
    assert_eq!(session.flush(), Ok(()));
    assert_eq!(session.kex, SessionKexState::Idle);
    assert!(enc(&mut session).exchange.is_some());
    assert!(enc(&mut session).rekey_wanted);
    assert_eq!(session.begin_rekey(), Err(Error::Kex));
    session.offer = Some(Bytes::from_static(&[msg::KEXINIT, 2]));
    assert_eq!(session.flush(), Ok(()));
    assert_eq!(session.kex, SessionKexState::InProgress);
    assert_eq!(handed(&session), [vec![msg::KEXINIT, 2]]);
}

#[test]
fn scheduler_shows_what_it_did() {
    let (mut session, _task) = with_writer();
    session.sched_since_boost = BOOST_PERIOD;
    session.sched_slot = Some(SchedSlot::new());
    let mut ids = Vec::new();
    for _ in 0..2 {
        let id = insert_encrypted_channel(&mut session, 1 << 20);
        park_ready_channel(&mut session, id, 2048);
        ids.push(id.0);
    }
    enc(&mut session).channels.get_mut(&ids[1]).unwrap().boost_pending = true;
    session.try_drain_pending_data_under_budget().unwrap();
    let slot = session.sched_slot.as_ref().unwrap();
    assert_eq!(slot.boosts(), 1);
    assert_eq!(slot.boost_at_quanta(), [0]);
    assert_eq!(slot.regular_quanta(), 2);
    assert_eq!(
        slot.emits(),
        [(ids[1], true, 2), (ids[0], false, 2), (ids[1], false, 1), (ids[0], false, 0)]
    );
    assert_eq!(session.sched_since_boost, 2);
}

#[test]
fn whole_sessions_are_told_apart() {
    let mut session = authenticated_session();
    assert!(session.is_whole());
    enc(&mut session).write.extend_from_slice(&[0, 0, 0, 1, msg::DEBUG]);
    assert!(session.is_whole());
    enc(&mut session).write.extend_from_slice(&[0, 0, 0]);
    assert!(!session.is_whole());
    enc(&mut session).write.extend_from_slice(&[2, 7]);
    assert!(!session.is_whole());
    enc(&mut session).write.extend_from_slice(&[7]);
    assert!(session.is_whole());
    enc(&mut session).write_cursor = 12;
    assert!(!session.is_whole());
    session.common.encrypted = None;
    assert!(session.is_whole());
}
