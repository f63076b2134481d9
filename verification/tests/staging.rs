use std::collections::{HashMap, VecDeque};

use byteorder::{BigEndian, ByteOrder};
use bytes::{Bytes, BytesMut};
use russh::channel::{
    ChannelCtrlItem, ChannelId, ChannelLaneState, ChannelOpenConfirmation, ChannelParams,
    LOCAL_TRANSPORT_PAYLOAD_CAP,
};
use russh::error::Error;
use russh::msg;
use russh::session::{
    Encrypted, EncryptedState, Exchange, KexAlgorithm, MacName, RekeyPolicy,
};
use russh::sshbuffer::{Compression, PacketWriter, Stream};

fn test_encrypted() -> Encrypted {
    Encrypted {
        state: EncryptedState::Authenticated,
        exchange: Some(Exchange::default()),
        kex: KexAlgorithm { id: 0, skip_exchange: true },
        key: 0,
        client_mac: MacName(0),
        server_mac: MacName(0),
        session_id: Vec::new(),
        channels: HashMap::new(),
        last_channel_id: 0,
        write: BytesMut::new(),
        write_cursor: 0,
        last_rekey: 0,
        server_compression: Compression::Plain,
        client_compression: Compression::Plain,
        decompress: Stream::Off,
        rekey_wanted: false,
        received_extensions: Vec::new(),
    }
}

fn stage_request_success(encrypted: &mut Encrypted) {
    encrypted.write.extend_from_slice(&[0, 0, 0, 1, msg::REQUEST_SUCCESS]);
}

fn test_channel(
    sender_channel: ChannelId,
    recipient_channel: u32,
    pending_eof: bool,
    pending_close: bool,
) -> ChannelParams {
    let mut ch = ChannelParams::new(
        recipient_channel,
        sender_channel,
        1024,
        1024,
        1024,
        1024,
        true,
    );
    ch.lane = ChannelLaneState::Confirmed;
    ch.enqueue_data(Bytes::from_static(b"hello"), None, 0);
    if pending_eof {
        ch.enqueue_ctrl(ChannelCtrlItem::Eof);
    }
    if pending_close {
        ch.enqueue_ctrl(ChannelCtrlItem::Close);
    }
    ch
}

fn first_data_payload_len(buf: &[u8]) -> u32 {
    assert!(buf.len() >= 13, "packet too short: {}", buf.len());
    BigEndian::read_u32(&buf[9..13])
}

fn packet_types(buf: &[u8]) -> Vec<u8> {
    let mut packet_types = Vec::new();
    let mut cursor = 0;

    while cursor < buf.len() {
        let packet_len = BigEndian::read_u32(&buf[cursor..cursor + 4]) as usize;
        packet_types.push(buf[cursor + 4]);
        cursor += 4 + packet_len;
    }

    packet_types
}

fn clear_packet_types(buf: &[u8]) -> Vec<u8> {
    let mut packet_types = Vec::new();
    let mut cursor = 0;

    while cursor < buf.len() {
        let packet_len = BigEndian::read_u32(&buf[cursor..cursor + 4]) as usize;
        packet_types.push(buf[cursor + 5]);
        cursor += 4 + packet_len;
    }

    packet_types
}

fn test_ready_channel(sender_channel: ChannelId, recipient_channel: u32) -> ChannelParams {
    let mut channel = test_channel(sender_channel, recipient_channel, false, false);
    channel.clear_outbound();
    channel
}

fn test_channel_windowed(
    sender_channel: ChannelId,
    recipient_channel: u32,
    window_size: u32,
    pending_eof: bool,
    pending_close: bool,
) -> ChannelParams {
    let mut ch = test_channel(sender_channel, recipient_channel, pending_eof, pending_close);
    ch.recipient_window_size = window_size;
    ch
}

#[test]
fn flush_pending_replays_deferred_eof_once() {
    let channel_id = ChannelId(10);
    let mut encrypted = test_encrypted();
    encrypted
        .channels
        .insert(channel_id.0, test_channel(channel_id, 42, true, false));

    encrypted.flush_pending(channel_id).unwrap();
    assert_eq!(
        packet_types(&encrypted.write),
        vec![msg::CHANNEL_DATA, msg::CHANNEL_EOF]
    );
    assert!(
        encrypted.channels[&channel_id.0].pending_eof,
        "pending_eof stays latched after emit so later DATA cannot follow EOF"
    );
    assert!(!encrypted.channels[&channel_id.0].has_pending_ctrl());

    encrypted.flush_pending(channel_id).unwrap();
    assert_eq!(
        packet_types(&encrypted.write),
        vec![msg::CHANNEL_DATA, msg::CHANNEL_EOF]
    );
}

#[test]
fn close_discarding_pending_emits_reply_and_drops_channel() {
    let channel_id = ChannelId(12);
    let mut encrypted = test_encrypted();
    encrypted
        .channels
        .insert(channel_id.0, test_channel(channel_id, 44, false, false));
    assert!(encrypted.has_pending_data(channel_id));

    encrypted.close_discarding_pending(channel_id).unwrap();

    assert_eq!(packet_types(&encrypted.write), vec![msg::CHANNEL_CLOSE]);
    assert!(
        !encrypted.channels.contains_key(&channel_id.0),
        "channel must be dropped, not left waiting on a window adjustment"
    );
}

#[test]
fn stop_discard_keeps_framed_and_drops_lane() {
    let channel_id = ChannelId(21);
    let mut encrypted = test_encrypted();
    encrypted
        .channels
        .insert(channel_id.0, test_channel(channel_id, 50, false, false));
    encrypted.flush_pending(channel_id).unwrap();
    assert_eq!(packet_types(&encrypted.write), vec![msg::CHANNEL_DATA]);
    encrypted
        .data(channel_id, Bytes::from_static(b"more"), true)
        .unwrap();
    encrypted.park_close(channel_id);
    assert!(encrypted.has_pending_data(channel_id));
    assert!(encrypted.channels[&channel_id.0].pending_close);

    let stats = encrypted.close_discarding_pending(channel_id).unwrap();
    assert!(
        stats.discarded_items >= 1,
        "unframed lane must be discarded, stats={stats:?}"
    );
    assert_eq!(
        packet_types(&encrypted.write),
        vec![msg::CHANNEL_DATA, msg::CHANNEL_CLOSE],
        "framed DATA must stay; exactly one CLOSE appended"
    );
    assert!(!encrypted.channels.contains_key(&channel_id.0));

    let again = encrypted.close_discarding_pending(channel_id).unwrap();
    assert!(again.already_gone);
    assert_eq!(
        packet_types(&encrypted.write)
            .into_iter()
            .filter(|&t| t == msg::CHANNEL_CLOSE)
            .count(),
        1,
        "second StopDiscard must not emit another CLOSE"
    );
}

#[test]
fn enqueue_after_outbound_closed_is_dropped() {
    let channel_id = ChannelId(22);
    let mut encrypted = test_encrypted();
    let mut ch = test_channel(channel_id, 51, false, false);
    ch.outbound_closed = true;
    encrypted.channels.insert(channel_id.0, ch);
    encrypted.park_close(channel_id);
    encrypted
        .channels
        .get_mut(&channel_id.0)
        .unwrap()
        .enqueue_ctrl(ChannelCtrlItem::Success);
    assert!(
        !encrypted.channels[&channel_id.0].has_pending_ctrl(),
        "SUCCESS after outbound_closed must not enqueue"
    );
    assert!(!encrypted.channels[&channel_id.0].pending_close);
}

#[test]
fn enqueue_after_pending_close_is_dropped() {
    let channel_id = ChannelId(23);
    let mut encrypted = test_encrypted();
    encrypted
        .channels
        .insert(channel_id.0, test_channel(channel_id, 52, false, true));
    assert!(encrypted.channels[&channel_id.0].pending_close);
    encrypted
        .channels
        .get_mut(&channel_id.0)
        .unwrap()
        .enqueue_ctrl(ChannelCtrlItem::Success);
    encrypted
        .channels
        .get_mut(&channel_id.0)
        .unwrap()
        .enqueue_ctrl(ChannelCtrlItem::Request {
            body: Bytes::from_static(b"x"),
        });
    let ch = &encrypted.channels[&channel_id.0];
    assert!(ch.has_pending_ctrl(), "parked CLOSE must remain");
    assert_eq!(
        ch.queued_reply_count(),
        0,
        "SUCCESS/REQUEST after parked CLOSE must not enqueue"
    );
}

#[test]
fn close_defers_behind_pending_data() {
    let channel_id = ChannelId(13);
    let mut encrypted = test_encrypted();
    encrypted
        .channels
        .insert(channel_id.0, test_channel(channel_id, 45, false, false));

    encrypted.close(channel_id).unwrap();

    assert!(packet_types(&encrypted.write).is_empty());
    assert!(encrypted.channels[&channel_id.0].pending_close);
}

#[test]
fn flush_pending_replays_deferred_close_and_removes_channel() {
    let channel_id = ChannelId(11);
    let mut encrypted = test_encrypted();
    encrypted
        .channels
        .insert(channel_id.0, test_channel(channel_id, 43, true, true));

    encrypted.flush_pending(channel_id).unwrap();
    assert_eq!(
        packet_types(&encrypted.write),
        vec![msg::CHANNEL_DATA, msg::CHANNEL_EOF, msg::CHANNEL_CLOSE]
    );
    assert!(!encrypted.channels.contains_key(&channel_id.0));
}

#[test]
fn flush_pending_no_controls_when_incomplete() {
    let channel_id = ChannelId(12);
    let mut encrypted = test_encrypted();
    encrypted.channels.insert(channel_id.0,
        test_channel_windowed(channel_id, 44, 3, true, true),
    );

    encrypted.flush_pending(channel_id).unwrap();
    assert_eq!(packet_types(&encrypted.write), vec![msg::CHANNEL_DATA]);
    assert!(encrypted.channels.contains_key(&channel_id.0));
    assert!(encrypted.channels[&channel_id.0].pending_eof);
    assert!(encrypted.channels[&channel_id.0].pending_close);
}

#[test]
fn flush_all_pending_replays_deferred_eof_once() {
    let channel_id = ChannelId(1);
    let mut encrypted = test_encrypted();
    encrypted
        .channels
        .insert(channel_id.0, test_channel(channel_id, 42, true, false));

    encrypted.flush_all_pending().unwrap();
    assert_eq!(
        packet_types(&encrypted.write),
        vec![msg::CHANNEL_DATA, msg::CHANNEL_EOF]
    );
    assert!(
        encrypted.channels[&channel_id.0].pending_eof,
        "pending_eof stays latched after emit so later DATA cannot follow EOF"
    );
    assert!(!encrypted.channels[&channel_id.0].has_pending_ctrl());

    encrypted.flush_all_pending().unwrap();
    assert_eq!(
        packet_types(&encrypted.write),
        vec![msg::CHANNEL_DATA, msg::CHANNEL_EOF]
    );
}

#[test]
fn flush_all_pending_replays_deferred_close_and_removes_channel() {
    let channel_id = ChannelId(2);
    let mut encrypted = test_encrypted();
    encrypted
        .channels
        .insert(channel_id.0, test_channel(channel_id, 43, true, true));

    encrypted.flush_all_pending().unwrap();
    assert_eq!(
        packet_types(&encrypted.write),
        vec![msg::CHANNEL_DATA, msg::CHANNEL_EOF, msg::CHANNEL_CLOSE]
    );
    assert!(!encrypted.channels.contains_key(&channel_id.0));
}

#[test]
fn flush_all_pending_replays_deferred_controls_across_channels() {
    let channel_a = ChannelId(3);
    let channel_b = ChannelId(4);
    let mut encrypted = test_encrypted();
    encrypted
        .channels
        .insert(channel_a.0, test_channel(channel_a, 44, true, false));
    encrypted
        .channels
        .insert(channel_b.0, test_channel(channel_b, 45, false, true));

    encrypted.flush_all_pending().unwrap();

    let packet_types = packet_types(&encrypted.write);
    assert_eq!(
        packet_types
            .iter()
            .filter(|&&msg_type| msg_type == msg::CHANNEL_DATA)
            .count(),
        2
    );
    assert_eq!(
        packet_types
            .iter()
            .filter(|&&msg_type| msg_type == msg::CHANNEL_EOF)
            .count(),
        1
    );
    assert_eq!(
        packet_types
            .iter()
            .filter(|&&msg_type| msg_type == msg::CHANNEL_CLOSE)
            .count(),
        1
    );
    assert!(encrypted.channels.contains_key(&channel_a.0));
    assert!(!encrypted.channels.contains_key(&channel_b.0));
}

#[test]
fn data_queues_behind_existing_pending_data_when_not_rekeying() {
    let channel_id = ChannelId(5);
    let mut encrypted = test_encrypted();
    encrypted
        .channels
        .insert(channel_id.0, test_channel(channel_id, 42, false, false));

    let channel = &encrypted.channels[&channel_id.0];
    let initial_pending = channel.pending_data.len();
    assert!(initial_pending > 0);
    let initial_front = channel.pending_data.front().unwrap();
    let initial_front_data = initial_front.0.to_vec();
    let initial_front_ext = initial_front.1;

    encrypted
        .data(channel_id, Bytes::from_static(b"new"), false)
        .unwrap();

    let channel = &encrypted.channels[&channel_id.0];
    assert_eq!(channel.pending_data.len(), initial_pending + 1);
    assert_eq!(
        channel.pending_data.front().unwrap().0.as_ref(),
        initial_front_data.as_slice()
    );
    assert_eq!(channel.pending_data.front().unwrap().1, initial_front_ext);
    assert_eq!(channel.pending_data.back().unwrap().0.as_ref(), b"new");
    assert_eq!(channel.pending_data.back().unwrap().1, None);
    assert!(encrypted.write.is_empty());
}

#[test]
fn data_after_eof_is_silently_dropped() {
    let channel_id = ChannelId(30);
    let mut encrypted = test_encrypted();
    encrypted
        .channels
        .insert(channel_id.0, test_ready_channel(channel_id, 50));

    encrypted.eof(channel_id).unwrap();
    let before = encrypted.channels[&channel_id.0].pending_data.len();
    encrypted
        .data(channel_id, Bytes::from_static(b"after-eof"), false)
        .unwrap();
    encrypted
        .extended_data(channel_id, 1, Bytes::from_static(b"ext-after"), false)
        .unwrap();

    let channel = &encrypted.channels[&channel_id.0];
    assert_eq!(channel.pending_data.len(), before);
    assert!(channel.pending_eof);
    assert_eq!(packet_types(&encrypted.write), vec![msg::CHANNEL_EOF]);
}

#[test]
fn data_after_close_is_silently_dropped() {
    let channel_id = ChannelId(31);
    let mut encrypted = test_encrypted();
    encrypted
        .channels
        .insert(channel_id.0, test_channel(channel_id, 51, false, false));

    encrypted.close(channel_id).unwrap();
    let before = encrypted.channels[&channel_id.0].pending_data.len();
    assert_eq!(
        encrypted.channels[&channel_id.0].lane,
        ChannelLaneState::Closing
    );
    encrypted
        .data(channel_id, Bytes::from_static(b"after-close"), false)
        .unwrap();

    let channel = &encrypted.channels[&channel_id.0];
    assert_eq!(channel.pending_data.len(), before);
    assert_eq!(channel.lane, ChannelLaneState::Closing);
    assert!(encrypted.write.is_empty());
}

#[test]
fn gather_combines_consecutive_same_stream_entries() {
    let channel_id = ChannelId(32);
    let mut encrypted = test_encrypted();
    let mut ch = test_ready_channel(channel_id, 52);
    assert!(ch.enqueue_data(Bytes::from_static(b"aa"), None, 0));
    assert!(ch.enqueue_data(Bytes::from_static(b"bb"), None, 0));
    encrypted.channels.insert(channel_id.0, ch);

    encrypted.flush_pending(channel_id).unwrap();
    assert_eq!(packet_types(&encrypted.write), vec![msg::CHANNEL_DATA]);
    assert_eq!(first_data_payload_len(&encrypted.write), 4);
    assert!(encrypted.channels[&channel_id.0].pending_data.is_empty());
}

#[test]
fn gather_stops_before_eof_fence() {
    let channel_id = ChannelId(33);
    let mut encrypted = test_encrypted();
    let mut ch = test_ready_channel(channel_id, 53);
    assert!(ch.enqueue_data(Bytes::from_static(b"aa"), None, 0));
    ch.enqueue_ctrl(ChannelCtrlItem::Eof);
    assert!(!ch.enqueue_data(Bytes::from_static(b"xx"), None, 0));
    encrypted.channels.insert(channel_id.0, ch);

    encrypted.flush_pending(channel_id).unwrap();
    assert_eq!(
        packet_types(&encrypted.write),
        vec![msg::CHANNEL_DATA, msg::CHANNEL_EOF]
    );
    assert_eq!(first_data_payload_len(&encrypted.write), 2);
}

#[test]
fn gather_respects_32kib_cap() {
    let channel_id = ChannelId(34);
    let mut encrypted = test_encrypted();
    let mut ch = test_ready_channel(channel_id, 54);
    ch.recipient_maximum_packet_size = 64 * 1024;
    ch.recipient_window_size = 64 * 1024;
    assert!(ch.enqueue_data(Bytes::from(vec![1u8; 20_000]), None, 0));
    assert!(ch.enqueue_data(Bytes::from(vec![2u8; 20_000]), None, 0));
    encrypted.channels.insert(channel_id.0, ch);

    encrypted.flush_pending(channel_id).unwrap();
    let types = packet_types(&encrypted.write);
    assert_eq!(types, vec![msg::CHANNEL_DATA, msg::CHANNEL_DATA]);
    assert_eq!(
        first_data_payload_len(&encrypted.write),
        LOCAL_TRANSPORT_PAYLOAD_CAP as u32
    );
}

#[test]
fn confirm_only_transitions_opening_to_confirmed() {
    let mut ch = test_ready_channel(ChannelId(35), 55);
    ch.lane = ChannelLaneState::Closing;
    ch.confirm(&ChannelOpenConfirmation {
        recipient_channel: 55,
        sender_channel: 99,
        initial_window_size: 1024,
        maximum_packet_size: 1024,
    });
    assert_eq!(ch.lane, ChannelLaneState::Closing);

    let mut open = test_ready_channel(ChannelId(36), 56);
    open.lane = ChannelLaneState::Opening;
    open.boost_pending = false;
    open.confirm(&ChannelOpenConfirmation {
        recipient_channel: 56,
        sender_channel: 100,
        initial_window_size: 2048,
        maximum_packet_size: 1024,
    });
    assert_eq!(open.lane, ChannelLaneState::Confirmed);
    assert!(open.boost_pending);
}

#[test]
fn extended_data_queues_behind_existing_pending_data_when_not_rekeying() {
    let channel_id = ChannelId(6);
    let ext = 1;
    let mut encrypted = test_encrypted();
    encrypted
        .channels
        .insert(channel_id.0, test_channel(channel_id, 42, false, false));

    let channel = &encrypted.channels[&channel_id.0];
    let initial_pending = channel.pending_data.len();
    assert!(initial_pending > 0);
    let initial_front = channel.pending_data.front().unwrap();
    let initial_front_data = initial_front.0.to_vec();
    let initial_front_ext = initial_front.1;

    encrypted
        .extended_data(channel_id, ext, Bytes::from_static(b"new"), false)
        .unwrap();

    let channel = &encrypted.channels[&channel_id.0];
    assert_eq!(channel.pending_data.len(), initial_pending + 1);
    assert_eq!(
        channel.pending_data.front().unwrap().0.as_ref(),
        initial_front_data.as_slice()
    );
    assert_eq!(channel.pending_data.front().unwrap().1, initial_front_ext);
    assert_eq!(channel.pending_data.back().unwrap().0.as_ref(), b"new");
    assert_eq!(channel.pending_data.back().unwrap().1, Some(ext));
    assert!(encrypted.write.is_empty());
}

#[test]
fn flush_pending_with_writer_matches_staged_channel_data() {
    let channel_id = ChannelId(7);
    let mut staged = test_encrypted();
    let mut direct = test_encrypted();
    staged
        .channels
        .insert(channel_id.0, test_channel(channel_id, 42, false, false));
    direct
        .channels
        .insert(channel_id.0, test_channel(channel_id, 42, false, false));

    let mut staged_writer = PacketWriter::clear();
    staged.flush_pending(channel_id).unwrap();
    staged
        .flush(&RekeyPolicy::default(), &mut staged_writer)
        .unwrap();

    let mut direct_writer = PacketWriter::clear();
    direct
        .flush_pending_with_writer(&mut direct_writer, channel_id)
        .unwrap();

    assert_eq!(direct_writer.buffer().buffer, staged_writer.buffer().buffer);
    assert_eq!(
        direct.channels[&channel_id.0].recipient_window_size,
        staged.channels[&channel_id.0].recipient_window_size
    );
    assert!(direct.channels[&channel_id.0].pending_data.is_empty());
}

#[test]
fn flush_pending_with_writer_matches_staged_extended_data() {
    let channel_id = ChannelId(8);
    let mut staged = test_encrypted();
    let mut direct = test_encrypted();
    let mut staged_channel = test_channel(channel_id, 42, false, false);
    staged_channel.pending_data =
        VecDeque::from([(Bytes::from_static(b"hello"), Some(1), 0)]);
    let mut direct_channel = test_channel(channel_id, 42, false, false);
    direct_channel.pending_data =
        VecDeque::from([(Bytes::from_static(b"hello"), Some(1), 0)]);
    staged.channels.insert(channel_id.0, staged_channel);
    direct.channels.insert(channel_id.0, direct_channel);

    let mut staged_writer = PacketWriter::clear();
    staged.flush_pending(channel_id).unwrap();
    staged
        .flush(&RekeyPolicy::default(), &mut staged_writer)
        .unwrap();

    let mut direct_writer = PacketWriter::clear();
    direct
        .flush_pending_with_writer(&mut direct_writer, channel_id)
        .unwrap();

    assert_eq!(direct_writer.buffer().buffer, staged_writer.buffer().buffer);
    assert!(direct.channels[&channel_id.0].pending_data.is_empty());
}

#[test]
fn flush_pending_with_writer_falls_back_when_write_queue_nonempty() {
    let channel_id = ChannelId(9);
    let mut encrypted = test_encrypted();
    encrypted
        .channels
        .insert(channel_id.0, test_channel(channel_id, 42, false, false));
    stage_request_success(&mut encrypted);

    let mut writer = PacketWriter::clear();
    encrypted
        .flush_pending_with_writer(&mut writer, channel_id)
        .unwrap();

    assert!(writer.buffer().buffer.is_empty());
    assert_eq!(
        packet_types(&encrypted.write),
        vec![msg::REQUEST_SUCCESS, msg::CHANNEL_DATA]
    );
}

#[test]
fn flush_pending_with_writer_preserves_partial_window_remainder() {
    let channel_id = ChannelId(13);
    let payload = Bytes::from_static(b"abcdef");
    let mut encrypted = test_encrypted();
    let mut channel = test_channel_windowed(channel_id, 42, 3, false, false);
    channel.pending_data = VecDeque::from([(payload.clone(), None, 0)]);
    encrypted.channels.insert(channel_id.0, channel);

    let mut writer = PacketWriter::clear();
    encrypted
        .flush_pending_with_writer(&mut writer, channel_id)
        .unwrap();

    let channel = &encrypted.channels[&channel_id.0];
    assert_eq!(
        clear_packet_types(&writer.buffer().buffer),
        vec![msg::CHANNEL_DATA]
    );
    assert_eq!(channel.recipient_window_size, 0);
    assert_eq!(channel.pending_data.len(), 1);
    let pending = channel.pending_data.back().unwrap();
    assert_eq!(pending.0, payload);
    assert_eq!(pending.1, None);
    assert_eq!(pending.2, 3);
}

#[test]
fn flush_pending_with_writer_emits_controls_after_replayed_data() {
    let channel_id = ChannelId(14);
    let mut encrypted = test_encrypted();
    encrypted
        .channels
        .insert(channel_id.0, test_channel(channel_id, 42, true, true));

    let mut writer = PacketWriter::clear();
    encrypted
        .flush_pending_with_writer(&mut writer, channel_id)
        .unwrap();
    encrypted.flush(&RekeyPolicy::default(), &mut writer).unwrap();

    assert_eq!(
        clear_packet_types(&writer.buffer().buffer),
        vec![msg::CHANNEL_DATA, msg::CHANNEL_EOF, msg::CHANNEL_CLOSE]
    );
    assert!(!encrypted.channels.contains_key(&channel_id.0));
}

#[test]
fn data_direct_matches_staged_channel_data() {
    let channel_id = ChannelId(20);
    let payload = Bytes::from_static(b"direct channel data");
    let mut staged = test_encrypted();
    let mut direct = test_encrypted();
    staged
        .channels
        .insert(channel_id.0, test_ready_channel(channel_id, 42));
    direct
        .channels
        .insert(channel_id.0, test_ready_channel(channel_id, 42));

    let mut staged_writer = PacketWriter::clear();
    staged.data(channel_id, payload.clone(), false).unwrap();
    staged
        .flush(&RekeyPolicy::default(), &mut staged_writer)
        .unwrap();

    let mut direct_writer = PacketWriter::clear();
    direct
        .data_with_writer(&mut direct_writer, channel_id, payload, false)
        .unwrap();

    assert_eq!(
        direct_writer.buffer().buffer,
        staged_writer.buffer().buffer
    );
    assert_eq!(
        direct.channels[&channel_id.0].recipient_window_size,
        staged.channels[&channel_id.0].recipient_window_size
    );
    assert!(direct.channels[&channel_id.0].pending_data.is_empty());
}

#[test]
fn extended_data_direct_matches_staged_channel_data() {
    let channel_id = ChannelId(21);
    let payload = Bytes::from_static(b"direct extended channel data");
    let mut staged = test_encrypted();
    let mut direct = test_encrypted();
    staged
        .channels
        .insert(channel_id.0, test_ready_channel(channel_id, 43));
    direct
        .channels
        .insert(channel_id.0, test_ready_channel(channel_id, 43));

    let mut staged_writer = PacketWriter::clear();
    staged
        .extended_data(channel_id, 1, payload.clone(), false)
        .unwrap();
    staged
        .flush(&RekeyPolicy::default(), &mut staged_writer)
        .unwrap();

    let mut direct_writer = PacketWriter::clear();
    direct
        .extended_data_with_writer(&mut direct_writer, channel_id, 1, payload, false)
        .unwrap();

    assert_eq!(
        direct_writer.buffer().buffer,
        staged_writer.buffer().buffer
    );
    assert_eq!(
        direct.channels[&channel_id.0].recipient_window_size,
        staged.channels[&channel_id.0].recipient_window_size
    );
    assert!(direct.channels[&channel_id.0].pending_data.is_empty());
}

#[test]
fn data_direct_is_disabled_when_write_queue_nonempty() {
    let channel_id = ChannelId(22);
    let mut encrypted = test_encrypted();
    encrypted
        .channels
        .insert(channel_id.0, test_ready_channel(channel_id, 44));
    stage_request_success(&mut encrypted);

    let mut writer = PacketWriter::clear();
    encrypted
        .data_with_writer(&mut writer, channel_id, Bytes::from_static(b"new"), false)
        .unwrap();

    assert!(writer.buffer().buffer.is_empty());
    assert_eq!(
        packet_types(&encrypted.write),
        vec![msg::REQUEST_SUCCESS, msg::CHANNEL_DATA]
    );

    encrypted.flush(&RekeyPolicy::default(), &mut writer).unwrap();
    assert_eq!(
        clear_packet_types(&writer.buffer().buffer),
        vec![msg::REQUEST_SUCCESS, msg::CHANNEL_DATA]
    );
}

#[test]
fn data_staged_large_payload_when_write_queue_nonempty_preserves_order_and_chunks() {
    let channel_id = ChannelId(26);
    let mut encrypted = test_encrypted();
    let mut channel = test_ready_channel(channel_id, 48);
    channel.recipient_window_size = 256 * 1024;
    channel.recipient_maximum_packet_size = 32 * 1024;
    encrypted.channels.insert(channel_id.0, channel);
    stage_request_success(&mut encrypted);

    let mut writer = PacketWriter::clear();
    encrypted
        .data_with_writer(
            &mut writer,
            channel_id,
            Bytes::from(vec![0x5a; 256 * 1024]),
            false,
        )
        .unwrap();

    assert!(writer.buffer().buffer.is_empty());
    let packet_types = packet_types(&encrypted.write);
    assert_eq!(packet_types.first(), Some(&msg::REQUEST_SUCCESS));
    assert_eq!(packet_types.len(), 9);
    assert!(
        packet_types
            .iter()
            .skip(1)
            .all(|&msg_type| msg_type == msg::CHANNEL_DATA)
    );
    assert!(encrypted.channels[&channel_id.0].pending_data.is_empty());
    assert_eq!(encrypted.channels[&channel_id.0].recipient_window_size, 0);
}

#[test]
fn data_staged_rejects_zero_recipient_max_packet_size() {
    let channel_id = ChannelId(27);
    let mut encrypted = test_encrypted();
    let mut channel = test_ready_channel(channel_id, 49);
    channel.recipient_maximum_packet_size = 0;
    encrypted.channels.insert(channel_id.0, channel);

    let result = encrypted.data(channel_id, Bytes::from_static(b"new"), false);

    assert!(matches!(result, Err(Error::Inconsistent)));
    assert!(encrypted.write.is_empty());
    assert_eq!(encrypted.channels[&channel_id.0].recipient_window_size, 1024);
}

#[test]
fn data_direct_rejects_zero_recipient_max_packet_size() {
    let channel_id = ChannelId(28);
    let mut encrypted = test_encrypted();
    let mut channel = test_ready_channel(channel_id, 50);
    channel.recipient_maximum_packet_size = 0;
    encrypted.channels.insert(channel_id.0, channel);

    let mut writer = PacketWriter::clear();
    let result =
        encrypted.data_with_writer(&mut writer, channel_id, Bytes::from_static(b"new"), false);

    assert!(matches!(result, Err(Error::Inconsistent)));
    assert!(writer.buffer().buffer.is_empty());
    assert!(encrypted.write.is_empty());
    assert_eq!(encrypted.channels[&channel_id.0].recipient_window_size, 1024);
}

#[test]
fn data_direct_is_disabled_while_rekeying() {
    let channel_id = ChannelId(23);
    let mut encrypted = test_encrypted();
    encrypted
        .channels
        .insert(channel_id.0, test_ready_channel(channel_id, 45));

    let mut writer = PacketWriter::clear();
    encrypted
        .data_with_writer(&mut writer, channel_id, Bytes::from_static(b"new"), true)
        .unwrap();

    let channel = &encrypted.channels[&channel_id.0];
    assert_eq!(channel.pending_data.len(), 1);
    assert_eq!(channel.pending_data.back().unwrap().0.as_ref(), b"new");
    assert_eq!(channel.pending_data.back().unwrap().1, None);
    assert!(encrypted.write.is_empty());
    assert!(writer.buffer().buffer.is_empty());
}

#[test]
fn data_direct_queues_remainder_when_window_is_partial() {
    let channel_id = ChannelId(24);
    let payload = Bytes::from_static(b"abcdef");
    let mut encrypted = test_encrypted();
    let mut channel = test_ready_channel(channel_id, 46);
    channel.recipient_window_size = 3;
    encrypted.channels.insert(channel_id.0, channel);

    let mut writer = PacketWriter::clear();
    encrypted
        .data_with_writer(&mut writer, channel_id, payload.clone(), false)
        .unwrap();

    let channel = &encrypted.channels[&channel_id.0];
    assert_eq!(clear_packet_types(&writer.buffer().buffer), vec![msg::CHANNEL_DATA]);
    assert_eq!(channel.recipient_window_size, 0);
    assert_eq!(channel.pending_data.len(), 1);
    let pending = channel.pending_data.back().unwrap();
    assert_eq!(pending.0, payload);
    assert_eq!(pending.1, None);
    assert_eq!(pending.2, 3);
}

#[test]
fn data_direct_disabled_behind_existing_pending_data() {
    let channel_id = ChannelId(25);
    let mut encrypted = test_encrypted();
    encrypted
        .channels
        .insert(channel_id.0, test_channel(channel_id, 47, false, false));

    let mut writer = PacketWriter::clear();
    encrypted
        .data_with_writer(&mut writer, channel_id, Bytes::from_static(b"new"), false)
        .unwrap();

    let channel = &encrypted.channels[&channel_id.0];
    assert_eq!(channel.pending_data.len(), 2);
    assert_eq!(channel.pending_data.front().unwrap().0.as_ref(), b"hello");
    assert_eq!(channel.pending_data.back().unwrap().0.as_ref(), b"new");
    assert!(encrypted.write.is_empty());
    assert!(writer.buffer().buffer.is_empty());
}
