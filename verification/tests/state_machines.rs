use std::collections::HashMap;

use russh::sm_feasibility::{
    ChanError, ChanEvent, ChannelSm, Credit, Handshake, HandshakeError, HandshakeEvent, KexLayer,
    LinearChannel, LinearState, ReadHalf, SessionSm, WriteHalf,
};

#[test]
fn handshake_linear_sm_rejects_channel_data_before_auth() {
    let hs = Handshake::ExpectAuth;
    let err = hs.handle(HandshakeEvent::ChannelData).unwrap_err();
    assert_eq!(
        err,
        HandshakeError::Unexpected {
            in_state: "ExpectAuth",
            event: HandshakeEvent::ChannelData,
        }
    );
}

#[test]
fn handshake_happy_path_is_a_single_chain() {
    let hs = Handshake::ExpectBanner;
    let hs = hs.handle(HandshakeEvent::Banner).unwrap();
    let hs = hs.handle(HandshakeEvent::KexInit).unwrap();
    let hs = hs.handle(HandshakeEvent::NewKeys).unwrap();
    let hs = hs.handle(HandshakeEvent::ServiceRequest).unwrap();
    let hs = hs.handle(HandshakeEvent::UserauthSuccess).unwrap();
    assert_eq!(hs, Handshake::Authenticated);
    assert_eq!(
        hs.handle(HandshakeEvent::ChannelData).unwrap(),
        Handshake::Authenticated
    );
}

#[test]
fn channel_rejects_data_before_confirm() {
    let mut ch = ChannelSm::opening(32 * 1024);
    let err = ch.handle_local(ChanEvent::Data).unwrap_err();
    assert!(matches!(
        err,
        ChanError::OpeningOnly {
            event: ChanEvent::Data
        }
    ));
    assert!(!ch.can_send_data());
}

#[test]
fn channel_half_close_is_a_product_not_a_line() {
    let mut ch = ChannelSm::opening(1024);
    ch.handle_local(ChanEvent::Confirm).unwrap();
    ch.handle_local(ChanEvent::Eof).unwrap();
    assert!(ch.can_recv_data());
    assert!(!ch.can_send_data());
    ch.handle_remote(ChanEvent::Data).unwrap();
    ch.handle_remote(ChanEvent::Eof).unwrap();
    assert!(!ch.can_recv_data());
    match ch {
        ChannelSm::Established {
            write: WriteHalf::EofSent,
            read: ReadHalf::EofRecv,
            ..
        } => {}
        other => panic!("expected BothEof product, got {other:?}"),
    }
}

#[test]
fn window_is_credit_not_a_state() {
    let mut ch = ChannelSm::opening(0);
    ch.handle_local(ChanEvent::Confirm).unwrap();
    assert!(matches!(
        &ch,
        ChannelSm::Established {
            credit: Credit { peer_window: 0 },
            ..
        }
    ));
    ch.apply_adjust(4096).unwrap();
    assert!(matches!(
        &ch,
        ChannelSm::Established {
            write: WriteHalf::Open,
            read: ReadHalf::Open,
            credit: Credit { peer_window: 4096 },
        }
    ));
}

#[test]
fn current_flag_encoding_has_illegal_combos() {
    const FLAG_COMBOS: usize = 2 * 2 * 2;
    const LEGAL_LIVE: usize = ChannelSm::ESTABLISHED_LIVE_COMBOS;
    assert_eq!(FLAG_COMBOS, 8);
    assert_eq!(LEGAL_LIVE, 4);
    assert_eq!(FLAG_COMBOS - LEGAL_LIVE, 4);
}

#[test]
fn flattened_linear_sm_explodes_with_multiplexing() {
    assert_eq!(LinearChannel::flattened_session_states(1), 8);
    assert_eq!(LinearChannel::flattened_session_states(4), 512);
    assert_eq!(LinearChannel::flattened_session_states(8), 131_072);
    assert_eq!(LinearChannel::flattened_session_states(128), u128::MAX);
}

#[test]
fn composed_session_keeps_rekey_orthogonal_to_channels() {
    let mut s = SessionSm::authenticated();
    s.open_channel(1, 1024).unwrap();
    s.channels
        .get_mut(&1)
        .unwrap()
        .handle_local(ChanEvent::Confirm)
        .unwrap();
    s.begin_rekey();
    assert!(
        s.channels
            .get(&1)
            .is_some_and(ChannelSm::can_send_data)
    );
    assert_eq!(s.kex, KexLayer::InKex);
    s.finish_rekey();
    assert!(
        s.channels
            .get(&1)
            .is_some_and(ChannelSm::can_send_data)
    );
}

#[test]
fn composed_session_rejects_open_before_auth() {
    let mut s = SessionSm {
        handshake: Handshake::ExpectAuth,
        kex: KexLayer::Idle,
        channels: HashMap::new(),
    };
    assert!(s.open_channel(1, 1024).is_err());
    assert!(s.channels.is_empty());
}

#[test]
fn states_grow_with_the_channels() {
    assert_eq!(LinearChannel::flattened_session_states(0), 2);
    assert_eq!(LinearChannel::flattened_session_states(63), 1u128 << 127);
    assert_eq!(LinearChannel::flattened_session_states(64), u128::MAX);
    assert_eq!(LinearChannel::flattened_session_states(0x1_0000_0000), u128::MAX);
}

#[test]
fn sessions_can_be_compared() {
    let mut a = SessionSm::authenticated();
    let b = a.clone();
    assert_eq!(a, b);
    a.begin_rekey();
    assert_ne!(a, b);
}
