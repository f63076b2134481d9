//! Messages from the application to the session, and what the session does
//! with each.
use bytes::Bytes;
use std::collections::VecDeque;
use vstd::prelude::*;

use crate::channel::ChannelId;
use crate::common_session;
use crate::error::Error;
use crate::server::requests;
use crate::server::sending;
use crate::server::session;
use crate::server::session::{
    App, ChannelRef, GlobalRequestResponse, Peer, Sess, Session,
};
use crate::wire;
use crate::wire::MAX_FRAME_PAYLOAD;

verus! {

broadcast use vstd::std_specs::hash::group_hash_axioms;

/// What the application says on a channel.
#[derive(Debug)]
pub enum ChannelMsg {
    Data { data: Bytes },
    ExtendedData { ext: u32, data: Bytes },
    Eof,
    Close,
    Success,
    Failure,
    XonXoff { client_can_do: bool },
    ExitStatus { exit_status: u32 },
    ExitSignal {
        signal_name: String,
        core_dumped: bool,
        error_message: String,
        lang_tag: String,
    },
    WindowAdjusted { new_size: u32 },
}

/// What the application says to the session.
#[derive(Debug)]
pub enum Msg {
    Channel(ChannelId, ChannelMsg),
    /// Data whose producer waits until it is within the peer's window.
    ChannelDataAcked { id: ChannelId, ext: Option<u32>, data: Bytes, ack: u64 },
    ChannelOpenAgent { channel_ref: ChannelRef },
    ChannelOpenSession { channel_ref: ChannelRef },
    ChannelOpenDirectTcpIp {
        host_to_connect: String,
        port_to_connect: u32,
        originator_address: String,
        originator_port: u32,
        channel_ref: ChannelRef,
    },
    ChannelOpenDirectStreamLocal { socket_path: String, channel_ref: ChannelRef },
    ChannelOpenForwardedTcpIp {
        connected_address: String,
        connected_port: u32,
        originator_address: String,
        originator_port: u32,
        channel_ref: ChannelRef,
    },
    ChannelOpenForwardedStreamLocal { server_socket_path: String, channel_ref: ChannelRef },
    ChannelOpenX11 { originator_address: String, originator_port: u32, channel_ref: ChannelRef },
    TcpIpForward { reply_channel: Option<u64>, address: String, port: u32 },
    CancelTcpIpForward { reply_channel: Option<u64>, address: String, port: u32 },
    Disconnect { reason: u32, description: String, language_tag: String },
}

impl Sess {
    /// A channel of this side asked for and, where it was, bound to its
    /// application's end.
    pub open spec fn channel_opened(
        self,
        kind: Seq<char>,
        fields: wire::Body,
        channel_ref: ChannelRef,
    ) -> (Sess, Result<(), Error>) {
        let (p, r) = self.peer.opened(wire::text(kind), fields);
        match r {
            Err(e) => (Sess { peer: p, ..self }, Err(e)),
            Ok(id) => (
                Sess {
                    peer: p.lane_registered(id.0),
                    app: App {
                        channels: self.app.channels.insert(id.0, channel_ref),
                        ..self.app
                    },
                },
                Ok(()),
            ),
        }
    }

    /// The producer `ack` of data that was just sent answered: at once where
    /// everything is within the peer's window, later where something is left
    /// behind, and with a failure where the channel is gone.
    pub open spec fn producer_noted(self, id: u32, ack: u64) -> Sess {
        match self.peer.lane(id) {
            None => Sess {
                app: App { released: self.app.released.push((ack, false)), ..self.app },
                ..self
            },
            Some(l) => if l.data.len() > 0 {
                Sess {
                    app: App {
                        acks: self.app.acks.insert(
                            id,
                            if self.app.acks.contains_key(id) {
                                self.app.acks[id].push(ack)
                            } else {
                                seq![ack]
                            },
                        ),
                        ..self.app
                    },
                    ..self
                }
            } else {
                Sess {
                    app: App { released: self.app.released.push((ack, true)), ..self.app },
                    ..self
                }
            },
        }
    }

    /// A result of the part that faces the peer.
    pub open spec fn and_peer(self, x: (Peer, Result<(), Error>)) -> (Sess, Result<(), Error>) {
        (Sess { peer: x.0, ..self }, x.1)
    }

    /// What one message of the application on a channel does.
    pub open spec fn channel_told(self, id: u32, m: ChannelMsg) -> (Sess, Result<(), Error>) {
        match m {
            ChannelMsg::Data { data } => self.data_sent(id, wire::bytes_view(data), None),
            ChannelMsg::ExtendedData { ext, data } => self.data_sent(
                id,
                wire::bytes_view(data),
                Some(ext),
            ),
            ChannelMsg::Eof => self.and_peer(
                (match self.peer.lane(id) {
                    Some(l) => self.peer.with_lane(id, l.park_eof()),
                    None => self.peer,
                }).let_out(id),
            ),
            ChannelMsg::Close => self.closed(id),
            ChannelMsg::Success => self.and_peer(self.peer.channel_replied(id, true)),
            ChannelMsg::Failure => self.and_peer(self.peer.channel_replied(id, false)),
            ChannelMsg::XonXoff { client_can_do } => self.and_peer(
                self.peer.requested(
                    id,
                    sending::xon_xoff_body(self.peer.number_of(id), client_can_do),
                ),
            ),
            ChannelMsg::ExitStatus { exit_status } => self.and_peer(
                self.peer.requested(
                    id,
                    sending::exit_status_body(self.peer.number_of(id), exit_status),
                ),
            ),
            ChannelMsg::ExitSignal { signal_name, core_dumped, error_message, lang_tag } => {
                self.and_peer(
                    self.peer.requested(
                        id,
                        sending::exit_signal_body(
                            self.peer.number_of(id),
                            wire::text(signal_name@),
                            core_dumped,
                            wire::text(error_message@),
                            wire::text(lang_tag@),
                        ),
                    ),
                )
            },
            ChannelMsg::WindowAdjusted { .. } => (self, Ok(())),
        }
    }

    /// What one message of the application does.
    pub open spec fn told(self, m: Msg) -> (Sess, Result<(), Error>) {
        match m {
            Msg::Channel(id, c) => self.channel_told(id.0, c),
            Msg::ChannelDataAcked { id, ext, data, ack } => {
                let (s, r) = self.data_sent(id.0, wire::bytes_view(data), ext);
                if r is Err {
                    (s, r)
                } else {
                    (s.producer_noted(id.0, ack), Ok(()))
                }
            },
            Msg::ChannelOpenAgent { channel_ref } => self.channel_opened(
                "auth-agent@openssh.com"@,
                requests::no_fields(),
                channel_ref,
            ),
            Msg::ChannelOpenSession { channel_ref } => self.channel_opened(
                "session"@,
                requests::no_fields(),
                channel_ref,
            ),
            Msg::ChannelOpenDirectTcpIp {
                host_to_connect,
                port_to_connect,
                originator_address,
                originator_port,
                channel_ref,
            } => self.channel_opened(
                "direct-tcpip"@,
                requests::connection_fields(
                    wire::text(host_to_connect@),
                    port_to_connect,
                    wire::text(originator_address@),
                    originator_port,
                ),
                channel_ref,
            ),
            Msg::ChannelOpenDirectStreamLocal { socket_path, channel_ref } => self.channel_opened(
                "direct-streamlocal@openssh.com"@,
                requests::no_fields().str(wire::text(socket_path@)).str(wire::text(""@)).u32(0),
                channel_ref,
            ),
            Msg::ChannelOpenForwardedTcpIp {
                connected_address,
                connected_port,
                originator_address,
                originator_port,
                channel_ref,
            } => self.channel_opened(
                "forwarded-tcpip"@,
                requests::connection_fields(
                    wire::text(connected_address@),
                    connected_port,
                    wire::text(originator_address@),
                    originator_port,
                ),
                channel_ref,
            ),
            Msg::ChannelOpenForwardedStreamLocal { server_socket_path, channel_ref } => {
                self.channel_opened(
                    "forwarded-streamlocal@openssh.com"@,
                    requests::no_fields().str(wire::text(server_socket_path@)).str(
                        wire::text(""@),
                    ),
                    channel_ref,
                )
            },
            Msg::ChannelOpenX11 { originator_address, originator_port, channel_ref } => {
                self.channel_opened(
                    "x11"@,
                    requests::no_fields().str(wire::text(originator_address@)).u32(
                        originator_port,
                    ),
                    channel_ref,
                )
            },
            Msg::TcpIpForward { reply_channel, address, port } => self.asked(
                match reply_channel {
                    Some(w) => Some(GlobalRequestResponse::TcpIpForward(w)),
                    None => None,
                },
                requests::forward_body(
                    "tcpip-forward"@,
                    reply_channel is Some,
                    wire::text(address@),
                    port,
                ),
            ),
            Msg::CancelTcpIpForward { reply_channel, address, port } => self.asked(
                match reply_channel {
                    Some(w) => Some(GlobalRequestResponse::CancelTcpIpForward(w)),
                    None => None,
                },
                requests::forward_body(
                    "cancel-tcpip-forward"@,
                    reply_channel is Some,
                    wire::text(address@),
                    port,
                ),
            ),
            Msg::Disconnect { reason, description, language_tag } => self.and_peer(
                self.peer.disconnected(
                    common_session::disconnect_body(
                        reason,
                        wire::text(description@),
                        wire::text(language_tag@),
                    ),
                ),
            ),
        }
    }

    /// The decisions that wait carried out, then one message of the
    /// application.
    pub open spec fn dispatched(self, m: Msg) -> (Sess, Result<(), Error>) {
        let (s, r) = self.opens_decided();
        if r is Err {
            (s, r)
        } else {
            s.told(m)
        }
    }

    /// The channel, if it is there, is confirmed.
    pub open spec fn confirmed(self, id: u32) -> bool {
        self.peer.lane(id) matches Some(l) ==> l.confirmed
    }

    /// A channel number is left for a new channel.
    pub open spec fn has_room(self) -> bool {
        self.peer.common.enc matches Some(e) ==> e.st.has_room()
    }

    /// The session can take the message: it has keys where data is to be sent,
    /// the channel is confirmed where a request or a reply is, a number is left
    /// where a channel is, and a request fits a packet.
    pub open spec fn takes(self, m: Msg) -> bool {
        match m {
            Msg::Channel(id, c) => match c {
                ChannelMsg::Data { .. } => self.peer.common.enc is Some,
                ChannelMsg::ExtendedData { .. } => self.peer.common.enc is Some,
                ChannelMsg::Eof => self.peer.common.enc is Some,
                ChannelMsg::Close => self.peer.common.enc is Some,
                ChannelMsg::WindowAdjusted { .. } => true,
                ChannelMsg::ExitSignal { signal_name, core_dumped, error_message, lang_tag } => {
                    let b = sending::exit_signal_body(
                        self.peer.number_of(id.0),
                        wire::text(signal_name@),
                        core_dumped,
                        wire::text(error_message@),
                        wire::text(lang_tag@),
                    );
                    self.confirmed(id.0) && (b.complete ==> b.bytes.len() < MAX_FRAME_PAYLOAD)
                },
                _ => self.confirmed(id.0),
            },
            Msg::ChannelDataAcked { .. } => self.peer.common.enc is Some,
            Msg::TcpIpForward { .. } => true,
            Msg::CancelTcpIpForward { .. } => true,
            Msg::Disconnect { .. } => true,
            _ => self.has_room(),
        }
    }
}

/// A set of numbers lacks one exactly when it has fewer than all.
proof fn lemma_few_leave_room(s: Set<u32>)
    requires
        s.finite(),
    ensures
        s.len() < 0x1_0000_0000 <==> exists|id: u32| !s.contains(id),
{
    let f = |x: u32| x as int;
    let ints = s.map(f);
    let all = vstd::set_lib::set_int_range(0, 0x1_0000_0000);
    vstd::set_lib::lemma_int_range(0, 0x1_0000_0000);
    vstd::set_lib::lemma_map_size(s, ints, f);
    if forall|id: u32| s.contains(id) {
        assert forall|i: int| all.contains(i) implies ints.contains(i) by {
            assert(s.contains(i as u32));
            assert(f(i as u32) == i);
        }
        vstd::set_lib::lemma_len_subset(all, ints);
    } else {
        let id = choose|id: u32| !s.contains(id);
        let most = all.remove(id as int);
        assert forall|i: int| ints.contains(i) implies most.contains(i) by {
            let x = choose|x: u32| s.contains(x) && f(x) == i;
            assert(x != id);
        }
        vstd::set_lib::lemma_len_subset(ints, most);
    }
}

impl Msg {
    /// What the message sends can be framed.
    pub open spec fn frames(self) -> bool {
        match self {
            Msg::ChannelOpenDirectTcpIp {
                host_to_connect,
                port_to_connect,
                originator_address,
                originator_port,
                ..
            } => requests::connection_fields(
                wire::text(host_to_connect@),
                port_to_connect,
                wire::text(originator_address@),
                originator_port,
            ).bytes.len() <= 0xff00_0000,
            Msg::ChannelOpenDirectStreamLocal { socket_path, .. } => requests::no_fields().str(
                wire::text(socket_path@),
            ).str(wire::text(""@)).u32(0).bytes.len() <= 0xff00_0000,
            Msg::ChannelOpenForwardedTcpIp {
                connected_address,
                connected_port,
                originator_address,
                originator_port,
                ..
            } => requests::connection_fields(
                wire::text(connected_address@),
                connected_port,
                wire::text(originator_address@),
                originator_port,
            ).bytes.len() <= 0xff00_0000,
            Msg::ChannelOpenForwardedStreamLocal { server_socket_path, .. } => {
                requests::no_fields().str(wire::text(server_socket_path@)).str(
                    wire::text(""@),
                ).bytes.len() <= 0xff00_0000
            },
            Msg::ChannelOpenX11 { originator_address, originator_port, .. } => {
                requests::no_fields().str(wire::text(originator_address@)).u32(
                    originator_port,
                ).bytes.len() <= 0xff00_0000
            },
            Msg::TcpIpForward { reply_channel, address, port } => requests::forward_body(
                "tcpip-forward"@,
                reply_channel is Some,
                wire::text(address@),
                port,
            ).frames(),
            Msg::CancelTcpIpForward { reply_channel, address, port } => requests::forward_body(
                "cancel-tcpip-forward"@,
                reply_channel is Some,
                wire::text(address@),
                port,
            ).frames(),
            Msg::Disconnect { reason, description, language_tag } => {
                common_session::disconnect_body(
                    reason,
                    wire::text(description@),
                    wire::text(language_tag@),
                ).frames()
            },
            _ => true,
        }
    }
}

/// A text is so short that a few of them fit one packet.
pub open spec fn is_short(s: Seq<char>) -> bool {
    wire::text(s).len() < 0x1000_0000
}

impl Msg {
    /// Every text of the message is short.
    pub open spec fn is_short(self) -> bool {
        match self {
            Msg::Channel(
                _,
                ChannelMsg::ExitSignal { signal_name, error_message, lang_tag, .. },
            ) => is_short(signal_name@) && is_short(error_message@) && is_short(lang_tag@),
            Msg::ChannelOpenDirectTcpIp { host_to_connect, originator_address, .. } => {
                is_short(host_to_connect@) && is_short(originator_address@)
            },
            Msg::ChannelOpenDirectStreamLocal { socket_path, .. } => is_short(socket_path@),
            Msg::ChannelOpenForwardedTcpIp { connected_address, originator_address, .. } => {
                is_short(connected_address@) && is_short(originator_address@)
            },
            Msg::ChannelOpenForwardedStreamLocal { server_socket_path, .. } => {
                is_short(server_socket_path@)
            },
            Msg::ChannelOpenX11 { originator_address, .. } => is_short(originator_address@),
            Msg::TcpIpForward { address, .. } => is_short(address@),
            Msg::CancelTcpIpForward { address, .. } => is_short(address@),
            Msg::Disconnect { description, language_tag, .. } => {
                is_short(description@) && is_short(language_tag@)
            },
            _ => true,
        }
    }
}

impl Msg {
    /// Whether every text of the message is short.
    pub fn has_short_texts(&self) -> (r: bool)
        ensures
            r == self.is_short(),
    {
        match self {
            Msg::Channel(
                _,
                ChannelMsg::ExitSignal { signal_name, error_message, lang_tag, .. },
            ) => short_text(signal_name.as_str()) && short_text(error_message.as_str())
                && short_text(lang_tag.as_str()),
            Msg::ChannelOpenDirectTcpIp { host_to_connect, originator_address, .. } => {
                short_text(host_to_connect.as_str()) && short_text(originator_address.as_str())
            },
            Msg::ChannelOpenDirectStreamLocal { socket_path, .. } => {
                short_text(socket_path.as_str())
            },
            Msg::ChannelOpenForwardedTcpIp { connected_address, originator_address, .. } => {
                short_text(connected_address.as_str()) && short_text(originator_address.as_str())
            },
            Msg::ChannelOpenForwardedStreamLocal { server_socket_path, .. } => {
                short_text(server_socket_path.as_str())
            },
            Msg::ChannelOpenX11 { originator_address, .. } => {
                short_text(originator_address.as_str())
            },
            Msg::TcpIpForward { address, .. } | Msg::CancelTcpIpForward { address, .. } => {
                short_text(address.as_str())
            },
            Msg::Disconnect { description, language_tag, .. } => {
                short_text(description.as_str()) && short_text(language_tag.as_str())
            },
            _ => true,
        }
    }
}

/// What a message with short texts sends can be framed.
proof fn lemma_short_texts_frame(m: Msg)
    requires
        m.is_short(),
    ensures
        m.frames(),
{
    match m {
        Msg::TcpIpForward { .. } => {
            reveal_strlit("tcpip-forward");
            sending::lemma_ascii_len("tcpip-forward");
        },
        Msg::CancelTcpIpForward { .. } => {
            reveal_strlit("cancel-tcpip-forward");
            sending::lemma_ascii_len("cancel-tcpip-forward");
        },
        Msg::ChannelOpenDirectStreamLocal { .. } => {
            reveal_strlit("");
            sending::lemma_ascii_len("");
        },
        Msg::ChannelOpenForwardedStreamLocal { .. } => {
            reveal_strlit("");
            sending::lemma_ascii_len("");
        },
        _ => {},
    }
}

/// A signal with short texts fits a packet, so that only the channel decides.
proof fn lemma_short_signals_fit(s: Sess, m: Msg)
    requires
        m.is_short(),
    ensures
        m matches Msg::Channel(id, ChannelMsg::ExitSignal { .. }) ==> s.takes(m) == s.confirmed(
            id.0,
        ),
{
    if let Msg::Channel(_, ChannelMsg::ExitSignal { .. }) = m {
        reveal_strlit("exit-signal");
        sending::lemma_ascii_len("exit-signal");
    }
}

/// Whether a text is so short that a few of them fit one packet.
pub(crate) fn short_text(s: &str) -> (r: bool)
    ensures
        r == is_short(s@),
{
    s.as_bytes().len() < 0x1000_0000
}

impl Session {
    /// Binds a channel of this side to its application's end.
    fn bind(&mut self, opened: Result<ChannelId, Error>, channel_ref: ChannelRef) -> (r: Result<
        (),
        Error,
    >)
        ensures
            match opened {
                Err(e) => r == Err::<(), Error>(e) && final(self)@ == old(self)@,
                Ok(id) => r == Ok::<(), Error>(()) && final(self)@ == (Sess {
                    peer: old(self).peer().lane_registered(id.0),
                    app: App {
                        channels: old(self).app().channels.insert(id.0, channel_ref),
                        ..old(self).app()
                    },
                }),
            },
            old(self).peer().ok() ==> final(self).peer().ok(),
    {
        let id = opened?;
        self.channels.insert(id.0, channel_ref);
        self.register_inbound_lane(id);
        Ok(())
    }

    /// Answers the producer of data that was just sent, or lets it wait.
    fn note_producer(&mut self, id: ChannelId, ack: u64)
        ensures
            final(self)@ == old(self)@.producer_noted(id.0, ack),
            old(self).peer().ok() ==> final(self).peer().ok(),
    {
        let ghost before = self@;
        let mut exists_now: bool = false;
        let mut pending: bool = false;
        if let Some(enc) = &self.common.encrypted {
            exists_now = enc.channel_exists(id);
            pending = enc.has_pending_data(id);
        }
        if !exists_now {
            self.released.push((ack, false));
        } else if pending {
            let mut waiting: VecDeque<u64> = match self.outbound_acks.remove(&id.0) {
                Some(q) => q,
                None => VecDeque::new(),
            };
            waiting.push_back(ack);
            let ghost w = waiting@;
            assert(w =~= (if before.app.acks.contains_key(id.0) {
                before.app.acks[id.0].push(ack)
            } else {
                seq![ack]
            }));
            self.outbound_acks.insert(id.0, waiting);
            assert(session::acks_view(self.outbound_acks@) =~= before.app.acks.insert(id.0, w));
        } else {
            self.released.push((ack, true));
        }
    }

    /// Carries out one message of the application on a channel.
    fn dispatch_channel(&mut self, id: ChannelId, msg: ChannelMsg) -> (r: Result<(), Error>)
        requires
            old(self).peer().ok(),
            old(self)@.takes(Msg::Channel(id, msg)),
        ensures
            (final(self)@, r) == old(self)@.channel_told(id.0, msg),
            final(self).peer().ok(),
    {
        match msg {
            ChannelMsg::Data { data } => self.data(id, data),
            ChannelMsg::ExtendedData { ext, data } => self.extended_data(id, ext, data),
            ChannelMsg::Eof => self.eof(id),
            ChannelMsg::Close => self.close(id),
            ChannelMsg::Success => self.channel_success(id),
            ChannelMsg::Failure => self.channel_failure(id),
            ChannelMsg::XonXoff { client_can_do } => self.xon_xoff_request(id, client_can_do),
            ChannelMsg::ExitStatus { exit_status } => self.exit_status_request(id, exit_status),
            ChannelMsg::ExitSignal { signal_name, core_dumped, error_message, lang_tag } => {
                self.exit_signal_request(
                    id,
                    signal_name.as_str(),
                    core_dumped,
                    error_message.as_str(),
                    lang_tag.as_str(),
                )
            },
            ChannelMsg::WindowAdjusted { .. } => Ok(()),
        }
    }

    /// Carries out a message that asks for a channel.
    fn dispatch_open(&mut self, msg: Msg) -> (r: Result<(), Error>)
        requires
            old(self)@.takes(msg),
            !(msg is Channel || msg is ChannelDataAcked || msg is TcpIpForward
                || msg is CancelTcpIpForward || msg is Disconnect),
        ensures
            (final(self)@, r) == old(self)@.told(msg),
            old(self).peer().ok() && msg.frames() ==> final(self).peer().ok(),
    {
        match msg {
            Msg::ChannelOpenAgent { channel_ref } => {
                let opened = self.channel_open_agent();
                self.bind(opened, channel_ref)
            },
            Msg::ChannelOpenSession { channel_ref } => {
                let opened = self.channel_open_session();
                self.bind(opened, channel_ref)
            },
            Msg::ChannelOpenDirectTcpIp {
                host_to_connect,
                port_to_connect,
                originator_address,
                originator_port,
                channel_ref,
            } => {
                let opened = self.channel_open_direct_tcpip(
                    host_to_connect.as_str(),
                    port_to_connect,
                    originator_address.as_str(),
                    originator_port,
                );
                self.bind(opened, channel_ref)
            },
            Msg::ChannelOpenDirectStreamLocal { socket_path, channel_ref } => {
                let opened = self.channel_open_direct_streamlocal(socket_path.as_str());
                self.bind(opened, channel_ref)
            },
            Msg::ChannelOpenForwardedTcpIp {
                connected_address,
                connected_port,
                originator_address,
                originator_port,
                channel_ref,
            } => {
                let opened = self.channel_open_forwarded_tcpip(
                    connected_address.as_str(),
                    connected_port,
                    originator_address.as_str(),
                    originator_port,
                );
                self.bind(opened, channel_ref)
            },
            Msg::ChannelOpenForwardedStreamLocal { server_socket_path, channel_ref } => {
                let opened = self.channel_open_forwarded_streamlocal(server_socket_path.as_str());
                self.bind(opened, channel_ref)
            },
            Msg::ChannelOpenX11 { originator_address, originator_port, channel_ref } => {
                let opened = self.channel_open_x11(originator_address.as_str(), originator_port);
                self.bind(opened, channel_ref)
            },
            _ => Ok(()),
        }
    }

    /// Whether a channel, if it is there, is confirmed.
    pub(crate) fn is_confirmed(&self, id: ChannelId) -> (r: bool)
        ensures
            r == self@.confirmed(id.0),
    {
        match &self.common.encrypted {
            Some(enc) => match enc.channels.get(&id.0) {
                Some(ch) => ch.confirmed,
                None => true,
            },
            None => true,
        }
    }

    /// Whether a number is left for a new channel.
    pub(crate) fn has_room(&self) -> (r: bool)
        ensures
            r == self@.has_room(),
    {
        match &self.common.encrypted {
            Some(enc) => {
                proof {
                    assert(enc.channels@.dom() =~= enc@.channels.dom());
                    lemma_few_leave_room(enc@.channels.dom());
                }
                (enc.channels.len() as u64) < 0x1_0000_0000
            },
            None => true,
        }
    }

    /// Whether the session can take a message now, see [`Sess::takes`], and its
    /// texts are short enough to be framed.
    #[verifier::rlimit(60)]
    pub fn can_take(&self, msg: &Msg) -> (r: bool)
        ensures
            r == (self@.takes(*msg) && msg.is_short()),
            r ==> msg.frames(),
    {
        if !msg.has_short_texts() {
            return false;
        }
        proof {
            lemma_short_texts_frame(*msg);
            lemma_short_signals_fit(self@, *msg);
        }
        match msg {
            Msg::Channel(id, c) => match c {
                ChannelMsg::Data { .. } | ChannelMsg::ExtendedData { .. } | ChannelMsg::Eof
                | ChannelMsg::Close => self.common.encrypted.is_some(),
                ChannelMsg::WindowAdjusted { .. } => true,
                _ => self.is_confirmed(*id),
            },
            Msg::ChannelDataAcked { .. } => self.common.encrypted.is_some(),
            Msg::TcpIpForward { .. } | Msg::CancelTcpIpForward { .. } | Msg::Disconnect { .. } => {
                true
            },
            _ => self.has_room(),
        }
    }

    /// Carries out one message of the application, after the decisions that
    /// wait.
    pub fn dispatch_msg(&mut self, msg: Msg) -> (r: Result<(), Error>)
        requires
            old(self).peer().ok(),
            old(self).app().replies_fit(),
            old(self)@.opens_decided().1 is Ok ==> old(self)@.opens_decided().0.takes(msg),
        ensures
            (final(self)@, r) == old(self)@.dispatched(msg),
            msg.frames() ==> final(self).peer().ok(),
    {
        self.drain_open_replies()?;
        match msg {
            Msg::Channel(id, c) => self.dispatch_channel(id, c),
            Msg::ChannelDataAcked { id, ext, data, ack } => {
                match ext {
                    None => self.data(id, data)?,
                    Some(e) => self.extended_data(id, e, data)?,
                }
                self.note_producer(id, ack);
                Ok(())
            },
            Msg::TcpIpForward { reply_channel, address, port } => self.tcpip_forward(
                address.as_str(),
                port,
                reply_channel,
            ),
            Msg::CancelTcpIpForward { reply_channel, address, port } => self.cancel_tcpip_forward(
                address.as_str(),
                port,
                reply_channel,
            ),
            Msg::Disconnect { reason, description, language_tag } => self.disconnect(
                reason,
                description.as_str(),
                language_tag.as_str(),
            ),
            other => self.dispatch_open(other),
        }
    }
}

} // verus!
