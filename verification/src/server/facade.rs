//! The session as it looks from another task: each method becomes a command in
//! a bounded queue, and the session carries it out and answers. A queue that is
//! full, or not there, refuses the command; nobody ever waits to get in.
use bytes::Bytes;
use std::collections::VecDeque;
use vstd::prelude::*;

use crate::channel::ChannelId;
use crate::common_session;
use crate::error::{ChannelOpenFailure, Error};
use crate::server::dispatch;
use crate::server::dispatch::short_text;
use crate::server::requests;
use crate::server::sending;
use crate::server::session::{GlobalRequestResponse, Peer, Sess, Session};
use crate::wire;
use crate::wire::MAX_FRAME_PAYLOAD;

verus! {

/// A method of the session, called from another task.
#[derive(Debug)]
pub enum FacadeCmd {
    WritablePacketSize { channel: ChannelId },
    WindowSize { channel: ChannelId },
    MaxPacketSize { channel: ChannelId },
    SenderWindowSize { channel: ChannelId },
    HasPendingData { channel: ChannelId },
    Flush,
    FlushPending { channel: ChannelId },
    FlushPendingFences { channel: ChannelId },
    Disconnect { reason: u32, description: String, language_tag: String },
    Debug { always_display: bool, message: String, language_tag: String },
    RequestSuccess,
    RequestFailure,
    ChannelSuccess { channel: ChannelId },
    ChannelFailure { channel: ChannelId },
    ChannelOpenFailure {
        channel: ChannelId,
        reason: ChannelOpenFailure,
        description: String,
        language: String,
    },
    Close { channel: ChannelId },
    Eof { channel: ChannelId },
    Data { channel: ChannelId, data: Bytes },
    ExtendedData { channel: ChannelId, ext: u32, data: Bytes },
    XonXoff { channel: ChannelId, client_can_do: bool },
    Keepalive,
    SendPing { waiter: u64 },
    ExitStatus { channel: ChannelId, exit_status: u32 },
    ExitSignal {
        channel: ChannelId,
        signal: String,
        core_dumped: bool,
        error_message: String,
        language_tag: String,
    },
    ChannelOpenSession,
    ChannelOpenAgent,
    ChannelOpenDirectTcpip {
        host_to_connect: String,
        port_to_connect: u32,
        originator_address: String,
        originator_port: u32,
    },
    ChannelOpenDirectStreamlocal { socket_path: String },
    ChannelOpenForwardedTcpip {
        connected_address: String,
        connected_port: u32,
        originator_address: String,
        originator_port: u32,
    },
    ChannelOpenForwardedStreamlocal { socket_path: String },
    ChannelOpenX11 { originator_address: String, originator_port: u32 },
    TcpipForward { address: String, port: u32, reply_channel: Option<u64> },
    CancelTcpipForward { address: String, port: u32, reply_channel: Option<u64> },
}

/// What a method returned.
#[derive(Clone, Copy, Debug, PartialEq, Eq)]
pub enum FacadeReply {
    Size(u32),
    Length(usize),
    Flag(bool),
    Done(Result<(), Error>),
    Count(Result<usize, Error>),
    Opened(Result<ChannelId, Error>),
}

/// The queue between the tasks. Each command has a number, under which it is
/// answered.
#[derive(Debug)]
pub struct Facade {
    pub queue: VecDeque<(u64, FacadeCmd)>,
    pub capacity: usize,
    pub next_ticket: u64,
    /// A command came in since the session last looked.
    pub notified: bool,
}

impl Facade {
    /// An empty queue.
    pub fn new(capacity: usize) -> (r: Facade)
        ensures
            r.queue@ == Seq::<(u64, FacadeCmd)>::empty(),
            r.capacity == capacity,
            r.next_ticket == 0,
            !r.notified,
    {
        Facade { queue: VecDeque::new(), capacity, next_ticket: 0, notified: false }
    }
}

/// Puts a command in the queue and returns the number it is answered under.
/// Without a queue, and where it is full, the command is refused and nothing
/// changes.
pub fn push_facade(facade: &mut Option<Facade>, cmd: FacadeCmd) -> (r: Result<u64, Error>)
    ensures
        match *old(facade) {
            Some(f) if f.queue@.len() < f.capacity => {
                &&& r == Ok::<u64, Error>(f.next_ticket)
                &&& *final(facade) matches Some(g) && {
                    &&& g.queue@ == f.queue@.push((f.next_ticket, cmd))
                    &&& g.capacity == f.capacity
                    &&& g.next_ticket == f.next_ticket.wrapping_add(1)
                    &&& g.notified
                }
            },
            _ => r == Err::<u64, Error>(Error::SendError) && *final(facade) == *old(facade),
        },
{
    match facade {
        None => Err(Error::SendError),
        Some(f) => {
            if f.queue.len() >= f.capacity {
                return Err(Error::SendError);
            }
            let ticket: u64 = f.next_ticket;
            f.next_ticket = ticket.wrapping_add(1);
            f.queue.push_back((ticket, cmd));
            f.notified = true;
            Ok(ticket)
        },
    }
}

/// What a caller makes of the answer to a size: none is zero.
pub fn size_or_zero(reply: Option<FacadeReply>) -> (r: u32)
    ensures
        r == (match reply {
            Some(FacadeReply::Size(n)) => n,
            _ => 0,
        }),
{
    match reply {
        Some(FacadeReply::Size(n)) => n,
        _ => 0,
    }
}

/// What a caller makes of the answer to a length: none is zero.
pub fn length_or_zero(reply: Option<FacadeReply>) -> (r: usize)
    ensures
        r == (match reply {
            Some(FacadeReply::Length(n)) => n,
            _ => 0,
        }),
{
    match reply {
        Some(FacadeReply::Length(n)) => n,
        _ => 0,
    }
}

/// What a caller makes of the answer to a question: none is no.
pub fn flag_or_false(reply: Option<FacadeReply>) -> (r: bool)
    ensures
        r == (reply == Some(FacadeReply::Flag(true))),
{
    match reply {
        Some(FacadeReply::Flag(b)) => b,
        _ => false,
    }
}

/// What a caller makes of the answer to an action: none is an error.
pub fn facade_ok(reply: Option<FacadeReply>) -> (r: Result<(), Error>)
    ensures
        r == (match reply {
            Some(FacadeReply::Done(x)) => x,
            _ => Err(Error::SendError),
        }),
{
    match reply {
        Some(FacadeReply::Done(x)) => x,
        _ => Err(Error::SendError),
    }
}

/// What a caller makes of the answer to a flush: none is an error.
pub fn facade_count(reply: Option<FacadeReply>) -> (r: Result<usize, Error>)
    ensures
        r == (match reply {
            Some(FacadeReply::Count(x)) => x,
            _ => Err(Error::SendError),
        }),
{
    match reply {
        Some(FacadeReply::Count(x)) => x,
        _ => Err(Error::SendError),
    }
}

/// What a caller makes of the answer to a channel asked for: none is an error.
pub fn facade_opened(reply: Option<FacadeReply>) -> (r: Result<ChannelId, Error>)
    ensures
        r == (match reply {
            Some(FacadeReply::Opened(x)) => x,
            _ => Err(Error::SendError),
        }),
{
    match reply {
        Some(FacadeReply::Opened(x)) => x,
        _ => Err(Error::SendError),
    }
}

/// An action's result as an answer.
pub open spec fn done(x: (Sess, Result<(), Error>)) -> (Sess, FacadeReply) {
    (x.0, FacadeReply::Done(x.1))
}

/// A flush's result as an answer.
pub open spec fn count(s: Sess, x: (Peer, Result<usize, Error>)) -> (Sess, FacadeReply) {
    (Sess { peer: x.0, ..s }, FacadeReply::Count(x.1))
}

/// The result of a channel asked for as an answer.
pub open spec fn opened(s: Sess, x: (Peer, Result<ChannelId, Error>)) -> (Sess, FacadeReply) {
    (Sess { peer: x.0, ..s }, FacadeReply::Opened(x.1))
}

impl Sess {
    /// The window of a channel; none is zero.
    pub open spec fn window(self, id: u32) -> u32 {
        match self.peer.lane(id) {
            Some(l) => l.sender_window_size,
            None => 0,
        }
    }

    /// The packet size of a channel; none is zero.
    pub open spec fn packet_size(self, id: u32) -> u32 {
        match self.peer.lane(id) {
            Some(l) => l.sender_maximum_packet_size,
            None => 0,
        }
    }

    /// The most that the next packet on a channel may carry.
    pub open spec fn writable(self, id: u32) -> u32 {
        if self.window(id) < self.packet_size(id) {
            self.window(id)
        } else {
            self.packet_size(id)
        }
    }

    /// What a command does, and what it is answered: the same as the method.
    pub open spec fn commanded(self, c: FacadeCmd) -> (Sess, FacadeReply) {
        match c {
            FacadeCmd::WritablePacketSize { channel } => {
                (self, FacadeReply::Size(self.writable(channel.0)))
            },
            FacadeCmd::WindowSize { channel } => (self, FacadeReply::Size(self.window(channel.0))),
            FacadeCmd::MaxPacketSize { channel } => {
                (self, FacadeReply::Size(self.packet_size(channel.0)))
            },
            FacadeCmd::SenderWindowSize { channel } => {
                (self, FacadeReply::Length(self.window(channel.0) as usize))
            },
            FacadeCmd::HasPendingData { channel } => (
                self,
                FacadeReply::Flag(self.peer.lane(channel.0) matches Some(l) && l.data.len() > 0),
            ),
            FacadeCmd::Flush => done(self.and_peer(self.peer.flushed())),
            FacadeCmd::FlushPending { channel } => {
                count(self, self.peer.lane_flushed(channel.0, !self.peer.blocked()))
            },
            FacadeCmd::FlushPendingFences { channel } => {
                count(self, self.peer.lane_flushed(channel.0, false))
            },
            FacadeCmd::Disconnect { reason, description, language_tag } => done(
                self.and_peer(
                    self.peer.disconnected(
                        common_session::disconnect_body(
                            reason,
                            wire::text(description@),
                            wire::text(language_tag@),
                        ),
                    ),
                ),
            ),
            FacadeCmd::Debug { always_display, message, language_tag } => {
                let b = common_session::debug_body(
                    always_display,
                    wire::text(message@),
                    wire::text(language_tag@),
                );
                (
                    Sess { peer: Peer { common: self.peer.common.sent(b), ..self.peer }, ..self },
                    FacadeReply::Done(b.result()),
                )
            },
            FacadeCmd::RequestSuccess => (
                Sess {
                    peer: if self.peer.common.wants_reply {
                        self.peer.global_replied(true, None)
                    } else {
                        self.peer
                    },
                    ..self
                },
                FacadeReply::Done(Ok(())),
            ),
            FacadeCmd::RequestFailure => (
                Sess { peer: self.peer.global_replied(false, None), ..self },
                FacadeReply::Done(Ok(())),
            ),
            FacadeCmd::ChannelSuccess { channel } => {
                done(self.and_peer(self.peer.channel_replied(channel.0, true)))
            },
            FacadeCmd::ChannelFailure { channel } => {
                done(self.and_peer(self.peer.channel_replied(channel.0, false)))
            },
            FacadeCmd::ChannelOpenFailure { channel, reason, description, language } => {
                let b = requests::open_failure_body(
                    channel.0,
                    reason,
                    wire::text(description@),
                    wire::text(language@),
                );
                (
                    Sess { peer: self.peer.staged(b), ..self },
                    FacadeReply::Done(
                        if self.peer.common.enc is Some { b.result() } else { Ok(()) },
                    ),
                )
            },
            FacadeCmd::Close { channel } => done(self.closed(channel.0)),
            FacadeCmd::Eof { channel } => done(
                self.and_peer(
                    (match self.peer.lane(channel.0) {
                        Some(l) => self.peer.with_lane(channel.0, l.park_eof()),
                        None => self.peer,
                    }).let_out(channel.0),
                ),
            ),
            FacadeCmd::Data { channel, data } => {
                done(self.data_sent(channel.0, wire::bytes_view(data), None))
            },
            FacadeCmd::ExtendedData { channel, ext, data } => {
                done(self.data_sent(channel.0, wire::bytes_view(data), Some(ext)))
            },
            FacadeCmd::XonXoff { channel, client_can_do } => done(
                self.and_peer(
                    self.peer.requested(
                        channel.0,
                        sending::xon_xoff_body(self.peer.number_of(channel.0), client_can_do),
                    ),
                ),
            ),
            FacadeCmd::Keepalive => {
                done(self.asked(Some(GlobalRequestResponse::Keepalive), requests::keepalive_body()))
            },
            FacadeCmd::SendPing { waiter } => {
                done(
                    self.asked(
                        Some(GlobalRequestResponse::Ping(waiter)),
                        requests::keepalive_body(),
                    ),
                )
            },
            FacadeCmd::ExitStatus { channel, exit_status } => done(
                self.and_peer(
                    self.peer.requested(
                        channel.0,
                        sending::exit_status_body(self.peer.number_of(channel.0), exit_status),
                    ),
                ),
            ),
            FacadeCmd::ExitSignal { channel, signal, core_dumped, error_message, language_tag } => {
                done(
                    self.and_peer(
                        self.peer.requested(
                            channel.0,
                            sending::exit_signal_body(
                                self.peer.number_of(channel.0),
                                wire::text(signal@),
                                core_dumped,
                                wire::text(error_message@),
                                wire::text(language_tag@),
                            ),
                        ),
                    ),
                )
            },
            FacadeCmd::ChannelOpenSession => {
                opened(self, self.peer.opened(wire::text("session"@), requests::no_fields()))
            },
            FacadeCmd::ChannelOpenAgent => opened(
                self,
                self.peer.opened(wire::text("auth-agent@openssh.com"@), requests::no_fields()),
            ),
            FacadeCmd::ChannelOpenDirectTcpip {
                host_to_connect,
                port_to_connect,
                originator_address,
                originator_port,
            } => opened(
                self,
                self.peer.opened(
                    wire::text("direct-tcpip"@),
                    requests::connection_fields(
                        wire::text(host_to_connect@),
                        port_to_connect,
                        wire::text(originator_address@),
                        originator_port,
                    ),
                ),
            ),
            FacadeCmd::ChannelOpenDirectStreamlocal { socket_path } => opened(
                self,
                self.peer.opened(
                    wire::text("direct-streamlocal@openssh.com"@),
                    requests::no_fields().str(wire::text(socket_path@)).str(wire::text(""@)).u32(0),
                ),
            ),
            FacadeCmd::ChannelOpenForwardedTcpip {
                connected_address,
                connected_port,
                originator_address,
                originator_port,
            } => opened(
                self,
                self.peer.opened(
                    wire::text("forwarded-tcpip"@),
                    requests::connection_fields(
                        wire::text(connected_address@),
                        connected_port,
                        wire::text(originator_address@),
                        originator_port,
                    ),
                ),
            ),
            FacadeCmd::ChannelOpenForwardedStreamlocal { socket_path } => opened(
                self,
                self.peer.opened(
                    wire::text("forwarded-streamlocal@openssh.com"@),
                    requests::no_fields().str(wire::text(socket_path@)).str(wire::text(""@)),
                ),
            ),
            FacadeCmd::ChannelOpenX11 { originator_address, originator_port } => opened(
                self,
                self.peer.opened(
                    wire::text("x11"@),
                    requests::no_fields().str(wire::text(originator_address@)).u32(originator_port),
                ),
            ),
            FacadeCmd::TcpipForward { address, port, reply_channel } => done(
                self.asked(
                    match reply_channel {
                        Some(w) => Some(GlobalRequestResponse::TcpIpForward(w)),
                        None => None,
                    },
                    requests::forward_body(
                        "tcpip-forward"@,
                        reply_channel is Some,
                        wire::text(address@),
                        port,
                    ),
                ),
            ),
            FacadeCmd::CancelTcpipForward { address, port, reply_channel } => done(
                self.asked(
                    match reply_channel {
                        Some(w) => Some(GlobalRequestResponse::CancelTcpIpForward(w)),
                        None => None,
                    },
                    requests::forward_body(
                        "cancel-tcpip-forward"@,
                        reply_channel is Some,
                        wire::text(address@),
                        port,
                    ),
                ),
            ),
        }
    }

    /// The session can take the command; see [`Sess::takes`].
    pub open spec fn takes_command(self, c: FacadeCmd) -> bool {
        match c {
            FacadeCmd::ChannelSuccess { channel } => self.confirmed(channel.0),
            FacadeCmd::ChannelFailure { channel } => self.confirmed(channel.0),
            FacadeCmd::Close { channel } => self.peer.common.enc is Some,
            FacadeCmd::Eof { channel } => self.peer.common.enc is Some,
            FacadeCmd::Data { channel, data } => self.peer.common.enc is Some,
            FacadeCmd::ExtendedData { channel, ext, data } => self.peer.common.enc is Some,
            FacadeCmd::XonXoff { channel, client_can_do } => self.confirmed(channel.0),
            FacadeCmd::ExitStatus { channel, exit_status } => self.confirmed(channel.0),
            FacadeCmd::ExitSignal { channel, signal, core_dumped, error_message, language_tag } => {
                let b = sending::exit_signal_body(
                    self.peer.number_of(channel.0),
                    wire::text(signal@),
                    core_dumped,
                    wire::text(error_message@),
                    wire::text(language_tag@),
                );
                self.confirmed(channel.0) && (b.complete ==> b.bytes.len() < MAX_FRAME_PAYLOAD)
            },
            FacadeCmd::ChannelOpenSession => self.has_room(),
            FacadeCmd::ChannelOpenAgent => self.has_room(),
            FacadeCmd::ChannelOpenDirectTcpip {
                host_to_connect,
                port_to_connect,
                originator_address,
                originator_port,
            } => self.has_room(),
            FacadeCmd::ChannelOpenDirectStreamlocal { socket_path } => self.has_room(),
            FacadeCmd::ChannelOpenForwardedTcpip {
                connected_address,
                connected_port,
                originator_address,
                originator_port,
            } => self.has_room(),
            FacadeCmd::ChannelOpenForwardedStreamlocal { socket_path } => self.has_room(),
            FacadeCmd::ChannelOpenX11 { originator_address, originator_port } => self.has_room(),
            _ => true,
        }
    }
}

impl FacadeCmd {
    /// Whether every text of the command is short.
    pub fn has_short_texts(&self) -> (r: bool)
        ensures
            r == self.is_short(),
    {
        match self {
            FacadeCmd::ExitSignal { signal, error_message, language_tag, .. } => {
                short_text(signal.as_str()) && short_text(error_message.as_str()) && short_text(
                    language_tag.as_str(),
                )
            },
            FacadeCmd::Disconnect { description, language_tag, .. } => {
                short_text(description.as_str()) && short_text(language_tag.as_str())
            },
            FacadeCmd::Debug { message, language_tag, .. } => {
                short_text(message.as_str()) && short_text(language_tag.as_str())
            },
            FacadeCmd::ChannelOpenFailure { description, language, .. } => {
                short_text(description.as_str()) && short_text(language.as_str())
            },
            FacadeCmd::ChannelOpenDirectTcpip { host_to_connect, originator_address, .. } => {
                short_text(host_to_connect.as_str()) && short_text(originator_address.as_str())
            },
            FacadeCmd::ChannelOpenForwardedTcpip { connected_address, originator_address, .. } => {
                short_text(connected_address.as_str()) && short_text(originator_address.as_str())
            },
            FacadeCmd::ChannelOpenDirectStreamlocal { socket_path }
            | FacadeCmd::ChannelOpenForwardedStreamlocal { socket_path } => {
                short_text(socket_path.as_str())
            },
            FacadeCmd::ChannelOpenX11 { originator_address, .. } => {
                short_text(originator_address.as_str())
            },
            FacadeCmd::TcpipForward { address, .. }
            | FacadeCmd::CancelTcpipForward { address, .. } => short_text(address.as_str()),
            _ => true,
        }
    }

    /// Every text of the command is short.
    pub open spec fn is_short(self) -> bool {
        match self {
            FacadeCmd::ExitSignal { signal, error_message, language_tag, .. } => {
                dispatch::is_short(signal@) && dispatch::is_short(error_message@)
                    && dispatch::is_short(language_tag@)
            },
            FacadeCmd::Disconnect { description, language_tag, .. } => {
                dispatch::is_short(description@) && dispatch::is_short(language_tag@)
            },
            FacadeCmd::Debug { message, language_tag, .. } => {
                dispatch::is_short(message@) && dispatch::is_short(language_tag@)
            },
            FacadeCmd::ChannelOpenFailure { description, language, .. } => {
                dispatch::is_short(description@) && dispatch::is_short(language@)
            },
            FacadeCmd::ChannelOpenDirectTcpip { host_to_connect, originator_address, .. } => {
                dispatch::is_short(host_to_connect@) && dispatch::is_short(originator_address@)
            },
            FacadeCmd::ChannelOpenForwardedTcpip { connected_address, originator_address, .. } => {
                dispatch::is_short(connected_address@) && dispatch::is_short(originator_address@)
            },
            FacadeCmd::ChannelOpenDirectStreamlocal { socket_path } => {
                dispatch::is_short(socket_path@)
            },
            FacadeCmd::ChannelOpenForwardedStreamlocal { socket_path } => {
                dispatch::is_short(socket_path@)
            },
            FacadeCmd::ChannelOpenX11 { originator_address, .. } => {
                dispatch::is_short(originator_address@)
            },
            FacadeCmd::TcpipForward { address, .. } => dispatch::is_short(address@),
            FacadeCmd::CancelTcpipForward { address, .. } => dispatch::is_short(address@),
            _ => true,
        }
    }

    /// What the command sends can be framed.
    pub open spec fn frames(self) -> bool {
        match self {
            FacadeCmd::Disconnect { reason, description, language_tag } => {
                common_session::disconnect_body(
                    reason,
                    wire::text(description@),
                    wire::text(language_tag@),
                ).frames()
            },
            FacadeCmd::Debug { always_display, message, language_tag } => {
                common_session::debug_body(
                    always_display,
                    wire::text(message@),
                    wire::text(language_tag@),
                ).frames()
            },
            FacadeCmd::ChannelOpenFailure { channel, reason, description, language } => {
                requests::open_failure_body(
                    channel.0,
                    reason,
                    wire::text(description@),
                    wire::text(language@),
                ).frames()
            },
            FacadeCmd::ChannelOpenDirectTcpip {
                host_to_connect,
                port_to_connect,
                originator_address,
                originator_port,
            } => requests::connection_fields(
                wire::text(host_to_connect@),
                port_to_connect,
                wire::text(originator_address@),
                originator_port,
            ).bytes.len() <= 0xff00_0000,
            FacadeCmd::ChannelOpenDirectStreamlocal { socket_path } => requests::no_fields().str(
                wire::text(socket_path@),
            ).str(wire::text(""@)).u32(0).bytes.len() <= 0xff00_0000,
            FacadeCmd::ChannelOpenForwardedTcpip {
                connected_address,
                connected_port,
                originator_address,
                originator_port,
            } => requests::connection_fields(
                wire::text(connected_address@),
                connected_port,
                wire::text(originator_address@),
                originator_port,
            ).bytes.len() <= 0xff00_0000,
            FacadeCmd::ChannelOpenForwardedStreamlocal { socket_path } => {
                requests::no_fields().str(wire::text(socket_path@)).str(
                    wire::text(""@),
                ).bytes.len() <= 0xff00_0000
            },
            FacadeCmd::ChannelOpenX11 { originator_address, originator_port } => {
                requests::no_fields().str(wire::text(originator_address@)).u32(
                    originator_port,
                ).bytes.len() <= 0xff00_0000
            },
            FacadeCmd::TcpipForward { address, port, reply_channel } => requests::forward_body(
                "tcpip-forward"@,
                reply_channel is Some,
                wire::text(address@),
                port,
            ).frames(),
            FacadeCmd::CancelTcpipForward { address, port, reply_channel } => {
                requests::forward_body(
                    "cancel-tcpip-forward"@,
                    reply_channel is Some,
                    wire::text(address@),
                    port,
                ).frames()
            },
            _ => true,
        }
    }
}

impl Session {
    /// Whether the session can take a command now, see
    /// [`Sess::takes_command`], and its texts are short enough to be framed.
    #[verifier::rlimit(60)]
    pub fn can_take_command(&self, cmd: &FacadeCmd) -> (r: bool)
        ensures
            r == (self@.takes_command(*cmd) && cmd.is_short()),
            r ==> cmd.frames(),
    {
        proof {
            reveal_strlit("exit-signal");
            sending::lemma_ascii_len("exit-signal");
            reveal_strlit("tcpip-forward");
            sending::lemma_ascii_len("tcpip-forward");
            reveal_strlit("cancel-tcpip-forward");
            sending::lemma_ascii_len("cancel-tcpip-forward");
            reveal_strlit("");
            sending::lemma_ascii_len("");
        }
        if !cmd.has_short_texts() {
            return false;
        }
        match cmd {
            FacadeCmd::ChannelSuccess { channel } | FacadeCmd::ChannelFailure { channel } => {
                self.is_confirmed(*channel)
            },
            FacadeCmd::XonXoff { channel, .. } | FacadeCmd::ExitStatus { channel, .. }
            | FacadeCmd::ExitSignal { channel, .. } => self.is_confirmed(*channel),
            FacadeCmd::Close { .. } | FacadeCmd::Eof { .. } | FacadeCmd::Data { .. }
            | FacadeCmd::ExtendedData { .. } => self.common.encrypted.is_some(),
            FacadeCmd::ChannelOpenSession | FacadeCmd::ChannelOpenAgent
            | FacadeCmd::ChannelOpenDirectTcpip { .. }
            | FacadeCmd::ChannelOpenDirectStreamlocal { .. }
            | FacadeCmd::ChannelOpenForwardedTcpip { .. }
            | FacadeCmd::ChannelOpenForwardedStreamlocal { .. }
            | FacadeCmd::ChannelOpenX11 { .. } => self.has_room(),
            _ => true,
        }
    }

    /// Carries out a command of another task and answers it.
    pub fn apply_facade(&mut self, cmd: FacadeCmd) -> (r: FacadeReply)
        requires
            old(self).peer().ok(),
            old(self)@.takes_command(cmd),
        ensures
            (final(self)@, r) == old(self)@.commanded(cmd),
            cmd.frames() ==> final(self).peer().ok(),
    {
        match cmd {
            FacadeCmd::WritablePacketSize { channel } => {
                FacadeReply::Size(self.writable_packet_size(channel))
            },
            FacadeCmd::WindowSize { channel } => FacadeReply::Size(self.window_size(channel)),
            FacadeCmd::MaxPacketSize { channel } => {
                FacadeReply::Size(self.max_packet_size(channel))
            },
            FacadeCmd::SenderWindowSize { channel } => {
                FacadeReply::Length(self.sender_window_size(channel))
            },
            FacadeCmd::HasPendingData { channel } => {
                FacadeReply::Flag(self.has_pending_data(channel))
            },
            FacadeCmd::Flush => FacadeReply::Done(self.flush()),
            FacadeCmd::FlushPending { channel } => FacadeReply::Count(self.flush_pending(channel)),
            FacadeCmd::FlushPendingFences { channel } => {
                FacadeReply::Count(self.flush_pending_fences(channel))
            },
            FacadeCmd::Disconnect { reason, description, language_tag } => {
                FacadeReply::Done(
                    self.disconnect(reason, description.as_str(), language_tag.as_str()),
                )
            },
            FacadeCmd::Debug { always_display, message, language_tag } => {
                FacadeReply::Done(
                    self.debug(always_display, message.as_str(), language_tag.as_str()),
                )
            },
            FacadeCmd::RequestSuccess => { self.request_success(); FacadeReply::Done(Ok(())) },
            FacadeCmd::RequestFailure => { self.request_failure(); FacadeReply::Done(Ok(())) },
            FacadeCmd::ChannelSuccess { channel } => {
                FacadeReply::Done(self.channel_success(channel))
            },
            FacadeCmd::ChannelFailure { channel } => {
                FacadeReply::Done(self.channel_failure(channel))
            },
            FacadeCmd::ChannelOpenFailure { channel, reason, description, language } => {
                FacadeReply::Done(
                    self.channel_open_failure(
                        channel,
                        reason,
                        description.as_str(),
                        language.as_str(),
                    ),
                )
            },
            FacadeCmd::Close { channel } => FacadeReply::Done(self.close(channel)),
            FacadeCmd::Eof { channel } => FacadeReply::Done(self.eof(channel)),
            FacadeCmd::Data { channel, data } => FacadeReply::Done(self.data(channel, data)),
            FacadeCmd::ExtendedData { channel, ext, data } => {
                FacadeReply::Done(self.extended_data(channel, ext, data))
            },
            FacadeCmd::XonXoff { channel, client_can_do } => {
                FacadeReply::Done(self.xon_xoff_request(channel, client_can_do))
            },
            FacadeCmd::Keepalive => FacadeReply::Done(self.keepalive_request()),
            FacadeCmd::SendPing { waiter } => FacadeReply::Done(self.send_ping(waiter)),
            FacadeCmd::ExitStatus { channel, exit_status } => {
                FacadeReply::Done(self.exit_status_request(channel, exit_status))
            },
            FacadeCmd::ExitSignal { channel, signal, core_dumped, error_message, language_tag } => {
                FacadeReply::Done(
                    self.exit_signal_request(
                        channel,
                        signal.as_str(),
                        core_dumped,
                        error_message.as_str(),
                        language_tag.as_str(),
                    ),
                )
            },
            FacadeCmd::ChannelOpenSession => FacadeReply::Opened(self.channel_open_session()),
            FacadeCmd::ChannelOpenAgent => FacadeReply::Opened(self.channel_open_agent()),
            FacadeCmd::ChannelOpenDirectTcpip {
                host_to_connect,
                port_to_connect,
                originator_address,
                originator_port,
            } => FacadeReply::Opened(
                self.channel_open_direct_tcpip(
                    host_to_connect.as_str(),
                    port_to_connect,
                    originator_address.as_str(),
                    originator_port,
                ),
            ),
            FacadeCmd::ChannelOpenDirectStreamlocal { socket_path } => {
                FacadeReply::Opened(self.channel_open_direct_streamlocal(socket_path.as_str()))
            },
            FacadeCmd::ChannelOpenForwardedTcpip {
                connected_address,
                connected_port,
                originator_address,
                originator_port,
            } => FacadeReply::Opened(
                self.channel_open_forwarded_tcpip(
                    connected_address.as_str(),
                    connected_port,
                    originator_address.as_str(),
                    originator_port,
                ),
            ),
            FacadeCmd::ChannelOpenForwardedStreamlocal { socket_path } => {
                FacadeReply::Opened(self.channel_open_forwarded_streamlocal(socket_path.as_str()))
            },
            FacadeCmd::ChannelOpenX11 { originator_address, originator_port } => {
                FacadeReply::Opened(
                    self.channel_open_x11(originator_address.as_str(), originator_port),
                )
            },
            FacadeCmd::TcpipForward { address, port, reply_channel } => {
                FacadeReply::Done(self.tcpip_forward(address.as_str(), port, reply_channel))
            },
            FacadeCmd::CancelTcpipForward { address, port, reply_channel } => {
                FacadeReply::Done(self.cancel_tcpip_forward(address.as_str(), port, reply_channel))
            },
        }
    }
}

} // verus!
