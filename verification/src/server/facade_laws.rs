//! A method called from another task does what the same message does, and
//! answers what it says.
use vstd::prelude::*;

use crate::channel::ChannelId;
use crate::error::Error;
use crate::server::dispatch::{ChannelMsg, Msg};
use crate::server::facade::{FacadeCmd, FacadeReply};
use crate::server::request_laws;
use crate::server::requests;
use crate::server::session::{ChannelRef, GlobalRequestResponse, Peer, Sess};
use crate::session::EncryptedState;
use crate::wire;

verus! {

/// The message that says the same as a command, where there is one.
pub open spec fn same_as(c: FacadeCmd) -> Option<Msg> {
    match c {
        FacadeCmd::Data { channel, data } => Some(Msg::Channel(channel, ChannelMsg::Data { data })),
        FacadeCmd::ExtendedData { channel, ext, data } => Some(
            Msg::Channel(channel, ChannelMsg::ExtendedData { ext, data }),
        ),
        FacadeCmd::Eof { channel } => Some(Msg::Channel(channel, ChannelMsg::Eof)),
        FacadeCmd::Close { channel } => Some(Msg::Channel(channel, ChannelMsg::Close)),
        FacadeCmd::ChannelSuccess { channel } => Some(Msg::Channel(channel, ChannelMsg::Success)),
        FacadeCmd::ChannelFailure { channel } => Some(Msg::Channel(channel, ChannelMsg::Failure)),
        FacadeCmd::XonXoff { channel, client_can_do } => Some(
            Msg::Channel(channel, ChannelMsg::XonXoff { client_can_do }),
        ),
        FacadeCmd::ExitStatus { channel, exit_status } => Some(
            Msg::Channel(channel, ChannelMsg::ExitStatus { exit_status }),
        ),
        FacadeCmd::ExitSignal { channel, signal, core_dumped, error_message, language_tag } => Some(
            Msg::Channel(
                channel,
                ChannelMsg::ExitSignal {
                    signal_name: signal,
                    core_dumped,
                    error_message,
                    lang_tag: language_tag,
                },
            ),
        ),
        FacadeCmd::Disconnect { reason, description, language_tag } => Some(
            Msg::Disconnect { reason, description, language_tag },
        ),
        FacadeCmd::TcpipForward { address, port, reply_channel } => Some(
            Msg::TcpIpForward { reply_channel, address, port },
        ),
        FacadeCmd::CancelTcpipForward { address, port, reply_channel } => Some(
            Msg::CancelTcpIpForward { reply_channel, address, port },
        ),
        _ => None,
    }
}

/// A command does what the message does that says the same, and is answered
/// with its result.
pub proof fn law_commands_do_what_messages_do(s: Sess, c: FacadeCmd)
    requires
        same_as(c) is Some,
    ensures
        s.commanded(c) == (s.told(same_as(c)->0).0, FacadeReply::Done(s.told(same_as(c)->0).1)),
{
}

/// The message that asks for the same channel, for an application's end.
pub open spec fn opens_as(c: FacadeCmd, channel_ref: ChannelRef) -> Option<Msg> {
    match c {
        FacadeCmd::ChannelOpenSession => Some(Msg::ChannelOpenSession { channel_ref }),
        FacadeCmd::ChannelOpenAgent => Some(Msg::ChannelOpenAgent { channel_ref }),
        FacadeCmd::ChannelOpenDirectTcpip {
            host_to_connect,
            port_to_connect,
            originator_address,
            originator_port,
        } => Some(
            Msg::ChannelOpenDirectTcpIp {
                host_to_connect,
                port_to_connect,
                originator_address,
                originator_port,
                channel_ref,
            },
        ),
        FacadeCmd::ChannelOpenDirectStreamlocal { socket_path } => Some(
            Msg::ChannelOpenDirectStreamLocal { socket_path, channel_ref },
        ),
        FacadeCmd::ChannelOpenForwardedTcpip {
            connected_address,
            connected_port,
            originator_address,
            originator_port,
        } => Some(
            Msg::ChannelOpenForwardedTcpIp {
                connected_address,
                connected_port,
                originator_address,
                originator_port,
                channel_ref,
            },
        ),
        FacadeCmd::ChannelOpenForwardedStreamlocal { socket_path } => Some(
            Msg::ChannelOpenForwardedStreamLocal { server_socket_path: socket_path, channel_ref },
        ),
        FacadeCmd::ChannelOpenX11 { originator_address, originator_port } => Some(
            Msg::ChannelOpenX11 { originator_address, originator_port, channel_ref },
        ),
        _ => None,
    }
}

/// A command that asks for a channel asks the client for the same as the
/// message, and is answered with the channel's number or the error.
#[verifier::rlimit(40)]
pub proof fn law_commands_open_what_messages_open(s: Sess, c: FacadeCmd, channel_ref: ChannelRef)
    requires
        opens_as(c, channel_ref) is Some,
    ensures
        ({
            let (t, r) = s.commanded(c);
            let (u, x) = s.told(opens_as(c, channel_ref)->0);
            &&& r matches FacadeReply::Opened(y) && (y is Ok <==> x is Ok) && (y matches Err(e)
                ==> x == Err::<(), Error>(e))
            &&& t.peer.common == u.peer.common
            &&& t.peer.link == u.peer.link
            &&& t.peer.parked == u.peer.parked
            &&& t.app == s.app
            &&& r matches FacadeReply::Opened(Ok(id)) ==> u.app.channels == s.app.channels.insert(
                id.0,
                channel_ref,
            )
        }),
{
}

/// What a command that only asks is told is so, and nothing changes: a channel's
/// window and packet size, the smaller of them as what may be written, and
/// whether data waits. A channel that is gone has nothing.
pub proof fn law_questions_change_nothing(s: Sess, channel: ChannelId)
    ensures
        ({
            let lane = s.peer.lane(channel.0);
            let (a, x) = s.commanded(FacadeCmd::WindowSize { channel });
            let (b, y) = s.commanded(FacadeCmd::MaxPacketSize { channel });
            let (c, z) = s.commanded(FacadeCmd::WritablePacketSize { channel });
            let (d, v) = s.commanded(FacadeCmd::SenderWindowSize { channel });
            let (e, w) = s.commanded(FacadeCmd::HasPendingData { channel });
            &&& a == s && b == s && c == s && d == s && e == s
            &&& lane matches Some(l) ==> {
                &&& x == FacadeReply::Size(l.sender_window_size)
                &&& y == FacadeReply::Size(l.sender_maximum_packet_size)
                &&& z matches FacadeReply::Size(n) && n <= l.sender_window_size && n
                    <= l.sender_maximum_packet_size && (n == l.sender_window_size || n
                    == l.sender_maximum_packet_size)
                &&& v == FacadeReply::Length(l.sender_window_size as usize)
                &&& w == FacadeReply::Flag(l.data.len() > 0)
            }
            &&& lane is None ==> {
                &&& x == FacadeReply::Size(0)
                &&& y == FacadeReply::Size(0)
                &&& z == FacadeReply::Size(0)
                &&& v == FacadeReply::Length(0)
                &&& w == FacadeReply::Flag(false)
            }
        }),
{
}

/// The other commands do what they are called.
pub proof fn law_other_commands(s: Sess, channel: ChannelId, waiter: u64)
    ensures
        s.commanded(FacadeCmd::Flush) == (
            Sess { peer: s.peer.flushed().0, ..s },
            FacadeReply::Done(s.peer.flushed().1),
        ),
        s.commanded(FacadeCmd::FlushPendingFences { channel }).1 == FacadeReply::Count(
            s.peer.lane_flushed(channel.0, false).1,
        ),
        s.peer.blocked() ==> s.commanded(FacadeCmd::FlushPending { channel }) == s.commanded(
            FacadeCmd::FlushPendingFences { channel },
        ),
        !s.peer.blocked() ==> s.commanded(FacadeCmd::FlushPending { channel }).0.peer
            == s.peer.lane_flushed(channel.0, true).0,
        s.commanded(FacadeCmd::RequestFailure).0.peer == s.peer.global_replied(false, None),
        s.peer.common.wants_reply ==> s.commanded(FacadeCmd::RequestSuccess).0.peer
            == s.peer.global_replied(true, None),
        !s.peer.common.wants_reply ==> s.commanded(FacadeCmd::RequestSuccess).0 == s,
        s.commanded(FacadeCmd::SendPing { waiter }).0 == s.asked(
            Some(GlobalRequestResponse::Ping(waiter)),
            requests::keepalive_body(),
        ).0,
        s.commanded(FacadeCmd::Keepalive).0 == s.asked(
            Some(GlobalRequestResponse::Keepalive),
            requests::keepalive_body(),
        ).0,
{
}

} // verus!
