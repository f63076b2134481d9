//! What this side asks and answers, as the client reads it: channels opened,
//! confirmed and refused, forwardings, pings, replies and the last word; and
//! what those who wait for something are told.
use vstd::prelude::*;

use crate::channel::{ChannelId, ChannelOpenConfirmation, Ctrl, Lane};
use crate::channel::ChannelLaneState;
use crate::common_session;
use crate::drain;
use crate::error::{ChannelOpenFailure, Error};
use crate::listing;
use crate::server::closing;
use crate::server::dispatch::{ChannelMsg, Msg};
use crate::server::facade;
use crate::server::facade::{FacadeCmd, FacadeReply};
use crate::server::message_laws;
use crate::server::message_laws::{open_for_ctrl, open_for_data, sendable};
use crate::server::reader::ReaderCmd;
use crate::server::requests;
use crate::server::sending;
use crate::server::session::{
    App, ChannelRef, GlobalRequestResponse, OpenReply, PendingOpen, Peer, Refused, Sess,
};
use crate::server::stream_laws::{streamed, told_all};
use crate::session::Staging;
use crate::staging_laws;
use crate::wire;
use crate::wire::{be32, ssh_string, text, Body, WIRE_OVERHEAD_PER_PACKET};
use crate::wire_laws;

verus! {

/// Between `s` and `t` exactly the packet `p` was staged, behind the others,
/// and nothing was submitted.
pub open spec fn staged_one(s: Peer, t: Peer, p: Seq<u8>) -> bool {
    &&& wire::packets(t.unsent()) == wire::packets(s.unsent()).push(p)
    &&& t.line() == s.line()
}

/// Between `s` and `t` nothing was staged or submitted.
pub open spec fn staged_none(s: Peer, t: Peer) -> bool {
    &&& wire::packets(t.unsent()) == wire::packets(s.unsent())
    &&& t.line() == s.line()
}

/// A whole packet staged is read back.
proof fn lemma_staged(s: Peer, b: Body)
    requires
        s.ok(),
        s.common.enc is Some,
        b.frames(),
    ensures
        staged_one(s, s.staged(b), b.bytes),
        s.staged(b).st().channels == s.st().channels,
{
    reveal(Staging::ok);
    let t = s.staged(b);
    wire::lemma_frame_appended(s.unsent(), b.bytes);
    assert(t.unsent() =~= s.unsent() + wire::frame(b.bytes));
}

/// The client asks for a channel under its own number and the application
/// accepts it under this side's: the one thing that is staged is a
/// CHANNEL_OPEN_CONFIRMATION with the client's number, this side's number, the
/// window and the packet size, in this order. The channel is known to the
/// application from then on, and the reader is told to expect it.
pub proof fn law_accepted_channel_is_confirmed(s: Sess, p: PendingOpen, other: u32)
    requires
        s.peer.ok(),
        s.peer.common.enc is Some,
        p.lane.fits(),
        p.lane.ctrl.len() == 0,
        p.lane.data.len() == 0,
        open_for_ctrl(p.lane),
        p.lane.state == ChannelLaneState::Opening,
        other != p.sender_channel.0,
    ensures
        ({
            let id = p.sender_channel.0;
            let (t, r) = s.open_decided(OpenReply { pending: p, result: Ok(()) });
            &&& r is Ok
            &&& staged_one(
                s.peer,
                t.peer,
                seq![91u8] + be32(p.recipient_channel) + be32(id) + be32(p.window_size) + be32(
                    p.packet_size,
                ),
            )
            &&& t.app.channels.contains_key(id) && t.app.channels[id] == p.channel_ref
            &&& t.peer.lane(id) matches Some(l) && l.state == ChannelLaneState::Confirmed
                && l.recipient_channel == p.lane.recipient_channel && l.recipient_window_size
                == p.lane.recipient_window_size && l.sender_window_size
                == p.lane.sender_window_size && l.ctrl.len() == 0
            &&& t.peer.lane(other) == s.peer.lane(other)
            &&& t.app.channels.contains_key(other) == s.app.channels.contains_key(other)
            &&& s.peer.reader is Some ==> (t.peer.reader matches Some(x) && x.lanes.contains_key(id)
                && x.cmds.len() == s.peer.reader->0.cmds.len() + 1 && (
            x.cmds.last() matches ReaderCmd::OpenLane { id: i, generation, window, max_packet } && i
                == id && generation == x.lanes[id].generation && window
                == s.peer.config.window_size && max_packet == s.peer.config.maximum_packet_size))
            &&& t.app.open_replies == s.app.open_replies
        }),
{
    reveal(Staging::ok);
    reveal(Sess::open_decided);
    let id = p.sender_channel.0;
    let c = Ctrl::OpenConfirmation {
        recipient_channel: p.recipient_channel,
        sender_channel: id,
        window_size: p.window_size,
        packet_size: p.packet_size,
    };
    let l = p.lane.enqueue_ctrl(c);
    let want = seq![91u8] + be32(p.recipient_channel) + be32(id) + be32(p.window_size) + be32(
        p.packet_size,
    );
    let g = drain::gate_open();
    wire_laws::law_control_messages(
        l.recipient_channel,
        p.recipient_channel,
        id,
        p.window_size,
        p.packet_size,
    );
    sending::lemma_enqueue_fits(p.lane, c);
    drain::lemma_drain_ctrl(l, g, true);
    drain::lemma_drain_stop(l.pop_ctrl(), g, true);
    let d = drain::drain(l, g, true);
    assert(d.packets =~= seq![want]);
    let st = s.peer.st().with_lane(id, l);
    closing::lemma_with_lane_ok(s.peer.st(), id, l);
    staging_laws::law_flush_lane_appends(st, id, g, true);
    assert(st.unsent() =~= s.peer.unsent());
    let t = s.open_decided(OpenReply { pending: p, result: Ok(()) }).0;
    assert(wire::packets(s.peer.unsent()) + d.packets =~= wire::packets(s.peer.unsent()).push(
        want,
    ));
}

/// The application refuses a channel that the client asked for: the one thing
/// that is staged is a CHANNEL_OPEN_FAILURE with the client's number, the
/// reason and its description; no channel comes to be.
pub proof fn law_refused_channel_is_refused(s: Sess, p: PendingOpen, reason: Refused)
    requires
        s.peer.ok(),
        s.peer.common.enc is Some,
        reason.description.len() + 100 <= u32::MAX,
    ensures
        ({
            let (t, r) = s.open_decided(OpenReply { pending: p, result: Err(reason) });
            &&& r is Ok
            &&& staged_one(
                s.peer,
                t.peer,
                seq![92u8] + be32(p.recipient_channel) + be32(reason.reason.spec_code())
                    + ssh_string(reason.description) + ssh_string(text("en"@)),
            )
            &&& t.app == s.app
            &&& t.peer.st().channels == s.peer.st().channels
            &&& t.peer.reader == s.peer.reader
        }),
{
    reveal(Sess::open_decided);
    reveal_strlit("en");
    sending::lemma_ascii_len("en");
    wire_laws::law_refusals(
        p.recipient_channel,
        reason.reason,
        reason.description,
        text("en"@),
    );
    let b = requests::open_failure_body(
        p.recipient_channel,
        reason.reason,
        reason.description,
        text("en"@),
    );
    lemma_staged(s.peer, b);
}

/// A decision does not touch those that wait behind it.
proof fn lemma_decision_keeps_the_rest(s: Sess, r: OpenReply)
    ensures
        s.open_decided(r).0.app.open_replies == s.app.open_replies,
{
    reveal(Sess::open_decided);
}

/// Every decision that waits is carried out, the first one first: none is left
/// unless one failed.
pub proof fn law_every_decision_is_carried_out(s: Sess)
    ensures
        s.opens_decided().1 is Ok ==> s.opens_decided().0.app.open_replies.len() == 0,
        s.app.open_replies.len() > 0 ==> ({
            let rest = Sess {
                app: App { open_replies: s.app.open_replies.drop_first(), ..s.app },
                ..s
            };
            let (t, r) = rest.open_decided(s.app.open_replies[0]);
            &&& r is Ok ==> s.opens_decided() == t.opens_decided()
            &&& r is Err ==> s.opens_decided() == (t, r)
        }),
    decreases s.app.open_replies.len(),
{
    if s.app.open_replies.len() > 0 {
        let rest = Sess {
            app: App { open_replies: s.app.open_replies.drop_first(), ..s.app },
            ..s
        };
        lemma_decision_keeps_the_rest(rest, s.app.open_replies[0]);
        let t = rest.open_decided(s.app.open_replies[0]).0;
        law_every_decision_is_carried_out(t);
    }
}

/// Decisions come before any message of the application, so that its data finds
/// the channel it is for.
pub proof fn law_decisions_come_first(s: Sess, m: Msg)
    requires
        s.dispatched(m).1 is Ok,
    ensures
        s.opens_decided().1 is Ok,
        s.opens_decided().0.app.open_replies.len() == 0,
        s.dispatched(m) == s.opens_decided().0.told(m),
        s.app.open_replies.len() == 0 ==> s.dispatched(m) == s.told(m),
{
    law_every_decision_is_carried_out(s);
}

/// A channel of this side's own is asked for under a number that no channel
/// has, with this side's window and packet size; it waits for the client's
/// confirmation.
proof fn lemma_opened(s: Peer, kind: Seq<u8>, fields: Body, n: nat)
    requires
        s.ok(),
        s.common.enc matches Some(e) && e.keys.state.spec_post_auth(),
        s.st().first_free(n),
        fields.complete,
        kind.len() < 100,
        fields.bytes.len() <= 0xff00_0000,
        s.opened(kind, fields).1 is Ok,
    ensures
        ({
            let (t, r) = s.opened(kind, fields);
            let id = s.st().nth_id(n);
            &&& r == Ok::<ChannelId, Error>(ChannelId(id))
            &&& s.lane(id) is None
            &&& staged_one(
                s,
                t,
                seq![90u8] + ssh_string(kind) + be32(id) + be32(s.config.window_size) + be32(
                    s.config.maximum_packet_size,
                ) + fields.bytes,
            )
            &&& t.lane(id) matches Some(l) && !l.confirmed && l.sender_window_size
                == s.config.window_size && l.sender_maximum_packet_size
                == s.config.maximum_packet_size && l.recipient_window_size == 0 && l.data.len()
                == 0 && l.ctrl.len() == 0
            &&& t.st().last_channel_id == id
            &&& t.reader == s.reader
            &&& t.config == s.config
        }),
{
    reveal(Peer::opened);
    reveal(Staging::ok);
    requests::lemma_fresh_id(s.st(), n);
    let id = s.st().nth_id(n);
    let p = requests::open_packet(kind, id, s.config, fields.bytes);
    wire_laws::law_open_messages(kind, id, s.config, fields.bytes, Seq::empty(), 0, Seq::empty(), 0);
    wire::lemma_frame_appended(s.unsent(), p);
    let t = s.opened(kind, fields).0;
    assert(s.sampled().unsent() == s.unsent());
    assert(t.unsent() =~= s.unsent() + wire::frame(p));
}

/// What a request of the application for a channel asks the client for: the
/// kind of the channel and what belongs to it.
pub open spec fn asks_for(m: Msg) -> Option<(Seq<char>, Seq<u8>, ChannelRef)> {
    match m {
        Msg::ChannelOpenSession { channel_ref } => Some(("session"@, Seq::empty(), channel_ref)),
        Msg::ChannelOpenAgent { channel_ref } => Some(
            ("auth-agent@openssh.com"@, Seq::empty(), channel_ref),
        ),
        Msg::ChannelOpenDirectTcpIp {
            host_to_connect,
            port_to_connect,
            originator_address,
            originator_port,
            channel_ref,
        } => Some(
            (
                "direct-tcpip"@,
                ssh_string(text(host_to_connect@)) + be32(port_to_connect) + ssh_string(
                    text(originator_address@),
                ) + be32(originator_port),
                channel_ref,
            ),
        ),
        Msg::ChannelOpenForwardedTcpIp {
            connected_address,
            connected_port,
            originator_address,
            originator_port,
            channel_ref,
        } => Some(
            (
                "forwarded-tcpip"@,
                ssh_string(text(connected_address@)) + be32(connected_port) + ssh_string(
                    text(originator_address@),
                ) + be32(originator_port),
                channel_ref,
            ),
        ),
        Msg::ChannelOpenDirectStreamLocal { socket_path, channel_ref } => Some(
            (
                "direct-streamlocal@openssh.com"@,
                ssh_string(text(socket_path@)) + ssh_string(Seq::empty()) + be32(0),
                channel_ref,
            ),
        ),
        Msg::ChannelOpenForwardedStreamLocal { server_socket_path, channel_ref } => Some(
            (
                "forwarded-streamlocal@openssh.com"@,
                ssh_string(text(server_socket_path@)) + ssh_string(Seq::empty()),
                channel_ref,
            ),
        ),
        Msg::ChannelOpenX11 { originator_address, originator_port, channel_ref } => Some(
            (
                "x11"@,
                ssh_string(text(originator_address@)) + be32(originator_port),
                channel_ref,
            ),
        ),
        _ => None,
    }
}

/// The names of the kinds are short.
proof fn lemma_kinds_are_short()
    ensures
        text("session"@).len() < 100,
        text("auth-agent@openssh.com"@).len() < 100,
        text("direct-tcpip"@).len() < 100,
        text("forwarded-tcpip"@).len() < 100,
        text("direct-streamlocal@openssh.com"@).len() < 100,
        text("forwarded-streamlocal@openssh.com"@).len() < 100,
        text("x11"@).len() < 100,
        text(""@) == Seq::<u8>::empty(),
{
    reveal_strlit("session");
    reveal_strlit("auth-agent@openssh.com");
    reveal_strlit("direct-tcpip");
    reveal_strlit("forwarded-tcpip");
    reveal_strlit("direct-streamlocal@openssh.com");
    reveal_strlit("forwarded-streamlocal@openssh.com");
    reveal_strlit("x11");
    reveal_strlit("");
    sending::lemma_ascii_len("session");
    sending::lemma_ascii_len("auth-agent@openssh.com");
    sending::lemma_ascii_len("direct-tcpip");
    sending::lemma_ascii_len("forwarded-tcpip");
    sending::lemma_ascii_len("direct-streamlocal@openssh.com");
    sending::lemma_ascii_len("forwarded-streamlocal@openssh.com");
    sending::lemma_ascii_len("x11");
    sending::lemma_ascii_len("");
    assert(text(""@) =~= Seq::<u8>::empty());
}

/// A message that asks for a channel opens one of the kind and with the fields
/// that it names.
proof fn lemma_message_opens(s: Sess, m: Msg)
    requires
        asks_for(m) is Some,
        m.is_short(),
    ensures
        ({
            let (kind, fields, end) = asks_for(m)->0;
            &&& text(kind).len() < 100
            &&& fields.len() <= 0xff00_0000
            &&& s.told(m) == s.channel_opened(kind, Body { bytes: fields, complete: true }, end)
        }),
{
    lemma_kinds_are_short();
    let fields = (asks_for(m)->0).1;
    let config = s.peer.config;
    let b = Body { bytes: fields, complete: true };
    match m {
        Msg::ChannelOpenSession { .. } => {},
        Msg::ChannelOpenAgent { .. } => {},
        Msg::ChannelOpenDirectTcpIp {
            host_to_connect,
            port_to_connect,
            originator_address,
            originator_port,
            ..
        } => {
            wire_laws::law_open_messages(
                Seq::empty(),
                0,
                config,
                Seq::empty(),
                text(host_to_connect@),
                port_to_connect,
                text(originator_address@),
                originator_port,
            );
        },
        Msg::ChannelOpenForwardedTcpIp {
            connected_address,
            connected_port,
            originator_address,
            originator_port,
            ..
        } => {
            wire_laws::law_open_messages(
                Seq::empty(),
                0,
                config,
                Seq::empty(),
                text(connected_address@),
                connected_port,
                text(originator_address@),
                originator_port,
            );
        },
        Msg::ChannelOpenDirectStreamLocal { socket_path, .. } => {
            assert(requests::no_fields().str(text(socket_path@)).str(text(""@)).u32(0) =~= b);
        },
        Msg::ChannelOpenForwardedStreamLocal { server_socket_path, .. } => {
            assert(requests::no_fields().str(text(server_socket_path@)).str(text(""@)) =~= b);
        },
        Msg::ChannelOpenX11 { originator_address, originator_port, .. } => {
            assert(requests::no_fields().str(text(originator_address@)).u32(originator_port)
                =~= b);
        },
        _ => {},
    }
    assert(requests::no_fields() =~= (Body { bytes: Seq::empty(), complete: true }));
}

/// A message of the application that asks for a channel sends the client one
/// CHANNEL_OPEN of the kind and with the fields that it names, under a number
/// that no channel has, and binds that number to the application's end. The
/// reader is told to expect the channel.
pub proof fn law_channel_is_asked_for(s: Sess, m: Msg, n: nat)
    requires
        s.peer.ok(),
        s.peer.common.enc matches Some(e) && e.keys.state.spec_post_auth(),
        s.peer.st().first_free(n),
        asks_for(m) is Some,
        m.is_short(),
        s.told(m).1 is Ok,
    ensures
        ({
            let (kind, fields, end) = asks_for(m)->0;
            let id = s.peer.st().nth_id(n);
            let t = s.told(m).0;
            &&& s.peer.lane(id) is None
            &&& staged_one(
                s.peer,
                t.peer,
                seq![90u8] + ssh_string(text(kind)) + be32(id) + be32(s.peer.config.window_size)
                    + be32(s.peer.config.maximum_packet_size) + fields,
            )
            &&& t.peer.lane(id) matches Some(l) && !l.confirmed
            &&& t.app.channels == s.app.channels.insert(id, end)
            &&& s.peer.reader is Some ==> (t.peer.reader matches Some(x) && x.lanes.contains_key(
                id,
            ) && (x.cmds.last() matches ReaderCmd::OpenLane { id: i, generation, window, max_packet }
                && i == id && generation == x.lanes[id].generation && window
                == s.peer.config.window_size && max_packet == s.peer.config.maximum_packet_size))
        }),
{
    lemma_message_opens(s, m);
    let (kind, fields, end) = asks_for(m)->0;
    let b = Body { bytes: fields, complete: true };
    lemma_opened(s.peer, text(kind), b, n);
}

/// Before authentication, without keys, or beyond the budget no channel is
/// asked for: an error comes back, and nothing is staged.
pub proof fn law_channel_is_not_asked_for(s: Peer, kind: Seq<u8>, fields: Body)
    requires
        s.opened(kind, fields).1 is Err,
    ensures
        staged_none(s, s.opened(kind, fields).0),
        s.opened(kind, fields).0.common == s.common,
        fields.complete && !(s.common.enc matches Some(e) && e.keys.state.spec_post_auth()) ==> (
        s.opened(kind, fields).1 == Err::<ChannelId, Error>(Error::Inconsistent) || s.opened(
            kind,
            fields,
        ).1 == Err::<ChannelId, Error>(Error::SendError)),
{
    reveal(Peer::opened);
}

/// The client's confirmation: its number, window and packet size are what this
/// side sends by from then on, and the channel takes data; what was queued
/// stays queued.
pub proof fn law_confirmation_is_taken(l: Lane, c: ChannelOpenConfirmation)
    ensures
        ({
            let m = l.confirm(c);
            &&& m.recipient_channel == c.sender_channel
            &&& m.recipient_window_size == c.initial_window_size
            &&& m.recipient_maximum_packet_size == c.maximum_packet_size
            &&& m.confirmed
            &&& l.state == ChannelLaneState::Opening ==> m.state == ChannelLaneState::Confirmed
                && m.boost_pending
            &&& l.state != ChannelLaneState::Opening ==> m.state == l.state
            &&& m.data == l.data && m.ctrl == l.ctrl
            &&& m.sender_window_size == l.sender_window_size
        }),
{
}

/// A forwarding is asked for, or given up, with its address and port; the
/// client is asked to answer exactly where someone waits, and whoever waits
/// stands behind those who waited before.
pub proof fn law_forwarding_is_asked_for(
    s: Sess,
    who: Option<u64>,
    address: Seq<u8>,
    port: u32,
)
    requires
        s.peer.ok(),
        s.peer.common.enc is Some,
        address.len() < 0x1000_0000,
    ensures
        ({
            let w = seq![
                if who is Some {
                    1u8
                } else {
                    0u8
                },
            ];
            let (a, x) = s.asked(
                match who {
                    Some(k) => Some(GlobalRequestResponse::TcpIpForward(k)),
                    None => None,
                },
                requests::forward_body("tcpip-forward"@, who is Some, address, port),
            );
            let (b, y) = s.asked(
                match who {
                    Some(k) => Some(GlobalRequestResponse::CancelTcpIpForward(k)),
                    None => None,
                },
                requests::forward_body("cancel-tcpip-forward"@, who is Some, address, port),
            );
            &&& x is Ok && y is Ok
            &&& staged_one(
                s.peer,
                a.peer,
                seq![80u8] + ssh_string(text("tcpip-forward"@)) + w + ssh_string(address) + be32(
                    port,
                ),
            )
            &&& staged_one(
                s.peer,
                b.peer,
                seq![80u8] + ssh_string(text("cancel-tcpip-forward"@)) + w + ssh_string(address)
                    + be32(port),
            )
            &&& who matches Some(k) ==> a.app.requests == s.app.requests.push(
                GlobalRequestResponse::TcpIpForward(k),
            ) && b.app.requests == s.app.requests.push(
                GlobalRequestResponse::CancelTcpIpForward(k),
            )
            &&& who is None ==> a.app.requests == s.app.requests && b.app.requests
                == s.app.requests
        }),
{
    wire_laws::law_global_requests(who is Some, address, port);
    reveal_strlit("tcpip-forward");
    reveal_strlit("cancel-tcpip-forward");
    sending::lemma_ascii_len("tcpip-forward");
    sending::lemma_ascii_len("cancel-tcpip-forward");
    lemma_staged(s.peer, requests::forward_body("tcpip-forward"@, who is Some, address, port));
    lemma_staged(
        s.peer,
        requests::forward_body("cancel-tcpip-forward"@, who is Some, address, port),
    );
}

/// The application's messages about forwardings ask for just that.
pub proof fn law_forwarding_messages(
    s: Sess,
    reply_channel: Option<u64>,
    address: String,
    port: u32,
)
    ensures
        s.told(Msg::TcpIpForward { reply_channel, address, port }) == s.asked(
            match reply_channel {
                Some(k) => Some(GlobalRequestResponse::TcpIpForward(k)),
                None => None,
            },
            requests::forward_body("tcpip-forward"@, reply_channel is Some, text(address@), port),
        ),
        s.told(Msg::CancelTcpIpForward { reply_channel, address, port }) == s.asked(
            match reply_channel {
                Some(k) => Some(GlobalRequestResponse::CancelTcpIpForward(k)),
                None => None,
            },
            requests::forward_body(
                "cancel-tcpip-forward"@,
                reply_channel is Some,
                text(address@),
                port,
            ),
        ),
{
}

/// A ping is sent, and who waits for its answer is remembered in turn.
pub proof fn law_ping_is_sent(s: Sess, who: GlobalRequestResponse)
    requires
        s.peer.ok(),
        s.peer.common.enc is Some,
    ensures
        staged_one(
            s.peer,
            s.asked(Some(who), requests::keepalive_body()).0.peer,
            seq![80u8] + ssh_string(text("keepalive@openssh.com"@)) + seq![1u8],
        ),
        s.asked(Some(who), requests::keepalive_body()).0.app.requests == s.app.requests.push(who),
        s.asked(Some(who), requests::keepalive_body()).1 is Ok,
{
    wire_laws::law_global_requests(true, Seq::empty(), 0);
    reveal_strlit("keepalive@openssh.com");
    sending::lemma_ascii_len("keepalive@openssh.com");
    lemma_staged(s.peer, requests::keepalive_body());
}

/// A global request is answered as it was decided, with the port where there is
/// one, and only once; where the cap does not admit the answer, a session whose
/// client waits for it ends.
pub proof fn law_global_request_is_answered(s: Peer, success: bool, port: Option<u32>)
    requires
        s.ok(),
        s.common.enc is Some,
    ensures
        ({
            let t = s.global_replied(success, port);
            let head = seq![
                if success {
                    81u8
                } else {
                    82u8
                },
            ];
            let p = match port {
                Some(x) => head + be32(x),
                None => head,
            };
            let fits = wire::sat(
                s.backlog() as nat + (p.len() + WIRE_OVERHEAD_PER_PACKET as nat),
            ) < s.hard_cap();
            &&& fits ==> staged_one(s, t, p) && !t.common.wants_reply && t.cause == s.cause
            &&& !fits ==> staged_none(s, t)
            &&& !fits && s.common.wants_reply ==> t.cause is Some
            &&& t.st().channels == s.st().channels
        }),
{
    reveal(Staging::ok);
    let head = seq![
        if success {
            81u8
        } else {
            82u8
        },
    ];
    let p = match port {
        Some(x) => head + be32(x),
        None => head,
    };
    let t = s.global_replied(success, port);
    assert(s.sampled().unsent() == s.unsent());
    wire::lemma_frame_appended(s.unsent(), p);
    let fits = wire::sat(s.backlog() as nat + (p.len() + WIRE_OVERHEAD_PER_PACKET as nat))
        < s.hard_cap();
    if fits {
        assert(t.unsent() =~= s.unsent() + wire::frame(p));
    } else {
        assert(t.unsent() =~= s.unsent());
    }
}

/// The first DISCONNECT goes out with its reason and words, and none after it.
pub proof fn law_disconnect_is_said_once(
    s: Peer,
    reason: u32,
    words: Seq<u8>,
    language: Seq<u8>,
)
    requires
        s.ok(),
        s.common.enc is Some,
        words.len() < 0x1000_0000,
        language.len() < 0x1000_0000,
    ensures
        ({
            let (t, r) = s.disconnected(common_session::disconnect_body(reason, words, language));
            &&& r is Ok
            &&& t.common.disconnected
            &&& !s.common.disconnected ==> staged_one(
                s,
                t,
                seq![1u8] + be32(reason) + ssh_string(words) + ssh_string(language),
            )
            &&& s.common.disconnected ==> t == s
        }),
{
    reveal(Staging::ok);
    wire_laws::law_disconnect_and_debug(reason, true, words, language);
    let b = common_session::disconnect_body(reason, words, language);
    let t = s.disconnected(b).0;
    if !s.common.disconnected {
        wire::lemma_frame_appended(s.unsent(), b.bytes);
        assert(t.unsent() =~= s.unsent() + wire::frame(b.bytes));
    }
}

/// The data that a message carries: the channel, the stream and the bytes.
pub open spec fn carries(m: Msg) -> Option<(u32, Option<u32>, Seq<u8>)> {
    match m {
        Msg::Channel(id, ChannelMsg::Data { data }) => Some((id.0, None, wire::bytes_view(data))),
        Msg::Channel(id, ChannelMsg::ExtendedData { ext, data }) => Some(
            (id.0, Some(ext), wire::bytes_view(data)),
        ),
        Msg::ChannelDataAcked { id, ext, data, .. } => Some((id.0, ext, wire::bytes_view(data))),
        _ => None,
    }
}

/// A message that carries data appends it to the stream that it names of the
/// channel that it names, and to no other stream or channel; what is said
/// besides stays.
pub proof fn law_messages_data_joins_its_stream(
    s: Sess,
    m: Msg,
    y: u32,
    to: u32,
    ext: Option<u32>,
    cap: nat,
)
    requires
        carries(m) is Some,
        sendable(s.peer, y, to, cap, 0),
        s.told(m).1 is Ok,
        s.told(m).0.app.channels.contains_key((carries(m)->0).0),
    ensures
        ({
            let (id, e, bytes) = carries(m)->0;
            let t = s.told(m).0;
            &&& streamed(t.peer, y, to, ext) == streamed(s.peer, y, to, ext) + (if y == id && e
                == ext && open_for_data(s.peer, id) {
                bytes
            } else {
                Seq::empty()
            })
            &&& told_all(t.peer, y, to) == told_all(s.peer, y, to)
        }),
{
    let (id, e, bytes) = carries(m)->0;
    message_laws::law_data_joins_its_stream(s, id, bytes, e, y, to, ext, cap);
}

/// What a message has the client told on a channel, behind the message number
/// and the channel.
pub open spec fn utters(m: Msg) -> Option<(u32, u8, Seq<u8>)> {
    match m {
        Msg::Channel(id, ChannelMsg::Eof) => Some((id.0, 96u8, Seq::empty())),
        Msg::Channel(id, ChannelMsg::Close) => Some((id.0, 97u8, Seq::empty())),
        Msg::Channel(id, ChannelMsg::XonXoff { client_can_do }) => Some(
            (
                id.0,
                98u8,
                ssh_string(text("xon-xoff"@)) + seq![0u8] + seq![
                    if client_can_do {
                        1u8
                    } else {
                        0u8
                    },
                ],
            ),
        ),
        Msg::Channel(id, ChannelMsg::ExitStatus { exit_status }) => Some(
            (id.0, 98u8, ssh_string(text("exit-status"@)) + seq![0u8] + be32(exit_status)),
        ),
        Msg::Channel(
            id,
            ChannelMsg::ExitSignal { signal_name, core_dumped, error_message, lang_tag },
        ) => Some(
            (
                id.0,
                98u8,
                ssh_string(text("exit-signal"@)) + seq![0u8] + ssh_string(text(signal_name@))
                    + seq![
                    if core_dumped {
                        1u8
                    } else {
                        0u8
                    },
                ] + ssh_string(text(error_message@)) + ssh_string(text(lang_tag@)),
            ),
        ),
        _ => None,
    }
}

/// The requests among the messages are made as they say.
proof fn lemma_request_bodies(s: Sess, m: Msg)
    requires
        utters(m) is Some,
        (utters(m)->0).1 == 98,
        m.is_short(),
    ensures
        ({
            let (id, kind, rest) = utters(m)->0;
            s.told(m) == s.and_peer(
                s.peer.requested(
                    id,
                    Body { bytes: be32(s.peer.number_of(id)) + rest, complete: true },
                ),
            )
        }),
{
    let (id, kind, rest) = utters(m)->0;
    let number = s.peer.number_of(id);
    let whole = be32(number) + rest;
    match m {
        Msg::Channel(_, ChannelMsg::XonXoff { client_can_do }) => {
            wire_laws::law_channel_requests(
                number,
                client_can_do,
                0,
                Seq::empty(),
                true,
                Seq::empty(),
                Seq::empty(),
            );
            assert(sending::xon_xoff_body(number, client_can_do).bytes =~= whole);
        },
        Msg::Channel(_, ChannelMsg::ExitStatus { exit_status }) => {
            wire_laws::law_channel_requests(
                number,
                true,
                exit_status,
                Seq::empty(),
                true,
                Seq::empty(),
                Seq::empty(),
            );
            assert(sending::exit_status_body(number, exit_status).bytes =~= whole);
        },
        Msg::Channel(
            _,
            ChannelMsg::ExitSignal { signal_name, core_dumped, error_message, lang_tag },
        ) => {
            wire_laws::law_channel_requests(
                number,
                true,
                0,
                text(signal_name@),
                core_dumped,
                text(error_message@),
                text(lang_tag@),
            );
            assert(sending::exit_signal_body(
                number,
                text(signal_name@),
                core_dumped,
                text(error_message@),
                text(lang_tag@),
            ).bytes =~= whole);
        },
        _ => {},
    }
}

/// What requests say is short.
proof fn lemma_request_is_short(m: Msg)
    requires
        utters(m) is Some,
        m.is_short(),
    ensures
        (utters(m)->0).2.len() + 5 <= u32::MAX,
{
    reveal_strlit("xon-xoff");
    reveal_strlit("exit-status");
    reveal_strlit("exit-signal");
    sending::lemma_ascii_len("xon-xoff");
    sending::lemma_ascii_len("exit-status");
    sending::lemma_ascii_len("exit-signal");
}

/// A message that has something told on a channel has just that told there,
/// behind all that was said before, unless the channel was closed before (or,
/// for an EOF, had one); no data is touched, and no other channel is told
/// anything.
pub proof fn law_messages_are_told(
    s: Sess,
    m: Msg,
    y: u32,
    to: u32,
    ext: Option<u32>,
    cap: nat,
)
    requires
        utters(m) is Some,
        m.is_short(),
        s.peer.lane((utters(m)->0).0) is Some,
        sendable(s.peer, y, to, cap, (utters(m)->0).2.len() + 100),
        s.told(m).1 is Ok,
    ensures
        ({
            let (id, kind, rest) = utters(m)->0;
            let l = s.peer.lane(id)->0;
            let t = s.told(m).0;
            let said = y == id && open_for_ctrl(l) && !(kind == 96 && l.pending_eof);
            &&& streamed(t.peer, y, to, ext) == streamed(s.peer, y, to, ext)
            &&& told_all(t.peer, y, to) == (if said {
                told_all(s.peer, y, to).push(seq![kind] + be32(to) + rest)
            } else {
                told_all(s.peer, y, to)
            })
        }),
{
    let (id, kind, rest) = utters(m)->0;
    let l = s.peer.lane(id)->0;
    assert(seq![kind] + be32(to) + rest =~= seq![kind] + (be32(to) + rest));
    if kind == 98 {
        lemma_request_bodies(s, m);
        lemma_request_is_short(m);
        assert(s.peer.number_of(id) == l.recipient_channel);
        message_laws::law_request_is_made(s.peer, id, rest, y, to, ext, cap);
    } else {
        assert(rest =~= Seq::empty());
        assert(seq![kind] + be32(to) + rest =~= seq![kind] + be32(to));
        if kind == 96 {
            message_laws::law_eof_is_said(s, id, y, to, ext, cap);
        } else {
            message_laws::law_close_is_said(s, id, y, to, ext, cap);
        }
    }
}

/// SUCCESS and FAILURE answer the request on the channel that they name; what
/// the peer said about a window is nothing to be said.
pub proof fn law_replies_are_what_they_say(s: Sess, id: ChannelId, n: u32)
    ensures
        s.told(Msg::Channel(id, ChannelMsg::Success)).0.peer == s.peer.channel_replied(
            id.0,
            true,
        ).0,
        s.told(Msg::Channel(id, ChannelMsg::Failure)).0.peer == s.peer.channel_replied(
            id.0,
            false,
        ).0,
        s.told(Msg::Channel(id, ChannelMsg::WindowAdjusted { new_size: n })) == (
            s,
            Ok::<(), Error>(()),
        ),
{
}

/// A producer hears of its data once: at once that it went out where nothing
/// is left queued, at once that it did not where the channel has gone, and
/// else later, behind those that wait on the channel already.
pub proof fn law_producer_is_answered(s: Sess, id: u32, ack: u64, other: u32)
    requires
        other != id,
    ensures
        ({
            let t = s.producer_noted(id, ack);
            let waiting = if s.app.acks.contains_key(id) {
                s.app.acks[id]
            } else {
                Seq::empty()
            };
            &&& s.peer.lane(id) is None ==> t.app.released == s.app.released.push((ack, false))
                && t.app.acks == s.app.acks
            &&& (s.peer.lane(id) matches Some(l) && l.data.len() == 0) ==> t.app.released
                == s.app.released.push((ack, true)) && t.app.acks == s.app.acks
            &&& (s.peer.lane(id) matches Some(l) && l.data.len() > 0) ==> t.app.released
                == s.app.released && t.app.acks.contains_key(id) && t.app.acks[id]
                == waiting.push(ack)
            &&& t.app.acks.contains_key(other) == s.app.acks.contains_key(other)
            &&& s.app.acks.contains_key(other) ==> t.app.acks[other] == s.app.acks[other]
            &&& t.peer == s.peer
        }),
{
    let waiting = if s.app.acks.contains_key(id) {
        s.app.acks[id]
    } else {
        Seq::empty()
    };
    assert(Seq::<u64>::empty().push(ack) =~= seq![ack]);
}

/// A producer whose data was taken is answered by that same message.
pub proof fn law_acked_data_answers_its_producer(s: Sess, m: Msg)
    requires
        m matches Msg::ChannelDataAcked { .. },
        s.told(m).1 is Ok,
    ensures
        m matches Msg::ChannelDataAcked { id, ext, data, ack } && s.told(m).0 == s.data_sent(
            id.0,
            wire::bytes_view(data),
            ext,
        ).0.producer_noted(id.0, ack),
{
}

proof fn lemma_released_all(a: App, ids: Seq<u32>, id: u32)
    ensures
        ids.contains(id) && a.acks.contains_key(id) ==> !a.released_all(ids).acks.contains_key(id)
            && forall|i: int|
            0 <= i < a.acks[id].len() ==> a.released_all(ids).released.contains(
                (#[trigger] a.acks[id][i], true),
            ),
        !ids.contains(id) ==> a.released_all(ids).acks.contains_key(id) == a.acks.contains_key(id)
            && (a.acks.contains_key(id) ==> a.released_all(ids).acks[id] == a.acks[id]),
        !a.acks.contains_key(id) ==> !a.released_all(ids).acks.contains_key(id),
        forall|x: (u64, bool)| a.released.contains(x) ==> #[trigger] a.released_all(
            ids,
        ).released.contains(x),
    decreases ids.len(),
{
    if ids.len() > 0 {
        let b = a.released_on(ids[0], true);
        let rest = ids.drop_first();
        lemma_released_all(b, rest, id);
        let c = b.released_all(rest);
        assert(a.released_all(ids) == c);
        assert(ids.contains(id) <==> ids[0] == id || rest.contains(id)) by {
            if ids.contains(id) {
                let i = choose|i: int| 0 <= i < ids.len() && ids[i] == id;
                if i > 0 {
                    assert(rest[i - 1] == id);
                }
            }
            if rest.contains(id) {
                let i = choose|i: int| 0 <= i < rest.len() && rest[i] == id;
                assert(ids[i + 1] == id);
            }
        }
        assert forall|x: (u64, bool)| a.released.contains(x) implies b.released.contains(x) by {
            let i = choose|i: int| 0 <= i < a.released.len() && a.released[i] == x;
            assert(b.released[i] == x);
        }
        if ids[0] == id && a.acks.contains_key(id) {
            assert forall|i: int| 0 <= i < a.acks[id].len() implies a.released_all(
                ids,
            ).released.contains((#[trigger] a.acks[id][i], true)) by {
                assert(b.released[a.released.len() + i] == (a.acks[id][i], true));
                assert(b.released.contains((a.acks[id][i], true)));
                assert(c.released.contains((a.acks[id][i], true)));
            }
        }
    }
}

/// At the end of a turn the producers of every channel that has drained are
/// told that their data went out, and those of every other channel wait on.
pub proof fn law_drained_producers_are_released(s: Sess, sent: bool, id: u32)
    requires
        s.peer.common.enc is Some,
        s.app.acks.contains_key(id),
    ensures
        ({
            let t = s.turn_ended(sent).0;
            let left = s.peer.lane(id) matches Some(l) && l.data.len() > 0;
            &&& !left ==> !t.app.acks.contains_key(id) && forall|i: int|
                0 <= i < s.app.acks[id].len() ==> t.app.released.contains(
                    (#[trigger] s.app.acks[id][i], true),
                )
            &&& left ==> t.app.acks.contains_key(id) && t.app.acks[id] == s.app.acks[id]
        }),
{
    let set = s.app.acks.dom();
    let pred = |x: u32| !(s.peer.lane(x) matches Some(l) && l.data.len() > 0);
    listing::lemma_listing_exists(set);
    let all = listing::listing(set);
    listing::lemma_ascending_part(all, pred);
    assert(s.drained_waits() == all.filter(pred));
    if pred(id) {
        assert(all.contains(id));
        listing::lemma_part_holds(all, pred, id);
    }
    lemma_released_all(s.app, s.drained_waits(), id);
}

/// Tearing a channel's outbound side down has the client told CLOSE, once and
/// as the last word; the producers hear that their data did not go out.
pub proof fn law_teardown_says_close(s: Sess, id: u32, other: u32)
    requires
        s.peer.ok(),
        s.peer.lane(id) is Some,
        other != id,
    ensures
        ({
            let l = s.peer.lane(id)->0;
            let t = s.outbound_discarded(id);
            &&& t.peer.lane(id) is None
            &&& !l.outbound_closed ==> wire::packets(t.peer.unsent()) == wire::packets(
                s.peer.unsent(),
            ).push(seq![97u8] + be32(l.recipient_channel))
            &&& l.outbound_closed ==> wire::packets(t.peer.unsent()) == wire::packets(
                s.peer.unsent(),
            )
            &&& !t.app.acks.contains_key(id) && !t.app.deferred.contains(id)
            &&& t.peer.lane(other) == s.peer.lane(other)
            &&& t.app.acks.contains_key(other) == s.app.acks.contains_key(other)
            &&& t.app.channels == s.app.channels
            &&& s.app.acks.contains_key(id) ==> forall|i: int|
                0 <= i < s.app.acks[id].len() ==> t.app.released.contains(
                    (#[trigger] s.app.acks[id][i], false),
                )
        }),
{
    reveal(Staging::ok);
    let l = s.peer.lane(id)->0;
    let t = s.outbound_discarded(id);
    wire_laws::law_control_messages(l.recipient_channel, 0, 0, 0, 0);
    if l.outbound_closed {
        assert(t.peer.unsent() =~= s.peer.unsent());
    } else {
        let p = seq![97u8] + be32(l.recipient_channel);
        wire::lemma_frame_appended(s.peer.unsent(), p);
        assert(t.peer.unsent() =~= s.peer.unsent() + wire::frame(p));
    }
    if s.app.acks.contains_key(id) {
        assert forall|i: int| 0 <= i < s.app.acks[id].len() implies t.app.released.contains(
            (#[trigger] s.app.acks[id][i], false),
        ) by {
            assert(t.app.released[s.app.released.len() + i] == (s.app.acks[id][i], false));
        }
    }
}

/// The application's last word goes to the client with its reason and words,
/// and ends the session.
pub proof fn law_disconnect_message(
    s: Sess,
    reason: u32,
    description: String,
    language_tag: String,
)
    requires
        s.peer.ok(),
        s.peer.common.enc is Some,
        text(description@).len() < 0x1000_0000,
        text(language_tag@).len() < 0x1000_0000,
        !s.peer.common.disconnected,
    ensures
        ({
            let (t, r) = s.told(Msg::Disconnect { reason, description, language_tag });
            &&& r is Ok
            &&& t.peer.common.disconnected
            &&& staged_one(
                s.peer,
                t.peer,
                seq![1u8] + be32(reason) + ssh_string(text(description@)) + ssh_string(
                    text(language_tag@),
                ),
            )
            &&& t.app == s.app
        }),
{
    law_disconnect_is_said_once(s.peer, reason, text(description@), text(language_tag@));
}

/// DEBUG goes to the client with its words.
pub proof fn law_debug_message(
    s: Sess,
    always_display: bool,
    message: String,
    language_tag: String,
)
    requires
        s.peer.ok(),
        s.peer.common.enc is Some,
        text(message@).len() < 0x1000_0000,
        text(language_tag@).len() < 0x1000_0000,
    ensures
        ({
            let (t, r) = s.commanded(FacadeCmd::Debug { always_display, message, language_tag });
            &&& r == FacadeReply::Done(Ok(()))
            &&& staged_one(
                s.peer,
                t.peer,
                seq![4u8] + seq![
                    if always_display {
                        1u8
                    } else {
                        0u8
                    },
                ] + ssh_string(text(message@)) + ssh_string(text(language_tag@)),
            )
        }),
{
    reveal(Staging::ok);
    wire_laws::law_disconnect_and_debug(0, always_display, text(message@), text(language_tag@));
    let b = common_session::debug_body(always_display, text(message@), text(language_tag@));
    let t = s.commanded(FacadeCmd::Debug { always_display, message, language_tag }).0;
    wire::lemma_frame_appended(s.peer.unsent(), b.bytes);
    assert(t.peer.unsent() =~= s.peer.unsent() + wire::frame(b.bytes));
}

/// A refusal that the application asks for goes to the client as it was given.
pub proof fn law_refusal_command(
    s: Sess,
    channel: ChannelId,
    reason: ChannelOpenFailure,
    description: String,
    language: String,
)
    requires
        s.peer.ok(),
        s.peer.common.enc is Some,
        text(description@).len() < 0x1000_0000,
        text(language@).len() < 0x1000_0000,
    ensures
        staged_one(
            s.peer,
            s.commanded(
                FacadeCmd::ChannelOpenFailure { channel, reason, description, language },
            ).0.peer,
            seq![92u8] + be32(channel.0) + be32(reason.spec_code()) + ssh_string(
                text(description@),
            ) + ssh_string(text(language@)),
        ),
{
    wire_laws::law_refusals(channel.0, reason, text(description@), text(language@));
    lemma_staged(
        s.peer,
        requests::open_failure_body(channel.0, reason, text(description@), text(language@)),
    );
}

/// After data was sent a channel has no more queued than it may; one that had
/// more is closed.
pub proof fn law_no_channel_has_too_much_queued(s: Sess, id: u32, bytes: Seq<u8>, e: Option<u32>)
    requires
        s.data_sent(id, bytes, e).1 is Ok,
    ensures
        s.data_sent(id, bytes, e).0.peer.lane(id) matches Some(l) ==> wire::sat(
            crate::channel::queued_bytes(l.data),
        ) <= s.data_sent(id, bytes, e).0.peer.config.max_pending_outbound_bytes,
{
    reveal(Sess::data_sent);
    reveal(Sess::cap_enforced);
}

/// Data for a channel that is not confirmed is refused, and changes nothing.
pub proof fn law_unconfirmed_channel_takes_no_data(
    s: Sess,
    id: u32,
    bytes: Seq<u8>,
    e: Option<u32>,
)
    requires
        s.peer.lane(id) matches Some(l) && !l.confirmed,
    ensures
        s.data_sent(id, bytes, e) == (s, Err::<(), Error>(Error::WrongChannel)),
{
    reveal(Sess::data_sent);
}

} // verus!
