//! What the application says on a channel is what the client hears: data on
//! its stream, EOF, CLOSE, requests and replies, each as it was said, in its
//! place, and on no other channel.
use vstd::prelude::*;

use crate::channel::{Ctrl, Lane};
use crate::drain;
use crate::error::Error;
use crate::lane_laws::stream;
use crate::listing;
use crate::server::backlog_laws;
use crate::server::backlog_laws::{counted, on_its_way};
use crate::server::cap_laws;
use crate::server::cap_laws::{covers, fits_machine, uncapped, within};
use crate::server::closing;
use crate::server::dispatch::{ChannelMsg, Msg};
use crate::server::facade::{FacadeCmd, FacadeReply};
use crate::server::schedule;
use crate::server::sending;
use crate::server::session::{App, Peer, Sess};
use crate::server::stream_laws;
use crate::server::stream_laws::{
    account, addressed, lane_numbered, numbered, streamed, to_be_told, told_all, untold,
};
use crate::session::Staging;
use crate::wire;
use crate::wire::{be32, ssh_string, text, Body, WIRE_OVERHEAD_PER_PACKET};
use crate::wire_laws;

verus! {

/// A session whose writer is there, and for which `extra` more bytes can be
/// counted.
pub open spec fn sendable(s: Peer, id: u32, to: u32, cap: nat, extra: nat) -> bool {
    &&& s.ok()
    &&& s.common.enc is Some
    &&& s.link matches Some(l) && !l.closed
    &&& counted(s)
    &&& covers(cap, s.st().channels)
    &&& numbered(s, id, to)
    &&& cap_laws::max(on_its_way(s), cap) + uncapped(s) + s.st().write.len() + extra < usize::MAX
}

/// One more entry at the end of a data queue.
proof fn lemma_stream_push(data: Seq<(Seq<u8>, Option<u32>)>, x: (Seq<u8>, Option<u32>), ext: Option<u32>)
    ensures
        stream(data.push(x), ext) == stream(data, ext) + (if x.1 == ext {
            x.0
        } else {
            Seq::empty()
        }),
    decreases data.len(),
{
    let more = if x.1 == ext {
        x.0
    } else {
        Seq::empty()
    };
    if data.len() == 0 {
        assert(data.push(x).drop_first() =~= data);
        assert(stream(data, ext) =~= Seq::empty());
        assert(stream(data.push(x), ext) =~= stream(data, ext) + more);
    } else {
        lemma_stream_push(data.drop_first(), x, ext);
        assert(data.push(x).drop_first() =~= data.drop_first().push(x));
        assert(stream(data.push(x), ext) =~= stream(data, ext) + more);
    }
}

/// The channel takes data: neither EOF nor CLOSE has been said on it.
pub open spec fn open_for_data(s: Peer, id: u32) -> bool {
    s.lane(id) matches Some(l) && l.confirmed && !l.pending_eof && !l.pending_close
        && !l.outbound_closed
}

/// Data queued on a channel joins its stream.
proof fn lemma_queued(
    s: Peer,
    id: u32,
    bytes: Seq<u8>,
    e: Option<u32>,
    y: u32,
    to: u32,
    ext: Option<u32>,
    cap: nat,
)
    requires
        sendable(s, y, to, cap, 0),
        s.lane(id) matches Some(l) ==> l.confirmed,
    ensures
        ({
            let t = s.queued(id, bytes, e);
            &&& sendable(t, y, to, cap, 0)
            &&& streamed(t, y, to, ext) == streamed(s, y, to, ext) + (if y == id && e == ext
                && open_for_data(s, id) {
                bytes
            } else {
                Seq::empty()
            })
            &&& told_all(t, y, to) == told_all(s, y, to)
            &&& t.link == s.link
            &&& t.blocked() == s.blocked()
        }),
{
    reveal(Staging::ok);
    let t = s.queued(id, bytes, e);
    let st = s.st();
    let none = Seq::<u8>::empty();
    assert(streamed(s, y, to, ext) + none =~= streamed(s, y, to, ext));
    assert(t.unsent() =~= s.unsent());
    if st.channels.contains_key(id) {
        let l = st.channels[id];
        let m = l.enqueue_data(bytes, e);
        assert(t.st() == st.with_lane(id, m));
        assert(m.ctrl == l.ctrl);
        cap_laws::lemma_total_fences(st.channels, t.st().channels, id, 0x1_0000_0000);
        assert(lane_numbered(l, id, y, to));
        assert(lane_numbered(m, id, y, to)) by {
            assert forall|j: int| 0 <= j < m.ctrl.len() implies #[trigger] addressed(
                m.ctrl[j].1,
                m.recipient_channel,
            ) by {
                assert(addressed(l.ctrl[j].1, l.recipient_channel));
            }
        }
        assert(numbered(t, y, to)) by {
            assert forall|x: u32| #[trigger] t.st().channels.contains_key(x) implies lane_numbered(
                t.st().channels[x],
                x,
                y,
                to,
            ) by {
                if x != id {
                    assert(st.channels.contains_key(x));
                }
            }
        }
        assert(covers(cap, t.st().channels)) by {
            assert forall|x: u32| #[trigger] t.st().channels.contains_key(x) implies Peer::cap_for(
                t.st().channels[x].recipient_maximum_packet_size,
                crate::server::pipeline::CHANNEL_EXT_DATA_FRAMING,
            ) <= cap by {
                assert(st.channels.contains_key(x));
            }
        }
        assert(t.ok()) by {
            assert(l.fits());
            assert(m.fits()) by {
                assert forall|j: int| 0 <= j < m.ctrl.len() implies #[trigger] crate::staging_laws::ctrl_fits(m.ctrl[j].1) by {
                    assert(crate::staging_laws::ctrl_fits(l.ctrl[j].1));
                }
            }
            closing::lemma_with_lane_ok(st, id, m);
        }
        assert(untold(t, y) =~= untold(s, y));
        if l.takes_data() {
            lemma_stream_push(l.data, (bytes, e), ext);
        }
        if y == id {
            let out = stream_laws::tally(s.outgoing(), stream_laws::brings(to, ext));
            let more = if e == ext && l.takes_data() {
                bytes
            } else {
                none
            };
            assert(out + (stream(l.data, ext) + more) =~= (out + stream(l.data, ext)) + more);
            assert(out + stream(l.data, ext) + none =~= out + stream(l.data, ext));
        } else {
            assert(t.lane(y) == s.lane(y));
        }
    } else {
        assert(t.st() == st);
    }
}

/// Data sent on a channel joins the stream that it was sent on, at its end:
/// the bytes of that stream that are on their way to the client, and those
/// still queued, grow by exactly the data. Every other stream, every other
/// channel and all that is said besides stay as they are; and data that comes
/// after EOF or CLOSE changes nothing. (A channel that is closed for having too
/// much queued is forgotten, and says nothing more.)
pub proof fn law_data_joins_its_stream(
    s: Sess,
    id: u32,
    bytes: Seq<u8>,
    e: Option<u32>,
    y: u32,
    to: u32,
    ext: Option<u32>,
    cap: nat,
)
    requires
        sendable(s.peer, y, to, cap, 0),
        s.data_sent(id, bytes, e).1 is Ok,
        s.data_sent(id, bytes, e).0.app.channels.contains_key(id),
    ensures
        ({
            let t = s.data_sent(id, bytes, e).0;
            &&& streamed(t.peer, y, to, ext) == streamed(s.peer, y, to, ext) + (if y == id && e
                == ext && open_for_data(s.peer, id) {
                bytes
            } else {
                Seq::empty()
            })
            &&& told_all(t.peer, y, to) == told_all(s.peer, y, to)
            &&& t.app == s.app
        }),
{
    reveal(Sess::data_sent);
    reveal(Sess::cap_enforced);
    lemma_queued(s.peer, id, bytes, e, y, to, ext, cap);
    let q = s.peer.queued(id, bytes, e);
    let most = cap_laws::max(on_its_way(q), cap) + uncapped(q);
    let handed = q.st().write.len();
    let a = q.scheduled().0;
    assert(within(q, cap, most, handed));
    if !q.blocked() {
        stream_laws::lemma_drained_account(q, y, to, ext, cap, most, handed);
    }
    assert(within(a, cap, most, handed));
    assert(account(a, y, to, ext) == account(q, y, to, ext));
    stream_laws::lemma_flush_account(a, y, to, ext);
}

/// A channel is closed for what it has queued exactly when that is more than
/// it may have, and then it is forgotten.
pub proof fn law_cap_is_enforced(s: Sess, id: u32)
    requires
        s.peer.lane(id) is Some,
    ensures
        ({
            let l = s.peer.lane(id)->0;
            let over = crate::channel::queued_bytes(l.data)
                > s.peer.config.max_pending_outbound_bytes
                && s.peer.config.max_pending_outbound_bytes < usize::MAX;
            &&& !over ==> s.cap_enforced(id) == s
            &&& over ==> s.cap_enforced(id).peer.lane(id) is None && !s.cap_enforced(
                id,
            ).app.channels.contains_key(id) && !s.cap_enforced(id).app.acks.contains_key(id)
        }),
{
    reveal(Sess::cap_enforced);
}

/// One more control item queued, and what can leave let out: the client is
/// told that item behind all that was said before.
proof fn lemma_let_out(s: Peer, x: u32, id: u32, to: u32, ext: Option<u32>, cap: nat, extra: nat)
    requires
        sendable(s, id, to, cap, extra),
        s.let_out(x).1 is Ok,
    ensures
        streamed(s.let_out(x).0, id, to, ext) == streamed(s, id, to, ext),
        told_all(s.let_out(x).0, id, to) == told_all(s, id, to),
{
    reveal(Peer::let_out);
    let most = cap_laws::max(on_its_way(s), cap) + uncapped(s);
    let handed = s.st().write.len();
    assert(within(s, cap, most, handed));
    stream_laws::lemma_channel_account(s, x, id, to, ext, cap, most, handed);
    let a = s.channel_drained(x).0;
    stream_laws::lemma_fences_account(a, x, id, to, ext);
}

/// A lane takes a control item unless its CLOSE has been said.
pub open spec fn open_for_ctrl(l: Lane) -> bool {
    !l.pending_close && !l.outbound_closed
}

/// One more control item queued.
proof fn lemma_enqueued(
    s: Peer,
    x: u32,
    c: Ctrl,
    reset: bool,
    id: u32,
    to: u32,
    ext: Option<u32>,
    cap: nat,
)
    requires
        s.lane(x) is Some,
        crate::staging_laws::ctrl_fits(c),
        addressed(c, s.lane(x)->0.recipient_channel),
        sendable(
            s,
            id,
            to,
            cap,
            drain::ctrl_payload(s.lane(x)->0.recipient_channel, c).len()
                + WIRE_OVERHEAD_PER_PACKET as nat,
        ),
    ensures
        ({
            let l = s.lane(x)->0;
            let k = if reset {
                Lane { wants_reply: false, ..l }
            } else {
                l
            };
            let t = s.with_lane(x, k.enqueue_ctrl(c));
            &&& sendable(t, id, to, cap, 0)
            &&& streamed(t, id, to, ext) == streamed(s, id, to, ext)
            &&& told_all(t, id, to) == (if x == id && open_for_ctrl(l) {
                told_all(s, id, to).push(drain::ctrl_payload(to, c))
            } else {
                told_all(s, id, to)
            })
        }),
{
    reveal(Staging::ok);
    let st = s.st();
    let l = s.lane(x)->0;
    let k = if reset {
        Lane { wants_reply: false, ..l }
    } else {
        l
    };
    let m = k.enqueue_ctrl(c);
    let t = s.with_lane(x, m);
    assert(st.channels.contains_key(x));
    assert(t.st() == st.with_lane(x, m));
    assert(t.unsent() =~= s.unsent());
    assert(lane_numbered(l, x, id, to));
    assert(lane_numbered(m, x, id, to)) by {
        assert forall|j: int| 0 <= j < m.ctrl.len() implies #[trigger] addressed(
            m.ctrl[j].1,
            m.recipient_channel,
        ) by {
            if j < l.ctrl.len() {
                assert(m.ctrl[j] == l.ctrl[j]);
                assert(addressed(l.ctrl[j].1, l.recipient_channel));
            }
        }
    }
    assert(numbered(t, id, to)) by {
        assert forall|y: u32| #[trigger] t.st().channels.contains_key(y) implies lane_numbered(
            t.st().channels[y],
            y,
            id,
            to,
        ) by {
            if y != x {
                assert(st.channels.contains_key(y));
            }
        }
    }
    assert(covers(cap, t.st().channels)) by {
        assert forall|y: u32| #[trigger] t.st().channels.contains_key(y) implies Peer::cap_for(
            t.st().channels[y].recipient_maximum_packet_size,
            crate::server::pipeline::CHANNEL_EXT_DATA_FRAMING,
        ) <= cap by {
            assert(st.channels.contains_key(y));
        }
    }
    assert(t.ok()) by {
        assert(l.fits());
        assert(k.fits()) by {
            assert forall|j: int| 0 <= j < k.ctrl.len() implies #[trigger] crate::staging_laws::ctrl_fits(
                k.ctrl[j].1,
            ) by {
                assert(crate::staging_laws::ctrl_fits(l.ctrl[j].1));
            }
        }
        sending::lemma_enqueue_fits(k, c);
        closing::lemma_with_lane_ok(st, x, m);
    }
    cap_laws::lemma_total_fences(st.channels, t.st().channels, x, 0x1_0000_0000);
    let p = drain::ctrl_payload(l.recipient_channel, c);
    if open_for_ctrl(l) {
        cap_laws::lemma_ctrl_weight_push(l.recipient_channel, l.ctrl, (l.next_seq, c));
        assert(to_be_told(l.recipient_channel, m.ctrl) =~= to_be_told(
            l.recipient_channel,
            l.ctrl,
        ).push(p));
    }
    if x == id {
        let out = stream_laws::tally(s.outgoing(), stream_laws::tells(to));
        assert(out + untold(s, id).push(p) =~= (out + untold(s, id)).push(p));
    } else {
        assert(t.lane(id) == s.lane(id));
    }
    assert(backlog_laws::queued(t, id) =~= backlog_laws::queued(s, id));
}

/// A simple control item names its channel.
proof fn lemma_simple_addressed(to: u32)
    ensures
        addressed(Ctrl::Eof, to),
        addressed(Ctrl::Close, to),
        addressed(Ctrl::Success, to),
        addressed(Ctrl::Failure, to),
{
    wire::lemma_be32(to, Seq::empty());
    wire_laws::law_control_messages(to, 0, 0, 0, 0);
    assert((seq![96u8] + be32(to)).subrange(1, 5) =~= be32(to));
    assert((seq![97u8] + be32(to)).subrange(1, 5) =~= be32(to));
    assert((seq![99u8] + be32(to)).subrange(1, 5) =~= be32(to));
    assert((seq![100u8] + be32(to)).subrange(1, 5) =~= be32(to));
}

/// EOF is said once, behind all that was said before, unless EOF or CLOSE has
/// been; no data is touched, and no other channel is told anything.
pub proof fn law_eof_is_said(s: Sess, id: u32, y: u32, to: u32, ext: Option<u32>, cap: nat)
    requires
        s.peer.lane(id) is Some,
        sendable(s.peer, y, to, cap, 100),
        s.channel_told(id, ChannelMsg::Eof).1 is Ok,
    ensures
        ({
            let t = s.channel_told(id, ChannelMsg::Eof).0;
            let l = s.peer.lane(id)->0;
            &&& streamed(t.peer, y, to, ext) == streamed(s.peer, y, to, ext)
            &&& told_all(t.peer, y, to) == (if y == id && !l.pending_eof && open_for_ctrl(l) {
                told_all(s.peer, y, to).push(seq![96u8] + be32(to))
            } else {
                told_all(s.peer, y, to)
            })
            &&& t.app == s.app
        }),
{
    let l = s.peer.lane(id)->0;
    assert(s.peer.st().channels.contains_key(id));
    assert(lane_numbered(l, id, y, to));
    wire_laws::law_control_messages(l.recipient_channel, 0, 0, 0, 0);
    wire_laws::law_control_messages(to, 0, 0, 0, 0);
    lemma_simple_addressed(l.recipient_channel);
    let q = s.peer.with_lane(id, l.park_eof());
    if l.pending_eof || l.pending_close {
        assert(s.peer.st().with_lane(id, l).channels =~= s.peer.st().channels);
        assert(q =~= s.peer);
    } else {
        lemma_enqueued(s.peer, id, Ctrl::Eof, false, y, to, ext, cap);
    }
    lemma_let_out(q, id, y, to, ext, cap, 0);
}

/// CLOSE is said once, behind all that was said before; no data is touched,
/// and no other channel is told anything.
pub proof fn law_close_is_said(s: Sess, id: u32, y: u32, to: u32, ext: Option<u32>, cap: nat)
    requires
        s.peer.lane(id) is Some,
        sendable(s.peer, y, to, cap, 100),
        s.channel_told(id, ChannelMsg::Close).1 is Ok,
    ensures
        ({
            let t = s.channel_told(id, ChannelMsg::Close).0;
            let l = s.peer.lane(id)->0;
            &&& streamed(t.peer, y, to, ext) == streamed(s.peer, y, to, ext)
            &&& told_all(t.peer, y, to) == (if y == id && open_for_ctrl(l) {
                told_all(s.peer, y, to).push(seq![97u8] + be32(to))
            } else {
                told_all(s.peer, y, to)
            })
        }),
{
    reveal(Sess::closed);
    let l = s.peer.lane(id)->0;
    assert(s.peer.st().channels.contains_key(id));
    assert(lane_numbered(l, id, y, to));
    wire_laws::law_control_messages(l.recipient_channel, 0, 0, 0, 0);
    wire_laws::law_control_messages(to, 0, 0, 0, 0);
    lemma_simple_addressed(l.recipient_channel);
    lemma_enqueued(s.peer, id, Ctrl::Close, false, y, to, ext, cap);
    let q = s.peer.with_lane(id, l.park_close());
    lemma_let_out(q, id, y, to, ext, cap, 0);
    let a = q.let_out(id).0;
    let t = s.channel_told(id, ChannelMsg::Close).0;
    if a.lane(id) is None {
        assert(t.peer.lane(y) == a.lane(y));
        assert(t.peer.unsent() =~= a.unsent());
        assert(t.peer.outgoing() == a.outgoing());
    }
}

/// The answer to a channel request goes to the channel that asked, as success
/// or failure as it was given, once, and only where one is waited for and the
/// cap admits it; no data is touched and nobody else is told anything.
pub proof fn law_channel_request_is_answered(
    s: Sess,
    id: u32,
    success: bool,
    y: u32,
    to: u32,
    ext: Option<u32>,
    cap: nat,
)
    requires
        s.peer.lane(id) is Some,
        sendable(s.peer, y, to, cap, 100),
        s.peer.channel_replied(id, success).1 is Ok,
    ensures
        ({
            let t = s.peer.channel_replied(id, success).0;
            let l = s.peer.lane(id)->0;
            let waiting = wire::sat(s.peer.st().reply_count() * 93);
            let fits = wire::sat(s.peer.backlog() as nat + wire::sat(93 + waiting as nat) as nat)
                < s.peer.hard_cap();
            &&& streamed(t, y, to, ext) == streamed(s.peer, y, to, ext)
            &&& told_all(t, y, to) == (if y == id && l.wants_reply && fits && open_for_ctrl(l) {
                told_all(s.peer, y, to).push(
                    seq![
                        if success {
                            99u8
                        } else {
                            100u8
                        },
                    ] + be32(to),
                )
            } else {
                told_all(s.peer, y, to)
            })
            &&& (t.lane(id) matches Some(m) ==> !m.wants_reply)
            &&& !l.wants_reply ==> t == s.peer
            &&& l.wants_reply && !fits ==> t.cause is Some
        }),
{
    reveal(Peer::channel_replied);
    let l = s.peer.lane(id)->0;
    let c = if success {
        Ctrl::Success
    } else {
        Ctrl::Failure
    };
    assert(s.peer.st().channels.contains_key(id));
    assert(lane_numbered(l, id, y, to));
    wire_laws::law_control_messages(l.recipient_channel, 0, 0, 0, 0);
    wire_laws::law_control_messages(to, 0, 0, 0, 0);
    lemma_simple_addressed(l.recipient_channel);
    if l.wants_reply {
        let p = s.peer.sampled();
        assert(p.st() == s.peer.st());
        assert(p.unsent() == s.peer.unsent());
        assert(p.lane(y) == s.peer.lane(y));
        assert(p.outgoing() == s.peer.outgoing());
        assert(sendable(p, y, to, cap, 100));
        let done = Lane { wants_reply: false, ..l };
        let waiting = wire::sat(s.peer.st().reply_count() * crate::channel::REPLY_RESERVATION as nat);
        if s.peer.admits(wire::sat(crate::channel::REPLY_RESERVATION as nat + waiting as nat)) {
            lemma_enqueued(p, id, c, true, y, to, ext, cap);
            let q = p.with_lane(id, done.enqueue_ctrl(c));
            lemma_let_out(q, id, y, to, ext, cap, 0);
            lemma_let_out_wants_no_reply(q, id);
        } else {
            let t = s.peer.channel_replied(id, success).0;
            assert(t.unsent() =~= s.peer.unsent());
            assert(t.outgoing() == s.peer.outgoing());
            assert(untold(t, y) =~= untold(s.peer, y));
            assert(backlog_laws::queued(t, y) =~= backlog_laws::queued(s.peer, y));
        }
    }
}

/// Letting packets out asks for no reply.
proof fn lemma_let_out_wants_no_reply(s: Peer, id: u32)
    requires
        s.lane(id) matches Some(l) && !l.wants_reply,
    ensures
        s.let_out(id).0.lane(id) matches Some(l) ==> !l.wants_reply,
{
    reveal(Peer::let_out);
    reveal(Peer::channel_drained);
    reveal(Peer::one_packet_out);
    if s.common.enc is Some {
        let l = s.lane(id)->0;
        drain::lemma_fences_only(l, drain::gate_open());
        let a = s.lane_flushed(id, false).0;
        if let Some(m) = a.lane(id) {
            drain::lemma_fences_only(m, drain::gate_open());
            let q = a.quantum(id);
            if q > 0 {
                drain::lemma_one_packet(m, q);
                let b = a.sampled();
                let c = b.packet_staged(id, q).0;
                if let Some(n) = c.lane(id) {
                    drain::lemma_fences_only(n, drain::gate_open());
                }
                let d = c.lane_flushed(id, false).0;
                schedule::lemma_flushed_lanes(d);
                let e = d.flushed().0;
                assert(e.lane(id) == d.lane(id));
                if let Some(n) = e.lane(id) {
                    drain::lemma_fences_only(n, drain::gate_open());
                }
            }
        } else {
            assert(a.sampled().lane(id) is None);
        }
    }
}

/// A request goes to the channel as it was made, behind all that was said
/// before; no data is touched and nobody else is told anything.
pub proof fn law_request_is_made(
    s: Peer,
    id: u32,
    rest: Seq<u8>,
    y: u32,
    to: u32,
    ext: Option<u32>,
    cap: nat,
)
    requires
        s.lane(id) is Some,
        rest.len() + 5 <= u32::MAX,
        sendable(s, y, to, cap, rest.len() + 100),
        s.requested(
            id,
            Body { bytes: be32(s.lane(id)->0.recipient_channel) + rest, complete: true },
        ).1 is Ok,
    ensures
        ({
            let l = s.lane(id)->0;
            let t = s.requested(
                id,
                Body { bytes: be32(l.recipient_channel) + rest, complete: true },
            ).0;
            &&& streamed(t, y, to, ext) == streamed(s, y, to, ext)
            &&& told_all(t, y, to) == (if y == id && open_for_ctrl(l) {
                told_all(s, y, to).push(seq![98u8] + (be32(to) + rest))
            } else {
                told_all(s, y, to)
            })
        }),
{
    let l = s.lane(id)->0;
    let body = be32(l.recipient_channel) + rest;
    let c = Ctrl::Request(body);
    assert(s.st().channels.contains_key(id));
    assert(lane_numbered(l, id, y, to));
    wire_laws::law_request_messages(l.recipient_channel, body);
    let p = drain::ctrl_payload(l.recipient_channel, c);
    assert(p.subrange(1, 5) =~= be32(l.recipient_channel));
    wire::lemma_be32(l.recipient_channel, Seq::empty());
    lemma_enqueued(s, id, c, false, y, to, ext, cap);
    lemma_let_out(s.with_lane(id, l.enqueue_ctrl(c)), id, y, to, ext, cap, 0);
}

} // verus!
