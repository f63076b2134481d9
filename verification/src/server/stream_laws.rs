//! What a channel says reaches the client as it was said: on every stream the
//! bytes that are on their way and those still queued stay the same, whatever
//! moves them, and so do the control messages.
use vstd::prelude::*;

use crate::channel::{Ctrl, Lane};
use crate::common_session::{Common, Enc, Keys};
use crate::drain;
use crate::error::Error;
use crate::lane_laws;
use crate::lane_laws::stream;
use crate::server::backlog_laws;
use crate::server::backlog_laws::{counted, on_its_way};
use crate::server::cap_laws;
use crate::server::cap_laws::{covers, fits_machine, within};
use crate::server::flush;
use crate::server::parked::ParkedCmd;
use crate::server::quantum_laws;
use crate::server::schedule;
use crate::server::session::{Peer, Sched, SessionKexState, BOOST_PERIOD};
use crate::server::session_laws;
use crate::server::session_laws::{kept, staged_line};
use crate::session::Staging;
use crate::staging_laws;
use crate::wire;

verus! {

/// What `f` makes of packets, one after the other.
pub open spec fn tally_of<A>(ps: Seq<Seq<u8>>, f: spec_fn(Seq<u8>) -> Seq<A>) -> Seq<A>
    decreases ps.len(),
{
    if ps.len() == 0 {
        Seq::empty()
    } else {
        tally_of(ps.drop_last(), f) + f(ps.last())
    }
}

/// What `f` makes of the packets among commands, one after the other.
pub open spec fn tally<A>(q: Seq<ParkedCmd>, f: spec_fn(Seq<u8>) -> Seq<A>) -> Seq<A>
    decreases q.len(),
{
    if q.len() == 0 {
        Seq::empty()
    } else {
        tally(q.drop_last(), f) + match q.last() {
            ParkedCmd::SealRaw(p) => f(p),
            _ => Seq::empty(),
        }
    }
}

pub proof fn lemma_tally_of_add<A>(
    ps: Seq<Seq<u8>>,
    qs: Seq<Seq<u8>>,
    f: spec_fn(Seq<u8>) -> Seq<A>,
)
    ensures
        tally_of(ps + qs, f) == tally_of(ps, f) + tally_of(qs, f),
    decreases qs.len(),
{
    if qs.len() == 0 {
        assert(ps + qs =~= ps);
        assert(tally_of(ps, f) + tally_of(qs, f) =~= tally_of(ps, f));
    } else {
        lemma_tally_of_add(ps, qs.drop_last(), f);
        assert((ps + qs).drop_last() =~= ps + qs.drop_last());
        assert(tally_of(ps + qs, f) =~= tally_of(ps, f) + tally_of(qs, f));
    }
}

proof fn lemma_tally_add<A>(a: Seq<ParkedCmd>, b: Seq<ParkedCmd>, f: spec_fn(Seq<u8>) -> Seq<A>)
    ensures
        tally(a + b, f) == tally(a, f) + tally(b, f),
    decreases b.len(),
{
    if b.len() == 0 {
        assert(a + b =~= a);
        assert(tally(a, f) + tally(b, f) =~= tally(a, f));
    } else {
        lemma_tally_add(a, b.drop_last(), f);
        assert((a + b).drop_last() =~= a + b.drop_last());
        assert(tally(a + b, f) =~= tally(a, f) + tally(b, f));
    }
}

pub proof fn lemma_tally_of_one<A>(p: Seq<u8>, f: spec_fn(Seq<u8>) -> Seq<A>)
    ensures
        tally_of(seq![p], f) == f(p),
{
    assert(seq![p].drop_last() =~= Seq::empty());
    assert(tally_of(seq![p].drop_last(), f) =~= Seq::empty());
    assert(tally_of(seq![p], f) =~= f(p));
}

/// Staged packets count as the commands that they become.
proof fn lemma_tally_staged<A>(ps: Seq<Seq<u8>>, f: spec_fn(Seq<u8>) -> Seq<A>)
    requires
        f(Seq::empty()) == Seq::<A>::empty(),
    ensures
        tally(staged_line(ps), f) == tally_of(ps, f),
    decreases ps.len(),
{
    if ps.len() > 0 {
        let p = ps[0];
        let rest = ps.drop_first();
        lemma_tally_staged(rest, f);
        let c = ParkedCmd::SealRaw(p);
        lemma_tally_add(kept(c), staged_line(rest), f);
        assert(ps =~= seq![p] + rest);
        lemma_tally_of_add(seq![p], rest, f);
        lemma_tally_of_one(p, f);
        if p.len() == 0 {
            assert(p =~= Seq::empty());
            assert(tally(kept(c), f) =~= f(p));
        } else {
            assert(kept(c).drop_last() =~= Seq::empty());
            assert(tally(kept(c).drop_last(), f) =~= Seq::empty());
            assert(tally(kept(c), f) =~= f(p));
        }
    }
}

/// The KEXINIT of an exchange that begins is no packet of a channel.
proof fn lemma_begun_keeps_tally<A>(s: Peer, due: bool, f: spec_fn(Seq<u8>) -> Seq<A>)
    requires
        s.common.enc is Some,
        s.link is Some,
        s.begun_if(due).1 is Ok || !s.link->0.closed,
    ensures
        tally(s.begun_if(due).0.outgoing(), f) == tally(s.outgoing(), f),
        s.begun_if(due).0.link is Some,
        s.begun_if(due).0.link->0.closed == s.link->0.closed,
{
    reveal(Peer::begun_if);
    reveal(Peer::begun);
    reveal(Peer::kexinit_sent);
    let t = s.begun_if(due).0;
    let e = s.common.enc->0;
    if due && s.kex == SessionKexState::Idle && e.keys.exchange is Some {
        if s.offer is None && s.install is None {
            assert(t.unsent() =~= s.unsent());
        } else {
            let a = Peer {
                common: Common {
                    enc: Some(Enc { keys: Keys { exchange: None, ..e.keys }, ..e }),
                    ..s.common
                },
                ..s
            };
            assert(a.outgoing() == s.outgoing());
            if s.install is None {
                let k = s.offer->0;
                let c = ParkedCmd::SealPayload(k);
                let b = Peer { offer: None, kex: SessionKexState::InProgress, ..a };
                assert(b.unsent() == s.unsent());
                assert(b.line() == s.line());
                let tail = staged_line(wire::packets(s.unsent()));
                if k.len() > 0 {
                    flush::lemma_retried_keeps(b);
                    lemma_open_writer_retries(b);
                    session_laws::law_submissions_keep_their_order(b, c);
                    assert(t.unsent() == s.unsent());
                    assert(t.line() == s.line() + kept(c));
                    assert(kept(c).drop_last() =~= Seq::empty());
                    assert(tally(kept(c).drop_last(), f) =~= Seq::empty());
                    assert(tally(kept(c), f) =~= Seq::empty());
                    lemma_tally_add(s.line(), kept(c), f);
                    lemma_tally_add(s.line() + kept(c), tail, f);
                    lemma_tally_add(s.line(), tail, f);
                    assert(tally(s.line(), f) + Seq::<A>::empty() =~= tally(s.line(), f));
                }
            }
        }
    }
}

/// A writer that is there takes what was parked up again without an error.
proof fn lemma_open_writer_retries(s: Peer)
    requires
        s.link is Some,
    ensures
        s.retried().0.link is Some,
        s.retried().0.link->0.closed == s.link->0.closed,
        !s.link->0.closed ==> s.retried().1 is Ok && s.retried().0.link is Some
            && !s.retried().0.link->0.closed,
    decreases s.parked.q.len(),
{
    if s.parked.q.len() > 0 {
        let c = s.parked.q[0];
        let seen = s.taken_up();
        let l = seen.link->0;
        let next = Peer { link: Some(Peer::offer_link(l, c)), ..seen };
        if !(c.weight() > 0 && seen.over(c.weight())) && Peer::link_takes(l, c) {
            lemma_open_writer_retries(next);
        }
    }
}

/// A writer that is there takes packets without an error.
proof fn lemma_open_writer_takes(s: Peer, hold: bool)
    requires
        s.common.enc is Some,
        s.link is Some,
    ensures
        !s.link->0.closed ==> s.handed_on(hold).1 is Ok,
        s.handed_on(hold).0.link is Some,
        s.handed_on(hold).0.link->0.closed == s.link->0.closed,
    decreases s.unsent().len(),
{
    reveal(Peer::hand_step);
    let (t, r) = s.hand_step(hold);
    if r == Ok::<bool, Error>(true) && t.unsent().len() < s.unsent().len() {
        lemma_open_writer_takes(t, hold);
    }
}

/// Flushing adds no packet, loses none and keeps their order.
pub proof fn lemma_flush_keeps_tally<A>(s: Peer, f: spec_fn(Seq<u8>) -> Seq<A>)
    requires
        s.ok(),
        s.common.enc is Some,
        s.st().write.len() <= usize::MAX,
        s.link is Some,
        s.flushed().1 is Ok || !s.link->0.closed,
    ensures
        tally(s.flushed().0.outgoing(), f) == tally(s.outgoing(), f),
        s.flushed().0.link is Some,
        s.flushed().0.link->0.closed == s.link->0.closed,
{
    reveal(Peer::flushed);
    reveal(Peer::flushed_out);
    flush::lemma_retried_keeps(s);
    lemma_open_writer_retries(s);
    session_laws::law_retrying_keeps_the_line(s);
    let b = s.retried().0.restaged();
    assert(b.unsent() == s.unsent());
    assert(b.line() == s.line());
    assert(b.ok());
    let hold = b.blocked();
    lemma_open_writer_takes(b, hold);
    session_laws::law_handing_on_keeps_the_packets(b, hold);
    cap_laws::lemma_handed_on_frame(b, hold);
    let c = b.handed_on(hold).0;
    let d = c.tidied();
    assert(d.unsent() =~= c.unsent());
    let n = d.rekey_noted();
    cap_laws::lemma_noted(d);
    assert(n.outgoing() == s.outgoing());
    lemma_begun_keeps_tally(n, d.rekey_due(), f);
}

/// The application bytes that a packet brings the client's channel `to` on one
/// stream: on the plain stream behind message number, channel and length, on
/// any other behind the stream's code as well.
pub open spec fn brings(to: u32, ext: Option<u32>) -> spec_fn(Seq<u8>) -> Seq<u8> {
    |p: Seq<u8>|
        if p.len() < 5 || wire::be_value(p.subrange(1, 5)) != to {
            Seq::empty()
        } else {
            match ext {
                None => if p.len() >= 9 && p[0] == 94 {
                    p.skip(9)
                } else {
                    Seq::empty()
                },
                Some(e) => if p.len() >= 13 && p[0] == 95 && wire::be_value(p.subrange(5, 9))
                    == e {
                    p.skip(13)
                } else {
                    Seq::empty()
                },
            }
        }
}

/// The packet tells the client's channel `to` something other than data: that
/// it is open, EOF, CLOSE, a request, or the answer to one.
pub open spec fn tells(to: u32) -> spec_fn(Seq<u8>) -> Seq<Seq<u8>> {
    |p: Seq<u8>|
        if p.len() >= 5 && wire::be_value(p.subrange(1, 5)) == to && (p[0] == 91 || (96 <= p[0]
            && p[0] <= 100)) {
            seq![p]
        } else {
            Seq::empty()
        }
}

/// The control messages queued on a lane, as they will be sent.
pub open spec fn to_be_told(to: u32, ctrl: Seq<(u64, Ctrl)>) -> Seq<Seq<u8>> {
    ctrl.map_values(|c: (u64, Ctrl)| drain::ctrl_payload(to, c.1))
}

/// The control messages queued on a channel, as they will be sent.
pub open spec fn untold(s: Peer, id: u32) -> Seq<Seq<u8>> {
    match s.lane(id) {
        Some(l) => to_be_told(l.recipient_channel, l.ctrl),
        None => Seq::empty(),
    }
}

/// On one stream of a channel: what is on its way to the client, and what is
/// still queued.
pub open spec fn streamed(s: Peer, id: u32, to: u32, ext: Option<u32>) -> Seq<u8> {
    tally(s.outgoing(), brings(to, ext)) + stream(backlog_laws::queued(s, id), ext)
}

/// The control messages of a channel: those on their way to the client, and
/// those still queued.
pub open spec fn told_all(s: Peer, id: u32, to: u32) -> Seq<Seq<u8>> {
    tally(s.outgoing(), tells(to)) + untold(s, id)
}

/// A control item is addressed to the client's channel `to`.
pub open spec fn addressed(c: Ctrl, to: u32) -> bool {
    let p = drain::ctrl_payload(to, c);
    p.len() >= 5 && wire::be_value(p.subrange(1, 5)) == to
}

/// `to` is the client's number for channel `id` and for no other, and what is
/// queued on every channel is addressed to its own.
pub open spec fn numbered(s: Peer, id: u32, to: u32) -> bool {
    forall|x: u32| #[trigger] s.st().channels.contains_key(x) ==> lane_numbered(s.st().channels[x], x, id, to)
}

/// The same of one lane.
pub open spec fn lane_numbered(l: Lane, x: u32, id: u32, to: u32) -> bool {
    &&& l.recipient_channel == to <==> x == id
    &&& forall|j: int|
        0 <= j < l.ctrl.len() ==> #[trigger] addressed(l.ctrl[j].1, l.recipient_channel)
}

/// The packet of a control item tells its channel, and brings no data.
proof fn lemma_ctrl_packet(c: Ctrl, from: u32, to: u32, ext: Option<u32>)
    requires
        addressed(c, from),
    ensures
        brings(to, ext)(drain::ctrl_payload(from, c)) == Seq::<u8>::empty(),
        tells(to)(drain::ctrl_payload(from, c)) == (if from == to {
            seq![drain::ctrl_payload(from, c)]
        } else {
            Seq::empty()
        }),
{
}

/// The packet of data brings it to its channel and stream, and nowhere else.
proof fn lemma_data_packet(from: u32, e: Option<u32>, bytes: Seq<u8>, to: u32, ext: Option<u32>)
    ensures
        brings(to, ext)(drain::data_payload(from, e, bytes)) == (if from == to && e == ext {
            bytes
        } else {
            Seq::empty()
        }),
        tells(to)(drain::data_payload(from, e, bytes)) == Seq::<Seq<u8>>::empty(),
{
    let p = drain::data_payload(from, e, bytes);
    let b = wire::ssh_string(bytes);
    assert(p.subrange(1, 5) =~= wire::be32(from));
    wire::lemma_be32(from, Seq::empty());
    assert(wire::be32(from) + Seq::<u8>::empty() =~= wire::be32(from));
    match e {
        None => {
            assert(p.skip(9) =~= bytes);
        },
        Some(x) => {
            assert(p.subrange(5, 9) =~= wire::be32(x));
            wire::lemma_be32(x, Seq::empty());
            assert(wire::be32(x) + Seq::<u8>::empty() =~= wire::be32(x));
            assert(p.skip(13) =~= bytes);
        },
    }
}

/// Fences that leave a lane bring no data, and tell what was queued.
proof fn lemma_fences_tell(l: Lane, x: u32, id: u32, to: u32, ext: Option<u32>)
    requires
        lane_numbered(l, x, id, to),
    ensures
        ({
            let d = drain::drain(l, drain::gate_open(), false);
            &&& tally_of(d.packets, brings(to, ext)) == Seq::<u8>::empty()
            &&& x == id ==> tally_of(d.packets, tells(to)) + to_be_told(to, d.lane.ctrl)
                == to_be_told(to, l.ctrl)
            &&& x != id ==> tally_of(d.packets, tells(to)) == Seq::<Seq<u8>>::empty()
            &&& lane_numbered(d.lane, x, id, to)
        }),
    decreases l.ctrl.len(),
{
    let g = drain::gate_open();
    let d = drain::drain(l, g, false);
    let from = l.recipient_channel;
    if l.ctrl_ahead() {
        drain::lemma_drain_ctrl(l, g, false);
        let m = l.pop_ctrl();
        assert forall|j: int| 0 <= j < m.ctrl.len() implies #[trigger] addressed(
            m.ctrl[j].1,
            m.recipient_channel,
        ) by {
            assert(m.ctrl[j] == l.ctrl[j + 1]);
            assert(addressed(l.ctrl[j + 1].1, l.recipient_channel));
        }
        lemma_fences_tell(m, x, id, to, ext);
        let rest = drain::drain(m, g, false);
        let c = l.ctrl[0].1;
        let p = drain::ctrl_payload(from, c);
        assert(addressed(l.ctrl[0].1, from));
        lemma_ctrl_packet(c, from, to, ext);
        lemma_tally_of_add(seq![p], rest.packets, brings(to, ext));
        lemma_tally_of_add(seq![p], rest.packets, tells(to));
        lemma_tally_of_one(p, brings(to, ext));
        lemma_tally_of_one(p, tells(to));
        assert(tally_of(d.packets, brings(to, ext)) =~= Seq::empty());
        if x == id {
            assert(to_be_told(to, l.ctrl) =~= seq![p] + to_be_told(to, m.ctrl));
            assert(tally_of(d.packets, tells(to)) + to_be_told(to, d.lane.ctrl) =~= seq![p] + (
            tally_of(rest.packets, tells(to)) + to_be_told(to, rest.lane.ctrl)));
        } else {
            assert(tally_of(d.packets, tells(to)) =~= Seq::empty());
        }
    } else {
        drain::lemma_drain_stop(l, g, false);
        assert(tally_of(d.packets, tells(to)) + to_be_told(to, d.lane.ctrl) =~= to_be_told(
            to,
            l.ctrl,
        ));
    }
}

/// What a channel says on one stream and besides, and whether the writer that
/// it goes through has gone.
pub open spec fn account(s: Peer, id: u32, to: u32, ext: Option<u32>) -> (
    Seq<u8>,
    Seq<Seq<u8>>,
    bool,
) {
    (streamed(s, id, to, ext), told_all(s, id, to), s.link->0.closed)
}

/// More packets staged from lanes, and nothing submitted.
proof fn lemma_staged_account(
    s: Peer,
    t: Peer,
    out: Seq<Seq<u8>>,
    id: u32,
    to: u32,
    ext: Option<u32>,
)
    requires
        t.line() == s.line(),
        t.link == s.link,
        wire::packets(t.unsent()) == wire::packets(s.unsent()) + out,
        tally_of(out, brings(to, ext)) + stream(backlog_laws::queued(t, id), ext) == stream(
            backlog_laws::queued(s, id),
            ext,
        ),
        tally_of(out, tells(to)) + untold(t, id) == untold(s, id),
    ensures
        account(t, id, to, ext) == account(s, id, to, ext),
{
    let ps = wire::packets(s.unsent());
    let f = brings(to, ext);
    let g = tells(to);
    assert(f(Seq::empty()) == Seq::<u8>::empty());
    assert(g(Seq::empty()) == Seq::<Seq<u8>>::empty());
    lemma_tally_add(s.line(), staged_line(ps), f);
    lemma_tally_add(s.line(), staged_line(ps + out), f);
    lemma_tally_staged(ps, f);
    lemma_tally_staged(ps + out, f);
    lemma_tally_of_add(ps, out, f);
    lemma_tally_add(s.line(), staged_line(ps), g);
    lemma_tally_add(s.line(), staged_line(ps + out), g);
    lemma_tally_staged(ps, g);
    lemma_tally_staged(ps + out, g);
    lemma_tally_of_add(ps, out, g);
    assert(streamed(t, id, to, ext) =~= streamed(s, id, to, ext));
    assert(told_all(t, id, to) =~= told_all(s, id, to));
}

/// Letting fences out changes nothing of what channels say.
pub proof fn lemma_fences_account(s: Peer, x: u32, id: u32, to: u32, ext: Option<u32>)
    requires
        s.ok(),
        s.common.enc is Some,
        numbered(s, id, to),
    ensures
        account(s.lane_flushed(x, false).0, id, to, ext) == account(s, id, to, ext),
        numbered(s.lane_flushed(x, false).0, id, to),
        s.lane_flushed(x, false).0.ok(),
{
    let t = s.lane_flushed(x, false).0;
    let st = s.st();
    quantum_laws::lemma_fences_staged(s, x);
    if st.channels.contains_key(x) {
        let l = st.channels[x];
        let d = drain::drain(l, drain::gate_open(), false);
        assert(lane_numbered(l, x, id, to));
        lemma_fences_tell(l, x, id, to, ext);
        drain::lemma_fences_only(l, drain::gate_open());
        let q = stream(backlog_laws::queued(s, id), ext);
        assert(backlog_laws::queued(t, id) =~= backlog_laws::queued(s, id));
        assert(Seq::<u8>::empty() + q =~= q);
        assert(Seq::<Seq<u8>>::empty() + untold(s, id) =~= untold(s, id));
        if x == id {
            if t.lane(id) is None {
                assert(d.lane.ctrl =~= Seq::empty());
                assert(to_be_told(to, d.lane.ctrl) =~= Seq::empty());
            }
        } else {
            assert(t.lane(id) == s.lane(id));
        }
        lemma_staged_account(s, t, d.packets, id, to, ext);
        assert forall|y: u32| #[trigger] t.st().channels.contains_key(y) implies lane_numbered(
            t.st().channels[y],
            y,
            id,
            to,
        ) by {
            assert(st.channels.contains_key(y));
        }
    } else {
        assert(t =~= s);
    }
}

/// Letting one data packet out changes nothing of what channels say.
proof fn lemma_packet_account(s: Peer, x: u32, cap: u32, id: u32, to: u32, ext: Option<u32>)
    requires
        s.ok(),
        s.common.enc is Some,
        numbered(s, id, to),
        s.lane(x) matches Some(l) && cap <= l.recipient_window_size,
    ensures
        account(s.packet_staged(x, cap).0, id, to, ext) == account(s, id, to, ext),
        numbered(s.packet_staged(x, cap).0, id, to),
        s.packet_staged(x, cap).0.ok(),
{
    reveal(Staging::ok);
    let (t, n) = s.packet_staged(x, cap);
    let st = s.st();
    let l = st.channels[x];
    assert(st.channels.contains_key(x));
    assert(lane_numbered(l, x, id, to));
    let (m, bytes) = l.one_packet(cap);
    drain::lemma_one_packet(l, cap);
    staging_laws::law_one_packet_is_appended(st, x, cap);
    lane_laws::law_one_packet_conserves_streams(l, cap, ext);
    let from = l.recipient_channel;
    let e = l.data[0].1;
    let p = drain::data_payload(from, e, bytes);
    let out: Seq<Seq<u8>> = if n > 0 {
        seq![p]
    } else {
        Seq::empty()
    };
    let ps = wire::packets(s.unsent());
    if n > 0 {
        lemma_data_packet(from, e, bytes, to, ext);
        lemma_tally_of_one(p, brings(to, ext));
        lemma_tally_of_one(p, tells(to));
        assert(ps.push(p) =~= ps + out);
    } else {
        assert(ps + out =~= ps);
        assert(bytes =~= Seq::empty());
    }
    assert(untold(t, id) =~= untold(s, id));
    assert(Seq::<Seq<u8>>::empty() + untold(s, id) =~= untold(s, id));
    let q = stream(backlog_laws::queued(s, id), ext);
    assert(Seq::<u8>::empty() + q =~= q);
    if x == id {
        let r = stream(m.data, ext);
        assert(Seq::<u8>::empty() + r =~= r);
    } else {
        assert(t.lane(id) == s.lane(id));
    }
    lemma_staged_account(s, t, out, id, to, ext);
    assert forall|y: u32| #[trigger] t.st().channels.contains_key(y) implies lane_numbered(
        t.st().channels[y],
        y,
        id,
        to,
    ) by {
        assert(st.channels.contains_key(y));
        if y == x {
            assert forall|j: int| 0 <= j < m.ctrl.len() implies #[trigger] addressed(
                m.ctrl[j].1,
                m.recipient_channel,
            ) by {
                assert(addressed(l.ctrl[j].1, l.recipient_channel));
            }
        }
    }
}

/// Flushing changes nothing of what channels say.
pub proof fn lemma_flush_account(s: Peer, id: u32, to: u32, ext: Option<u32>)
    requires
        s.ok(),
        s.common.enc is Some,
        s.st().write.len() <= usize::MAX,
        s.link is Some,
        numbered(s, id, to),
        s.flushed().1 is Ok || !s.link->0.closed,
    ensures
        account(s.flushed().0, id, to, ext) == account(s, id, to, ext),
        numbered(s.flushed().0, id, to),
{
    lemma_flush_keeps_tally(s, brings(to, ext));
    lemma_flush_keeps_tally(s, tells(to));
    schedule::lemma_flushed_lanes(s);
    assert(s.flushed().0.lane(id) == s.lane(id));
}

/// Changes that touch neither lanes nor packets.
proof fn lemma_aside(s: Peer, t: Peer, id: u32, to: u32, ext: Option<u32>)
    requires
        s.common.enc is Some,
        t.common.enc == s.common.enc,
        t.link is Some ==> s.link is Some && t.link->0.bulk == s.link->0.bulk
            && t.link->0.closed == s.link->0.closed,
        t.link is Some <==> s.link is Some,
        t.parked == s.parked,
        numbered(s, id, to),
    ensures
        s.link is Some ==> account(t, id, to, ext) == account(s, id, to, ext),
        numbered(t, id, to),
{
    assert(t.st() == s.st());
    assert(t.lane(id) == s.lane(id));
}

/// A channel's turn changes nothing of what channels say.
pub proof fn lemma_channel_account(
    s: Peer,
    x: u32,
    id: u32,
    to: u32,
    ext: Option<u32>,
    cap: nat,
    most: nat,
    handed: nat,
)
    requires
        within(s, cap, most, handed),
        s.link is Some,
        numbered(s, id, to),
        s.channel_drained(x).1 is Ok,
    ensures
        account(s.channel_drained(x).0, id, to, ext) == account(s, id, to, ext),
        numbered(s.channel_drained(x).0, id, to),
        within(s.channel_drained(x).0, cap, most, handed),
        s.channel_drained(x).0.link is Some,
{
    reveal(Peer::channel_drained);
    reveal(Peer::one_packet_out);
    cap_laws::lemma_channel(s, x, cap, most, handed);
    cap_laws::lemma_turn_staged(s, x, cap, most, handed);
    let a = s.lane_flushed(x, false).0;
    lemma_fences_account(s, x, id, to, ext);
    let b = a.sampled();
    lemma_aside(a, b, id, to, ext);
    assert(b.ok());
    let q = a.quantum(x);
    if !a.blocked() && q > 0 {
        lemma_packet_account(b, x, q, id, to, ext);
        let c = b.packet_staged(x, q).0;
        lemma_fences_account(c, x, id, to, ext);
        let d = c.lane_flushed(x, false).0;
        assert(d == s.turn_staged(x));
        lemma_flush_account(d, id, to, ext);
    }
}

proof fn lemma_pass_account(
    s: Peer,
    ready: Seq<u32>,
    start: int,
    i: int,
    progressed: bool,
    last: Option<u32>,
    id: u32,
    to: u32,
    ext: Option<u32>,
    cap: nat,
    most: nat,
    handed: nat,
)
    requires
        within(s, cap, most, handed),
        s.link is Some,
        numbered(s, id, to),
        s.passed(ready, start, i, progressed, last).result is Ok,
    ensures
        ({
            let t = s.passed(ready, start, i, progressed, last).peer;
            &&& account(t, id, to, ext) == account(s, id, to, ext)
            &&& numbered(t, id, to)
            &&& within(t, cap, most, handed)
            &&& t.link is Some
        }),
    decreases ready.len() - i,
{
    if i < ready.len() {
        let x = ready[(start + i) % (ready.len() as int)];
        if s.sched.debt == Some(x) {
            lemma_pass_account(
                s,
                ready,
                start,
                i + 1,
                progressed,
                last,
                id,
                to,
                ext,
                cap,
                most,
                handed,
            );
        } else {
            lemma_channel_account(s, x, id, to, ext, cap, most, handed);
            let (t, r) = s.channel_drained(x);
            if r->Ok_0 > 0 {
                let u = t.emit_seen(x, false);
                lemma_aside(t, u, id, to, ext);
                assert(within(u, cap, most, handed));
                lemma_pass_account(
                    u,
                    ready,
                    start,
                    i + 1,
                    true,
                    Some(x),
                    id,
                    to,
                    ext,
                    cap,
                    most,
                    handed,
                );
            } else {
                let u = Peer { sched: Sched { next: Some(x), ..t.sched }, ..t };
                lemma_aside(t, u, id, to, ext);
                assert(within(u, cap, most, handed));
            }
        }
    }
}

proof fn lemma_round_account(
    s: Peer,
    id: u32,
    to: u32,
    ext: Option<u32>,
    cap: nat,
    most: nat,
    handed: nat,
)
    requires
        within(s, cap, most, handed),
        s.link is Some,
        numbered(s, id, to),
        s.round().1 is Ok,
    ensures
        account(s.round().0, id, to, ext) == account(s, id, to, ext),
        numbered(s.round().0, id, to),
        within(s.round().0, cap, most, handed),
        s.round().0.link is Some,
{
    reveal(Peer::round);
    if !s.blocked() && s.ready().len() > 0 {
        lemma_boost_account(s, id, to, ext, cap, most, handed);
        lemma_regular_account(s.boosted().0, id, to, ext, cap, most, handed);
    }
}

proof fn lemma_boost_account(
    s: Peer,
    id: u32,
    to: u32,
    ext: Option<u32>,
    cap: nat,
    most: nat,
    handed: nat,
)
    requires
        within(s, cap, most, handed),
        s.link is Some,
        numbered(s, id, to),
        s.boosted().1 is Ok,
    ensures
        account(s.boosted().0, id, to, ext) == account(s, id, to, ext),
        numbered(s.boosted().0, id, to),
        within(s.boosted().0, cap, most, handed),
        s.boosted().0.link is Some,
{
    reveal(Peer::boosted);
    if let Some(x) = s.boost_candidate(s.ready()) {
        if s.sched.since_boost >= BOOST_PERIOD {
            lemma_channel_account(s, x, id, to, ext, cap, most, handed);
            let t = s.channel_drained(x).0;
            let u = t.boost_taken(x);
            lemma_aside(t, u, id, to, ext);
            assert(within(u, cap, most, handed));
        }
    }
}

proof fn lemma_regular_account(
    s: Peer,
    id: u32,
    to: u32,
    ext: Option<u32>,
    cap: nat,
    most: nat,
    handed: nat,
)
    requires
        within(s, cap, most, handed),
        s.link is Some,
        numbered(s, id, to),
        s.regular_round().1 is Ok,
    ensures
        account(s.regular_round().0, id, to, ext) == account(s, id, to, ext),
        numbered(s.regular_round().0, id, to),
        within(s.regular_round().0, cap, most, handed),
        s.regular_round().0.link is Some,
{
    reveal(Peer::regular_round);
    let ready = s.ready();
    if ready.len() > 0 {
        let start = schedule::start_of(ready, s.sched.next);
        lemma_pass_account(
            s,
            ready,
            start,
            0,
            false,
            None,
            id,
            to,
            ext,
            cap,
            most,
            handed,
        );
        let p = s.passed(ready, start, 0, false, None).peer;
        let t = s.regular_round().0;
        lemma_aside(p, t, id, to, ext);
        assert(within(t, cap, most, handed));
    }
}

proof fn lemma_rounds_account(
    s: Peer,
    id: u32,
    to: u32,
    ext: Option<u32>,
    cap: nat,
    most: nat,
    handed: nat,
)
    requires
        within(s, cap, most, handed),
        s.link is Some,
        numbered(s, id, to),
        s.rounds().1 is Ok,
    ensures
        account(s.rounds().0, id, to, ext) == account(s, id, to, ext),
        numbered(s.rounds().0, id, to),
        within(s.rounds().0, cap, most, handed),
        s.rounds().0.link is Some,
    decreases s.windows(),
{
    lemma_round_account(s, id, to, ext, cap, most, handed);
    let (t, r) = s.round();
    if r == Ok::<bool, Error>(true) && t.windows() < s.windows() {
        lemma_rounds_account(t, id, to, ext, cap, most, handed);
    }
}

proof fn lemma_all_fences_account(
    s: Peer,
    ids: Seq<u32>,
    id: u32,
    to: u32,
    ext: Option<u32>,
    cap: nat,
    most: nat,
    handed: nat,
)
    requires
        within(s, cap, most, handed),
        s.link is Some,
        numbered(s, id, to),
    ensures
        account(s.fences_out(ids).0, id, to, ext) == account(s, id, to, ext),
        numbered(s.fences_out(ids).0, id, to),
        within(s.fences_out(ids).0, cap, most, handed),
        s.fences_out(ids).0.link is Some,
    decreases ids.len(),
{
    if ids.len() > 0 {
        cap_laws::lemma_fences(s, ids[0], cap, most, handed);
        lemma_fences_account(s, ids[0], id, to, ext);
        schedule::lemma_fences_never_fail(s, ids[0]);
        lemma_all_fences_account(
            s.lane_flushed(ids[0], false).0,
            ids.drop_first(),
            id,
            to,
            ext,
            cap,
            most,
            handed,
        );
    }
}

/// Nothing the scheduler lets out changes what channels say.
pub proof fn lemma_drained_account(
    s: Peer,
    id: u32,
    to: u32,
    ext: Option<u32>,
    cap: nat,
    most: nat,
    handed: nat,
)
    requires
        within(s, cap, most, handed),
        s.link is Some,
        numbered(s, id, to),
        s.data_drained().1 is Ok,
    ensures
        account(s.data_drained().0, id, to, ext) == account(s, id, to, ext),
        numbered(s.data_drained().0, id, to),
        within(s.data_drained().0, cap, most, handed),
        s.data_drained().0.link is Some,
{
    lemma_all_fences_account(s, s.busy_channels(), id, to, ext, cap, most, handed);
    lemma_rounds_account(s.fences_out(s.busy_channels()).0, id, to, ext, cap, most, handed);
}

/// Letting packets out neither loses nor repeats nor reorders what a channel
/// says, nor brings it to another channel or stream: the bytes of every stream
/// and the control messages, those on their way and those queued taken
/// together, stay as they are.
pub proof fn law_letting_out_keeps_what_is_said(
    s: Peer,
    id: u32,
    to: u32,
    ext: Option<u32>,
    cap: nat,
)
    requires
        s.ok(),
        s.common.enc is Some,
        s.link is Some,
        counted(s),
        covers(cap, s.st().channels),
        fits_machine(s, cap),
        numbered(s, id, to),
        s.data_drained().1 is Ok,
    ensures
        streamed(s.data_drained().0, id, to, ext) == streamed(s, id, to, ext),
        told_all(s.data_drained().0, id, to) == told_all(s, id, to),
{
    let most = cap_laws::max(on_its_way(s), cap) + cap_laws::uncapped(s);
    lemma_drained_account(s, id, to, ext, cap, most, s.st().write.len());
}

} // verus!
