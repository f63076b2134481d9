//! Laws of the outbound lane.
use vstd::prelude::*;

use crate::channel::{ChannelLaneState, ChannelOpenConfirmation, Ctrl, Lane};
use crate::drain;
use crate::msg;
use crate::wire;

verus! {

/// The bytes queued for one stream, in order.
pub open spec fn stream(data: Seq<(Seq<u8>, Option<u32>)>, ext: Option<u32>) -> Seq<u8>
    decreases data.len(),
{
    if data.len() == 0 {
        Seq::empty()
    } else {
        let rest = stream(data.drop_first(), ext);
        if data[0].1 == ext {
            data[0].0 + rest
        } else {
            rest
        }
    }
}

/// The application bytes that a packet carries for one stream.
pub open spec fn carried(p: Seq<u8>, ext: Option<u32>) -> Seq<u8> {
    match ext {
        None => if p.len() >= 9 && p[0] == msg::CHANNEL_DATA {
            p.skip(9)
        } else {
            Seq::empty()
        },
        Some(e) => if p.len() >= 13 && p[0] == msg::CHANNEL_EXTENDED_DATA && wire::be_value(
            p.skip(5),
        ) == e {
            p.skip(13)
        } else {
            Seq::empty()
        },
    }
}

/// The application bytes that packets carry for one stream, in order.
pub open spec fn carried_all(ps: Seq<Seq<u8>>, ext: Option<u32>) -> Seq<u8>
    decreases ps.len(),
{
    if ps.len() == 0 {
        Seq::empty()
    } else {
        carried(ps[0], ext) + carried_all(ps.drop_first(), ext)
    }
}

proof fn lemma_carried_data(to: u32, ext: Option<u32>, bytes: Seq<u8>, want: Option<u32>)
    requires
        bytes.len() <= u32::MAX,
    ensures
        carried(drain::data_payload(to, ext, bytes), want) == (if ext == want {
            bytes
        } else {
            Seq::empty()
        }),
{
    let p = drain::data_payload(to, ext, bytes);
    match ext {
        None => {
            assert(p[0] == msg::CHANNEL_DATA);
            assert(p.skip(9) =~= bytes);
        },
        Some(e) => {
            assert(p[0] == msg::CHANNEL_EXTENDED_DATA);
            assert(p.skip(13) =~= bytes);
            let tail = wire::ssh_string(bytes);
            assert(p.skip(5) =~= wire::be32(e) + tail);
            wire::lemma_be32(e, tail);
        },
    }
}

proof fn lemma_carried_ctrl(to: u32, item: Ctrl, want: Option<u32>)
    ensures
        carried(drain::ctrl_payload(to, item), want) == Seq::<u8>::empty(),
{
    let p = drain::ctrl_payload(to, item);
    assert(p[0] != msg::CHANNEL_DATA && p[0] != msg::CHANNEL_EXTENDED_DATA);
}

proof fn lemma_gather_stream(
    l: Lane,
    ext: Option<u32>,
    cap: nat,
    acc: Seq<u8>,
    want: Option<u32>,
)
    requires
        acc.len() <= cap,
    ensures
        ({
            let (m, out) = l.gather(ext, cap, acc);
            want == ext ==> out + stream(m.data, want) == acc + stream(l.data, want)
        }),
        want != ext ==> stream(l.gather(ext, cap, acc).0.data, want) == stream(l.data, want),
    decreases l.data.len(),
{
    if acc.len() >= cap || l.data.len() == 0 || l.ctrl_ahead() || l.data[0].1 != ext {
    } else {
        let left = l.data[0].0;
        let take = drain::min(left.len(), (cap - acc.len()) as nat) as int;
        if take < left.len() {
            let m = l.gather(ext, cap, acc).0;
            assert(m.data.drop_first() =~= l.data.drop_first());
            assert(left =~= left.take(take) + left.skip(take));
            if want == ext {
                let rest = stream(l.data.drop_first(), want);
                assert(acc + (left + rest) =~= (acc + left.take(take)) + (left.skip(take) + rest));
            }
        } else {
            lemma_gather_stream(l.pop_data(), ext, cap, acc + left, want);
            if want == ext {
                let rest = stream(l.data.drop_first(), want);
                assert(acc + (left + rest) =~= (acc + left) + rest);
            }
        }
    }
}

/// Draining loses, repeats and reorders nothing: on every stream, the bytes
/// that left followed by those that stayed are the bytes that were queued.
pub proof fn law_drain_conserves_streams(
    l: Lane,
    gate: spec_fn(Ctrl) -> bool,
    allow_data: bool,
    ext: Option<u32>,
)
    ensures
        ({
            let d = drain::drain(l, gate, allow_data);
            carried_all(d.packets, ext) + stream(d.lane.data, ext) == stream(l.data, ext)
        }),
    decreases l.ctrl.len(), l.recipient_window_size,
{
    let d = drain::drain(l, gate, allow_data);
    if l.ctrl_ahead() {
        drain::lemma_drain_ctrl(l, gate, allow_data);
        if gate(l.ctrl[0].1) {
            law_drain_conserves_streams(l.pop_ctrl(), gate, allow_data, ext);
            let rest = drain::drain(l.pop_ctrl(), gate, allow_data);
            lemma_carried_ctrl(l.recipient_channel, l.ctrl[0].1, ext);
            assert(d.packets.drop_first() =~= rest.packets);
            assert(Seq::<u8>::empty() + carried_all(rest.packets, ext) =~= carried_all(
                rest.packets,
                ext,
            ));
        } else {
            assert(Seq::<u8>::empty() + stream(l.data, ext) =~= stream(l.data, ext));
        }
    } else if l.data.len() > 0 && allow_data && l.recipient_window_size > 0
        && l.recipient_maximum_packet_size > 0 {
        drain::lemma_drain_data(l, gate, allow_data);
        let (m, bytes) = l.next_data();
        let e0 = l.data[0].1;
        lemma_gather_stream(l, e0, l.packet_cap(), Seq::empty(), ext);
        assert(Seq::<u8>::empty() + stream(l.data, ext) =~= stream(l.data, ext));
        if bytes.len() == 0 {
            assert(bytes + stream(m.data, ext) =~= stream(m.data, ext));
        } else {
            let m2 = m.charged(bytes.len());
            law_drain_conserves_streams(m2, gate, allow_data, ext);
            let rest = drain::drain(m2, gate, allow_data);
            lemma_carried_data(l.recipient_channel, e0, bytes, ext);
            assert(d.packets.drop_first() =~= rest.packets);
            let c = carried_all(rest.packets, ext);
            let s = stream(rest.lane.data, ext);
            assert((bytes + c) + s =~= bytes + (c + s));
            assert(Seq::<u8>::empty() + c =~= c);
        }
    } else {
        drain::lemma_drain_stop(l, gate, allow_data);
        assert(Seq::<u8>::empty() + stream(l.data, ext) =~= stream(l.data, ext));
    }
}

impl Lane {
    /// The bytes at the head of the data queue, up to where the stream changes
    /// or a control item is due.
    pub open spec fn head_run(self, ext: Option<u32>) -> Seq<u8>
        decreases self.data.len(),
    {
        if self.data.len() == 0 || self.ctrl_ahead() || self.data[0].1 != ext {
            Seq::empty()
        } else {
            self.data[0].0 + self.pop_data().head_run(ext)
        }
    }
}

proof fn lemma_gather_takes_the_run(l: Lane, ext: Option<u32>, cap: nat, acc: Seq<u8>)
    requires
        acc.len() <= cap,
    ensures
        l.gather(ext, cap, acc).1 == acc + l.head_run(ext).take(
            drain::min((cap - acc.len()) as nat, l.head_run(ext).len()) as int,
        ),
    decreases l.data.len(),
{
    let run = l.head_run(ext);
    let n = drain::min((cap - acc.len()) as nat, run.len()) as int;
    if acc.len() >= cap || l.data.len() == 0 || l.ctrl_ahead() || l.data[0].1 != ext {
        assert(acc + run.take(n) =~= acc);
    } else {
        let left = l.data[0].0;
        let rest = l.pop_data().head_run(ext);
        let take = drain::min(left.len(), (cap - acc.len()) as nat) as int;
        if take < left.len() {
            assert(run.take(n) =~= left.take(take));
        } else {
            lemma_gather_takes_the_run(l.pop_data(), ext, cap, acc + left);
            let k = drain::min((cap - (acc + left).len()) as nat, rest.len()) as int;
            assert(run.take(n) =~= left + rest.take(k));
            assert((acc + left) + rest.take(k) =~= acc + (left + rest.take(k)));
        }
    }
}

/// One packet carries as much of the head of the lane as it may: it joins what
/// is queued for one stream, and crosses neither a change of the stream nor a
/// control item that is due.
pub proof fn law_one_packet_carries_the_head(l: Lane, cap: u32)
    requires
        l.data.len() > 0,
        !l.ctrl_ahead(),
        cap > 0,
    ensures
        ({
            let run = l.head_run(l.data[0].1);
            let most = (Lane { recipient_window_size: cap, ..l }).packet_cap();
            l.one_packet(cap).1 == run.take(drain::min(most, run.len()) as int)
        }),
{
    let ext = l.data[0].1;
    let c = Lane { recipient_window_size: cap, ..l };
    lemma_gather_takes_the_run(c, ext, c.packet_cap(), Seq::empty());
    lemma_run_is_the_queues(c, l, ext);
    let run = l.head_run(ext);
    let n = drain::min(c.packet_cap(), run.len()) as int;
    assert(Seq::<u8>::empty() + run.take(n) =~= run.take(n));
}

/// The head of a lane depends on its queues alone.
proof fn lemma_run_is_the_queues(a: Lane, b: Lane, ext: Option<u32>)
    requires
        a.data == b.data,
        a.seqs == b.seqs,
        a.ctrl == b.ctrl,
        a.next_seq == b.next_seq,
    ensures
        a.head_run(ext) == b.head_run(ext),
    decreases a.data.len(),
{
    if a.data.len() > 0 {
        lemma_run_is_the_queues(a.pop_data(), b.pop_data(), ext);
    }
}

/// One packet loses, repeats and reorders nothing: on every stream, the bytes
/// that it carries followed by those that stayed are the bytes that were
/// queued.
pub proof fn law_one_packet_conserves_streams(l: Lane, cap: u32, ext: Option<u32>)
    ensures
        ({
            let (m, bytes) = l.one_packet(cap);
            let mine = if l.data.len() > 0 && l.data[0].1 == ext {
                bytes
            } else {
                Seq::empty()
            };
            mine + stream(m.data, ext) == stream(l.data, ext)
        }),
{
    let all = stream(l.data, ext);
    assert(Seq::<u8>::empty() + all =~= all);
    if l.data.len() > 0 && !l.ctrl_ahead() && cap > 0 {
        let c = Lane { recipient_window_size: cap, ..l };
        lemma_gather_stream(c, l.data[0].1, c.packet_cap(), Seq::empty(), ext);
    }
}

/// Draining never sends more than the peer's window, and charges exactly what
/// it sends; without `allow_data` it sends no data.
pub proof fn law_drain_stays_within_window(
    l: Lane,
    gate: spec_fn(Ctrl) -> bool,
    allow_data: bool,
)
    ensures
        ({
            let d = drain::drain(l, gate, allow_data);
            &&& d.wrote <= l.recipient_window_size
            &&& d.lane.recipient_window_size == l.recipient_window_size - d.wrote
            &&& !allow_data ==> d.wrote == 0 && d.lane.data == l.data
        }),
    decreases l.ctrl.len(), l.recipient_window_size,
{
    if l.ctrl_ahead() {
        drain::lemma_drain_ctrl(l, gate, allow_data);
        if gate(l.ctrl[0].1) {
            law_drain_stays_within_window(l.pop_ctrl(), gate, allow_data);
        }
    } else if l.data.len() > 0 && allow_data && l.recipient_window_size > 0
        && l.recipient_maximum_packet_size > 0 {
        drain::lemma_drain_data(l, gate, allow_data);
        let (m, bytes) = l.next_data();
        if bytes.len() > 0 {
            law_drain_stays_within_window(m.charged(bytes.len()), gate, allow_data);
        }
    } else {
        drain::lemma_drain_stop(l, gate, allow_data);
    }
}

/// No data packet of a drain carries more than the peer's packet size or the
/// transport's cap.
pub proof fn law_drain_packets_fit(l: Lane, gate: spec_fn(Ctrl) -> bool, allow_data: bool, i: int)
    requires
        0 <= i < drain::drain(l, gate, allow_data).packets.len(),
    ensures
        ({
            let p = drain::drain(l, gate, allow_data).packets[i];
            let cap = drain::min(
                l.recipient_maximum_packet_size as nat,
                crate::channel::LOCAL_TRANSPORT_PAYLOAD_CAP as nat,
            );
            forall|ext: Option<u32>| #[trigger] carried(p, ext).len() <= cap
        }),
    decreases l.ctrl.len(), l.recipient_window_size,
{
    let d = drain::drain(l, gate, allow_data);
    let p = d.packets[i];
    if l.ctrl_ahead() {
        drain::lemma_drain_ctrl(l, gate, allow_data);
        if gate(l.ctrl[0].1) {
            if i == 0 {
                assert forall|ext: Option<u32>| (#[trigger] carried(p, ext)).len() == 0 by {
                    lemma_carried_ctrl(l.recipient_channel, l.ctrl[0].1, ext);
                }
            } else {
                law_drain_packets_fit(l.pop_ctrl(), gate, allow_data, i - 1);
            }
        }
    } else if l.data.len() > 0 && allow_data && l.recipient_window_size > 0
        && l.recipient_maximum_packet_size > 0 {
        drain::lemma_drain_data(l, gate, allow_data);
        let (m, bytes) = l.next_data();
        if bytes.len() > 0 {
            if i == 0 {
                assert forall|ext: Option<u32>| #[trigger]
                    carried(p, ext).len() <= bytes.len() by {
                    lemma_carried_data(l.recipient_channel, l.data[0].1, bytes, ext);
                }
            } else {
                law_drain_packets_fit(m.charged(bytes.len()), gate, allow_data, i - 1);
            }
        }
    } else {
        drain::lemma_drain_stop(l, gate, allow_data);
    }
}

impl Lane {
    /// An EOF waits in the control queue.
    pub open spec fn eof_waits(self) -> bool {
        exists|j: int| 0 <= j < self.ctrl.len() && (#[trigger] self.ctrl[j]).1 is Eof
    }

    /// A CLOSE waits in the control queue.
    pub open spec fn close_waits(self) -> bool {
        exists|j: int| 0 <= j < self.ctrl.len() && (#[trigger] self.ctrl[j]).1 is Close
    }

    /// Every data entry was queued before the time `t`.
    pub open spec fn data_before(self, t: u64) -> bool {
        forall|i: int| 0 <= i < self.seqs.len() ==> (#[trigger] self.seqs[i]) < t
    }

    /// The lane's invariant: both queues are in the order of queueing, no data
    /// stands behind an EOF, and nothing stands behind a CLOSE.
    pub open spec fn ordered(self) -> bool {
        &&& self.seqs.len() == self.data.len()
        &&& self.data_before(self.next_seq)
        &&& forall|i: int, j: int|
            0 <= i < j < self.seqs.len() ==> (#[trigger] self.seqs[i]) < (#[trigger] self.seqs[j])
        &&& forall|j: int|
            0 <= j < self.ctrl.len() ==> (#[trigger] self.ctrl[j]).0 < self.next_seq
        &&& forall|i: int, j: int|
            0 <= i < j < self.ctrl.len() ==> (#[trigger] self.ctrl[i]).0 < (
            #[trigger] self.ctrl[j]).0
        &&& forall|j: int|
            0 <= j < self.ctrl.len() && (#[trigger] self.ctrl[j]).1 is Eof ==> self.pending_eof
                && self.data_before(self.ctrl[j].0)
        &&& forall|j: int|
            0 <= j < self.ctrl.len() && (#[trigger] self.ctrl[j]).1 is Close ==> {
                &&& self.pending_close
                &&& j == self.ctrl.len() - 1
                &&& self.data_before(self.ctrl[j].0)
            }
        &&& self.pending_eof && !self.eof_waits() ==> self.data.len() == 0
        &&& self.pending_close && !self.close_waits() ==> self.data.len() == 0 && self.ctrl.len()
            == 0
        &&& self.outbound_closed ==> self.data.len() == 0 && self.ctrl.len() == 0
    }
}

/// A new lane is in order.
pub proof fn law_fresh_lane_ordered(
    recipient_channel: u32,
    sender_channel: crate::channel::ChannelId,
    recipient_window_size: u32,
    sender_window_size: u32,
    recipient_maximum_packet_size: u32,
    sender_maximum_packet_size: u32,
    confirmed: bool,
)
    ensures
        Lane::fresh(
            recipient_channel,
            sender_channel,
            recipient_window_size,
            sender_window_size,
            recipient_maximum_packet_size,
            sender_maximum_packet_size,
            confirmed,
        ).ordered(),
{
}

/// Queueing keeps a lane in order, as long as its clock does not wrap.
pub proof fn law_enqueue_keeps_order(l: Lane, bytes: Seq<u8>, ext: Option<u32>, item: Ctrl)
    requires
        l.ordered(),
        l.next_seq < u64::MAX,
    ensures
        l.enqueue_data(bytes, ext).ordered(),
        l.enqueue_ctrl(item).ordered(),
        l.park_eof().ordered(),
        l.park_close().ordered(),
{
    let a = l.enqueue_data(bytes, ext);
    if l.takes_data() {
        assert(a.ctrl == l.ctrl);
        assert forall|j: int| 0 <= j < a.ctrl.len() && (#[trigger] a.ctrl[j]).1 is Eof implies false
        by {
            assert(l.ctrl[j].1 is Eof);
        }
        assert forall|j: int|
            0 <= j < a.ctrl.len() && (#[trigger] a.ctrl[j]).1 is Close implies false by {
            assert(l.ctrl[j].1 is Close);
        }
    }
    lemma_enqueue_ctrl_ordered(l, item);
    lemma_enqueue_ctrl_ordered(l, Ctrl::Eof);
    lemma_enqueue_ctrl_ordered(l, Ctrl::Close);
}

proof fn lemma_enqueue_ctrl_ordered(l: Lane, item: Ctrl)
    requires
        l.ordered(),
        l.next_seq < u64::MAX,
    ensures
        l.enqueue_ctrl(item).ordered(),
{
    let b = l.enqueue_ctrl(item);
    if !(l.pending_close || l.outbound_closed) {
        let n = l.ctrl.len() as int;
        assert(b.ctrl[n] == (l.next_seq, item));
        assert(forall|j: int| 0 <= j < n ==> b.ctrl[j] == l.ctrl[j]);
        assert forall|j: int| 0 <= j < b.ctrl.len() && (#[trigger] b.ctrl[j]).1 is Eof implies
            b.pending_eof && b.data_before(b.ctrl[j].0) by {
            if j < n {
                assert(l.ctrl[j].1 is Eof);
            }
        }
        assert forall|j: int| 0 <= j < b.ctrl.len() && (#[trigger] b.ctrl[j]).1 is Close implies {
            &&& b.pending_close
            &&& j == b.ctrl.len() - 1
            &&& b.data_before(b.ctrl[j].0)
        } by {
            if j < n {
                assert(l.ctrl[j].1 is Close);
            }
        }
        if b.pending_eof && !b.eof_waits() {
            assert(!(item is Eof));
            assert(!l.eof_waits()) by {
                if l.eof_waits() {
                    let j = choose|j: int| 0 <= j < l.ctrl.len() && l.ctrl[j].1 is Eof;
                    assert(b.ctrl[j].1 is Eof);
                }
            }
        }
        if item is Close {
            assert(b.ctrl[n].1 is Close);
        }
    }
}

proof fn lemma_pop_ctrl_ordered(l: Lane)
    requires
        l.ordered(),
        l.ctrl_ahead(),
    ensures
        l.pop_ctrl().ordered(),
        l.ctrl[0].1 is Eof || l.ctrl[0].1 is Close ==> l.data.len() == 0,
        l.ctrl[0].1 is Close ==> l.pop_ctrl().ctrl.len() == 0,
{
    let m = l.pop_ctrl();
    let head = l.ctrl[0];
    if l.data.len() > 0 {
        assert(l.next_data_seq() == l.seqs[0]);
        assert(head.0 <= l.seqs[0]);
    }
    assert(forall|j: int| 0 <= j < m.ctrl.len() ==> m.ctrl[j] == l.ctrl[j + 1]);
    assert(m.seqs == l.seqs);
    if head.1 is Eof {
        assert(l.data_before(head.0));
    }
    if head.1 is Close {
        assert(l.data_before(head.0));
    }
    if m.pending_eof && !m.eof_waits() {
        if l.eof_waits() {
            let j = choose|j: int| 0 <= j < l.ctrl.len() && l.ctrl[j].1 is Eof;
            if j > 0 {
                assert(m.ctrl[j - 1].1 is Eof);
            }
        }
    }
    if m.pending_close && !m.close_waits() {
        if l.close_waits() {
            let j = choose|j: int| 0 <= j < l.ctrl.len() && l.ctrl[j].1 is Close;
            if j > 0 {
                assert(m.ctrl[j - 1].1 is Close);
            }
        }
    }
}

proof fn lemma_gather_ordered(l: Lane, ext: Option<u32>, cap: nat, acc: Seq<u8>)
    requires
        l.ordered(),
        acc.len() <= cap,
    ensures
        l.gather(ext, cap, acc).0.ordered(),
    decreases l.data.len(),
{
    if acc.len() >= cap || l.data.len() == 0 || l.ctrl_ahead() || l.data[0].1 != ext {
    } else {
        let left = l.data[0].0;
        let take = drain::min(left.len(), (cap - acc.len()) as nat) as int;
        let p = l.pop_data();
        assert(p.ctrl == l.ctrl);
        if take < left.len() {
            let m = l.gather(ext, cap, acc).0;
            assert(m.seqs =~= l.seqs);
            assert(m.ctrl == l.ctrl);
            assert(m.eof_waits() == l.eof_waits());
            assert(m.close_waits() == l.close_waits());
        } else {
            assert(forall|i: int| 0 <= i < p.seqs.len() ==> p.seqs[i] == l.seqs[i + 1]);
            assert(p.eof_waits() == l.eof_waits());
            assert(p.close_waits() == l.close_waits());
            lemma_gather_ordered(p, ext, cap, acc + left);
        }
    }
}

/// This packet carries channel data.
pub open spec fn is_data(p: Seq<u8>) -> bool {
    p.len() > 0 && (p[0] == msg::CHANNEL_DATA || p[0] == msg::CHANNEL_EXTENDED_DATA)
}

/// The packet's message number is `m`.
pub open spec fn is_msg(p: Seq<u8>, m: u8) -> bool {
    p.len() > 0 && p[0] == m
}

/// The packet `q` may leave after the packet `p`.
pub open spec fn may_follow(p: Seq<u8>, q: Seq<u8>) -> bool {
    &&& !is_msg(p, msg::CHANNEL_CLOSE)
    &&& is_msg(p, msg::CHANNEL_EOF) ==> !is_data(q)
}

/// No data packet follows an EOF or a CLOSE, and nothing at all follows a CLOSE.
pub open spec fn closes_properly(ps: Seq<Seq<u8>>) -> bool {
    forall|i: int, j: int| 0 <= i < j < ps.len() ==> #[trigger] may_follow(ps[i], ps[j])
}

/// Draining keeps a lane in order, and what leaves closes properly: no data
/// after EOF, nothing after CLOSE, hence at most one CLOSE.
pub proof fn law_drain_closes_properly(l: Lane, gate: spec_fn(Ctrl) -> bool, allow_data: bool)
    requires
        l.ordered(),
    ensures
        ({
            let d = drain::drain(l, gate, allow_data);
            &&& d.lane.ordered()
            &&& closes_properly(d.packets)
            &&& l.data.len() == 0 ==> forall|i: int|
                0 <= i < d.packets.len() ==> !is_data(#[trigger] d.packets[i])
            &&& l.data.len() == 0 && l.ctrl.len() == 0 ==> d.packets.len() == 0
        }),
    decreases l.ctrl.len(), l.recipient_window_size,
{
    let d = drain::drain(l, gate, allow_data);
    if l.ctrl_ahead() {
        drain::lemma_drain_ctrl(l, gate, allow_data);
        if gate(l.ctrl[0].1) {
            lemma_pop_ctrl_ordered(l);
            law_drain_closes_properly(l.pop_ctrl(), gate, allow_data);
            let rest = drain::drain(l.pop_ctrl(), gate, allow_data);
            let p = drain::ctrl_payload(l.recipient_channel, l.ctrl[0].1);
            assert(d.packets == seq![p] + rest.packets);
            assert(forall|i: int| 1 <= i < d.packets.len() ==> d.packets[i] == rest.packets[i - 1]);
            assert(!is_data(p));
            if !(l.ctrl[0].1 is Close) {
                assert(!is_msg(p, msg::CHANNEL_CLOSE));
            }
            if !(l.ctrl[0].1 is Eof) {
                assert(!is_msg(p, msg::CHANNEL_EOF));
            }
            assert forall|i: int, j: int| 0 <= i < j < d.packets.len() implies #[trigger]
            may_follow(d.packets[i], d.packets[j]) by {
                assert(d.packets[j] == rest.packets[j - 1]);
                if i > 0 {
                    assert(may_follow(rest.packets[i - 1], rest.packets[j - 1]));
                }
            }
        }
    } else if l.data.len() > 0 && allow_data && l.recipient_window_size > 0
        && l.recipient_maximum_packet_size > 0 {
        drain::lemma_drain_data(l, gate, allow_data);
        let (m, bytes) = l.next_data();
        lemma_gather_ordered(l, l.data[0].1, l.packet_cap(), Seq::empty());
        if bytes.len() > 0 {
            let m2 = m.charged(bytes.len());
            assert(m2.ctrl == m.ctrl && m2.seqs == m.seqs && m2.data == m.data);
            assert(m2.eof_waits() == m.eof_waits());
            assert(m2.close_waits() == m.close_waits());
            law_drain_closes_properly(m2, gate, allow_data);
            let rest = drain::drain(m2, gate, allow_data);
            let p = drain::data_payload(l.recipient_channel, l.data[0].1, bytes);
            assert(d.packets == seq![p] + rest.packets);
            assert(forall|i: int| 1 <= i < d.packets.len() ==> d.packets[i] == rest.packets[i - 1]);
            assert(is_data(p));
            assert forall|i: int, j: int| 0 <= i < j < d.packets.len() implies #[trigger]
            may_follow(d.packets[i], d.packets[j]) by {
                assert(d.packets[j] == rest.packets[j - 1]);
                if i > 0 {
                    assert(may_follow(rest.packets[i - 1], rest.packets[j - 1]));
                }
            }
        }
    } else {
        drain::lemma_drain_stop(l, gate, allow_data);
    }
}

/// A peer's answer to our open never reopens a lane that is closing, and opens
/// one that was waiting for it.
pub proof fn law_confirm_only_opens(l: Lane, c: ChannelOpenConfirmation)
    ensures
        l.confirm(c).state == (if l.state == ChannelLaneState::Opening {
            ChannelLaneState::Confirmed
        } else {
            l.state
        }),
        l.confirm(c).data == l.data,
        l.confirm(c).ctrl == l.ctrl,
        l.ordered() ==> l.confirm(c).ordered(),
{
    let m = l.confirm(c);
    assert(m.eof_waits() == l.eof_waits());
    assert(m.close_waits() == l.close_waits());
}

/// EOF stays latched: no sequence of drains lets data in again.
pub proof fn law_eof_stays_latched(l: Lane, gate: spec_fn(Ctrl) -> bool, allow_data: bool)
    ensures
        drain::drain(l, gate, allow_data).lane.pending_eof == l.pending_eof,
        drain::drain(l, gate, allow_data).lane.pending_close == l.pending_close,
        l.outbound_closed ==> drain::drain(l, gate, allow_data).lane.outbound_closed,
        !l.takes_data() ==> !drain::drain(l, gate, allow_data).lane.takes_data(),
    decreases l.ctrl.len(), l.recipient_window_size,
{
    if l.ctrl_ahead() {
        drain::lemma_drain_ctrl(l, gate, allow_data);
        if gate(l.ctrl[0].1) {
            law_eof_stays_latched(l.pop_ctrl(), gate, allow_data);
        }
    } else if l.data.len() > 0 && allow_data && l.recipient_window_size > 0
        && l.recipient_maximum_packet_size > 0 {
        drain::lemma_drain_data(l, gate, allow_data);
        let (m, bytes) = l.next_data();
        if bytes.len() > 0 {
            law_eof_stays_latched(m.charged(bytes.len()), gate, allow_data);
        }
    } else {
        drain::lemma_drain_stop(l, gate, allow_data);
    }
}

} // verus!
