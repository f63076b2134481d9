//! What draining a lane means: which packets leave, in which order, and what
//! stays queued. The laws of the lane are stated here.
use vstd::prelude::*;

use crate::wire;
use crate::channel::{Ctrl, Lane, LOCAL_TRANSPORT_PAYLOAD_CAP};
use crate::msg;

verus! {

/// The smaller of two numbers.
pub open spec fn min(a: nat, b: nat) -> nat {
    if a <= b {
        a
    } else {
        b
    }
}

/// The payload of a control item, addressed to the peer's channel `to`.
pub open spec fn ctrl_payload(to: u32, item: Ctrl) -> Seq<u8> {
    match item {
        Ctrl::OpenConfirmation {
            recipient_channel,
            sender_channel,
            window_size,
            packet_size,
        } => seq![msg::CHANNEL_OPEN_CONFIRMATION] + wire::be32(recipient_channel) + wire::be32(
            sender_channel,
        ) + wire::be32(window_size) + wire::be32(packet_size),
        Ctrl::Eof => seq![msg::CHANNEL_EOF] + wire::be32(to),
        Ctrl::Close => seq![msg::CHANNEL_CLOSE] + wire::be32(to),
        Ctrl::Success => seq![msg::CHANNEL_SUCCESS] + wire::be32(to),
        Ctrl::Failure => seq![msg::CHANNEL_FAILURE] + wire::be32(to),
        Ctrl::Request(body) => seq![msg::CHANNEL_REQUEST] + body,
    }
}

/// The payload of one data packet.
pub open spec fn data_payload(to: u32, ext: Option<u32>, bytes: Seq<u8>) -> Seq<u8> {
    match ext {
        None => seq![msg::CHANNEL_DATA] + wire::be32(to) + wire::ssh_string(bytes),
        Some(e) => seq![msg::CHANNEL_EXTENDED_DATA] + wire::be32(to) + wire::be32(e)
            + wire::ssh_string(bytes),
    }
}

/// `bytes` cut into pieces of `max`, the last one possibly shorter.
pub open spec fn chunks(bytes: Seq<u8>, max: nat) -> Seq<Seq<u8>>
    decreases bytes.len(),
{
    if bytes.len() == 0 || max == 0 {
        Seq::empty()
    } else {
        let n = min(bytes.len(), max) as int;
        seq![bytes.take(n)] + chunks(bytes.skip(n), max)
    }
}

/// Data packets for consecutive pieces of one stream.
pub open spec fn data_payloads(to: u32, ext: Option<u32>, pieces: Seq<Seq<u8>>) -> Seq<Seq<u8>> {
    pieces.map_values(|p: Seq<u8>| data_payload(to, ext, p))
}

impl Lane {
    /// The most application bytes that one data packet may carry now.
    pub open spec fn packet_cap(self) -> nat {
        min(
            min(self.recipient_maximum_packet_size as nat, self.recipient_window_size as nat),
            LOCAL_TRANSPORT_PAYLOAD_CAP as nat,
        )
    }

    /// Adds to `acc` the bytes at the head of the data queue, entry by entry,
    /// until there are `cap` of them, the stream changes or a control item is
    /// due. Entries with nothing left are dropped.
    pub open spec fn gather(self, ext: Option<u32>, cap: nat, acc: Seq<u8>) -> (Lane, Seq<u8>)
        decreases self.data.len(),
    {
        if acc.len() >= cap || self.data.len() == 0 || self.ctrl_ahead() || self.data[0].1 != ext {
            (self, acc)
        } else {
            let left = self.data[0].0;
            let take = min(left.len(), (cap - acc.len()) as nat) as int;
            if take < left.len() {
                let head = self.data[0];
                (
                    self.pop_data().push_data_front(
                        left.skip(take),
                        head.1,
                        self.next_data_seq(),
                    ),
                    acc + left.take(take),
                )
            } else {
                self.pop_data().gather(ext, cap, acc + left)
            }
        }
    }

    /// The data that the next packet carries, and the lane without it.
    pub open spec fn next_data(self) -> (Lane, Seq<u8>) {
        self.gather(self.data[0].1, self.packet_cap(), Seq::empty())
    }

    /// The lane once `n` bytes have been charged to the peer's window.
    pub open spec fn charged(self, n: nat) -> Lane {
        Lane {
            recipient_window_size: (self.recipient_window_size - n) as u32,
            boost_pending: false,
            ..self
        }
    }

    /// One data packet of at most `cap` bytes taken off the head: the lane
    /// without it, charged for it, and the bytes that it carries. A packet ends
    /// where the stream changes or a control item is due.
    pub open spec fn one_packet(self, cap: u32) -> (Lane, Seq<u8>) {
        if self.data.len() == 0 || self.ctrl_ahead() || cap == 0 {
            (self, Seq::empty())
        } else {
            let (m, bytes) = (Lane { recipient_window_size: cap, ..self }).next_data();
            let rest = Lane { recipient_window_size: self.recipient_window_size, ..m };
            if bytes.len() == 0 {
                (rest, bytes)
            } else {
                (rest.charged(bytes.len()), bytes)
            }
        }
    }
}

/// How a drain ended.
#[verifier::ext_equal]
pub enum DrainEnd {
    /// Everything queued has left.
    Complete,
    /// The window, a refused control item or a data stop left something queued.
    Incomplete,
    /// Data is due and the peer's packet size is zero.
    Stuck,
}

/// What draining a lane gives.
#[verifier::ext_equal]
pub struct Drained {
    pub lane: Lane,
    /// The payloads that left, in order.
    pub packets: Seq<Seq<u8>>,
    /// Application bytes among them.
    pub wrote: nat,
    pub end: DrainEnd,
}

impl Drained {
    /// The same drain with `p`, carrying `n` application bytes, sent before it.
    pub open spec fn after(self, p: Seq<u8>, n: nat) -> Drained {
        Drained { packets: seq![p] + self.packets, wrote: n + self.wrote, ..self }
    }
}

/// Gathering never takes more than it was allowed, and leaves the rest of the
/// lane alone.
pub proof fn lemma_gather(l: Lane, ext: Option<u32>, cap: nat, acc: Seq<u8>)
    requires
        acc.len() <= cap,
    ensures
        ({
            let (m, out) = l.gather(ext, cap, acc);
            &&& out.len() <= cap
            &&& acc.len() <= out.len()
            &&& m.ctrl == l.ctrl
            &&& m == (Lane { data: m.data, seqs: m.seqs, ..l })
        }),
    decreases l.data.len(),
{
    if acc.len() >= cap || l.data.len() == 0 || l.ctrl_ahead() || l.data[0].1 != ext {
        assert(l =~= (Lane { data: l.data, seqs: l.seqs, ..l }));
    } else {
        let left = l.data[0].0;
        let take = min(left.len(), (cap - acc.len()) as nat) as int;
        let (m, out) = l.gather(ext, cap, acc);
        if take < left.len() {
            assert(m =~= (Lane { data: m.data, seqs: m.seqs, ..l }));
        } else {
            lemma_gather(l.pop_data(), ext, cap, acc + left);
            assert(m =~= (Lane { data: m.data, seqs: m.seqs, ..l }));
        }
    }
}

/// One packet carries at most `cap` bytes, is charged exactly, and leaves the
/// control items alone.
pub proof fn lemma_one_packet(l: Lane, cap: u32)
    requires
        cap <= l.recipient_window_size,
    ensures
        ({
            let (m, bytes) = l.one_packet(cap);
            &&& bytes.len() <= cap
            &&& bytes.len() <= l.recipient_maximum_packet_size
            &&& bytes.len() <= LOCAL_TRANSPORT_PAYLOAD_CAP
            &&& m.recipient_window_size == l.recipient_window_size - bytes.len()
            &&& m.ctrl == l.ctrl
            &&& m == (Lane {
                data: m.data,
                seqs: m.seqs,
                recipient_window_size: m.recipient_window_size,
                boost_pending: m.boost_pending,
                ..l
            })
        }),
{
    if l.data.len() > 0 && !l.ctrl_ahead() && cap > 0 {
        let c = Lane { recipient_window_size: cap, ..l };
        lemma_gather(c, l.data[0].1, c.packet_cap(), Seq::empty());
    }
}

/// Where the head entry fills the packet or nothing of its stream follows, it
/// is all that the packet carries.
pub proof fn lemma_gather_alone(l: Lane, cap: nat)
    requires
        l.data.len() > 0,
        !l.ctrl_ahead(),
        cap > 0,
        l.data[0].0.len() > 0,
        l.data[0].0.len() >= cap || l.data.len() == 1 || l.data[1].1
            != l.data[0].1,
    ensures
        ({
            let head = l.data[0];
            let left = head.0;
            let take = min(left.len(), cap) as int;
            l.gather(head.1, cap, Seq::empty()) == (
                if take < left.len() {
                    l.pop_data().push_data_front(left.skip(take), head.1, l.next_data_seq())
                } else {
                    l.pop_data()
                },
                left.take(take),
            )
        }),
{
    let left = l.data[0].0;
    let take = min(left.len(), cap) as int;
    assert(Seq::<u8>::empty() + left.take(take) =~= left.take(take));
    assert(Seq::<u8>::empty() + left =~= left);
    assert(left.take(left.len() as int) =~= left);
    reveal_with_fuel(Lane::gather, 2);
}

/// A drain that lets nothing out.
pub open spec fn stopped(l: Lane, end: DrainEnd) -> Drained {
    Drained { lane: l, packets: Seq::empty(), wrote: 0, end }
}

/// Drains a lane: control items whose turn it is leave whatever the window;
/// data leaves in packets, as far as `allow_data`, the window and the order
/// allow. A control item that `gate` refuses stops the drain.
#[verifier::opaque]
pub open spec fn drain(
    l: Lane,
    gate: spec_fn(Ctrl) -> bool,
    allow_data: bool,
) -> Drained
    decreases l.ctrl.len(), l.recipient_window_size,
{
    if l.ctrl_ahead() {
        if !gate(l.ctrl[0].1) {
            stopped(l, DrainEnd::Incomplete)
        } else {
            drain(l.pop_ctrl(), gate, allow_data).after(
                ctrl_payload(l.recipient_channel, l.ctrl[0].1),
                0,
            )
        }
    } else if l.data.len() == 0 {
        stopped(l, DrainEnd::Complete)
    } else if !allow_data || l.recipient_window_size == 0 {
        stopped(l, DrainEnd::Incomplete)
    } else if l.recipient_maximum_packet_size == 0 {
        stopped(l, DrainEnd::Stuck)
    } else {
        let (m, bytes) = l.next_data();
        proof {
            lemma_gather(l, l.data[0].1, l.packet_cap(), Seq::empty());
        }
        if bytes.len() == 0 {
            stopped(m, DrainEnd::Incomplete)
        } else {
            drain(m.charged(bytes.len()), gate, allow_data).after(
                data_payload(l.recipient_channel, l.data[0].1, bytes),
                bytes.len(),
            )
        }
    }
}

/// One step of a drain: the control head leaves.
pub proof fn lemma_drain_ctrl(
    l: Lane,
    gate: spec_fn(Ctrl) -> bool,
    allow_data: bool,
)
    requires
        l.ctrl_ahead(),
    ensures
        drain(l, gate, allow_data) == (if gate(l.ctrl[0].1) {
            drain(l.pop_ctrl(), gate, allow_data).after(
                ctrl_payload(l.recipient_channel, l.ctrl[0].1),
                0,
            )
        } else {
            stopped(l, DrainEnd::Incomplete)
        }),
{
    reveal_with_fuel(drain, 2);
}

/// One step of a drain: a data packet leaves.
pub proof fn lemma_drain_data(
    l: Lane,
    gate: spec_fn(Ctrl) -> bool,
    allow_data: bool,
)
    requires
        !l.ctrl_ahead(),
        l.data.len() > 0,
        allow_data,
        l.recipient_window_size > 0,
        l.recipient_maximum_packet_size > 0,
    ensures
        l.next_data().1.len() <= l.packet_cap(),
        l.next_data().0 == (Lane { data: l.next_data().0.data, seqs: l.next_data().0.seqs, ..l }),
        drain(l, gate, allow_data) == (if l.next_data().1.len() == 0 {
            stopped(l.next_data().0, DrainEnd::Incomplete)
        } else {
            drain(l.next_data().0.charged(l.next_data().1.len()), gate, allow_data).after(
                data_payload(l.recipient_channel, l.data[0].1, l.next_data().1),
                l.next_data().1.len(),
            )
        }),
{
    lemma_gather(l, l.data[0].1, l.packet_cap(), Seq::empty());
    reveal_with_fuel(drain, 2);
}

/// The last step of a drain: nothing can leave.
pub proof fn lemma_drain_stop(
    l: Lane,
    gate: spec_fn(Ctrl) -> bool,
    allow_data: bool,
)
    requires
        !l.ctrl_ahead(),
    ensures
        l.data.len() == 0 ==> drain(l, gate, allow_data) == stopped(l, DrainEnd::Complete),
        l.data.len() > 0 && (!allow_data || l.recipient_window_size == 0) ==> drain(
            l,
            gate,
            allow_data,
        ) == stopped(l, DrainEnd::Incomplete),
        l.data.len() > 0 && allow_data && l.recipient_window_size > 0
            && l.recipient_maximum_packet_size == 0 ==> drain(l, gate, allow_data) == stopped(
            l,
            DrainEnd::Stuck,
        ),
{
    reveal_with_fuel(drain, 2);
}

/// A drain without data lets only control items out: the data stays, nothing
/// is carried and nothing is stuck.
pub proof fn lemma_fences_only(l: Lane, gate: spec_fn(Ctrl) -> bool)
    ensures
        drain(l, gate, false).lane.data == l.data,
        drain(l, gate, false).wrote == 0,
        !(drain(l, gate, false).end is Stuck),
        drain(l, gate, false).lane == (Lane {
            ctrl: drain(l, gate, false).lane.ctrl,
            outbound_closed: drain(l, gate, false).lane.outbound_closed,
            boost_pending: drain(l, gate, false).lane.boost_pending,
            state: drain(l, gate, false).lane.state,
            ..l
        }),
    decreases l.ctrl.len(),
{
    if l.ctrl_ahead() {
        lemma_drain_ctrl(l, gate, false);
        if gate(l.ctrl[0].1) {
            lemma_fences_only(l.pop_ctrl(), gate);
        }
    } else {
        lemma_drain_stop(l, gate, false);
    }
}

/// A lane without data is never stuck and sends no data.
pub proof fn lemma_no_data_not_stuck(l: Lane, gate: spec_fn(Ctrl) -> bool, allow_data: bool)
    requires
        l.data.len() == 0,
    ensures
        !(drain(l, gate, allow_data).end is Stuck),
        drain(l, gate, allow_data).wrote == 0,
    decreases l.ctrl.len(),
{
    if l.ctrl_ahead() {
        lemma_drain_ctrl(l, gate, allow_data);
        if gate(l.ctrl[0].1) {
            lemma_no_data_not_stuck(l.pop_ctrl(), gate, allow_data);
        }
    } else {
        lemma_drain_stop(l, gate, allow_data);
    }
}

/// A drain of which the packets `acc`, with `n` application bytes, have already left.
pub open spec fn rejoined(acc: Seq<Seq<u8>>, n: nat, rest: Drained) -> Drained {
    Drained { packets: acc + rest.packets, wrote: n + rest.wrote, ..rest }
}

/// One packet moves from the rest of a drain to what has left.
pub proof fn lemma_rejoined(acc: Seq<Seq<u8>>, n: nat, p: Seq<u8>, k: nat, rest: Drained)
    ensures
        rejoined(acc, n, rest.after(p, k)) == rejoined(acc.push(p), n + k, rest),
{
    assert(acc + (seq![p] + rest.packets) =~= acc.push(p) + rest.packets);
}

/// Nothing more leaves.
pub proof fn lemma_rejoined_stop(acc: Seq<Seq<u8>>, n: nat, l: Lane, end: DrainEnd)
    ensures
        rejoined(acc, n, stopped(l, end)) == (Drained { lane: l, packets: acc, wrote: n, end }),
{
    assert(acc + Seq::<Seq<u8>>::empty() =~= acc);
}

/// Every control item is let through.
pub open spec fn gate_open() -> spec_fn(Ctrl) -> bool {
    |i: Ctrl| true
}

} // verus!
