//! Which channel's data goes out next: one packet per ready channel and round,
//! with a head start for a channel that was just confirmed.
use vstd::prelude::*;

use crate::channel::{ChannelId, Lane, LOCAL_TRANSPORT_PAYLOAD_CAP};
use crate::common_session::{Common, Enc};
use crate::drain;
use crate::error::Error;
use crate::lane_laws;
use crate::listing;
use crate::listing::sorted_keys;
use crate::server::closing;
use crate::server::flush;
use crate::server::observe::{SchedSeen, SchedSlot};
use crate::server::pipeline;
use crate::server::pipeline::{CHANNEL_DATA_FRAMING, CHANNEL_EXT_DATA_FRAMING};
use crate::server::session::{Peer, Sched, Session, BOOST_PERIOD};
use crate::session;
use crate::session::Staging;
use crate::wire;

verus! {

broadcast use vstd::std_specs::hash::group_hash_axioms;

/// The largest number of bytes, at most `x`, that `budget` allows.
pub open spec fn largest_payload(budget: usize, max_packet: u32, framing: usize, x: nat) -> nat
    decreases x,
{
    if x == 0 || pipeline::data_cost(x, max_packet, framing) <= budget {
        x
    } else {
        largest_payload(budget, max_packet, framing, (x - 1) as nat)
    }
}

/// A number that the budget allows, with none above it, is the largest.
pub proof fn lemma_largest_payload(
    budget: usize,
    max_packet: u32,
    framing: usize,
    r: nat,
    x: nat,
)
    requires
        r <= x <= budget,
        pipeline::data_cost(r, max_packet, framing) <= budget,
        forall|y: nat|
            r < y <= budget ==> #[trigger] pipeline::data_cost(y, max_packet, framing) > budget,
    ensures
        largest_payload(budget, max_packet, framing, x) == r,
    decreases x,
{
    if x > r {
        assert(pipeline::data_cost(x, max_packet, framing) > budget);
        lemma_largest_payload(budget, max_packet, framing, r, (x - 1) as nat);
    }
}

impl Peer {
    /// A lane drained into the staging buffer.
    pub open spec fn lane_flushed(self, id: u32, allow_data: bool) -> (Peer, Result<usize, Error>) {
        match self.common.enc {
            Some(e) => (
                self.with_st(e.st.flush_lane(id, drain::gate_open(), allow_data)),
                e.st.flush_lane_result(id, drain::gate_open(), allow_data),
            ),
            None => (self, Ok(0)),
        }
    }

    /// The peer's packet size and the framing that the channel's next data
    /// packet goes by.
    pub open spec fn next_shape(self, id: u32) -> (u32, usize) {
        match self.lane(id) {
            Some(l) => (
                l.recipient_maximum_packet_size,
                if l.head_is_extended() {
                    CHANNEL_EXT_DATA_FRAMING
                } else {
                    CHANNEL_DATA_FRAMING
                },
            ),
            None => (self.config.maximum_packet_size, CHANNEL_DATA_FRAMING),
        }
    }

    /// Application bytes that the channel's next packet may carry on account
    /// of the backlog.
    pub open spec fn next_allowance(self, id: u32) -> nat {
        let (max_packet, framing) = self.next_shape(id);
        let budget = self.budget(max_packet, framing);
        drain::min(
            drain::min(
                largest_payload(budget, max_packet, framing, budget as nat),
                max_packet as nat,
            ),
            LOCAL_TRANSPORT_PAYLOAD_CAP as nat,
        )
    }

    /// One data packet of at most `cap` bytes of a channel staged, and how many
    /// bytes it carries.
    pub open spec fn packet_staged(self, id: u32, cap: u32) -> (Peer, nat) {
        match self.common.enc {
            Some(e) => (self.with_st(e.st.packet_staged(id, cap).0), e.st.packet_staged(id, cap).1),
            None => (self, 0),
        }
    }

    /// One data packet of at most `cap` bytes of a channel and the fences that
    /// come up behind it staged, and what is staged flushed.
    #[verifier::opaque]
    pub open spec fn one_packet_out(self, id: u32, cap: u32) -> (Peer, Result<usize, Error>) {
        let (b, n) = self.packet_staged(id, cap);
        let (e, r) = b.lane_flushed(id, false).0.flushed();
        match r {
            Err(x) => (e, Err(x)),
            Ok(_) => (e, Ok(n as usize)),
        }
    }

    /// What the channel's next data packet may carry, for the backlog and for
    /// the peer's window; nothing where no data is queued.
    pub open spec fn quantum(self, id: u32) -> u32 {
        match self.lane(id) {
            Some(l) if l.data.len() > 0 => drain::min(
                self.next_allowance(id),
                l.recipient_window_size as nat,
            ) as u32,
            _ => 0,
        }
    }

    /// A channel's fences out, and one data packet where the backlog and the
    /// peer's window allow it. Returns the application bytes that left.
    #[verifier::opaque]
    pub open spec fn channel_drained(self, id: u32) -> (Peer, Result<usize, Error>) {
        let (a, r) = self.lane_flushed(id, false);
        if r is Err {
            (a, r)
        } else if a.blocked() {
            (a, Ok(0))
        } else if a.next_shape(id).0 == 0 {
            (a, Err(Error::Inconsistent))
        } else {
            if a.quantum(id) > 0 {
                a.sampled().one_packet_out(id, a.quantum(id))
            } else {
                (a.sampled(), Ok(0))
            }
        }
    }

    /// The channels with something queued, ascending.
    pub open spec fn busy_channels(self) -> Seq<u32> {
        match self.common.enc {
            Some(e) => listing::listing(e.st.channels.dom()).filter(
                |id: u32| e.st.channels.contains_key(id) && e.st.channels[id].busy(),
            ),
            None => Seq::empty(),
        }
    }

    /// The channels whose head is data that their window lets out, ascending.
    pub open spec fn ready(self) -> Seq<u32> {
        match self.common.enc {
            Some(e) => listing::listing(e.st.channels.dom()).filter(
                |id: u32| e.st.channels.contains_key(id) && e.st.channels[id].in_ready_set(),
            ),
            None => Seq::empty(),
        }
    }

    /// The fences of several channels out, in order, up to an error.
    pub open spec fn fences_out(self, ids: Seq<u32>) -> (Peer, Result<(), Error>)
        decreases ids.len(),
    {
        if ids.len() == 0 {
            (self, Ok(()))
        } else {
            let (s, r) = self.lane_flushed(ids[0], false);
            match r {
                Err(e) => (s, Err(e)),
                Ok(_) => s.fences_out(ids.drop_first()),
            }
        }
    }

    /// A channel that has not sent its first packet since it was confirmed.
    pub open spec fn boostable(self, id: u32) -> bool {
        self.lane(id) matches Some(l) && l.boost_pending && l.in_ready_set()
    }

    /// The first ready channel that may be boosted.
    pub open spec fn boost_candidate(self, ready: Seq<u32>) -> Option<u32>
        decreases ready.len(),
    {
        if ready.len() == 0 {
            None
        } else if self.boostable(ready[0]) {
            Some(ready[0])
        } else {
            self.boost_candidate(ready.drop_first())
        }
    }

    /// What a watcher of the scheduler has seen, replaced.
    pub open spec fn with_seen(self, seen: Option<SchedSeen>) -> Peer {
        Peer { sched: Sched { seen, ..self.sched }, ..self }
    }

    /// A watcher sees that a channel's packet left.
    pub open spec fn emit_seen(self, id: u32, boost: bool) -> Peer {
        let to = match self.lane(id) {
            Some(l) => l.recipient_channel,
            None => id,
        };
        self.with_seen(
            match self.sched.seen {
                Some(s) => Some(s.one_emit(to, boost, self.ready().len() as u32)),
                None => None,
            },
        )
    }

    /// A watcher sees a boost.
    pub open spec fn boost_seen(self) -> Peer {
        self.with_seen(
            match self.sched.seen {
                Some(s) => Some(s.one_boost()),
                None => None,
            },
        )
    }

    /// A round in which data left is counted.
    pub open spec fn quantum_counted(self) -> Peer {
        let s = self.with_seen(
            match self.sched.seen {
                Some(s) => Some(s.one_quantum()),
                None => None,
            },
        );
        Peer { sched: Sched { since_boost: one_more(self.sched.since_boost), ..s.sched }, ..s }
    }

    /// A channel was boosted: it sits the next round out.
    pub open spec fn boost_taken(self, id: u32) -> Peer {
        (Peer {
            sched: Sched { since_boost: 0, debt: Some(id), ..self.sched },
            ..self
        }).boost_seen().emit_seen(id, true)
    }

    /// A boost, where one is allowed and a channel is there for it.
    #[verifier::opaque]
    pub open spec fn boosted(self) -> (Peer, Result<(), Error>) {
        match self.boost_candidate(self.ready()) {
            Some(id) if self.sched.since_boost >= BOOST_PERIOD => {
                let (s, r) = self.channel_drained(id);
                match r {
                    Err(e) => (s, Err(e)),
                    Ok(n) => if n > 0 {
                        (s.boost_taken(id), Ok(()))
                    } else {
                        (s, Ok(()))
                    },
                }
            },
            _ => (self, Ok(())),
        }
    }

    /// The rest of one round over `ready`, from its `i`-th channel on counted
    /// from `start`. A channel that the cap refuses stops the round and begins
    /// the next one.
    pub open spec fn passed(
        self,
        ready: Seq<u32>,
        start: int,
        i: int,
        progressed: bool,
        last: Option<u32>,
    ) -> Pass
        decreases ready.len() - i,
    {
        if i >= ready.len() {
            Pass { peer: self, progressed, last, stopped: false, result: Ok(()) }
        } else {
            let id = ready[(start + i) % (ready.len() as int)];
            if self.sched.debt == Some(id) {
                self.passed(ready, start, i + 1, progressed, last)
            } else {
                let (s, r) = self.channel_drained(id);
                match r {
                    Err(e) => Pass { peer: s, progressed, last, stopped: false, result: Err(e) },
                    Ok(n) => if n > 0 {
                        s.emit_seen(id, false).passed(ready, start, i + 1, true, Some(id))
                    } else {
                        Pass {
                            peer: Peer { sched: Sched { next: Some(id), ..s.sched }, ..s },
                            progressed,
                            last,
                            stopped: true,
                            result: Ok(()),
                        }
                    },
                }
            }
        }
    }

    /// One round over the channels that are ready. Returns whether any data
    /// left.
    #[verifier::opaque]
    pub open spec fn regular_round(self) -> (Peer, Result<bool, Error>) {
        let ready = self.ready();
        if ready.len() == 0 {
            (self, Ok(false))
        } else {
            let p = self.passed(ready, start_of(ready, self.sched.next), 0, false, None);
            match p.result {
                Err(e) => (p.peer, Err(e)),
                Ok(_) => {
                    let sched = Sched {
                        debt: None,
                        next: match p.last {
                            Some(id) if !p.stopped => Some(successor(ready, id)),
                            _ => p.peer.sched.next,
                        },
                        ..p.peer.sched
                    };
                    let s = Peer { sched, ..p.peer };
                    (
                        if p.progressed {
                            s.quantum_counted()
                        } else {
                            s
                        },
                        Ok(p.progressed),
                    )
                },
            }
        }
    }

    /// A boost where one is due, and a regular round; nothing while a key
    /// exchange is under way.
    #[verifier::opaque]
    pub open spec fn round(self) -> (Peer, Result<bool, Error>) {
        if self.blocked() || self.ready().len() == 0 {
            (self, Ok(false))
        } else {
            let (s, r) = self.boosted();
            match r {
                Err(e) => (s, Err(e)),
                Ok(_) => s.regular_round(),
            }
        }
    }

    /// Rounds until nothing more leaves.
    pub open spec fn rounds(self) -> (Peer, Result<(), Error>)
        decreases self.windows(),
    {
        match self.round() {
            (s, Err(e)) => (s, Err(e)),
            (s, Ok(more)) => if more && s.windows() < self.windows() {
                s.rounds()
            } else {
                (s, Ok(()))
            },
        }
    }

    /// Fences of every channel, then data in rounds, as far as backlog and
    /// windows allow.
    pub open spec fn data_drained(self) -> (Peer, Result<(), Error>) {
        let (s, r) = self.fences_out(self.busy_channels());
        if r is Err {
            (s, r)
        } else {
            s.rounds()
        }
    }

    /// What the peer still takes on all channels.
    pub open spec fn windows(self) -> nat {
        match self.common.enc {
            Some(e) => total_window(e.st.channels, 0x1_0000_0000),
            None => 0,
        }
    }
}

/// How a round ended.
#[verifier::ext_equal]
pub struct Pass {
    pub peer: Peer,
    pub progressed: bool,
    pub last: Option<u32>,
    pub stopped: bool,
    pub result: Result<(), Error>,
}

/// One more than `count`, at most the largest count.
pub open spec fn one_more(count: u32) -> u32 {
    if count == u32::MAX {
        count
    } else {
        (count + 1) as u32
    }
}

/// Where in `ready` a round begins: at the first channel not below `next`.
pub open spec fn start_of(ready: Seq<u32>, next: Option<u32>) -> int {
    match next {
        None => 0,
        Some(n) => position_from(ready, n, 0),
    }
}

/// The place of the first channel not below `n`, or the beginning.
pub open spec fn position_from(ready: Seq<u32>, n: u32, i: int) -> int
    decreases ready.len() - i,
{
    if i >= ready.len() {
        0
    } else if ready[i] >= n {
        i
    } else {
        position_from(ready, n, i + 1)
    }
}

/// The first channel above `id`, or the first one of all.
pub open spec fn successor(ready: Seq<u32>, id: u32) -> u32 {
    successor_from(ready, id, 0)
}

/// The first channel above `id` from place `i` on, or the first one of all.
pub open spec fn successor_from(ready: Seq<u32>, id: u32, i: int) -> u32
    decreases ready.len() - i,
{
    if i >= ready.len() {
        ready[0]
    } else if ready[i] > id {
        ready[i]
    } else {
        successor_from(ready, id, i + 1)
    }
}

/// The window of channel `id`, none where there is no such channel.
pub open spec fn window_at(m: Map<u32, Lane>, id: u32) -> nat {
    if m.contains_key(id) {
        m[id].recipient_window_size as nat
    } else {
        0
    }
}

/// The windows of the channels below `k`.
pub open spec fn total_window(m: Map<u32, Lane>, k: nat) -> nat
    decreases k,
{
    if k == 0 {
        0
    } else {
        total_window(m, (k - 1) as nat) + window_at(m, (k - 1) as u32)
    }
}

/// Tables that differ in one channel differ by that channel's window.
proof fn lemma_total_window(m: Map<u32, Lane>, n: Map<u32, Lane>, id: u32, k: nat)
    requires
        k <= 0x1_0000_0000,
        forall|x: u32| x != id ==> #[trigger] window_at(m, x) == window_at(n, x),
    ensures
        id < k ==> total_window(m, k) + window_at(n, id) == total_window(n, k) + window_at(m, id),
        id >= k ==> total_window(m, k) == total_window(n, k),
    decreases k,
{
    if k > 0 {
        lemma_total_window(m, n, id, (k - 1) as nat);
        assert((k - 1) as u32 == k - 1);
        if (k - 1) as u32 != id {
            assert(window_at(m, (k - 1) as u32) == window_at(n, (k - 1) as u32));
        }
    }
}

/// Draining a lane touches no other lane, and takes what it sends off the
/// window.
proof fn lemma_flush_lane_windows(s: Staging, id: u32, allow_data: bool)
    ensures
        ({
            let t = s.flush_lane(id, drain::gate_open(), allow_data);
            let r = s.flush_lane_result(id, drain::gate_open(), allow_data);
            &&& forall|x: u32| x != id ==> #[trigger] window_at(t.channels, x) == window_at(
                s.channels,
                x,
            )
            &&& window_at(t.channels, id) <= window_at(s.channels, id)
            &&& r matches Ok(n) ==> n <= window_at(s.channels, id) && (t.channels.contains_key(id)
                ==> window_at(t.channels, id) == window_at(s.channels, id) - n)
            &&& !allow_data ==> (t.channels.contains_key(id) ==> window_at(t.channels, id)
                == window_at(s.channels, id))
            &&& t.channels.contains_key(id) ==> s.channels.contains_key(id)
        }),
{
    if s.channels.contains_key(id) {
        lane_laws::law_drain_stays_within_window(
            s.channels[id],
            drain::gate_open(),
            allow_data,
        );
    }
}

/// Fences alone are never stuck on the peer's packet size.
pub proof fn lemma_fences_never_fail(s: Peer, id: u32)
    ensures
        s.lane_flushed(id, false).1 == Ok::<usize, Error>(0),
{
    if s.common.enc is Some && s.st().channels.contains_key(id) {
        drain::lemma_fences_only(s.st().channels[id], drain::gate_open());
    }
}

/// Flushing what is staged leaves the lanes alone.
pub proof fn lemma_flushed_lanes(s: Peer)
    ensures
        s.flushed().0.common.enc is Some <==> s.common.enc is Some,
        s.common.enc is Some ==> s.flushed().0.st().channels == s.st().channels,
        s.flushed().0.sched == s.sched,
{
    reveal(Peer::flushed);
    flush::lemma_retried_keeps(s);
    let a = s.retried().0;
    if s.retried().1 is Ok {
        if a.link is Some {
            reveal(Peer::flushed_out);
            let a = a.restaged();
            lemma_handed_on_lanes(a, a.blocked());
            let b = a.handed_on(a.blocked()).0;
            lemma_begun_lanes(b.tidied().rekey_noted(), b.tidied().rekey_due());
        } else {
            reveal(Peer::flushed_here);
            match a.common.enc {
                Some(e) => {
                    let sink = a.common.sink.all(wire::packets(a.unsent()));
                    let due = !e.keys.kex.skip_exchange && (e.st.rekey_wanted || sink.bytes
                        >= a.config.limits.max_bytes);
                    let b = Peer { common: Common { sink, ..a.common }, ..a };
                    lemma_begun_lanes(
                        b.with_st(Staging { write: Seq::empty(), cursor: 0, ..e.st }).rekey_noted(),
                        due,
                    );
                },
                None => {},
            }
        }
    }
}

/// Beginning a key exchange leaves the lanes alone.
proof fn lemma_begun_lanes(s: Peer, due: bool)
    ensures
        s.begun_if(due).0.common.enc is Some <==> s.common.enc is Some,
        s.common.enc is Some ==> s.begun_if(due).0.st().channels == s.st().channels,
        s.begun_if(due).0.sched == s.sched,
{
    reveal(Peer::begun_if);
    reveal(Peer::begun);
    reveal(Peer::kexinit_sent);
    if s.common.enc is Some {
        let e = s.common.enc->0;
        let t = Peer {
            common: Common {
                enc: Some(
                    Enc {
                        keys: crate::common_session::Keys { exchange: None, ..e.keys },
                        ..e
                    },
                ),
                ..s.common
            },
            ..s
        };
        flush::lemma_retried_keeps(
            Peer {
                offer: None,
                kex: crate::server::session::SessionKexState::InProgress,
                ..t
            },
        );
    }
}

/// Handing packets on leaves the lanes alone.
proof fn lemma_handed_on_lanes(s: Peer, hold: bool)
    ensures
        s.handed_on(hold).0.common.enc is Some <==> s.common.enc is Some,
        s.common.enc is Some ==> s.handed_on(hold).0.st().channels == s.st().channels,
        s.handed_on(hold).0.sched == s.sched,
    decreases s.unsent().len(),
{
    reveal(Peer::hand_step);
    let (t, r) = s.hand_step(hold);
    if r == Ok::<bool, Error>(true) && t.unsent().len() < s.unsent().len() {
        lemma_handed_on_lanes(t, hold);
    }
}

/// Draining a channel never widens a window, and what it sends it takes off.
pub proof fn lemma_channel_drained_windows(s: Peer, id: u32)
    ensures
        ({
            let (t, r) = s.channel_drained(id);
            &&& t.windows() <= s.windows()
            &&& r matches Ok(n) ==> n > 0 ==> t.windows() < s.windows()
            &&& t.sched == s.sched
        }),
{
    reveal(Peer::channel_drained);
    match s.common.enc {
        None => {},
        Some(e) => {
            let a = s.lane_flushed(id, false).0;
            lemma_flush_lane_windows(e.st, id, false);
            lemma_total_window(e.st.channels, a.st().channels, id, 0x1_0000_0000);
            match a.lane(id) {
                Some(l) => {
                    if a.quantum(id) > 0 {
                        lemma_one_packet_windows(a.sampled(), id, a.quantum(id));
                    }
                },
                None => {},
            }
        },
    }
}

/// One packet takes what it carries off its channel's window.
proof fn lemma_one_packet_windows(a: Peer, id: u32, cap: u32)
    requires
        a.lane(id) matches Some(l) && 0 < cap <= l.recipient_window_size,
    ensures
        ({
            let (t, r) = a.one_packet_out(id, cap);
            &&& t.windows() <= a.windows()
            &&& r matches Ok(n) ==> n > 0 ==> t.windows() < a.windows()
            &&& t.sched == a.sched
        }),
{
    reveal(Peer::one_packet_out);
    let (b, n) = a.packet_staged(id, cap);
    drain::lemma_one_packet(a.lane(id)->0, cap);
    lemma_total_window(a.st().channels, b.st().channels, id, 0x1_0000_0000);
    let c = b.lane_flushed(id, false).0;
    lemma_flush_lane_windows(b.st(), id, false);
    lemma_total_window(b.st().channels, c.st().channels, id, 0x1_0000_0000);
    lemma_flushed_lanes(c);
}

/// A round never widens a window, and one in which data left narrows some.
proof fn lemma_passed_windows(
    s: Peer,
    ready: Seq<u32>,
    start: int,
    i: int,
    progressed: bool,
    last: Option<u32>,
)
    ensures
        ({
            let p = s.passed(ready, start, i, progressed, last);
            &&& p.peer.windows() <= s.windows()
            &&& p.progressed && !progressed ==> p.peer.windows() < s.windows()
        }),
    decreases ready.len() - i,
{
    if i < ready.len() {
        let id = ready[(start + i) % (ready.len() as int)];
        if s.sched.debt == Some(id) {
            lemma_passed_windows(s, ready, start, i + 1, progressed, last);
        } else {
            lemma_channel_drained_windows(s, id);
            let (t, r) = s.channel_drained(id);
            if r is Ok && r->Ok_0 > 0 {
                lemma_passed_windows(t.emit_seen(id, false), ready, start, i + 1, true, Some(id));
            }
        }
    }
}

/// A round in which data left narrows some window.
pub proof fn lemma_round_windows(s: Peer)
    ensures
        s.round().1 == Ok::<bool, Error>(true) ==> s.round().0.windows() < s.windows(),
{
    reveal(Peer::round);
    reveal(Peer::boosted);
    reveal(Peer::regular_round);
    match s.boost_candidate(s.ready()) {
        Some(id) => lemma_channel_drained_windows(s, id),
        None => {},
    }
    let b = s.boosted().0;
    if b.ready().len() > 0 {
        lemma_passed_windows(b, b.ready(), start_of(b.ready(), b.sched.next), 0, false, None);
    }
}

impl Session {
    /// Drains a lane into the staging buffer.
    fn flush_pending_ex(&mut self, channel: ChannelId, allow_data: bool) -> (r: Result<
        usize,
        Error,
    >)
        requires
            old(self).peer().ok(),
        ensures
            final(self).app() == old(self).app(),
            (final(self).peer(), r) == old(self).peer().lane_flushed(channel.0, allow_data),
            final(self).peer().ok(),
    {
        match &mut self.common.encrypted {
            Some(enc) => {
                proof {
                    closing::lemma_flush_lane_ok(enc@, channel.0, allow_data);
                }
                enc.flush_pending_ungated(channel, allow_data)
            },
            None => Ok(0),
        }
    }

    /// Drains a lane; data stays while a key exchange is under way.
    pub fn flush_pending(&mut self, channel: ChannelId) -> (r: Result<usize, Error>)
        requires
            old(self).peer().ok(),
        ensures
            final(self).app() == old(self).app(),
            (final(self).peer(), r) == old(self).peer().lane_flushed(
                channel.0,
                !old(self).peer().blocked(),
            ),
            final(self).peer().ok(),
    {
        let allow: bool = !self.blocks_outbound_intake();
        self.flush_pending_ex(channel, allow)
    }

    /// Lets the fences at the head of a lane out, and no data.
    pub fn flush_pending_fences(&mut self, channel: ChannelId) -> (r: Result<usize, Error>)
        requires
            old(self).peer().ok(),
        ensures
            final(self).app() == old(self).app(),
            (final(self).peer(), r) == old(self).peer().lane_flushed(channel.0, false),
            final(self).peer().ok(),
    {
        self.flush_pending_ex(channel, false)
    }

    /// The window, packet size and framing of a channel's next data packet.
    fn next_shape(&self, id: u32) -> (r: (u32, usize))
        ensures
            r == self.peer().next_shape(id),
    {
        if let Some(enc) = &self.common.encrypted {
            if let Some(ch) = enc.channels.get(&id) {
                let framing: usize = if ch.pending_head_is_extended() {
                    CHANNEL_EXT_DATA_FRAMING
                } else {
                    CHANNEL_DATA_FRAMING
                };
                return (ch.recipient_maximum_packet_size, framing);
            }
        }
        (self.config.maximum_packet_size, CHANNEL_DATA_FRAMING)
    }

    /// The peer's window of a channel that has data queued.
    fn window_with_data(&self, id: u32) -> (r: u32)
        ensures
            r == (match self.peer().lane(id) {
                Some(l) if l.data.len() > 0 => l.recipient_window_size,
                _ => 0,
            }),
    {
        if let Some(enc) = &self.common.encrypted {
            if let Some(ch) = enc.channels.get(&id) {
                if ch.pending_data.len() > 0 {
                    return ch.recipient_window_size;
                }
            }
        }
        0
    }

    /// Stages one data packet of at most `cap` bytes.
    fn stage_one_packet(&mut self, id: u32, cap: u32) -> (r: Result<usize, Error>)
        requires
            old(self).peer().ok(),
            old(self).peer().lane(id) matches Some(l) ==> l.recipient_maximum_packet_size > 0
                && cap <= l.recipient_window_size,
        ensures
            final(self).app() == old(self).app(),
            final(self).peer() == old(self).peer().packet_staged(id, cap).0,
            r == Ok::<usize, Error>(old(self).peer().packet_staged(id, cap).1 as usize),
            final(self).peer().ok(),
    {
        match &mut self.common.encrypted {
            Some(enc) => {
                proof {
                    closing::lemma_packet_staged_ok(enc@, id, cap);
                }
                enc.stage_one_packet(ChannelId(id), cap)
            },
            None => Ok(0),
        }
    }

    /// Lets one data packet of at most `cap` bytes out, and the fences behind
    /// it, and flushes.
    fn send_one_packet(&mut self, id: u32, cap: u32) -> (r: Result<usize, Error>)
        requires
            old(self).peer().ok(),
            old(self).peer().lane(id) matches Some(l) ==> l.recipient_maximum_packet_size > 0
                && cap <= l.recipient_window_size,
        ensures
            final(self).app() == old(self).app(),
            (final(self).peer(), r) == old(self).peer().one_packet_out(id, cap),
            final(self).peer().ok(),
    {
        proof {
            reveal(Peer::one_packet_out);
        }
        let n: usize = self.stage_one_packet(id, cap)?;
        let ghost b = self.peer();
        proof {
            lemma_fences_never_fail(b, id);
        }
        let _ = self.flush_pending_fences(ChannelId(id))?;
        self.flush()?;
        Ok(n)
    }

    /// Lets a channel's fences out, and one data packet where the backlog and
    /// the peer's window allow it. Returns the application bytes that left.
    pub fn try_drain_channel_under_budget(&mut self, id: ChannelId) -> (r: Result<usize, Error>)
        requires
            old(self).peer().ok(),
        ensures
            final(self).app() == old(self).app(),
            (final(self).peer(), r) == old(self).peer().channel_drained(id.0),
            final(self).peer().ok(),
    {
        proof {
            reveal(Peer::channel_drained);
        }
        let _ = self.flush_pending_fences(id)?;
        if self.blocks_outbound_intake() {
            return Ok(0);
        }
        let (max_packet, framing) = self.next_shape(id.0);
        if max_packet == 0 {
            return Err(Error::Inconsistent);
        }
        let budget: usize = self.outbound_budget_for_peer_packet(max_packet, framing);
        let fits: usize = Self::max_payload_for_budget_framed(budget, max_packet, framing);
        proof {
            lemma_largest_payload(budget, max_packet, framing, fits as nat, budget as nat);
        }
        let mut cap: usize = fits;
        if cap > max_packet as usize {
            cap = max_packet as usize;
        }
        if cap > LOCAL_TRANSPORT_PAYLOAD_CAP {
            cap = LOCAL_TRANSPORT_PAYLOAD_CAP;
        }
        assert(cap == self.peer().next_allowance(id.0));
        let saved: u32 = self.window_with_data(id.0);
        if cap == 0 || saved == 0 {
            return Ok(0);
        }
        let cap: u32 = if cap < saved as usize {
            cap as u32
        } else {
            saved
        };
        self.send_one_packet(id.0, cap)
    }

    /// The channels whose head is data that their window lets out, ascending.
    pub fn ready_set(&self) -> (r: Vec<u32>)
        ensures
            r@ == self.peer().ready(),
    {
        let mut out: Vec<u32> = Vec::new();
        if let Some(enc) = &self.common.encrypted {
            let ids: Vec<u32> = sorted_keys(&enc.channels);
            assert(enc.channels@.dom() =~= enc@.channels.dom());
            let ghost pred = |id: u32|
                enc@.channels.contains_key(id) && enc@.channels[id].in_ready_set();
            let mut i: usize = 0;
            assert(out@ =~= ids@.take(0).filter(pred));
            while i < ids.len()
                invariant
                    i <= ids@.len(),
                    pred == (|id: u32|
                        enc@.channels.contains_key(id) && enc@.channels[id].in_ready_set()),
                    out@ == ids@.take(i as int).filter(pred),
                decreases ids@.len() - i,
            {
                let id: u32 = ids[i];
                assert(ids@.take(i + 1).drop_last() =~= ids@.take(i as int));
                reveal(Seq::filter);
                if let Some(ch) = enc.channels.get(&id) {
                    if ch.in_ready_set() {
                        out.push(id);
                    }
                }
                i = i + 1;
            }
            assert(ids@.take(i as int) =~= ids@);
        }
        out
    }

    /// The channels with something queued, ascending.
    fn busy_channels(&self) -> (r: Vec<u32>)
        ensures
            r@ == self.peer().busy_channels(),
    {
        let mut out: Vec<u32> = Vec::new();
        if let Some(enc) = &self.common.encrypted {
            let ids: Vec<u32> = sorted_keys(&enc.channels);
            assert(enc.channels@.dom() =~= enc@.channels.dom());
            let ghost pred = |id: u32|
                enc@.channels.contains_key(id) && enc@.channels[id].busy();
            let mut i: usize = 0;
            assert(out@ =~= ids@.take(0).filter(pred));
            while i < ids.len()
                invariant
                    i <= ids@.len(),
                    pred == (|id: u32|
                        enc@.channels.contains_key(id) && enc@.channels[id].busy()),
                    out@ == ids@.take(i as int).filter(pred),
                decreases ids@.len() - i,
            {
                let id: u32 = ids[i];
                assert(ids@.take(i + 1).drop_last() =~= ids@.take(i as int));
                reveal(Seq::filter);
                if enc.has_pending_lane(ChannelId(id)) {
                    out.push(id);
                }
                i = i + 1;
            }
            assert(ids@.take(i as int) =~= ids@);
        }
        out
    }

    /// Whether enough regular rounds have passed for a boost.
    fn sched_boost_allowed(&self) -> (r: bool)
        ensures
            r == (self.peer().sched.since_boost >= BOOST_PERIOD),
    {
        self.sched_since_boost >= BOOST_PERIOD
    }

    /// The first ready channel that may be boosted.
    fn boost_candidate(&self, ready: &Vec<u32>) -> (r: Option<u32>)
        ensures
            r == self.peer().boost_candidate(ready@),
    {
        let mut i: usize = 0;
        assert(ready@.skip(0) =~= ready@);
        while i < ready.len()
            invariant
                i <= ready@.len(),
                self.peer().boost_candidate(ready@) == self.peer().boost_candidate(
                    ready@.skip(i as int),
                ),
            decreases ready@.len() - i,
        {
            assert(ready@.skip(i as int).drop_first() =~= ready@.skip(i + 1));
            if let Some(enc) = &self.common.encrypted {
                if let Some(ch) = enc.channels.get(&ready[i]) {
                    if ch.boost_pending && ch.in_ready_set() {
                        return Some(ready[i]);
                    }
                }
            }
            i = i + 1;
        }
        None
    }

    /// Counts a round in which data left.
    fn note_sched_quantum(&mut self)
        ensures
            final(self).app() == old(self).app(),
            final(self).peer() == old(self).peer().quantum_counted(),
    {
        self.sched_since_boost = self.sched_since_boost.saturating_add(1);
        if let Some(slot) = &mut self.sched_slot {
            slot.note_quantum();
        }
    }

    /// Shows a watcher a boost.
    fn note_sched_boost(&mut self)
        ensures
            final(self).app() == old(self).app(),
            final(self).peer() == old(self).peer().boost_seen(),
    {
        if let Some(slot) = &mut self.sched_slot {
            slot.note_boost();
        }
    }

    /// Shows a watcher that a channel's packet left.
    fn show_sched_emit(&mut self, id: u32, boost: bool)
        ensures
            final(self).app() == old(self).app(),
            final(self).peer() == old(self).peer().emit_seen(id, boost),
    {
        let mut slot: Option<SchedSlot> = None;
        std::mem::swap(&mut self.sched_slot, &mut slot);
        assert(self.peer().ready() == old(self).peer().ready());
        if let Some(s) = &mut slot {
            self.note_sched_emit(s, ChannelId(id), boost);
        }
        self.sched_slot = slot;
    }

    /// Boosts a newly confirmed channel, where that is allowed.
    fn try_boost(&mut self) -> (r: Result<(), Error>)
        requires
            old(self).peer().ok(),
        ensures
            final(self).app() == old(self).app(),
            (final(self).peer(), r) == old(self).peer().boosted(),
            final(self).peer().ok(),
    {
        proof {
            reveal(Peer::boosted);
        }
        if !self.sched_boost_allowed() {
            return Ok(());
        }
        let ready = self.ready_set();
        if let Some(id) = self.boost_candidate(&ready) {
            let n: usize = self.try_drain_channel_under_budget(ChannelId(id))?;
            if n > 0 {
                self.sched_since_boost = 0;
                self.sched_debt = Some(id);
                self.note_sched_boost();
                self.show_sched_emit(id, true);
            }
        }
        Ok(())
    }

    /// One pass over the ready channels.
    fn pass(&mut self, ready: &Vec<u32>, start: usize) -> (r: Result<
        (bool, Option<u32>, bool),
        Error,
    >)
        requires
            old(self).peer().ok(),
            ready@.len() > 0,
            start < ready@.len(),
        ensures
            final(self).app() == old(self).app(),
            ({
                let p = old(self).peer().passed(ready@, start as int, 0, false, None);
                &&& final(self).peer() == p.peer
                &&& match r {
                    Ok(x) => p.result is Ok && x == (p.progressed, p.last, p.stopped),
                    Err(e) => p.result == Err::<(), Error>(e),
                }
            }),
            final(self).peer().ok(),
    {
        let ghost want = self.peer().passed(ready@, start as int, 0, false, None);
        let len: usize = ready.len();
        let mut progressed: bool = false;
        let mut last: Option<u32> = None;
        let mut i: usize = 0;
        let mut at: usize = start;
        proof {
            vstd::arithmetic::div_mod::lemma_small_mod(start as nat, len as nat);
        }
        while i < len
            invariant
                len == ready@.len(),
                len > 0,
                start < len,
                i <= len,
                at < len,
                at == (start + i) % (len as int),
                self.app() == old(self).app(),
                self.peer().ok(),
                want == self.peer().passed(ready@, start as int, i as int, progressed, last),
                want == old(self).peer().passed(ready@, start as int, 0, false, None),
            decreases len - i,
        {
            let id: u32 = ready[at];
            let next: usize = if at + 1 == len {
                0
            } else {
                at + 1
            };
            assert(next == (start + (i + 1)) % (len as int)) by (nonlinear_arith)
                requires
                    at == (start + i) % (len as int),
                    next == (if at + 1 == len {
                        0
                    } else {
                        at + 1
                    }),
                    0 <= start < len,
                    0 <= i < len,
            ;
            let skip: bool = match self.sched_debt {
                Some(d) => d == id,
                None => false,
            };
            if !skip {
                let n: usize = self.try_drain_channel_under_budget(ChannelId(id))?;
                if n == 0 {
                    self.sched_next = Some(id);
                    return Ok((progressed, last, true));
                }
                progressed = true;
                last = Some(id);
                self.show_sched_emit(id, false);
            }
            i = i + 1;
            at = next;
        }
        Ok((progressed, last, false))
    }

    /// Where in `ready` a round begins.
    fn start_of(ready: &Vec<u32>, next: Option<u32>) -> (r: usize)
        requires
            ready@.len() > 0,
        ensures
            r == start_of(ready@, next),
            r < ready@.len(),
    {
        match next {
            None => 0,
            Some(n) => {
                let mut i: usize = 0;
                while i < ready.len()
                    invariant
                        i <= ready@.len(),
                        next == Some(n),
                        position_from(ready@, n, 0) == position_from(ready@, n, i as int),
                    decreases ready@.len() - i,
                {
                    if ready[i] >= n {
                        return i;
                    }
                    i = i + 1;
                }
                0
            },
        }
    }

    /// The first channel above `id`, or the first one of all.
    fn successor(ready: &Vec<u32>, id: u32) -> (r: u32)
        requires
            ready@.len() > 0,
        ensures
            r == successor(ready@, id),
    {
        let mut i: usize = 0;
        while i < ready.len()
            invariant
                i <= ready@.len(),
                ready@.len() > 0,
                successor_from(ready@, id, 0) == successor_from(ready@, id, i as int),
            decreases ready@.len() - i,
        {
            if ready[i] > id {
                return ready[i];
            }
            i = i + 1;
        }
        ready[0]
    }

    /// One round over the channels that are ready.
    fn regular_round(&mut self) -> (r: Result<bool, Error>)
        requires
            old(self).peer().ok(),
        ensures
            final(self).app() == old(self).app(),
            (final(self).peer(), r) == old(self).peer().regular_round(),
            final(self).peer().ok(),
    {
        proof {
            reveal(Peer::regular_round);
        }
        let ready = self.ready_set();
        if ready.len() == 0 {
            return Ok(false);
        }
        let start: usize = Self::start_of(&ready, self.sched_next);
        let (progressed, last, stopped) = self.pass(&ready, start)?;
        self.sched_debt = None;
        if !stopped {
            if let Some(id) = last {
                self.sched_next = Some(Self::successor(&ready, id));
            }
        }
        if progressed {
            self.note_sched_quantum();
        }
        Ok(progressed)
    }

    /// A boost where one is due, and a regular round.
    fn round(&mut self) -> (r: Result<bool, Error>)
        requires
            old(self).peer().ok(),
        ensures
            final(self).app() == old(self).app(),
            (final(self).peer(), r) == old(self).peer().round(),
            final(self).peer().ok(),
    {
        proof {
            reveal(Peer::round);
        }
        if self.blocks_outbound_intake() {
            return Ok(false);
        }
        if self.ready_set().len() == 0 {
            return Ok(false);
        }
        self.try_boost()?;
        self.regular_round()
    }

    /// Lets the fences of the given channels out.
    fn fences_out(&mut self, ids: &Vec<u32>) -> (r: Result<(), Error>)
        requires
            old(self).peer().ok(),
        ensures
            final(self).app() == old(self).app(),
            (final(self).peer(), r) == old(self).peer().fences_out(ids@),
            final(self).peer().ok(),
    {
        let mut i: usize = 0;
        assert(ids@.skip(0) =~= ids@);
        while i < ids.len()
            invariant
                i <= ids@.len(),
                self.app() == old(self).app(),
                self.peer().ok(),
                self.peer().fences_out(ids@.skip(i as int)) == old(self).peer().fences_out(ids@),
            decreases ids@.len() - i,
        {
            assert(ids@.skip(i as int).drop_first() =~= ids@.skip(i + 1));
            let _ = self.flush_pending_fences(ChannelId(ids[i]))?;
            i = i + 1;
        }
        assert(ids@.skip(i as int) =~= Seq::empty());
        Ok(())
    }

    /// Lets the fences of every channel out, then data in rounds, as far as
    /// backlog and windows allow.
    pub fn try_drain_pending_data_under_budget(&mut self) -> (r: Result<(), Error>)
        requires
            old(self).peer().ok(),
        ensures
            final(self).app() == old(self).app(),
            (final(self).peer(), r) == old(self).peer().data_drained(),
            final(self).peer().ok(),
    {
        let ids = self.busy_channels();
        self.fences_out(&ids)?;
        let ghost want = self.peer().rounds();
        loop
            invariant
                self.app() == old(self).app(),
                self.peer().ok(),
                self.peer().rounds() == want,
                old(self).peer().fences_out(old(self).peer().busy_channels()).1 is Ok,
                want == old(self).peer().fences_out(old(self).peer().busy_channels()).0.rounds(),
            decreases self.peer().windows(),
        {
            proof {
                lemma_round_windows(self.peer());
            }
            let more: bool = self.round()?;
            if !more {
                return Ok(());
            }
        }
    }
}

} // verus!
