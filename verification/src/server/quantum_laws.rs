//! One packet at a time: what a channel's turn lets out, and how often a
//! channel comes up in a round.
use vstd::prelude::*;

use crate::common_session::{Common, Enc, Keys};
use crate::drain;
use crate::listing;
use crate::server::backlog_laws::{counted, on_its_way};
use crate::server::cap_laws;
use crate::server::cap_laws::{covers, fits_machine, no_data, within};
use crate::server::flush;
use crate::server::parked::ParkedCmd;
use crate::server::schedule;
use crate::server::session::{Peer, Sched, SessionKexState, BOOST_PERIOD};
use crate::server::session_laws;
use crate::server::session_laws::{kept, staged_line};
use crate::session::Staging;
use crate::staging_laws;
use crate::wire;

verus! {

impl Peer {
    /// Everything between the lanes and the socket, in order: what has been
    /// submitted, then what is staged.
    pub open spec fn outgoing(self) -> Seq<ParkedCmd> {
        self.line() + staged_line(wire::packets(self.unsent()))
    }

    /// The fences at the head of a channel's lane.
    pub open spec fn fences_due(self, id: u32) -> Seq<Seq<u8>> {
        match self.lane(id) {
            Some(l) => drain::drain(l, drain::gate_open(), false).packets,
            None => Seq::empty(),
        }
    }

    /// The next data packet of a channel, of at most `cap` bytes.
    pub open spec fn data_due(self, id: u32, cap: u32) -> Seq<Seq<u8>> {
        match self.lane(id) {
            Some(l) if l.one_packet(cap).1.len() > 0 => seq![
                drain::data_payload(l.recipient_channel, l.data[0].1, l.one_packet(cap).1),
            ],
            _ => Seq::empty(),
        }
    }

    /// What a channel's turn lets out: the fences at its head and, where no key
    /// exchange, no backlog and no window is in the way, one data packet and
    /// the fences behind it.
    pub open spec fn turn_packets(self, id: u32) -> Seq<Seq<u8>> {
        let a = self.lane_flushed(id, false).0;
        let q = a.quantum(id);
        if a.blocked() || q == 0 {
            self.fences_due(id)
        } else {
            self.fences_due(id) + a.data_due(id, q) + a.packet_staged(id, q).0.fences_due(id)
        }
    }

    /// The channels whose data packet leaves in the rest of one round.
    pub open spec fn served(self, ready: Seq<u32>, start: int, i: int) -> Seq<u32>
        decreases ready.len() - i,
    {
        if i >= ready.len() {
            Seq::empty()
        } else {
            let id = ready[(start + i) % (ready.len() as int)];
            if self.sched.debt == Some(id) {
                self.served(ready, start, i + 1)
            } else {
                match self.channel_drained(id) {
                    (t, Ok(n)) if n > 0 => seq![id] + t.emit_seen(id, false).served(
                        ready,
                        start,
                        i + 1,
                    ),
                    _ => Seq::empty(),
                }
            }
        }
    }

    /// The channels whose data packet leaves in one regular round.
    pub open spec fn served_regularly(self) -> Seq<u32> {
        if self.ready().len() == 0 {
            Seq::empty()
        } else {
            self.served(self.ready(), schedule::start_of(self.ready(), self.sched.next), 0)
        }
    }

    /// The channel whose data packet leaves by a boost.
    pub open spec fn served_by_boost(self) -> Seq<u32> {
        match self.boost_candidate(self.ready()) {
            Some(id) if self.sched.since_boost >= BOOST_PERIOD => match self.channel_drained(id).1 {
                Ok(n) if n > 0 => seq![id],
                _ => Seq::empty(),
            },
            _ => Seq::empty(),
        }
    }

    /// The channels whose data packet leaves in one round, a boost among them.
    pub open spec fn served_in_round(self) -> Seq<u32> {
        if self.blocked() || self.ready().len() == 0 {
            Seq::empty()
        } else {
            self.served_by_boost() + self.boosted().0.served_regularly()
        }
    }
}

/// The command seals a packet of application data.
pub open spec fn seals_data(c: ParkedCmd) -> bool {
    c matches ParkedCmd::SealRaw(p) && p.len() > 0 && flush::held_during_kex(p[0])
}

/// How many packets of application data there are among the commands.
pub open spec fn data_packets(q: Seq<ParkedCmd>) -> nat {
    q.filter(|c: ParkedCmd| seals_data(c)).len()
}

/// Commands one behind the other.
proof fn lemma_data_packets_add(a: Seq<ParkedCmd>, b: Seq<ParkedCmd>)
    ensures
        data_packets(a + b) == data_packets(a) + data_packets(b),
{
    Seq::filter_distributes_over_add(a, b, |c: ParkedCmd| seals_data(c));
}

/// Staged packets one behind the other.
proof fn lemma_staged_line_add(ps: Seq<Seq<u8>>, qs: Seq<Seq<u8>>)
    ensures
        staged_line(ps + qs) == staged_line(ps) + staged_line(qs),
    decreases ps.len(),
{
    if ps.len() == 0 {
        assert(ps + qs =~= qs);
        assert(staged_line(ps) + staged_line(qs) =~= staged_line(qs));
    } else {
        lemma_staged_line_add(ps.drop_first(), qs);
        assert((ps + qs).drop_first() =~= ps.drop_first() + qs);
        assert(staged_line(ps + qs) =~= staged_line(ps) + staged_line(qs));
    }
}

/// Packets without data are no data packets.
proof fn lemma_no_data_counts_none(ps: Seq<Seq<u8>>)
    requires
        no_data(ps),
    ensures
        data_packets(staged_line(ps)) == 0,
    decreases ps.len(),
{
    reveal(Seq::filter);
    if ps.len() > 0 {
        let rest = ps.drop_first();
        assert forall|i: int| 0 <= i < rest.len() implies (#[trigger] rest[i]).len() > 0
            && !flush::held_during_kex(rest[i][0]) by {
            assert(rest[i] == ps[i + 1]);
        }
        lemma_no_data_counts_none(rest);
        let c = ParkedCmd::SealRaw(ps[0]);
        assert(kept(c) == seq![c]);
        lemma_one_command(c);
        lemma_data_packets_add(kept(c), staged_line(rest));
    }
}

/// One command alone.
proof fn lemma_one_command(c: ParkedCmd)
    ensures
        data_packets(seq![c]) == (if seals_data(c) {
            1nat
        } else {
            0
        }),
        data_packets(Seq::empty()) == 0,
{
    reveal(Seq::filter);
    assert(seq![c].drop_last() =~= Seq::empty());
    assert(Seq::<ParkedCmd>::empty().filter(|c: ParkedCmd| seals_data(c)) =~= Seq::empty());
}

/// Beginning a key exchange sends no data.
proof fn lemma_begun_sends_no_data(s: Peer, due: bool)
    requires
        s.common.enc is Some,
        s.link is Some,
        s.begun_if(due).1 is Ok,
    ensures
        data_packets(s.begun_if(due).0.outgoing()) == data_packets(s.outgoing()),
{
    reveal(Peer::begun_if);
    reveal(Peer::begun);
    reveal(Peer::kexinit_sent);
    let t = s.begun_if(due).0;
    let e = s.common.enc->0;
    if due && s.kex == SessionKexState::Idle && e.keys.exchange is Some {
        if s.offer is None && s.install is None {
            assert(t.unsent() =~= s.unsent());
        } else {
            let a = Peer {
                common: Common {
                    enc: Some(Enc { keys: Keys { exchange: None, ..e.keys }, ..e }),
                    ..s.common
                },
                ..s
            };
            let k = s.offer->0;
            let c = ParkedCmd::SealPayload(k);
            let b = Peer { offer: None, kex: SessionKexState::InProgress, ..a };
            assert(b.unsent() == s.unsent());
            assert(b.line() == s.line());
            let tail = staged_line(wire::packets(s.unsent()));
            if k.len() > 0 {
                flush::lemma_retried_keeps(b);
                session_laws::law_submissions_keep_their_order(b, c);
                assert(t.unsent() == s.unsent());
                assert(t.line() == s.line() + kept(c));
                lemma_one_command(c);
                lemma_data_packets_add(s.line(), kept(c));
                lemma_data_packets_add(s.line() + kept(c), tail);
                lemma_data_packets_add(s.line(), tail);
            }
        }
    }
}

/// Flushing neither adds a data packet nor loses one.
proof fn lemma_flush_keeps_data(s: Peer, cap: nat, most: nat, handed: nat)
    requires
        within(s, cap, most, handed),
        s.link is Some,
        s.flushed().1 is Ok,
    ensures
        data_packets(s.flushed().0.outgoing()) == data_packets(s.outgoing()),
{
    reveal(Peer::flushed);
    reveal(Peer::flushed_out);
    flush::lemma_retried_keeps(s);
    session_laws::law_retrying_keeps_the_line(s);
    let b = s.retried().0.restaged();
    assert(b.unsent() == s.unsent());
    assert(b.line() == s.line());
    assert(b.ok());
    let hold = b.blocked();
    session_laws::law_handing_on_keeps_the_packets(b, hold);
    cap_laws::lemma_handed_on_frame(b, hold);
    let c = b.handed_on(hold).0;
    let d = c.tidied();
    assert(d.unsent() =~= c.unsent());
    let f = d.rekey_noted();
    cap_laws::lemma_noted(d);
    assert(f.outgoing() == s.outgoing());
    lemma_begun_sends_no_data(f, d.rekey_due());
}

impl Peer {
    /// A channel's turn before anything is flushed.
    pub open spec fn turn_staged(self, id: u32) -> Peer {
        let a = self.lane_flushed(id, false).0;
        let q = a.quantum(id);
        if a.blocked() {
            a
        } else if q == 0 {
            a.sampled()
        } else {
            a.sampled().packet_staged(id, q).0.lane_flushed(id, false).0
        }
    }
}

/// What a lane lets out without data is staged behind the rest.
pub proof fn lemma_fences_staged(s: Peer, id: u32)
    requires
        s.ok(),
        s.common.enc is Some,
    ensures
        ({
            let t = s.lane_flushed(id, false).0;
            &&& t.ok()
            &&& wire::packets(t.unsent()) == wire::packets(s.unsent()) + s.fences_due(id)
            &&& no_data(s.fences_due(id))
            &&& t.lane(id) matches Some(l) ==> !l.ctrl_ahead()
        }),
{
    reveal(Staging::ok);
    staging_laws::law_flush_lane_appends(s.st(), id, drain::gate_open(), false);
    if let Some(l) = s.lane(id) {
        cap_laws::lemma_fences_weigh(l);
    }
}

/// A channel's turn stages the fences at the head of its lane, then at most one
/// data packet, then the fences behind that, and nothing else: exactly one data
/// packet where the turn reports that bytes left, and it carries those bytes;
/// none where it reports none. After that it at most flushes.
pub proof fn law_a_turn_lets_out_one_packet(s: Peer, id: u32)
    requires
        s.ok(),
        s.common.enc is Some,
        s.channel_drained(id).1 is Ok,
    ensures
        ({
            let (t, r) = s.channel_drained(id);
            let n = r->Ok_0;
            let a = s.lane_flushed(id, false).0;
            let b = s.turn_staged(id);
            &&& wire::packets(b.unsent()) == wire::packets(s.unsent()) + s.turn_packets(id)
            &&& data_packets(staged_line(s.turn_packets(id))) == (if n > 0 {
                1nat
            } else {
                0
            })
            &&& n > 0 ==> a.lane(id) is Some && n == a.lane(id)->0.one_packet(a.quantum(id)).1.len()
            &&& t == (if a.blocked() || a.quantum(id) == 0 {
                b
            } else {
                b.flushed().0
            })
        }),
{
    reveal(Staging::ok);
    reveal(Peer::channel_drained);
    reveal(Peer::one_packet_out);
    let a = s.lane_flushed(id, false).0;
    let q = a.quantum(id);
    let f1 = s.fences_due(id);
    lemma_fences_staged(s, id);
    lemma_no_data_counts_none(f1);
    if !a.blocked() && q > 0 {
        let b = a.sampled();
        let l = a.lane(id)->0;
        assert(b.unsent() == a.unsent());
        let (c, n) = b.packet_staged(id, q);
        assert(c.unsent() == a.packet_staged(id, q).0.unsent());
        staging_laws::law_one_packet_is_appended(a.st(), id, q);
        drain::lemma_one_packet(l, q);
        let data = a.data_due(id, q);
        let f2 = c.fences_due(id);
        assert(f2 == a.packet_staged(id, q).0.fences_due(id));
        lemma_fences_staged(c, id);
        lemma_no_data_counts_none(f2);
        let ps = wire::packets(s.unsent());
        assert(wire::packets(c.unsent()) =~= ps + f1 + data);
        assert(ps + f1 + data + f2 =~= ps + (f1 + data + f2));
        lemma_data_due(a, id, q);
        lemma_staged_line_add(f1, data);
        lemma_staged_line_add(f1 + data, f2);
        lemma_data_packets_add(staged_line(f1), staged_line(data));
        lemma_data_packets_add(staged_line(f1 + data), staged_line(f2));
    }
}

/// A data packet counts as one.
proof fn lemma_data_due(a: Peer, id: u32, q: u32)
    ensures
        data_packets(staged_line(a.data_due(id, q))) == a.data_due(id, q).len(),
        a.data_due(id, q).len() <= 1,
{
    let data = a.data_due(id, q);
    lemma_one_command(ParkedCmd::SealRaw(Seq::empty()));
    if data.len() > 0 {
        let p = data[0];
        let c = ParkedCmd::SealRaw(p);
        lemma_one_command(c);
        assert(data.drop_first() =~= Seq::empty());
        assert(staged_line(data) =~= kept(c) + staged_line(Seq::empty()));
        assert(p.len() > 0 && flush::held_during_kex(p[0]));
        assert(staged_line(data) =~= seq![c]);
    }
}

/// A channel's turn adds one data packet to what is on its way to the socket
/// where it reports that bytes left, and none where it reports none.
pub proof fn lemma_turn_adds_one(s: Peer, id: u32, cap: nat, most: nat, handed: nat)
    requires
        within(s, cap, most, handed),
        s.link is Some,
        s.channel_drained(id).1 is Ok,
    ensures
        data_packets(s.channel_drained(id).0.outgoing()) == data_packets(s.outgoing()) + (
        if s.channel_drained(id).1->Ok_0 > 0 {
            1nat
        } else {
            0
        }),
{
    law_a_turn_lets_out_one_packet(s, id);
    let b = s.turn_staged(id);
    let ps = wire::packets(s.unsent());
    let out = s.turn_packets(id);
    assert(b.line() == s.line());
    lemma_staged_line_add(ps, out);
    assert(b.outgoing() =~= s.outgoing() + staged_line(out));
    lemma_data_packets_add(s.outgoing(), staged_line(out));
    cap_laws::lemma_turn_staged(s, id, cap, most, handed);
    if s.channel_drained(id).0 != b {
        reveal(Peer::channel_drained);
        reveal(Peer::one_packet_out);
        lemma_flush_keeps_data(b, cap, most, handed);
    }
}

/// Where in the list the `i`-th channel from `start` on stands.
pub proof fn lemma_place(start: int, i: int, len: int)
    requires
        0 <= start < len,
        0 <= i < len,
    ensures
        (start + i) % len == (if start + i < len {
            start + i
        } else {
            start + i - len
        }),
{
    if start + i < len {
        vstd::arithmetic::div_mod::lemma_small_mod((start + i) as nat, len as nat);
    } else {
        vstd::arithmetic::div_mod::lemma_fundamental_div_mod_converse(
            start + i,
            len,
            1,
            start + i - len,
        );
    }
}

/// A round that stops, stops at a channel whose turn it was.
pub proof fn lemma_stop_is_later(
    s: Peer,
    ready: Seq<u32>,
    start: int,
    i: int,
    progressed: bool,
    last: Option<u32>,
)
    requires
        0 <= i,
    ensures
        ({
            let p = s.passed(ready, start, i, progressed, last);
            p.stopped ==> p.peer.sched.next is Some && exists|k: int|
                i <= k < ready.len() && p.peer.sched.next->0 == #[trigger] ready[(start + k) % (
                ready.len() as int)]
        }),
    decreases ready.len() - i,
{
    if i < ready.len() {
        let id = ready[(start + i) % (ready.len() as int)];
        if s.sched.debt == Some(id) {
            lemma_stop_is_later(s, ready, start, i + 1, progressed, last);
        } else {
            let (t, r) = s.channel_drained(id);
            if r is Ok && r->Ok_0 > 0 {
                lemma_stop_is_later(
                    t.emit_seen(id, false),
                    ready,
                    start,
                    i + 1,
                    true,
                    Some(id),
                );
            }
        }
    }
}

/// In one round each channel comes up at most once.
proof fn lemma_served(s: Peer, ready: Seq<u32>, start: int, i: int)
    requires
        ready.no_duplicates(),
        0 <= i,
        0 <= start < ready.len() || ready.len() == 0,
    ensures
        s.served(ready, start, i).no_duplicates(),
        forall|x: u32| #[trigger]
            s.served(ready, start, i).contains(x) ==> Some(x) != s.sched.debt && exists|j: int|
                i <= j < ready.len() && x == #[trigger] ready[(start + j) % (ready.len() as int)],
    decreases ready.len() - i,
{
    let len = ready.len() as int;
    if i < len {
        let id = ready[(start + i) % len];
        let (t, r) = s.channel_drained(id);
        if s.sched.debt == Some(id) {
            lemma_served(s, ready, start, i + 1);
        } else if r is Ok && r->Ok_0 > 0 {
            schedule::lemma_channel_drained_windows(s, id);
            let u = t.emit_seen(id, false);
            lemma_served(u, ready, start, i + 1);
            let rest = u.served(ready, start, i + 1);
            let all = seq![id] + rest;
            assert(!rest.contains(id)) by {
                if rest.contains(id) {
                    let j = choose|j: int|
                        i + 1 <= j < ready.len() && id == #[trigger] ready[(start + j) % len];
                    lemma_place(start, i, len);
                    lemma_place(start, j, len);
                    assert(ready[(start + j) % len] == ready[(start + i) % len]);
                }
            }
            assert forall|a: int, b: int| 0 <= a < all.len() && 0 <= b < all.len() && a
                != b implies all[a] != all[b] by {
                if a > 0 {
                    assert(rest.contains(rest[a - 1]));
                }
                if b > 0 {
                    assert(rest.contains(rest[b - 1]));
                }
                if a > 0 && b > 0 {
                    assert(rest[a - 1] != rest[b - 1]);
                }
            }
            assert forall|x: u32| #[trigger] all.contains(x) implies Some(x) != s.sched.debt
                && exists|j: int|
                i <= j < ready.len() && x == #[trigger] ready[(start + j) % len] by {
                let a = choose|a: int| 0 <= a < all.len() && all[a] == x;
                if a > 0 {
                    assert(rest[a - 1] == x);
                    assert(rest.contains(x));
                } else {
                    assert(x == ready[(start + i) % len]);
                }
            }
        }
    }
}

/// The rest of a round adds one data packet for each channel that it serves.
proof fn lemma_pass_adds(
    s: Peer,
    ready: Seq<u32>,
    start: int,
    i: int,
    progressed: bool,
    last: Option<u32>,
    cap: nat,
    most: nat,
    handed: nat,
)
    requires
        within(s, cap, most, handed),
        s.link is Some,
        s.passed(ready, start, i, progressed, last).result is Ok,
    ensures
        data_packets(s.passed(ready, start, i, progressed, last).peer.outgoing()) == data_packets(
            s.outgoing(),
        ) + s.served(ready, start, i).len(),
    decreases ready.len() - i,
{
    if i < ready.len() {
        let id = ready[(start + i) % (ready.len() as int)];
        if s.sched.debt == Some(id) {
            lemma_pass_adds(s, ready, start, i + 1, progressed, last, cap, most, handed);
        } else {
            let (t, r) = s.channel_drained(id);
            lemma_turn_adds_one(s, id, cap, most, handed);
            cap_laws::lemma_channel(s, id, cap, most, handed);
            if r->Ok_0 > 0 {
                let u = t.emit_seen(id, false);
                assert(u.outgoing() == t.outgoing());
                assert(within(u, cap, most, handed));
                lemma_pass_adds(u, ready, start, i + 1, true, Some(id), cap, most, handed);
            } else {
                let u = Peer { sched: Sched { next: Some(id), ..t.sched }, ..t };
                assert(u.outgoing() == t.outgoing());
            }
        }
    }
}

/// The ready channels are in order, each once.
pub proof fn lemma_ready(s: Peer)
    ensures
        s.ready().no_duplicates(),
{
    if let Some(e) = s.common.enc {
        let pred = |id: u32| e.st.channels.contains_key(id) && e.st.channels[id].in_ready_set();
        listing::lemma_listing_exists(e.st.channels.dom());
        listing::lemma_ascending_part(listing::listing(e.st.channels.dom()), pred);
        let r = s.ready();
        assert forall|i: int, j: int| 0 <= i < r.len() && 0 <= j < r.len() && i != j implies r[i]
            != r[j] by {
            if i < j {
                assert(r[i] < r[j]);
            } else {
                assert(r[j] < r[i]);
            }
        }
    }
}

/// Where a round begins lies within the ready channels.
pub proof fn lemma_start(ready: Seq<u32>, next: Option<u32>)
    requires
        ready.len() > 0,
    ensures
        0 <= schedule::start_of(ready, next) < ready.len(),
{
    if let Some(n) = next {
        lemma_position(ready, n, 0);
    }
}

proof fn lemma_position(ready: Seq<u32>, n: u32, i: int)
    requires
        ready.len() > 0,
        0 <= i,
    ensures
        0 <= schedule::position_from(ready, n, i) < ready.len(),
    decreases ready.len() - i,
{
    if i < ready.len() && ready[i] < n {
        lemma_position(ready, n, i + 1);
    }
}

/// A regular round lets at most one data packet of each ready channel out, and
/// none of any other: as many leave as channels are served, and none is served
/// twice.
pub proof fn law_one_packet_per_ready_channel(s: Peer, cap: nat)
    requires
        s.ok(),
        s.common.enc is Some,
        s.link is Some,
        counted(s),
        covers(cap, s.st().channels),
        fits_machine(s, cap),
        s.regular_round().1 is Ok,
    ensures
        data_packets(s.regular_round().0.outgoing()) == data_packets(s.outgoing())
            + s.served_regularly().len(),
        s.served_regularly().no_duplicates(),
        forall|x: u32| #[trigger]
            s.served_regularly().contains(x) ==> s.ready().contains(x) && Some(x) != s.sched.debt,
{
    let most = cap_laws::max(on_its_way(s), cap) + cap_laws::uncapped(s);
    lemma_regular_round(s, cap, most, s.st().write.len());
}

proof fn lemma_regular_round(s: Peer, cap: nat, most: nat, handed: nat)
    requires
        within(s, cap, most, handed),
        s.link is Some,
        s.regular_round().1 is Ok,
    ensures
        data_packets(s.regular_round().0.outgoing()) == data_packets(s.outgoing())
            + s.served_regularly().len(),
        s.served_regularly().no_duplicates(),
        forall|x: u32| #[trigger]
            s.served_regularly().contains(x) ==> s.ready().contains(x) && Some(x) != s.sched.debt,
{
    reveal(Peer::regular_round);
    let ready = s.ready();
    if ready.len() > 0 {
        let start = schedule::start_of(ready, s.sched.next);
        lemma_ready(s);
        lemma_start(ready, s.sched.next);
        lemma_served(s, ready, start, 0);
        lemma_pass_adds(s, ready, start, 0, false, None, cap, most, handed);
        let p = s.passed(ready, start, 0, false, None).peer;
        assert(s.regular_round().0.outgoing() == p.outgoing());
        assert forall|x: u32| #[trigger] s.served_regularly().contains(x) implies ready.contains(x)
            && Some(x) != s.sched.debt by {
            let j = choose|j: int|
                0 <= j < ready.len() && x == #[trigger] ready[(start + j) % (ready.len() as int)];
            lemma_place(start, j, ready.len() as int);
        }
    }
}

/// In a whole round, a boost among it, no channel lets more than one data
/// packet out: a channel that was boosted sits the rest of the round out.
pub proof fn law_one_packet_per_channel_and_round(s: Peer, cap: nat)
    requires
        s.ok(),
        s.common.enc is Some,
        s.link is Some,
        counted(s),
        covers(cap, s.st().channels),
        fits_machine(s, cap),
        s.round().1 is Ok,
    ensures
        data_packets(s.round().0.outgoing()) == data_packets(s.outgoing())
            + s.served_in_round().len(),
        s.served_in_round().no_duplicates(),
{
    reveal(Peer::round);
    reveal(Peer::boosted);
    let most = cap_laws::max(on_its_way(s), cap) + cap_laws::uncapped(s);
    let handed = s.st().write.len();
    if !s.blocked() && s.ready().len() > 0 {
        let boost = s.served_by_boost();
        let b = s.boosted().0;
        if let Some(id) = s.boost_candidate(s.ready()) {
            if s.sched.since_boost >= BOOST_PERIOD {
                cap_laws::lemma_channel(s, id, cap, most, handed);
                lemma_turn_adds_one(s, id, cap, most, handed);
                assert(b.outgoing() == s.channel_drained(id).0.outgoing());
            }
        }
        assert(within(b, cap, most, handed));
        lemma_regular_round(b, cap, most, handed);
        let rest = b.served_regularly();
        let all = boost + rest;
        assert forall|i: int, j: int| 0 <= i < all.len() && 0 <= j < all.len() && i
            != j implies all[i] != all[j] by {
            if boost.len() > 0 {
                assert(b.sched.debt == Some(boost[0]));
                if i > 0 {
                    assert(rest.contains(rest[i - 1]));
                }
                if j > 0 {
                    assert(rest.contains(rest[j - 1]));
                }
                if i > 0 && j > 0 {
                    assert(rest[i - 1] != rest[j - 1]);
                }
            } else {
                assert(all =~= rest);
            }
        }
    }
}

} // verus!
