//! Every step of a session keeps the ledger of the whole pipeline.
use vstd::prelude::*;

use crate::channel::{Ctrl, Lane};
use crate::common_session::{Common, Enc, Keys};
use crate::drain;
use crate::error::Error;
use crate::server::backlog_laws;
use crate::server::delivery::{CtrlMsg, Place};
use crate::server::dispatch::{ChannelMsg, Msg};
use crate::server::facade::FacadeCmd;
use crate::server::inbound::Item;
use crate::server::keeping;
use crate::server::ledger;
use crate::server::ledger::FullLedger;
use crate::server::ledger_laws;
use crate::server::ledger_laws::{failures, in_step, keeps};
use crate::server::parked::ParkedCmd;
use crate::server::pipeline;
use crate::server::requests;
use crate::server::run;
use crate::server::run::{ReaderEvent, Turn};
use crate::server::schedule;
use crate::server::sending;
use crate::server::reader::ReaderCmd;
use crate::server::session::{
    App, ChannelRef, GlobalRequestResponse, Install, KexAfterInstall, Peer, Phase, Sched, Sess,
    SessionKexState,
};
use crate::server::supervisor::{DisconnectCause, WriteProgress};
use crate::server::writer::{Link, OutboundEpoch, WriterEvent};
use crate::session::Staging;
use crate::wire;
use crate::wire::Body;

verus! {

/// Handing parked commands over keeps the ledger.
pub proof fn law_retrying_keeps_the_ledger(s: Peer)
    ensures
        keeps(s, s.retried().0),
    decreases s.parked.q.len(),
{
    if s.parked.q.len() == 0 {
        ledger_laws::lemma_same(s, s);
    } else {
        let c = s.parked.q[0];
        ledger_laws::lemma_unparking_keeps(s);
        match s.link {
            None => {
                let n = s.unparked().done_here(c);
                ledger_laws::lemma_same(s.unparked(), n);
                ledger_laws::lemma_on(s, s.unparked(), n);
                law_retrying_keeps_the_ledger(n);
                ledger_laws::lemma_on(s, n, n.retried().0);
            },
            Some(_) => {
                let seen = s.taken_up();
                let l = seen.link->0;
                let offered = Peer { link: Some(Peer::offer_link(l, c)), ..seen };
                ledger_laws::lemma_offer_link_keeps(l, c);
                ledger_laws::lemma_link(seen, Peer::offer_link(l, c));
                ledger_laws::lemma_on(s, seen, offered);
                if c.weight() > 0 && seen.over(c.weight()) {
                    ledger_laws::lemma_parking_keeps(seen, c);
                    ledger_laws::lemma_on(s, seen, seen.park_front(c));
                } else if Peer::link_takes(l, c) {
                    law_retrying_keeps_the_ledger(offered);
                    ledger_laws::lemma_on(s, offered, offered.retried().0);
                } else {
                    ledger_laws::lemma_parking_keeps(offered, c);
                    ledger_laws::lemma_on(s, offered, offered.park_front(c));
                }
            },
        }
    }
}

proof fn lemma_submit_now(s: Peer, c: ParkedCmd)
    ensures
        keeps(s, s.submit_now(c).0),
{
    match s.link {
        None => ledger_laws::lemma_same(s, s.done_here(c)),
        Some(l) => {
            let offered = Peer { link: Some(Peer::offer_link(l, c)), ..s };
            ledger_laws::lemma_offer_link_keeps(l, c);
            ledger_laws::lemma_link(s, Peer::offer_link(l, c));
            ledger_laws::lemma_parking_keeps(offered, c);
            ledger_laws::lemma_on(s, offered, offered.park(c));
        },
    }
}

/// Submitting a command keeps the ledger.
pub proof fn law_submitting_keeps_the_ledger(s: Peer, c: ParkedCmd)
    ensures
        keeps(s, s.submit_now(c).0),
        keeps(s, s.submitted(c).0),
{
    lemma_submit_now(s, c);
    law_retrying_keeps_the_ledger(s);
    let a = s.retried().0;
    lemma_submit_now(a, c);
    ledger_laws::lemma_parking_keeps(a, c);
    ledger_laws::lemma_on(s, a, a.park(c));
    ledger_laws::lemma_on(s, a, a.submit_now(c).0);
}

/// Handing staged packets on keeps the ledger.
pub proof fn law_handing_on_keeps_the_ledger(s: Peer, hold: bool)
    ensures
        keeps(s, s.handed_on(hold).0),
    decreases s.unsent().len(),
{
    lemma_hand_step(s, hold);
    let (t, r) = s.hand_step(hold);
    if r == Ok::<bool, Error>(true) && t.unsent().len() < s.unsent().len() {
        law_handing_on_keeps_the_ledger(t, hold);
        ledger_laws::lemma_on(s, t, t.handed_on(hold).0);
    }
}

proof fn lemma_hand_step(s: Peer, hold: bool)
    ensures
        keeps(s, s.hand_step(hold).0),
{
    reveal(Peer::hand_step);
    ledger_laws::lemma_same(s, s);
    let c = ParkedCmd::SealRaw(s.st().first_packet());
    let a = s.with_st(s.st().advanced());
    ledger_laws::lemma_same(s, a);
    ledger_laws::lemma_looking_keeps(a);
    ledger_laws::lemma_looking_keeps(a.restaged());
    let b = a.restaged().sampled();
    ledger_laws::lemma_on(s, a, a.restaged());
    ledger_laws::lemma_on(s, a.restaged(), b);
    ledger_laws::lemma_parking_keeps(b, c);
    lemma_submit_now(b, c);
    ledger_laws::lemma_on(s, b, b.park(c));
    ledger_laws::lemma_on(s, b, b.submit_now(c).0);
}

proof fn lemma_begun(s: Peer)
    ensures
        keeps(s, s.begun().0),
{
    reveal(Peer::begun);
    reveal(Peer::kexinit_sent);
    ledger_laws::lemma_same(s, s);
    if let Some(k) = s.offer {
        let t = Peer { offer: None, kex: SessionKexState::InProgress, ..s };
        ledger_laws::lemma_same(s, t);
        law_submitting_keeps_the_ledger(t, ParkedCmd::SealPayload(k));
        ledger_laws::lemma_same(t, t);
        let u = t.submitted_payload(k).0;
        ledger_laws::lemma_on(s, t, u);
        ledger_laws::lemma_same(u, u.rekey_armed());
        ledger_laws::lemma_on(s, u, u.rekey_armed());
        let v = (Peer { common: Common { sink: t.common.sink.packet(k), ..t.common }, ..t });
        ledger_laws::lemma_same(s, v.rekey_armed());
    }
}

/// Beginning a key exchange keeps the ledger.
proof fn lemma_begun_if(s: Peer, due: bool)
    ensures
        keeps(s, s.begun_if(due).0),
{
    reveal(Peer::begun_if);
    ledger_laws::lemma_same(s, s);
    if let Some(e) = s.common.enc {
        let t = Peer {
            common: Common {
                enc: Some(Enc { keys: Keys { exchange: None, ..e.keys }, ..e }),
                ..s.common
            },
            ..s
        };
        ledger_laws::lemma_same(s, t);
        lemma_begun(t);
        ledger_laws::lemma_on(s, t, t.begun().0);
        let u = s.with_st(Staging { rekey_wanted: true, ..e.st });
        assert(u.unsent() =~= s.unsent());
        ledger_laws::lemma_same(s, u);
    }
}

/// A flush keeps the ledger.
pub proof fn law_flushing_keeps_the_ledger(s: Peer)
    ensures
        keeps(s, s.flushed().0),
{
    reveal(Peer::flushed);
    law_retrying_keeps_the_ledger(s);
    let a = s.retried().0;
    ledger_laws::lemma_looking_keeps(a);
    let r = a.restaged();
    ledger_laws::lemma_on(s, a, r);
    lemma_flushed_out(r);
    ledger_laws::lemma_on(s, r, r.flushed_out().0);
    lemma_flushed_here(a);
    ledger_laws::lemma_on(s, a, a.flushed_here().0);
}

proof fn lemma_flushed_out(r: Peer)
    ensures
        keeps(r, r.flushed_out().0),
{
    reveal(Peer::flushed_out);
    law_handing_on_keeps_the_ledger(r, r.blocked());
    let h = r.handed_on(r.blocked()).0;
    let c = h.tidied();
    let d = c.rekey_noted();
    ledger_laws::lemma_same(h, d);
    lemma_begun_if(d, c.rekey_due());
    ledger_laws::lemma_on(r, h, d);
    ledger_laws::lemma_on(r, d, d.begun_if(c.rekey_due()).0);
}

proof fn lemma_flushed_here(a: Peer)
    ensures
        keeps(a, a.flushed_here().0),
{
    reveal(Peer::flushed_here);
    ledger_laws::lemma_same(a, a);
    if let Some(e) = a.common.enc {
        let sink = a.common.sink.all(wire::packets(a.unsent()));
        let due = !e.keys.kex.skip_exchange && (e.st.rekey_wanted || sink.bytes
            >= a.config.limits.max_bytes);
        let b = Peer { common: Common { sink, ..a.common }, ..a };
        let d = b.with_st(Staging { write: Seq::empty(), cursor: 0, ..e.st }).rekey_noted();
        ledger_laws::lemma_same(a, d);
        lemma_begun_if(d, due);
        ledger_laws::lemma_on(a, d, d.begun_if(due).0);
    }
}

proof fn lemma_advanced(s: Peer)
    ensures
        keeps(s, s.advanced()),
{
    reveal(Peer::advanced);
    reveal(Peer::install_handed);
    ledger_laws::lemma_same(s, s);
    law_retrying_keeps_the_ledger(s);
    if let Some(p) = s.install {
        if let Phase::NeedSubmit { payloads, epoch } = p.phase {
            let a = s.retried().0;
            let f = (Peer { install: None, ..a }).caused(DisconnectCause::PeerError);
            ledger_laws::lemma_same(a, f);
            ledger_laws::lemma_on(s, a, f);
            let d = a.need_dropped();
            ledger_laws::lemma_looking_keeps(a);
            ledger_laws::lemma_on(s, a, d);
            match d.link {
                None => {
                    let u = Peer {
                        install: Some(Install { phase: Phase::InstallAcked, ..p }),
                        ..d.installed_here(payloads, epoch)
                    };
                    ledger_laws::lemma_same(d, u.finalized().0);
                    ledger_laws::lemma_on(s, d, u.finalized().0);
                },
                Some(l) => {
                    ledger_laws::lemma_offered_batch_keeps(l, payloads, epoch);
                    ledger_laws::lemma_link(d, l.offered_batch(payloads, epoch));
                    let b = Peer { link: Some(l.offered_batch(payloads, epoch)), ..d };
                    ledger_laws::lemma_on(s, d, b);
                    lemma_needed_after(s, b, b);
                    lemma_needed_after(
                        s,
                        b,
                        (Peer { install: None, ..b }).caused(DisconnectCause::PeerError),
                    );
                    lemma_needed_after(
                        s,
                        b,
                        Peer { install: Some(Install { phase: Phase::WaitingAck, ..p }), ..b },
                    );
                },
            }
        }
    }
}

/// A step that leaves the counts alone, and what waits entered in the ledger.
proof fn lemma_needed_after(s: Peer, b: Peer, t: Peer)
    requires
        keeps(s, b),
        b.link == t.link,
        b.parked == t.parked,
    ensures
        keeps(s, t.needed()),
{
    ledger_laws::lemma_same(b, t);
    ledger_laws::lemma_looking_keeps(t);
    ledger_laws::lemma_on(s, b, t);
    ledger_laws::lemma_on(s, t, t.needed());
}

/// Every step of an install keeps the ledger.
pub proof fn law_installs_keep_the_ledger(
    s: Peer,
    payloads: Seq<Seq<u8>>,
    epoch: OutboundEpoch,
    known: Option<KexAfterInstall>,
    after: KexAfterInstall,
    generation: u64,
)
    ensures
        keeps(s, s.advanced()),
        keeps(s, s.registered(payloads, epoch, known)),
        keeps(s, s.outbound_acked(generation).0),
        keeps(s, s.inbound_acked(generation).0),
        keeps(s, s.peer_done(after).0),
        keeps(s, s.install_failed()),
        keeps(s, s.after_install(after)),
{
    lemma_advanced(s);
    lemma_registered(s, payloads, epoch, known);
    lemma_acked(s, generation);
    ledger_laws::lemma_same(s, s.peer_done(after).0);
    lemma_install_failed(s);
    lemma_after_install(s, after);
}

proof fn lemma_registered(
    s: Peer,
    payloads: Seq<Seq<u8>>,
    epoch: OutboundEpoch,
    known: Option<KexAfterInstall>,
)
    ensures
        keeps(s, s.registered(payloads, epoch, known)),
{
    let p = Peer {
        install: Some(
            Install {
                generation: epoch.generation,
                after: known,
                phase: Phase::NeedSubmit { payloads, epoch },
                inbound_acked: false,
                inbound_sent: false,
            },
        ),
        ..s
    };
    ledger_laws::lemma_same(s, p);
    lemma_advanced(p);
    ledger_laws::lemma_on(s, p, p.advanced());
    ledger_laws::lemma_same(s, s.caused(DisconnectCause::PeerError));
}

proof fn lemma_acked(s: Peer, generation: u64)
    ensures
        keeps(s, s.outbound_acked(generation).0),
        keeps(s, s.inbound_acked(generation).0),
{
    ledger_laws::lemma_same(s, s);
    if let Some(i) = s.install {
        let a = Peer { install: Some(Install { phase: Phase::InstallAcked, ..i }), ..s };
        let b = Peer { install: Some(Install { inbound_acked: true, ..i }), ..s };
        lemma_needed_after(s, s, a);
        lemma_needed_after(s, s, b);
        ledger_laws::lemma_same(a.needed(), a.needed().finalized().0);
        ledger_laws::lemma_same(b.needed(), b.needed().finalized().0);
        ledger_laws::lemma_on(s, a.needed(), a.needed().finalized().0);
        ledger_laws::lemma_on(s, b.needed(), b.needed().finalized().0);
    }
}

proof fn lemma_install_failed(s: Peer)
    ensures
        keeps(s, s.install_failed()),
{
    ledger_laws::lemma_same(s, s);
    lemma_needed_after(s, s, (Peer { install: None, ..s }).caused(DisconnectCause::PeerError));
}

proof fn lemma_after_install(s: Peer, after: KexAfterInstall)
    ensures
        keeps(s, s.after_install(after)),
{
    ledger_laws::lemma_same(s, s.after_install(after));
}

proof fn lemma_lane_flushed(s: Peer, id: u32, allow_data: bool)
    ensures
        keeps(s, s.lane_flushed(id, allow_data).0),
{
    ledger_laws::lemma_same(s, s.lane_flushed(id, allow_data).0);
}

proof fn lemma_one_packet_out(b: Peer, id: u32, cap: u32)
    ensures
        keeps(b, b.one_packet_out(id, cap).0),
{
    reveal(Peer::one_packet_out);
    let c = b.packet_staged(id, cap).0.lane_flushed(id, false).0;
    ledger_laws::lemma_same(b, c);
    law_flushing_keeps_the_ledger(c);
    ledger_laws::lemma_on(b, c, c.flushed().0);
}

/// Letting a channel's packets out keeps the ledger.
proof fn lemma_channel_drained(s: Peer, id: u32)
    ensures
        keeps(s, s.channel_drained(id).0),
{
    reveal(Peer::channel_drained);
    lemma_lane_flushed(s, id, false);
    let a = s.lane_flushed(id, false).0;
    let b = a.sampled();
    ledger_laws::lemma_looking_keeps(a);
    ledger_laws::lemma_on(s, a, b);
    lemma_one_packet_out(b, id, a.quantum(id));
    ledger_laws::lemma_on(s, b, b.one_packet_out(id, a.quantum(id)).0);
}

proof fn lemma_passed(
    s: Peer,
    ready: Seq<u32>,
    start: int,
    i: int,
    progressed: bool,
    last: Option<u32>,
)
    ensures
        keeps(s, s.passed(ready, start, i, progressed, last).peer),
    decreases ready.len() - i,
{
    if i >= ready.len() {
        ledger_laws::lemma_same(s, s);
    } else {
        let id = ready[(start + i) % (ready.len() as int)];
        if s.sched.debt == Some(id) {
            lemma_passed(s, ready, start, i + 1, progressed, last);
        } else {
            lemma_channel_drained(s, id);
            let (t, r) = s.channel_drained(id);
            if r is Ok && r->Ok_0 > 0 {
                let u = t.emit_seen(id, false);
                ledger_laws::lemma_same(t, u);
                ledger_laws::lemma_on(s, t, u);
                lemma_passed(u, ready, start, i + 1, true, Some(id));
                ledger_laws::lemma_on(s, u, u.passed(ready, start, i + 1, true, Some(id)).peer);
            } else {
                let u = Peer { sched: Sched { next: Some(id), ..t.sched }, ..t };
                ledger_laws::lemma_same(t, u);
                ledger_laws::lemma_on(s, t, u);
            }
        }
    }
}

proof fn lemma_boosted(s: Peer)
    ensures
        keeps(s, s.boosted().0),
{
    reveal(Peer::boosted);
    ledger_laws::lemma_same(s, s);
    if let Some(id) = s.boost_candidate(s.ready()) {
        lemma_channel_drained(s, id);
        let t = s.channel_drained(id).0;
        let u = t.boost_taken(id);
        ledger_laws::lemma_same(t, u);
        ledger_laws::lemma_on(s, t, u);
    }
}

proof fn lemma_regular_round(t: Peer)
    ensures
        keeps(t, t.regular_round().0),
{
    reveal(Peer::regular_round);
    ledger_laws::lemma_same(t, t);
    let ready = t.ready();
    let start = schedule::start_of(ready, t.sched.next);
    lemma_passed(t, ready, start, 0, false, None);
    let p = t.passed(ready, start, 0, false, None).peer;
    let u = t.regular_round().0;
    if ready.len() > 0 {
        ledger_laws::lemma_same(p, u);
        ledger_laws::lemma_on(t, p, u);
    }
}

proof fn lemma_rounds(s: Peer)
    ensures
        keeps(s, s.rounds().0),
    decreases s.windows(),
{
    reveal(Peer::round);
    ledger_laws::lemma_same(s, s);
    lemma_boosted(s);
    let b = s.boosted().0;
    lemma_regular_round(b);
    ledger_laws::lemma_on(s, b, b.regular_round().0);
    let (t, r) = s.round();
    if r == Ok::<bool, Error>(true) && t.windows() < s.windows() {
        lemma_rounds(t);
        ledger_laws::lemma_on(s, t, t.rounds().0);
    }
}

proof fn lemma_fences_out(s: Peer, ids: Seq<u32>)
    ensures
        keeps(s, s.fences_out(ids).0),
    decreases ids.len(),
{
    ledger_laws::lemma_same(s, s);
    if ids.len() > 0 {
        let (t, r) = s.lane_flushed(ids[0], false);
        lemma_lane_flushed(s, ids[0], false);
        if r is Ok {
            lemma_fences_out(t, ids.drop_first());
            ledger_laws::lemma_on(s, t, t.fences_out(ids.drop_first()).0);
        }
    }
}

/// Scheduling data keeps the ledger.
pub proof fn law_scheduling_keeps_the_ledger(s: Peer, id: u32)
    ensures
        keeps(s, s.channel_drained(id).0),
        keeps(s, s.data_drained().0),
{
    lemma_channel_drained(s, id);
    lemma_fences_out(s, s.busy_channels());
    let f = s.fences_out(s.busy_channels()).0;
    lemma_rounds(f);
    ledger_laws::lemma_on(s, f, f.rounds().0);
}

proof fn lemma_let_out(s: Peer, id: u32)
    ensures
        keeps(s, s.let_out(id).0),
{
    reveal(Peer::let_out);
    lemma_channel_drained(s, id);
    let a = s.channel_drained(id).0;
    lemma_lane_flushed(a, id, false);
    ledger_laws::lemma_on(s, a, a.lane_flushed(id, false).0);
}

/// A lane replaced, and what it holds let out.
proof fn lemma_lane_let_out(s: Peer, id: u32, l: Lane)
    ensures
        keeps(s, s.with_lane(id, l).let_out(id).0),
{
    let t = s.with_lane(id, l);
    ledger_laws::lemma_same(s, t);
    lemma_let_out(t, id);
    ledger_laws::lemma_on(s, t, t.let_out(id).0);
}

proof fn lemma_staged(s: Peer, b: Body)
    ensures
        keeps(s, s.staged(b)),
{
    ledger_laws::lemma_same(s, s.staged(b));
}

proof fn lemma_disconnected(s: Peer, b: Body)
    ensures
        keeps(s, s.disconnected(b).0),
{
    ledger_laws::lemma_same(s, s.disconnected(b).0);
}

proof fn lemma_global_replied(s: Peer, yes: bool, port: Option<u32>)
    ensures
        keeps(s, s.global_replied(yes, port)),
{
    ledger_laws::lemma_looking_keeps(s);
    let t = s.global_replied(yes, port);
    ledger_laws::lemma_same(s.sampled(), t);
    ledger_laws::lemma_on(s, s.sampled(), t);
}

proof fn lemma_channel_replied(s: Peer, id: u32, yes: bool)
    ensures
        keeps(s, s.channel_replied(id, yes).0),
{
    reveal(Peer::channel_replied);
    ledger_laws::lemma_same(s, s);
    ledger_laws::lemma_looking_keeps(s);
    let d = s.sampled();
    if let Some(l) = s.lane(id) {
        let done = Lane { wants_reply: false, ..l };
        let r = d.reply_refused(true).with_lane(id, done);
        ledger_laws::lemma_same(d, r);
        ledger_laws::lemma_on(s, d, r);
        let m = done.enqueue_ctrl(
            if yes {
                Ctrl::Success
            } else {
                Ctrl::Failure
            },
        );
        lemma_lane_let_out(d, id, m);
        ledger_laws::lemma_on(s, d, d.with_lane(id, m).let_out(id).0);
    }
}

proof fn lemma_requested(s: Peer, id: u32, b: Body)
    ensures
        keeps(s, s.requested(id, b).0),
{
    ledger_laws::lemma_same(s, s);
    lemma_let_out(s, id);
    if let Some(l) = s.lane(id) {
        lemma_lane_let_out(s, id, l.enqueue_ctrl(Ctrl::Request(b.bytes)));
    }
}

proof fn lemma_opened(s: Peer, kind: Seq<u8>, b: Body)
    ensures
        keeps(s, s.opened(kind, b).0),
{
    reveal(Peer::opened);
    ledger_laws::lemma_same(s, s);
    ledger_laws::lemma_looking_keeps(s);
    let t = s.opened(kind, b).0;
    if b.complete {
        ledger_laws::lemma_same(s.sampled(), t);
        ledger_laws::lemma_on(s, s.sampled(), t);
    }
}

proof fn lemma_eof(s: Peer, id: u32)
    ensures
        keeps(
            s,
            (match s.lane(id) {
                Some(l) => s.with_lane(id, l.park_eof()),
                None => s,
            }).let_out(id).0,
        ),
{
    lemma_let_out(s, id);
    if let Some(l) = s.lane(id) {
        lemma_lane_let_out(s, id, l.park_eof());
    }
}

/// Replies, requests and new channels keep the ledger.
pub proof fn law_requests_keep_the_ledger(
    s: Peer,
    id: u32,
    b: Body,
    kind: Seq<u8>,
    yes: bool,
    port: Option<u32>,
)
    ensures
        keeps(s, s.global_replied(yes, port)),
        keeps(s, s.channel_replied(id, yes).0),
        keeps(s, s.requested(id, b).0),
        keeps(s, s.opened(kind, b).0),
        keeps(s, s.staged(b)),
        keeps(s, s.disconnected(b).0),
{
    lemma_global_replied(s, yes, port);
    lemma_channel_replied(s, id, yes);
    lemma_requested(s, id, b);
    lemma_opened(s, kind, b);
    lemma_staged(s, b);
    lemma_disconnected(s, b);
}

proof fn lemma_discarded(s: Peer, id: u32)
    ensures
        keeps(s, s.discarded(id)),
{
    let t = s.discarded(id);
    match s.link {
        Some(l) => {
            let m = t.link->0;
            ledger_laws::lemma_same_counts(l, m);
            ledger_laws::lemma_link(s, m);
            let u = Peer { link: Some(m), ..s };
            ledger_laws::lemma_same(u, t);
            ledger_laws::lemma_on(s, u, t);
        },
        None => ledger_laws::lemma_same(s, t),
    }
}

/// Tearing a channel down keeps the ledger.
pub proof fn law_teardowns_keep_the_ledger(s: Sess, id: u32)
    ensures
        keeps(s.peer, s.outbound_discarded(id).peer),
        keeps(s.peer, s.close_finalized(id).peer),
        keeps(s.peer, s.cap_enforced(id).peer),
{
    reveal(Sess::cap_enforced);
    lemma_discarded(s.peer, id);
    ledger_laws::lemma_same(s.peer, s.peer);
    ledger_laws::lemma_same(s.peer, s.close_finalized(id).peer);
    let d = s.outbound_discarded(id);
    ledger_laws::lemma_same(d.peer, d.close_finalized(id).peer);
    ledger_laws::lemma_on(s.peer, d.peer, d.close_finalized(id).peer);
}

proof fn lemma_data_sent(s: Sess, id: u32, bytes: Seq<u8>, ext: Option<u32>)
    ensures
        keeps(s.peer, s.data_sent(id, bytes, ext).0.peer),
{
    reveal(Sess::data_sent);
    ledger_laws::lemma_same(s.peer, s.peer);
    let q = s.peer.queued(id, bytes, ext);
    ledger_laws::lemma_same(s.peer, q);
    law_scheduling_keeps_the_ledger(q, id);
    ledger_laws::lemma_on(s.peer, q, q.data_drained().0);
    let a = q.scheduled().0;
    law_flushing_keeps_the_ledger(a);
    ledger_laws::lemma_on(s.peer, a, a.flushed().0);
    let f = Sess { peer: a.flushed().0, ..s };
    law_teardowns_keep_the_ledger(f, id);
    ledger_laws::lemma_on(s.peer, f.peer, f.cap_enforced(id).peer);
}

proof fn lemma_closed(s: Sess, id: u32)
    ensures
        keeps(s.peer, s.closed(id).0.peer),
{
    reveal(Sess::closed);
    let parked = match s.peer.lane(id) {
        Some(l) => s.peer.with_lane(id, l.park_close()),
        None => s.peer,
    };
    ledger_laws::lemma_same(s.peer, parked);
    lemma_let_out(parked, id);
    let a = parked.let_out(id).0;
    ledger_laws::lemma_on(s.peer, parked, a);
    let t = Sess { peer: a, ..s };
    law_teardowns_keep_the_ledger(t, id);
    ledger_laws::lemma_on(s.peer, a, t.close_finalized(id).peer);
}

/// Data and CLOSE keep the ledger.
pub proof fn law_data_keeps_the_ledger(s: Sess, id: u32, bytes: Seq<u8>, ext: Option<u32>)
    ensures
        keeps(s.peer, s.data_sent(id, bytes, ext).0.peer),
        keeps(s.peer, s.closed(id).0.peer),
{
    lemma_data_sent(s, id, bytes, ext);
    lemma_closed(s, id);
}

/// Window grants keep the ledger.
pub proof fn law_grants_keep_the_ledger(s: Sess, id: u32, w: u32)
    ensures
        keeps(s.peer, s.granted(id).0.peer),
        keeps(s.peer, s.grant_made(id, w).peer),
{
    reveal(Sess::granted);
    ledger_laws::lemma_same(s.peer, s.peer);
    ledger_laws::lemma_looking_keeps(s.peer);
    let g = s.granted(id).0.peer;
    if s.peer.accepts_ctrl(id) {
        ledger_laws::lemma_same(s.peer.sampled(), g);
        ledger_laws::lemma_on(s.peer, s.peer.sampled(), g);
    }
    law_flushing_keeps_the_ledger(g);
    ledger_laws::lemma_on(s.peer, g, g.flushed().0);
}

proof fn lemma_opens_decided(s: Sess)
    ensures
        keeps(s.peer, s.opens_decided().0.peer),
    decreases s.app.open_replies.len(),
{
    ledger_laws::lemma_same(s.peer, s.peer);
    if s.app.open_replies.len() > 0 {
        let rest = Sess {
            app: App { open_replies: s.app.open_replies.drop_first(), ..s.app },
            ..s
        };
        let (t, r) = rest.open_decided(s.app.open_replies[0]);
        assert(keeps(s.peer, t.peer)) by {
            reveal(Sess::open_decided);
            ledger_laws::lemma_same(s.peer, t.peer);
        }
        if r is Ok && t.app.open_replies.len() < s.app.open_replies.len() {
            lemma_opens_decided(t);
            ledger_laws::lemma_on(s.peer, t.peer, t.opens_decided().0.peer);
        }
    }
}

proof fn lemma_channel_opened(s: Sess, kind: Seq<char>, fields: Body, channel_ref: ChannelRef)
    ensures
        keeps(s.peer, s.channel_opened(kind, fields, channel_ref).0.peer),
{
    lemma_opened(s.peer, wire::text(kind), fields);
    let o = s.peer.opened(wire::text(kind), fields).0;
    let t = s.channel_opened(kind, fields, channel_ref).0.peer;
    ledger_laws::lemma_same(o, t);
    ledger_laws::lemma_on(s.peer, o, t);
}

proof fn lemma_asked(s: Sess, who: Option<GlobalRequestResponse>, b: Body)
    ensures
        keeps(s.peer, s.asked(who, b).0.peer),
{
    ledger_laws::lemma_same(s.peer, s.asked(who, b).0.peer);
}

proof fn lemma_data_acked(s: Sess, id: u32, data: Seq<u8>, ext: Option<u32>, ack: u64)
    ensures
        ({
            let (t, r) = s.data_sent(id, data, ext);
            &&& keeps(s.peer, t.peer)
            &&& keeps(s.peer, t.producer_noted(id, ack).peer)
        }),
{
    lemma_data_sent(s, id, data, ext);
}

proof fn lemma_channel_told(s: Sess, id: u32, m: ChannelMsg)
    ensures
        keeps(s.peer, s.channel_told(id, m).0.peer),
{
    match m {
        ChannelMsg::Data { data } => {
            law_data_keeps_the_ledger(s, id, wire::bytes_view(data), None);
        },
        ChannelMsg::ExtendedData { ext, data } => {
            law_data_keeps_the_ledger(s, id, wire::bytes_view(data), Some(ext));
        },
        ChannelMsg::Eof => {
            lemma_eof(s.peer, id);
        },
        ChannelMsg::Close => law_data_keeps_the_ledger(s, id, Seq::empty(), None),
        ChannelMsg::Success => {
            lemma_channel_replied(s.peer, id, true);
        },
        ChannelMsg::Failure => {
            lemma_channel_replied(s.peer, id, false);
        },
        ChannelMsg::XonXoff { client_can_do } => lemma_requested(
            s.peer,
            id,
            sending::xon_xoff_body(s.peer.number_of(id), client_can_do),
        ),
        ChannelMsg::ExitStatus { exit_status } => lemma_requested(
            s.peer,
            id,
            sending::exit_status_body(s.peer.number_of(id), exit_status),
        ),
        ChannelMsg::ExitSignal { signal_name, core_dumped, error_message, lang_tag } => {
            lemma_requested(
                s.peer,
                id,
                sending::exit_signal_body(
                    s.peer.number_of(id),
                    wire::text(signal_name@),
                    core_dumped,
                    wire::text(error_message@),
                    wire::text(lang_tag@),
                ),
            );
        },
        ChannelMsg::WindowAdjusted { .. } => ledger_laws::lemma_same(s.peer, s.peer),
    }
}

/// Whatever the application asks for, the ledger is kept.
pub proof fn law_messages_keep_the_ledger(s: Sess, m: Msg)
    ensures
        keeps(s.peer, s.told(m).0.peer),
        keeps(s.peer, s.dispatched(m).0.peer),
{
    lemma_told(s, m);
    lemma_opens_decided(s);
    let t = s.opens_decided().0;
    lemma_told(t, m);
    ledger_laws::lemma_on(s.peer, t.peer, t.told(m).0.peer);
}

proof fn lemma_told(s: Sess, m: Msg)
    ensures
        keeps(s.peer, s.told(m).0.peer),
{
    match m {
        Msg::Channel(id, c) => lemma_channel_told(s, id.0, c),
        Msg::ChannelDataAcked { id, ext, data, ack } => {
            lemma_data_acked(s, id.0, wire::bytes_view(data), ext, ack);
        },
        Msg::ChannelOpenAgent { channel_ref } => lemma_channel_opened(
            s,
            "auth-agent@openssh.com"@,
            requests::no_fields(),
            channel_ref,
        ),
        Msg::ChannelOpenSession { channel_ref } => lemma_channel_opened(
            s,
            "session"@,
            requests::no_fields(),
            channel_ref,
        ),
        Msg::ChannelOpenDirectTcpIp {
            host_to_connect,
            port_to_connect,
            originator_address,
            originator_port,
            channel_ref,
        } => lemma_channel_opened(
            s,
            "direct-tcpip"@,
            requests::connection_fields(
                wire::text(host_to_connect@),
                port_to_connect,
                wire::text(originator_address@),
                originator_port,
            ),
            channel_ref,
        ),
        Msg::ChannelOpenDirectStreamLocal { socket_path, channel_ref } => lemma_channel_opened(
            s,
            "direct-streamlocal@openssh.com"@,
            requests::no_fields().str(wire::text(socket_path@)).str(wire::text(""@)).u32(0),
            channel_ref,
        ),
        Msg::ChannelOpenForwardedTcpIp {
            connected_address,
            connected_port,
            originator_address,
            originator_port,
            channel_ref,
        } => lemma_channel_opened(
            s,
            "forwarded-tcpip"@,
            requests::connection_fields(
                wire::text(connected_address@),
                connected_port,
                wire::text(originator_address@),
                originator_port,
            ),
            channel_ref,
        ),
        Msg::ChannelOpenForwardedStreamLocal { server_socket_path, channel_ref } => {
            lemma_channel_opened(
                s,
                "forwarded-streamlocal@openssh.com"@,
                requests::no_fields().str(wire::text(server_socket_path@)).str(wire::text(""@)),
                channel_ref,
            );
        },
        Msg::ChannelOpenX11 { originator_address, originator_port, channel_ref } => {
            lemma_channel_opened(
                s,
                "x11"@,
                requests::no_fields().str(wire::text(originator_address@)).u32(originator_port),
                channel_ref,
            );
        },
        Msg::Disconnect { reason, description, language_tag } => {
            lemma_disconnected(
                s.peer,
                crate::common_session::disconnect_body(
                    reason,
                    wire::text(description@),
                    wire::text(language_tag@),
                ),
            );
        },
        Msg::TcpIpForward { reply_channel, address, port } => lemma_asked(
            s,
            match reply_channel {
                Some(w) => Some(GlobalRequestResponse::TcpIpForward(w)),
                None => None,
            },
            requests::forward_body(
                "tcpip-forward"@,
                reply_channel is Some,
                wire::text(address@),
                port,
            ),
        ),
        Msg::CancelTcpIpForward { reply_channel, address, port } => lemma_asked(
            s,
            match reply_channel {
                Some(w) => Some(GlobalRequestResponse::CancelTcpIpForward(w)),
                None => None,
            },
            requests::forward_body(
                "cancel-tcpip-forward"@,
                reply_channel is Some,
                wire::text(address@),
                port,
            ),
        ),
    }
}

/// Whatever another task asks for, the ledger is kept.
#[verifier::rlimit(60)]
#[verifier::spinoff_prover]
pub proof fn law_facade_keeps_the_ledger(s: Sess, c: FacadeCmd)
    ensures
        keeps(s.peer, s.commanded(c).0.peer),
{
    match c {
        FacadeCmd::Flush => law_flushing_keeps_the_ledger(s.peer),
        FacadeCmd::Disconnect { reason, description, language_tag } => lemma_disconnected(
            s.peer,
            crate::common_session::disconnect_body(
                reason,
                wire::text(description@),
                wire::text(language_tag@),
            ),
        ),
        FacadeCmd::RequestSuccess => {
            ledger_laws::lemma_same(s.peer, s.peer);
            lemma_global_replied(s.peer, true, None);
        },
        FacadeCmd::RequestFailure => lemma_global_replied(s.peer, false, None),
        FacadeCmd::ChannelSuccess { channel } => lemma_channel_replied(s.peer, channel.0, true),
        FacadeCmd::ChannelFailure { channel } => lemma_channel_replied(s.peer, channel.0, false),
        FacadeCmd::Close { channel } => law_data_keeps_the_ledger(
            s,
            channel.0,
            Seq::empty(),
            None,
        ),
        FacadeCmd::Eof { channel } => lemma_eof(s.peer, channel.0),
        FacadeCmd::Data { channel, data } => law_data_keeps_the_ledger(
            s,
            channel.0,
            wire::bytes_view(data),
            None,
        ),
        FacadeCmd::ExtendedData { channel, ext, data } => law_data_keeps_the_ledger(
            s,
            channel.0,
            wire::bytes_view(data),
            Some(ext),
        ),
        FacadeCmd::XonXoff { channel, client_can_do } => lemma_requested(
            s.peer,
            channel.0,
            sending::xon_xoff_body(s.peer.number_of(channel.0), client_can_do),
        ),
        FacadeCmd::ExitStatus { channel, exit_status } => lemma_requested(
            s.peer,
            channel.0,
            sending::exit_status_body(s.peer.number_of(channel.0), exit_status),
        ),
        FacadeCmd::ExitSignal { channel, signal, core_dumped, error_message, language_tag } => {
            lemma_requested(
                s.peer,
                channel.0,
                sending::exit_signal_body(
                    s.peer.number_of(channel.0),
                    wire::text(signal@),
                    core_dumped,
                    wire::text(error_message@),
                    wire::text(language_tag@),
                ),
            );
        },
        FacadeCmd::ChannelOpenSession => lemma_opened(
            s.peer,
            wire::text("session"@),
            requests::no_fields(),
        ),
        FacadeCmd::ChannelOpenAgent => lemma_opened(
            s.peer,
            wire::text("auth-agent@openssh.com"@),
            requests::no_fields(),
        ),
        FacadeCmd::ChannelOpenDirectTcpip {
            host_to_connect,
            port_to_connect,
            originator_address,
            originator_port,
        } => lemma_opened(
            s.peer,
            wire::text("direct-tcpip"@),
            requests::connection_fields(
                wire::text(host_to_connect@),
                port_to_connect,
                wire::text(originator_address@),
                originator_port,
            ),
        ),
        FacadeCmd::ChannelOpenDirectStreamlocal { socket_path } => lemma_opened(
            s.peer,
            wire::text("direct-streamlocal@openssh.com"@),
            requests::no_fields().str(wire::text(socket_path@)).str(wire::text(""@)).u32(0),
        ),
        FacadeCmd::ChannelOpenForwardedTcpip {
            connected_address,
            connected_port,
            originator_address,
            originator_port,
        } => lemma_opened(
            s.peer,
            wire::text("forwarded-tcpip"@),
            requests::connection_fields(
                wire::text(connected_address@),
                connected_port,
                wire::text(originator_address@),
                originator_port,
            ),
        ),
        FacadeCmd::ChannelOpenForwardedStreamlocal { socket_path } => lemma_opened(
            s.peer,
            wire::text("forwarded-streamlocal@openssh.com"@),
            requests::no_fields().str(wire::text(socket_path@)).str(wire::text(""@)),
        ),
        FacadeCmd::ChannelOpenX11 { originator_address, originator_port } => lemma_opened(
            s.peer,
            wire::text("x11"@),
            requests::no_fields().str(wire::text(originator_address@)).u32(originator_port),
        ),
        FacadeCmd::FlushPending { channel } => lemma_lane_flushed(
            s.peer,
            channel.0,
            !s.peer.blocked(),
        ),
        FacadeCmd::FlushPendingFences { channel } => lemma_lane_flushed(s.peer, channel.0, false),
        FacadeCmd::Debug { always_display, message, language_tag } => {
            let b = crate::common_session::debug_body(
                always_display,
                wire::text(message@),
                wire::text(language_tag@),
            );
            ledger_laws::lemma_same(
                s.peer,
                Peer { common: s.peer.common.sent(b), ..s.peer },
            );
        },
        FacadeCmd::ChannelOpenFailure { channel, reason, description, language } => lemma_staged(
            s.peer,
            requests::open_failure_body(
                channel.0,
                reason,
                wire::text(description@),
                wire::text(language@),
            ),
        ),
        FacadeCmd::Keepalive => lemma_asked(
            s,
            Some(GlobalRequestResponse::Keepalive),
            requests::keepalive_body(),
        ),
        FacadeCmd::SendPing { waiter } => lemma_asked(
            s,
            Some(GlobalRequestResponse::Ping(waiter)),
            requests::keepalive_body(),
        ),
        FacadeCmd::TcpipForward { address, port, reply_channel } => lemma_asked(
            s,
            match reply_channel {
                Some(w) => Some(GlobalRequestResponse::TcpIpForward(w)),
                None => None,
            },
            requests::forward_body(
                "tcpip-forward"@,
                reply_channel is Some,
                wire::text(address@),
                port,
            ),
        ),
        FacadeCmd::CancelTcpipForward { address, port, reply_channel } => lemma_asked(
            s,
            match reply_channel {
                Some(w) => Some(GlobalRequestResponse::CancelTcpIpForward(w)),
                None => None,
            },
            requests::forward_body(
                "cancel-tcpip-forward"@,
                reply_channel is Some,
                wire::text(address@),
                port,
            ),
        ),
        _ => ledger_laws::lemma_same(s.peer, s.peer),
    }
}

/// What comes in, and the end of a session, keep the ledger.
pub proof fn law_deliveries_keep_the_ledger(
    s: Sess,
    id: u32,
    item: Item,
    place: Place,
    m: CtrlMsg,
    size: usize,
    cause: DisconnectCause,
    unannounced: bool,
)
    ensures
        keeps(s.peer, s.lane_payload(id, item, place).0.peer),
        keeps(s.peer, s.ctrl_handled(m, size).0.peer),
        keeps(s.peer, s.peer.wound_up(cause, unannounced)),
{
    lemma_lane_payload(s, id, item, place);
    lemma_ctrl_handled(s, m, size);
    let b = crate::common_session::disconnect_body(
        run::BY_APPLICATION,
        wire::text(run::farewell_of(cause)),
        wire::text("en"@),
    );
    let p = if unannounced {
        Peer { common: Common { disconnected: false, ..s.peer.common }, ..s.peer }
    } else {
        s.peer
    };
    ledger_laws::lemma_same(s.peer, p);
    lemma_disconnected(p, b);
    let d = p.disconnected(b).0;
    ledger_laws::lemma_on(s.peer, p, d);
    law_flushing_keeps_the_ledger(d);
    ledger_laws::lemma_on(s.peer, d, d.flushed().0);
}

proof fn lemma_lane_payload(s: Sess, id: u32, item: Item, place: Place)
    ensures
        keeps(s.peer, s.lane_payload(id, item, place).0.peer),
{
    reveal(Sess::lane_payload);
    ledger_laws::lemma_same(s.peer, s.peer);
    lemma_discarded(s.peer, id);
    let d = s.peer.discarded(id);
    lemma_discarded(d, id);
    ledger_laws::lemma_on(s.peer, d, d.discarded(id));
}

proof fn lemma_ctrl_handled(s: Sess, m: CtrlMsg, size: usize)
    ensures
        keeps(s.peer, s.ctrl_handled(m, size).0.peer),
{
    let r = Peer {
        reader: match s.peer.reader {
            Some(r) => Some(r.told(ReaderCmd::ReleaseCtrl(size))),
            None => None,
        },
        ..s.peer
    };
    ledger_laws::lemma_same(s.peer, r);
    let id = match m {
        CtrlMsg::WireClose { id } => id.0,
        CtrlMsg::Overflow { id } => id.0,
        CtrlMsg::CloseDropped { id, .. } => id.0,
    };
    lemma_discarded(r, id);
    let d = r.discarded(id);
    ledger_laws::lemma_on(s.peer, r, d);
    let t = s.ctrl_handled(m, size).0.peer;
    if t.link == r.link {
        ledger_laws::lemma_same(r, t);
        ledger_laws::lemma_on(s.peer, r, t);
    } else {
        ledger_laws::lemma_same(d, t);
        ledger_laws::lemma_on(s.peer, d, t);
    }
}

proof fn lemma_begins(t: Turn, now: u64)
    ensures
        keeps(t.sess.peer, t.begun(now).0.sess.peer),
{
    let p = t.sess.peer;
    let q = Peer { now, common: Common { received_data: false, ..p.common }, ..p };
    ledger_laws::lemma_same(p, p);
    lemma_needed_after(p, p, q);
    let e = t.begun(now).0.sess.peer;
    ledger_laws::lemma_same(q.needed(), e);
    ledger_laws::lemma_on(p, q.needed(), e);
}

proof fn lemma_pushes(t: Turn)
    ensures
        keeps(t.sess.peer, t.pushed().0.sess.peer),
{
    reveal(Peer::moved_on);
    let p = t.sess.peer;
    law_retrying_keeps_the_ledger(p);
    let a = p.retried().0;
    law_flushing_keeps_the_ledger(a);
    let f = a.flushed().0;
    ledger_laws::lemma_on(p, a, f);
    law_scheduling_keeps_the_ledger(f, 0);
    ledger_laws::lemma_on(p, f, f.data_drained().0);
    let m = p.moved_on().0;
    let e = t.pushed().0.sess.peer;
    ledger_laws::lemma_same(m, e);
    ledger_laws::lemma_on(p, m, e);
}

proof fn lemma_deadlines(t: Turn, snap: WriteProgress)
    ensures
        keeps(t.sess.peer, t.deadlines_checked(snap).0.sess.peer),
{
    let p = t.sess.peer;
    ledger_laws::lemma_looking_keeps(p);
    let e = t.deadlines_checked(snap).0.sess.peer;
    ledger_laws::lemma_same(p.sampled(), e);
    ledger_laws::lemma_on(p, p.sampled(), e);
}

proof fn lemma_turn_flushed(t: Turn)
    ensures
        keeps(t.sess.peer, t.flushed().0.sess.peer),
{
    let p = t.sess.peer;
    law_flushing_keeps_the_ledger(p);
    let f = p.flushed().0;
    let e = t.flushed().0.sess.peer;
    ledger_laws::lemma_same(f, e);
    ledger_laws::lemma_on(p, f, e);
}

/// Data drained at the end of a part of a turn.
proof fn lemma_then_drained(p: Peer, a: Peer, e: Peer)
    requires
        keeps(p, a),
        e.link == a.data_drained().0.link,
        e.parked == a.data_drained().0.parked,
    ensures
        keeps(p, e),
{
    law_scheduling_keeps_the_ledger(a, 0);
    let d = a.data_drained().0;
    ledger_laws::lemma_on(p, a, d);
    ledger_laws::lemma_same(d, e);
    ledger_laws::lemma_on(p, d, e);
}

proof fn lemma_install_tried(t: Turn)
    ensures
        keeps(t.sess.peer, t.install_tried().0.sess.peer),
        keeps(t.sess.peer, t.with_peer(t.sess.peer.advanced()).cause_taken().sess.peer),
{
    let p = t.sess.peer;
    lemma_advanced(p);
    let a = p.advanced();
    let e = t.install_tried().0.sess.peer;
    let f = t.with_peer(a).cause_taken().sess.peer;
    ledger_laws::lemma_same(a, e);
    ledger_laws::lemma_same(a, f);
    ledger_laws::lemma_on(p, a, e);
    ledger_laws::lemma_on(p, a, f);
}

proof fn lemma_replayed(t: Turn, ok: bool)
    ensures
        keeps(t.sess.peer, t.replayed(ok).sess.peer),
{
    let a = if ok {
        t
    } else {
        t.stopped(DisconnectCause::PeerError)
    };
    let b = a.cause_taken().sess.peer;
    ledger_laws::lemma_same(t.sess.peer, b);
    law_flushing_keeps_the_ledger(b);
    ledger_laws::lemma_on(t.sess.peer, b, b.flushed().0);
}

/// An install completed, if it is.
proof fn lemma_completed(t: Turn, x: (Peer, Option<KexAfterInstall>))
    requires
        keeps(t.sess.peer, x.0),
    ensures
        keeps(t.sess.peer, t.completed(x).0.sess.peer),
{
    if let Some(after) = x.1 {
        lemma_after_install(x.0, after);
        ledger_laws::lemma_on(t.sess.peer, x.0, x.0.after_install(after));
    }
}

proof fn lemma_reader_reported(t: Turn, e: Option<ReaderEvent>)
    ensures
        keeps(t.sess.peer, t.reader_reported(e).0.sess.peer),
{
    let p = t.sess.peer;
    match e {
        Some(ReaderEvent::InstallAckInbound { generation }) => {
            lemma_acked(p, generation);
            lemma_completed(t, p.inbound_acked(generation));
        },
        _ => ledger_laws::lemma_same(p, t.reader_reported(e).0.sess.peer),
    }
}

proof fn lemma_writer_reported(t: Turn, e: Option<WriterEvent>)
    ensures
        keeps(t.sess.peer, t.writer_reported(e).0.sess.peer),
{
    let p = t.sess.peer;
    match e {
        Some(WriterEvent::InstallAckOutbound { generation }) => {
            lemma_acked(p, generation);
            lemma_completed(t, p.outbound_acked(generation));
        },
        _ => {
            lemma_install_failed(p);
            let f = p.install_failed();
            let u = t.writer_reported(e).0.sess.peer;
            ledger_laws::lemma_same(f, u);
            ledger_laws::lemma_on(p, f, u);
        },
    }
}

proof fn lemma_intake(p: Peer, drained: usize)
    ensures
        keeps(p, p.intake_asked().0),
        keeps(p, p.intake_asked_again(drained).0),
{
    ledger_laws::lemma_same(p, p);
    ledger_laws::lemma_looking_keeps(p);
    ledger_laws::lemma_looking_keeps(p.sampled());
    ledger_laws::lemma_on(p, p.sampled(), p.sampled().intake_refused());
}

/// Every part of a turn of the loop keeps the ledger.
pub proof fn law_turns_keep_the_ledger(
    t: Turn,
    now: u64,
    snap: WriteProgress,
    reader: Option<ReaderEvent>,
    writer: Option<WriterEvent>,
    ok: bool,
    drained: usize,
)
    ensures
        keeps(t.sess.peer, t.begun(now).0.sess.peer),
        keeps(t.sess.peer, t.pushed().0.sess.peer),
        keeps(t.sess.peer, t.deadlines_checked(snap).0.sess.peer),
        keeps(t.sess.peer, t.install_tried().0.sess.peer),
        keeps(t.sess.peer, t.flushed().0.sess.peer),
        keeps(t.sess.peer, t.reader_reported(reader).0.sess.peer),
        keeps(t.sess.peer, t.writer_reported(writer).0.sess.peer),
        keeps(t.sess.peer, t.replayed(ok).sess.peer),
        keeps(t.sess.peer, t.room_used().sess.peer),
        keeps(t.sess.peer, t.closed_out().sess.peer),
        keeps(t.sess.peer, t.sess.peer.intake_asked().0),
        keeps(t.sess.peer, t.sess.peer.intake_asked_again(drained).0),
{
    let p = t.sess.peer;
    lemma_begins(t, now);
    lemma_pushes(t);
    lemma_deadlines(t, snap);
    lemma_install_tried(t);
    lemma_turn_flushed(t);
    lemma_reader_reported(t, reader);
    lemma_writer_reported(t, writer);
    lemma_replayed(t, ok);
    lemma_intake(p, drained);
    lemma_then_drained(
        p,
        t.with_peer(p.advanced()).cause_taken().sess.peer,
        t.room_used().sess.peer,
    );
    lemma_then_drained(p, t.flushed().0.sess.peer, t.closed_out().sess.peer);
}

/// Whenever the backlog is looked at while the ledger is in step, the ledger's
/// total is the backlog, and its parts are those of the backlog.
pub proof fn law_total_is_the_backlog(s: Peer)
    requires
        in_step(s),
        s.ledger() is Some,
        s.link->0.pending_bytes + s.parked.bytes + pipeline::wire_weight(s.unsent())
            + s.install_need() <= usize::MAX,
        failures(s.sampled().ledger()) == failures(s.ledger()) < u64::MAX,
    ensures
        in_step(s.sampled()),
        s.sampled().ledger()->0.total == s.backlog(),
        s.sampled().ledger()->0.part_array() == s.backlog_parts(),
{
    ledger_laws::lemma_looking_keeps(s);
    reveal(keeps);
    reveal(keeping::ledger_sampled);
    reveal(FullLedger::tells);
    let fl = s.ledger()->0;
    ledger::lemma_staging_at(fl, s.staged_weight());
    ledger::lemma_needing(fl.staging_at(s.staged_weight()), s.install_need());
}

/// A transfer from one stage to the next leaves the ledger's total as it is.
pub proof fn law_transfers_keep_the_total(s: Peer, hold: bool)
    requires
        s.ok(),
        s.common.enc is Some,
        s.st().write.len() <= usize::MAX,
        s.ledger() is Some,
        in_step(s),
        backlog_laws::counted(s),
        backlog_laws::on_its_way(s) <= usize::MAX,
        failures(s.sampled().ledger()) == failures(s.ledger()) < u64::MAX,
    ensures
        ({
            let t = s.retried().0;
            s.retried().1 is Ok && failures(t.ledger()) == failures(t.sampled().ledger())
                == failures(s.ledger()) ==> t.sampled().ledger()->0.total
                == s.sampled().ledger()->0.total
        }),
        ({
            let t = s.handed_on(hold).0;
            s.handed_on(hold).1 is Ok && failures(t.ledger()) == failures(t.sampled().ledger())
                == failures(s.ledger()) ==> t.sampled().ledger()->0.total
                == s.sampled().ledger()->0.total
        }),
{
    reveal(keeps);
    law_total_is_the_backlog(s);
    law_retrying_keeps_the_ledger(s);
    law_handing_on_keeps_the_ledger(s, hold);
    if s.retried().1 is Ok {
        backlog_laws::law_retrying_keeps_the_backlog(s);
        let t = s.retried().0;
        if failures(t.ledger()) == failures(s.ledger()) && failures(t.sampled().ledger())
            == failures(s.ledger()) {
            law_total_is_the_backlog(t);
        }
    }
    if s.handed_on(hold).1 is Ok {
        backlog_laws::law_handing_on_keeps_the_backlog(s, hold);
        let t = s.handed_on(hold).0;
        if failures(t.ledger()) == failures(s.ledger()) && failures(t.sampled().ledger())
            == failures(s.ledger()) {
            law_total_is_the_backlog(t);
        }
    }
}

/// A ledger that starts empty with a writer that starts empty is in step, as
/// long as nothing is parked yet.
pub proof fn law_fresh_ledgers_are_in_step(s: Peer, fl: FullLedger)
    requires
        fl.total == 0,
        fl.enc_write == 0,
        fl.kex_need == 0,
        fl.kex_live == 0,
        fl.kex_in_writer == 0,
        fl.session_pending == 0,
        s.link == Some(Link::idle(Set::empty(), Some(fl), false)),
        s.parked.bytes == 0,
    ensures
        in_step(s),
{
    reveal(FullLedger::tells);
}

/// Where nothing comes near the machine limit, looking at the backlog never
/// fails a subtraction.
pub proof fn law_looking_fails_no_subtraction(s: Peer)
    requires
        in_step(s),
        s.ledger() matches Some(fl) ==> {
            &&& s.link->0.pending_bytes + s.parked.bytes + fl.enc_write + fl.kex_need
                + s.staged_weight() + s.install_need() <= usize::MAX
            &&& fl.kex_need + fl.kex_in_writer <= usize::MAX
        },
    ensures
        failures(s.sampled().ledger()) == failures(s.ledger()),
{
    reveal(keeping::ledger_sampled);
    reveal(FullLedger::tells);
    reveal(FullLedger::looked_at);
}

} // verus!
