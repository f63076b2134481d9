//! The state of a connected server session, without its sockets and tasks.
use bytes::Bytes;
use std::collections::{HashMap, HashSet, VecDeque};
use vstd::prelude::*;

use crate::channel::{ChannelId, ChannelParams, Lane};
use crate::common_session::{Common, CommonSession, Enc};
use crate::error::ChannelOpenFailure;
use crate::server::inbound::{Inbound, InboundQueue};
use crate::server::inbound;
use crate::server::observe::{SchedSeen, SchedSlot};
use crate::server::parked::{Parked, PendingOutbound};
use crate::server::reader::{Reader, ReaderHandle};
use crate::server::supervisor::{DisconnectCause, MinDrain, RekeyDeadline};
use crate::server::writer;
use crate::server::writer::{Link, OutboundEpoch, WriterHandle};
use crate::session::{RekeyPolicy, Staging};
use crate::sshbuffer;
use crate::wire;

verus! {

/// Regular rounds between two boosts of newly confirmed channels.
pub const BOOST_PERIOD: u32 = 8;

/// What a server is configured with, as far as a session reads it. Times are
/// in milliseconds.
#[derive(Clone, Copy, Debug, PartialEq, Eq, Structural)]
pub struct Config {
    pub window_size: u32,
    pub maximum_packet_size: u32,
    pub limits: RekeyPolicy,
    pub rekey_deadline: u64,
    pub max_pending_inbound_bytes: usize,
    pub max_pending_outbound_bytes: usize,
    pub inactivity_timeout: Option<u64>,
    pub keepalive_interval: Option<u64>,
    pub keepalive_max: usize,
    pub write_progress_deadline: u64,
    pub write_min_drain: Option<MinDrain>,
}

/// Where the key exchange stands.
#[derive(Clone, Copy, Debug, PartialEq, Eq, Structural)]
pub enum SessionKexState {
    Idle,
    InProgress,
    /// In progress, and its machine is out being stepped.
    Taken,
}

impl SessionKexState {
    /// A key exchange is under way.
    pub open spec fn is_active(self) -> bool {
        self != SessionKexState::Idle
    }

    /// Whether a key exchange is under way.
    pub fn active(&self) -> (r: bool)
        ensures
            r == self.is_active(),
    {
        *self != SessionKexState::Idle
    }
}

/// What is left to do once a key exchange is complete in both directions.
#[derive(Clone, Copy, Debug, PartialEq, Eq, Structural)]
pub enum KexAfterInstall {
    /// Later exchange: go idle, drop the deadline, flush the channels.
    RekeyComplete,
    /// First exchange: go idle, drop the deadline, offer extensions.
    InitialComplete,
}

/// How far the outbound half of an install has come.
#[derive(Debug)]
pub enum PendingKexPhase {
    /// Waits for room in the writer's queue, and for what is parked before it.
    NeedSubmit { payloads: Vec<Bytes>, epoch: OutboundEpoch },
    /// The writer has it; the answer is outstanding.
    WaitingAck,
    /// The writer has installed the key.
    InstallAcked,
}

/// A key exchange on its way into force. It is complete when the outbound key
/// is installed, the peer is done and, where a reader runs, the inbound key is
/// installed there.
#[derive(Debug)]
pub struct PendingKexInstall {
    pub generation: u64,
    /// Unknown until the peer is done.
    pub after: Option<KexAfterInstall>,
    pub phase: PendingKexPhase,
    pub inbound_acked: bool,
    pub inbound_sent: bool,
}

/// The content of a [`PendingKexPhase`].
#[verifier::ext_equal]
pub enum Phase {
    NeedSubmit { payloads: Seq<Seq<u8>>, epoch: OutboundEpoch },
    WaitingAck,
    InstallAcked,
}

/// The content of a [`PendingKexInstall`].
#[verifier::ext_equal]
pub struct Install {
    pub generation: u64,
    pub after: Option<KexAfterInstall>,
    pub phase: Phase,
    pub inbound_acked: bool,
    pub inbound_sent: bool,
}

impl View for PendingKexPhase {
    type V = Phase;

    open spec fn view(&self) -> Phase {
        match *self {
            PendingKexPhase::NeedSubmit { payloads, epoch } => Phase::NeedSubmit {
                payloads: writer::payloads_view(payloads@),
                epoch,
            },
            PendingKexPhase::WaitingAck => Phase::WaitingAck,
            PendingKexPhase::InstallAcked => Phase::InstallAcked,
        }
    }
}

impl View for PendingKexInstall {
    type V = Install;

    open spec fn view(&self) -> Install {
        Install {
            generation: self.generation,
            after: self.after,
            phase: self.phase@,
            inbound_acked: self.inbound_acked,
            inbound_sent: self.inbound_sent,
        }
    }
}

impl Install {
    /// What the payloads that wait to be submitted reserve.
    pub open spec fn need(self) -> usize {
        match self.phase {
            Phase::NeedSubmit { payloads, .. } => writer::reservations(payloads),
            _ => 0,
        }
    }
}

impl PendingKexInstall {
    /// What the payloads that wait to be submitted reserve.
    pub fn need_submit_bytes(&self) -> (r: usize)
        ensures
            r == self@.need(),
    {
        match &self.phase {
            PendingKexPhase::NeedSubmit { payloads, .. } => {
                assert(writer::payloads_view(payloads@).skip(0) =~= writer::payloads_view(
                    payloads@,
                ));
                writer::batch_reservation(payloads, 0)
            },
            _ => 0,
        }
    }
}

/// Another install is still open.
#[derive(Clone, Copy, Debug, PartialEq, Eq, Structural)]
pub struct PendingKexConflict;

/// Who waits for the answer to a global request; answers come in order.
#[derive(Clone, Copy, Debug, PartialEq, Eq, Structural)]
pub enum GlobalRequestResponse {
    Keepalive,
    Ping(u64),
    TcpIpForward(u64),
    CancelTcpIpForward(u64),
}

/// The application's end of a channel.
#[derive(Clone, Copy, Debug, PartialEq, Eq, Structural)]
pub struct ChannelRef {
    /// Names the application's end.
    pub handle: u64,
    /// Nothing reads the channel any more.
    pub reader_gone: bool,
}

/// A channel that the peer asked for and that the application decides on.
#[derive(Debug)]
pub struct PendingChannelOpen {
    pub recipient_channel: u32,
    pub sender_channel: ChannelId,
    pub window_size: u32,
    pub packet_size: u32,
    pub channel_params: ChannelParams,
    pub channel_ref: ChannelRef,
}

/// The content of a [`PendingChannelOpen`].
#[verifier::ext_equal]
pub struct PendingOpen {
    pub recipient_channel: u32,
    pub sender_channel: ChannelId,
    pub window_size: u32,
    pub packet_size: u32,
    pub lane: Lane,
    pub channel_ref: ChannelRef,
}

impl View for PendingChannelOpen {
    type V = PendingOpen;

    open spec fn view(&self) -> PendingOpen {
        PendingOpen {
            recipient_channel: self.recipient_channel,
            sender_channel: self.sender_channel,
            window_size: self.window_size,
            packet_size: self.packet_size,
            lane: self.channel_params@,
            channel_ref: self.channel_ref,
        }
    }
}

/// Why a channel is not to be opened.
#[derive(Debug)]
pub struct Refusal {
    pub reason: ChannelOpenFailure,
    pub description: String,
}

/// The content of a [`Refusal`].
#[verifier::ext_equal]
pub struct Refused {
    pub reason: ChannelOpenFailure,
    pub description: Seq<u8>,
}

impl View for Refusal {
    type V = Refused;

    open spec fn view(&self) -> Refused {
        Refused { reason: self.reason, description: wire::text(self.description@) }
    }
}

/// What a decision says.
pub open spec fn decision(r: Result<(), Refusal>) -> Result<(), Refused> {
    match r {
        Ok(_) => Ok(()),
        Err(x) => Err(x@),
    }
}

/// The application's decision on a channel that the peer asked for.
#[derive(Debug)]
pub struct ChannelOpenReply {
    pub pending: PendingChannelOpen,
    pub result: Result<(), Refusal>,
}

/// The content of a [`ChannelOpenReply`].
#[verifier::ext_equal]
pub struct OpenReply {
    pub pending: PendingOpen,
    pub result: Result<(), Refused>,
}

impl View for ChannelOpenReply {
    type V = OpenReply;

    open spec fn view(&self) -> OpenReply {
        OpenReply { pending: self.pending@, result: decision(self.result) }
    }
}

/// The replies of a queue.
pub open spec fn open_replies_view(q: Seq<ChannelOpenReply>) -> Seq<OpenReply> {
    q.map_values(|r: ChannelOpenReply| r@)
}

/// A connected server session.
#[derive(Debug)]
pub struct Session {
    pub common: CommonSession,
    pub config: Config,
    /// The time, in milliseconds, as the session was last told.
    pub now: u64,
    /// The KEXINIT to send when a key exchange begins.
    pub offer: Option<Bytes>,
    /// The signature algorithms to offer, best first.
    pub server_sig_algs: Vec<Vec<u8>>,
    pub target_window_size: u32,
    pub pending_reads: Vec<Vec<u8>>,
    pub pending_len: u32,
    pub channels: HashMap<u32, ChannelRef>,
    /// Queues of the channels whose application does not keep up.
    pub inbound: HashMap<u32, InboundQueue>,
    /// The generation of the next such queue.
    pub inbound_generation: u64,
    /// Channels that wait for a place in their application's buffer.
    pub inbound_needs_reserve: Vec<u32>,
    /// Producers, by number, that wait for their channel's backlog to drain.
    pub outbound_acks: HashMap<u32, VecDeque<u64>>,
    /// Producers whose wait is over, and whether their bytes went out.
    pub released: Vec<(u64, bool)>,
    pub open_global_requests: VecDeque<GlobalRequestResponse>,
    /// Decisions on channels that the peer asked for, in order.
    pub open_replies: VecDeque<ChannelOpenReply>,
    pub kex: SessionKexState,
    pub rekey_gen: u64,
    pub rekey_deadline: RekeyDeadline,
    pub writer: Option<WriterHandle>,
    pub reader: Option<ReaderHandle>,
    pub pending_supervisor_cause: Option<DisconnectCause>,
    pub pending_outbound: PendingOutbound,
    pub pending_kex_install: Option<PendingKexInstall>,
    /// Channels whose window grant was put off.
    pub deferred_window_grants: HashSet<u32>,
    /// The channel at which the next round begins.
    pub sched_next: Option<u32>,
    /// Regular rounds since the last boost.
    pub sched_since_boost: u32,
    /// A channel that was boosted sits out one round.
    pub sched_debt: Option<u32>,
    /// Watches the scheduler, if anyone does.
    pub sched_slot: Option<SchedSlot>,
}

/// The scheduler's part of a session.
#[verifier::ext_equal]
pub struct Sched {
    pub next: Option<u32>,
    pub since_boost: u32,
    pub debt: Option<u32>,
    /// What a watcher has seen.
    pub seen: Option<SchedSeen>,
}

/// Keys, channels and the way out: the part of a session that faces the peer.
pub struct Peer {
    pub common: Common,
    pub config: Config,
    pub now: u64,
    pub offer: Option<Seq<u8>>,
    pub sig_algs: Seq<Seq<u8>>,
    pub kex: SessionKexState,
    pub rekey_gen: u64,
    pub rekey_deadline: RekeyDeadline,
    pub link: Option<Link>,
    pub reader: Option<Reader>,
    pub cause: Option<DisconnectCause>,
    pub parked: Parked,
    pub install: Option<Install>,
    pub sched: Sched,
}

/// The part of a session that faces the application.
pub struct App {
    pub target_window_size: u32,
    pub pending_reads: Seq<Seq<u8>>,
    pub pending_len: u32,
    pub channels: Map<u32, ChannelRef>,
    pub inbound: Map<u32, Inbound>,
    pub inbound_generation: u64,
    pub needs_reserve: Seq<u32>,
    pub acks: Map<u32, Seq<u64>>,
    pub released: Seq<(u64, bool)>,
    pub requests: Seq<GlobalRequestResponse>,
    pub open_replies: Seq<OpenReply>,
    pub deferred: Set<u32>,
}

/// The whole of a session.
pub struct Sess {
    pub peer: Peer,
    pub app: App,
}

/// The queues of an inbound table.
pub open spec fn inbound_view(m: Map<u32, InboundQueue>) -> Map<u32, Inbound> {
    m.map_values(|q: InboundQueue| q@)
}

/// The producers of an acknowledgement table.
pub open spec fn acks_view(m: Map<u32, VecDeque<u64>>) -> Map<u32, Seq<u64>> {
    m.map_values(|q: VecDeque<u64>| q@)
}

impl Session {
    /// The part that faces the peer.
    pub open spec fn peer(self) -> Peer {
        Peer {
            common: self.common@,
            config: self.config,
            now: self.now,
            offer: match self.offer {
                Some(b) => Some(wire::bytes_view(b)),
                None => None,
            },
            sig_algs: sshbuffer::contents(self.server_sig_algs@),
            kex: self.kex,
            rekey_gen: self.rekey_gen,
            rekey_deadline: self.rekey_deadline,
            link: match self.writer {
                Some(w) => Some(w@),
                None => None,
            },
            reader: match self.reader {
                Some(r) => Some(r@),
                None => None,
            },
            cause: self.pending_supervisor_cause,
            parked: self.pending_outbound@,
            install: match self.pending_kex_install {
                Some(p) => Some(p@),
                None => None,
            },
            sched: Sched {
                next: self.sched_next,
                since_boost: self.sched_since_boost,
                debt: self.sched_debt,
                seen: match self.sched_slot {
                    Some(s) => Some(s@),
                    None => None,
                },
            },
        }
    }

    /// The part that faces the application.
    pub open spec fn app(self) -> App {
        App {
            target_window_size: self.target_window_size,
            pending_reads: self.pending_reads@.map_values(|v: Vec<u8>| v@),
            pending_len: self.pending_len,
            channels: self.channels@,
            inbound: inbound_view(self.inbound@),
            inbound_generation: self.inbound_generation,
            needs_reserve: self.inbound_needs_reserve@,
            acks: acks_view(self.outbound_acks@),
            released: self.released@,
            requests: self.open_global_requests@,
            open_replies: open_replies_view(self.open_replies@),
            deferred: self.deferred_window_grants@,
        }
    }
}

impl View for Session {
    type V = Sess;

    open spec fn view(&self) -> Sess {
        Sess { peer: self.peer(), app: self.app() }
    }
}

impl Staging {
    /// Complete packets only, and every queued request fits one.
    #[verifier::opaque]
    pub open spec fn ok(self) -> bool {
        &&& self.wf()
        &&& self.cursor <= self.write.len()
        &&& self.fits()
    }
}

impl Peer {
    /// What is staged can be read packet by packet.
    pub open spec fn ok(self) -> bool {
        self.common.enc matches Some(e) ==> e.st.ok()
    }

    /// The lanes and packets of a session that has keys.
    pub open spec fn st(self) -> Staging {
        self.common.enc->0.st
    }

    /// The lanes and packets replaced.
    pub open spec fn with_st(self, st: Staging) -> Peer {
        match self.common.enc {
            Some(e) => Peer {
                common: Common { enc: Some(Enc { st, ..e }), ..self.common },
                ..self
            },
            None => self,
        }
    }

    /// The lane of channel `id`.
    pub open spec fn lane(self, id: u32) -> Option<Lane> {
        match self.common.enc {
            Some(e) => if e.st.channels.contains_key(id) {
                Some(e.st.channels[id])
            } else {
                None
            },
            None => None,
        }
    }

    /// A cause put down, unless there is one already.
    pub open spec fn caused(self, c: DisconnectCause) -> Peer {
        Peer {
            cause: match self.cause {
                Some(first) => Some(first),
                None => Some(c),
            },
            ..self
        }
    }

    /// A key exchange, or an install that it left, keeps application data
    /// back.
    pub open spec fn blocked(self) -> bool {
        self.kex.is_active() || self.install is Some
    }
}

impl Session {
    /// Puts a cause down for the run loop, unless there is one already.
    pub fn stage_cause(&mut self, cause: DisconnectCause)
        ensures
            final(self).peer() == old(self).peer().caused(cause),
            final(self).app() == old(self).app(),
    {
        if self.pending_supervisor_cause.is_none() {
            self.pending_supervisor_cause = Some(cause);
        }
    }

    /// Whether a key exchange, or an install that it left, keeps application
    /// data back.
    pub fn blocks_outbound_intake(&self) -> (r: bool)
        ensures
            r == self.peer().blocked(),
    {
        self.kex.active() || self.pending_kex_install.is_some()
    }
}

} // verus!
