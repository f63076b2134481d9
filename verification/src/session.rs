//! The encrypted half of a session: its channels and the buffer in which
//! outbound packets are staged.
use bytes::{Bytes, BytesMut};
use std::collections::HashMap;
use vstd::prelude::*;

use crate::drain;
use crate::sshbuffer;
use crate::wire;
use crate::channel;
use crate::channel::{
    ChannelCtrlItem, ChannelId, ChannelLaneState, ChannelParams, Ctrl, Lane, StopDiscardStats,
    LOCAL_TRANSPORT_PAYLOAD_CAP, REPLY_RESERVATION,
};
use crate::drain::{DrainEnd, Drained};
use crate::error::Error;
use crate::listing;
use crate::listing::sorted_keys;
use crate::msg;
use crate::sshbuffer::{Compression, PacketSink, PacketWriter, Stream};
use crate::wire::{
    bytes_as_slice, bytes_from_vec, bytes_len, bytes_slice, bytes_mut_clear, bytes_mut_as_slice,
    bytes_mut_len, put_bytes, put_u32, put_u8, read_u32, saturating_mul, stage,
};

verus! {

broadcast use vstd::std_specs::hash::group_hash_axioms;

/// How far a lane was drained, and how many application bytes left.
#[derive(Clone, Copy, Debug, PartialEq, Eq, Structural)]
pub enum ChannelFlushResult {
    Incomplete { wrote: usize },
    Complete { wrote: usize, pending_eof: bool, pending_close: bool },
}

impl ChannelFlushResult {
    /// Application bytes that left.
    pub open spec fn spec_wrote(self) -> usize {
        match self {
            ChannelFlushResult::Incomplete { wrote } => wrote,
            ChannelFlushResult::Complete { wrote, .. } => wrote,
        }
    }

    /// Application bytes that left.
    pub fn wrote(&self) -> (r: usize)
        ensures
            r == self.spec_wrote(),
    {
        match self {
            ChannelFlushResult::Incomplete { wrote } => *wrote,
            ChannelFlushResult::Complete { wrote, .. } => *wrote,
        }
    }

    /// A drain that left nothing queued. The EOF and CLOSE latches stay with
    /// the lane, so none is reported here.
    pub fn complete(wrote: usize) -> (r: ChannelFlushResult)
        ensures
            r == (ChannelFlushResult::Complete { wrote, pending_eof: false, pending_close: false }),
    {
        ChannelFlushResult::Complete { wrote, pending_eof: false, pending_close: false }
    }
}

/// What a drain that ended as `d` reports.
pub open spec fn flush_report(d: Drained) -> Result<ChannelFlushResult, Error> {
    match d.end {
        DrainEnd::Complete => Ok(
            ChannelFlushResult::Complete {
                wrote: d.wrote as usize,
                pending_eof: false,
                pending_close: false,
            },
        ),
        DrainEnd::Incomplete => Ok(ChannelFlushResult::Incomplete { wrote: d.wrote as usize }),
        DrainEnd::Stuck => Err(Error::Inconsistent),
    }
}

/// The control items that `gate` lets through.
pub open spec fn gate_of<G: Fn(&ChannelCtrlItem) -> bool>(gate: G) -> spec_fn(Ctrl) -> bool {
    |c: Ctrl|
        !exists|i: ChannelCtrlItem| i@ == c && #[trigger] call_ensures(gate, (&i,), false)
}

/// `gate` can be asked about every control item, and its answer depends on
/// the item's content alone.
pub open spec fn gate_decides<G: Fn(&ChannelCtrlItem) -> bool>(gate: G) -> bool {
    &&& forall|i: ChannelCtrlItem| #[trigger] call_requires(gate, (&i,))
    &&& forall|i: ChannelCtrlItem, j: ChannelCtrlItem|
        i@ == j@ && #[trigger] call_ensures(gate, (&i,), true) ==> !#[trigger] call_ensures(
            gate,
            (&j,),
            false,
        )
}

/// SUCCESS and FAILURE items on the lanes `ids`.
pub open spec fn replies_of(m: Map<u32, Lane>, ids: Seq<u32>) -> nat
    decreases ids.len(),
{
    if ids.len() == 0 {
        0
    } else {
        replies_of(m, ids.drop_last()) + channel::reply_count(m[ids.last()].ctrl)
    }
}

/// Once a lane is stuck no later lane is drained.
proof fn lemma_flush_lanes_err(s: Staging, ids: Seq<u32>, n: int)
    requires
        0 <= n < ids.len(),
        s.flush_lanes_result(ids.take(n + 1)) is Err,
    ensures
        s.flush_lanes(ids) == s.flush_lanes(ids.take(n + 1)),
        s.flush_lanes_result(ids) == s.flush_lanes_result(ids.take(n + 1)),
    decreases ids.len(),
{
    if ids.len() == n + 1 {
        assert(ids.take(n + 1) =~= ids);
    } else {
        assert(ids.drop_last().take(n + 1) =~= ids.take(n + 1));
        lemma_flush_lanes_err(s, ids.drop_last(), n);
    }
}

/// Once a lane is stuck no later lane is drained.
proof fn lemma_flush_lanes_direct_err(s: Staging, w: PacketSink, ids: Seq<u32>, n: int)
    requires
        0 <= n < ids.len(),
        s.flush_lanes_direct(ids.take(n + 1), w).2 is Err,
    ensures
        s.flush_lanes_direct(ids, w) == s.flush_lanes_direct(ids.take(n + 1), w),
    decreases ids.len(),
{
    if ids.len() == n + 1 {
        assert(ids.take(n + 1) =~= ids);
    } else {
        assert(ids.drop_last().take(n + 1) =~= ids.take(n + 1));
        lemma_flush_lanes_direct_err(s, w, ids.drop_last(), n);
    }
}

/// One payload more behind the others.
fn push_payload(out: &mut Vec<Vec<u8>>, p: Vec<u8>)
    ensures
        sshbuffer::contents(final(out)@) == sshbuffer::contents(old(out)@).push(p@),
{
    out.push(p);
    assert(sshbuffer::contents(out@) =~= sshbuffer::contents(old(out)@).push(p@));
}

/// Bytes that fit one piece are one piece.
proof fn lemma_single_chunk(bytes: Seq<u8>, max: nat)
    requires
        0 < bytes.len() <= max,
    ensures
        drain::chunks(bytes, max) == seq![bytes],
{
    assert(bytes.take(bytes.len() as int) =~= bytes);
    assert(bytes.skip(bytes.len() as int) =~= Seq::<u8>::empty());
    assert(drain::chunks(bytes.skip(bytes.len() as int), max) =~= Seq::<Seq<u8>>::empty());
    assert(drain::chunks(bytes, max) =~= seq![bytes]);
}

/// How far authentication has come.
#[derive(Clone, Copy, Debug, PartialEq, Eq, Structural)]
pub enum EncryptedState {
    WaitingAuthServiceRequest { sent: bool, accepted: bool },
    WaitingAuthRequest(AuthRequest),
    /// Authenticated; deferred compression starts with the next packet.
    InitCompression,
    Authenticated,
}

/// What is remembered of a user that is still authenticating.
#[derive(Clone, Copy, Debug, PartialEq, Eq, Structural)]
pub struct AuthRequest {
    pub partial_success: bool,
    pub rejection_count: usize,
}

impl EncryptedState {
    /// The user is authenticated, whether or not compression has started.
    pub open spec fn spec_post_auth(self) -> bool {
        self is InitCompression || self is Authenticated
    }

    /// The user is authenticated, whether or not compression has started.
    pub fn post_auth(&self) -> (r: bool)
        ensures
            r == self.spec_post_auth(),
    {
        match self {
            EncryptedState::InitCompression | EncryptedState::Authenticated => true,
            _ => false,
        }
    }
}

/// Bounds on a negotiated Diffie-Hellman group.
#[derive(Clone, Copy, Debug, PartialEq, Eq, Structural)]
pub struct GexParams {
    pub min_group_size: usize,
    pub preferred_group_size: usize,
    pub max_group_size: usize,
}

/// The public values of one key exchange.
#[derive(Debug)]
pub struct Exchange {
    pub client_id: Vec<u8>,
    pub server_id: Vec<u8>,
    pub client_kex_init: Bytes,
    pub server_kex_init: Bytes,
    pub client_ephemeral: Vec<u8>,
    pub server_ephemeral: Vec<u8>,
    pub gex: Option<GexParams>,
}

impl Exchange {
    /// No value is known yet.
    pub open spec fn is_blank_but_ids(self) -> bool {
        &&& wire::bytes_view(self.client_kex_init).len() == 0
        &&& wire::bytes_view(self.server_kex_init).len() == 0
        &&& self.client_ephemeral@.len() == 0
        &&& self.server_ephemeral@.len() == 0
        &&& self.gex is None
    }

    /// An exchange between two named ends.
    pub fn new(client_id: &[u8], server_id: &[u8]) -> (r: Exchange)
        ensures
            r.client_id@ == client_id@,
            r.server_id@ == server_id@,
            r.is_blank_but_ids(),
    {
        let mut r = Exchange::default();
        r.client_id.extend_from_slice(client_id);
        r.server_id.extend_from_slice(server_id);
        assert(r.client_id@ =~= client_id@);
        assert(r.server_id@ =~= server_id@);
        r
    }
}

impl Default for Exchange {
    fn default() -> (r: Exchange)
        ensures
            r.client_id@.len() == 0,
            r.server_id@.len() == 0,
            r.is_blank_but_ids(),
    {
        Exchange {
            client_id: Vec::new(),
            server_id: Vec::new(),
            client_kex_init: bytes_from_vec(Vec::new()),
            server_kex_init: bytes_from_vec(Vec::new()),
            client_ephemeral: Vec::new(),
            server_ephemeral: Vec::new(),
            gex: None,
        }
    }
}

/// A key-exchange method, by number.
#[derive(Clone, Copy, Debug, PartialEq, Eq, Structural)]
pub struct KexAlgorithm {
    pub id: u32,
    /// The method needs no exchange of its own.
    pub skip_exchange: bool,
}

/// A MAC method, by number.
#[derive(Clone, Copy, Debug, PartialEq, Eq, Structural)]
pub struct MacName(pub u32);

/// When traffic alone asks for new keys.
#[derive(Clone, Copy, Debug, PartialEq, Eq, Structural)]
pub struct RekeyPolicy {
    /// Outbound payload bytes under one key.
    pub max_bytes: u64,
    /// Milliseconds under one key.
    pub max_millis: u64,
}

impl Default for RekeyPolicy {
    /// One gibibyte or one hour, whichever comes first.
    fn default() -> (r: RekeyPolicy)
        ensures
            r.max_bytes == 0x4000_0000,
            r.max_millis == 3_600_000,
    {
        RekeyPolicy { max_bytes: 0x4000_0000, max_millis: 3_600_000 }
    }
}

/// The channels of an encrypted session and its staging buffer.
#[derive(Debug)]
pub struct Encrypted {
    pub state: EncryptedState,
    /// Present except while an exchange is under way.
    pub exchange: Option<Exchange>,
    pub kex: KexAlgorithm,
    pub key: usize,
    pub client_mac: MacName,
    pub server_mac: MacName,
    pub session_id: Vec<u8>,
    pub channels: HashMap<u32, ChannelParams>,
    pub last_channel_id: u32,
    /// Framed plaintext packets that wait to be sealed.
    pub write: BytesMut,
    /// How much of `write` has been handed on.
    pub write_cursor: usize,
    /// When the keys in force were installed, in milliseconds.
    pub last_rekey: u64,
    pub server_compression: Compression,
    pub client_compression: Compression,
    pub decompress: Stream,
    pub rekey_wanted: bool,
    pub received_extensions: Vec<String>,
}

/// The part of an [`Encrypted`] that its lanes and packets live in.
#[verifier::ext_equal]
pub struct Staging {
    pub channels: Map<u32, Lane>,
    pub write: Seq<u8>,
    pub cursor: usize,
    pub last_channel_id: u32,
    pub rekey_wanted: bool,
}

/// The lanes of a channel table.
pub open spec fn lanes(m: Map<u32, ChannelParams>) -> Map<u32, Lane> {
    m.map_values(|c: ChannelParams| c@)
}

impl View for Encrypted {
    type V = Staging;

    open spec fn view(&self) -> Staging {
        Staging {
            channels: lanes(self.channels@),
            write: wire::bytes_mut_view(self.write),
            cursor: self.write_cursor,
            last_channel_id: self.last_channel_id,
            rekey_wanted: self.rekey_wanted,
        }
    }
}

impl Encrypted {
    /// `self` and `other` differ at most in lanes and packets.
    pub open spec fn same_keys(self, other: Encrypted) -> bool {
        &&& self.state == other.state
        &&& self.exchange == other.exchange
        &&& self.kex == other.kex
        &&& self.key == other.key
        &&& self.client_mac == other.client_mac
        &&& self.server_mac == other.server_mac
        &&& self.session_id == other.session_id
        &&& self.last_rekey == other.last_rekey
        &&& self.server_compression == other.server_compression
        &&& self.client_compression == other.client_compression
        &&& self.decompress == other.decompress
        &&& self.received_extensions == other.received_extensions
    }
}

impl Staging {
    /// The packets that wait to be handed on.
    pub open spec fn unsent(self) -> Seq<u8> {
        if self.cursor <= self.write.len() {
            self.write.skip(self.cursor as int)
        } else {
            Seq::empty()
        }
    }

    /// The staging buffer holds complete packets.
    pub open spec fn wf(self) -> bool {
        wire::framed(self.unsent())
    }

    /// The packet `p` staged behind the others.
    pub open spec fn staged(self, p: Seq<u8>) -> Staging {
        Staging { write: self.write + wire::frame(p), ..self }
    }

    /// The packets `ps` staged behind the others.
    pub open spec fn staged_all(self, ps: Seq<Seq<u8>>) -> Staging {
        Staging { write: self.write + wire::frames(ps), ..self }
    }

    /// Lane `id` replaced by `l`.
    pub open spec fn with_lane(self, id: u32, l: Lane) -> Staging {
        Staging { channels: self.channels.insert(id, l), ..self }
    }

    /// Lane `id` gone.
    pub open spec fn without(self, id: u32) -> Staging {
        Staging { channels: self.channels.remove(id), ..self }
    }

    /// Lane `id` after a drain: gone once it has nothing more to say.
    pub open spec fn after_drain(self, id: u32, d: Drained) -> Staging {
        if !(d.end is Stuck) && d.lane.finished() {
            self.without(id)
        } else {
            self.with_lane(id, d.lane)
        }
    }

    /// Drains lane `id` into the staging buffer.
    pub open spec fn flush_lane(
        self,
        id: u32,
        gate: spec_fn(Ctrl) -> bool,
        allow_data: bool,
    ) -> Staging {
        if self.channels.contains_key(id) {
            let d = drain::drain(self.channels[id], gate, allow_data);
            self.after_drain(id, d).staged_all(d.packets)
        } else {
            self
        }
    }

    /// One data packet of at most `cap` bytes of lane `id` staged, and how many
    /// bytes it carries; none where no data is at the head.
    pub open spec fn packet_staged(self, id: u32, cap: u32) -> (Staging, nat) {
        if self.channels.contains_key(id) {
            let l = self.channels[id];
            let (m, bytes) = l.one_packet(cap);
            if bytes.len() == 0 {
                (self.with_lane(id, m), 0)
            } else {
                (
                    self.with_lane(id, m).staged(
                        drain::data_payload(l.recipient_channel, l.data[0].1, bytes),
                    ),
                    bytes.len(),
                )
            }
        } else {
            (self, 0)
        }
    }

    /// Drains the lanes `ids`, one after the other, until one is stuck.
    pub open spec fn flush_lanes(self, ids: Seq<u32>) -> Staging
        decreases ids.len(),
    {
        if ids.len() == 0 {
            self
        } else {
            let before = self.flush_lanes(ids.drop_last());
            if self.flush_lanes_result(ids.drop_last()) is Err {
                before
            } else {
                before.flush_lane(ids.last(), drain::gate_open(), true)
            }
        }
    }

    /// What draining the lanes `ids` reports.
    pub open spec fn flush_lanes_result(self, ids: Seq<u32>) -> Result<(), Error>
        decreases ids.len(),
    {
        if ids.len() == 0 {
            Ok(())
        } else {
            let before = self.flush_lanes(ids.drop_last());
            match self.flush_lanes_result(ids.drop_last()) {
                Err(e) => Err(e),
                Ok(_) => match before.flush_lane_result(ids.last(), drain::gate_open(), true) {
                    Err(e) => Err(e),
                    Ok(_) => Ok(()),
                },
            }
        }
    }

    /// Queues `bytes` on lane `id` and, unless something is already queued
    /// there or new keys are on their way, drains the lane.
    pub open spec fn send(
        self,
        id: u32,
        bytes: Seq<u8>,
        ext: Option<u32>,
        is_rekeying: bool,
    ) -> Staging {
        if !self.channels.contains_key(id) || !self.channels[id].confirmed {
            self
        } else {
            let l = self.channels[id];
            let queued = self.with_lane(id, l.enqueue_data(bytes, ext));
            if !l.takes_data() || l.busy() || is_rekeying {
                queued
            } else {
                queued.flush_lane(id, drain::gate_open(), true)
            }
        }
    }

    /// What queueing and draining reports. Data that comes after EOF or CLOSE,
    /// or for a channel that is gone, is dropped without an error.
    pub open spec fn send_result(
        self,
        id: u32,
        bytes: Seq<u8>,
        ext: Option<u32>,
        is_rekeying: bool,
    ) -> Result<(), Error> {
        if !self.channels.contains_key(id) {
            Ok(())
        } else {
            let l = self.channels[id];
            if !l.confirmed {
                Err(Error::WrongChannel)
            } else if !l.takes_data() || l.busy() || is_rekeying {
                Ok(())
            } else {
                match self.with_lane(id, l.enqueue_data(bytes, ext)).flush_lane_result(
                    id,
                    drain::gate_open(),
                    true,
                ) {
                    Ok(_) => Ok(()),
                    Err(e) => Err(e),
                }
            }
        }
    }

    /// [`Staging::send`], draining past an empty staging buffer.
    pub open spec fn send_direct(
        self,
        id: u32,
        bytes: Seq<u8>,
        ext: Option<u32>,
        is_rekeying: bool,
    ) -> Staging {
        if !self.channels.contains_key(id) || !self.channels[id].confirmed {
            self
        } else {
            let l = self.channels[id];
            let queued = self.with_lane(id, l.enqueue_data(bytes, ext));
            if !l.takes_data() || l.busy() || is_rekeying {
                queued
            } else {
                queued.flush_lane_direct(id)
            }
        }
    }

    /// What the packet writer holds after such a send.
    pub open spec fn send_sink(
        self,
        id: u32,
        bytes: Seq<u8>,
        ext: Option<u32>,
        is_rekeying: bool,
        w: PacketSink,
    ) -> PacketSink {
        if !self.channels.contains_key(id) || !self.channels[id].confirmed {
            w
        } else {
            let l = self.channels[id];
            if !l.takes_data() || l.busy() || is_rekeying {
                w
            } else {
                self.with_lane(id, l.enqueue_data(bytes, ext)).direct_sink(id, w)
            }
        }
    }

    /// Queues CLOSE or EOF and drains the lane unless data is queued on it.
    pub open spec fn fence(self, id: u32, l: Lane) -> Staging {
        if !self.channels.contains_key(id) {
            self
        } else if l.data.len() > 0 {
            self.with_lane(id, l)
        } else {
            self.with_lane(id, l).flush_lane(id, drain::gate_open(), true)
        }
    }

    /// Throws away what is queued on lane `id`, answers with the one CLOSE
    /// that the channel may still send, and forgets the channel.
    pub open spec fn discard(self, id: u32) -> Staging {
        if !self.channels.contains_key(id) {
            self
        } else if self.channels[id].outbound_closed {
            self.without(id)
        } else {
            self.staged(
                drain::ctrl_payload(self.channels[id].recipient_channel, Ctrl::Close),
            ).without(id)
        }
    }

    /// What [`Staging::discard`] throws away.
    pub open spec fn discard_stats(self, id: u32) -> StopDiscardStats {
        if self.channels.contains_key(id) {
            self.channels[id].discarded()
        } else {
            StopDiscardStats { discarded_items: 0, discarded_bytes: 0, already_gone: true }
        }
    }

    /// Received bytes charged to the window of lane `id`; what is beyond it is
    /// not.
    pub open spec fn consumed(self, id: u32, len: nat) -> Staging {
        if self.channels.contains_key(id) && len <= self.channels[id].sender_window_size {
            let l = self.channels[id];
            self.with_lane(
                id,
                Lane { sender_window_size: (l.sender_window_size - (len as u32)) as u32, ..l },
            )
        } else {
            self
        }
    }

    /// Data is queued on lane `id`.
    pub open spec fn has_data(self, id: u32) -> bool {
        self.channels.contains_key(id) && self.channels[id].data.len() > 0
    }

    /// Data or control is queued on lane `id`.
    pub open spec fn has_work(self, id: u32) -> bool {
        self.channels.contains_key(id) && self.channels[id].busy()
    }

    /// Data bytes queued on lane `id`.
    pub open spec fn data_bytes(self, id: u32) -> usize {
        if self.channels.contains_key(id) {
            wire::sat(channel::queued_bytes(self.channels[id].data))
        } else {
            0
        }
    }

    /// How much the peer may still send on lane `id`.
    pub open spec fn sender_window(self, id: u32) -> usize {
        if self.channels.contains_key(id) {
            self.channels[id].sender_window_size as usize
        } else {
            0
        }
    }

    /// The most that may be advertised to the peer.
    pub open spec fn ceiling(target: u32, undelivered: u32) -> u32 {
        if target >= undelivered {
            (target - undelivered) as u32
        } else {
            0
        }
    }

    /// A grant is due once less than half of the ceiling is left.
    pub open spec fn grant_due(self, id: u32, target: u32, undelivered: u32) -> bool {
        &&& self.channels.contains_key(id)
        &&& !self.channels[id].outbound_closed
        &&& self.channels[id].sender_window_size < Staging::ceiling(target, undelivered) / 2
    }

    /// WINDOW_ADJUST by `delta` staged for lane `id`, whose window becomes `window`.
    pub open spec fn adjusted(self, id: u32, delta: u32, window: u32) -> Staging {
        let l = self.channels[id];
        self.staged(
            seq![msg::CHANNEL_WINDOW_ADJUST] + wire::be32(l.recipient_channel) + wire::be32(delta),
        ).with_lane(id, Lane { sender_window_size: window, ..l })
    }

    /// Tops the window of lane `id` up to the ceiling, where a grant is due.
    pub open spec fn grant(self, id: u32, target: u32, undelivered: u32) -> Staging {
        if self.grant_due(id, target, undelivered) {
            let c = Staging::ceiling(target, undelivered);
            self.adjusted(id, (c - self.channels[id].sender_window_size) as u32, c)
        } else {
            self
        }
    }

    /// The `n`-th channel number after the last one given out.
    pub open spec fn nth_id(self, n: nat) -> u32 {
        ((self.last_channel_id + n) % 0x1_0000_0000) as u32
    }

    /// The number after `n` steps is free and none before it was.
    pub open spec fn first_free(self, n: nat) -> bool {
        &&& n >= 1
        &&& !self.channels.contains_key(self.nth_id(n))
        &&& forall|k: nat| 1 <= k < n ==> self.channels.contains_key(#[trigger] self.nth_id(k))
    }

    /// Some channel number is free.
    pub open spec fn has_room(self) -> bool {
        exists|id: u32| !self.channels.contains_key(id)
    }

    /// Drains lane `id` past an empty staging buffer, or into it where
    /// something is staged.
    pub open spec fn flush_lane_direct(self, id: u32) -> Staging {
        if self.channels.contains_key(id) && self.write.len() == 0 {
            self.after_drain(id, drain::drain(self.channels[id], drain::gate_open(), true))
        } else {
            self.flush_lane(id, drain::gate_open(), true)
        }
    }

    /// What the packet writer holds after such a drain.
    pub open spec fn direct_sink(self, id: u32, w: PacketSink) -> PacketSink {
        if self.channels.contains_key(id) && self.write.len() == 0 {
            w.all(drain::drain(self.channels[id], drain::gate_open(), true).packets)
        } else {
            w
        }
    }

    /// Drains the lanes `ids` that way, one after the other, until one is stuck.
    pub open spec fn flush_lanes_direct(self, ids: Seq<u32>, w: PacketSink) -> (
        Staging,
        PacketSink,
        Result<(), Error>,
    )
        decreases ids.len(),
    {
        if ids.len() == 0 {
            (self, w, Ok(()))
        } else {
            let (s, w1, r) = self.flush_lanes_direct(ids.drop_last(), w);
            if r is Err {
                (s, w1, r)
            } else {
                (
                    s.flush_lane_direct(ids.last()),
                    s.direct_sink(ids.last(), w1),
                    match s.flush_lane_result(ids.last(), drain::gate_open(), true) {
                        Ok(_) => Ok(()),
                        Err(e) => Err(e),
                    },
                )
            }
        }
    }

    /// SUCCESS and FAILURE items on all lanes.
    pub open spec fn reply_count(self) -> nat {
        replies_of(self.channels, listing::listing(self.channels.dom()))
    }

    /// What draining lane `id` reports.
    pub open spec fn flush_lane_result(
        self,
        id: u32,
        gate: spec_fn(Ctrl) -> bool,
        allow_data: bool,
    ) -> Result<usize, Error> {
        if self.channels.contains_key(id) {
            let d = drain::drain(self.channels[id], gate, allow_data);
            if d.end is Stuck {
                Err(Error::Inconsistent)
            } else {
                Ok(d.wrote as usize)
            }
        } else {
            Ok(0)
        }
    }
}

impl Encrypted {
    /// The payload of a control item for this channel's peer.
    fn encode_ctrl_payload(channel: &ChannelParams, item: &ChannelCtrlItem) -> (r: Result<
        Vec<u8>,
        Error,
    >)
        ensures
            r is Ok,
            r->Ok_0@ == drain::ctrl_payload(channel.recipient_channel, item@),
    {
        let mut body: Vec<u8> = Vec::new();
        match item {
            ChannelCtrlItem::OpenConfirmation {
                recipient_channel,
                sender_channel,
                window_size,
                packet_size,
            } => {
                put_u8(&mut body, msg::CHANNEL_OPEN_CONFIRMATION)?;
                put_u32(&mut body, *recipient_channel)?;
                put_u32(&mut body, *sender_channel)?;
                put_u32(&mut body, *window_size)?;
                put_u32(&mut body, *packet_size)?;
            },
            ChannelCtrlItem::Eof => {
                body.push(msg::CHANNEL_EOF);
                put_u32(&mut body, channel.recipient_channel)?;
            },
            ChannelCtrlItem::Close => {
                body.push(msg::CHANNEL_CLOSE);
                put_u32(&mut body, channel.recipient_channel)?;
            },
            ChannelCtrlItem::Success => {
                body.push(msg::CHANNEL_SUCCESS);
                put_u32(&mut body, channel.recipient_channel)?;
            },
            ChannelCtrlItem::Failure => {
                body.push(msg::CHANNEL_FAILURE);
                put_u32(&mut body, channel.recipient_channel)?;
            },
            ChannelCtrlItem::Request { body: rest } => {
                body.push(msg::CHANNEL_REQUEST);
                body.extend_from_slice(bytes_as_slice(rest));
            },
        }
        assert(body@ =~= drain::ctrl_payload(channel.recipient_channel, item@));
        Ok(body)
    }

    /// Cuts `buf0[from..]`, as far as the window reaches, into packets of at most
    /// the peer's packet size and charges the window for them.
    #[verifier::spinoff_prover]
    #[verifier::rlimit(40)]
    fn data_noqueue(
        out: &mut Vec<Vec<u8>>,
        channel: &mut ChannelParams,
        buf0: &[u8],
        a: Option<u32>,
        from: usize,
    ) -> (r: Result<usize, Error>)
        ensures
            from >= buf0@.len() ==> r == Ok::<usize, Error>(0) && final(channel)@ == old(channel)@
                && sshbuffer::contents(final(out)@) == sshbuffer::contents(old(out)@),
            from < buf0@.len() && old(channel).recipient_maximum_packet_size == 0 ==> r == Err::<
                usize,
                Error,
            >(Error::Inconsistent) && final(channel)@ == old(channel)@ && sshbuffer::contents(
                final(out)@,
            ) == sshbuffer::contents(old(out)@),
            from < buf0@.len() && old(channel).recipient_maximum_packet_size > 0 ==> {
                let n = drain::min(
                    (buf0@.len() - from) as nat,
                    old(channel).recipient_window_size as nat,
                );
                let sent = buf0@.subrange(from as int, from + n);
                &&& r == Ok::<usize, Error>(n as usize)
                &&& final(channel)@ == (Lane {
                    recipient_window_size: (old(channel).recipient_window_size - n) as u32,
                    ..old(channel)@
                })
                &&& sshbuffer::contents(final(out)@) == sshbuffer::contents(old(out)@)
                    + drain::data_payloads(
                    old(channel).recipient_channel,
                    a,
                    drain::chunks(sent, old(channel).recipient_maximum_packet_size as nat),
                )
            },
    {
        if from >= buf0.len() {
            return Ok(0);
        }
        let max: usize = channel.recipient_maximum_packet_size as usize;
        if max == 0 {
            return Err(Error::Inconsistent);
        }
        let left: usize = buf0.len() - from;
        let window: usize = channel.recipient_window_size as usize;
        let n: usize = if left < window {
            left
        } else {
            window
        };
        let end: usize = from + n;
        let ghost sent = buf0@.subrange(from as int, end as int);
        let ghost to = channel.recipient_channel;
        let ghost lane0 = channel@;
        let mut done: usize = from;
        assert(sent.skip(0) =~= sent);
        assert(sshbuffer::contents(out@) =~= sshbuffer::contents(old(out)@) + drain::data_payloads(
            to,
            a,
            Seq::empty(),
        ));
        assert(drain::data_payloads(to, a, drain::chunks(sent, max as nat))
            =~= drain::data_payloads(to, a, Seq::empty()) + drain::data_payloads(
            to,
            a,
            drain::chunks(sent.skip(0), max as nat),
        ));
        let ghost mut acc: Seq<Seq<u8>> = Seq::empty();
        assert(channel@ =~= (Lane { recipient_window_size: (window - 0) as u32, ..lane0 }));
        while done < end
            invariant
                from <= done <= end,
                end <= buf0@.len(),
                end - from <= window,
                max > 0,
                max <= u32::MAX,
                window == lane0.recipient_window_size,
                sent == buf0@.subrange(from as int, end as int),
                lane0.recipient_channel == to,
                channel@ == (Lane {
                    recipient_window_size: (window - (done - from)) as u32,
                    ..lane0
                }),
                drain::chunks(sent, max as nat) == acc + drain::chunks(
                    sent.skip(done - from),
                    max as nat,
                ),
                sshbuffer::contents(out@) == sshbuffer::contents(old(out)@)
                    + drain::data_payloads(to, a, acc),
            decreases end - done,
        {
            let off: usize = if end - done < max {
                end - done
            } else {
                max
            };
            let piece: &[u8] = &buf0[done..done + off];
            let ghost rest = sent.skip(done - from);
            assert(piece@ =~= rest.take(off as int));
            assert(rest.skip(off as int) =~= sent.skip(done + off - from));
            let mut packet: Vec<u8> = Vec::new();
            match a {
                None => {
                    packet.push(msg::CHANNEL_DATA);
                    put_u32(&mut packet, channel.recipient_channel)?;
                    put_bytes(&mut packet, piece)?;
                },
                Some(ext) => {
                    packet.push(msg::CHANNEL_EXTENDED_DATA);
                    put_u32(&mut packet, channel.recipient_channel)?;
                    put_u32(&mut packet, ext)?;
                    put_bytes(&mut packet, piece)?;
                },
            }
            let ghost payload = packet@;
            assert(payload =~= drain::data_payload(to, a, piece@));
            let ghost before = out@;
            out.push(packet);
            channel.recipient_window_size = channel.recipient_window_size - off as u32;
            done = done + off;
            proof {
                let acc1 = acc.push(piece@);
                assert(acc + drain::chunks(rest, max as nat) =~= acc1 + drain::chunks(
                    sent.skip(done - from),
                    max as nat,
                ));
                assert(sshbuffer::contents(out@) =~= sshbuffer::contents(before).push(payload));
                assert(drain::data_payloads(to, a, acc1) =~= drain::data_payloads(to, a, acc).push(
                    payload,
                ));
                assert(sshbuffer::contents(out@) =~= sshbuffer::contents(old(out)@)
                    + drain::data_payloads(to, a, acc1));
                acc = acc1;
                assert(channel@ =~= (Lane {
                    recipient_window_size: (window - (done - from)) as u32,
                    ..lane0
                }));
            }
        }
        proof {
            assert(sent.skip(n as int) =~= Seq::<u8>::empty());
            assert(drain::chunks(sent.skip(n as int), max as nat) =~= Seq::<Seq<u8>>::empty());
            assert(acc =~= drain::chunks(sent, max as nat));
        }
        Ok(n)
    }

    /// Frames bytes that fit one packet and charges the window for them.
    fn emit_gathered(
        out: &mut Vec<Vec<u8>>,
        channel: &mut ChannelParams,
        bytes: &[u8],
        ext: Option<u32>,
    ) -> (r: Result<usize, Error>)
        requires
            0 < bytes@.len() <= old(channel)@.packet_cap(),
        ensures
            r == Ok::<usize, Error>(bytes@.len() as usize),
            final(channel)@ == old(channel)@.charged(bytes@.len()),
            sshbuffer::contents(final(out)@) == sshbuffer::contents(old(out)@).push(
                drain::data_payload(old(channel)@.recipient_channel, ext, bytes@),
            ),
    {
        channel.boost_pending = false;
        let r = Self::data_noqueue(out, channel, bytes, ext, 0);
        proof {
            let to = old(channel)@.recipient_channel;
            lemma_single_chunk(bytes@, old(channel)@.recipient_maximum_packet_size as nat);
            assert(bytes@.subrange(0, bytes@.len() as int) =~= bytes@);
            assert(drain::data_payloads(to, ext, seq![bytes@]) =~= seq![
                drain::data_payload(to, ext, bytes@),
            ]);
            assert(sshbuffer::contents(out@) =~= sshbuffer::contents(old(out)@).push(
                drain::data_payload(to, ext, bytes@),
            ));
            assert(channel@ =~= old(channel)@.charged(bytes@.len()));
        }
        r
    }

    /// Assembles one data packet from the head of the data queue: consecutive
    /// entries of one stream, up to what the peer and the transport take in one
    /// packet, never across a control item whose turn it is.
    #[verifier::rlimit(60)]
    #[verifier::spinoff_prover]
    fn gather_one_data_packet(out: &mut Vec<Vec<u8>>, channel: &mut ChannelParams) -> (r: Result<
        usize,
        Error,
    >)
        ensures
            old(channel)@.recipient_maximum_packet_size == 0 ==> {
                &&& r == Err::<usize, Error>(Error::Inconsistent)
                &&& final(channel)@ == old(channel)@
                &&& sshbuffer::contents(final(out)@) == sshbuffer::contents(old(out)@)
            },
            old(channel)@.recipient_maximum_packet_size > 0 && (old(channel)@.data.len() == 0
                || old(channel)@.recipient_window_size == 0 || old(channel)@.ctrl_ahead()) ==> {
                &&& r == Ok::<usize, Error>(0)
                &&& final(channel)@ == old(channel)@
                &&& sshbuffer::contents(final(out)@) == sshbuffer::contents(old(out)@)
            },
            old(channel)@.recipient_maximum_packet_size > 0 && old(channel)@.data.len() > 0 && old(
                channel,
            )@.recipient_window_size > 0 && !old(channel)@.ctrl_ahead() ==> {
                let (m, bytes) = old(channel)@.next_data();
                &&& r == Ok::<usize, Error>(bytes.len() as usize)
                &&& bytes.len() <= old(channel)@.packet_cap()
                &&& bytes.len() == 0 ==> final(channel)@ == m && sshbuffer::contents(final(out)@)
                    == sshbuffer::contents(old(out)@)
                &&& bytes.len() > 0 ==> final(channel)@ == m.charged(bytes.len())
                    && sshbuffer::contents(final(out)@) == sshbuffer::contents(old(out)@).push(
                    drain::data_payload(
                        old(channel)@.recipient_channel,
                        old(channel)@.data[0].1,
                        bytes,
                    ),
                )
            },
    {
        if channel.recipient_maximum_packet_size == 0 {
            return Err(Error::Inconsistent);
        }
        if channel.pending_data.len() == 0 || channel.recipient_window_size == 0 {
            return Ok(0);
        }
        if channel.ctrl_ahead_of_data() {
            return Ok(0);
        }
        let ghost l0 = channel@;
        let ext0: Option<u32> = channel.pending_data[0].1;
        let mut cap: usize = channel.recipient_maximum_packet_size as usize;
        if channel.recipient_window_size as usize <= cap {
            cap = channel.recipient_window_size as usize;
        }
        if LOCAL_TRANSPORT_PAYLOAD_CAP < cap {
            cap = LOCAL_TRANSPORT_PAYLOAD_CAP;
        }
        assert(cap == l0.packet_cap());
        proof {
            drain::lemma_gather(l0, ext0, cap as nat, Seq::empty());
        }
        // The head entry alone fills the packet: no copy into a joined buffer.
        let avail: usize = bytes_len(&channel.pending_data[0].0).saturating_sub(
            channel.pending_data[0].2,
        );
        let take: usize = if avail < cap {
            avail
        } else {
            cap
        };
        let alone: bool = take == cap || channel.pending_data.len() == 1
            || channel.pending_data[1].1 != ext0;
        if take > 0 && alone {
            if let Some((buf, ext, from, seq)) = channel.pop_data_front() {
                let total: usize = bytes_len(&buf);
                let end: usize = from + take;
                let chunk = bytes_slice(&buf, from, end);
                let ghost left = l0.data[0].0;
                assert(wire::bytes_view(chunk) =~= left.take(take as int));
                proof {
                    drain::lemma_gather_alone(l0, cap as nat);
                }
                if end < total {
                    assert(channel::remaining((buf, ext, end)) =~= left.skip(take as int));
                    channel.push_data_front(buf, ext, end, seq);
                }
                assert(l0.next_data() == (channel@, wire::bytes_view(chunk)));
                return Self::emit_gathered(out, channel, bytes_as_slice(&chunk), ext);
            }
            return Ok(0);
        }
        let mut gathered: Vec<u8> = Vec::new();
        while gathered.len() < cap
            invariant_except_break
                gathered@.len() <= cap,
                l0.gather(ext0, cap as nat, Seq::empty()) == channel@.gather(
                    ext0,
                    cap as nat,
                    gathered@,
                ),
            ensures
                l0.gather(ext0, cap as nat, Seq::empty()) == (channel@, gathered@),
            decreases channel@.data.len(),
        {
            if channel.ctrl_ahead_of_data() {
                break;
            }
            if channel.pending_data.len() == 0 || channel.pending_data[0].1 != ext0 {
                break;
            }
            let ghost l1 = channel@;
            let ghost left = l1.data[0].0;
            let ghost g1 = gathered@;
            if let Some((buf, ext, from, seq)) = channel.pop_data_front() {
                let avail: usize = bytes_len(&buf).saturating_sub(from);
                if avail == 0 {
                    assert(g1 + left =~= g1);
                    continue ;
                }
                let take: usize = if avail < cap - gathered.len() {
                    avail
                } else {
                    cap - gathered.len()
                };
                let all: &[u8] = bytes_as_slice(&buf);
                gathered.extend_from_slice(&all[from..from + take]);
                assert(gathered@ =~= g1 + left.take(take as int));
                if from + take < bytes_len(&buf) {
                    assert(channel::remaining((buf, ext, (from + take) as usize)) =~= left.skip(
                        take as int,
                    ));
                    channel.push_data_front(buf, ext, from + take, seq);
                    break;
                }
                assert(left.take(take as int) =~= left);
            }
        }
        if gathered.len() == 0 {
            return Ok(0);
        }
        let joined = bytes_from_vec(gathered);
        Self::emit_gathered(out, channel, bytes_as_slice(&joined), ext0)
    }

    /// Drains one channel's lane. Control items are never held back by the
    /// peer's window.
    fn flush_channel_inner<G: Fn(&ChannelCtrlItem) -> bool>(
        out: &mut Vec<Vec<u8>>,
        channel: &mut ChannelParams,
        gate: &G,
        allow_data: bool,
    ) -> (r: Result<ChannelFlushResult, Error>)
        requires
            gate_decides(*gate),
        ensures
            ({
                let d = drain::drain(old(channel)@, gate_of(*gate), allow_data);
                &&& r == flush_report(d)
                &&& final(channel)@ == d.lane
                &&& sshbuffer::contents(final(out)@) == sshbuffer::contents(old(out)@) + d.packets
                &&& d.wrote <= old(channel)@.recipient_window_size
            }),
    {
        let ghost l0 = channel@;
        let ghost g = gate_of(*gate);
        let ghost d0 = drain::drain(l0, g, allow_data);
        let mut pending_size: usize = 0;
        let ghost mut acc: Seq<Seq<u8>> = Seq::empty();
        assert(sshbuffer::contents(out@) =~= sshbuffer::contents(old(out)@) + acc);
        assert(d0 =~= drain::rejoined(acc, 0, drain::drain(channel@, g, allow_data)));
        loop
            invariant
                gate_decides(*gate),
                g == gate_of(*gate),
                l0 == old(channel)@,
                d0 == drain::drain(l0, g, allow_data),
                pending_size + channel@.recipient_window_size == l0.recipient_window_size,
                d0 == drain::rejoined(
                    acc,
                    pending_size as nat,
                    drain::drain(channel@, g, allow_data),
                ),
                sshbuffer::contents(out@) == sshbuffer::contents(old(out)@) + acc,
            ensures
                d0.end is Complete,
                d0.lane == channel@,
                d0.wrote == pending_size,
                pending_size <= l0.recipient_window_size,
                sshbuffer::contents(out@) == sshbuffer::contents(old(out)@) + d0.packets,
            decreases channel@.ctrl.len(), channel@.recipient_window_size,
        {
            let ghost l = channel@;
            let ghost n = pending_size as nat;
            if channel.ctrl_ahead_of_data() {
                let ghost p = drain::ctrl_payload(l.recipient_channel, l.ctrl[0].1);
                let go: bool = match channel.peek_ctrl_front() {
                    Some(item) => gate(item),
                    None => true,
                };
                proof {
                    drain::lemma_drain_ctrl(l, g, allow_data);
                    assert(go == g(l.ctrl[0].1));
                    drain::lemma_rejoined_stop(acc, n, l, DrainEnd::Incomplete);
                    drain::lemma_rejoined(
                        acc,
                        n,
                        p,
                        0,
                        drain::drain(l.pop_ctrl(), g, allow_data),
                    );
                }
                if !go {
                    return Ok(ChannelFlushResult::Incomplete { wrote: pending_size });
                }
                if let Some(item) = channel.pop_ctrl_front() {
                    let payload = Self::encode_ctrl_payload(channel, &item)?;
                    push_payload(out, payload);
                    proof {
                        acc = acc.push(p);
                        assert(sshbuffer::contents(out@) =~= sshbuffer::contents(old(out)@) + acc);
                    }
                }
                continue ;
            }
            proof {
                drain::lemma_drain_stop(l, g, allow_data);
                drain::lemma_rejoined_stop(acc, n, l, DrainEnd::Complete);
                drain::lemma_rejoined_stop(acc, n, l, DrainEnd::Incomplete);
                drain::lemma_rejoined_stop(acc, n, l, DrainEnd::Stuck);
            }
            if channel.pending_data.len() == 0 {
                break;
            }
            if !allow_data || channel.recipient_window_size == 0 {
                return Ok(ChannelFlushResult::Incomplete { wrote: pending_size });
            }
            let got = Self::gather_one_data_packet(out, channel);
            let size: usize = match got {
                Ok(size) => size,
                Err(e) => {
                    return Err(e);
                },
            };
            proof {
                drain::lemma_drain_data(l, g, allow_data);
                let (m, bytes) = l.next_data();
                let p = drain::data_payload(l.recipient_channel, l.data[0].1, bytes);
                drain::lemma_rejoined_stop(acc, n, m, DrainEnd::Incomplete);
                if size > 0 {
                    drain::lemma_rejoined(
                        acc,
                        n,
                        p,
                        bytes.len(),
                        drain::drain(m.charged(bytes.len()), g, allow_data),
                    );
                    acc = acc.push(p);
                    assert(sshbuffer::contents(out@) =~= sshbuffer::contents(old(out)@) + acc);
                }
            }
            if size == 0 {
                return Ok(ChannelFlushResult::Incomplete { wrote: pending_size });
            }
            pending_size = pending_size + size;
        }
        Ok(ChannelFlushResult::complete(pending_size))
    }

    /// Sends payloads on: straight to the packet writer where there is one and
    /// nothing is staged before them, else into the staging buffer.
    fn emit(&mut self, out: Vec<Vec<u8>>, writer: Option<&mut PacketWriter>) -> (r: Result<
        (),
        Error,
    >)
        ensures
            r is Ok,
            final(self).same_keys(*old(self)),
            final(self).channels == old(self).channels,
            match writer {
                Some(w) => {
                    &&& old(self)@.write.len() == 0 ==> final(w)@ == w@.all(
                        sshbuffer::contents(out@),
                    ) && final(self)@ == old(self)@
                    &&& old(self)@.write.len() > 0 ==> final(w)@ == w@ && final(self)@ == old(
                        self,
                    )@.staged_all(sshbuffer::contents(out@))
                },
                None => final(self)@ == old(self)@.staged_all(sshbuffer::contents(out@)),
            },
    {
        let ghost ps = sshbuffer::contents(out@);
        if bytes_mut_len(&self.write) == 0 {
            if let Some(w) = writer {
                let ghost w0 = w@;
                let mut i: usize = 0;
                while i < out.len()
                    invariant
                        i <= out@.len(),
                        ps == sshbuffer::contents(out@),
                        w@ == w0.all(ps.take(i as int)),
                    decreases out@.len() - i,
                {
                    proof {
                        assert(ps.take(i + 1) =~= ps.take(i as int).push(ps[i as int]));
                        sshbuffer::lemma_all_push(w0, ps.take(i as int), ps[i as int]);
                    }
                    w.packet_raw(out[i].as_slice())?;
                    i = i + 1;
                }
                assert(ps.take(i as int) =~= ps);
                return Ok(());
            }
        }
        let mut i: usize = 0;
        assert(wire::frames(ps.take(0)) =~= Seq::<u8>::empty());
        assert(self@.write =~= old(self)@.write + wire::frames(ps.take(0)));
        while i < out.len()
            invariant
                i <= out@.len(),
                ps == sshbuffer::contents(out@),
                self@.write == old(self)@.write + wire::frames(ps.take(i as int)),
                *self == (Encrypted { write: self.write, ..*old(self) }),
            decreases out@.len() - i,
        {
            proof {
                assert(ps.take(i + 1) =~= ps.take(i as int).push(ps[i as int]));
                wire::lemma_frames_push(ps.take(i as int), ps[i as int]);
            }
            let ghost w1 = self@.write;
            stage(&mut self.write, out[i].as_slice());
            i = i + 1;
            assert(self@.write =~= old(self)@.write + wire::frames(ps.take(i as int)));
        }
        assert(ps.take(i as int) =~= ps);
        Ok(())
    }

    /// Stages one byte-and-channel message.
    pub fn byte(&mut self, channel: ChannelId, msg: u8) -> (r: Result<(), Error>)
        ensures
            r is Ok,
            final(self).same_keys(*old(self)),
            final(self)@ == (if old(self)@.channels.contains_key(channel.0) {
                old(self)@.staged(
                    seq![msg] + wire::be32(old(self)@.channels[channel.0].recipient_channel),
                )
            } else {
                old(self)@
            }),
    {
        if let Some(ch) = self.channels.get(&channel.0) {
            let mut body: Vec<u8> = Vec::new();
            body.push(msg);
            put_u32(&mut body, ch.recipient_channel)?;
            assert(body@ =~= seq![msg] + wire::be32(ch.recipient_channel));
            stage(&mut self.write, body.as_slice());
        }
        Ok(())
    }

    /// Queues EOF on the channel's lane.
    pub fn park_eof(&mut self, channel: ChannelId)
        ensures
            final(self).same_keys(*old(self)),
            final(self)@ == (if old(self)@.channels.contains_key(channel.0) {
                old(self)@.with_lane(channel.0, old(self)@.channels[channel.0].park_eof())
            } else {
                old(self)@
            }),
    {
        if let Some(mut ch) = self.channels.remove(&channel.0) {
            if !ch.pending_eof && !ch.pending_close {
                ch.enqueue_ctrl(ChannelCtrlItem::Eof);
            }
            let ghost l = ch@;
            self.channels.insert(channel.0, ch);
            assert(self@ =~= old(self)@.with_lane(channel.0, l));
        }
        assert(!old(self)@.channels.contains_key(channel.0) ==> self@ =~= old(self)@);
    }

    /// Queues CLOSE on the channel's lane.
    pub fn park_close(&mut self, channel: ChannelId)
        ensures
            final(self).same_keys(*old(self)),
            final(self)@ == (if old(self)@.channels.contains_key(channel.0) {
                old(self)@.with_lane(channel.0, old(self)@.channels[channel.0].park_close())
            } else {
                old(self)@
            }),
    {
        if let Some(mut ch) = self.channels.remove(&channel.0) {
            if !ch.pending_close && !ch.outbound_closed {
                ch.enqueue_ctrl(ChannelCtrlItem::Close);
            }
            let ghost l = ch@;
            self.channels.insert(channel.0, ch);
            assert(self@ =~= old(self)@.with_lane(channel.0, l));
        }
        assert(!old(self)@.channels.contains_key(channel.0) ==> self@ =~= old(self)@);
    }

    /// Drains one lane and sends what leaves it on.
    fn flush_pending_to<G: Fn(&ChannelCtrlItem) -> bool>(
        &mut self,
        writer: Option<&mut PacketWriter>,
        channel: ChannelId,
        gate: &G,
        allow_data: bool,
    ) -> (r: Result<usize, Error>)
        requires
            gate_decides(*gate),
        ensures
            r == old(self)@.flush_lane_result(channel.0, gate_of(*gate), allow_data),
            final(self).same_keys(*old(self)),
            match writer {
                None => final(self)@ == old(self)@.flush_lane(
                    channel.0,
                    gate_of(*gate),
                    allow_data,
                ),
                Some(w) => {
                    &&& old(self)@.channels.contains_key(channel.0) && old(self)@.write.len() == 0
                        ==> {
                        let d = drain::drain(
                            old(self)@.channels[channel.0],
                            gate_of(*gate),
                            allow_data,
                        );
                        &&& final(self)@ == old(self)@.after_drain(channel.0, d)
                        &&& final(w)@ == w@.all(d.packets)
                    }
                    &&& !old(self)@.channels.contains_key(channel.0) || old(self)@.write.len() > 0
                        ==> final(w)@ == w@ && final(self)@ == old(self)@.flush_lane(
                        channel.0,
                        gate_of(*gate),
                        allow_data,
                    )
                },
            },
    {
        match self.channels.remove(&channel.0) {
            None => {
                assert(self@ =~= old(self)@);
                Ok(0)
            },
            Some(mut ch) => {
                let mut out: Vec<Vec<u8>> = Vec::new();
                let ghost d = drain::drain(ch@, gate_of(*gate), allow_data);
                let res = Self::flush_channel_inner(&mut out, &mut ch, gate, allow_data);
                assert(sshbuffer::contents(out@) =~= d.packets);
                // CLOSE has left with the lane: once nothing follows it the
                // channel is gone.
                let gone: bool = res.is_ok() && ch.lane == ChannelLaneState::Closing
                    && ch.pending_data.len() == 0 && !ch.has_pending_ctrl();
                if !gone {
                    self.channels.insert(channel.0, ch);
                }
                assert(self@ =~= old(self)@.after_drain(channel.0, d));
                self.emit(out, writer)?;
                assert(old(self)@.after_drain(channel.0, d).staged_all(d.packets) == old(
                    self,
                )@.flush_lane(channel.0, gate_of(*gate), allow_data));
                match res {
                    Ok(f) => Ok(f.wrote()),
                    Err(e) => Err(e),
                }
            },
        }
    }

    /// Stages one data packet of at most `cap` bytes from the head of a
    /// channel's lane, and nothing that is queued behind it.
    pub fn stage_one_packet(&mut self, channel: ChannelId, cap: u32) -> (r: Result<usize, Error>)
        requires
            old(self)@.channels.contains_key(channel.0) ==> old(
                self,
            )@.channels[channel.0].recipient_maximum_packet_size > 0 && cap <= old(
                self,
            )@.channels[channel.0].recipient_window_size,
        ensures
            final(self).same_keys(*old(self)),
            final(self)@ == old(self)@.packet_staged(channel.0, cap).0,
            r == Ok::<usize, Error>(old(self)@.packet_staged(channel.0, cap).1 as usize),
    {
        match self.channels.remove(&channel.0) {
            None => {
                assert(self@ =~= old(self)@);
                Ok(0)
            },
            Some(mut ch) => {
                let ghost l = ch@;
                let mut out: Vec<Vec<u8>> = Vec::new();
                let window: u32 = ch.recipient_window_size;
                ch.recipient_window_size = cap;
                assert(ch@ =~= (Lane { recipient_window_size: cap, ..l }));
                proof {
                    drain::lemma_one_packet(l, cap);
                    drain::lemma_gather(ch@, l.data[0].1, ch@.packet_cap(), Seq::empty());
                }
                let got = Self::gather_one_data_packet(&mut out, &mut ch);
                ch.recipient_window_size = window - (cap - ch.recipient_window_size);
                let ghost (m, bytes) = l.one_packet(cap);
                assert(ch@ =~= m);
                self.channels.insert(channel.0, ch);
                assert(self@ =~= old(self)@.with_lane(channel.0, m));
                self.emit(out, None)?;
                proof {
                    let ps = sshbuffer::contents(out@);
                    if bytes.len() == 0 {
                        assert(ps =~= Seq::empty());
                        assert(self@ =~= old(self)@.packet_staged(channel.0, cap).0);
                    } else {
                        let p = drain::data_payload(l.recipient_channel, l.data[0].1, bytes);
                        assert(ps =~= seq![p]);
                        assert(seq![p].drop_last() =~= Seq::empty());
                        assert(wire::frames(seq![p]) =~= wire::frame(p)) by {
                            wire::lemma_frames_push(Seq::empty(), p);
                            assert(Seq::<Seq<u8>>::empty().push(p) =~= seq![p]);
                        }
                        assert(self@ =~= old(self)@.packet_staged(channel.0, cap).0);
                    }
                }
                got
            },
        }
    }

    /// Drains one lane with every control item let through.
    fn flush_open_to(
        &mut self,
        writer: Option<&mut PacketWriter>,
        channel: ChannelId,
        allow_data: bool,
    ) -> (r: Result<usize, Error>)
        ensures
            r == old(self)@.flush_lane_result(channel.0, drain::gate_open(), allow_data),
            final(self).same_keys(*old(self)),
            match writer {
                None => final(self)@ == old(self)@.flush_lane(
                    channel.0,
                    drain::gate_open(),
                    allow_data,
                ),
                Some(w) => allow_data ==> final(self)@ == old(self)@.flush_lane_direct(channel.0)
                    && final(w)@ == old(self)@.direct_sink(channel.0, w@),
            },
    {
        let open = |i: &ChannelCtrlItem| -> (b: bool)
            ensures
                b,
            { true };
        assert(gate_of(open) =~= drain::gate_open());
        self.flush_pending_to(writer, channel, &open, allow_data)
    }

    /// Drains a lane into the staging buffer, as far as the peer's window goes.
    /// Returns the application bytes that left.
    pub fn flush_pending(&mut self, channel: ChannelId) -> (r: Result<usize, Error>)
        ensures
            r == old(self)@.flush_lane_result(channel.0, drain::gate_open(), true),
            final(self)@ == old(self)@.flush_lane(channel.0, drain::gate_open(), true),
            final(self).same_keys(*old(self)),
    {
        self.flush_open_to(None, channel, true)
    }

    /// Like [`Encrypted::flush_pending`], with a say on each control item: one
    /// that `gate` refuses stays queued. Without `allow_data` only control
    /// items leave.
    pub fn flush_pending_admitted<G: Fn(&ChannelCtrlItem) -> bool>(
        &mut self,
        channel: ChannelId,
        gate: G,
        allow_data: bool,
    ) -> (r: Result<usize, Error>)
        requires
            gate_decides(gate),
        ensures
            r == old(self)@.flush_lane_result(channel.0, gate_of(gate), allow_data),
            final(self)@ == old(self)@.flush_lane(channel.0, gate_of(gate), allow_data),
            final(self).same_keys(*old(self)),
    {
        self.flush_pending_to(None, channel, &gate, allow_data)
    }

    /// Drains a lane with every control item let through.
    pub fn flush_pending_ungated(&mut self, channel: ChannelId, allow_data: bool) -> (r: Result<
        usize,
        Error,
    >)
        ensures
            r == old(self)@.flush_lane_result(channel.0, drain::gate_open(), allow_data),
            final(self)@ == old(self)@.flush_lane(channel.0, drain::gate_open(), allow_data),
            final(self).same_keys(*old(self)),
    {
        self.flush_open_to(None, channel, allow_data)
    }

    /// Drains a lane straight into the packet writer, or behind what is staged.
    pub fn flush_pending_with_writer(
        &mut self,
        writer: &mut PacketWriter,
        channel: ChannelId,
    ) -> (r: Result<usize, Error>)
        ensures
            r == old(self)@.flush_lane_result(channel.0, drain::gate_open(), true),
            final(self)@ == old(self)@.flush_lane_direct(channel.0),
            final(writer)@ == old(self)@.direct_sink(channel.0, old(writer)@),
            final(self).same_keys(*old(self)),
    {
        self.flush_open_to(Some(writer), channel, true)
    }

    /// Queues EOF, and lets it out unless data is queued before it.
    pub fn eof(&mut self, channel: ChannelId) -> (r: Result<(), Error>)
        ensures
            final(self)@ == old(self)@.fence(
                channel.0,
                old(self)@.channels[channel.0].park_eof(),
            ),
            r is Ok,
            final(self).same_keys(*old(self)),
    {
        self.park_eof(channel);
        if !self.has_pending_data(channel) {
            proof {
                if self@.channels.contains_key(channel.0) {
                    drain::lemma_no_data_not_stuck(
                        self@.channels[channel.0],
                        drain::gate_open(),
                        true,
                    );
                }
            }
            let _ = self.flush_pending(channel)?;
        }
        Ok(())
    }

    /// Queues CLOSE, and lets it out unless data is queued before it.
    pub fn close(&mut self, channel: ChannelId) -> (r: Result<(), Error>)
        ensures
            final(self)@ == old(self)@.fence(
                channel.0,
                old(self)@.channels[channel.0].park_close(),
            ),
            r is Ok,
            final(self).same_keys(*old(self)),
    {
        self.park_close(channel);
        if !self.has_pending_data(channel) {
            proof {
                if self@.channels.contains_key(channel.0) {
                    drain::lemma_no_data_not_stuck(
                        self@.channels[channel.0],
                        drain::gate_open(),
                        true,
                    );
                }
            }
            let _ = self.flush_pending(channel)?;
        }
        Ok(())
    }

    /// Drops whatever is not framed, stages the one CLOSE that is still owed
    /// and forgets the channel. On a channel that is gone it does nothing.
    pub fn close_discarding_pending(&mut self, channel: ChannelId) -> (r: Result<
        StopDiscardStats,
        Error,
    >)
        ensures
            r == Ok::<StopDiscardStats, Error>(old(self)@.discard_stats(channel.0)),
            final(self)@ == old(self)@.discard(channel.0),
            final(self).same_keys(*old(self)),
    {
        match self.channels.remove(&channel.0) {
            None => {
                assert(self@ =~= old(self)@);
                Ok(
                    StopDiscardStats {
                        discarded_items: 0,
                        discarded_bytes: 0,
                        already_gone: true,
                    },
                )
            },
            Some(mut c) => {
                let ghost l = c@;
                let closed: bool = c.outbound_closed;
                let stats = c.stop_discard_unframed();
                if !closed {
                    let to: u32 = c.recipient_channel;
                    let mut body: Vec<u8> = Vec::new();
                    body.push(msg::CHANNEL_CLOSE);
                    put_u32(&mut body, to)?;
                    assert(body@ =~= drain::ctrl_payload(to, Ctrl::Close));
                    stage(&mut self.write, body.as_slice());
                }
                assert(self@ =~= old(self)@.discard(channel.0));
                Ok(stats)
            },
        }
    }

    /// How much the peer may still send on a channel.
    pub fn sender_window_size(&self, channel: ChannelId) -> (r: usize)
        ensures
            r == self@.sender_window(channel.0),
    {
        if let Some(ch) = self.channels.get(&channel.0) {
            ch.sender_window_size as usize
        } else {
            0
        }
    }

    /// Charges received bytes to the channel's inbound window. A length beyond
    /// the window is ignored.
    pub fn consume_recv_window(&mut self, channel: ChannelId, len: usize)
        ensures
            final(self).same_keys(*old(self)),
            final(self)@ == old(self)@.consumed(channel.0, len as nat),
    {
        if let Some(mut ch) = self.channels.remove(&channel.0) {
            if len <= ch.sender_window_size as usize {
                ch.sender_window_size = ch.sender_window_size - len as u32;
            }
            self.channels.insert(channel.0, ch);
        }
        assert(self@ =~= (if old(self)@.channels.contains_key(channel.0) && len <= old(
            self,
        )@.channels[channel.0].sender_window_size {
            let l = old(self)@.channels[channel.0];
            old(self)@.with_lane(
                channel.0,
                Lane { sender_window_size: (l.sender_window_size - (len as u32)) as u32, ..l },
            )
        } else {
            old(self)@
        }));
    }

    /// Stages a WINDOW_ADJUST for a channel and sets its inbound window.
    fn stage_adjust(&mut self, id: u32, delta: u32, window: u32) -> (r: Result<(), Error>)
        requires
            old(self)@.channels.contains_key(id),
        ensures
            r is Ok,
            final(self)@ == old(self)@.adjusted(id, delta, window),
            final(self).same_keys(*old(self)),
    {
        if let Some(mut ch) = self.channels.remove(&id) {
            let mut body: Vec<u8> = Vec::new();
            body.push(msg::CHANNEL_WINDOW_ADJUST);
            put_u32(&mut body, ch.recipient_channel)?;
            put_u32(&mut body, delta)?;
            assert(body@ =~= seq![msg::CHANNEL_WINDOW_ADJUST] + wire::be32(ch.recipient_channel)
                + wire::be32(delta));
            stage(&mut self.write, body.as_slice());
            ch.sender_window_size = window;
            self.channels.insert(id, ch);
        }
        assert(self@ =~= old(self)@.adjusted(id, delta, window));
        Ok(())
    }

    /// Tops the channel's inbound window up to what `target` leaves beside the
    /// `undelivered` bytes, once less than half of that is left. Tells whether
    /// a WINDOW_ADJUST was staged.
    pub fn maybe_grant_recv_window(
        &mut self,
        channel: ChannelId,
        target: u32,
        undelivered: u32,
    ) -> (r: Result<bool, Error>)
        ensures
            r == Ok::<bool, Error>(old(self)@.grant_due(channel.0, target, undelivered)),
            final(self)@ == old(self)@.grant(channel.0, target, undelivered),
            final(self).same_keys(*old(self)),
    {
        let ceiling: u32 = target.saturating_sub(undelivered);
        let due: Option<u32> = match self.channels.get(&channel.0) {
            Some(ch) => if !ch.outbound_closed && ch.sender_window_size < ceiling / 2 {
                Some(ceiling - ch.sender_window_size)
            } else {
                None
            },
            None => None,
        };
        match due {
            Some(delta) => {
                self.stage_adjust(channel.0, delta, ceiling)?;
                Ok(true)
            },
            None => Ok(false),
        }
    }

    /// Stages a WINDOW_ADJUST by `delta` and sets the inbound window to `ceiling`.
    pub fn emit_window_adjust(&mut self, channel: ChannelId, delta: u32, ceiling: u32) -> (r:
        Result<bool, Error>)
        ensures
            r == Ok::<bool, Error>(
                old(self)@.channels.contains_key(channel.0)
                    && !old(self)@.channels[channel.0].outbound_closed,
            ),
            final(self)@ == (if r == Ok::<bool, Error>(true) {
                old(self)@.adjusted(channel.0, delta, ceiling)
            } else {
                old(self)@
            }),
            final(self).same_keys(*old(self)),
    {
        let live: bool = match self.channels.get(&channel.0) {
            Some(ch) => !ch.outbound_closed,
            None => false,
        };
        if live {
            self.stage_adjust(channel.0, delta, ceiling)?;
        }
        Ok(live)
    }

    /// Drains every lane into the staging buffer, in the order of the channel
    /// numbers, until one is stuck.
    pub fn flush_all_pending(&mut self) -> (r: Result<(), Error>)
        ensures
            ({
                let ids = listing::listing(old(self)@.channels.dom());
                &&& listing::is_listing(ids, old(self)@.channels.dom())
                &&& final(self)@ == old(self)@.flush_lanes(ids)
                &&& r == old(self)@.flush_lanes_result(ids)
            }),
            final(self).same_keys(*old(self)),
    {
        let ids: Vec<u32> = sorted_keys(&self.channels);
        assert(self.channels@.dom() =~= self@.channels.dom());
        let ghost s0 = self@;
        let mut i: usize = 0;
        while i < ids.len()
            invariant
                i <= ids@.len(),
                s0 == old(self)@,
                self@ == s0.flush_lanes(ids@.take(i as int)),
                s0.flush_lanes_result(ids@.take(i as int)) is Ok,
                self.same_keys(*old(self)),
                ids@ == listing::listing(s0.channels.dom()),
                listing::is_listing(ids@, s0.channels.dom()),
            decreases ids@.len() - i,
        {
            let ghost q = ids@.take(i + 1);
            assert(q.drop_last() =~= ids@.take(i as int));
            let res = self.flush_pending(ChannelId(ids[i]));
            if let Err(e) = res {
                proof {
                    lemma_flush_lanes_err(s0, ids@, i as int);
                }
                return Err(e);
            }
            i = i + 1;
        }
        assert(ids@.take(i as int) =~= ids@);
        Ok(())
    }

    /// Drains every lane, straight into the packet writer as long as nothing
    /// is staged, until one is stuck.
    pub fn flush_all_pending_with_writer(&mut self, writer: &mut PacketWriter) -> (r: Result<
        (),
        Error,
    >)
        ensures
            ({
                let ids = listing::listing(old(self)@.channels.dom());
                let (s, w, res) = old(self)@.flush_lanes_direct(ids, old(writer)@);
                &&& final(self)@ == s
                &&& final(writer)@ == w
                &&& r == res
            }),
            final(self).same_keys(*old(self)),
    {
        let ids: Vec<u32> = sorted_keys(&self.channels);
        assert(self.channels@.dom() =~= self@.channels.dom());
        let ghost s0 = self@;
        let ghost w0 = writer@;
        let mut i: usize = 0;
        while i < ids.len()
            invariant
                i <= ids@.len(),
                s0 == old(self)@,
                w0 == old(writer)@,
                (self@, writer@, Ok::<(), Error>(())) == s0.flush_lanes_direct(
                    ids@.take(i as int),
                    w0,
                ),
                self.same_keys(*old(self)),
                ids@ == listing::listing(s0.channels.dom()),
            decreases ids@.len() - i,
        {
            let ghost q = ids@.take(i + 1);
            assert(q.drop_last() =~= ids@.take(i as int));
            let res = self.flush_pending_with_writer(writer, ChannelId(ids[i]));
            if let Err(e) = res {
                proof {
                    lemma_flush_lanes_direct_err(s0, w0, ids@, i as int);
                }
                return Err(e);
            }
            i = i + 1;
        }
        assert(ids@.take(i as int) =~= ids@);
        Ok(())
    }

    /// Whether data is queued on a channel; `false` for a channel that is gone.
    pub fn has_pending_data(&self, channel: ChannelId) -> (r: bool)
        ensures
            r == self@.has_data(channel.0),
    {
        match self.channels.get(&channel.0) {
            Some(ch) => ch.pending_data.len() > 0,
            None => false,
        }
    }

    /// Whether data or control is queued on a channel.
    pub fn has_pending_lane(&self, channel: ChannelId) -> (r: bool)
        ensures
            r == self@.has_work(channel.0),
    {
        match self.channels.get(&channel.0) {
            Some(ch) => ch.pending_data.len() > 0 || ch.has_pending_ctrl(),
            None => false,
        }
    }

    /// Data bytes queued on a channel, capped at the largest `usize`; none
    /// where the channel is gone.
    pub fn pending_data_bytes(&self, channel: ChannelId) -> (r: usize)
        ensures
            r == self@.data_bytes(channel.0),
    {
        match self.channels.get(&channel.0) {
            Some(ch) => ch.queued_data_bytes(),
            None => 0,
        }
    }

    /// Whether the channel is still known to the protocol.
    pub fn channel_exists(&self, channel: ChannelId) -> (r: bool)
        ensures
            r == self@.channels.contains_key(channel.0),
    {
        self.channels.contains_key(&channel.0)
    }

    /// How many SUCCESS and FAILURE items wait on all lanes.
    pub fn queued_reply_count(&self) -> (r: usize)
        ensures
            r == wire::sat(self@.reply_count()),
    {
        let ids: Vec<u32> = sorted_keys(&self.channels);
        assert(self.channels@.dom() =~= self@.channels.dom());
        let mut n: usize = 0;
        let mut i: usize = 0;
        while i < ids.len()
            invariant
                i <= ids@.len(),
                listing::is_listing(ids@, self@.channels.dom()),
                n == wire::sat(replies_of(self@.channels, ids@.take(i as int))),
            decreases ids@.len() - i,
        {
            let ghost q = ids@.take(i + 1);
            assert(q.drop_last() =~= ids@.take(i as int));
            assert(ids@.contains(ids@[i as int]));
            if let Some(ch) = self.channels.get(&ids[i]) {
                n = n.saturating_add(ch.queued_reply_count());
            }
            i = i + 1;
        }
        assert(ids@.take(i as int) =~= ids@);
        n
    }

    /// Wire bytes that the SUCCESS and FAILURE items on all lanes reserve.
    pub fn queued_reply_reservation(&self) -> (r: usize)
        ensures
            r == wire::sat(self@.reply_count() * REPLY_RESERVATION as nat),
    {
        proof {
            let n = self@.reply_count();
            assert(n > usize::MAX ==> n * REPLY_RESERVATION > usize::MAX && usize::MAX
                * REPLY_RESERVATION > usize::MAX) by (nonlinear_arith);
        }
        saturating_mul(self.queued_reply_count(), REPLY_RESERVATION)
    }

    /// Queues data; tells whether the lane should be drained now.
    fn queue_data(&mut self, id: u32, buf: Bytes, ext: Option<u32>, is_rekeying: bool) -> (r:
        Result<bool, Error>)
        ensures
            final(self).same_keys(*old(self)),
            ({
                let s = old(self)@;
                let l = s.channels[id];
                if !s.channels.contains_key(id) {
                    final(self)@ == s && r == Ok::<bool, Error>(!is_rekeying)
                } else if !l.confirmed {
                    final(self)@ == s && r == Err::<bool, Error>(Error::WrongChannel)
                } else {
                    final(self)@ == s.with_lane(id, l.enqueue_data(wire::bytes_view(buf), ext))
                        && r == Ok::<bool, Error>(l.takes_data() && !l.busy() && !is_rekeying)
                }
            }),
    {
        match self.channels.remove(&id) {
            None => {
                assert(self@ =~= old(self)@);
                Ok(!is_rekeying)
            },
            Some(mut ch) => {
                if !ch.confirmed {
                    self.channels.insert(id, ch);
                    assert(self@ =~= old(self)@);
                    return Err(Error::WrongChannel);
                }
                let blocked: bool = ch.pending_data.len() > 0 || ch.has_pending_ctrl()
                    || is_rekeying;
                assert(channel::remaining((buf, ext, 0usize)) =~= wire::bytes_view(buf));
                let taken: bool = ch.enqueue_data(buf, ext, 0);
                let ghost l = ch@;
                self.channels.insert(id, ch);
                assert(self@ =~= old(self)@.with_lane(id, l));
                Ok(taken && !blocked)
            },
        }
    }

    /// Sends data on a channel: it is queued, and leaves at once as far as the
    /// peer's window goes, unless something is queued before it or new keys
    /// are on their way. Data after EOF or CLOSE is dropped.
    pub fn data(&mut self, channel: ChannelId, buf0: Bytes, is_rekeying: bool) -> (r: Result<
        (),
        Error,
    >)
        ensures
            r == old(self)@.send_result(channel.0, wire::bytes_view(buf0), None, is_rekeying),
            final(self)@ == old(self)@.send(channel.0, wire::bytes_view(buf0), None, is_rekeying),
            final(self).same_keys(*old(self)),
    {
        let go: bool = self.queue_data(channel.0, buf0, None, is_rekeying)?;
        if go {
            self.flush_pending(channel)?;
        }
        Ok(())
    }

    /// [`Encrypted::data`], draining past an empty staging buffer into `writer`.
    pub fn data_with_writer(
        &mut self,
        writer: &mut PacketWriter,
        channel: ChannelId,
        buf0: Bytes,
        is_rekeying: bool,
    ) -> (r: Result<(), Error>)
        ensures
            r == old(self)@.send_result(channel.0, wire::bytes_view(buf0), None, is_rekeying),
            final(self)@ == old(self)@.send_direct(
                channel.0,
                wire::bytes_view(buf0),
                None,
                is_rekeying,
            ),
            final(writer)@ == old(self)@.send_sink(
                channel.0,
                wire::bytes_view(buf0),
                None,
                is_rekeying,
                old(writer)@,
            ),
            final(self).same_keys(*old(self)),
    {
        let go: bool = self.queue_data(channel.0, buf0, None, is_rekeying)?;
        if go {
            self.flush_pending_with_writer(writer, channel)?;
        }
        Ok(())
    }

    /// Sends data of an extended stream; see [`Encrypted::data`].
    pub fn extended_data(
        &mut self,
        channel: ChannelId,
        ext: u32,
        buf0: Bytes,
        is_rekeying: bool,
    ) -> (r: Result<(), Error>)
        ensures
            r == old(self)@.send_result(channel.0, wire::bytes_view(buf0), Some(ext), is_rekeying),
            final(self)@ == old(self)@.send(
                channel.0,
                wire::bytes_view(buf0),
                Some(ext),
                is_rekeying,
            ),
            final(self).same_keys(*old(self)),
    {
        let go: bool = self.queue_data(channel.0, buf0, Some(ext), is_rekeying)?;
        if go {
            self.flush_pending(channel)?;
        }
        Ok(())
    }

    /// [`Encrypted::extended_data`], draining past an empty staging buffer into
    /// `writer`.
    pub fn extended_data_with_writer(
        &mut self,
        writer: &mut PacketWriter,
        channel: ChannelId,
        ext: u32,
        buf0: Bytes,
        is_rekeying: bool,
    ) -> (r: Result<(), Error>)
        ensures
            r == old(self)@.send_result(channel.0, wire::bytes_view(buf0), Some(ext), is_rekeying),
            final(self)@ == old(self)@.send_direct(
                channel.0,
                wire::bytes_view(buf0),
                Some(ext),
                is_rekeying,
            ),
            final(writer)@ == old(self)@.send_sink(
                channel.0,
                wire::bytes_view(buf0),
                Some(ext),
                is_rekeying,
                old(writer)@,
            ),
            final(self).same_keys(*old(self)),
    {
        let go: bool = self.queue_data(channel.0, buf0, Some(ext), is_rekeying)?;
        if go {
            self.flush_pending_with_writer(writer, channel)?;
        }
        Ok(())
    }

    /// Hands every staged packet to the packet writer and tells whether new
    /// keys are due: because they were asked for, or because enough bytes have
    /// gone out under the old ones.
    pub fn flush(&mut self, limits: &RekeyPolicy, writer: &mut PacketWriter) -> (r: Result<
        bool,
        Error,
    >)
        requires
            old(self)@.wf(),
        ensures
            final(writer)@ == old(writer)@.all(wire::packets(old(self)@.unsent())),
            r == Ok::<bool, Error>(
                !old(self).kex.skip_exchange && (old(self).rekey_wanted || final(writer)@.bytes
                    >= limits.max_bytes),
            ),
            final(self)@ == (Staging {
                write: Seq::empty(),
                cursor: 0,
                rekey_wanted: old(self).rekey_wanted && old(self).kex.skip_exchange,
                ..old(self)@
            }),
            final(self).same_keys(*old(self)),
    {
        let ghost all = wire::packets(self@.unsent());
        let ghost w0 = writer@;
        let ghost mut done: Seq<Seq<u8>> = Seq::empty();
        assert(done + all =~= all);
        while self.write_cursor < bytes_mut_len(&self.write)
            invariant
                wire::framed(self@.unsent()),
                all == done + wire::packets(self@.unsent()),
                writer@ == w0.all(done),
                w0 == old(writer)@,
                *self == (Encrypted { write_cursor: self.write_cursor, ..*old(self) }),
            decreases wire::bytes_mut_view(self.write).len() - self.write_cursor,
        {
            let buf: &[u8] = bytes_mut_as_slice(&self.write);
            let at: usize = self.write_cursor;
            let ghost rest = self@.unsent();
            proof {
                wire::lemma_first_frame(rest);
            }
            let head: &[u8] = &buf[at..buf.len()];
            assert(head@ =~= rest);
            let len: usize = read_u32(head) as usize;
            let packet: &[u8] = &buf[at + 4..at + 4 + len];
            assert(packet@ =~= rest.subrange(4, wire::frame_len(rest)));
            proof {
                sshbuffer::lemma_all_push(w0, done, packet@);
                assert(done.push(packet@) + wire::packets(rest.skip(wire::frame_len(rest)))
                    =~= done + wire::packets(rest)) by {
                    assert(wire::packets(rest) =~= seq![packet@] + wire::packets(
                        rest.skip(wire::frame_len(rest)),
                    ));
                }
                done = done.push(packet@);
            }
            writer.packet_raw(packet)?;
            self.write_cursor = at + 4 + len;
            assert(self@.unsent() =~= rest.skip(wire::frame_len(rest)));
        }
        assert(wire::packets(self@.unsent()) =~= Seq::<Seq<u8>>::empty());
        assert(done =~= all);
        self.write_cursor = 0;
        bytes_mut_clear(&mut self.write);
        if self.kex.skip_exchange {
            return Ok(false);
        }
        let wanted: bool = self.rekey_wanted;
        self.rekey_wanted = false;
        Ok(wanted || writer.buffer().bytes as u64 >= limits.max_bytes)
    }

    /// The next channel number that is free.
    pub fn new_channel_id(&mut self) -> (r: ChannelId)
        requires
            old(self)@.has_room(),
        ensures
            exists|n: nat|
                old(self)@.first_free(n) && r.0 == #[trigger] old(self)@.nth_id(n),
            final(self)@ == (Staging { last_channel_id: r.0, ..old(self)@ }),
            final(self).same_keys(*old(self)),
    {
        let ghost s0 = self@;
        let ghost free = choose|id: u32| !s0.channels.contains_key(id);
        let ghost far: nat = if free > s0.last_channel_id {
            (free - s0.last_channel_id) as nat
        } else {
            (free + 0x1_0000_0000 - s0.last_channel_id) as nat
        };
        assert(s0.nth_id(far) == free);
        let ghost mut n: nat = 1;
        self.last_channel_id = self.last_channel_id.wrapping_add(1);
        assert(self.last_channel_id == s0.nth_id(1));
        while self.channels.contains_key(&self.last_channel_id)
            invariant
                1 <= n <= far,
                !s0.channels.contains_key(s0.nth_id(far)),
                self.last_channel_id == s0.nth_id(n),
                s0 == old(self)@,
                *self == (Encrypted { last_channel_id: self.last_channel_id, ..*old(self) }),
                forall|k: nat| 1 <= k < n ==> s0.channels.contains_key(#[trigger] s0.nth_id(k)),
            decreases far - n,
        {
            self.last_channel_id = self.last_channel_id.wrapping_add(1);
            proof {
                n = n + 1;
            }
        }
        assert(s0.first_free(n));
        ChannelId(self.last_channel_id)
    }

    /// Opens a lane under the next free number, not yet confirmed.
    pub fn new_channel(&mut self, window_size: u32, maxpacket: u32) -> (r: ChannelId)
        requires
            old(self)@.has_room(),
        ensures
            exists|n: nat|
                old(self)@.first_free(n) && r.0 == #[trigger] old(self)@.nth_id(n),
            final(self)@ == (Staging { last_channel_id: r.0, ..old(self)@ }).with_lane(
                r.0,
                Lane::fresh(0, r, 0, window_size, 0, maxpacket, false),
            ),
            final(self).same_keys(*old(self)),
    {
        let id = self.new_channel_id();
        let ch = ChannelParams::new(0, id, 0, window_size, 0, maxpacket, false);
        let ghost l = ch@;
        let ghost s1 = self@;
        self.channels.insert(id.0, ch);
        assert(self@ =~= s1.with_lane(id.0, l));
        id
    }
}

} // verus!
