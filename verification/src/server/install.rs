//! Taking new keys into force: the outbound key through the writer, the
//! inbound key through the reader, and what is left to do once both are in
//! and the peer is done.
use bytes::Bytes;
use vstd::prelude::*;

use crate::common_session::{Common, Enc, Keys, NewKeys};
use crate::listing;
use crate::server::closing;
use crate::server::flush;
use crate::server::reader::{InstallInboundEpoch, Reader, ReaderCmd};
use crate::server::session::{
    App, Install, KexAfterInstall, Peer, PendingKexConflict, PendingKexInstall, PendingKexPhase,
    Phase, Session, SessionKexState,
};
use crate::server::supervisor::{DisconnectCause, RekeyDeadline};
use crate::server::writer;
use crate::server::writer::{OutboundEpoch, TrySendEpochError};
use crate::session::{EncryptedState, Staging};
use crate::sshbuffer;
use crate::sshbuffer::{CipherKey, Compression, PacketSink, Stream};
use crate::wire::bytes_as_slice;

verus! {

broadcast use vstd::std_specs::hash::group_hash_axioms;

/// The inbound half of a key exchange.
#[derive(Clone, Copy, Debug, PartialEq, Eq, Structural)]
pub struct InboundEpochInstall {
    pub cipher: CipherKey,
    pub compression: Compression,
    pub reset_seqn: bool,
}

impl Install {
    /// The outbound key is in, the peer is done, and the inbound key is in or
    /// (without a reader) needs no answer.
    pub open spec fn complete(self, has_reader: bool) -> bool {
        &&& self.phase == Phase::InstallAcked
        &&& self.after is Some
        &&& !has_reader || self.inbound_acked
    }
}

impl Peer {
    /// A complete install closed, and what it leaves to do.
    pub open spec fn finalized(self) -> (Peer, Option<KexAfterInstall>) {
        match self.install {
            Some(p) if p.complete(self.reader is Some) => (
                Peer { install: None, ..self },
                p.after,
            ),
            _ => (self, None),
        }
    }

    /// The payloads sealed here and the key taken into use here, where no
    /// writer runs.
    pub open spec fn installed_here(self, payloads: Seq<Seq<u8>>, epoch: OutboundEpoch) -> Peer {
        let sealed = self.common.sink.all(payloads);
        Peer {
            common: Common {
                sink: PacketSink {
                    cipher: epoch.cipher,
                    compress: if epoch.activate_compress {
                        epoch.outbound_compression.stream()
                    } else {
                        sealed.compress
                    },
                    seqn: if epoch.reset_seqn {
                        0
                    } else {
                        sealed.seqn
                    },
                    ..sealed
                },
                ..self.common
            },
            ..self
        }
    }

    /// An install handed to the writer, where its queue has room, or taken
    /// into use here where none runs. A writer that is gone ends the install.
    #[verifier::opaque]
    pub open spec fn install_handed(
        self,
        p: Install,
        payloads: Seq<Seq<u8>>,
        epoch: OutboundEpoch,
    ) -> Peer {
        let d = self.need_dropped();
        match d.link {
            None => (Peer {
                install: Some(Install { phase: Phase::InstallAcked, ..p }),
                ..d.installed_here(payloads, epoch)
            }).finalized().0,
            Some(l) => {
                let b = Peer { link: Some(l.offered_batch(payloads, epoch)), ..d };
                (if l.force_next_bulk_full || (!l.closed && !l.room()) {
                    b
                } else if l.closed {
                    (Peer { install: None, ..b }).caused(DisconnectCause::PeerError)
                } else {
                    Peer { install: Some(Install { phase: Phase::WaitingAck, ..p }), ..b }
                }).needed()
            },
        }
    }

    /// An install that waits to be submitted, submitted: behind everything
    /// that is parked, and only where the writer's queue has room. A writer
    /// that is gone ends the install.
    #[verifier::opaque]
    pub open spec fn advanced(self) -> Peer {
        match self.install {
            Some(p) => match p.phase {
                Phase::NeedSubmit { payloads, epoch } => {
                    let (a, r) = self.retried();
                    if r is Err {
                        (Peer { install: None, ..a }).caused(DisconnectCause::PeerError)
                    } else if a.parked.q.len() > 0 {
                        a
                    } else {
                        a.install_handed(p, payloads, epoch)
                    }
                },
                _ => self,
            },
            None => self,
        }
    }

    /// An install opened; a second one is refused and ends the session.
    pub open spec fn registered(
        self,
        payloads: Seq<Seq<u8>>,
        epoch: OutboundEpoch,
        after: Option<KexAfterInstall>,
    ) -> Peer {
        if self.install is Some {
            self.caused(DisconnectCause::PeerError)
        } else {
            (Peer {
                install: Some(
                    Install {
                        generation: epoch.generation,
                        after,
                        phase: Phase::NeedSubmit { payloads, epoch },
                        inbound_acked: false,
                        inbound_sent: false,
                    },
                ),
                ..self
            }).advanced()
        }
    }

    /// The writer answered.
    pub open spec fn outbound_acked(self, generation: u64) -> (Peer, Option<KexAfterInstall>) {
        match self.install {
            Some(p) if p.generation == generation && p.phase == Phase::WaitingAck => (Peer {
                install: Some(Install { phase: Phase::InstallAcked, ..p }),
                ..self
            }).needed().finalized(),
            _ => (self, None),
        }
    }

    /// The reader answered.
    pub open spec fn inbound_acked(self, generation: u64) -> (Peer, Option<KexAfterInstall>) {
        match self.install {
            Some(p) if p.generation == generation => (Peer {
                install: Some(Install { inbound_acked: true, ..p }),
                ..self
            }).needed().finalized(),
            _ => (self, None),
        }
    }

    /// The peer is done. Done twice ends the session; without an open install
    /// nothing is left to wait for.
    pub open spec fn peer_done(self, after: KexAfterInstall) -> (Peer, Option<KexAfterInstall>) {
        match self.install {
            Some(p) => if p.after is Some {
                (self.caused(DisconnectCause::PeerError), None)
            } else {
                (Peer { install: Some(Install { after: Some(after), ..p }), ..self }).finalized()
            },
            None => (self, Some(after)),
        }
    }

    /// The inbound key handed to the reader, or taken into use here where none
    /// runs; once per install. A reader that cannot take it ends the session.
    pub open spec fn inbound_pushed(
        self,
        generation: u64,
        half: InboundEpochInstall,
        activate: bool,
    ) -> (Peer, bool) {
        let sent = self.install matches Some(p) && p.inbound_sent;
        if sent {
            (self, true)
        } else {
            let mark = |acked: bool|
                match self.install {
                    Some(p) => Some(Install { inbound_sent: true, inbound_acked: acked, ..p }),
                    None => None,
                };
            match self.reader {
                None => (
                    Peer {
                        install: mark(true),
                        common: Common {
                            remote_to_local: half.cipher,
                            enc: match self.common.enc {
                                Some(e) if activate => Some(
                                    Enc {
                                        keys: Keys {
                                            decompress: half.compression.stream(),
                                            ..e.keys
                                        },
                                        ..e
                                    },
                                ),
                                other => other,
                            },
                            ..self.common
                        },
                        ..self
                    },
                    true,
                ),
                Some(r) => if r.closed || r.installing {
                    (self.caused(DisconnectCause::PeerError), false)
                } else {
                    (
                        Peer {
                            install: mark(false),
                            reader: Some(
                                (Reader { installing: true, ..r }).told(
                                    ReaderCmd::Install(
                                        InstallInboundEpoch {
                                            generation,
                                            cipher: half.cipher,
                                            compression: half.compression,
                                            activate_decompress: activate,
                                            reset_seqn: half.reset_seqn || self.common.strict_kex,
                                        },
                                    ),
                                ),
                            ),
                            ..self
                        },
                        true,
                    )
                },
            }
        }
    }

    /// The decompressor of an inbound key starts with it, unless it waits for
    /// an authentication that is still to come.
    pub open spec fn activates(self, c: Compression) -> bool {
        c != Compression::ZlibDeferred || (self.common.enc matches Some(e)
            && e.keys.state.spec_post_auth())
    }

    /// The inbound half of a key exchange, where there is one, handed over; its
    /// decompressor starts with it where it may.
    pub open spec fn half_pushed(self, generation: u64, half: Option<InboundEpochInstall>) -> (
        Peer,
        bool,
    ) {
        match half {
            Some(h) => self.inbound_pushed(generation, h, self.activates(h.compression)),
            None => (self, true),
        }
    }

    /// An install that cannot complete any more dropped.
    pub open spec fn install_failed(self) -> Peer {
        if self.install is Some {
            (Peer { install: None, ..self }).caused(DisconnectCause::PeerError).needed()
        } else {
            self
        }
    }

    /// No key exchange under way, and no deadline.
    pub open spec fn idle(self) -> Peer {
        Peer {
            kex: SessionKexState::Idle,
            rekey_deadline: RekeyDeadline { generation: None, deadline_at: None },
            ..self
        }
    }

    /// What a completed install leaves to do, done. No key changes here.
    pub open spec fn after_install(self, after: KexAfterInstall) -> Peer {
        match after {
            KexAfterInstall::RekeyComplete => match self.common.enc {
                Some(e) => self.with_st(
                    e.st.flush_lanes(listing::listing(e.st.channels.dom())),
                ).idle(),
                None => self.idle(),
            },
            KexAfterInstall::InitialComplete => self.idle().ext_info_sent(),
        }
    }

    /// What a later key exchange agreed on, in force for what comes in. The
    /// keys themselves are with the reader and the writer.
    pub open spec fn rekey_committed(self, n: NewKeys) -> Peer {
        Peer {
            common: Common {
                enc: match self.common.enc {
                    Some(e) => Some(
                        Enc {
                            keys: Keys {
                                exchange: Some(n.exchange),
                                kex: n.kex,
                                key: n.key,
                                client_mac: n.names.client_mac,
                                server_mac: n.names.server_mac,
                                last_rekey: self.now,
                                client_compression: n.names.client_compression,
                                server_compression: n.names.server_compression,
                                decompress: if self.activates(n.names.client_compression) {
                                    n.names.client_compression.stream()
                                } else {
                                    Stream::Off
                                },
                                ..e.keys
                            },
                            ..e
                        },
                    ),
                    None => None,
                },
                strict_kex: self.common.strict_kex || n.names.strict_kex,
                ..self.common
            },
            ..self
        }
    }

    /// A KEXINIT of the peer has to wait: the exchange under way waits for
    /// something else.
    pub open spec fn parks_kexinit(self) -> bool {
        self.install matches Some(p) && (p.after is Some || p.phase == Phase::InstallAcked)
    }
}

impl App {
    /// A packet kept for later, behind the others.
    pub open spec fn read_kept(self, p: Seq<u8>) -> App {
        App {
            pending_reads: self.pending_reads.push(p),
            pending_len: if self.pending_len + (p.len() as u32) > u32::MAX {
                u32::MAX
            } else {
                (self.pending_len + (p.len() as u32)) as u32
            },
            ..self
        }
    }

    /// Several packets kept for later, one after the other.
    pub open spec fn reads_kept(self, ps: Seq<Seq<u8>>) -> App
        decreases ps.len(),
    {
        if ps.len() == 0 {
            self
        } else {
            self.reads_kept(ps.drop_last()).read_kept(ps.last())
        }
    }

    /// The packets that were kept for later, as they are handed out.
    pub open spec fn reads_given(self) -> Seq<Seq<u8>> {
        self.pending_reads
    }

    /// The packets that were kept for later taken out.
    pub open spec fn reads_taken(self) -> App {
        App { pending_reads: Seq::empty(), pending_len: 0, ..self }
    }
}

/// The outbound half of a key exchange's outcome, on the server's side: the
/// key, the compression and whether sequence numbers start over.
pub open spec fn outbound_half(n: NewKeys) -> (CipherKey, Compression, bool) {
    (n.cipher.local_to_remote, n.names.server_compression, n.names.strict_kex)
}

/// Draining lanes keeps what is staged readable.
pub proof fn lemma_flush_lanes_ok(s: Staging, ids: Seq<u32>)
    requires
        s.ok(),
    ensures
        s.flush_lanes(ids).ok(),
    decreases ids.len(),
{
    if ids.len() > 0 {
        lemma_flush_lanes_ok(s, ids.drop_last());
        closing::lemma_flush_lane_ok(s.flush_lanes(ids.drop_last()), ids.last(), true);
    }
}

impl Session {
    /// Closes a complete install and says what it leaves to do.
    fn try_finalize_pending_kex_install(&mut self) -> (r: Option<KexAfterInstall>)
        ensures
            final(self).app() == old(self).app(),
            (final(self).peer(), r) == old(self).peer().finalized(),
    {
        let has_reader: bool = self.reader.is_some();
        let mut after: Option<KexAfterInstall> = None;
        if let Some(p) = &self.pending_kex_install {
            let acked: bool = match p.phase {
                PendingKexPhase::InstallAcked => true,
                _ => false,
            };
            if acked && p.after.is_some() && (!has_reader || p.inbound_acked) {
                after = p.after;
            }
        }
        if after.is_some() {
            self.pending_kex_install = None;
        }
        after
    }

    /// Seals the payloads here and takes the key into use here.
    fn install_here(&mut self, payloads: &Vec<Bytes>, epoch: OutboundEpoch)
        ensures
            final(self).app() == old(self).app(),
            final(self).peer() == old(self).peer().installed_here(
                writer::payloads_view(payloads@),
                epoch,
            ),
    {
        let ghost ps = writer::payloads_view(payloads@);
        let ghost w0 = self.common.packet_writer@;
        let mut i: usize = 0;
        assert(ps.take(0) =~= Seq::empty());
        while i < payloads.len()
            invariant
                i <= payloads@.len(),
                ps == writer::payloads_view(payloads@),
                self.app() == old(self).app(),
                self.common.packet_writer@ == w0.all(ps.take(i as int)),
                self.peer() == (Peer {
                    common: Common {
                        sink: self.common.packet_writer@,
                        ..old(self).peer().common
                    },
                    ..old(self).peer()
                }),
            decreases payloads@.len() - i,
        {
            let _ = self.common.packet_writer.packet_raw(bytes_as_slice(&payloads[i]));
            proof {
                sshbuffer::lemma_all_push(w0, ps.take(i as int), ps[i as int]);
                assert(ps.take(i as int).push(ps[i as int]) =~= ps.take(i + 1));
            }
            i = i + 1;
        }
        assert(ps.take(i as int) =~= ps);
        self.common.packet_writer.set_cipher(epoch.cipher);
        if epoch.activate_compress {
            epoch.outbound_compression.init_compress(&mut self.common.packet_writer.compress);
        }
        if epoch.reset_seqn {
            self.common.packet_writer.reset_seqn();
        }
    }

    /// Submits an install that waits to be submitted, as far as that is
    /// possible now.
    pub fn try_advance_pending_kex_install(&mut self)
        ensures
            final(self).app() == old(self).app(),
            final(self).peer() == old(self).peer().advanced(),
            old(self).peer().ok() ==> final(self).peer().ok(),
    {
        proof {
            reveal(Peer::advanced);
            flush::lemma_retried_keeps(self.peer());
        }
        let waits: bool = match &self.pending_kex_install {
            Some(p) => match p.phase {
                PendingKexPhase::NeedSubmit { .. } => true,
                _ => false,
            },
            None => false,
        };
        if !waits {
            return ;
        }
        if self.retry_pending_outbound().is_err() {
            self.pending_kex_install = None;
            self.stage_cause(DisconnectCause::PeerError);
            return ;
        }
        if !self.pending_outbound.is_empty() {
            return ;
        }
        self.hand_install();
    }

    /// Hands an install that waits to be submitted to the writer, or takes it
    /// into use here where none runs.
    fn hand_install(&mut self)
        ensures
            final(self).app() == old(self).app(),
            old(self).peer().install matches Some(p) ==> (p.phase matches Phase::NeedSubmit {
                payloads,
                epoch,
            } ==> {
                &&& final(self).peer() == old(self).peer().install_handed(p, payloads, epoch)
                &&& final(self).peer().common.enc == old(self).peer().common.enc
            }),
    {
        proof {
            reveal(Peer::install_handed);
        }
        let mut taken: Option<PendingKexInstall> = None;
        std::mem::swap(&mut self.pending_kex_install, &mut taken);
        if let Some(p) = taken {
            let generation: u64 = p.generation;
            let after = p.after;
            let inbound_acked: bool = p.inbound_acked;
            let inbound_sent: bool = p.inbound_sent;
            if let PendingKexPhase::NeedSubmit { payloads, epoch } = p.phase {
                self.note_need_dropped();
                if self.writer.is_none() {
                    self.install_here(&payloads, epoch);
                    self.pending_kex_install =
                    Some(
                        PendingKexInstall {
                            generation,
                            after,
                            phase: PendingKexPhase::InstallAcked,
                            inbound_acked,
                            inbound_sent,
                        },
                    );
                    let _ = self.try_finalize_pending_kex_install();
                } else {
                    self.submit_install(
                        payloads,
                        epoch,
                        generation,
                        after,
                        inbound_acked,
                        inbound_sent,
                    );
                }
            }
        }
    }

    /// Offers an install to the writer.
    fn submit_install(
        &mut self,
        payloads: Vec<Bytes>,
        epoch: OutboundEpoch,
        generation: u64,
        after: Option<KexAfterInstall>,
        inbound_acked: bool,
        inbound_sent: bool,
    )
        requires
            old(self).peer().link is Some,
        ensures
            final(self).app() == old(self).app(),
            ({
                let s = old(self).peer();
                let l = s.link->0;
                let ps = writer::payloads_view(payloads@);
                let b = Peer { link: Some(l.offered_batch(ps, epoch)), ..s };
                let p = |phase: Phase|
                    Some(Install { generation, after, phase, inbound_acked, inbound_sent });
                final(self).peer() == (if l.force_next_bulk_full || (!l.closed && !l.room()) {
                    Peer { install: p(Phase::NeedSubmit { payloads: ps, epoch }), ..b }
                } else if l.closed {
                    (Peer { install: None, ..b }).caused(DisconnectCause::PeerError)
                } else {
                    Peer { install: p(Phase::WaitingAck), ..b }
                }).needed()
            }),
    {
        let sent = match &mut self.writer {
            Some(w) => w.try_seal_batch_and_install(payloads, epoch),
            None => Err(TrySendEpochError::Closed),
        };
        match sent {
            Ok(_) => {
                self.pending_kex_install =
                Some(
                    PendingKexInstall {
                        generation,
                        after,
                        phase: PendingKexPhase::WaitingAck,
                        inbound_acked,
                        inbound_sent,
                    },
                );
            },
            Err(TrySendEpochError::Full { payloads, epoch }) => {
                self.pending_kex_install =
                Some(
                    PendingKexInstall {
                        generation,
                        after,
                        phase: PendingKexPhase::NeedSubmit { payloads, epoch },
                        inbound_acked,
                        inbound_sent,
                    },
                );
            },
            Err(TrySendEpochError::Closed) => {
                self.pending_kex_install = None;
                self.stage_cause(DisconnectCause::PeerError);
            },
        }
        self.note_needed();
    }

    /// Opens an install: the payloads are to be sealed under the key in force
    /// and the new key taken into use right behind them. A second install is
    /// refused.
    pub fn register_seal_batch_and_install(
        &mut self,
        payloads: Vec<Bytes>,
        epoch: OutboundEpoch,
        after: Option<KexAfterInstall>,
    ) -> (r: Result<(), PendingKexConflict>)
        ensures
            final(self).app() == old(self).app(),
            r is Ok <==> old(self).peer().install is None,
            final(self).peer() == old(self).peer().registered(
                writer::payloads_view(payloads@),
                epoch,
                after,
            ),
            old(self).peer().ok() ==> final(self).peer().ok(),
    {
        if self.pending_kex_install.is_some() {
            self.stage_cause(DisconnectCause::PeerError);
            return Err(PendingKexConflict);
        }
        self.pending_kex_install =
        Some(
            PendingKexInstall {
                generation: epoch.generation,
                after,
                phase: PendingKexPhase::NeedSubmit { payloads, epoch },
                inbound_acked: false,
                inbound_sent: false,
            },
        );
        self.try_advance_pending_kex_install();
        Ok(())
    }

    /// The reader has taken an inbound key into use.
    pub fn on_install_ack_inbound(&mut self, generation: u64) -> (r: Option<KexAfterInstall>)
        ensures
            final(self).app() == old(self).app(),
            (final(self).peer(), r) == old(self).peer().inbound_acked(generation),
    {
        match &mut self.pending_kex_install {
            None => None,
            Some(p) => {
                if p.generation != generation {
                    return None;
                }
                p.inbound_acked = true;
                self.note_needed();
                self.try_finalize_pending_kex_install()
            },
        }
    }

    /// The writer has taken an outbound key into use.
    pub fn on_install_ack_outbound(&mut self, generation: u64) -> (r: Option<KexAfterInstall>)
        ensures
            final(self).app() == old(self).app(),
            (final(self).peer(), r) == old(self).peer().outbound_acked(generation),
    {
        match &mut self.pending_kex_install {
            None => None,
            Some(p) => {
                if p.generation != generation {
                    return None;
                }
                let waiting: bool = match p.phase {
                    PendingKexPhase::WaitingAck => true,
                    _ => false,
                };
                if !waiting {
                    return None;
                }
                p.phase = PendingKexPhase::InstallAcked;
                self.note_needed();
                self.try_finalize_pending_kex_install()
            },
        }
    }

    /// The peer is done with the key exchange.
    pub fn merge_peer_done_into_pending(&mut self, after: KexAfterInstall) -> (r: Option<
        KexAfterInstall,
    >)
        ensures
            final(self).app() == old(self).app(),
            (final(self).peer(), r) == old(self).peer().peer_done(after),
    {
        match &mut self.pending_kex_install {
            None => Some(after),
            Some(p) => {
                if p.after.is_some() {
                    self.stage_cause(DisconnectCause::PeerError);
                    return None;
                }
                p.after = Some(after);
                self.try_finalize_pending_kex_install()
            },
        }
    }

    /// Drops an install that cannot complete any more.
    pub fn fail_pending_kex_install(&mut self)
        ensures
            final(self).app() == old(self).app(),
            final(self).peer() == old(self).peer().install_failed(),
    {
        if self.pending_kex_install.is_some() {
            self.pending_kex_install = None;
            self.stage_cause(DisconnectCause::PeerError);
            self.note_needed();
        }
    }

    /// Hands the inbound key to the reader, or takes it into use here where
    /// none runs. Says whether that went well.
    pub fn try_push_inbound_epoch(
        &mut self,
        generation: u64,
        half: InboundEpochInstall,
        activate_decompress: bool,
    ) -> (r: Result<(), ()>)
        ensures
            final(self).app() == old(self).app(),
            (final(self).peer(), r is Ok) == old(self).peer().inbound_pushed(
                generation,
                half,
                activate_decompress,
            ),
    {
        if let Some(p) = &self.pending_kex_install {
            if p.inbound_sent {
                return Ok(());
            }
        }
        let epoch = InstallInboundEpoch {
            generation,
            cipher: half.cipher,
            compression: half.compression,
            activate_decompress,
            reset_seqn: half.reset_seqn || self.common.strict_kex,
        };
        let acked: bool = match &mut self.reader {
            None => {
                self.common.remote_to_local = epoch.cipher;
                if let Some(enc) = &mut self.common.encrypted {
                    if epoch.activate_decompress {
                        epoch.compression.init_decompress(&mut enc.decompress);
                    }
                }
                true
            },
            Some(reader) => {
                if reader.try_install_inbound(epoch).is_err() {
                    self.stage_cause(DisconnectCause::PeerError);
                    return Err(());
                }
                false
            },
        };
        if let Some(p) = &mut self.pending_kex_install {
            p.inbound_sent = true;
            p.inbound_acked = acked;
        }
        Ok(())
    }

    /// Hands over the inbound half that a key exchange has ready, if it has
    /// one.
    pub fn push_inbound_from_kex(
        &mut self,
        half: Option<InboundEpochInstall>,
        generation: u64,
    ) -> (r: Result<(), ()>)
        ensures
            final(self).app() == old(self).app(),
            (final(self).peer(), r is Ok) == old(self).peer().half_pushed(generation, half),
    {
        match half {
            None => Ok(()),
            Some(h) => {
                let activate: bool = self.activates_inbound(h.compression);
                self.try_push_inbound_epoch(generation, h, activate)
            },
        }
    }

    /// Hands over the inbound half at the end of a key exchange, unless that
    /// has happened before.
    pub fn push_inbound_from_newkeys_if_needed(
        &mut self,
        half: InboundEpochInstall,
        generation: u64,
    ) -> (r: Result<(), ()>)
        ensures
            final(self).app() == old(self).app(),
            (final(self).peer(), r is Ok) == old(self).peer().half_pushed(generation, Some(half)),
    {
        if let Some(p) = &self.pending_kex_install {
            if p.inbound_sent {
                return Ok(());
            }
        }
        let activate: bool = self.activates_inbound(half.compression);
        self.try_push_inbound_epoch(generation, half, activate)
    }

    /// Whether an inbound decompressor starts with its key.
    fn activates_inbound(&self, c: Compression) -> (r: bool)
        ensures
            r == self.peer().activates(c),
    {
        let post_auth: bool = match &self.common.encrypted {
            Some(enc) => enc.state.post_auth(),
            None => false,
        };
        !c.is_deferred() || post_auth
    }

    /// Does what a completed install leaves to do. Channels are flushed here,
    /// so that their data is sealed under the new key.
    pub fn apply_kex_after_install(&mut self, after: KexAfterInstall)
        requires
            old(self).peer().ok(),
        ensures
            final(self).app() == old(self).app(),
            final(self).peer() == old(self).peer().after_install(after),
            after == KexAfterInstall::RekeyComplete || old(self).peer().algs_fit() ==> final(
                self).peer().ok(),
            final(self).peer().sig_algs == old(self).peer().sig_algs,
    {
        match after {
            KexAfterInstall::RekeyComplete => {
                if let Some(enc) = &mut self.common.encrypted {
                    proof {
                        lemma_flush_lanes_ok(enc@, listing::listing(enc@.channels.dom()));
                    }
                    let _ = enc.flush_all_pending();
                }
                self.kex = SessionKexState::Idle;
                self.clear_rekey_deadline();
            },
            KexAfterInstall::InitialComplete => {
                self.kex = SessionKexState::Idle;
                self.clear_rekey_deadline();
                let _ = self.maybe_send_ext_info();
            },
        }
    }

    /// Takes what a later key exchange agreed on into force for what comes in.
    pub fn commit_rekey_inbound(&mut self, newkeys: NewKeys)
        ensures
            final(self).app() == old(self).app(),
            final(self).peer() == old(self).peer().rekey_committed(newkeys),
            old(self).peer().ok() ==> final(self).peer().ok(),
    {
        let activate: bool = self.activates_inbound(newkeys.names.client_compression);
        let strict: bool = newkeys.names.strict_kex;
        if let Some(enc) = &mut self.common.encrypted {
            enc.exchange = Some(newkeys.exchange);
            enc.kex = newkeys.kex;
            enc.key = newkeys.key;
            enc.client_mac = newkeys.names.client_mac;
            enc.server_mac = newkeys.names.server_mac;
            enc.last_rekey = self.now;
            enc.client_compression = newkeys.names.client_compression;
            enc.server_compression = newkeys.names.server_compression;
            if activate {
                enc.client_compression.init_decompress(&mut enc.decompress);
            } else {
                enc.decompress = Stream::Off;
            }
        }
        self.common.strict_kex = self.common.strict_kex || strict;
    }

    /// Takes what the first key exchange agreed on into force for what comes
    /// in.
    pub fn commit_initial_encrypted(&mut self, state: EncryptedState, newkeys: NewKeys)
        ensures
            final(self).app() == old(self).app(),
            old(self).peer().common.first_keyed(
                state,
                newkeys,
                true,
                old(self).now,
                final(self).peer().common,
            ),
            final(self).peer() == (Peer {
                common: final(self).peer().common,
                ..old(self).peer()
            }),
            final(self).peer().ok(),
    {
        proof {
            reveal(Staging::ok);
        }
        let _ = self.common.encrypted_split_outbound(state, newkeys, true, self.now);
        assert(self.peer().unsent() =~= Seq::<u8>::empty());
    }

    /// Keeps a packet for later, when the key exchange is complete.
    pub fn park_pending_read(&mut self, buf: Vec<u8>)
        ensures
            final(self).peer() == old(self).peer(),
            final(self).app() == old(self).app().read_kept(buf@),
    {
        #[verifier::truncate]
        let n: u32 = buf.len() as u32;
        self.pending_len = self.pending_len.saturating_add(n);
        self.pending_reads.push(buf);
        assert(self.app().pending_reads =~= old(self).app().pending_reads.push(buf@));
    }

    /// Whether a KEXINIT of the peer has to wait.
    pub fn should_park_kexinit(&self) -> (r: bool)
        ensures
            r == self.peer().parks_kexinit(),
    {
        match &self.pending_kex_install {
            None => false,
            Some(p) => {
                let acked: bool = match p.phase {
                    PendingKexPhase::InstallAcked => true,
                    _ => false,
                };
                p.after.is_some() || acked
            },
        }
    }

    /// Takes the packets that were kept for later.
    pub fn take_pending_reads(&mut self) -> (r: Vec<Vec<u8>>)
        ensures
            final(self).peer() == old(self).peer(),
            sshbuffer::contents(r@) == old(self).app().reads_given(),
            final(self).app() == old(self).app().reads_taken(),
    {
        let mut taken: Vec<Vec<u8>> = Vec::new();
        std::mem::swap(&mut self.pending_reads, &mut taken);
        self.pending_len = 0;
        assert(self.app().pending_reads =~= Seq::empty());
        assert(sshbuffer::contents(taken@) =~= old(self).app().pending_reads);
        taken
    }

    /// Takes the outbound half out of a key exchange's outcome: the key, the
    /// compression and whether sequence numbers start over. The clear key
    /// takes the place of the one taken.
    pub fn take_outbound_from_newkeys_server(newkeys: &mut NewKeys) -> (r: (
        CipherKey,
        Compression,
        bool,
    ))
        ensures
            r == outbound_half(*old(newkeys)),
            final(newkeys).cipher.local_to_remote.is_clear(),
            final(newkeys).cipher.remote_to_local == old(newkeys).cipher.remote_to_local,
            final(newkeys).exchange == old(newkeys).exchange,
            final(newkeys).names == old(newkeys).names,
            final(newkeys).kex == old(newkeys).kex,
            final(newkeys).key == old(newkeys).key,
            final(newkeys).session_id == old(newkeys).session_id,
    {
        let local = newkeys.cipher.local_to_remote;
        newkeys.cipher.local_to_remote = CipherKey::clear();
        (local, newkeys.names.server_compression, newkeys.names.strict_kex)
    }
}

} // verus!
