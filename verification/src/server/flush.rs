//! Handing staged packets to the writer, and starting a key exchange when one
//! is due.
use bytes::Bytes;
use vstd::prelude::*;

use crate::common_session::{Common, Enc, Keys};
use crate::error::Error;
use crate::msg;
use crate::server::closing;
use crate::server::parked::{ParkedCmd, PendingOutboundCmd};
use crate::server::reader::ReaderCmd;
use crate::server::session::{Peer, Session, SessionKexState};
use crate::server::supervisor;
use crate::server::supervisor::RekeyDeadline;
use crate::server::writer;
use crate::server::writer::seal_reservation;
use crate::session::{EncryptedState, Staging};
use crate::sshbuffer::Compression;
use crate::wire;
use crate::wire::{
    bytes_as_slice, bytes_copy_from_slice, bytes_len, bytes_mut_as_slice, bytes_mut_clear,
    bytes_mut_len, read_u32,
};

verus! {

/// Application data stays staged while a key exchange is under way; every
/// other packet goes out.
pub open spec fn held_during_kex(m: u8) -> bool {
    m == msg::CHANNEL_DATA || m == msg::CHANNEL_EXTENDED_DATA
}

impl Staging {
    /// The first staged packet.
    pub open spec fn first_packet(self) -> Seq<u8> {
        self.unsent().subrange(4, wire::frame_len(self.unsent()))
    }

    /// The first staged packet handed on.
    pub open spec fn advanced(self) -> Staging {
        Staging { cursor: (self.cursor + wire::frame_len(self.unsent())) as usize, ..self }
    }

    /// A buffer that was handed on whole starts over.
    pub open spec fn tidied(self) -> Staging {
        if self.cursor >= self.write.len() {
            Staging { cursor: 0, write: Seq::empty(), ..self }
        } else {
            self
        }
    }

    /// The first staged packet has to wait for a key exchange.
    pub open spec fn head_is_held(self) -> bool {
        self.unsent().len() <= 4 || held_during_kex(self.unsent()[4])
    }
}

impl Peer {
    /// The first staged packet handed on, unless something is parked or (with
    /// `hold`) it is application data. Above the cap it is parked. Returns
    /// whether the next one may follow.
    #[verifier::opaque]
    pub open spec fn hand_step(self, hold: bool) -> (Peer, Result<bool, Error>) {
        if self.parked.q.len() > 0 || self.common.enc is None || self.unsent().len() == 0 || (hold
            && self.st().head_is_held()) {
            (self, Ok(false))
        } else {
            let c = ParkedCmd::SealRaw(self.st().first_packet());
            let s = self.with_st(self.st().advanced()).restaged().sampled();
            if s.over(c.weight()) {
                (s.park(c), Ok(false))
            } else {
                let (t, r) = s.submit_now(c);
                match r {
                    Err(e) => (t, Err(e)),
                    Ok(_) => (t, Ok(t.parked.q.len() == 0)),
                }
            }
        }
    }

    /// Staged packets handed on in order, as long as nothing is parked, the cap
    /// allows it and (with `hold`) no application data comes up.
    pub open spec fn handed_on(self, hold: bool) -> (Peer, Result<(), Error>)
        decreases self.unsent().len(),
    {
        match self.hand_step(hold) {
            (t, Err(e)) => (t, Err(e)),
            (t, Ok(more)) => if more && t.unsent().len() < self.unsent().len() {
                t.handed_on(hold)
            } else {
                (t, Ok(()))
            },
        }
    }

    /// The staging buffer started over where it was handed on whole.
    pub open spec fn tidied(self) -> Peer {
        self.with_st(self.st().tidied())
    }

    /// A key exchange is due: it was asked for, or enough bytes or time have
    /// passed under the keys in force.
    pub open spec fn rekey_due(self) -> bool {
        &&& self.common.enc matches Some(e) && !e.keys.kex.skip_exchange && (e.st.rekey_wanted || (
        match self.link {
            Some(l) => l.cipher_bytes,
            None => 0,
        }) >= self.config.limits.max_bytes || supervisor::sat_sub(self.now, e.keys.last_rekey)
            >= self.config.limits.max_millis)
    }

    /// A request for a key exchange has been looked at.
    pub open spec fn rekey_noted(self) -> Peer {
        match self.common.enc {
            Some(e) => if e.keys.kex.skip_exchange {
                self
            } else {
                self.with_st(Staging { rekey_wanted: false, ..e.st })
            },
            None => self,
        }
    }

    /// The deadline of a later key exchange set; the first one has none of its
    /// own.
    pub open spec fn rekey_armed(self) -> Peer {
        if self.common.enc is Some {
            let g = self.rekey_gen.wrapping_add(1);
            Peer {
                rekey_gen: g,
                rekey_deadline: RekeyDeadline {
                    generation: Some(g),
                    deadline_at: Some(supervisor::sat_add(self.now, self.config.rekey_deadline)),
                },
                ..self
            }
        } else {
            self
        }
    }

    /// A KEXINIT on its way: through the writer, or here where none runs.
    #[verifier::opaque]
    pub open spec fn kexinit_sent(self, k: Seq<u8>) -> (Peer, Result<(), Error>) {
        if self.link is Some {
            self.submitted_payload(k)
        } else {
            (
                Peer { common: Common { sink: self.common.sink.packet(k), ..self.common }, ..self },
                Ok(()),
            )
        }
    }

    /// A key exchange begun: never while an install is open, nor without a
    /// KEXINIT to send.
    #[verifier::opaque]
    pub open spec fn begun(self) -> (Peer, Result<(), Error>) {
        match self.offer {
            Some(k) if self.install is None => {
                let s = Peer { offer: None, kex: SessionKexState::InProgress, ..self };
                let (t, r) = s.kexinit_sent(k);
                if r is Err {
                    (t, r)
                } else {
                    (t.rekey_armed(), Ok(()))
                }
            },
            _ => (self, Err(Error::Kex)),
        }
    }

    /// A key exchange begun where one is due, none is under way, and the last
    /// one has left its values. One that finds no KEXINIT to send stays wanted,
    /// and the values stay for it.
    #[verifier::opaque]
    pub open spec fn begun_if(self, due: bool) -> (Peer, Result<(), Error>) {
        match self.common.enc {
            Some(e) if due && self.kex == SessionKexState::Idle && e.keys.exchange is Some => if
            self.offer is None && self.install is None {
                (self.with_st(Staging { rekey_wanted: true, ..e.st }), Ok(()))
            } else {
                (Peer {
                    common: Common {
                        enc: Some(Enc { keys: Keys { exchange: None, ..e.keys }, ..e }),
                        ..self.common
                    },
                    ..self
                }).begun()
            },
            _ => (self, Ok(())),
        }
    }

    /// Staged packets handed to the writer, and a key exchange begun where one
    /// is due.
    #[verifier::opaque]
    pub open spec fn flushed_out(self) -> (Peer, Result<(), Error>) {
        let (b, q) = self.handed_on(self.blocked());
        if q is Err {
            (b, q)
        } else {
            let c = b.tidied();
            c.rekey_noted().begun_if(c.rekey_due())
        }
    }

    /// Staged packets written here, where no writer runs, and a key exchange
    /// begun where one is due.
    #[verifier::opaque]
    pub open spec fn flushed_here(self) -> (Peer, Result<(), Error>) {
        match self.common.enc {
            None => (self, Ok(())),
            Some(e) => {
                let sink = self.common.sink.all(wire::packets(self.unsent()));
                let due = !e.keys.kex.skip_exchange && (e.st.rekey_wanted || sink.bytes
                    >= self.config.limits.max_bytes);
                let b = Peer { common: Common { sink, ..self.common }, ..self };
                b.with_st(
                    Staging { write: Seq::empty(), cursor: 0, ..e.st },
                ).rekey_noted().begun_if(due)
            },
        }
    }

    /// Everything parked and staged moved towards the socket, and a key
    /// exchange begun where one is due.
    #[verifier::opaque]
    pub open spec fn flushed(self) -> (Peer, Result<(), Error>) {
        let (a, r) = self.retried();
        if r is Err {
            (a, r)
        } else if a.link is Some {
            a.restaged().flushed_out()
        } else {
            a.flushed_here()
        }
    }

    /// The compressor that was put off until authentication submitted behind
    /// everything that is parked.
    #[verifier::opaque]
    pub open spec fn outbound_compress_started(self) -> (Peer, Result<(), Error>) {
        match self.common.enc {
            Some(e) if e.keys.server_compression == Compression::ZlibDeferred => self.submitted(
                ParkedCmd::InitOutboundCompress(e.keys.server_compression),
            ),
            _ => (self, Ok(())),
        }
    }

    /// Authentication is over: what was put off until then starts, for what
    /// comes in at once, for what goes out behind everything staged so far.
    pub open spec fn authenticated(self) -> (Peer, Result<(), Error>) {
        let (b, r) = self.inbound_compress_started().flushed();
        if r is Err {
            (b, r)
        } else {
            let (c, q) = b.outbound_compress_started();
            if q is Err {
                (c, q)
            } else {
                (c.in_state(EncryptedState::Authenticated), Ok(()))
            }
        }
    }

    /// How far authentication has come, replaced.
    pub open spec fn in_state(self, state: EncryptedState) -> Peer {
        match self.common.enc {
            Some(e) => Peer {
                common: Common {
                    enc: Some(Enc { keys: Keys { state, ..e.keys }, ..e }),
                    ..self.common
                },
                ..self
            },
            None => self,
        }
    }

    /// The decompressor that was put off until authentication started.
    #[verifier::opaque]
    pub open spec fn inbound_compress_started(self) -> Peer {
        match self.common.enc {
            Some(e) if e.keys.client_compression == Compression::ZlibDeferred => Peer {
                common: Common {
                    enc: Some(
                        Enc {
                            keys: Keys { decompress: e.keys.client_compression.stream(), ..e.keys },
                            ..e
                        },
                    ),
                    ..self.common
                },
                reader: match self.reader {
                    Some(r) => Some(
                        if r.closed {
                            r
                        } else {
                            r.told(ReaderCmd::EnableDecompress(e.keys.client_compression))
                        },
                    ),
                    None => None,
                },
                ..self
            },
            _ => self,
        }
    }
}

/// Handing parked commands over leaves the staged packets alone.
pub proof fn lemma_retried_keeps(s: Peer)
    ensures
        s.retried().0 == (Peer {
            link: s.retried().0.link,
            parked: s.retried().0.parked,
            common: Common { sink: s.retried().0.common.sink, ..s.common },
            ..s
        }),
        s.retried().0.link is Some <==> s.link is Some,
        s.link is Some ==> s.retried().0.common == s.common,
    decreases s.parked.q.len(),
{
    if s.parked.q.len() > 0 {
        let c = s.parked.q[0];
        match s.link {
            None => lemma_retried_keeps(s.unparked().done_here(c)),
            Some(_) => {
                let seen = s.taken_up();
                let l = seen.link->0;
                if !(c.weight() > 0 && seen.over(c.weight())) && Peer::link_takes(l, c) {
                    lemma_retried_keeps(
                        Peer { link: Some(Peer::offer_link(l, c)), ..seen },
                    );
                }
            },
        }
    }
}

/// A key exchange that is due is never lost for want of a KEXINIT: it is still
/// due at the next flush, with the values that it needs.
pub proof fn law_due_exchange_waits_for_its_kexinit(s: Peer)
    requires
        s.common.enc matches Some(e) && e.keys.exchange is Some && !e.keys.kex.skip_exchange,
        s.kex == SessionKexState::Idle,
        s.install is None,
        s.offer is None,
    ensures
        ({
            let (t, r) = s.rekey_noted().begun_if(true);
            &&& r is Ok
            &&& t.kex == s.kex
            &&& t.common.enc->0.keys == s.common.enc->0.keys
            &&& t.rekey_due()
        }),
{
    reveal(Peer::begun_if);
}

impl Session {
    /// Begins a key exchange with the KEXINIT at hand.
    pub fn begin_rekey(&mut self) -> (r: Result<(), Error>)
        ensures
            final(self).app() == old(self).app(),
            (final(self).peer(), r) == old(self).peer().begun(),
            old(self).peer().ok() ==> final(self).peer().ok(),
    {
        proof {
            reveal(Peer::begun);
        }
        if self.pending_kex_install.is_some() {
            return Err(Error::Kex);
        }
        if self.offer.is_none() {
            return Err(Error::Kex);
        }
        let mut taken: Option<Bytes> = None;
        std::mem::swap(&mut self.offer, &mut taken);
        if let Some(k) = taken {
            self.kex = SessionKexState::InProgress;
            self.send_kexinit(k)?;
        }
        self.arm_rekey();
        Ok(())
    }

    /// Sends a KEXINIT: through the writer, or here where none runs.
    fn send_kexinit(&mut self, k: Bytes) -> (r: Result<(), Error>)
        ensures
            final(self).app() == old(self).app(),
            (final(self).peer(), r) == old(self).peer().kexinit_sent(wire::bytes_view(k)),
            old(self).peer().ok() ==> final(self).peer().ok(),
    {
        proof {
            reveal(Peer::kexinit_sent);
            lemma_retried_keeps(self.peer());
        }
        if self.writer.is_some() {
            self.submit_seal_payload(k)
        } else {
            self.common.packet_writer.packet_raw(bytes_as_slice(&k))?;
            Ok(())
        }
    }

    /// Sets the deadline of a later key exchange.
    fn arm_rekey(&mut self)
        ensures
            final(self).app() == old(self).app(),
            final(self).peer() == old(self).peer().rekey_armed(),
    {
        if self.common.encrypted.is_some() {
            self.rekey_gen = self.rekey_gen.wrapping_add(1);
            self.rekey_deadline.register(self.rekey_gen, self.config.rekey_deadline, self.now);
        }
    }

    /// Whether a staged packet has to wait for a key exchange.
    fn hold_enc_packet_during_kex(m: u8) -> (r: bool)
        ensures
            r == held_during_kex(m),
    {
        m == msg::CHANNEL_DATA || m == msg::CHANNEL_EXTENDED_DATA
    }

    /// Takes the first staged packet, unless it has to wait.
    fn next_staged(&mut self, hold: bool) -> (r: Option<Bytes>)
        requires
            old(self).peer().ok(),
        ensures
            final(self).app() == old(self).app(),
            r is Some <==> {
                &&& old(self).peer().common.enc is Some
                &&& old(self).peer().unsent().len() > 0
                &&& !(hold && old(self).peer().st().head_is_held())
            },
            r is None ==> final(self).peer() == old(self).peer(),
            r matches Some(p) ==> {
                &&& wire::bytes_view(p) == old(self).peer().st().first_packet()
                &&& final(self).peer() == old(self).peer().with_st(
                    old(self).peer().st().advanced(),
                )
                &&& wire::frame_len(old(self).peer().unsent()) <= old(self).peer().unsent().len()
            },
            final(self).peer().ok(),
            r is Some ==> final(self).peer().unsent().len() < old(self).peer().unsent().len(),
    {
        match &mut self.common.encrypted {
            None => None,
            Some(enc) => {
                let at: usize = enc.write_cursor;
                let buf: &[u8] = bytes_mut_as_slice(&enc.write);
                if at >= buf.len() {
                    return None;
                }
                let ghost rest = enc@.unsent();
                proof {
                    reveal(Staging::ok);
                    wire::lemma_first_frame(rest);
                }
                if hold {
                    if buf.len() - at <= 4 {
                        return None;
                    }
                    if Self::hold_enc_packet_during_kex(buf[at + 4]) {
                        return None;
                    }
                }
                let head: &[u8] = &buf[at..buf.len()];
                assert(head@ =~= rest);
                let len: usize = read_u32(head) as usize;
                let packet: &[u8] = &buf[at + 4..at + 4 + len];
                assert(packet@ =~= rest.subrange(4, wire::frame_len(rest)));
                let p = bytes_copy_from_slice(packet);
                enc.write_cursor = at + 4 + len;
                assert(enc@.unsent() =~= rest.skip(wire::frame_len(rest)));
                Some(p)
            },
        }
    }

    /// Hands the first staged packet on.
    fn hand_on_one(&mut self, hold: bool) -> (r: Result<bool, Error>)
        requires
            old(self).peer().ok(),
        ensures
            final(self).app() == old(self).app(),
            (final(self).peer(), r) == old(self).peer().hand_step(hold),
            final(self).peer().ok(),
            r == Ok::<bool, Error>(true) ==> final(self).peer().unsent().len() < old(
                self,
            ).peer().unsent().len(),
    {
        proof {
            reveal(Peer::hand_step);
        }
        if !self.pending_outbound.is_empty() {
            return Ok(false);
        }
        let p = match self.next_staged(hold) {
            None => {
                return Ok(false);
            },
            Some(p) => p,
        };
        let w: usize = seal_reservation(bytes_len(&p));
        let cmd = PendingOutboundCmd::SealRaw(p);
        self.note_staged();
        let hard: usize = self.outbound_hard_cap();
        if self.sealed_backlog_bytes().saturating_add(w) > hard {
            self.park(cmd);
            return Ok(false);
        }
        self.submit_now(cmd)?;
        Ok(self.pending_outbound.is_empty())
    }

    /// Hands staged packets on.
    fn hand_on(&mut self, hold: bool) -> (r: Result<(), Error>)
        requires
            old(self).peer().ok(),
        ensures
            final(self).app() == old(self).app(),
            (final(self).peer(), r) == old(self).peer().handed_on(hold),
            final(self).peer().ok(),
    {
        loop
            invariant
                self.app() == old(self).app(),
                self.peer().ok(),
                self.peer().handed_on(hold) == old(self).peer().handed_on(hold),
            decreases self.peer().unsent().len(),
        {
            let ghost before = self.peer();
            let more: bool = self.hand_on_one(hold)?;
            assert(before.hand_step(hold) == (self.peer(), Ok::<bool, Error>(more)));
            if !more {
                return Ok(());
            }
        }
    }

    /// Starts the staging buffer over where it was handed on whole.
    fn tidy(&mut self)
        requires
            old(self).peer().ok(),
        ensures
            final(self).app() == old(self).app(),
            final(self).peer() == old(self).peer().tidied(),
            final(self).peer().ok(),
    {
        proof {
            reveal(Staging::ok);
        }
        if let Some(enc) = &mut self.common.encrypted {
            if enc.write_cursor >= bytes_mut_len(&enc.write) {
                enc.write_cursor = 0;
                bytes_mut_clear(&mut enc.write);
                assert(enc@.unsent() =~= Seq::<u8>::empty());
            }
        }
    }

    /// Begins a key exchange where one is due, none is under way, and the
    /// last one has left its values. One that finds no KEXINIT to send stays
    /// wanted.
    fn begin_rekey_if(&mut self, due: bool) -> (r: Result<(), Error>)
        ensures
            final(self).app() == old(self).app(),
            (final(self).peer(), r) == old(self).peer().begun_if(due),
            old(self).peer().ok() ==> final(self).peer().ok(),
    {
        proof {
            reveal(Peer::begun_if);
        }
        if due && self.kex == SessionKexState::Idle && self.has_exchange() {
            if self.offer.is_none() && self.pending_kex_install.is_none() {
                self.want_rekey(true);
                return Ok(());
            }
            self.drop_exchange();
            return self.begin_rekey();
        }
        Ok(())
    }

    /// Whether the last key exchange has left its values.
    fn has_exchange(&self) -> (r: bool)
        ensures
            r == (self.peer().common.enc matches Some(e) && e.keys.exchange is Some),
    {
        match &self.common.encrypted {
            Some(enc) => enc.exchange.is_some(),
            None => false,
        }
    }

    /// Puts down whether a key exchange is wanted.
    fn want_rekey(&mut self, wanted: bool)
        ensures
            final(self).app() == old(self).app(),
            final(self).peer() == (match old(self).peer().common.enc {
                Some(e) => old(self).peer().with_st(Staging { rekey_wanted: wanted, ..e.st }),
                None => old(self).peer(),
            }),
            old(self).peer().ok() ==> final(self).peer().ok(),
    {
        if let Some(enc) = &mut self.common.encrypted {
            proof {
                if enc@.ok() {
                    closing::lemma_same_ok(enc@, Staging { rekey_wanted: wanted, ..enc@ });
                }
            }
            enc.rekey_wanted = wanted;
        }
    }

    /// Lets go of the values of the last key exchange.
    fn drop_exchange(&mut self)
        ensures
            final(self).app() == old(self).app(),
            final(self).peer() == (match old(self).peer().common.enc {
                Some(e) => Peer {
                    common: Common {
                        enc: Some(Enc { keys: Keys { exchange: None, ..e.keys }, ..e }),
                        ..old(self).peer().common
                    },
                    ..old(self).peer()
                },
                None => old(self).peer(),
            }),
            old(self).peer().ok() ==> final(self).peer().ok(),
    {
        if let Some(enc) = &mut self.common.encrypted {
            enc.exchange = None;
        }
    }

    /// Whether a key exchange is due.
    fn is_rekey_due(&self) -> (r: bool)
        ensures
            r == self.peer().rekey_due(),
    {
        let cipher_bytes: u64 = match &self.writer {
            Some(w) => w.cipher_bytes(),
            None => 0,
        };
        match &self.common.encrypted {
            Some(enc) => !enc.kex.skip_exchange && (enc.rekey_wanted || cipher_bytes
                >= self.config.limits.max_bytes || self.now.saturating_sub(enc.last_rekey)
                >= self.config.limits.max_millis),
            None => false,
        }
    }

    /// A request for a key exchange has been looked at.
    fn note_rekey(&mut self)
        ensures
            final(self).app() == old(self).app(),
            final(self).peer() == old(self).peer().rekey_noted(),
            old(self).peer().ok() ==> final(self).peer().ok(),
    {
        let skips: bool = match &self.common.encrypted {
            Some(enc) => enc.kex.skip_exchange,
            None => true,
        };
        if !skips {
            self.want_rekey(false);
        }
    }

    /// Hands staged packets to the writer, and begins a key exchange where one
    /// is due.
    fn flush_out(&mut self) -> (r: Result<(), Error>)
        requires
            old(self).peer().ok(),
            old(self).peer().link is Some,
        ensures
            final(self).app() == old(self).app(),
            (final(self).peer(), r) == old(self).peer().flushed_out(),
            final(self).peer().ok(),
    {
        proof {
            reveal(Peer::flushed_out);
        }
        let hold: bool = self.blocks_outbound_intake();
        self.hand_on(hold)?;
        self.tidy();
        let due: bool = self.is_rekey_due();
        self.note_rekey();
        self.begin_rekey_if(due)
    }

    /// Writes staged packets here, where no writer runs, and begins a key
    /// exchange where one is due.
    fn flush_here(&mut self) -> (r: Result<(), Error>)
        requires
            old(self).peer().ok(),
        ensures
            final(self).app() == old(self).app(),
            (final(self).peer(), r) == old(self).peer().flushed_here(),
            final(self).peer().ok(),
    {
        proof {
            reveal(Peer::flushed_here);
            reveal(Staging::ok);
        }
        let mut due: bool = false;
        match &mut self.common.encrypted {
            None => {
                return Ok(());
            },
            Some(enc) => {
                due = enc.flush(&self.config.limits, &mut self.common.packet_writer)?;
                assert(enc@.unsent() =~= Seq::<u8>::empty());
            },
        }
        self.begin_rekey_if(due)
    }

    /// Moves everything parked and staged towards the socket: what is parked
    /// goes first. Begins a key exchange where one is due.
    pub fn flush(&mut self) -> (r: Result<(), Error>)
        requires
            old(self).peer().ok(),
        ensures
            final(self).app() == old(self).app(),
            (final(self).peer(), r) == old(self).peer().flushed(),
            final(self).peer().ok(),
    {
        proof {
            reveal(Peer::flushed);
            lemma_retried_keeps(self.peer());
        }
        self.retry_pending_outbound()?;
        if self.writer.is_some() {
            self.note_staged();
            self.flush_out()
        } else {
            self.flush_here()
        }
    }

    /// Starts the decompressor that was put off until authentication.
    fn start_inbound_compress(&mut self)
        ensures
            final(self).app() == old(self).app(),
            final(self).peer() == old(self).peer().inbound_compress_started(),
            old(self).peer().ok() ==> final(self).peer().ok(),
    {
        proof {
            reveal(Peer::inbound_compress_started);
        }
        if let Some(enc) = &mut self.common.encrypted {
            if enc.client_compression.is_deferred() {
                enc.client_compression.init_decompress(&mut enc.decompress);
                if let Some(reader) = &mut self.reader {
                    reader.try_enable_decompress(enc.client_compression);
                }
            }
        }
    }

    /// Submits the start of the compressor that was put off until
    /// authentication.
    fn start_outbound_compress(&mut self) -> (r: Result<(), Error>)
        ensures
            final(self).app() == old(self).app(),
            (final(self).peer(), r) == old(self).peer().outbound_compress_started(),
            old(self).peer().ok() ==> final(self).peer().ok(),
    {
        proof {
            reveal(Peer::outbound_compress_started);
            lemma_retried_keeps(self.peer());
        }
        let mut deferred: Option<Compression> = None;
        if let Some(enc) = &self.common.encrypted {
            if enc.server_compression.is_deferred() {
                deferred = Some(enc.server_compression);
            }
        }
        match deferred {
            Some(c) => self.submit_init_outbound_compress(c),
            None => Ok(()),
        }
    }

    /// Ends authentication: seals what is staged as it is, starts the
    /// compressors that were put off until then, and opens the session.
    pub fn complete_auth_compress_barrier(&mut self) -> (r: Result<(), Error>)
        requires
            old(self).peer().ok(),
        ensures
            final(self).app() == old(self).app(),
            (final(self).peer(), r) == old(self).peer().authenticated(),
            final(self).peer().ok(),
    {
        self.start_inbound_compress();
        self.flush()?;
        self.start_outbound_compress()?;
        if let Some(enc) = &mut self.common.encrypted {
            enc.state = EncryptedState::Authenticated;
        }
        Ok(())
    }

    /// Drops the deadline of the key exchange that is over.
    pub fn clear_rekey_deadline(&mut self)
        ensures
            final(self).app() == old(self).app(),
            final(self).peer() == (Peer {
                rekey_deadline: RekeyDeadline { generation: None, deadline_at: None },
                ..old(self).peer()
            }),
    {
        match self.rekey_deadline.generation {
            Some(g) => self.rekey_deadline.clear_if_generation(g),
            None => self.rekey_deadline.clear(),
        }
    }

    /// The generation of the key exchange under way.
    pub fn active_rekey_gen(&self) -> (r: Option<u64>)
        ensures
            r == self.peer().active_gen(),
    {
        if let Some(p) = &self.pending_kex_install {
            if p.generation > 0 {
                return Some(p.generation);
            }
        }
        if self.kex.active() {
            match self.rekey_deadline.generation {
                Some(g) => Some(g),
                None => Some(self.rekey_gen),
            }
        } else {
            None
        }
    }
}

impl Peer {
    /// The generation of the key exchange under way: that of an open install,
    /// else the one that the deadline is for.
    pub open spec fn active_gen(self) -> Option<u64> {
        match self.install {
            Some(p) if p.generation > 0 => Some(p.generation),
            _ => if self.kex.is_active() {
                match self.rekey_deadline.generation {
                    Some(g) => Some(g),
                    None => Some(self.rekey_gen),
                }
            } else {
                None
            },
        }
    }
}

} // verus!
