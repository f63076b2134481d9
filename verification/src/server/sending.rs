//! What the application sends on a channel: data, requests, replies, EOF and
//! CLOSE.
use bytes::Bytes;
use vstd::prelude::*;

use crate::channel;
use crate::channel::{ChannelCtrlItem, ChannelId, Ctrl, Lane, REPLY_RESERVATION};
use crate::common_session::Common;
use crate::error::Error;
use crate::msg;
use crate::server::closing;
use crate::server::session::{Peer, Sess, Session};
use crate::server::supervisor::DisconnectCause;
use crate::session::Encrypted;
use crate::staging_laws;
use crate::wire;
use crate::wire::{bytes_from_vec, Body, PacketBody, MAX_FRAME_PAYLOAD, WIRE_OVERHEAD_PER_PACKET};

verus! {

broadcast use vstd::std_specs::hash::group_hash_axioms;

/// A request on a channel: the peer's number, the kind, and no wish for a
/// reply.
pub open spec fn request_head(to: u32, kind: Seq<u8>) -> Body {
    (Body { bytes: Seq::empty(), complete: true }).u32(to).str(kind).u8(0)
}

/// `b` as a `byte` field.
pub open spec fn flag(b: bool) -> u8 {
    if b {
        1
    } else {
        0
    }
}

/// Whether the peer may do flow control itself.
pub open spec fn xon_xoff_body(to: u32, client_can_do: bool) -> Body {
    request_head(to, wire::text("xon-xoff"@)).u8(flag(client_can_do))
}

/// The exit status of a program.
pub open spec fn exit_status_body(to: u32, exit_status: u32) -> Body {
    request_head(to, wire::text("exit-status"@)).u32(exit_status)
}

/// The signal that ended a program.
pub open spec fn exit_signal_body(
    to: u32,
    signal: Seq<u8>,
    core_dumped: bool,
    error_message: Seq<u8>,
    language_tag: Seq<u8>,
) -> Body {
    request_head(to, wire::text("exit-signal"@)).str(signal).u8(flag(core_dumped)).str(
        error_message,
    ).str(language_tag)
}

impl Peer {
    /// Lane `id` replaced, if there is one.
    pub open spec fn with_lane(self, id: u32, l: Lane) -> Peer {
        if self.lane(id) is Some {
            self.with_st(self.st().with_lane(id, l))
        } else {
            self
        }
    }

    /// A reply of the given weight stays below the cap.
    pub open spec fn admits(self, weight: usize) -> bool {
        wire::sat(self.backlog() as nat + weight as nat) < self.hard_cap()
    }

    /// A reply refused: where the peer waits for it, or a key exchange is
    /// under way, the session ends.
    pub open spec fn reply_refused(self, wanted: bool) -> Peer {
        if wanted || self.blocked() {
            self.caused(DisconnectCause::PeerError)
        } else {
            self
        }
    }

    /// A reply to a global request staged, if the cap admits it.
    pub open spec fn global_replied(self, success: bool, port: Option<u32>) -> Peer {
        let head = Body::of(
            if success {
                msg::REQUEST_SUCCESS
            } else {
                msg::REQUEST_FAILURE
            },
        );
        let b = match port {
            Some(p) => head.u32(p),
            None => head,
        };
        if !self.admits((b.bytes.len() + WIRE_OVERHEAD_PER_PACKET) as usize) {
            self.sampled().reply_refused(self.common.wants_reply)
        } else {
            let s = match self.common.enc {
                Some(e) => self.sampled().with_st(e.st.staged_body(b)),
                None => self.sampled(),
            };
            Peer { common: Common { wants_reply: false, ..s.common }, ..s }
        }
    }

    /// What was just queued on a channel let out as far as it goes.
    #[verifier::opaque]
    pub open spec fn let_out(self, id: u32) -> (Peer, Result<(), Error>) {
        let (a, r) = self.channel_drained(id);
        match r {
            Err(e) => (a, Err(e)),
            Ok(_) => {
                let (b, q) = a.lane_flushed(id, false);
                match q {
                    Err(e) => (b, Err(e)),
                    Ok(_) => (b, Ok(())),
                }
            },
        }
    }

    /// A reply to a channel request: counted against the cap together with the
    /// replies that wait already, and queued behind what the channel has sent
    /// so far.
    #[verifier::opaque]
    pub open spec fn channel_replied(self, id: u32, success: bool) -> (Peer, Result<(), Error>) {
        match self.lane(id) {
            Some(l) if l.wants_reply => {
                let done = Lane { wants_reply: false, ..l };
                let waiting = wire::sat(self.st().reply_count() * REPLY_RESERVATION as nat);
                if !self.admits(wire::sat(REPLY_RESERVATION as nat + waiting as nat)) {
                    (self.sampled().reply_refused(true).with_lane(id, done), Ok(()))
                } else {
                    self.sampled().with_lane(
                        id,
                        done.enqueue_ctrl(
                            if success {
                                Ctrl::Success
                            } else {
                                Ctrl::Failure
                            },
                        ),
                    ).let_out(id)
                }
            },
            _ => (self, Ok(())),
        }
    }

    /// A request queued on a channel and let out. A request that cannot be
    /// encoded is an error and changes nothing.
    pub open spec fn requested(self, id: u32, b: Body) -> (Peer, Result<(), Error>) {
        match self.lane(id) {
            Some(l) => if !b.complete {
                (self, Err(Error::SshEncoding))
            } else {
                self.with_lane(id, l.enqueue_ctrl(Ctrl::Request(b.bytes))).let_out(id)
            },
            None => self.let_out(id),
        }
    }

    /// The peer's number for a channel.
    pub open spec fn number_of(self, id: u32) -> u32 {
        match self.lane(id) {
            Some(l) => l.recipient_channel,
            None => 0,
        }
    }

    /// Data queued on a channel; nothing goes out yet.
    pub open spec fn queued(self, id: u32, bytes: Seq<u8>, ext: Option<u32>) -> Peer {
        match self.common.enc {
            Some(e) => self.with_st(e.st.send(id, bytes, ext, true)),
            None => self,
        }
    }

    /// Data let out by the scheduler, unless a key exchange was under way.
    pub open spec fn scheduled(self) -> (Peer, Result<(), Error>) {
        if self.blocked() {
            (self, Ok(()))
        } else {
            self.data_drained()
        }
    }
}

impl Sess {
    /// Data sent on a channel: queued, let out as far as it goes, and the
    /// channel closed where it has more queued than it may.
    #[verifier::opaque]
    pub open spec fn data_sent(self, id: u32, bytes: Seq<u8>, ext: Option<u32>) -> (
        Sess,
        Result<(), Error>,
    ) {
        let unconfirmed = self.peer.lane(id) matches Some(l) && !l.confirmed;
        if unconfirmed {
            (self, Err(Error::WrongChannel))
        } else {
            let (a, r) = self.peer.queued(id, bytes, ext).scheduled();
            if r is Err {
                (Sess { peer: a, ..self }, r)
            } else {
                ((Sess { peer: a.flushed().0, ..self }).cap_enforced(id), Ok(()))
            }
        }
    }

    /// A channel closed: CLOSE goes out behind what is queued. Once it is out
    /// and nothing reads the channel any more, the channel is forgotten.
    #[verifier::opaque]
    pub open spec fn closed(self, id: u32) -> (Sess, Result<(), Error>) {
        let parked = match self.peer.lane(id) {
            Some(l) => self.peer.with_lane(id, l.park_close()),
            None => self.peer,
        };
        let (a, r) = parked.let_out(id);
        let s = Sess { peer: a, ..self };
        if r is Ok && a.lane(id) is None && self.app.channels.contains_key(id)
            && self.app.channels[id].reader_gone {
            (s.close_finalized(id), r)
        } else {
            (s, r)
        }
    }
}

/// A lane that takes one more item that fits still fits.
pub proof fn lemma_enqueue_fits(l: Lane, c: Ctrl)
    requires
        l.fits(),
        staging_laws::ctrl_fits(c),
    ensures
        l.enqueue_ctrl(c).fits(),
{
    let m = l.enqueue_ctrl(c);
    assert forall|j: int| 0 <= j < m.ctrl.len() implies #[trigger] staging_laws::ctrl_fits(
        m.ctrl[j].1,
    ) by {
        if j < l.ctrl.len() {
            assert(m.ctrl[j] == l.ctrl[j]);
            assert(staging_laws::ctrl_fits(l.ctrl[j].1));
        }
    }
}

impl Encrypted {
    /// The peer no longer waits for a reply on a channel; with `item`, the
    /// reply is queued.
    fn note_reply(&mut self, id: u32, item: Option<ChannelCtrlItem>)
        ensures
            final(self).keys() == old(self).keys(),
            final(self)@ == (if old(self)@.channels.contains_key(id) {
                let l = Lane { wants_reply: false, ..old(self)@.channels[id] };
                old(self)@.with_lane(
                    id,
                    match item {
                        Some(i) => l.enqueue_ctrl(i@),
                        None => l,
                    },
                )
            } else {
                old(self)@
            }),
            old(self)@.ok() && (item matches Some(i) ==> staging_laws::ctrl_fits(i@)) ==> final(
                self)@.ok(),
    {
        let ghost st = self@;
        if let Some(mut ch) = self.channels.remove(&id) {
            ch.wants_reply = false;
            let ghost l = ch@;
            assert(st.channels.contains_key(id));
            assert(l == (Lane { wants_reply: false, ..st.channels[id] }));
            if let Some(i) = item {
                proof {
                    if st.ok() && staging_laws::ctrl_fits(i@) {
                        closing::lemma_lane_fits(st, id);
                        lemma_enqueue_fits(l, i@);
                    }
                }
                ch.enqueue_ctrl(i);
            }
            let ghost m = ch@;
            self.channels.insert(id, ch);
            assert(self@ =~= st.with_lane(id, m));
            proof {
                if st.ok() {
                    closing::lemma_lane_fits(st, id);
                }
                if st.ok() && m.fits() {
                    closing::lemma_with_lane_ok(st, id, m);
                }
            }
        } else {
            assert(self@ =~= st);
        }
    }
}

impl Session {
    /// Whether a reply of the given weight stays below the cap. Where it does
    /// not, and the peer waits for it or a key exchange is under way, the
    /// session is to end.
    pub fn admit_control_reply(&mut self, weight: usize, wants_reply: bool) -> (r: bool)
        ensures
            final(self).app() == old(self).app(),
            r == old(self).peer().admits(weight),
            final(self).peer() == (if r {
                old(self).peer().sampled()
            } else {
                old(self).peer().sampled().reply_refused(wants_reply)
            }),
    {
        let hard: usize = self.outbound_hard_cap();
        if self.sealed_backlog_bytes().saturating_add(weight) >= hard {
            if wants_reply || self.blocks_outbound_intake() {
                self.stage_cause(DisconnectCause::PeerError);
            }
            return false;
        }
        true
    }

    /// Answers a global request, with a port where one was allocated.
    pub fn emit_global_request_reply(&mut self, success: bool, extra_port: Option<u32>) -> (r:
        Result<(), Error>)
        ensures
            r == Ok::<(), Error>(()),
            final(self).app() == old(self).app(),
            final(self).peer() == old(self).peer().global_replied(success, extra_port),
            old(self).peer().ok() ==> final(self).peer().ok(),
    {
        let mut body = PacketBody::new(
            if success {
                msg::REQUEST_SUCCESS
            } else {
                msg::REQUEST_FAILURE
            },
        );
        if let Some(port) = extra_port {
            body.put_u32(port);
        }
        let weight: usize = body.bytes.len() + WIRE_OVERHEAD_PER_PACKET;
        let wants_reply: bool = self.common.wants_reply;
        if !self.admit_control_reply(weight, wants_reply) {
            return Ok(());
        }
        if let Some(enc) = &mut self.common.encrypted {
            proof {
                if enc@.ok() {
                    closing::lemma_staged_ok(enc@, body@.bytes);
                }
            }
            enc.stage_body(&body)?;
        }
        self.common.wants_reply = false;
        Ok(())
    }

    /// Answers a global request with success, if the peer waits for it.
    pub fn request_success(&mut self)
        ensures
            final(self).app() == old(self).app(),
            final(self).peer() == (if old(self).peer().common.wants_reply {
                old(self).peer().global_replied(true, None)
            } else {
                old(self).peer()
            }),
            old(self).peer().ok() ==> final(self).peer().ok(),
    {
        if self.common.wants_reply {
            let _ = self.emit_global_request_reply(true, None);
        }
    }

    /// Answers a global request with failure.
    pub fn request_failure(&mut self)
        ensures
            final(self).app() == old(self).app(),
            final(self).peer() == old(self).peer().global_replied(false, None),
            old(self).peer().ok() ==> final(self).peer().ok(),
    {
        let _ = self.emit_global_request_reply(false, None);
    }

    /// Replaces a lane by what `item` and the flag make of it.
    fn queue_reply(&mut self, id: u32, item: Option<ChannelCtrlItem>)
        ensures
            final(self).app() == old(self).app(),
            final(self).peer() == (match old(self).peer().lane(id) {
                Some(l) => old(self).peer().with_lane(
                    id,
                    match item {
                        Some(i) => (Lane { wants_reply: false, ..l }).enqueue_ctrl(i@),
                        None => Lane { wants_reply: false, ..l },
                    },
                ),
                None => old(self).peer(),
            }),
            old(self).peer().ok() && (item matches Some(i) ==> staging_laws::ctrl_fits(i@))
                ==> final(self).peer().ok(),
    {
        if let Some(enc) = &mut self.common.encrypted {
            enc.note_reply(id, item);
        }
    }

    /// Lets out what was just queued on a channel, as far as it goes.
    fn let_out(&mut self, id: ChannelId) -> (r: Result<(), Error>)
        requires
            old(self).peer().ok(),
        ensures
            final(self).app() == old(self).app(),
            (final(self).peer(), r) == old(self).peer().let_out(id.0),
            final(self).peer().ok(),
    {
        proof {
            reveal(Peer::let_out);
        }
        let _ = self.try_drain_channel_under_budget(id)?;
        let _ = self.flush_pending_fences(id)?;
        Ok(())
    }

    /// Answers a channel request, if the peer waits for it.
    pub fn emit_channel_request_reply(&mut self, channel: ChannelId, success: bool) -> (r: Result<
        (),
        Error,
    >)
        requires
            old(self).peer().ok(),
            old(self).peer().lane(channel.0) matches Some(l) ==> l.confirmed,
        ensures
            final(self).app() == old(self).app(),
            (final(self).peer(), r) == old(self).peer().channel_replied(channel.0, success),
            final(self).peer().ok(),
    {
        proof {
            reveal(Peer::channel_replied);
        }
        let mut wants: bool = false;
        let mut queued: usize = 0;
        if let Some(enc) = &self.common.encrypted {
            if let Some(ch) = enc.channels.get(&channel.0) {
                wants = ch.wants_reply;
            }
            queued = enc.queued_reply_reservation();
        }
        if !wants {
            return Ok(());
        }
        let weight: usize = ChannelCtrlItem::reply_reservation();
        if !self.admit_control_reply(weight.saturating_add(queued), true) {
            self.queue_reply(channel.0, None);
            return Ok(());
        }
        self.queue_reply(
            channel.0,
            Some(
                if success {
                    ChannelCtrlItem::Success
                } else {
                    ChannelCtrlItem::Failure
                },
            ),
        );
        self.let_out(channel)
    }

    /// Answers a channel request with success, if the peer waits for it.
    pub fn channel_success(&mut self, channel: ChannelId) -> (r: Result<(), Error>)
        requires
            old(self).peer().ok(),
            old(self).peer().lane(channel.0) matches Some(l) ==> l.confirmed,
        ensures
            final(self).app() == old(self).app(),
            (final(self).peer(), r) == old(self).peer().channel_replied(channel.0, true),
            final(self).peer().ok(),
    {
        self.emit_channel_request_reply(channel, true)
    }

    /// Answers a channel request with failure, if the peer waits for it.
    pub fn channel_failure(&mut self, channel: ChannelId) -> (r: Result<(), Error>)
        requires
            old(self).peer().ok(),
            old(self).peer().lane(channel.0) matches Some(l) ==> l.confirmed,
        ensures
            final(self).app() == old(self).app(),
            (final(self).peer(), r) == old(self).peer().channel_replied(channel.0, false),
            final(self).peer().ok(),
    {
        self.emit_channel_request_reply(channel, false)
    }

    /// Closes a channel: CLOSE goes out behind what is queued.
    pub fn close(&mut self, channel: ChannelId) -> (r: Result<(), Error>)
        requires
            old(self).peer().ok(),
            old(self).peer().common.enc is Some,
        ensures
            (final(self)@, r) == old(self)@.closed(channel.0),
            final(self).peer().ok(),
    {
        proof {
            reveal(Sess::closed);
        }
        if let Some(enc) = &mut self.common.encrypted {
            let ghost st = enc@;
            enc.park_close(channel);
            proof {
                if st.channels.contains_key(channel.0) {
                    closing::lemma_lane_fits(st, channel.0);
                    lemma_enqueue_fits(st.channels[channel.0], Ctrl::Close);
                    closing::lemma_with_lane_ok(
                        st,
                        channel.0,
                        st.channels[channel.0].park_close(),
                    );
                }
            }
        }
        self.let_out(channel)?;
        let emitted: bool = match &self.common.encrypted {
            Some(enc) => !enc.channel_exists(channel),
            None => true,
        };
        if emitted {
            let reader_gone: bool = match self.channels.get(&channel.0) {
                Some(c) => c.reader_gone,
                None => false,
            };
            if reader_gone {
                self.finalize_close(channel);
            }
        }
        Ok(())
    }

    /// Sends EOF on a channel, behind what is queued.
    pub fn eof(&mut self, channel: ChannelId) -> (r: Result<(), Error>)
        requires
            old(self).peer().ok(),
            old(self).peer().common.enc is Some,
        ensures
            final(self).app() == old(self).app(),
            (final(self).peer(), r) == (match old(self).peer().lane(channel.0) {
                Some(l) => old(self).peer().with_lane(channel.0, l.park_eof()),
                None => old(self).peer(),
            }).let_out(channel.0),
            final(self).peer().ok(),
    {
        if let Some(enc) = &mut self.common.encrypted {
            let ghost st = enc@;
            enc.park_eof(channel);
            proof {
                if st.channels.contains_key(channel.0) {
                    closing::lemma_lane_fits(st, channel.0);
                    lemma_enqueue_fits(st.channels[channel.0], Ctrl::Eof);
                    closing::lemma_with_lane_ok(
                        st,
                        channel.0,
                        st.channels[channel.0].park_eof(),
                    );
                }
            }
        }
        self.let_out(channel)
    }

    /// Queues data on a channel and lets it out by rounds.
    fn send(&mut self, channel: ChannelId, data: Bytes, ext: Option<u32>) -> (r: Result<(), Error>)
        requires
            old(self).peer().ok(),
            old(self).peer().common.enc is Some,
        ensures
            (final(self)@, r) == old(self)@.data_sent(channel.0, wire::bytes_view(data), ext),
            final(self).peer().ok(),
    {
        proof {
            reveal(Sess::data_sent);
        }
        let blocked: bool = self.blocks_outbound_intake();
        if let Some(enc) = &mut self.common.encrypted {
            let ghost st = enc@;
            proof {
                if st.channels.contains_key(channel.0) {
                    let l = st.channels[channel.0];
                    closing::lemma_lane_fits(st, channel.0);
                    assert(l.enqueue_data(wire::bytes_view(data), ext).fits());
                    closing::lemma_with_lane_ok(
                        st,
                        channel.0,
                        l.enqueue_data(wire::bytes_view(data), ext),
                    );
                }
            }
            match ext {
                None => enc.data(channel, data, true)?,
                Some(e) => enc.extended_data(channel, e, data, true)?,
            }
        }
        assert(self.peer() == old(self).peer().queued(channel.0, wire::bytes_view(data), ext));
        if !blocked {
            self.try_drain_pending_data_under_budget()?;
        }
        let ghost a = self.peer();
        assert((a, Ok::<(), Error>(())) == old(self).peer().queued(
            channel.0,
            wire::bytes_view(data),
            ext,
        ).scheduled());
        let _ = self.flush();
        assert(self@ == (Sess { peer: a.flushed().0, ..old(self)@ }));
        self.enforce_outbound_cap(channel)
    }

    /// Sends data on a channel.
    pub fn data(&mut self, channel: ChannelId, data: Bytes) -> (r: Result<(), Error>)
        requires
            old(self).peer().ok(),
            old(self).peer().common.enc is Some,
        ensures
            (final(self)@, r) == old(self)@.data_sent(channel.0, wire::bytes_view(data), None),
            final(self).peer().ok(),
    {
        self.send(channel, data, None)
    }

    /// Sends data of an extended stream, such as standard error, on a channel.
    pub fn extended_data(&mut self, channel: ChannelId, extended: u32, data: Bytes) -> (r: Result<
        (),
        Error,
    >)
        requires
            old(self).peer().ok(),
            old(self).peer().common.enc is Some,
        ensures
            (final(self)@, r) == old(self)@.data_sent(
                channel.0,
                wire::bytes_view(data),
                Some(extended),
            ),
            final(self).peer().ok(),
    {
        self.send(channel, data, Some(extended))
    }

    /// The peer's number for a channel that is there.
    fn recipient_of(&self, channel: ChannelId) -> (r: Option<u32>)
        ensures
            r == (match self.peer().lane(channel.0) {
                Some(l) => Some(l.recipient_channel),
                None => None,
            }),
    {
        match &self.common.encrypted {
            Some(enc) => match enc.channels.get(&channel.0) {
                Some(ch) => Some(ch.recipient_channel),
                None => None,
            },
            None => None,
        }
    }

    /// The beginning of a request on a channel.
    fn request_head(to: u32, kind: &str) -> (r: PacketBody)
        ensures
            r@ == request_head(to, wire::text(kind@)),
    {
        let mut body = PacketBody::empty();
        body.put_u32(to);
        body.put_bytes(kind.as_bytes());
        body.put_u8(0);
        body
    }

    /// Queues a request on a channel and lets it out.
    fn send_request(&mut self, channel: ChannelId, body: PacketBody) -> (r: Result<(), Error>)
        requires
            old(self).peer().ok(),
            body@.complete ==> body@.bytes.len() < MAX_FRAME_PAYLOAD,
        ensures
            final(self).app() == old(self).app(),
            (final(self).peer(), r) == old(self).peer().requested(channel.0, body@),
            final(self).peer().ok(),
    {
        if let Some(enc) = &mut self.common.encrypted {
            let ghost st = enc@;
            if let Some(mut ch) = enc.channels.remove(&channel.0) {
                let ghost l = ch@;
                if !body.complete {
                    enc.channels.insert(channel.0, ch);
                    assert(enc@ =~= st);
                    return Err(Error::SshEncoding);
                }
                let ghost bytes = body@.bytes;
                proof {
                    closing::lemma_lane_fits(st, channel.0);
                    lemma_enqueue_fits(l, Ctrl::Request(bytes));
                    closing::lemma_with_lane_ok(
                        st,
                        channel.0,
                        l.enqueue_ctrl(Ctrl::Request(bytes)),
                    );
                }
                ch.enqueue_ctrl(ChannelCtrlItem::Request { body: bytes_from_vec(body.bytes) });
                enc.channels.insert(channel.0, ch);
                assert(enc@ =~= st.with_lane(
                    channel.0,
                    l.enqueue_ctrl(Ctrl::Request(bytes)),
                ));
            } else {
                assert(enc@ =~= st);
            }
        }
        self.let_out(channel)
    }

    /// Tells the client whether it may do flow control itself.
    pub fn xon_xoff_request(&mut self, channel: ChannelId, client_can_do: bool) -> (r: Result<
        (),
        Error,
    >)
        requires
            old(self).peer().ok(),
            old(self).peer().lane(channel.0) matches Some(l) ==> l.confirmed,
        ensures
            final(self).app() == old(self).app(),
            (final(self).peer(), r) == old(self).peer().requested(
                channel.0,
                xon_xoff_body(old(self).peer().number_of(channel.0), client_can_do),
            ),
            final(self).peer().ok(),
    {
        let to: u32 = match self.recipient_of(channel) {
            Some(to) => to,
            None => 0,
        };
        proof {
            reveal_strlit("xon-xoff");
            lemma_ascii_len("xon-xoff");
        }
        let mut body = Self::request_head(to, "xon-xoff");
        body.put_u8(
            if client_can_do {
                1
            } else {
                0
            },
        );
        self.send_request(channel, body)
    }

    /// Sends the exit status of a program.
    pub fn exit_status_request(&mut self, channel: ChannelId, exit_status: u32) -> (r: Result<
        (),
        Error,
    >)
        requires
            old(self).peer().ok(),
            old(self).peer().lane(channel.0) matches Some(l) ==> l.confirmed,
        ensures
            final(self).app() == old(self).app(),
            (final(self).peer(), r) == old(self).peer().requested(
                channel.0,
                exit_status_body(old(self).peer().number_of(channel.0), exit_status),
            ),
            final(self).peer().ok(),
    {
        let to: u32 = match self.recipient_of(channel) {
            Some(to) => to,
            None => 0,
        };
        proof {
            reveal_strlit("exit-status");
            lemma_ascii_len("exit-status");
        }
        let mut body = Self::request_head(to, "exit-status");
        body.put_u32(exit_status);
        self.send_request(channel, body)
    }

    /// Tells the client which signal ended a program. The texts together have
    /// to fit one packet.
    pub fn exit_signal_request(
        &mut self,
        channel: ChannelId,
        signal: &str,
        core_dumped: bool,
        error_message: &str,
        language_tag: &str,
    ) -> (r: Result<(), Error>)
        requires
            old(self).peer().ok(),
            old(self).peer().lane(channel.0) matches Some(l) ==> l.confirmed,
            ({
                let b = exit_signal_body(
                    old(self).peer().number_of(channel.0),
                    wire::text(signal@),
                    core_dumped,
                    wire::text(error_message@),
                    wire::text(language_tag@),
                );
                b.complete ==> b.bytes.len() < MAX_FRAME_PAYLOAD
            }),
        ensures
            final(self).app() == old(self).app(),
            (final(self).peer(), r) == old(self).peer().requested(
                channel.0,
                exit_signal_body(
                    old(self).peer().number_of(channel.0),
                    wire::text(signal@),
                    core_dumped,
                    wire::text(error_message@),
                    wire::text(language_tag@),
                ),
            ),
            final(self).peer().ok(),
    {
        let to: u32 = match self.recipient_of(channel) {
            Some(to) => to,
            None => 0,
        };
        let mut body = Self::request_head(to, "exit-signal");
        body.put_bytes(signal.as_bytes());
        body.put_u8(
            if core_dumped {
                1
            } else {
                0
            },
        );
        body.put_bytes(error_message.as_bytes());
        body.put_bytes(language_tag.as_bytes());
        self.send_request(channel, body)
    }
}

/// An ASCII text takes one byte per character.
pub proof fn lemma_ascii_len(s: &str)
    requires
        vstd::utf8::is_ascii_chars(s@),
    ensures
        wire::text(s@).len() == s@.len(),
{
    vstd::utf8::is_ascii_chars_encode_utf8(s@);
}

} // verus!
