//! Letting go of channels: on the wire, in the queues, and towards the
//! application and its producers.
use vstd::prelude::*;

use crate::channel;
use crate::channel::{ChannelId, Ctrl, Lane};
use crate::drain;
use crate::error::Error;
use crate::listing;
use crate::listing::sorted_keys;
use crate::server::session;
use crate::server::session::{App, Peer, Sess, Session};
use crate::server::writer::Link;
use crate::session::Staging;
use crate::staging_laws;
use crate::wire;
use crate::wire::MAX_FRAME_PAYLOAD;

verus! {

broadcast use vstd::std_specs::hash::group_hash_axioms;

/// Staging one more packet keeps what is staged readable.
pub proof fn lemma_staged_ok(st: Staging, p: Seq<u8>)
    requires
        st.ok(),
        p.len() <= MAX_FRAME_PAYLOAD,
    ensures
        st.staged(p).ok(),
{
    reveal(Staging::ok);
    wire::lemma_frame_appended(st.unsent(), p);
    assert(st.staged(p).unsent() =~= st.unsent() + wire::frame(p));
}

/// Replacing a lane keeps what is staged readable.
pub proof fn lemma_with_lane_ok(st: Staging, id: u32, l: Lane)
    requires
        st.ok(),
        l.fits(),
    ensures
        st.with_lane(id, l).ok(),
{
    reveal(Staging::ok);
    assert(st.with_lane(id, l).unsent() =~= st.unsent());
}

/// Every request queued on a lane fits a packet.
pub proof fn lemma_lane_fits(st: Staging, id: u32)
    requires
        st.ok(),
        st.channels.contains_key(id),
    ensures
        st.channels[id].fits(),
{
    reveal(Staging::ok);
}

/// Draining a lane keeps what is staged readable.
pub proof fn lemma_flush_lane_ok(st: Staging, id: u32, allow_data: bool)
    requires
        st.ok(),
    ensures
        st.flush_lane(id, drain::gate_open(), allow_data).ok(),
{
    reveal(Staging::ok);
    staging_laws::law_flush_lane_appends(st, id, drain::gate_open(), allow_data);
}

/// Staging one packet of a lane keeps what is staged readable.
pub proof fn lemma_packet_staged_ok(st: Staging, id: u32, cap: u32)
    requires
        st.ok(),
        st.channels.contains_key(id) ==> cap <= st.channels[id].recipient_window_size,
    ensures
        st.packet_staged(id, cap).0.ok(),
{
    reveal(Staging::ok);
    staging_laws::law_one_packet_is_appended(st, id, cap);
}

/// The same lanes and the same packets are readable as well.
pub proof fn lemma_same_ok(st: Staging, t: Staging)
    requires
        st.ok(),
        t.channels == st.channels,
        t.write == st.write,
        t.cursor == st.cursor,
    ensures
        t.ok(),
{
    reveal(Staging::ok);
    assert(t.unsent() =~= st.unsent());
}

/// Taking a lane away keeps what is staged readable.
pub proof fn lemma_without_ok(st: Staging, id: u32)
    requires
        st.ok(),
    ensures
        st.without(id).ok(),
{
    reveal(Staging::ok);
    assert(st.without(id).unsent() =~= st.unsent());
    assert forall|x: u32| #[trigger] st.without(id).channels.contains_key(x) implies st.without(
        id,
    ).channels[x].fits() by {
        assert(st.channels.contains_key(x));
    }
}

/// Discarding a lane keeps what is staged readable.
pub proof fn lemma_discard_ok(st: Staging, id: u32)
    requires
        st.ok(),
    ensures
        st.discard(id).ok(),
{
    if st.channels.contains_key(id) {
        if !st.channels[id].outbound_closed {
            let p = drain::ctrl_payload(st.channels[id].recipient_channel, Ctrl::Close);
            lemma_staged_ok(st, p);
            lemma_without_ok(st.staged(p), id);
        } else {
            lemma_without_ok(st, id);
        }
    }
}

/// The producers `ts` released, and whether their bytes went out.
pub open spec fn verdicts(ts: Seq<u64>, sent: bool) -> Seq<(u64, bool)> {
    ts.map_values(|t: u64| (t, sent))
}

impl App {
    /// The producers that wait on channel `id` released.
    pub open spec fn released_on(self, id: u32, sent: bool) -> App {
        if self.acks.contains_key(id) {
            App {
                acks: self.acks.remove(id),
                released: self.released + verdicts(self.acks[id], sent),
                ..self
            }
        } else {
            self
        }
    }

    /// The producers that wait on the channels `ids` released.
    pub open spec fn released_all(self, ids: Seq<u32>) -> App
        decreases ids.len(),
    {
        if ids.len() == 0 {
            self
        } else {
            self.released_on(ids[0], true).released_all(ids.drop_first())
        }
    }
}

impl Peer {
    /// The channel can still say something other than CLOSE.
    pub open spec fn accepts_ctrl(self, id: u32) -> bool {
        self.lane(id) matches Some(l) && !l.outbound_closed
    }

    /// What is queued for a channel thrown away, on every stage: in its lane
    /// now, and in the writer when it comes up there.
    pub open spec fn discarded(self, id: u32) -> Peer {
        let marked = match self.link {
            Some(l) if self.accepts_ctrl(id) => Peer {
                link: Some(
                    Link { tombstone: l.tombstone.insert(self.lane(id)->0.recipient_channel), ..l },
                ),
                ..self
            },
            _ => self,
        };
        marked.with_st(self.st().discard(id))
    }
}

impl Sess {
    /// A channel's outbound side torn down; the producers that wait on it
    /// learn that their bytes did not go out.
    pub open spec fn outbound_discarded(self, id: u32) -> Sess {
        let app = self.app.released_on(id, false);
        Sess {
            peer: self.peer.discarded(id),
            app: App { deferred: app.deferred.remove(id), ..app },
        }
    }

    /// Everything that is known of a channel forgotten.
    pub open spec fn close_finalized(self, id: u32) -> Sess {
        let app = self.app.released_on(id, false);
        let peer = match self.peer.common.enc {
            Some(e) => self.peer.with_st(e.st.without(id)),
            None => self.peer,
        };
        Sess {
            peer: Peer {
                reader: match peer.reader {
                    Some(r) => Some(r.shut(id)),
                    None => None,
                },
                ..peer
            },
            app: App {
                inbound: app.inbound.remove(id),
                channels: app.channels.remove(id),
                deferred: app.deferred.remove(id),
                ..app
            },
        }
    }

    /// A channel whose backlog is above the cap closed and forgotten.
    #[verifier::opaque]
    pub open spec fn cap_enforced(self, id: u32) -> Sess {
        match self.peer.lane(id) {
            Some(l) if wire::sat(channel::queued_bytes(l.data))
                > self.peer.config.max_pending_outbound_bytes => self.outbound_discarded(
                id,
            ).close_finalized(id),
            _ => self,
        }
    }

    /// The channels with waiting producers whose backlog has drained,
    /// ascending.
    pub open spec fn drained_waits(self) -> Seq<u32> {
        listing::listing(self.app.acks.dom()).filter(
            |id: u32| !(self.peer.lane(id) matches Some(l) && l.data.len() > 0),
        )
    }
}

impl Session {
    /// Whether a channel can still say something other than CLOSE.
    pub fn outbound_channel_accepts_ctrl(&self, id: ChannelId) -> (r: bool)
        ensures
            r == self.peer().accepts_ctrl(id.0),
    {
        match &self.common.encrypted {
            Some(enc) => match enc.channels.get(&id.0) {
                Some(ch) => !ch.outbound_closed,
                None => false,
            },
            None => false,
        }
    }

    /// Releases the producers that wait on a channel.
    fn release_on(&mut self, id: u32, sent: bool)
        ensures
            final(self).peer() == old(self).peer(),
            final(self).app() == old(self).app().released_on(id, sent),
    {
        let ghost before = self.app();
        match self.outbound_acks.remove(&id) {
            None => {
                assert(session::acks_view(self.outbound_acks@) =~= before.acks);
            },
            Some(acks) => {
                assert(session::acks_view(self.outbound_acks@) =~= before.acks.remove(id));
                let ghost start = self.released@;
                let mut i: usize = 0;
                assert(start + verdicts(acks@.take(0), sent) =~= start);
                while i < acks.len()
                    invariant
                        i <= acks@.len(),
                        self.released@ == start + verdicts(acks@.take(i as int), sent),
                        *self == (Session { released: self.released, ..*self }),
                        self.peer() == old(self).peer(),
                        self.app() == (App {
                            acks: before.acks.remove(id),
                            released: self.released@,
                            ..before
                        }),
                    decreases acks@.len() - i,
                {
                    self.released.push((acks[i], sent));
                    i = i + 1;
                    assert(self.released@ =~= start + verdicts(acks@.take(i as int), sent));
                }
                assert(acks@.take(i as int) =~= acks@);
            },
        }
    }

    /// Tears a channel's outbound side down: what is queued for it is thrown
    /// away, one CLOSE goes out, and the producers that wait on it learn that
    /// their bytes did not.
    pub fn discard_channel_outbound(&mut self, id: ChannelId) -> (r: Result<(), Error>)
        ensures
            r == Ok::<(), Error>(()),
            final(self)@ == old(self)@.outbound_discarded(id.0),
            old(self).peer().ok() ==> final(self).peer().ok(),
    {
        proof {
            if self.peer().ok() && self.peer().common.enc is Some {
                lemma_discard_ok(self.peer().st(), id.0);
            }
        }
        let mut mark: Option<u32> = None;
        if let Some(enc) = &self.common.encrypted {
            if let Some(ch) = enc.channels.get(&id.0) {
                if !ch.outbound_closed {
                    mark = Some(ch.recipient_channel);
                }
            }
        }
        if let Some(to) = mark {
            if let Some(w) = &mut self.writer {
                w.tombstone.insert(to);
            }
        }
        if let Some(enc) = &mut self.common.encrypted {
            enc.close_discarding_pending(id)?;
        }
        assert(self.peer() == old(self).peer().discarded(id.0));
        self.release_on(id.0, false);
        self.deferred_window_grants.remove(&id.0);
        Ok(())
    }

    /// Forgets everything that is known of a channel. The producers that wait
    /// on it learn that their bytes did not go out.
    pub fn finalize_close(&mut self, id: ChannelId)
        ensures
            final(self)@ == old(self)@.close_finalized(id.0),
            old(self).peer().ok() ==> final(self).peer().ok(),
    {
        let ghost before = self@;
        proof {
            if self.peer().ok() && self.peer().common.enc is Some {
                lemma_without_ok(self.peer().st(), id.0);
            }
        }
        self.inbound.remove(&id.0);
        assert(session::inbound_view(self.inbound@) =~= before.app.inbound.remove(id.0));
        if let Some(r) = &mut self.reader {
            r.close_lane(id.0);
        }
        self.channels.remove(&id.0);
        self.release_on(id.0, false);
        self.deferred_window_grants.remove(&id.0);
        if let Some(enc) = &mut self.common.encrypted {
            let ghost st = enc@;
            enc.channels.remove(&id.0);
            assert(enc@ =~= st.without(id.0));
        }
    }

    /// Drops what waits for the application's end of a channel.
    pub fn teardown_inbound_channel(&mut self, id: ChannelId)
        ensures
            final(self).peer() == old(self).peer(),
            final(self).app() == (App {
                inbound: old(self).app().inbound.remove(id.0),
                ..old(self).app()
            }),
    {
        self.inbound.remove(&id.0);
        assert(session::inbound_view(self.inbound@) =~= old(self).app().inbound.remove(id.0));
    }

    /// Closes a channel whose backlog is above the cap. The others go on.
    pub fn enforce_outbound_cap(&mut self, id: ChannelId) -> (r: Result<(), Error>)
        ensures
            r == Ok::<(), Error>(()),
            final(self)@ == old(self)@.cap_enforced(id.0),
            old(self).peer().ok() ==> final(self).peer().ok(),
    {
        proof {
            reveal(Sess::cap_enforced);
        }
        let cap: usize = self.config.max_pending_outbound_bytes;
        let over: bool = match &self.common.encrypted {
            Some(enc) => enc.pending_data_bytes(id) > cap,
            None => false,
        };
        if over {
            self.discard_channel_outbound(id)?;
            self.finalize_close(id);
        }
        Ok(())
    }

    /// Releases the producers of every channel whose backlog has drained.
    pub fn release_outbound_acks(&mut self)
        ensures
            final(self).peer() == old(self).peer(),
            final(self).app() == (if old(self).peer().common.enc is Some {
                old(self).app().released_all(old(self)@.drained_waits())
            } else {
                old(self).app()
            }),
    {
        let mut drained: Vec<u32> = Vec::new();
        if let Some(enc) = &self.common.encrypted {
            let ids: Vec<u32> = sorted_keys(&self.outbound_acks);
            assert(self.outbound_acks@.dom() =~= self.app().acks.dom());
            let ghost pred = |id: u32| !(self.peer().lane(id) matches Some(l) && l.data.len() > 0);
            let mut i: usize = 0;
            assert(drained@ =~= ids@.take(0).filter(pred));
            while i < ids.len()
                invariant
                    i <= ids@.len(),
                    self.peer().common.enc == Some(enc.enc()),
                    pred == (|id: u32|
                        !(self.peer().lane(id) matches Some(l) && l.data.len() > 0)),
                    drained@ == ids@.take(i as int).filter(pred),
                decreases ids@.len() - i,
            {
                let id: u32 = ids[i];
                assert(ids@.take(i + 1).drop_last() =~= ids@.take(i as int));
                reveal(Seq::filter);
                if !enc.has_pending_data(ChannelId(id)) {
                    drained.push(id);
                }
                i = i + 1;
            }
            assert(ids@.take(i as int) =~= ids@);
        } else {
            return ;
        }
        let mut k: usize = 0;
        let ghost want = self.app().released_all(drained@);
        assert(drained@.skip(0) =~= drained@);
        while k < drained.len()
            invariant
                k <= drained@.len(),
                self.peer() == old(self).peer(),
                self.app().released_all(drained@.skip(k as int)) == want,
            decreases drained@.len() - k,
        {
            assert(drained@.skip(k as int).drop_first() =~= drained@.skip(k + 1));
            self.release_on(drained[k], true);
            k = k + 1;
        }
        assert(drained@.skip(k as int) =~= Seq::empty());
    }
}

} // verus!
