//! Requests that this side makes of the peer: pings, forwardings, channels of
//! its own; and its answer to channels that the peer asks for.
use vstd::prelude::*;

use crate::channel::{ChannelCtrlItem, ChannelId, Ctrl, Lane};
use crate::common_session;
use crate::drain;
use crate::error::{ChannelOpenFailure, Error};
use crate::msg;
use crate::server::closing;
use crate::server::pipeline::CHANNEL_DATA_FRAMING;
use crate::server::sending;
use crate::server::session;
use crate::server::session::{
    App, Config, GlobalRequestResponse, OpenReply, PendingChannelOpen, Peer, Refusal, Sess, Session,
};
use crate::session::Staging;
use crate::wire;
use crate::wire::{Body, PacketBody, MAX_FRAME_PAYLOAD, WIRE_OVERHEAD_PER_PACKET};

verus! {

broadcast use vstd::std_specs::hash::group_hash_axioms;

impl Body {
    /// The packet is whole and can be framed.
    pub open spec fn frames(self) -> bool {
        self.complete && self.bytes.len() <= MAX_FRAME_PAYLOAD
    }
}

/// Staging a whole packet keeps what is staged readable.
pub proof fn lemma_staged_body_ok(st: Staging, b: Body)
    requires
        st.ok(),
        b.frames(),
    ensures
        st.staged_body(b).ok(),
{
    closing::lemma_staged_ok(st, b.bytes);
    assert(st.staged_body(b) == st.staged(b.bytes));
}

/// The ping that every client answers.
pub open spec fn keepalive_body() -> Body {
    Body::of(msg::GLOBAL_REQUEST).str(wire::text("keepalive@openssh.com"@)).u8(1)
}

/// A request to forward connections to a port, or to stop that.
pub open spec fn forward_body(
    kind: Seq<char>,
    want_reply: bool,
    address: Seq<u8>,
    port: u32,
) -> Body {
    Body::of(msg::GLOBAL_REQUEST).str(wire::text(kind)).u8(sending::flag(want_reply)).str(
        address,
    ).u32(port)
}

/// The answer to a channel that is not to be opened.
pub open spec fn open_failure_body(
    to: u32,
    reason: ChannelOpenFailure,
    description: Seq<u8>,
    language: Seq<u8>,
) -> Body {
    Body::of(msg::CHANNEL_OPEN_FAILURE).u32(to).u32(reason.spec_code()).str(description).str(
        language,
    )
}

/// A CHANNEL_OPEN under the number `id`.
pub open spec fn open_packet(kind: Seq<u8>, id: u32, config: Config, suffix: Seq<u8>) -> Seq<u8> {
    seq![msg::CHANNEL_OPEN] + wire::ssh_string(kind) + wire::be32(id) + wire::be32(
        config.window_size,
    ) + wire::be32(config.maximum_packet_size) + suffix
}

/// No field.
pub open spec fn no_fields() -> Body {
    Body { bytes: Seq::empty(), complete: true }
}

/// The fields of a connection: two ends, each an address and a port.
pub open spec fn connection_fields(a: Seq<u8>, a_port: u32, b: Seq<u8>, b_port: u32) -> Body {
    no_fields().str(a).u32(a_port).str(b).u32(b_port)
}

impl Staging {
    /// The number that the next new channel gets.
    pub open spec fn fresh_id(self) -> u32 {
        self.nth_id(choose|n: nat| self.first_free(n))
    }
}

/// There is only one first free number.
pub proof fn lemma_fresh_id(st: Staging, n: nat)
    requires
        st.first_free(n),
    ensures
        st.fresh_id() == st.nth_id(n),
{
    let m = choose|m: nat| st.first_free(m);
    assert(st.first_free(m));
    if m < n {
        assert(st.channels.contains_key(st.nth_id(m)));
    } else if n < m {
        assert(st.channels.contains_key(st.nth_id(n)));
    }
}

impl Peer {
    /// A packet staged, if there are keys.
    pub open spec fn staged(self, b: Body) -> Peer {
        match self.common.enc {
            Some(e) => self.with_st(e.st.staged_body(b)),
            None => self,
        }
    }

    /// A channel asked for: refused where its packet is beyond the budget,
    /// where there are no keys, and before authentication.
    #[verifier::opaque]
    pub open spec fn opened(self, kind: Seq<u8>, suffix: Body) -> (Peer, Result<ChannelId, Error>) {
        let need = wire::sat(
            open_packet(kind, 0, self.config, suffix.bytes).len() + WIRE_OVERHEAD_PER_PACKET as nat,
        );
        if !suffix.complete {
            (self, Err(Error::SshEncoding))
        } else if self.link is Some && need > self.budget(
            self.config.maximum_packet_size,
            CHANNEL_DATA_FRAMING,
        ) {
            (self.sampled(), Err(Error::SendError))
        } else {
            match self.common.enc {
                Some(e) if e.keys.state.spec_post_auth() => {
                    let id = e.st.fresh_id();
                    let lane = Lane::fresh(
                        0,
                        ChannelId(id),
                        0,
                        self.config.window_size,
                        0,
                        self.config.maximum_packet_size,
                        false,
                    );
                    (
                        self.sampled().with_st(
                            (Staging { last_channel_id: id, ..e.st }).with_lane(id, lane).staged(
                                open_packet(kind, id, self.config, suffix.bytes),
                            ),
                        ),
                        Ok(ChannelId(id)),
                    )
                },
                _ => (self.sampled(), Err(Error::Inconsistent)),
            }
        }
    }

    /// A lane for what comes in on a channel, where a reader runs.
    pub open spec fn lane_registered(self, id: u32) -> Peer {
        Peer {
            reader: match self.reader {
                Some(r) => Some(
                    r.opened(id, self.config.window_size, self.config.maximum_packet_size),
                ),
                None => None,
            },
            ..self
        }
    }
}

impl Sess {
    /// A global request sent, with someone to wait for the answer.
    pub open spec fn asked(self, who: Option<GlobalRequestResponse>, b: Body) -> (
        Sess,
        Result<(), Error>,
    ) {
        if self.peer.common.enc is Some {
            (
                Sess {
                    peer: self.peer.staged(b),
                    app: App {
                        requests: match who {
                            Some(w) => self.app.requests.push(w),
                            None => self.app.requests,
                        },
                        ..self.app
                    },
                },
                b.result(),
            )
        } else {
            (self, Ok(()))
        }
    }

    /// The application's decision on a channel that the peer asked for carried
    /// out: a confirmation as the first thing on the channel's lane, or a
    /// refusal.
    #[verifier::opaque]
    pub open spec fn open_decided(self, r: OpenReply) -> (Sess, Result<(), Error>) {
        let p = r.pending;
        let id = p.sender_channel.0;
        match self.peer.common.enc {
            None => (self, Ok(())),
            Some(e) => match r.result {
                Ok(_) => {
                    let lane = p.lane.enqueue_ctrl(
                        Ctrl::OpenConfirmation {
                            recipient_channel: p.recipient_channel,
                            sender_channel: id,
                            window_size: p.window_size,
                            packet_size: p.packet_size,
                        },
                    );
                    let st = e.st.with_lane(id, lane);
                    let s = Sess {
                        peer: self.peer.with_st(st.flush_lane(id, drain::gate_open(), true)),
                        app: App {
                            channels: self.app.channels.insert(id, p.channel_ref),
                            ..self.app
                        },
                    };
                    match st.flush_lane_result(id, drain::gate_open(), true) {
                        Err(x) => (s, Err(x)),
                        Ok(_) => (Sess { peer: s.peer.lane_registered(id), ..s }, Ok(())),
                    }
                },
                Err(reason) => {
                    let b = open_failure_body(
                        p.recipient_channel,
                        reason.reason,
                        reason.description,
                        wire::text("en"@),
                    );
                    (Sess { peer: self.peer.staged(b), ..self }, b.result())
                },
            },
        }
    }

    /// Every decision that waits carried out, in order, up to an error.
    pub open spec fn opens_decided(self) -> (Sess, Result<(), Error>)
        decreases self.app.open_replies.len(),
    {
        if self.app.open_replies.len() == 0 {
            (self, Ok(()))
        } else {
            let rest = Sess {
                app: App { open_replies: self.app.open_replies.drop_first(), ..self.app },
                ..self
            };
            let (s, r) = rest.open_decided(self.app.open_replies[0]);
            if r is Err || s.app.open_replies.len() >= self.app.open_replies.len() {
                (s, r)
            } else {
                s.opens_decided()
            }
        }
    }
}

impl Session {
    /// Stages a packet, if there are keys.
    fn stage_packet(&mut self, body: &PacketBody) -> (r: Result<(), Error>)
        ensures
            final(self).app() == old(self).app(),
            final(self).peer() == old(self).peer().staged(body@),
            r == (if old(self).peer().common.enc is Some {
                body@.result()
            } else {
                Ok(())
            }),
            old(self).peer().ok() && body@.frames() ==> final(self).peer().ok(),
    {
        match &mut self.common.encrypted {
            Some(enc) => {
                proof {
                    if enc@.ok() && body@.frames() {
                        lemma_staged_body_ok(enc@, body@);
                    }
                }
                enc.stage_body(body)
            },
            None => Ok(()),
        }
    }

    /// Sends a global request.
    fn ask(&mut self, who: Option<GlobalRequestResponse>, body: &PacketBody) -> (r: Result<
        (),
        Error,
    >)
        ensures
            (final(self)@, r) == old(self)@.asked(who, body@),
            old(self).peer().ok() && body@.frames() ==> final(self).peer().ok(),
    {
        if self.common.encrypted.is_none() {
            return Ok(());
        }
        if let Some(w) = who {
            self.open_global_requests.push_back(w);
        }
        self.stage_packet(body)
    }

    /// The ping.
    fn keepalive_packet() -> (r: PacketBody)
        ensures
            r@ == keepalive_body(),
            r@.frames(),
    {
        proof {
            reveal_strlit("keepalive@openssh.com");
            sending::lemma_ascii_len("keepalive@openssh.com");
        }
        let mut body = PacketBody::new(msg::GLOBAL_REQUEST);
        body.put_bytes("keepalive@openssh.com".as_bytes());
        body.put_u8(1);
        body
    }

    /// Pings the client.
    pub fn keepalive_request(&mut self) -> (r: Result<(), Error>)
        ensures
            (final(self)@, r) == old(self)@.asked(
                Some(GlobalRequestResponse::Keepalive),
                keepalive_body(),
            ),
            old(self).peer().ok() ==> final(self).peer().ok(),
    {
        let body = Self::keepalive_packet();
        self.ask(Some(GlobalRequestResponse::Keepalive), &body)
    }

    /// Pings the client for someone who waits for the answer.
    pub fn send_ping(&mut self, reply_channel: u64) -> (r: Result<(), Error>)
        ensures
            (final(self)@, r) == old(self)@.asked(
                Some(GlobalRequestResponse::Ping(reply_channel)),
                keepalive_body(),
            ),
            old(self).peer().ok() ==> final(self).peer().ok(),
    {
        let body = Self::keepalive_packet();
        self.ask(Some(GlobalRequestResponse::Ping(reply_channel)), &body)
    }

    /// A request to forward connections, or to stop that.
    fn forward_packet(kind: &str, want_reply: bool, address: &str, port: u32) -> (r: PacketBody)
        ensures
            r@ == forward_body(kind@, want_reply, wire::text(address@), port),
    {
        let mut body = PacketBody::new(msg::GLOBAL_REQUEST);
        body.put_bytes(kind.as_bytes());
        body.put_u8(
            if want_reply {
                1
            } else {
                0
            },
        );
        body.put_bytes(address.as_bytes());
        body.put_u32(port);
        body
    }

    /// Asks the client to forward connections to the given address and port.
    pub fn tcpip_forward(&mut self, address: &str, port: u32, reply_channel: Option<u64>) -> (r:
        Result<(), Error>)
        ensures
            ({
                let b = forward_body(
                    "tcpip-forward"@,
                    reply_channel is Some,
                    wire::text(address@),
                    port,
                );
                &&& (final(self)@, r) == old(self)@.asked(
                    match reply_channel {
                        Some(w) => Some(GlobalRequestResponse::TcpIpForward(w)),
                        None => None,
                    },
                    b,
                )
                &&& old(self).peer().ok() && b.frames() ==> final(self).peer().ok()
            }),
    {
        let body = Self::forward_packet("tcpip-forward", reply_channel.is_some(), address, port);
        let who = match reply_channel {
            Some(w) => Some(GlobalRequestResponse::TcpIpForward(w)),
            None => None,
        };
        self.ask(who, &body)
    }

    /// Asks the client to stop forwarding connections.
    pub fn cancel_tcpip_forward(
        &mut self,
        address: &str,
        port: u32,
        reply_channel: Option<u64>,
    ) -> (r: Result<(), Error>)
        ensures
            ({
                let b = forward_body(
                    "cancel-tcpip-forward"@,
                    reply_channel is Some,
                    wire::text(address@),
                    port,
                );
                &&& (final(self)@, r) == old(self)@.asked(
                    match reply_channel {
                        Some(w) => Some(GlobalRequestResponse::CancelTcpIpForward(w)),
                        None => None,
                    },
                    b,
                )
                &&& old(self).peer().ok() && b.frames() ==> final(self).peer().ok()
            }),
    {
        let body = Self::forward_packet(
            "cancel-tcpip-forward",
            reply_channel.is_some(),
            address,
            port,
        );
        let who = match reply_channel {
            Some(w) => Some(GlobalRequestResponse::CancelTcpIpForward(w)),
            None => None,
        };
        self.ask(who, &body)
    }

    /// Whether a packet that reserves `need` is beyond the budget, where a
    /// writer runs.
    fn beyond_budget(&mut self, need: usize) -> (r: bool)
        ensures
            final(self).app() == old(self).app(),
            final(self).peer() == old(self).peer().sampled(),
            r == (old(self).peer().link is Some && need > old(self).peer().budget(
                old(self).peer().config.maximum_packet_size,
                CHANNEL_DATA_FRAMING,
            )),
    {
        self.writer.is_some() && need > self.outbound_budget()
    }

    /// Asks the peer for a channel of the given kind.
    fn channel_open_generic(&mut self, kind: &str, suffix: &PacketBody) -> (r: Result<
        ChannelId,
        Error,
    >)
        requires
            vstd::utf8::is_ascii_chars(kind@),
            kind@.len() <= 0xff,
            old(self).peer().common.enc matches Some(e) ==> e.st.has_room(),
        ensures
            final(self).app() == old(self).app(),
            (final(self).peer(), r) == old(self).peer().opened(wire::text(kind@), suffix@),
            old(self).peer().ok() && suffix@.bytes.len() <= 0xff00_0000 ==> final(
                self).peer().ok(),
    {
        proof {
            reveal(Peer::opened);
            sending::lemma_ascii_len(kind);
        }
        if !suffix.complete {
            return Err(Error::SshEncoding);
        }
        let mut head = PacketBody::new(msg::CHANNEL_OPEN);
        head.put_bytes(kind.as_bytes());
        let mut tail = PacketBody::empty();
        tail.put_u32(self.config.window_size);
        tail.put_u32(self.config.maximum_packet_size);
        let need: usize = (head.bytes.len() + 4 + tail.bytes.len()).saturating_add(
            suffix.bytes.len(),
        ).saturating_add(WIRE_OVERHEAD_PER_PACKET);
        if self.beyond_budget(need) {
            return Err(Error::SendError);
        }
        match &mut self.common.encrypted {
            None => Err(Error::Inconsistent),
            Some(enc) => {
                if !enc.state.post_auth() {
                    return Err(Error::Inconsistent);
                }
                let ghost st = enc@;
                let id = enc.new_channel(self.config.window_size, self.config.maximum_packet_size);
                let ghost mid = enc@;
                proof {
                    let n = choose|n: nat| st.first_free(n) && id.0 == #[trigger] st.nth_id(n);
                    lemma_fresh_id(st, n);
                }
                head.put_u32(id.0);
                head.bytes.extend_from_slice(tail.bytes.as_slice());
                head.bytes.extend_from_slice(suffix.bytes.as_slice());
                assert(head@.bytes =~= open_packet(
                    wire::text(kind@),
                    id.0,
                    self.config,
                    suffix@.bytes,
                ));
                wire::stage(&mut enc.write, head.bytes.as_slice());
                assert(enc@ =~= mid.staged(head@.bytes));
                proof {
                    if st.ok() && suffix@.bytes.len() <= 0xff00_0000 {
                        let numbered = Staging { last_channel_id: id.0, ..st };
                        closing::lemma_same_ok(st, numbered);
                        closing::lemma_with_lane_ok(numbered, id.0, mid.channels[id.0]);
                        closing::lemma_staged_ok(mid, head@.bytes);
                    }
                }
                Ok(id)
            },
        }
    }

    /// Asks the client for a session channel.
    pub fn channel_open_session(&mut self) -> (r: Result<ChannelId, Error>)
        requires
            old(self).peer().common.enc matches Some(e) ==> e.st.has_room(),
        ensures
            final(self).app() == old(self).app(),
            (final(self).peer(), r) == old(self).peer().opened(
                wire::text("session"@),
                no_fields(),
            ),
            old(self).peer().ok() ==> final(self).peer().ok(),
    {
        proof {
            reveal_strlit("session");
        }
        self.channel_open_generic("session", &PacketBody::empty())
    }

    /// Asks the client for an agent channel.
    pub fn channel_open_agent(&mut self) -> (r: Result<ChannelId, Error>)
        requires
            old(self).peer().common.enc matches Some(e) ==> e.st.has_room(),
        ensures
            final(self).app() == old(self).app(),
            (final(self).peer(), r) == old(self).peer().opened(
                wire::text("auth-agent@openssh.com"@),
                no_fields(),
            ),
            old(self).peer().ok() ==> final(self).peer().ok(),
    {
        proof {
            reveal_strlit("auth-agent@openssh.com");
        }
        self.channel_open_generic("auth-agent@openssh.com", &PacketBody::empty())
    }

    /// The fields of a connection.
    fn connection(a: &str, a_port: u32, b: &str, b_port: u32) -> (r: PacketBody)
        ensures
            r@ == connection_fields(wire::text(a@), a_port, wire::text(b@), b_port),
    {
        let mut body = PacketBody::empty();
        body.put_bytes(a.as_bytes());
        body.put_u32(a_port);
        body.put_bytes(b.as_bytes());
        body.put_u32(b_port);
        body
    }

    /// Asks the client for a channel to an address of its own.
    pub fn channel_open_direct_tcpip(
        &mut self,
        host_to_connect: &str,
        port_to_connect: u32,
        originator_address: &str,
        originator_port: u32,
    ) -> (r: Result<ChannelId, Error>)
        requires
            old(self).peer().common.enc matches Some(e) ==> e.st.has_room(),
        ensures
            final(self).app() == old(self).app(),
            ({
                let fields = connection_fields(
                    wire::text(host_to_connect@),
                    port_to_connect,
                    wire::text(originator_address@),
                    originator_port,
                );
                &&& (final(self).peer(), r) == old(self).peer().opened(
                    wire::text("direct-tcpip"@),
                    fields,
                )
                &&& old(self).peer().ok() && fields.bytes.len() <= 0xff00_0000 ==> final(
                    self).peer().ok()
            }),
    {
        proof {
            reveal_strlit("direct-tcpip");
        }
        let fields = Self::connection(
            host_to_connect,
            port_to_connect,
            originator_address,
            originator_port,
        );
        self.channel_open_generic("direct-tcpip", &fields)
    }

    /// Asks the client for a channel to a local socket of its own.
    pub fn channel_open_direct_streamlocal(&mut self, socket_path: &str) -> (r: Result<
        ChannelId,
        Error,
    >)
        requires
            old(self).peer().common.enc matches Some(e) ==> e.st.has_room(),
        ensures
            final(self).app() == old(self).app(),
            ({
                let fields = no_fields().str(wire::text(socket_path@)).str(wire::text(""@)).u32(0);
                &&& (final(self).peer(), r) == old(self).peer().opened(
                    wire::text("direct-streamlocal@openssh.com"@),
                    fields,
                )
                &&& old(self).peer().ok() && fields.bytes.len() <= 0xff00_0000 ==> final(
                    self).peer().ok()
            }),
    {
        proof {
            reveal_strlit("direct-streamlocal@openssh.com");
        }
        let mut fields = PacketBody::empty();
        fields.put_bytes(socket_path.as_bytes());
        fields.put_bytes("".as_bytes());
        fields.put_u32(0);
        self.channel_open_generic("direct-streamlocal@openssh.com", &fields)
    }

    /// Asks the client for a channel for a connection to a forwarded port.
    pub fn channel_open_forwarded_tcpip(
        &mut self,
        connected_address: &str,
        connected_port: u32,
        originator_address: &str,
        originator_port: u32,
    ) -> (r: Result<ChannelId, Error>)
        requires
            old(self).peer().common.enc matches Some(e) ==> e.st.has_room(),
        ensures
            final(self).app() == old(self).app(),
            ({
                let fields = connection_fields(
                    wire::text(connected_address@),
                    connected_port,
                    wire::text(originator_address@),
                    originator_port,
                );
                &&& (final(self).peer(), r) == old(self).peer().opened(
                    wire::text("forwarded-tcpip"@),
                    fields,
                )
                &&& old(self).peer().ok() && fields.bytes.len() <= 0xff00_0000 ==> final(
                    self).peer().ok()
            }),
    {
        proof {
            reveal_strlit("forwarded-tcpip");
        }
        let fields = Self::connection(
            connected_address,
            connected_port,
            originator_address,
            originator_port,
        );
        self.channel_open_generic("forwarded-tcpip", &fields)
    }

    /// Asks the client for a channel for a connection to a forwarded socket.
    pub fn channel_open_forwarded_streamlocal(&mut self, socket_path: &str) -> (r: Result<
        ChannelId,
        Error,
    >)
        requires
            old(self).peer().common.enc matches Some(e) ==> e.st.has_room(),
        ensures
            final(self).app() == old(self).app(),
            ({
                let fields = no_fields().str(wire::text(socket_path@)).str(wire::text(""@));
                &&& (final(self).peer(), r) == old(self).peer().opened(
                    wire::text("forwarded-streamlocal@openssh.com"@),
                    fields,
                )
                &&& old(self).peer().ok() && fields.bytes.len() <= 0xff00_0000 ==> final(
                    self).peer().ok()
            }),
    {
        proof {
            reveal_strlit("forwarded-streamlocal@openssh.com");
        }
        let mut fields = PacketBody::empty();
        fields.put_bytes(socket_path.as_bytes());
        fields.put_bytes("".as_bytes());
        self.channel_open_generic("forwarded-streamlocal@openssh.com", &fields)
    }

    /// Asks the client for a channel for a connection to its display.
    pub fn channel_open_x11(&mut self, originator_address: &str, originator_port: u32) -> (r:
        Result<ChannelId, Error>)
        requires
            old(self).peer().common.enc matches Some(e) ==> e.st.has_room(),
        ensures
            final(self).app() == old(self).app(),
            ({
                let fields = no_fields().str(wire::text(originator_address@)).u32(originator_port);
                &&& (final(self).peer(), r) == old(self).peer().opened(wire::text("x11"@), fields)
                &&& old(self).peer().ok() && fields.bytes.len() <= 0xff00_0000 ==> final(
                    self).peer().ok()
            }),
    {
        proof {
            reveal_strlit("x11");
        }
        let mut fields = PacketBody::empty();
        fields.put_bytes(originator_address.as_bytes());
        fields.put_u32(originator_port);
        self.channel_open_generic("x11", &fields)
    }

    /// The answer to a channel that is not to be opened.
    fn open_failure_packet(
        to: u32,
        reason: ChannelOpenFailure,
        description: &str,
        language: &str,
    ) -> (r: PacketBody)
        ensures
            r@ == open_failure_body(
                to,
                reason,
                wire::text(description@),
                wire::text(language@),
            ),
    {
        let mut body = PacketBody::new(msg::CHANNEL_OPEN_FAILURE);
        body.put_u32(to);
        body.put_u32(reason.code());
        body.put_bytes(description.as_bytes());
        body.put_bytes(language.as_bytes());
        body
    }

    /// Refuses a channel that the peer asked for.
    pub fn channel_open_failure(
        &mut self,
        channel: ChannelId,
        reason: ChannelOpenFailure,
        description: &str,
        language: &str,
    ) -> (r: Result<(), Error>)
        ensures
            final(self).app() == old(self).app(),
            ({
                let b = open_failure_body(
                    channel.0,
                    reason,
                    wire::text(description@),
                    wire::text(language@),
                );
                &&& final(self).peer() == old(self).peer().staged(b)
                &&& r == (if old(self).peer().common.enc is Some {
                    b.result()
                } else {
                    Ok(())
                })
                &&& old(self).peer().ok() && b.frames() ==> final(self).peer().ok()
            }),
    {
        let body = Self::open_failure_packet(channel.0, reason, description, language);
        self.stage_packet(&body)
    }

    /// Opens a lane for what comes in on a channel, where a reader runs.
    pub fn register_inbound_lane(&mut self, id: ChannelId)
        ensures
            final(self).app() == old(self).app(),
            final(self).peer() == old(self).peer().lane_registered(id.0),
    {
        if let Some(r) = &mut self.reader {
            r.open_lane(id.0, self.config.window_size, self.config.maximum_packet_size);
        }
    }

    /// Puts a lane with its confirmation in the table and lets it out.
    fn confirm_open(&mut self, pending: PendingChannelOpen) -> (r: Result<(), Error>)
        requires
            old(self).peer().common.enc is Some,
            old(self).peer().ok(),
            pending@.lane.fits(),
        ensures
            (final(self)@, r) == old(self)@.open_decided(
                OpenReply { pending: pending@, result: Ok(()) },
            ),
            final(self).peer().ok(),
    {
        proof {
            reveal(Sess::open_decided);
        }
        let id = pending.sender_channel;
        let mut params = pending.channel_params;
        let ghost item = Ctrl::OpenConfirmation {
            recipient_channel: pending.recipient_channel,
            sender_channel: id.0,
            window_size: pending.window_size,
            packet_size: pending.packet_size,
        };
        let ghost lane = pending@.lane.enqueue_ctrl(item);
        params.enqueue_ctrl(
            ChannelCtrlItem::OpenConfirmation {
                recipient_channel: pending.recipient_channel,
                sender_channel: id.0,
                window_size: pending.window_size,
                packet_size: pending.packet_size,
            },
        );
        self.channels.insert(id.0, pending.channel_ref);
        if let Some(enc) = &mut self.common.encrypted {
            let ghost st = enc@;
            enc.channels.insert(id.0, params);
            assert(enc@ =~= st.with_lane(id.0, lane));
            proof {
                sending::lemma_enqueue_fits(pending@.lane, item);
                closing::lemma_with_lane_ok(st, id.0, lane);
                closing::lemma_flush_lane_ok(st.with_lane(id.0, lane), id.0, true);
            }
            enc.flush_pending(id)?;
        }
        self.register_inbound_lane(id);
        Ok(())
    }

    /// Carries out the application's decision on a channel that the peer asked
    /// for.
    pub fn finalize_channel_open_reply(
        &mut self,
        pending: PendingChannelOpen,
        result: Result<(), Refusal>,
    ) -> (r: Result<(), Error>)
        requires
            old(self).peer().ok(),
            pending@.lane.fits(),
        ensures
            (final(self)@, r) == old(self)@.open_decided(
                OpenReply { pending: pending@, result: session::decision(result) },
            ),
            (OpenReply { pending: pending@, result: session::decision(result) }).fits() ==> final(
                self).peer().ok(),
    {
        proof {
            reveal(Sess::open_decided);
        }
        if self.common.encrypted.is_none() {
            return Ok(());
        }
        match result {
            Ok(()) => self.confirm_open(pending),
            Err(refusal) => {
                let body = Self::open_failure_packet(
                    pending.recipient_channel,
                    refusal.reason,
                    refusal.description.as_str(),
                    "en",
                );
                proof {
                    reveal_strlit("en");
                    sending::lemma_ascii_len("en");
                }
                self.stage_packet(&body)
            },
        }
    }

    /// Carries out every decision that waits. This comes before any message of
    /// the application, so that its data finds the channel it is for.
    pub fn drain_open_replies(&mut self) -> (r: Result<(), Error>)
        requires
            old(self).peer().ok(),
            old(self).app().replies_fit(),
        ensures
            (final(self)@, r) == old(self)@.opens_decided(),
            final(self).peer().ok(),
    {
        let ghost want = self@.opens_decided();
        while self.open_replies.len() > 0
            invariant
                self.peer().ok(),
                self.app().replies_fit(),
                self@.opens_decided() == want,
                want == old(self)@.opens_decided(),
            decreases self.app().open_replies.len(),
        {
            let ghost before = self@;
            if let Some(reply) = self.open_replies.pop_front() {
                assert(session::open_replies_view(self.open_replies@)
                    =~= before.app.open_replies.drop_first());
                proof {
                    assert(before.app.open_replies[0] == reply@);
                    lemma_open_decided_replies(self@, reply@);
                    assert(reply@.fits());
                    assert forall|j: int| 0 <= j < self.app().open_replies.len() implies (
                    #[trigger] self.app().open_replies[j]).fits() by {
                        assert(self.app().open_replies[j] == before.app.open_replies[j + 1]);
                    }
                }
                self.finalize_channel_open_reply(reply.pending, reply.result)?;
            }
        }
        Ok(())
    }
}

impl OpenReply {
    /// What the decision sends fits packets.
    pub open spec fn fits(self) -> bool {
        &&& self.pending.lane.fits()
        &&& self.result matches Err(x) ==> x.description.len() <= 0xff00_0000
    }
}

impl App {
    /// What the decisions that wait send fits packets.
    pub open spec fn replies_fit(self) -> bool {
        forall|j: int| 0 <= j < self.open_replies.len() ==> (#[trigger] self.open_replies[j]).fits()
    }
}

/// Carrying out a decision leaves the others waiting.
proof fn lemma_open_decided_replies(s: Sess, r: OpenReply)
    ensures
        s.open_decided(r).0.app.open_replies == s.app.open_replies,
{
    reveal(Sess::open_decided);
}

impl Session {
    /// The most that the next packet on a channel may carry.
    pub fn writable_packet_size(&self, channel: ChannelId) -> (r: u32)
        ensures
            r == (match self.peer().lane(channel.0) {
                Some(l) => if l.sender_window_size < l.sender_maximum_packet_size {
                    l.sender_window_size
                } else {
                    l.sender_maximum_packet_size
                },
                None => 0,
            }),
    {
        match &self.common.encrypted {
            Some(enc) => match enc.channels.get(&channel.0) {
                Some(ch) => if ch.sender_window_size < ch.sender_maximum_packet_size {
                    ch.sender_window_size
                } else {
                    ch.sender_maximum_packet_size
                },
                None => 0,
            },
            None => 0,
        }
    }

    /// The window of a channel.
    pub fn window_size(&self, channel: ChannelId) -> (r: u32)
        ensures
            r == (match self.peer().lane(channel.0) {
                Some(l) => l.sender_window_size,
                None => 0,
            }),
    {
        match &self.common.encrypted {
            Some(enc) => match enc.channels.get(&channel.0) {
                Some(ch) => ch.sender_window_size,
                None => 0,
            },
            None => 0,
        }
    }

    /// The packet size of a channel.
    pub fn max_packet_size(&self, channel: ChannelId) -> (r: u32)
        ensures
            r == (match self.peer().lane(channel.0) {
                Some(l) => l.sender_maximum_packet_size,
                None => 0,
            }),
    {
        match &self.common.encrypted {
            Some(enc) => match enc.channels.get(&channel.0) {
                Some(ch) => ch.sender_maximum_packet_size,
                None => 0,
            },
            None => 0,
        }
    }

    /// The window of a channel, as a length.
    pub fn sender_window_size(&self, channel: ChannelId) -> (r: usize)
        ensures
            r == (match self.peer().lane(channel.0) {
                Some(l) => l.sender_window_size as usize,
                None => 0,
            }),
    {
        match &self.common.encrypted {
            Some(enc) => enc.sender_window_size(channel),
            None => 0,
        }
    }

    /// Whether data is queued on a channel.
    pub fn has_pending_data(&self, channel: ChannelId) -> (r: bool)
        ensures
            r == (self.peer().lane(channel.0) matches Some(l) && l.data.len() > 0),
    {
        match &self.common.encrypted {
            Some(enc) => enc.has_pending_data(channel),
            None => false,
        }
    }

    /// The configuration of this session.
    pub fn config(&self) -> (r: &Config)
        ensures
            *r == self.peer().config,
    {
        &self.config
    }

    /// The version string that the client sent.
    pub fn remote_sshid(&self) -> (r: &[u8])
        ensures
            r@ == self.peer().common.remote_sshid,
    {
        self.common.remote_sshid.as_slice()
    }

    /// Sends a DISCONNECT; only the first call sends one.
    pub fn disconnect(&mut self, reason: u32, description: &str, language_tag: &str) -> (r: Result<
        (),
        Error,
    >)
        ensures
            final(self).app() == old(self).app(),
            (final(self).peer(), r) == old(self).peer().disconnected(
                common_session::disconnect_body(
                    reason,
                    wire::text(description@),
                    wire::text(language_tag@),
                ),
            ),
            old(self).peer().ok() && common_session::disconnect_body(
                reason,
                wire::text(description@),
                wire::text(language_tag@),
            ).frames() ==> final(self).peer().ok(),
    {
        proof {
            let b = common_session::disconnect_body(
                reason,
                wire::text(description@),
                wire::text(language_tag@),
            );
            if self.peer().ok() && b.frames() && self.peer().common.enc is Some {
                lemma_staged_body_ok(self.peer().st(), b);
            }
        }
        self.common.disconnect(reason, description, language_tag)
    }

    /// Sends a DEBUG message to the client.
    pub fn debug(&mut self, always_display: bool, message: &str, language_tag: &str) -> (r: Result<
        (),
        Error,
    >)
        ensures
            final(self).app() == old(self).app(),
            ({
                let b = common_session::debug_body(
                    always_display,
                    wire::text(message@),
                    wire::text(language_tag@),
                );
                &&& r == b.result()
                &&& final(self).peer() == (Peer {
                    common: old(self).peer().common.sent(b),
                    ..old(self).peer()
                })
                &&& old(self).peer().ok() && b.frames() ==> final(self).peer().ok()
            }),
    {
        proof {
            let b = common_session::debug_body(
                always_display,
                wire::text(message@),
                wire::text(language_tag@),
            );
            if self.peer().ok() && b.frames() && self.peer().common.enc is Some {
                lemma_staged_body_ok(self.peer().st(), b);
            }
        }
        self.common.debug(always_display, message, language_tag)
    }
}

impl Peer {
    /// A DISCONNECT sent, unless one has been.
    pub open spec fn disconnected(self, b: Body) -> (Peer, Result<(), Error>) {
        let (common, r) = self.common.hung_up(b);
        (Peer { common, ..self }, r)
    }
}

} // verus!
