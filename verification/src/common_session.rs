//! What a session has in common on either end: the keys in force, the packet
//! buffer, and the messages that need neither a channel nor a request.
use std::collections::HashMap;
use vstd::prelude::*;

use crate::msg;
use crate::channel::Lane;
use crate::error::Error;
use crate::session;
use crate::session::{Encrypted, EncryptedState, Exchange, KexAlgorithm, MacName, Staging};
use crate::sshbuffer::{CipherKey, Compression, PacketSink, PacketWriter, Stream};
use crate::wire;
use crate::wire::{bytes_mut_extend, bytes_mut_new, Body, PacketBody};

verus! {

broadcast use vstd::std_specs::hash::group_hash_axioms;

/// The keys for both directions.
#[derive(Clone, Copy, Debug, PartialEq, Eq, Structural)]
pub struct CipherPair {
    pub local_to_remote: CipherKey,
    pub remote_to_local: CipherKey,
}

/// What a key exchange agreed on.
#[derive(Clone, Copy, Debug, PartialEq, Eq, Structural)]
pub struct Names {
    pub client_mac: MacName,
    pub server_mac: MacName,
    pub client_compression: Compression,
    pub server_compression: Compression,
    /// Both ends asked for sequence numbers to start over with each key.
    pub strict_kex: bool,
}

/// The outcome of a key exchange.
#[derive(Debug)]
pub struct NewKeys {
    pub exchange: Exchange,
    pub names: Names,
    pub kex: KexAlgorithm,
    pub key: usize,
    pub cipher: CipherPair,
    pub session_id: Vec<u8>,
}

/// The part of an [`Encrypted`] that a key exchange or authentication changes.
#[verifier::ext_equal]
pub struct Keys {
    pub state: EncryptedState,
    pub exchange: Option<Exchange>,
    pub kex: KexAlgorithm,
    pub key: usize,
    pub client_mac: MacName,
    pub server_mac: MacName,
    pub session_id: Vec<u8>,
    pub last_rekey: u64,
    pub server_compression: Compression,
    pub client_compression: Compression,
    pub decompress: Stream,
    pub received_extensions: Vec<String>,
}

/// All of an [`Encrypted`].
#[verifier::ext_equal]
pub struct Enc {
    pub st: Staging,
    pub keys: Keys,
}

impl Encrypted {
    /// The keys and what goes with them.
    pub open spec fn keys(self) -> Keys {
        Keys {
            state: self.state,
            exchange: self.exchange,
            kex: self.kex,
            key: self.key,
            client_mac: self.client_mac,
            server_mac: self.server_mac,
            session_id: self.session_id,
            last_rekey: self.last_rekey,
            server_compression: self.server_compression,
            client_compression: self.client_compression,
            decompress: self.decompress,
            received_extensions: self.received_extensions,
        }
    }

    /// Keys and staging together.
    pub open spec fn enc(self) -> Enc {
        Enc { st: self@, keys: self.keys() }
    }

    /// Right after the first key exchange: no channel, nothing staged.
    pub fn fresh(state: EncryptedState, newkeys: NewKeys, now: u64) -> (r: Encrypted)
        ensures
            r@ == (Staging {
                channels: Map::empty(),
                write: Seq::empty(),
                cursor: 0,
                last_channel_id: 1,
                rekey_wanted: false,
            }),
            r.keys() == (Keys {
                state,
                exchange: Some(newkeys.exchange),
                kex: newkeys.kex,
                key: newkeys.key,
                client_mac: newkeys.names.client_mac,
                server_mac: newkeys.names.server_mac,
                session_id: newkeys.session_id,
                last_rekey: now,
                server_compression: newkeys.names.server_compression,
                client_compression: newkeys.names.client_compression,
                decompress: Stream::Off,
                received_extensions: r.received_extensions,
            }),
            r.received_extensions@.len() == 0,
    {
        let r = Encrypted {
            exchange: Some(newkeys.exchange),
            kex: newkeys.kex,
            key: newkeys.key,
            client_mac: newkeys.names.client_mac,
            server_mac: newkeys.names.server_mac,
            session_id: newkeys.session_id,
            state,
            channels: HashMap::new(),
            last_channel_id: 1,
            write: bytes_mut_new(),
            write_cursor: 0,
            last_rekey: now,
            server_compression: newkeys.names.server_compression,
            client_compression: newkeys.names.client_compression,
            decompress: Stream::Off,
            rekey_wanted: false,
            received_extensions: Vec::new(),
        };
        assert(session::lanes(r.channels@) =~= Map::<u32, Lane>::empty());
        r
    }

    /// Stages a packet, or what there is of it.
    pub fn stage_body(&mut self, body: &PacketBody) -> (r: Result<(), Error>)
        ensures
            r == body@.result(),
            final(self)@ == old(self)@.staged_body(body@),
            final(self).keys() == old(self).keys(),
    {
        let framed = body.framed();
        bytes_mut_extend(&mut self.write, framed.as_slice());
        body.result()
    }
}

impl Staging {
    /// A packet staged behind the others, as far as it could be encoded.
    pub open spec fn staged_body(self, b: Body) -> Staging {
        Staging { write: self.write + b.framed(), ..self }
    }
}

/// What both ends of a session hold.
#[derive(Debug)]
pub struct CommonSession {
    pub remote_sshid: Vec<u8>,
    pub encrypted: Option<Encrypted>,
    pub packet_writer: PacketWriter,
    pub remote_to_local: CipherKey,
    pub wants_reply: bool,
    pub disconnected: bool,
    pub strict_kex: bool,
    pub alive_timeouts: usize,
    pub received_data: bool,
}

/// The content of a [`CommonSession`].
#[verifier::ext_equal]
pub struct Common {
    pub remote_sshid: Seq<u8>,
    pub enc: Option<Enc>,
    pub sink: PacketSink,
    pub remote_to_local: CipherKey,
    pub wants_reply: bool,
    pub disconnected: bool,
    pub strict_kex: bool,
    pub alive_timeouts: usize,
    pub received_data: bool,
}

impl View for CommonSession {
    type V = Common;

    open spec fn view(&self) -> Common {
        Common {
            remote_sshid: self.remote_sshid@,
            enc: match self.encrypted {
                Some(e) => Some(e.enc()),
                None => None,
            },
            sink: self.packet_writer@,
            remote_to_local: self.remote_to_local,
            wants_reply: self.wants_reply,
            disconnected: self.disconnected,
            strict_kex: self.strict_kex,
            alive_timeouts: self.alive_timeouts,
            received_data: self.received_data,
        }
    }
}

impl Common {
    /// A packet put where packets go: staged once there are keys, straight
    /// into the packet buffer before.
    pub open spec fn sent(self, b: Body) -> Common {
        match self.enc {
            Some(e) => Common { enc: Some(Enc { st: e.st.staged_body(b), ..e }), ..self },
            None => Common {
                sink: PacketSink { wire: self.sink.wire + b.framed(), ..self.sink },
                ..self
            },
        }
    }

    /// A DISCONNECT sent, unless one has been.
    pub open spec fn hung_up(self, b: Body) -> (Common, Result<(), Error>) {
        if self.disconnected {
            (self, Ok(()))
        } else {
            ((Common { disconnected: true, ..self }).sent(b), b.result())
        }
    }

    /// New keys in force in both directions, on the client's side.
    pub open spec fn rekeyed(self, n: NewKeys) -> Common {
        match self.enc {
            None => self,
            Some(e) => Common {
                enc: Some(
                    Enc {
                        keys: Keys {
                            exchange: Some(n.exchange),
                            kex: n.kex,
                            key: n.key,
                            client_mac: n.names.client_mac,
                            server_mac: n.names.server_mac,
                            client_compression: n.names.client_compression,
                            server_compression: n.names.server_compression,
                            decompress: n.names.server_compression.stream(),
                            ..e.keys
                        },
                        ..e
                    },
                ),
                remote_to_local: n.cipher.remote_to_local,
                sink: PacketSink {
                    cipher: n.cipher.local_to_remote,
                    compress: n.names.client_compression.stream(),
                    ..self.sink
                },
                strict_kex: self.strict_kex || n.names.strict_kex,
                ..self
            },
        }
    }

    /// The first keys in force for what comes in; a compressor that waits for
    /// authentication stays off.
    pub open spec fn first_keyed(
        self,
        state: EncryptedState,
        n: NewKeys,
        is_server: bool,
        now: u64,
        after: Common,
    ) -> bool {
        let inbound = if is_server {
            n.names.client_compression
        } else {
            n.names.server_compression
        };
        &&& after.enc matches Some(e) && {
            &&& e.st == (Staging {
                channels: Map::empty(),
                write: Seq::empty(),
                cursor: 0,
                last_channel_id: 1,
                rekey_wanted: false,
            })
            &&& e.keys == (Keys {
                state,
                exchange: Some(n.exchange),
                kex: n.kex,
                key: n.key,
                client_mac: n.names.client_mac,
                server_mac: n.names.server_mac,
                session_id: n.session_id,
                last_rekey: now,
                server_compression: n.names.server_compression,
                client_compression: n.names.client_compression,
                decompress: if inbound == Compression::ZlibDeferred {
                    Stream::Off
                } else {
                    inbound.stream()
                },
                received_extensions: e.keys.received_extensions,
            })
            &&& e.keys.received_extensions@.len() == 0
        }
        &&& after == (Common {
            enc: after.enc,
            remote_to_local: n.cipher.remote_to_local,
            strict_kex: n.names.strict_kex,
            ..self
        })
    }
}

/// A DISCONNECT message.
pub open spec fn disconnect_body(reason: u32, description: Seq<u8>, language_tag: Seq<u8>) -> Body {
    Body::of(msg::DISCONNECT).u32(reason).str(description).str(language_tag)
}

/// A DEBUG message.
pub open spec fn debug_body(always_display: bool, message: Seq<u8>, language_tag: Seq<u8>) -> Body {
    Body::of(msg::DEBUG).u8(
        if always_display {
            1
        } else {
            0
        },
    ).str(message).str(language_tag)
}

impl CommonSession {
    /// Takes the keys of a later exchange into use in both directions, on the
    /// client's side, with the compression that was agreed on with them.
    pub fn newkeys(&mut self, newkeys: NewKeys)
        ensures
            final(self)@ == old(self)@.rekeyed(newkeys),
    {
        if let Some(enc) = &mut self.encrypted {
            enc.exchange = Some(newkeys.exchange);
            enc.kex = newkeys.kex;
            enc.key = newkeys.key;
            enc.client_mac = newkeys.names.client_mac;
            enc.server_mac = newkeys.names.server_mac;
            self.remote_to_local = newkeys.cipher.remote_to_local;
            self.packet_writer.set_cipher(newkeys.cipher.local_to_remote);
            self.strict_kex = self.strict_kex || newkeys.names.strict_kex;
            enc.client_compression = newkeys.names.client_compression;
            enc.server_compression = newkeys.names.server_compression;
            enc.client_compression.init_compress(&mut self.packet_writer.compress);
            enc.server_compression.init_decompress(&mut enc.decompress);
        }
    }

    /// Takes the first keys into use in both directions, on the client's side.
    pub fn encrypted(&mut self, state: EncryptedState, newkeys: NewKeys, now: u64)
        ensures
            exists|mid: Common| #[trigger]
                old(self)@.first_keyed(state, newkeys, false, now, mid) && final(self)@ == (Common {
                    sink: PacketSink {
                        cipher: newkeys.cipher.local_to_remote,
                        compress: if newkeys.names.client_compression
                            == Compression::ZlibDeferred {
                            mid.sink.compress
                        } else {
                            newkeys.names.client_compression.stream()
                        },
                        ..mid.sink
                    },
                    ..mid
                }),
    {
        let (local, outbound, _) = self.encrypted_split_outbound(state, newkeys, false, now);
        let ghost mid = self@;
        self.packet_writer.set_cipher(local);
        if !outbound.is_deferred() {
            outbound.init_compress(&mut self.packet_writer.compress);
        }
        assert(old(self)@.first_keyed(state, newkeys, false, now, mid));
    }

    /// Takes the first keys into use for what comes in, and returns what goes
    /// out: the key, the compression and whether sequence numbers start over.
    pub fn encrypted_split_outbound(
        &mut self,
        state: EncryptedState,
        newkeys: NewKeys,
        is_server: bool,
        now: u64,
    ) -> (r: (CipherKey, Compression, bool))
        ensures
            r.0 == newkeys.cipher.local_to_remote,
            r.1 == (if is_server {
                newkeys.names.server_compression
            } else {
                newkeys.names.client_compression
            }),
            r.2 == newkeys.names.strict_kex,
            old(self)@.first_keyed(state, newkeys, is_server, now, final(self)@),
    {
        let strict_kex: bool = newkeys.names.strict_kex;
        let outbound = if is_server {
            newkeys.names.server_compression
        } else {
            newkeys.names.client_compression
        };
        let cipher = newkeys.cipher;
        let mut enc = Encrypted::fresh(state, newkeys, now);
        self.remote_to_local = cipher.remote_to_local;
        self.strict_kex = strict_kex;
        let inbound = if is_server {
            enc.client_compression
        } else {
            enc.server_compression
        };
        if !inbound.is_deferred() {
            inbound.init_decompress(&mut enc.decompress);
        }
        self.encrypted = Some(enc);
        (cipher.local_to_remote, outbound, strict_kex)
    }

    /// Puts a packet where packets go.
    fn send(&mut self, body: &PacketBody) -> (r: Result<(), Error>)
        ensures
            r == body@.result(),
            final(self)@ == old(self)@.sent(body@),
    {
        match &mut self.encrypted {
            Some(enc) => enc.stage_body(body),
            None => {
                let framed = body.framed();
                self.packet_writer.write_buffer.buffer.extend_from_slice(framed.as_slice());
                body.result()
            },
        }
    }

    /// Sends a DISCONNECT; only the first call sends one.
    pub fn disconnect(&mut self, reason: u32, description: &str, language_tag: &str) -> (r: Result<
        (),
        Error,
    >)
        ensures
            (final(self)@, r) == old(self)@.hung_up(
                disconnect_body(reason, wire::text(description@), wire::text(language_tag@)),
            ),
    {
        if self.disconnected {
            return Ok(());
        }
        self.disconnected = true;
        let mut body = PacketBody::new(msg::DISCONNECT);
        body.put_u32(reason);
        body.put_bytes(description.as_bytes());
        body.put_bytes(language_tag.as_bytes());
        self.send(&body)
    }

    /// Sends a DEBUG message.
    pub fn debug(&mut self, always_display: bool, message: &str, language_tag: &str) -> (r: Result<
        (),
        Error,
    >)
        ensures
            ({
                let b = debug_body(
                    always_display,
                    wire::text(message@),
                    wire::text(language_tag@),
                );
                &&& r == b.result()
                &&& final(self)@ == old(self)@.sent(b)
            }),
    {
        let mut body = PacketBody::new(msg::DEBUG);
        body.put_u8(
            if always_display {
                1
            } else {
                0
            },
        );
        body.put_bytes(message.as_bytes());
        body.put_bytes(language_tag.as_bytes());
        self.send(&body)
    }

    /// Starts the next packet at sequence number zero.
    pub fn reset_seqn(&mut self)
        ensures
            final(self)@ == (Common {
                sink: PacketSink { seqn: 0, ..old(self)@.sink },
                ..old(self)@
            }),
    {
        self.packet_writer.reset_seqn();
    }
}

/// What compression a session holds for either direction after a key exchange
/// that agreed on another pair than the one before.
pub fn newkeys_rewrites_compression_enums(
    old_client: Compression,
    old_server: Compression,
    new_client: Compression,
    new_server: Compression,
) -> (r: (Compression, Compression))
    ensures
        r == (new_client, new_server),
{
    let mac = MacName(0);
    let kex = KexAlgorithm { id: 0, skip_exchange: true };
    let cipher = CipherPair {
        local_to_remote: CipherKey::clear(),
        remote_to_local: CipherKey::clear(),
    };
    let first = NewKeys {
        exchange: Exchange::default(),
        names: Names {
            client_mac: mac,
            server_mac: mac,
            client_compression: old_client,
            server_compression: old_server,
            strict_kex: false,
        },
        kex,
        key: 0,
        cipher,
        session_id: Vec::new(),
    };
    let mut common = CommonSession {
        remote_sshid: Vec::new(),
        encrypted: Some(Encrypted::fresh(EncryptedState::Authenticated, first, 0)),
        packet_writer: PacketWriter::clear(),
        remote_to_local: CipherKey::clear(),
        wants_reply: false,
        disconnected: false,
        strict_kex: false,
        alive_timeouts: 0,
        received_data: false,
    };
    common.newkeys(
        NewKeys {
            exchange: Exchange::default(),
            names: Names {
                client_mac: mac,
                server_mac: mac,
                client_compression: new_client,
                server_compression: new_server,
                strict_kex: false,
            },
            kex,
            key: 0,
            cipher,
            session_id: Vec::new(),
        },
    );
    match common.encrypted {
        Some(enc) => (enc.client_compression, enc.server_compression),
        None => (old_client, old_server),
    }
}

/// A session sends at most one DISCONNECT: a second call changes nothing.
pub proof fn law_one_disconnect(c: Common, a: Body, b: Body)
    ensures
        c.hung_up(a).0.disconnected,
        c.hung_up(a).0.hung_up(b) == (c.hung_up(a).0, Ok::<(), Error>(())),
        c.disconnected ==> c.hung_up(a) == (c, Ok::<(), Error>(())),
{
}

/// A key exchange brings its own compression: nothing of the pair agreed on
/// before is left, in either direction.
pub proof fn law_rekey_replaces_compression(c: Common, n: NewKeys)
    requires
        c.enc is Some,
    ensures
        c.rekeyed(n).enc->0.keys.client_compression == n.names.client_compression,
        c.rekeyed(n).enc->0.keys.server_compression == n.names.server_compression,
        c.rekeyed(n).enc->0.keys.decompress == n.names.server_compression.stream(),
        c.rekeyed(n).sink.compress == n.names.client_compression.stream(),
        c.rekeyed(n).enc->0.st == c.enc->0.st,
{
}

} // verus!
