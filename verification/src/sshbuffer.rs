//! The outbound packet buffer used before a writer task exists.
use bytes::Bytes;
use vstd::prelude::*;

use crate::wire;
use crate::error::Error;
use crate::wire::{bytes_as_slice, bytes_from_vec, encode_u32};

verus! {

/// Sealed and pending bytes at which no new application data is taken in.
pub const OUTBOUND_HIGH_WATERMARK: usize = 128 * 1024;

/// A sealing or opening key, by number: the keys themselves live with the
/// program that holds the socket. Number 0 is the clear key.
#[derive(Clone, Copy, Debug, PartialEq, Eq, Structural)]
pub struct CipherKey(pub u64);

impl CipherKey {
    /// This is the key in force before the first NEWKEYS.
    pub open spec fn is_clear(self) -> bool {
        self.0 == 0
    }

    /// The key in force before the first NEWKEYS.
    pub fn clear() -> (r: CipherKey)
        ensures
            r.is_clear(),
            r == CipherKey(0),
    {
        CipherKey(0)
    }
}

/// A negotiated compression method.
#[derive(Clone, Copy, Debug, PartialEq, Eq, Structural)]
pub enum Compression {
    Plain,
    Zlib,
    /// `zlib@openssh.com`: only in force once the user is authenticated.
    ZlibDeferred,
}

/// A compressor or decompressor, running or not.
#[derive(Clone, Copy, Debug, PartialEq, Eq, Structural)]
pub enum Stream {
    Off,
    Zlib,
}

impl Compression {
    /// The stream that this method runs.
    pub open spec fn stream(self) -> Stream {
        if self == Compression::Plain {
            Stream::Off
        } else {
            Stream::Zlib
        }
    }

    /// Whether the method waits for authentication.
    pub fn is_deferred(&self) -> (r: bool)
        ensures
            r == (*self == Compression::ZlibDeferred),
    {
        *self == Compression::ZlibDeferred
    }

    /// Starts this method's compressor.
    pub fn init_compress(&self, s: &mut Stream)
        ensures
            *final(s) == self.stream(),
    {
        *s = match self {
            Compression::Plain => Stream::Off,
            _ => Stream::Zlib,
        };
    }

    /// Starts this method's decompressor.
    pub fn init_decompress(&self, s: &mut Stream)
        ensures
            *final(s) == self.stream(),
    {
        *s = match self {
            Compression::Plain => Stream::Off,
            _ => Stream::Zlib,
        };
    }
}

/// Outbound wire bytes, with the counters that go with them.
#[derive(Debug)]
pub struct SSHBuffer {
    pub buffer: Vec<u8>,
    /// Payload bytes sealed since the key was installed.
    pub bytes: usize,
    /// Packet sequence number; it wraps.
    pub seqn: u32,
}

/// Frames packets under the clear key; under any other key it keeps the
/// payloads in order for the holder of the key.
#[derive(Debug)]
pub struct PacketWriter {
    pub write_buffer: SSHBuffer,
    pub cipher: CipherKey,
    pub compress: Stream,
    pub unsealed: Vec<Vec<u8>>,
}

/// The mathematical content of a [`PacketWriter`].
#[verifier::ext_equal]
pub struct PacketSink {
    pub wire: Seq<u8>,
    pub bytes: usize,
    pub seqn: u32,
    pub cipher: CipherKey,
    pub compress: Stream,
    pub unsealed: Seq<Seq<u8>>,
}

/// The contents of each buffer of `v`.
pub open spec fn contents(v: Seq<Vec<u8>>) -> Seq<Seq<u8>> {
    v.map_values(|p: Vec<u8>| p@)
}

/// Padding of an unencrypted packet: to a multiple of eight, at least four.
pub open spec fn clear_padding(n: nat) -> nat {
    let p = (8 - (5 + n) % 8) as nat;
    if p < 4 {
        p + 8
    } else {
        p
    }
}

/// An unencrypted packet: length, padding length, payload, zero padding.
pub open spec fn clear_packet(p: Seq<u8>) -> Seq<u8> {
    let pad = clear_padding(p.len());
    wire::be32((p.len() + pad + 1) as u32) + seq![pad as u8] + p + Seq::new(pad, |i: int| 0u8)
}

impl PacketSink {
    /// What writing the packet `p` leaves; an empty packet is not written.
    pub open spec fn packet(self, p: Seq<u8>) -> PacketSink {
        if p.len() == 0 {
            self
        } else {
            PacketSink {
                wire: if self.cipher.is_clear() {
                    self.wire + clear_packet(p)
                } else {
                    self.wire
                },
                unsealed: if self.cipher.is_clear() {
                    self.unsealed
                } else {
                    self.unsealed.push(p)
                },
                bytes: self.bytes.wrapping_add(p.len() as usize),
                seqn: self.seqn.wrapping_add(1),
                ..self
            }
        }
    }

    /// The wire bytes of the packet `p`, with what was written before it: a
    /// clear packet, or what the holder of the key made of it.
    pub open spec fn seal_result(self, p: Seq<u8>, given: Option<Result<Seq<u8>, Error>>) -> Result<
        Seq<u8>,
        Error,
    > {
        if p.len() == 0 {
            Ok(self.wire)
        } else if self.cipher.is_clear() {
            Ok(self.wire + clear_packet(p))
        } else {
            match given {
                Some(Ok(w)) => Ok(self.wire + w),
                Some(Err(e)) => Err(e),
                None => Err(Error::Inconsistent),
            }
        }
    }

    /// What sealing the packet `p` and taking the wire bytes leaves.
    pub open spec fn sealed(self, p: Seq<u8>) -> PacketSink {
        PacketSink {
            wire: Seq::empty(),
            bytes: self.packet(p).bytes,
            seqn: self.packet(p).seqn,
            ..self
        }
    }

    /// What writing all of `ps`, in order, leaves.
    pub open spec fn all(self, ps: Seq<Seq<u8>>) -> PacketSink
        decreases ps.len(),
    {
        if ps.len() == 0 {
            self
        } else {
            self.all(ps.drop_last()).packet(ps.last())
        }
    }
}

/// The content of a packet that the holder of a key has sealed.
pub open spec fn given_view(g: Option<&Result<Bytes, Error>>) -> Option<Result<Seq<u8>, Error>> {
    match g {
        Some(Ok(b)) => Some(Ok(wire::bytes_view(*b))),
        Some(Err(e)) => Some(Err(*e)),
        None => None,
    }
}

/// Writing one packet more at the end.
pub proof fn lemma_all_push(s: PacketSink, ps: Seq<Seq<u8>>, p: Seq<u8>)
    ensures
        s.all(ps.push(p)) == s.all(ps).packet(p),
{
    assert(ps.push(p).drop_last() =~= ps);
}

impl View for PacketWriter {
    type V = PacketSink;

    open spec fn view(&self) -> PacketSink {
        PacketSink {
            wire: self.write_buffer.buffer@,
            bytes: self.write_buffer.bytes,
            seqn: self.write_buffer.seqn,
            cipher: self.cipher,
            compress: self.compress,
            unsealed: contents(self.unsealed@),
        }
    }
}

impl PacketWriter {
    /// An empty buffer under the clear key.
    pub fn clear() -> (r: PacketWriter)
        ensures
            r@ == (PacketSink {
                wire: Seq::empty(),
                bytes: 0,
                seqn: 0,
                cipher: CipherKey(0),
                compress: Stream::Off,
                unsealed: Seq::empty(),
            }),
    {
        let r = PacketWriter {
            write_buffer: SSHBuffer { buffer: Vec::new(), bytes: 0, seqn: 0 },
            cipher: CipherKey::clear(),
            compress: Stream::Off,
            unsealed: Vec::new(),
        };
        assert(contents(r.unsealed@) =~= Seq::<Seq<u8>>::empty());
        r
    }

    /// The wire bytes written so far.
    pub fn buffer(&self) -> (r: &SSHBuffer)
        ensures
            *r == self.write_buffer,
    {
        &self.write_buffer
    }

    /// Writes one packet.
    pub fn packet_raw(&mut self, payload: &[u8]) -> (r: Result<(), Error>)
        ensures
            r is Ok,
            final(self)@ == old(self)@.packet(payload@),
    {
        if payload.len() == 0 {
            return Ok(());
        }
        if self.cipher.0 == 0 {
            let over: usize = (5 + payload.len() % 8) % 8;
            proof {
                assert((5 + payload@.len() % 8) % 8 == (5 + payload@.len()) % 8);
            }
            let short: usize = 8 - over;
            let pad: usize = if short < 4 {
                short + 8
            } else {
                short
            };
            let length: u32 = (payload.len() as u128 + pad as u128 + 1) as u32;
            let _ = encode_u32(length, &mut self.write_buffer.buffer);
            self.write_buffer.buffer.push(pad as u8);
            self.write_buffer.buffer.extend_from_slice(payload);
            let ghost before = self.write_buffer.buffer@;
            let mut i: usize = 0;
            while i < pad
                invariant
                    i <= pad,
                    self.write_buffer.buffer@ == before + Seq::new(i as nat, |j: int| 0u8),
                    self.write_buffer.bytes == old(self).write_buffer.bytes,
                    self.write_buffer.seqn == old(self).write_buffer.seqn,
                    self.cipher == old(self).cipher,
                    self.compress == old(self).compress,
                    self.unsealed == old(self).unsealed,
                decreases pad - i,
            {
                self.write_buffer.buffer.push(0);
                i = i + 1;
                assert(self.write_buffer.buffer@ =~= before + Seq::new(i as nat, |j: int| 0u8));
            }
            assert(self.write_buffer.buffer@ =~= old(self).write_buffer.buffer@ + clear_packet(
                payload@,
            ));
        } else {
            let mut kept: Vec<u8> = Vec::new();
            kept.extend_from_slice(payload);
            assert(kept@ =~= payload@);
            self.unsealed.push(kept);
            assert(contents(self.unsealed@) =~= contents(old(self).unsealed@).push(payload@));
        }
        self.write_buffer.bytes = self.write_buffer.bytes.wrapping_add(payload.len());
        self.write_buffer.seqn = self.write_buffer.seqn.wrapping_add(1);
        Ok(())
    }

    /// Takes out the wire bytes written so far.
    pub fn take_pending_wire_bytes(&mut self) -> (r: Bytes)
        ensures
            wire::bytes_view(r) == old(self)@.wire,
            final(self)@ == (PacketSink { wire: Seq::empty(), ..old(self)@ }),
    {
        let mut taken: Vec<u8> = Vec::new();
        std::mem::swap(&mut self.write_buffer.buffer, &mut taken);
        bytes_from_vec(taken)
    }

    /// Seals one packet and takes out the wire bytes. Under the clear key the
    /// packet is made here; under any other key it is the one given.
    pub fn seal(&mut self, payload: &[u8], given: Option<&Result<Bytes, Error>>) -> (r: Result<
        Bytes,
        Error,
    >)
        ensures
            match old(self)@.seal_result(payload@, given_view(given)) {
                Ok(w) => {
                    &&& r matches Ok(b) && wire::bytes_view(b) == w
                    &&& final(self)@ == old(self)@.sealed(payload@)
                },
                Err(e) => {
                    &&& r matches Err(f) && f == e
                    &&& final(self)@ == old(self)@
                },
            },
    {
        if payload.len() == 0 || self.cipher.0 == 0 {
            let _ = self.packet_raw(payload);
            return Ok(self.take_pending_wire_bytes());
        }
        match given {
            Some(Ok(w)) => {
                let mut taken: Vec<u8> = Vec::new();
                std::mem::swap(&mut self.write_buffer.buffer, &mut taken);
                taken.extend_from_slice(bytes_as_slice(w));
                self.write_buffer.bytes = self.write_buffer.bytes.wrapping_add(payload.len());
                self.write_buffer.seqn = self.write_buffer.seqn.wrapping_add(1);
                Ok(bytes_from_vec(taken))
            },
            Some(Err(e)) => Err(*e),
            None => Err(Error::Inconsistent),
        }
    }

    /// Takes a new key into use for every later packet.
    pub fn set_cipher(&mut self, key: CipherKey)
        ensures
            final(self)@ == (PacketSink { cipher: key, ..old(self)@ }),
    {
        self.cipher = key;
    }

    /// Starts the next packet at sequence number zero.
    pub fn reset_seqn(&mut self)
        ensures
            final(self)@ == (PacketSink { seqn: 0, ..old(self)@ }),
    {
        self.write_buffer.seqn = 0;
    }
}

} // verus!
