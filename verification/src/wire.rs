//! Byte-level vocabulary: big-endian integers, SSH strings, length-prefixed
//! staging frames, and the outside calls that read and write them.
use byteorder::{BigEndian, ByteOrder};
use bytes::{Bytes, BytesMut};
use ssh_encoding::{Decode, Encode};
use ssh_encoding::Error as EncodingError;
use vstd::prelude::*;

use crate::error::Error;

verus! {

/// `bytes::Bytes`, the shared immutable buffer that payloads travel in.
#[verifier::external_type_specification]
#[verifier::external_body]
pub struct ExBytes(bytes::Bytes);

/// `bytes::BytesMut`, the growable buffer that packets are staged in.
#[verifier::external_type_specification]
#[verifier::external_body]
pub struct ExBytesMut(bytes::BytesMut);

/// `ssh_encoding::Error`, the only thing an encoder can fail with.
#[verifier::external_type_specification]
#[verifier::external_body]
pub struct ExEncodingError(EncodingError);

/// The bytes that a `Bytes` holds.
pub uninterp spec fn bytes_view(b: Bytes) -> Seq<u8>;

/// The bytes that a `BytesMut` holds.
pub uninterp spec fn bytes_mut_view(b: BytesMut) -> Seq<u8>;

/// `Bytes::len`: how many bytes the buffer holds.
#[verifier::external_body]
pub(crate) fn bytes_len(b: &Bytes) -> (n: usize)
    ensures
        n == bytes_view(*b).len(),
{
    b.len()
}

/// `Bytes::as_ref`: the buffer's bytes, in order.
#[verifier::external_body]
pub(crate) fn bytes_as_slice(b: &Bytes) -> (s: &[u8])
    ensures
        s@ == bytes_view(*b),
{
    b.as_ref()
}

/// `Bytes::slice`: a new handle on the bytes from `start` up to `end`. It
/// panics outside `start <= end <= len`, so that is asked for.
#[verifier::external_body]
pub(crate) fn bytes_slice(b: &Bytes, start: usize, end: usize) -> (r: Bytes)
    requires
        start <= end <= bytes_view(*b).len(),
    ensures
        bytes_view(r) == bytes_view(*b).subrange(start as int, end as int),
{
    b.slice(start..end)
}

/// `Bytes::from(Vec<u8>)`: a buffer that holds exactly the vector's bytes.
#[verifier::external_body]
pub(crate) fn bytes_from_vec(v: Vec<u8>) -> (r: Bytes)
    ensures
        bytes_view(r) == v@,
{
    Bytes::from(v)
}

/// `Bytes::copy_from_slice`: a buffer with a copy of the slice's bytes.
#[verifier::external_body]
pub(crate) fn bytes_copy_from_slice(s: &[u8]) -> (r: Bytes)
    ensures
        bytes_view(r) == s@,
{
    Bytes::copy_from_slice(s)
}

/// `BytesMut::new`: an empty buffer.
#[verifier::external_body]
pub(crate) fn bytes_mut_new() -> (r: BytesMut)
    ensures
        bytes_mut_view(r) == Seq::<u8>::empty(),
{
    BytesMut::new()
}

/// `BytesMut::len`: how many bytes the buffer holds.
#[verifier::external_body]
pub(crate) fn bytes_mut_len(b: &BytesMut) -> (n: usize)
    ensures
        n == bytes_mut_view(*b).len(),
{
    b.len()
}

/// `BytesMut::as_ref`: the buffer's bytes, in order.
#[verifier::external_body]
pub(crate) fn bytes_mut_as_slice(b: &BytesMut) -> (s: &[u8])
    ensures
        s@ == bytes_mut_view(*b),
{
    b.as_ref()
}

/// `BytesMut::extend_from_slice`: appends the slice and changes nothing else.
#[verifier::external_body]
pub(crate) fn bytes_mut_extend(b: &mut BytesMut, s: &[u8])
    ensures
        bytes_mut_view(*final(b)) == bytes_mut_view(*old(b)) + s@,
{
    b.extend_from_slice(s)
}

/// `BytesMut::clear`: forgets every byte.
#[verifier::external_body]
pub(crate) fn bytes_mut_clear(b: &mut BytesMut)
    ensures
        bytes_mut_view(*final(b)) == Seq::<u8>::empty(),
{
    b.clear()
}

/// `BigEndian::read_u32`: the first four bytes as one number, most significant
/// byte first. It panics on fewer than four bytes, so four are asked for.
#[verifier::external_body]
pub(crate) fn read_u32(buf: &[u8]) -> (r: u32)
    requires
        buf@.len() >= 4,
    ensures
        r == be_value(buf@),
{
    BigEndian::read_u32(buf)
}

/// `BigEndian::write_u32`: overwrites the first four bytes with `n`, most
/// significant byte first. It panics on fewer than four bytes.
#[verifier::external_body]
pub(crate) fn write_u32(buf: &mut [u8], n: u32)
    requires
        old(buf)@.len() >= 4,
    ensures
        final(buf)@ == be32(n) + old(buf)@.skip(4),
{
    BigEndian::write_u32(buf, n)
}

/// `<u8 as ssh_encoding::Encode>::encode` into a `Vec<u8>`: appends the byte;
/// a `Vec` never refuses it.
#[verifier::external_body]
pub(crate) fn encode_u8(v: u8, out: &mut Vec<u8>) -> (r: Result<(), EncodingError>)
    ensures
        r is Ok,
        final(out)@ == old(out)@.push(v),
{
    v.encode(out)
}

/// `<u32 as ssh_encoding::Encode>::encode` into a `Vec<u8>`: appends four
/// bytes, most significant first; a `Vec` never refuses them.
#[verifier::external_body]
pub(crate) fn encode_u32(v: u32, out: &mut Vec<u8>) -> (r: Result<(), EncodingError>)
    ensures
        r is Ok,
        final(out)@ == old(out)@ + be32(v),
{
    v.encode(out)
}

/// `<[u8] as ssh_encoding::Encode>::encode` into a `Vec<u8>`: appends the
/// length as a `uint32` and then the bytes. It fails, having written nothing,
/// exactly when the length does not fit a `uint32`.
#[verifier::external_body]
pub(crate) fn encode_slice(v: &[u8], out: &mut Vec<u8>) -> (r: Result<(), EncodingError>)
    ensures
        r is Ok <==> v@.len() <= u32::MAX,
        r is Ok ==> final(out)@ == old(out)@ + ssh_string(v@),
        r is Err ==> final(out)@ == old(out)@,
{
    v.encode(out)
}

/// The longest string that [`decode_string`] reads.
pub const MAX_DECODED_STRING: u32 = 0xf_ffff;

/// `<String as ssh_encoding::Decode>::decode` from a slice: a `uint32` length
/// and then so many bytes of UTF-8. It fails exactly when the input is too
/// short, when the length is above the crate's limit of 1048575, or when the
/// bytes are not UTF-8. What follows the string is left alone.
#[verifier::external_body]
pub(crate) fn decode_string(buf: &[u8]) -> (r: Result<String, EncodingError>)
    ensures
        r is Ok <==> {
            &&& buf@.len() >= 4
            &&& be_value(buf@) <= MAX_DECODED_STRING
            &&& 4 + be_value(buf@) <= buf@.len()
            &&& vstd::utf8::valid_utf8(buf@.subrange(4, frame_len(buf@)))
        },
        r matches Ok(s) ==> text(s@) == buf@.subrange(4, frame_len(buf@)),
{
    let mut reader = buf;
    String::decode(&mut reader)
}

/// `x` as four bytes, most significant first.
pub open spec fn be32(x: u32) -> Seq<u8> {
    seq![
        (x / 0x100_0000) as u8,
        ((x / 0x1_0000) % 0x100) as u8,
        ((x / 0x100) % 0x100) as u8,
        (x % 0x100) as u8,
    ]
}

/// The number that the first four bytes of `s` spell, most significant first.
pub open spec fn be_value(s: Seq<u8>) -> nat {
    (s[0] * 0x100_0000 + s[1] * 0x1_0000 + s[2] * 0x100 + s[3]) as nat
}

/// The bytes of a text.
pub open spec fn text(s: Seq<char>) -> Seq<u8> {
    vstd::utf8::encode_utf8(s)
}

/// An SSH `string`: its length as a `uint32`, then its bytes.
pub open spec fn ssh_string(s: Seq<u8>) -> Seq<u8> {
    be32(s.len() as u32) + s
}

/// Writing a number and reading it back gives the number.
pub proof fn lemma_be32(x: u32, rest: Seq<u8>)
    ensures
        be32(x).len() == 4,
        be_value(be32(x) + rest) == x,
        be_value(be32(x)) == x,
{
    let s = be32(x) + rest;
    assert(s[0] == be32(x)[0] && s[1] == be32(x)[1] && s[2] == be32(x)[2] && s[3] == be32(x)[3]);
    assert(x / 0x100_0000 < 0x100);
    assert((x / 0x1_0000) % 0x100 + (x / 0x100_0000) * 0x100 == x / 0x1_0000);
    assert((x / 0x100) % 0x100 + (x / 0x1_0000) * 0x100 == x / 0x100);
    assert(x % 0x100 + (x / 0x100) * 0x100 == x);
}

/// The largest payload that a staging frame can announce.
pub const MAX_FRAME_PAYLOAD: u32 = 0xffff_ffff;

/// Worst-case wire overhead of one sealed packet: length, padding length,
/// padding and tag.
pub const WIRE_OVERHEAD_PER_PACKET: usize = 4 + 1 + 19 + 64;

/// A payload as it lies in the staging buffer: length prefix, then body.
pub open spec fn frame(p: Seq<u8>) -> Seq<u8> {
    be32(p.len() as u32) + p
}

/// The payloads of `ps`, framed one after the other.
pub open spec fn frames(ps: Seq<Seq<u8>>) -> Seq<u8>
    decreases ps.len(),
{
    if ps.len() == 0 {
        Seq::empty()
    } else {
        frames(ps.drop_last()) + frame(ps.last())
    }
}

/// How long the first frame of `s` is, prefix included.
pub open spec fn frame_len(s: Seq<u8>) -> int {
    4 + be_value(s) as int
}

/// `s` is made of complete frames and nothing else.
pub open spec fn framed(s: Seq<u8>) -> bool
    decreases s.len(),
{
    s.len() == 0 || {
        &&& s.len() >= 4
        &&& be_value(s) <= MAX_FRAME_PAYLOAD
        &&& frame_len(s) <= s.len()
        &&& framed(s.skip(frame_len(s)))
    }
}

/// The payloads of the complete frames at the start of `s`.
pub open spec fn packets(s: Seq<u8>) -> Seq<Seq<u8>>
    decreases s.len(),
{
    if s.len() < 4 || frame_len(s) > s.len() {
        Seq::empty()
    } else {
        seq![s.subrange(4, frame_len(s))] + packets(s.skip(frame_len(s)))
    }
}

/// Every payload of `ps` fits a frame.
pub open spec fn all_fit(ps: Seq<Seq<u8>>) -> bool {
    forall|i: int| 0 <= i < ps.len() ==> (#[trigger] ps[i]).len() <= MAX_FRAME_PAYLOAD
}

/// A frame put behind complete frames is read back as the last payload.
pub proof fn lemma_frame_appended(s: Seq<u8>, p: Seq<u8>)
    requires
        framed(s),
        p.len() <= MAX_FRAME_PAYLOAD,
    ensures
        framed(s + frame(p)),
        packets(s + frame(p)) == packets(s).push(p),
    decreases s.len(),
{
    let t = s + frame(p);
    if s.len() == 0 {
        assert(t =~= frame(p));
        lemma_be32(p.len() as u32, p);
        assert(t.skip(frame_len(t)) =~= Seq::<u8>::empty());
        assert(t.subrange(4, frame_len(t)) =~= p);
        assert(framed(t.skip(frame_len(t))));
        assert(framed(t));
        assert(packets(t.skip(frame_len(t))) =~= Seq::<Seq<u8>>::empty());
        assert(packets(t) =~= packets(s).push(p));
    } else {
        let n = frame_len(s);
        assert(t[0] == s[0] && t[1] == s[1] && t[2] == s[2] && t[3] == s[3]);
        assert(t.skip(n) =~= s.skip(n) + frame(p));
        assert(t.subrange(4, n) =~= s.subrange(4, n));
        lemma_frame_appended(s.skip(n), p);
        assert(frame_len(t) == n);
        assert(framed(t));
        assert(packets(t) =~= packets(s).push(p));
    }
}

/// Frames put behind complete frames are read back in order.
pub proof fn lemma_frames_appended(s: Seq<u8>, ps: Seq<Seq<u8>>)
    requires
        framed(s),
        all_fit(ps),
    ensures
        framed(s + frames(ps)),
        packets(s + frames(ps)) == packets(s) + ps,
    decreases ps.len(),
{
    if ps.len() == 0 {
        assert(s + frames(ps) =~= s);
        assert(packets(s) + ps =~= packets(s));
    } else {
        let init = ps.drop_last();
        assert(all_fit(init)) by {
            assert forall|i: int| 0 <= i < init.len() implies (#[trigger] init[i]).len()
                <= MAX_FRAME_PAYLOAD by {
                assert(init[i] == ps[i]);
            }
        }
        lemma_frames_appended(s, init);
        assert(ps.last() == ps[ps.len() - 1]);
        lemma_frame_appended(s + frames(init), ps.last());
        assert(s + frames(ps) =~= (s + frames(init)) + frame(ps.last()));
        assert(packets(s) + ps =~= (packets(s) + init).push(ps.last()));
    }
}

/// What is framed is read back unchanged: nothing is lost, joined or reordered.
pub proof fn law_frames_round_trip(ps: Seq<Seq<u8>>)
    requires
        all_fit(ps),
    ensures
        framed(frames(ps)),
        packets(frames(ps)) == ps,
{
    lemma_frames_appended(Seq::empty(), ps);
    assert(Seq::<u8>::empty() + frames(ps) =~= frames(ps));
    assert(packets(Seq::<u8>::empty()) + ps =~= ps);
}

/// The first frame of a framed buffer, and what is behind it.
pub proof fn lemma_first_frame(s: Seq<u8>)
    requires
        framed(s),
        s.len() > 0,
    ensures
        s.len() >= 4,
        frame_len(s) <= s.len(),
        framed(s.skip(frame_len(s))),
        packets(s).len() > 0,
        packets(s)[0] == s.subrange(4, frame_len(s)),
        packets(s).drop_first() == packets(s.skip(frame_len(s))),
{
    assert(packets(s).drop_first() =~= packets(s.skip(frame_len(s))));
}

/// One payload more at the end of a list of frames.
pub proof fn lemma_frames_push(ps: Seq<Seq<u8>>, p: Seq<u8>)
    ensures
        frames(ps.push(p)) == frames(ps) + frame(p),
{
    assert(ps.push(p).drop_last() =~= ps);
}

/// `n` as a `usize`, or the largest `usize` where it does not fit.
pub open spec fn sat(n: nat) -> usize {
    if n <= usize::MAX {
        n as usize
    } else {
        usize::MAX
    }
}

/// Appends a `uint32` field.
pub(crate) fn put_u32(out: &mut Vec<u8>, v: u32) -> (r: Result<(), Error>)
    ensures
        r is Ok,
        final(out)@ == old(out)@ + be32(v),
{
    match encode_u32(v, out) {
        Ok(()) => Ok(()),
        Err(_) => Err(Error::SshEncoding),
    }
}

/// Appends a `byte` field.
pub(crate) fn put_u8(out: &mut Vec<u8>, v: u8) -> (r: Result<(), Error>)
    ensures
        r is Ok,
        final(out)@ == old(out)@.push(v),
{
    match encode_u8(v, out) {
        Ok(()) => Ok(()),
        Err(_) => Err(Error::SshEncoding),
    }
}

/// Appends a `string` field; it is refused, and nothing is written, exactly
/// when its length does not fit.
pub(crate) fn put_bytes(out: &mut Vec<u8>, v: &[u8]) -> (r: Result<(), Error>)
    ensures
        r == (if v@.len() <= u32::MAX {
            Ok::<(), Error>(())
        } else {
            Err(Error::SshEncoding)
        }),
        r is Ok ==> final(out)@ == old(out)@ + ssh_string(v@),
        r is Err ==> final(out)@ == old(out)@,
{
    match encode_slice(v, out) {
        Ok(()) => Ok(()),
        Err(_) => Err(Error::SshEncoding),
    }
}

/// Multiplication that stops at the largest `usize`.
pub(crate) fn saturating_mul(a: usize, b: usize) -> (r: usize)
    ensures
        r == sat((a * b) as nat),
{
    match a.checked_mul(b) {
        Some(r) => r,
        None => usize::MAX,
    }
}

/// The fields of a packet as far as they could be encoded. A field that does
/// not fit ends the encoding.
#[verifier::ext_equal]
pub struct Body {
    pub bytes: Seq<u8>,
    pub complete: bool,
}

impl Body {
    /// A packet that begins with the message number `m`.
    pub open spec fn of(m: u8) -> Body {
        Body { bytes: seq![m], complete: true }
    }

    /// One more `byte` field.
    pub open spec fn u8(self, v: u8) -> Body {
        if self.complete {
            Body { bytes: self.bytes.push(v), ..self }
        } else {
            self
        }
    }

    /// One more `uint32` field.
    pub open spec fn u32(self, v: u32) -> Body {
        if self.complete {
            Body { bytes: self.bytes + be32(v), ..self }
        } else {
            self
        }
    }

    /// One more `string` field.
    pub open spec fn str(self, v: Seq<u8>) -> Body {
        if !self.complete {
            self
        } else if v.len() <= u32::MAX {
            Body { bytes: self.bytes + ssh_string(v), ..self }
        } else {
            Body { complete: false, ..self }
        }
    }

    /// What the encoding reports.
    pub open spec fn result(self) -> Result<(), Error> {
        if self.complete {
            Ok(())
        } else {
            Err(Error::SshEncoding)
        }
    }

    /// What is staged of the packet: the whole of it behind its length, or what
    /// there is of it behind a length of zero.
    pub open spec fn framed(self) -> Seq<u8> {
        if self.complete {
            frame(self.bytes)
        } else {
            be32(0) + self.bytes
        }
    }
}

/// A packet under construction.
#[derive(Debug)]
pub struct PacketBody {
    pub bytes: Vec<u8>,
    pub complete: bool,
}

impl View for PacketBody {
    type V = Body;

    open spec fn view(&self) -> Body {
        Body { bytes: self.bytes@, complete: self.complete }
    }
}

impl PacketBody {
    /// A packet that begins with the message number `m`.
    pub fn new(m: u8) -> (r: PacketBody)
        ensures
            r@ == Body::of(m),
    {
        let mut bytes: Vec<u8> = Vec::new();
        let _ = put_u8(&mut bytes, m);
        assert(bytes@ =~= seq![m]);
        PacketBody { bytes, complete: true }
    }

    /// No field yet.
    pub fn empty() -> (r: PacketBody)
        ensures
            r@ == (Body { bytes: Seq::empty(), complete: true }),
    {
        PacketBody { bytes: Vec::new(), complete: true }
    }

    /// One more `byte` field.
    pub fn put_u8(&mut self, v: u8)
        ensures
            final(self)@ == old(self)@.u8(v),
    {
        if self.complete {
            let _ = put_u8(&mut self.bytes, v);
        }
    }

    /// One more `uint32` field.
    pub fn put_u32(&mut self, v: u32)
        ensures
            final(self)@ == old(self)@.u32(v),
    {
        if self.complete {
            let _ = put_u32(&mut self.bytes, v);
        }
    }

    /// One more `string` field.
    pub fn put_bytes(&mut self, v: &[u8])
        ensures
            final(self)@ == old(self)@.str(v@),
    {
        if self.complete {
            if put_bytes(&mut self.bytes, v).is_err() {
                self.complete = false;
            }
        }
    }

    /// What the encoding reports.
    pub fn result(&self) -> (r: Result<(), Error>)
        ensures
            r == self@.result(),
    {
        if self.complete {
            Ok(())
        } else {
            Err(Error::SshEncoding)
        }
    }

    /// The packet behind its length, as it is staged.
    pub fn framed(&self) -> (r: Vec<u8>)
        ensures
            r@ == self@.framed(),
    {
        let mut out: Vec<u8> = vec![0, 0, 0, 0];
        if self.complete {
            #[verifier::truncate]
            let n: u32 = self.bytes.len() as u32;
            write_u32(out.as_mut_slice(), n);
        }
        assert(!self.complete ==> out@ =~= be32(0));
        out.extend_from_slice(self.bytes.as_slice());
        assert(out@ =~= self@.framed());
        out
    }
}

/// Stages one packet: the length prefix and the body, in that order.
pub(crate) fn stage(write: &mut BytesMut, body: &[u8])
    ensures
        bytes_mut_view(*final(write)) == bytes_mut_view(*old(write)) + frame(body@),
{
    let mut head: Vec<u8> = vec![0, 0, 0, 0];
    #[verifier::truncate]
    let n: u32 = body.len() as u32;
    write_u32(head.as_mut_slice(), n);
    assert(head@ =~= be32(body@.len() as u32));
    bytes_mut_extend(write, head.as_slice());
    bytes_mut_extend(write, body);
    assert(bytes_mut_view(*write) =~= bytes_mut_view(*old(write)) + frame(body@));
}

} // verus!
