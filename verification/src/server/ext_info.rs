//! Offering protocol extensions to a client that asked for them.
use vstd::prelude::*;

use crate::error::Error;
use crate::msg;
use crate::server::requests;
use crate::server::session::{Peer, Session};
use crate::sshbuffer;
use crate::wire;
use crate::wire::{bytes_as_slice, decode_string, Body, PacketBody};

verus! {

/// Where the name lists of a KEXINIT begin: behind the message number and the
/// cookie.
pub const KEXINIT_LISTS: usize = 17;

/// The name between positions `i` and `j` of a comma-separated list.
pub open spec fn name_at(list: Seq<u8>, i: int, j: int, name: Seq<u8>) -> bool {
    &&& 0 <= i <= j <= list.len()
    &&& i == 0 || list[i - 1] == 44
    &&& j == list.len() || list[j] == 44
    &&& list.subrange(i, j) == name
}

/// A comma-separated list holds a name.
pub open spec fn listed(list: Seq<u8>, name: Seq<u8>) -> bool {
    exists|i: int, j: int| name_at(list, i, j, name)
}

/// The names joined by commas.
pub open spec fn joined(names: Seq<Seq<u8>>) -> Seq<u8>
    decreases names.len(),
{
    if names.len() == 0 {
        Seq::empty()
    } else if names.len() == 1 {
        names[0]
    } else {
        joined(names.drop_last()).push(44) + names.last()
    }
}

/// The client's KEXINIT asks for extensions: its first name list can be read
/// and holds `ext-info-c`.
pub open spec fn wants_ext_info(kexinit: Seq<u8>) -> bool {
    let rest = kexinit.skip(KEXINIT_LISTS as int);
    &&& kexinit.len() >= KEXINIT_LISTS + 4
    &&& wire::be_value(rest) <= wire::MAX_DECODED_STRING
    &&& 4 + wire::be_value(rest) <= rest.len()
    &&& vstd::utf8::valid_utf8(rest.subrange(4, wire::frame_len(rest)))
    &&& listed(rest.subrange(4, wire::frame_len(rest)), wire::text("ext-info-c"@))
}

/// The EXT_INFO message: one extension, the signature algorithms.
pub open spec fn ext_info_body(algs: Seq<Seq<u8>>) -> Body {
    Body::of(msg::EXT_INFO).u32(1).str(wire::text("server-sig-algs"@)).str(joined(algs))
}

impl Peer {
    /// The client asked for extensions in the last key exchange.
    pub open spec fn ext_info_wanted(self) -> bool {
        self.common.enc matches Some(e) && e.keys.exchange matches Some(x) && wants_ext_info(
            wire::bytes_view(x.client_kex_init),
        )
    }

    /// The signature algorithms to offer fit a packet.
    pub open spec fn algs_fit(self) -> bool {
        ext_info_body(self.sig_algs).frames()
    }

    /// Extensions offered, if the client asked for them.
    pub open spec fn ext_info_sent(self) -> Peer {
        if self.ext_info_wanted() {
            self.with_st(self.st().staged_body(ext_info_body(self.sig_algs)))
        } else {
            self
        }
    }
}

/// Whether `list` holds `name` from position `i` to a comma or the end.
fn name_here(list: &[u8], i: usize, name: &[u8]) -> (r: bool)
    requires
        i <= list@.len(),
    ensures
        r == (i + name@.len() <= list@.len() && list@.subrange(i as int, i + name@.len()) == name@
            && (i + name@.len() == list@.len() || list@[i + name@.len()] == 44)),
{
    if name.len() > list.len() - i {
        return false;
    }
    let end: usize = i + name.len();
    let mut k: usize = 0;
    while k < name.len()
        invariant
            k <= name@.len(),
            end == i + name@.len(),
            end <= list@.len(),
            forall|x: int| 0 <= x < k ==> list@[i + x] == name@[x],
        decreases name@.len() - k,
    {
        if list[i + k] != name[k] {
            assert(list@.subrange(i as int, i + name@.len())[k as int] != name@[k as int]);
            return false;
        }
        k = k + 1;
    }
    assert(list@.subrange(i as int, i + name@.len()) =~= name@);
    end == list.len() || list[end] == 44
}

/// Whether a comma-separated list holds a name.
pub fn holds_name(list: &[u8], name: &[u8]) -> (r: bool)
    ensures
        r == listed(list@, name@),
{
    let mut i: usize = 0;
    while i <= list.len()
        invariant
            i <= list@.len() + 1,
            forall|x: int, y: int| 0 <= x < i ==> !name_at(list@, x, y, name@),
        decreases list@.len() + 1 - i,
    {
        let starts: bool = i == 0 || list[i - 1] == 44;
        if starts && name_here(list, i, name) {
            assert(name_at(list@, i as int, i + name@.len(), name@));
            return true;
        }
        assert forall|y: int| !name_at(list@, i as int, y, name@) by {
            if name_at(list@, i as int, y, name@) {
                assert(list@.subrange(i as int, y).len() == y - i);
            }
        }
        if i == list.len() {
            return false;
        }
        i = i + 1;
    }
    false
}

/// Joins names by commas.
pub fn join_names(names: &Vec<Vec<u8>>) -> (r: Vec<u8>)
    ensures
        r@ == joined(sshbuffer::contents(names@)),
{
    let ghost ns = sshbuffer::contents(names@);
    let mut r: Vec<u8> = Vec::new();
    let mut i: usize = 0;
    assert(ns.take(0) =~= Seq::empty());
    assert(r@ =~= Seq::empty());
    while i < names.len()
        invariant
            i <= names@.len(),
            ns == sshbuffer::contents(names@),
            r@ == joined(ns.take(i as int)),
        decreases names@.len() - i,
    {
        let ghost q = ns.take(i + 1);
        assert(q.drop_last() =~= ns.take(i as int));
        assert(q.last() == names@[i as int]@);
        if i > 0 {
            r.push(44);
        }
        r.extend_from_slice(names[i].as_slice());
        assert(r@ =~= joined(q));
        i = i + 1;
    }
    assert(ns.take(i as int) =~= ns);
    r
}

/// Whether a client's KEXINIT asks for extensions.
fn asks_for_ext_info(kexinit: &[u8]) -> (r: bool)
    ensures
        r == wants_ext_info(kexinit@),
{
    if kexinit.len() < KEXINIT_LISTS {
        return false;
    }
    let rest: &[u8] = &kexinit[KEXINIT_LISTS..kexinit.len()];
    assert(rest@ =~= kexinit@.skip(KEXINIT_LISTS as int));
    match decode_string(rest) {
        Ok(list) => {
            let name = "ext-info-c";
            holds_name(list.as_str().as_bytes(), name.as_bytes())
        },
        Err(_) => false,
    }
}

impl Session {
    /// Offers extensions, if the client asked for them.
    pub fn maybe_send_ext_info(&mut self) -> (r: Result<(), Error>)
        ensures
            final(self).app() == old(self).app(),
            final(self).peer() == old(self).peer().ext_info_sent(),
            r == (if old(self).peer().ext_info_wanted() {
                ext_info_body(old(self).peer().sig_algs).result()
            } else {
                Ok(())
            }),
            old(self).peer().ok() && old(self).peer().algs_fit() ==> final(self).peer().ok(),
    {
        let wanted: bool = match &self.common.encrypted {
            None => false,
            Some(enc) => match &enc.exchange {
                None => false,
                Some(e) => asks_for_ext_info(bytes_as_slice(&e.client_kex_init)),
            },
        };
        if !wanted {
            return Ok(());
        }
        let algs = join_names(&self.server_sig_algs);
        let label = "server-sig-algs";
        let mut body = PacketBody::new(msg::EXT_INFO);
        body.put_u32(1);
        body.put_bytes(label.as_bytes());
        body.put_bytes(algs.as_slice());
        match &mut self.common.encrypted {
            Some(enc) => {
                proof {
                    if enc@.ok() && body@.frames() {
                        requests::lemma_staged_body_ok(enc@, body@);
                    }
                }
                enc.stage_body(&body)
            },
            None => Ok(()),
        }
    }
}

} // verus!
