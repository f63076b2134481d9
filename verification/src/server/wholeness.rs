//! Whether a session that was put together from its parts can be worked with.
use vstd::prelude::*;

use crate::channel::{ChannelCtrlItem, ChannelParams};
use crate::listing::sorted_keys;
use crate::server::session::Session;
use crate::session::{Encrypted, Staging};
use crate::staging_laws;
use crate::wire;
use crate::wire::{bytes_len, bytes_mut_as_slice, read_u32, MAX_FRAME_PAYLOAD};

verus! {

broadcast use vstd::std_specs::hash::group_hash_axioms;

/// Whether a buffer is made of complete frames from `at` on.
fn is_framed(buf: &[u8], at: usize) -> (r: bool)
    requires
        at <= buf@.len(),
    ensures
        r == wire::framed(buf@.skip(at as int)),
{
    let mut i: usize = at;
    while i < buf.len()
        invariant
            at <= i <= buf@.len(),
            wire::framed(buf@.skip(at as int)) == wire::framed(buf@.skip(i as int)),
        decreases buf@.len() - i,
    {
        if buf.len() - i < 4 {
            return false;
        }
        let head: &[u8] = &buf[i..buf.len()];
        let ghost rest = buf@.skip(i as int);
        assert(head@ =~= rest);
        let len: usize = read_u32(head) as usize;
        assert(len == wire::be_value(rest)) by {
            assert(rest.subrange(0, 4)[0] == rest[0]);
        }
        if len > buf.len() - i - 4 {
            return false;
        }
        assert(rest.skip(wire::frame_len(rest)) =~= buf@.skip(i + 4 + len));
        i = i + 4 + len;
    }
    assert(buf@.skip(i as int) =~= Seq::empty());
    true
}

/// Whether every request that is queued on a channel fits a packet.
fn requests_fit(ch: &ChannelParams) -> (r: bool)
    ensures
        r == ch@.fits(),
{
    let mut i: usize = 0;
    while i < ch.pending_ctrl.len()
        invariant
            i <= ch.pending_ctrl@.len(),
            forall|j: int| 0 <= j < i ==> #[trigger] staging_laws::ctrl_fits(ch@.ctrl[j].1),
        decreases ch.pending_ctrl@.len() - i,
    {
        let ghost c = ch@.ctrl[i as int].1;
        if let ChannelCtrlItem::Request { body } = &ch.pending_ctrl[i].1 {
            if bytes_len(body) >= MAX_FRAME_PAYLOAD as usize {
                assert(!staging_laws::ctrl_fits(c));
                return false;
            }
        }
        assert(staging_laws::ctrl_fits(c));
        i = i + 1;
    }
    true
}

/// Whether every request that is queued on any channel fits a packet.
fn all_requests_fit(enc: &Encrypted) -> (r: bool)
    ensures
        r == enc@.fits(),
{
    let ids: Vec<u32> = sorted_keys(&enc.channels);
    assert(enc.channels@.dom() =~= enc@.channels.dom());
    let mut i: usize = 0;
    while i < ids.len()
        invariant
            i <= ids@.len(),
            forall|j: int| 0 <= j < i ==> enc@.channels[#[trigger] ids@[j]].fits(),
            forall|x: u32| #[trigger] ids@.contains(x) <==> enc@.channels.contains_key(x),
        decreases ids@.len() - i,
    {
        let id: u32 = ids[i];
        assert(ids@.contains(id));
        if let Some(ch) = enc.channels.get(&id) {
            if !requests_fit(ch) {
                assert(!enc@.channels[id].fits());
                return false;
            }
        }
        i = i + 1;
    }
    assert forall|x: u32| #[trigger] enc@.channels.contains_key(x) implies enc@.channels[x].fits() by {
        assert(ids@.contains(x));
        let j = choose|j: int| 0 <= j < ids@.len() && ids@[j] == x;
        assert(enc@.channels[ids@[j]].fits());
    }
    true
}

impl Session {
    /// Whether what is staged can be read packet by packet and every queued
    /// request fits a packet. Every call keeps this.
    pub fn is_whole(&self) -> (r: bool)
        ensures
            r == self.peer().ok(),
    {
        proof {
            reveal(Staging::ok);
        }
        match &self.common.encrypted {
            None => true,
            Some(enc) => {
                let buf: &[u8] = bytes_mut_as_slice(&enc.write);
                if enc.write_cursor > buf.len() {
                    return false;
                }
                is_framed(buf, enc.write_cursor) && all_requests_fit(enc)
            },
        }
    }
}

} // verus!
