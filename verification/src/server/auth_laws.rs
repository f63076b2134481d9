//! The end of authentication, the extensions that are offered, and the keys
//! that a session starts and goes on with.
use vstd::prelude::*;

use crate::common_session;
use crate::common_session::{Common, NewKeys};
use crate::server::ext_info;
use crate::server::flush;
use crate::server::parked::ParkedCmd;
use crate::server::reader::ReaderCmd;
use crate::server::request_laws::staged_one;
use crate::server::sending;
use crate::server::session::{App, KexAfterInstall, Peer};
use crate::server::session_laws;
use crate::session::EncryptedState;
use crate::session::Staging;
use crate::sshbuffer::{Compression, Stream};
use crate::wire;
use crate::wire::{be32, ssh_string, text};
use crate::wire_laws;

verus! {

/// Once authentication is over the session says so, and a compressor that was
/// put off until then starts: for what goes out behind everything that was
/// submitted before, for what comes in at once.
pub proof fn law_authentication_starts_the_compressors(s: Peer)
    requires
        s.common.enc is Some,
        s.link is Some,
        s.authenticated().1 is Ok,
    ensures
        ({
            let k = s.common.enc->0.keys;
            let b = s.inbound_compress_started().flushed().0;
            let t = s.authenticated().0;
            &&& t.common.enc matches Some(e) && e.keys.state == EncryptedState::Authenticated
            &&& k.server_compression == Compression::ZlibDeferred ==> t.line() == b.line().push(
                ParkedCmd::InitOutboundCompress(Compression::ZlibDeferred),
            )
            &&& k.server_compression != Compression::ZlibDeferred ==> t.line() == b.line()
            &&& k.client_compression == Compression::ZlibDeferred && (s.reader matches Some(r)
                && !r.closed) ==> (s.inbound_compress_started().reader matches Some(r)
                && r.cmds.last() == ReaderCmd::EnableDecompress(Compression::ZlibDeferred)
                && r.cmds.len() == s.reader->0.cmds.len() + 1)
            &&& k.client_compression == Compression::ZlibDeferred
                ==> s.inbound_compress_started().common.enc->0.keys.decompress != Stream::Off
            &&& k.client_compression != Compression::ZlibDeferred ==> s.inbound_compress_started()
                == s
        }),
{
    reveal(Peer::inbound_compress_started);
    reveal(Peer::outbound_compress_started);
    let a = s.inbound_compress_started();
    crate::server::schedule::lemma_flushed_lanes(a);
    lemma_flush_keeps_names(a);
    let b = a.flushed().0;
    let c = ParkedCmd::InitOutboundCompress(Compression::ZlibDeferred);
    let k = s.common.enc->0.keys;
    if k.server_compression == Compression::ZlibDeferred {
        flush::lemma_retried_keeps(b);
        session_laws::law_submissions_keep_their_order(b, c);
        assert(b.line() + seq![c] =~= b.line().push(c));
        let d = b.outbound_compress_started().0;
        assert(s.authenticated().0.line() == d.line());
    }
}

/// A flush changes neither the compression that was agreed on nor that there is
/// a writer.
proof fn lemma_flush_keeps_names(s: Peer)
    requires
        s.common.enc is Some,
    ensures
        s.flushed().0.common.enc is Some,
        s.flushed().0.common.enc->0.keys.server_compression
            == s.common.enc->0.keys.server_compression,
        s.link is Some ==> s.flushed().0.link is Some,
{
    reveal(Peer::flushed);
    flush::lemma_retried_keeps(s);
    let a = s.retried().0;
    if s.retried().1 is Ok {
        if a.link is Some {
            reveal(Peer::flushed_out);
            let b = a.restaged();
            crate::server::cap_laws::lemma_handed_on_frame(b, b.blocked());
            let c = b.handed_on(b.blocked()).0;
            let d = c.tidied();
            crate::server::cap_laws::lemma_noted(d);
            lemma_begun_keeps_names(d.rekey_noted(), d.rekey_due());
        } else {
            reveal(Peer::flushed_here);
            let e = a.common.enc->0;
            let sink = a.common.sink.all(wire::packets(a.unsent()));
            let due = !e.keys.kex.skip_exchange && (e.st.rekey_wanted || sink.bytes
                >= a.config.limits.max_bytes);
            let b = Peer { common: Common { sink, ..a.common }, ..a };
            let c = b.with_st(crate::session::Staging { write: Seq::empty(), cursor: 0, ..e.st });
            crate::server::cap_laws::lemma_noted(c);
            lemma_begun_keeps_names(c.rekey_noted(), due);
        }
    }
}

proof fn lemma_begun_keeps_names(s: Peer, due: bool)
    requires
        s.common.enc is Some,
    ensures
        s.begun_if(due).0.common.enc is Some,
        s.begun_if(due).0.common.enc->0.keys.server_compression
            == s.common.enc->0.keys.server_compression,
        s.link is Some ==> s.begun_if(due).0.link is Some,
{
    reveal(Peer::begun_if);
    reveal(Peer::begun);
    reveal(Peer::kexinit_sent);
    let e = s.common.enc->0;
    let t = Peer {
        common: Common {
            enc: Some(
                common_session::Enc {
                    keys: common_session::Keys { exchange: None, ..e.keys },
                    ..e
                },
            ),
            ..s.common
        },
        ..s
    };
    flush::lemma_retried_keeps(
        Peer { offer: None, kex: crate::server::session::SessionKexState::InProgress, ..t },
    );
}

/// A client that asked for extensions in its KEXINIT is offered the signature
/// algorithms, in one EXT_INFO; any other is offered nothing.
pub proof fn law_extensions_are_offered(s: Peer)
    requires
        s.ok(),
        s.common.enc is Some,
        ext_info::joined(s.sig_algs).len() < 0x1000_0000,
    ensures
        s.ext_info_wanted() ==> staged_one(
            s,
            s.ext_info_sent(),
            seq![7u8] + be32(1) + ssh_string(text("server-sig-algs"@)) + ssh_string(
                ext_info::joined(s.sig_algs),
            ),
        ),
        !s.ext_info_wanted() ==> s.ext_info_sent() == s,
{
    reveal(Staging::ok);
    if s.ext_info_wanted() {
        wire_laws::law_extension_message(s.sig_algs, Seq::empty());
        let b = ext_info::ext_info_body(s.sig_algs);
        reveal_strlit("server-sig-algs");
        sending::lemma_ascii_len("server-sig-algs");
        wire::lemma_frame_appended(s.unsent(), b.bytes);
        assert(s.ext_info_sent().unsent() =~= s.unsent() + wire::frame(b.bytes));
    }
}

/// A list that is joined from names without commas holds each of them.
pub proof fn law_joined_names_are_listed(names: Seq<Seq<u8>>, i: int)
    requires
        0 <= i < names.len(),
    ensures
        ext_info::listed(ext_info::joined(names), names[i]),
    decreases names.len(),
{
    let all = ext_info::joined(names);
    if names.len() == 1 {
        assert(all.subrange(0, all.len() as int) =~= names[0]);
        assert(ext_info::name_at(all, 0, all.len() as int, names[i]));
    } else {
        let init = names.drop_last();
        let front = ext_info::joined(init);
        let last = names.last();
        assert(all == front.push(44) + last);
        if i == names.len() - 1 {
            let a = (front.len() + 1) as int;
            assert(all.subrange(a, all.len() as int) =~= last);
            assert(ext_info::name_at(all, a, all.len() as int, names[i]));
        } else {
            law_joined_names_are_listed(init, i);
            let (a, b) = choose|a: int, b: int| ext_info::name_at(front, a, b, init[i]);
            assert(all.subrange(a, b) =~= front.subrange(a, b));
            assert(ext_info::name_at(all, a, b, names[i]));
        }
    }
}

/// On the client's side new keys take over in both directions at once, with
/// what was agreed on with them.
pub proof fn law_new_keys_take_over(c: Common, n: NewKeys)
    requires
        c.enc is Some,
    ensures
        ({
            let d = c.rekeyed(n);
            let k = d.enc->0.keys;
            &&& d.enc is Some
            &&& d.remote_to_local == n.cipher.remote_to_local
            &&& d.sink.cipher == n.cipher.local_to_remote
            &&& k.exchange == Some(n.exchange)
            &&& k.kex == n.kex && k.key == n.key
            &&& k.client_mac == n.names.client_mac && k.server_mac == n.names.server_mac
            &&& k.state == c.enc->0.keys.state && k.session_id == c.enc->0.keys.session_id
            &&& d.enc->0.st == c.enc->0.st
            &&& d.sink.wire == c.sink.wire && d.sink.seqn == c.sink.seqn
            &&& d.strict_kex <==> c.strict_kex || n.names.strict_kex
        }),
{
}

/// The first keys leave the session with no channel and nothing staged; a
/// compressor that waits for authentication stays off.
pub proof fn law_first_keys_start_afresh(
    c: Common,
    state: EncryptedState,
    n: NewKeys,
    now: u64,
    d: Common,
)
    requires
        c.first_keyed(state, n, true, now, d),
    ensures
        d.enc is Some,
        d.enc->0.st.channels.dom() == Set::<u32>::empty(),
        d.enc->0.st.write.len() == 0,
        d.enc->0.keys.state == state,
        d.enc->0.keys.session_id == n.session_id,
        d.enc->0.keys.exchange == Some(n.exchange),
        d.enc->0.keys.last_rekey == now,
        d.enc->0.keys.kex == n.kex,
        d.enc->0.keys.key == n.key,
        d.enc->0.keys.client_mac == n.names.client_mac,
        d.enc->0.keys.server_mac == n.names.server_mac,
        d.enc->0.keys.client_compression == n.names.client_compression,
        d.enc->0.keys.server_compression == n.names.server_compression,
        d.enc->0.st.last_channel_id == 1,
        !d.enc->0.st.rekey_wanted,
        d.remote_to_local == n.cipher.remote_to_local,
        d.strict_kex == n.names.strict_kex,
        d.sink == c.sink,
        n.names.client_compression == Compression::ZlibDeferred ==> d.enc->0.keys.decompress
            == Stream::Off,
        n.names.client_compression == Compression::Zlib ==> d.enc->0.keys.decompress
            != Stream::Off,
        n.names.client_compression == Compression::Plain ==> d.enc->0.keys.decompress
            == Stream::Off,
{
}

/// A packet goes where packets go: staged once there are keys, and straight
/// into the packet buffer before.
pub proof fn law_packets_go_where_they_should(c: Common, b: wire::Body)
    requires
        b.complete,
    ensures
        c.enc matches Some(e) ==> c.sent(b).enc->0.st.write == e.st.write + wire::frame(b.bytes)
            && c.sent(b).sink == c.sink,
        c.enc is None ==> c.sent(b).sink.wire == c.sink.wire + wire::frame(b.bytes),
{
}

/// Packets that are kept for later count as they are long.
pub proof fn law_kept_packets_are_counted(a: App, p: Seq<u8>)
    requires
        p.len() <= u32::MAX,
    ensures
        a.read_kept(p).pending_reads == a.pending_reads.push(p),
        a.pending_len + p.len() <= u32::MAX ==> a.read_kept(p).pending_len == a.pending_len
            + p.len(),
        a.reads_taken().pending_reads.len() == 0,
        a.reads_taken().pending_len == 0,
        a.reads_taken().inbound == a.inbound,
{
}

/// After the first exchange a client that asked for extensions is offered them,
/// and nothing else is staged; after a later one nothing is offered.
pub proof fn law_first_exchange_offers_extensions(s: Peer)
    requires
        s.ok(),
        s.common.enc is Some,
        ext_info::joined(s.sig_algs).len() < 0x1000_0000,
    ensures
        ({
            let t = s.after_install(KexAfterInstall::InitialComplete);
            &&& s.ext_info_wanted() ==> staged_one(
                s,
                t,
                seq![7u8] + be32(1) + ssh_string(text("server-sig-algs"@)) + ssh_string(
                    ext_info::joined(s.sig_algs),
                ),
            )
            &&& !s.ext_info_wanted() ==> t.unsent() == s.unsent() && t.line() == s.line()
        }),
{
    let i = s.idle();
    assert(i.ext_info_wanted() == s.ext_info_wanted());
    law_extensions_are_offered(i);
}

/// A KEXINIT whose first list of names holds `ext-info-c` asks for extensions;
/// one whose first list is empty does not.
pub proof fn law_kexinit_asks_for_extensions(
    head: Seq<u8>,
    names: Seq<Seq<u8>>,
    i: int,
    rest: Seq<u8>,
)
    requires
        head.len() == 17,
        0 <= i < names.len(),
        names[i] == text("ext-info-c"@),
        ext_info::joined(names).len() <= 0xfffff,
        vstd::utf8::valid_utf8(ext_info::joined(names)),
    ensures
        ext_info::wants_ext_info(head + ssh_string(ext_info::joined(names)) + rest),
        !ext_info::wants_ext_info(head + be32(0) + rest),
{
    let list = ext_info::joined(names);
    let k = head + ssh_string(list) + rest;
    let r = k.skip(17);
    assert(r =~= be32(list.len() as u32) + (list + rest));
    wire::lemma_be32(list.len() as u32, list + rest);
    assert(r.subrange(4, wire::frame_len(r)) =~= list);
    law_joined_names_are_listed(names, i);
    let e = head + be32(0) + rest;
    let q = e.skip(17);
    assert(q =~= be32(0) + rest);
    wire::lemma_be32(0, rest);
    assert(q.subrange(4, wire::frame_len(q)) =~= Seq::empty());
    reveal_strlit("ext-info-c");
    sending::lemma_ascii_len("ext-info-c");
    assert forall|a: int, b: int| !ext_info::name_at(Seq::empty(), a, b, text("ext-info-c"@)) by {
        if ext_info::name_at(Seq::empty(), a, b, text("ext-info-c"@)) {
            assert(Seq::<u8>::empty().subrange(a, b).len() == 0);
        }
    }
}

} // verus!
