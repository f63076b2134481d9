//! The messages as they go over the wire, byte by byte (RFC 4253, 4254, 8308).
use vstd::prelude::*;

use crate::channel::Ctrl;
use crate::common_session;
use crate::drain;
use crate::error::ChannelOpenFailure;
use crate::server::ext_info;
use crate::server::requests;
use crate::server::sending;
use crate::server::session::Config;
use crate::sshbuffer;
use crate::sshbuffer::PacketSink;
use crate::wire;
use crate::wire::{be32, ssh_string, text, Body};

verus! {

/// A number is spelled in four bytes, the most significant one first.
pub proof fn law_numbers_are_big_endian(x: u32)
    ensures
        be32(x).len() == 4,
        be32(x)[0] * 16777216 + be32(x)[1] * 65536 + be32(x)[2] * 256 + be32(x)[3] == x,
{
    wire::lemma_be32(x, Seq::empty());
}

/// A string is its length and its bytes.
pub proof fn law_strings_carry_their_length(s: Seq<u8>)
    requires
        s.len() <= u32::MAX,
    ensures
        ssh_string(s).len() == 4 + s.len(),
        ssh_string(s).take(4) == be32(s.len() as u32),
        ssh_string(s).skip(4) == s,
{
    assert(ssh_string(s).take(4) =~= be32(s.len() as u32));
    assert(ssh_string(s).skip(4) =~= s);
}

/// CHANNEL_DATA: the client's number for the channel, and the bytes.
/// CHANNEL_EXTENDED_DATA has the stream's code between them.
pub proof fn law_data_messages(to: u32, code: u32, bytes: Seq<u8>)
    ensures
        drain::data_payload(to, None, bytes) == seq![94u8] + be32(to) + be32(bytes.len() as u32)
            + bytes,
        drain::data_payload(to, Some(code), bytes) == seq![95u8] + be32(to) + be32(code) + be32(
            bytes.len() as u32,
        ) + bytes,
{
    assert(drain::data_payload(to, None, bytes) =~= seq![94u8] + be32(to) + be32(
        bytes.len() as u32,
    ) + bytes);
    assert(drain::data_payload(to, Some(code), bytes) =~= seq![95u8] + be32(to) + be32(code)
        + be32(bytes.len() as u32) + bytes);
}

/// What is said on a channel besides data. A confirmation names the client's
/// number first, then this side's, the window and the packet size.
pub proof fn law_control_messages(to: u32, theirs: u32, ours: u32, window: u32, size: u32)
    ensures
        drain::ctrl_payload(to, Ctrl::Eof) == seq![96u8] + be32(to),
        drain::ctrl_payload(to, Ctrl::Close) == seq![97u8] + be32(to),
        drain::ctrl_payload(to, Ctrl::Success) == seq![99u8] + be32(to),
        drain::ctrl_payload(to, Ctrl::Failure) == seq![100u8] + be32(to),
        drain::ctrl_payload(
            to,
            Ctrl::OpenConfirmation {
                recipient_channel: theirs,
                sender_channel: ours,
                window_size: window,
                packet_size: size,
            },
        ) == seq![91u8] + be32(theirs) + be32(ours) + be32(window) + be32(size),
{
}

/// A request is what it was made of, behind its message number.
pub proof fn law_request_messages(to: u32, body: Seq<u8>)
    ensures
        drain::ctrl_payload(to, Ctrl::Request(body)) == seq![98u8] + body,
{
}

/// The requests that this side makes on a channel: the client's number, the
/// kind, no wish for a reply, and what belongs to the kind.
pub proof fn law_channel_requests(
    to: u32,
    can_do: bool,
    status: u32,
    signal: Seq<u8>,
    dumped: bool,
    message: Seq<u8>,
    language: Seq<u8>,
)
    requires
        signal.len() <= u32::MAX,
        message.len() <= u32::MAX,
        language.len() <= u32::MAX,
    ensures
        sending::xon_xoff_body(to, can_do) == (Body {
            bytes: be32(to) + ssh_string(text("xon-xoff"@)) + seq![0u8] + seq![
                if can_do {
                    1u8
                } else {
                    0u8
                },
            ],
            complete: true,
        }),
        sending::exit_status_body(to, status) == (Body {
            bytes: be32(to) + ssh_string(text("exit-status"@)) + seq![0u8] + be32(status),
            complete: true,
        }),
        sending::exit_signal_body(to, signal, dumped, message, language) == (Body {
            bytes: be32(to) + ssh_string(text("exit-signal"@)) + seq![0u8] + ssh_string(signal)
                + seq![
                if dumped {
                    1u8
                } else {
                    0u8
                },
            ] + ssh_string(message) + ssh_string(language),
            complete: true,
        }),
{
    reveal_strlit("xon-xoff");
    reveal_strlit("exit-status");
    reveal_strlit("exit-signal");
    sending::lemma_ascii_len("xon-xoff");
    sending::lemma_ascii_len("exit-status");
    sending::lemma_ascii_len("exit-signal");
    assert(sending::xon_xoff_body(to, can_do).bytes =~= be32(to) + ssh_string(text("xon-xoff"@))
        + seq![0u8] + seq![
        if can_do {
            1u8
        } else {
            0u8
        },
    ]);
    assert(sending::exit_status_body(to, status).bytes =~= be32(to) + ssh_string(
        text("exit-status"@),
    ) + seq![0u8] + be32(status));
    assert(sending::exit_signal_body(to, signal, dumped, message, language).bytes =~= be32(to)
        + ssh_string(text("exit-signal"@)) + seq![0u8] + ssh_string(signal) + seq![
        if dumped {
            1u8
        } else {
            0u8
        },
    ] + ssh_string(message) + ssh_string(language));
}

/// GLOBAL_REQUEST: the kind, whether a reply is wanted, and what belongs to the
/// kind. A ping always wants one.
pub proof fn law_global_requests(want: bool, address: Seq<u8>, port: u32)
    requires
        address.len() <= u32::MAX,
    ensures
        requests::keepalive_body() == (Body {
            bytes: seq![80u8] + ssh_string(text("keepalive@openssh.com"@)) + seq![1u8],
            complete: true,
        }),
        requests::forward_body("tcpip-forward"@, want, address, port) == (Body {
            bytes: seq![80u8] + ssh_string(text("tcpip-forward"@)) + seq![
                if want {
                    1u8
                } else {
                    0u8
                },
            ] + ssh_string(address) + be32(port),
            complete: true,
        }),
        requests::forward_body("cancel-tcpip-forward"@, want, address, port) == (Body {
            bytes: seq![80u8] + ssh_string(text("cancel-tcpip-forward"@)) + seq![
                if want {
                    1u8
                } else {
                    0u8
                },
            ] + ssh_string(address) + be32(port),
            complete: true,
        }),
{
    reveal_strlit("keepalive@openssh.com");
    reveal_strlit("tcpip-forward");
    reveal_strlit("cancel-tcpip-forward");
    sending::lemma_ascii_len("keepalive@openssh.com");
    sending::lemma_ascii_len("tcpip-forward");
    sending::lemma_ascii_len("cancel-tcpip-forward");
    let w = seq![
        if want {
            1u8
        } else {
            0u8
        },
    ];
    assert(requests::keepalive_body().bytes =~= seq![80u8] + ssh_string(
        text("keepalive@openssh.com"@),
    ) + seq![1u8]);
    assert(requests::forward_body("tcpip-forward"@, want, address, port).bytes =~= seq![80u8]
        + ssh_string(text("tcpip-forward"@)) + w + ssh_string(address) + be32(port));
    assert(requests::forward_body("cancel-tcpip-forward"@, want, address, port).bytes =~= seq![80u8]
        + ssh_string(text("cancel-tcpip-forward"@)) + w + ssh_string(address) + be32(port));
}

/// CHANNEL_OPEN: the kind, this side's number, window and packet size, and
/// what belongs to the kind. Two ends of a connection are an address and a
/// port each.
pub proof fn law_open_messages(
    kind: Seq<u8>,
    id: u32,
    config: Config,
    suffix: Seq<u8>,
    a: Seq<u8>,
    a_port: u32,
    b: Seq<u8>,
    b_port: u32,
)
    requires
        a.len() <= u32::MAX,
        b.len() <= u32::MAX,
    ensures
        requests::open_packet(kind, id, config, suffix) == seq![90u8] + ssh_string(kind) + be32(id)
            + be32(config.window_size) + be32(config.maximum_packet_size) + suffix,
        requests::connection_fields(a, a_port, b, b_port) == (Body {
            bytes: ssh_string(a) + be32(a_port) + ssh_string(b) + be32(b_port),
            complete: true,
        }),
        requests::no_fields().bytes.len() == 0 && requests::no_fields().complete,
{
    assert(requests::connection_fields(a, a_port, b, b_port).bytes =~= ssh_string(a) + be32(a_port)
        + ssh_string(b) + be32(b_port));
}

/// CHANNEL_OPEN_FAILURE: the client's number, the reason, and words for it.
pub proof fn law_refusals(
    to: u32,
    reason: ChannelOpenFailure,
    description: Seq<u8>,
    language: Seq<u8>,
)
    requires
        description.len() <= u32::MAX,
        language.len() <= u32::MAX,
    ensures
        requests::open_failure_body(to, reason, description, language) == (Body {
            bytes: seq![92u8] + be32(to) + be32(reason.spec_code()) + ssh_string(description)
                + ssh_string(language),
            complete: true,
        }),
        ChannelOpenFailure::AdministrativelyProhibited.spec_code() == 1,
        ChannelOpenFailure::ConnectFailed.spec_code() == 2,
        ChannelOpenFailure::UnknownChannelType.spec_code() == 3,
        ChannelOpenFailure::ResourceShortage.spec_code() == 4,
        ChannelOpenFailure::Unknown.spec_code() == 0,
{
    assert(requests::open_failure_body(to, reason, description, language).bytes =~= seq![92u8]
        + be32(to) + be32(reason.spec_code()) + ssh_string(description) + ssh_string(language));
}

/// DISCONNECT: the reason, words for it, and their language. DEBUG: whether it
/// is to be shown, the words, and their language.
pub proof fn law_disconnect_and_debug(
    reason: u32,
    show: bool,
    words: Seq<u8>,
    language: Seq<u8>,
)
    requires
        words.len() <= u32::MAX,
        language.len() <= u32::MAX,
    ensures
        common_session::disconnect_body(reason, words, language) == (Body {
            bytes: seq![1u8] + be32(reason) + ssh_string(words) + ssh_string(language),
            complete: true,
        }),
        common_session::debug_body(show, words, language) == (Body {
            bytes: seq![4u8] + seq![
                if show {
                    1u8
                } else {
                    0u8
                },
            ] + ssh_string(words) + ssh_string(language),
            complete: true,
        }),
{
    assert(common_session::disconnect_body(reason, words, language).bytes =~= seq![1u8] + be32(
        reason,
    ) + ssh_string(words) + ssh_string(language));
    assert(common_session::debug_body(show, words, language).bytes =~= seq![4u8] + seq![
        if show {
            1u8
        } else {
            0u8
        },
    ] + ssh_string(words) + ssh_string(language));
}

/// EXT_INFO: one extension, the signature algorithms, joined by commas in
/// their order.
pub proof fn law_extension_message(algs: Seq<Seq<u8>>, last: Seq<u8>)
    requires
        ext_info::joined(algs).len() <= u32::MAX,
    ensures
        ext_info::ext_info_body(algs) == (Body {
            bytes: seq![7u8] + be32(1) + ssh_string(text("server-sig-algs"@)) + ssh_string(
                ext_info::joined(algs),
            ),
            complete: true,
        }),
        ext_info::joined(Seq::empty()) == Seq::<u8>::empty(),
        ext_info::joined(seq![last]) == last,
        algs.len() > 0 ==> ext_info::joined(algs.push(last)) == ext_info::joined(algs) + seq![44u8]
            + last,
{
    reveal_strlit("server-sig-algs");
    sending::lemma_ascii_len("server-sig-algs");
    assert(ext_info::ext_info_body(algs).bytes =~= seq![7u8] + be32(1) + ssh_string(
        text("server-sig-algs"@),
    ) + ssh_string(ext_info::joined(algs)));
    assert(algs.push(last).drop_last() =~= algs);
    if algs.len() > 0 {
        assert(ext_info::joined(algs.push(last)) =~= ext_info::joined(algs) + seq![44u8] + last);
    }
}

/// A text that does not fit a field makes the message incomplete; the fields
/// before it stay.
pub proof fn law_fields_are_whole_or_refused(b: Body, v: Seq<u8>, x: u32, y: u8)
    requires
        b.complete,
    ensures
        v.len() <= u32::MAX ==> b.str(v).complete && b.str(v).bytes == b.bytes + ssh_string(v),
        v.len() > u32::MAX ==> !b.str(v).complete && b.str(v).bytes == b.bytes,
        b.u32(x).complete && b.u32(x).bytes == b.bytes + be32(x),
        b.u8(y).complete && b.u8(y).bytes == b.bytes + seq![y],
        b.result() is Ok,
        v.len() > u32::MAX ==> b.str(v).result() is Err,
        b.framed() == be32(b.bytes.len() as u32) + b.bytes,
{
    assert(b.u8(y).bytes =~= b.bytes + seq![y]);
}

/// A clear packet: its length without the length field, the padding's length,
/// the payload and the padding. Its whole length is a multiple of eight, and
/// there are at least four bytes of padding.
pub proof fn law_clear_packets(p: Seq<u8>)
    requires
        p.len() + 16 <= u32::MAX,
    ensures
        ({
            let w = sshbuffer::clear_packet(p);
            &&& w.len() % 8 == 0
            &&& w.subrange(0, 4) == be32((w.len() - 4) as u32)
            &&& 4 <= w[4] <= 255
            &&& w.len() == 5 + p.len() + w[4]
            &&& w.subrange(5, (5 + p.len()) as int) == p
            &&& forall|i: int| 5 + p.len() <= i < w.len() ==> w[i] == 0
        }),
{
    let w = sshbuffer::clear_packet(p);
    let pad = sshbuffer::clear_padding(p.len());
    assert(w.subrange(0, 4) =~= be32((w.len() - 4) as u32));
    assert(w.subrange(5, (5 + p.len()) as int) =~= p);
    assert(w[4] == pad);
    assert((5 + p.len() + pad) % 8 == 0) by (nonlinear_arith)
        requires
            pad == (if (8 - (5 + p.len()) % 8) < 4 {
                8 - (5 + p.len()) % 8 + 8
            } else {
                8 - (5 + p.len()) % 8
            }),
    ;
}

/// Under the clear key packets join the wire in order; under another they wait
/// for its holder. Each takes one sequence number, an empty one none.
pub proof fn law_packets_join_the_wire(sink: PacketSink, p: Seq<u8>)
    requires
        p.len() > 0,
    ensures
        sink.cipher.is_clear() ==> sink.packet(p).wire == sink.wire + sshbuffer::clear_packet(p)
            && sink.packet(p).unsealed == sink.unsealed,
        !sink.cipher.is_clear() ==> sink.packet(p).wire == sink.wire && sink.packet(p).unsealed
            == sink.unsealed.push(p),
        sink.seqn < u32::MAX ==> sink.packet(p).seqn == sink.seqn + 1,
        sink.seqn == u32::MAX ==> sink.packet(p).seqn == 0,
        sink.packet(p).cipher == sink.cipher,
        sink.packet(Seq::empty()) == sink,
{
}

/// Several packets join the wire one after the other.
pub proof fn law_all_packets_join_the_wire(sink: PacketSink, ps: Seq<Seq<u8>>)
    requires
        sink.cipher.is_clear(),
        forall|i: int| 0 <= i < ps.len() ==> (#[trigger] ps[i]).len() > 0,
    ensures
        sink.all(ps).wire == sink.wire + ps.map_values(
            |p: Seq<u8>| sshbuffer::clear_packet(p),
        ).flatten(),
        sink.all(ps).cipher == sink.cipher,
        sink.seqn + ps.len() <= u32::MAX ==> sink.all(ps).seqn == sink.seqn + ps.len(),
    decreases ps.len(),
{
    let f = |p: Seq<u8>| sshbuffer::clear_packet(p);
    if ps.len() == 0 {
        assert(ps.map_values(f) =~= Seq::empty());
        assert(sink.wire + ps.map_values(f).flatten() =~= sink.wire);
    } else {
        let init = ps.drop_last();
        assert forall|i: int| 0 <= i < init.len() implies (#[trigger] init[i]).len() > 0 by {
            assert(init[i] == ps[i]);
        }
        law_all_packets_join_the_wire(sink, init);
        let w = sshbuffer::clear_packet(ps.last());
        assert(ps[ps.len() - 1].len() > 0);
        assert(ps.map_values(f) =~= init.map_values(f).push(w));
        crate::server::writer_laws::lemma_flatten_push(init.map_values(f), w);
        assert(sink.wire + (init.map_values(f).flatten() + w) =~= sink.wire + init.map_values(
            f,
        ).flatten() + w);
    }
}

} // verus!
