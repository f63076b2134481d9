//! What a key exchange comes to: whoever answers first, it completes once all
//! have answered, and the keys that come into force are those agreed on.
use vstd::prelude::*;

use crate::common_session::NewKeys;
use crate::error::Error;
use crate::server::flush;
use crate::send_laws;
use crate::server::install;
use crate::server::install::InboundEpochInstall;
use crate::server::parked::ParkedCmd;
use crate::server::reader::ReaderCmd;
use crate::server::session::{
    App, Install, KexAfterInstall, Peer, Phase, SessionKexState,
};
use crate::server::session_laws;
use crate::server::supervisor::DisconnectCause;
use crate::server::writer::{Cmd, OutboundEpoch};
use crate::sshbuffer;
use crate::sshbuffer::{Compression, Stream};

verus! {

/// Those whose word an install waits for.
pub enum Party {
    Writer,
    Reader,
    Client,
}

/// The word of one of them.
pub open spec fn heard(s: Peer, from: Party, generation: u64, after: KexAfterInstall) -> (
    Peer,
    Option<KexAfterInstall>,
) {
    match from {
        Party::Writer => s.outbound_acked(generation),
        Party::Reader => s.inbound_acked(generation),
        Party::Client => s.peer_done(after),
    }
}

/// An install that the writer has, and whose other parties have not been heard
/// of, completes with the last of the three, in whichever order they come:
/// with what the client's end of the exchange calls for, and neither earlier
/// nor later.
pub proof fn law_install_completes_in_any_order(
    s: Peer,
    after: KexAfterInstall,
    first: Party,
    second: Party,
    third: Party,
)
    requires
        s.reader is Some,
        s.install matches Some(p) && p.phase == Phase::WaitingAck && p.after is None
            && !p.inbound_acked,
        first != second,
        first != third,
        second != third,
    ensures
        ({
            let g = s.install->0.generation;
            let (a, x) = heard(s, first, g, after);
            let (b, y) = heard(a, second, g, after);
            let (c, z) = heard(b, third, g, after);
            &&& x is None
            &&& a.install is Some
            &&& y is None
            &&& b.install is Some
            &&& z == Some(after)
            &&& c.install is None
            &&& c.kex == s.kex
            &&& c.cause == s.cause
            &&& c.common == s.common
        }),
{
}

/// Where no reader runs, the writer and the client are all that is waited for.
pub proof fn law_install_without_reader_completes(s: Peer, after: KexAfterInstall)
    requires
        s.reader is None,
        s.install matches Some(p) && p.phase == Phase::WaitingAck && p.after is None,
    ensures
        ({
            let g = s.install->0.generation;
            let (a, x) = s.outbound_acked(g);
            let (b, y) = s.peer_done(after);
            &&& x is None && a.install is Some
            &&& y is None && b.install is Some
            &&& a.peer_done(after).1 == Some(after) && a.peer_done(after).0.install is None
            &&& b.outbound_acked(g).1 == Some(after) && b.outbound_acked(g).0.install is None
        }),
{
}

/// The reader's answer is kept whenever it comes, also before the batch was
/// submitted or the writer answered, and nothing else of the install changes.
pub proof fn law_readers_answer_is_kept(s: Peer, generation: u64)
    requires
        s.install matches Some(p) && p.generation == generation,
    ensures
        ({
            let p = s.install->0;
            let (t, r) = s.inbound_acked(generation);
            &&& r is Some <==> p.phase == Phase::InstallAcked && p.after is Some
            &&& r is Some ==> r == p.after && t.install is None
            &&& r is None ==> {
                &&& t.install matches Some(q)
                &&& t.install->0.inbound_acked
                &&& t.install->0.phase == p.phase
                &&& t.install->0.after == p.after
                &&& t.install->0.generation == p.generation
                &&& t.install->0.inbound_sent == p.inbound_sent
            }
            &&& t.cause == s.cause
            &&& t.kex == s.kex
        }),
{
}

/// The writer's answer counts once it has been asked, and leaves what the
/// others have said.
pub proof fn law_writers_answer_is_kept(s: Peer, generation: u64)
    requires
        s.install matches Some(p) && p.generation == generation && p.phase == Phase::WaitingAck,
    ensures
        ({
            let p = s.install->0;
            let (t, r) = s.outbound_acked(generation);
            &&& r is Some <==> p.after is Some && (s.reader is None || p.inbound_acked)
            &&& r is Some ==> r == p.after && t.install is None
            &&& r is None ==> {
                &&& t.install matches Some(q)
                &&& t.install->0.phase == Phase::InstallAcked
                &&& t.install->0.inbound_acked == p.inbound_acked
                &&& t.install->0.after == p.after
                &&& t.install->0.generation == p.generation
            }
            &&& t.cause == s.cause
        }),
{
}

/// The client's end of the exchange is kept with what it calls for; coming
/// twice it ends the session, and with no install open it stands at once.
pub proof fn law_clients_end_is_kept(s: Peer, after: KexAfterInstall)
    ensures
        ({
            let (t, r) = s.peer_done(after);
            &&& s.install is None ==> r == Some(after) && t == s
            &&& (s.install matches Some(p) && p.after is Some) ==> r is None && t.cause is Some
                && t.install == s.install
            &&& (s.install matches Some(p) && p.after is None && !(p.phase == Phase::InstallAcked
                && (s.reader is None || p.inbound_acked))) ==> r is None && t.cause == s.cause && (
            t.install matches Some(q) && q.after == Some(after) && q.phase == s.install->0.phase
                && q.inbound_acked == s.install->0.inbound_acked)
        }),
{
}

/// A new install is open under its generation, with its batch, and nobody has
/// been heard of; where the queue has room, the writer has the batch as it was
/// given, behind everything else, and its answer is waited for.
pub proof fn law_registered_install_reaches_the_writer(
    s: Peer,
    payloads: Seq<Seq<u8>>,
    epoch: OutboundEpoch,
    after: Option<KexAfterInstall>,
)
    requires
        s.install is None,
        s.parked.q.len() == 0,
        s.link matches Some(l) && !l.closed && l.room() && !l.force_next_bulk_full,
    ensures
        ({
            let t = s.registered(payloads, epoch, after);
            let l = t.link->0;
            &&& t.link is Some
            &&& l.bulk.len() == s.link->0.bulk.len() + 1
            &&& l.bulk.drop_last() == s.link->0.bulk
            &&& l.bulk.last() matches Cmd::SealBatchAndInstallEpoch { payloads: ps, epoch: e, .. }
                && ps == payloads && e == epoch
            &&& t.install matches Some(p) && p.phase == Phase::WaitingAck && p.after == after
                && p.generation == epoch.generation && !p.inbound_acked && !p.inbound_sent
            &&& t.blocked()
            &&& t.cause == s.cause
        }),
{
    reveal(Peer::advanced);
    reveal(Peer::install_handed);
    let t = s.registered(payloads, epoch, after);
    assert(t.link->0.bulk.drop_last() =~= s.link->0.bulk);
}

/// Where the writer's queue is full the batch waits as it is; where something
/// is parked it waits too; and a writer that has gone ends the session.
pub proof fn law_batch_waits_for_room(s: Peer)
    requires
        s.install matches Some(p) && p.phase is NeedSubmit,
        s.parked.q.len() == 0,
        s.link matches Some(l) && !l.room(),
    ensures
        !s.link->0.closed ==> s.advanced().install == s.install && s.advanced().cause == s.cause,
        s.advanced().link->0.bulk == s.link->0.bulk,
        s.link->0.closed && !s.link->0.force_next_bulk_full ==> s.advanced().install is None
            && s.advanced().cause is Some,
{
    reveal(Peer::advanced);
    reveal(Peer::install_handed);
}

/// Where no writer runs, the batch is sealed under the old key before the new
/// one is in force.
pub proof fn law_batch_is_sealed_under_the_old_key(
    s: Peer,
    payloads: Seq<Seq<u8>>,
    epoch: OutboundEpoch,
)
    ensures
        ({
            let t = s.installed_here(payloads, epoch).common.sink;
            let old_key = s.common.sink;
            &&& t.cipher == epoch.cipher
            &&& t.wire == old_key.all(payloads).wire
            &&& t.unsealed == old_key.all(payloads).unsealed
            &&& t.seqn == (if epoch.reset_seqn {
                0
            } else {
                old_key.all(payloads).seqn
            })
            &&& epoch.activate_compress ==> t.compress == epoch.outbound_compression.stream()
            &&& s.installed_here(payloads, epoch).common.enc == s.common.enc
        }),
{
}

/// The reader gets the inbound key of an install once: with the generation it
/// has to answer for, and with the sequence number starting over where either
/// side asks for that.
pub proof fn law_reader_gets_the_inbound_key_once(
    s: Peer,
    generation: u64,
    half: InboundEpochInstall,
    activate: bool,
)
    requires
        s.install matches Some(p) && !p.inbound_sent && !p.inbound_acked,
    ensures
        ({
            let (t, ok) = s.inbound_pushed(generation, half, activate);
            &&& ok && s.reader is Some ==> {
                &&& t.reader->0.cmds.len() == s.reader->0.cmds.len() + 1
                &&& t.reader->0.cmds.drop_last() == s.reader->0.cmds
                &&& t.reader->0.cmds.last() matches ReaderCmd::Install(e) && e.generation
                    == generation && e.cipher == half.cipher && e.compression == half.compression
                    && e.activate_decompress == activate && (e.reset_seqn <==> half.reset_seqn
                    || s.common.strict_kex)
                &&& t.install->0.inbound_sent
                &&& !t.install->0.inbound_acked
                &&& t.common == s.common
            }
            &&& ok && s.reader is None ==> {
                &&& t.common.remote_to_local == half.cipher
                &&& t.install->0.inbound_acked
                &&& (activate && s.common.enc is Some) ==> t.common.enc->0.keys.decompress
                    == half.compression.stream()
            }
            &&& ok ==> t.inbound_pushed(generation, half, activate) == (t, true)
            &&& !ok <==> (s.reader matches Some(r) && (r.closed || r.installing))
            &&& !ok ==> t.cause is Some && t.install == s.install
        }),
{
    let t = s.inbound_pushed(generation, half, activate).0;
    if s.reader is Some && !s.reader->0.closed && !s.reader->0.installing {
        assert(t.reader->0.cmds.drop_last() =~= s.reader->0.cmds);
    }
}

/// What a later exchange agreed on is what the session goes by from then on;
/// its channels, what is staged and how far authentication has come stay.
pub proof fn law_commit_takes_what_was_agreed(s: Peer, n: NewKeys)
    requires
        s.common.enc is Some,
    ensures
        ({
            let t = s.rekey_committed(n);
            let k = t.common.enc->0.keys;
            let before = s.common.enc->0.keys;
            &&& t.common.enc is Some
            &&& k.exchange == Some(n.exchange)
            &&& k.kex == n.kex
            &&& k.key == n.key
            &&& k.client_mac == n.names.client_mac
            &&& k.server_mac == n.names.server_mac
            &&& k.client_compression == n.names.client_compression
            &&& k.server_compression == n.names.server_compression
            &&& k.last_rekey == s.now
            &&& k.state == before.state
            &&& k.session_id == before.session_id
            &&& t.st() == s.st()
            &&& t.common.strict_kex <==> s.common.strict_kex || n.names.strict_kex
            &&& n.names.client_compression == Compression::Plain ==> k.decompress == Stream::Off
            &&& n.names.client_compression == Compression::Zlib ==> k.decompress != Stream::Off
            &&& n.names.client_compression == Compression::ZlibDeferred ==> (k.decompress
                != Stream::Off <==> before.state.spec_post_auth())
            &&& t.link == s.link && t.reader == s.reader && t.install == s.install
        }),
{
}

/// Once an install has completed, data flows again: no exchange is under way
/// and no deadline is set.
pub proof fn law_completed_exchange_is_over(s: Peer, after: KexAfterInstall)
    requires
        s.install is None,
    ensures
        !s.after_install(after).blocked(),
        s.after_install(after).kex == SessionKexState::Idle,
        s.after_install(after).rekey_deadline.generation is None,
        s.after_install(after).rekey_deadline.deadline_at is None,
        s.after_install(after).link == s.link,
        s.common.enc is Some ==> s.after_install(after).common.enc->0.keys == s.common.enc->0.keys,
        after == KexAfterInstall::InitialComplete && s.common.enc is Some ==> s.after_install(
            after,
        ).st().channels == s.st().channels,
{
}

/// A key exchange begun sends the KEXINIT behind everything that was submitted
/// before, uses it up, holds data back, and has to end within its time.
pub proof fn law_exchange_begins_with_its_kexinit(s: Peer)
    requires
        s.install is None,
        s.common.enc is Some,
        s.link is Some,
        s.offer matches Some(k) && k.len() > 0,
        s.begun().1 is Ok,
    ensures
        ({
            let t = s.begun().0;
            &&& t.line() == s.line().push(ParkedCmd::SealPayload(s.offer->0))
            &&& t.offer is None
            &&& t.kex == SessionKexState::InProgress
            &&& t.blocked()
            &&& t.rekey_gen != s.rekey_gen
            &&& t.rekey_deadline.generation == Some(t.rekey_gen)
            &&& t.rekey_deadline.deadline_at matches Some(at) && (at == s.now
                + s.config.rekey_deadline || at == u64::MAX)
            &&& t.active_gen() == Some(t.rekey_gen)
            &&& t.st() == s.st()
        }),
{
    reveal(Peer::begun);
    reveal(Peer::kexinit_sent);
    let b = Peer { offer: None, kex: SessionKexState::InProgress, ..s };
    let c = ParkedCmd::SealPayload(s.offer->0);
    flush::lemma_retried_keeps(b);
    session_laws::law_submissions_keep_their_order(b, c);
    assert(s.line() + seq![c] =~= s.line().push(c));
}

/// An install that cannot complete is dropped and ends the session; with none
/// open nothing happens.
pub proof fn law_failed_install_ends_the_session(s: Peer)
    ensures
        s.install is Some ==> s.install_failed().install is None && s.install_failed().cause is Some,
        s.install is Some && s.cause is None ==> s.install_failed().cause
            == Some(DisconnectCause::PeerError),
        s.install is None ==> s.install_failed() == s,
        s.cause is Some ==> s.install_failed().cause == s.cause,
{
}

/// A KEXINIT of the client waits exactly while the exchange before it waits
/// for someone else than the client.
pub proof fn law_kexinit_waits_for_the_exchange_before(s: Peer, after: KexAfterInstall)
    ensures
        s.install is None ==> !s.parks_kexinit(),
        (s.install matches Some(p) && p.after is Some) ==> s.parks_kexinit(),
        (s.install matches Some(p) && p.after is None && p.phase != Phase::InstallAcked)
            ==> !s.parks_kexinit() && (s.peer_done(after).0.parks_kexinit()),
{
}

/// What was kept back while an exchange was under way is handed out whole, in
/// the order in which it came, and once.
pub proof fn law_kept_packets_are_handed_out(a: App, ps: Seq<Seq<u8>>)
    requires
        a.pending_reads.len() == 0,
    ensures
        a.reads_kept(ps).reads_given() == ps,
        a.reads_kept(ps).reads_taken().reads_given().len() == 0,
{
    session_laws::law_kept_packets_come_back_in_order(a, ps);
    assert(a.pending_reads + ps =~= ps);
}

/// The server seals under its own key, compresses as it agreed to, and starts
/// the sequence numbers over under strict key exchange.
pub proof fn law_outbound_half_is_the_servers(n: NewKeys)
    ensures
        install::outbound_half(n).0 == n.cipher.local_to_remote,
        install::outbound_half(n).1 == n.names.server_compression,
        install::outbound_half(n).2 == n.names.strict_kex,
{
}

/// A decompressor starts with its key, unless it waits for an authentication
/// that is still to come.
pub proof fn law_decompressor_starts_when_it_may(
    s: Peer,
    generation: u64,
    half: InboundEpochInstall,
)
    requires
        s.install matches Some(p) && !p.inbound_sent && !p.inbound_acked,
        s.reader matches Some(r) && !r.closed && !r.installing,
    ensures
        ({
            let authenticated = s.common.enc matches Some(e) && e.keys.state.spec_post_auth();
            let (t, ok) = s.half_pushed(generation, Some(half));
            &&& ok
            &&& t.reader->0.cmds.last() matches ReaderCmd::Install(e) && e.cipher == half.cipher
                && e.generation == generation && (e.activate_decompress <==> half.compression
                != Compression::ZlibDeferred || authenticated)
            &&& s.half_pushed(generation, None) == (s, true)
        }),
{
    law_reader_gets_the_inbound_key_once(
        s,
        generation,
        half,
        s.activates(half.compression),
    );
}

/// Data that was held back goes out once a later exchange has completed: what
/// stays queued waits for the client's window.
pub proof fn law_held_data_goes_out(s: Peer, id: u32)
    requires
        s.common.enc is Some,
        forall|x: u32| #[trigger] s.st().channels.contains_key(x) ==> send_laws::solid(
            s.st().channels[x],
        ) && s.st().channels[x].recipient_maximum_packet_size > 0,
        s.lane(id) is Some,
    ensures
        s.after_install(KexAfterInstall::RekeyComplete).lane(id) matches Some(l) ==> l.data.len()
            == 0 || l.recipient_window_size == 0,
{
    send_laws::law_all_lanes_are_drained(s.st(), id);
}

/// The exchange under way is that of the open install, or else the one that the
/// deadline is for; with none under way there is none.
pub proof fn law_exchange_under_way(s: Peer)
    ensures
        (s.install matches Some(p) && p.generation > 0) ==> s.active_gen() == Some(
            s.install->0.generation,
        ),
        s.install is None && s.kex == SessionKexState::Idle ==> s.active_gen() is None,
        s.install is None && s.kex != SessionKexState::Idle && s.rekey_deadline.generation is Some
            ==> s.active_gen() == s.rekey_deadline.generation,
        s.install is None && s.kex != SessionKexState::Idle && s.rekey_deadline.generation is None
            ==> s.active_gen() == Some(s.rekey_gen),
{
}

/// Payloads that are submitted together stand behind everything submitted
/// before, in their order, none twice and none left out.
pub proof fn law_payloads_are_submitted_in_order(s: Peer, ps: Seq<Seq<u8>>)
    requires
        s.link is Some,
        s.submitted_all(ps).1 is Ok,
        forall|i: int| 0 <= i < ps.len() ==> (#[trigger] ps[i]).len() > 0,
    ensures
        s.submitted_all(ps).0.line() == s.line() + ps.map_values(
            |p: Seq<u8>| ParkedCmd::SealPayload(p),
        ),
    decreases ps.len(),
{
    let f = |p: Seq<u8>| ParkedCmd::SealPayload(p);
    if ps.len() == 0 {
        assert(s.line() + ps.map_values(f) =~= s.line());
    } else {
        let c = ParkedCmd::SealPayload(ps[0]);
        let t = s.submitted_payload(ps[0]).0;
        let rest = ps.drop_first();
        assert(ps[0].len() > 0);
        flush::lemma_retried_keeps(s);
        session_laws::law_submissions_keep_their_order(s, c);
        assert forall|i: int| 0 <= i < rest.len() implies (#[trigger] rest[i]).len() > 0 by {
            assert(rest[i] == ps[i + 1]);
        }
        assert(t.link is Some);
        law_payloads_are_submitted_in_order(t, rest);
        assert(ps.map_values(f) =~= seq![c] + rest.map_values(f));
        assert(s.line() + seq![c] + rest.map_values(f) =~= s.line() + (seq![c] + rest.map_values(
            f,
        )));
    }
}

} // verus!
