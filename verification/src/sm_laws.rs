//! What the small state machines come to, step by step and over whole runs.
use vstd::arithmetic::power;
use vstd::prelude::*;

use crate::sm_feasibility::{
    ChanError, ChanEvent, ChanStep, ChannelSm, Handshake, HandshakeEvent, LinearChannel,
};

verus! {

/// A handshake goes through banner, key exchange, new keys, service request and
/// authentication in this order, and then takes packets of channels for good.
pub proof fn law_handshake_runs_in_order(more: Seq<HandshakeEvent>)
    requires
        forall|i: int| 0 <= i < more.len() ==> #[trigger] more[i] == HandshakeEvent::ChannelData,
    ensures
        Handshake::ExpectBanner.run(
            seq![
                HandshakeEvent::Banner,
                HandshakeEvent::KexInit,
                HandshakeEvent::NewKeys,
                HandshakeEvent::ServiceRequest,
                HandshakeEvent::UserauthSuccess,
            ],
        ) == Some(Handshake::Authenticated),
        Handshake::Authenticated.run(more) == Some(Handshake::Authenticated),
    decreases more.len(),
{
    let e = seq![
        HandshakeEvent::Banner,
        HandshakeEvent::KexInit,
        HandshakeEvent::NewKeys,
        HandshakeEvent::ServiceRequest,
        HandshakeEvent::UserauthSuccess,
    ];
    let a = e.drop_first();
    let b = a.drop_first();
    let c = b.drop_first();
    let d = c.drop_first();
    assert(a[0] == HandshakeEvent::KexInit);
    assert(b[0] == HandshakeEvent::NewKeys);
    assert(c[0] == HandshakeEvent::ServiceRequest);
    assert(d[0] == HandshakeEvent::UserauthSuccess);
    assert(d.drop_first().len() == 0);
    assert(Handshake::ExpectAuth.run(d) == Some(Handshake::Authenticated)) by {
        assert(Handshake::Authenticated.run(d.drop_first()) == Some(Handshake::Authenticated));
    }
    assert(Handshake::ExpectService.run(c) == Some(Handshake::Authenticated));
    assert(Handshake::ExpectNewKeys.run(b) == Some(Handshake::Authenticated));
    assert(Handshake::ExpectKex.run(a) == Some(Handshake::Authenticated));
    if more.len() > 0 {
        let rest = more.drop_first();
        assert forall|i: int| 0 <= i < rest.len() implies #[trigger] rest[i]
            == HandshakeEvent::ChannelData by {
            assert(rest[i] == more[i + 1]);
        }
        law_handshake_runs_in_order(rest);
        assert(more[0] == HandshakeEvent::ChannelData);
    }
}

/// No state waits for the event of another.
pub proof fn law_each_state_has_its_own_event(a: Handshake, b: Handshake)
    ensures
        a.next().0 == b.next().0 ==> a == b,
        a != Handshake::Authenticated ==> a.next().1 != a && a.next().1.rank() == a.rank() + 1,
        a.spec_name() == b.spec_name() || a != b,
{
}

/// A confirmed channel sends and receives both ways; a refused one is dead.
pub proof fn law_confirmation_opens_both_halves(c: ChannelSm)
    requires
        c is Opening,
    ensures
        c.local(ChanEvent::Confirm) matches Ok(d) && d.sends() && d.receives() && d.window()
            == c.window(),
        c.local(ChanEvent::OpenFailure) == ChanStep::Ok(ChannelSm::Dead),
        c.local(ChanEvent::Eof) is Err && c.local(ChanEvent::Close) is Err,
        forall|e: ChanEvent| #[trigger] c.remote(e) is Err,
{
}

/// Data goes both ways until EOF, each way for itself: after this side's EOF
/// nothing is sent but everything received, after the peer's nothing is
/// received but everything sent; a second EOF does not fit.
pub proof fn law_eof_ends_one_half(c: ChannelSm)
    requires
        c is Established,
    ensures
        c.sends() ==> c.local(ChanEvent::Data) == ChanStep::Ok(c),
        c.receives() ==> c.remote(ChanEvent::Data) == ChanStep::Ok(c),
        c.sends() ==> (c.local(ChanEvent::Eof) matches Ok(d) && !d.sends() && d.receives()
            == c.receives() && d.window() == c.window() && d.local(ChanEvent::Data)
            == ChanStep::Err(ChanError::AlreadyEof) && d.local(ChanEvent::Eof) == ChanStep::Err(
            ChanError::AlreadyEof,
        )),
        c.receives() ==> (c.remote(ChanEvent::Eof) matches Ok(d) && !d.receives() && d.sends()
            == c.sends() && d.window() == c.window() && d.remote(ChanEvent::Data)
            == ChanStep::Err(ChanError::AlreadyEof) && d.remote(ChanEvent::Eof) == ChanStep::Err(
            ChanError::AlreadyEof,
        )),
        !c.sends() ==> c.local(ChanEvent::Data) == ChanStep::Err(ChanError::AlreadyEof),
        !c.receives() ==> c.remote(ChanEvent::Data) == ChanStep::Err(ChanError::AlreadyEof),
{
}

/// CLOSE from either side ends the channel, whatever its halves; nothing fits a
/// channel that has ended, and no channel is confirmed twice.
pub proof fn law_close_ends_the_channel(c: ChannelSm, e: ChanEvent, amount: u32)
    ensures
        c is Established ==> c.local(ChanEvent::Close) == ChanStep::Ok(ChannelSm::Dead) && c.remote(
            ChanEvent::Close,
        ) == ChanStep::Ok(ChannelSm::Dead),
        c is Established ==> c.local(ChanEvent::Confirm) == ChanStep::Err(ChanError::NotConfirmed)
            && c.local(ChanEvent::OpenFailure) == ChanStep::Err(ChanError::NotConfirmed),
        c is Dead ==> c.local(e) == ChanStep::Err(ChanError::AlreadyClosed) && c.remote(e)
            == ChanStep::Err(ChanError::AlreadyClosed) && c.adjusted(amount) == ChanStep::Err(
            ChanError::AlreadyClosed,
        ),
{
}

/// A window is a credit beside the state: it grows by what is granted, up to
/// its largest value, and no half changes; the events of a channel leave it.
pub proof fn law_window_is_a_credit(c: ChannelSm, amount: u32, e: ChanEvent)
    requires
        c.window() is Some,
    ensures
        c.adjusted(amount) matches Ok(d) && d.sends() == c.sends() && d.receives() == c.receives()
            && (d is Opening <==> c is Opening) && (d.window() matches Some(w) && (w == c.window()->0
            + amount || (w == u32::MAX && c.window()->0 + amount > u32::MAX))),
        c.local(e) matches Ok(d) ==> d is Dead || d.window() == c.window(),
        c.remote(e) matches Ok(d) ==> d is Dead || d.window() == c.window(),
{
}

/// Without channels a session has the two states of its key exchange layer, and
/// every channel multiplies them by four, as far as the number fits.
pub proof fn law_each_channel_multiplies_the_states(n: nat)
    ensures
        LinearChannel::flattened(0) == 2,
        4 * LinearChannel::flattened(n) <= u128::MAX ==> LinearChannel::flattened(n + 1) == 4
            * LinearChannel::flattened(n),
{
    power::lemma_pow0(4);
    power::lemma_pow1(4);
    power::lemma_pow_adds(4, n, 1);
}

} // verus!
