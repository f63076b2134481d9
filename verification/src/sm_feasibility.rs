//! State machines of the protocol's layers, small enough to be read at a
//! glance: the handshake is a chain, a channel is a product of two halves with
//! a credit beside them, and a session is a composition of a key exchange
//! layer and any number of channels.
use std::collections::HashMap;
use vstd::arithmetic::power;
use vstd::prelude::*;

verus! {

broadcast use vstd::std_specs::hash::group_hash_axioms;

/// A machine whose step takes the state and returns the next one.
pub trait LinearState: Sized {
    type Event;

    type Error;

    /// One step.
    fn handle(self, event: Self::Event) -> (r: Result<Self, Self::Error>);
}

/// What happens during a handshake.
#[derive(Clone, Copy, Debug, PartialEq, Eq, Structural)]
pub enum HandshakeEvent {
    Banner,
    KexInit,
    NewKeys,
    ServiceRequest,
    UserauthSuccess,
    /// A packet of a channel.
    ChannelData,
}

/// Where a handshake stands.
#[derive(Clone, Copy, Debug, PartialEq, Eq, Structural)]
pub enum Handshake {
    ExpectBanner,
    ExpectKex,
    ExpectNewKeys,
    ExpectService,
    ExpectAuth,
    Authenticated,
}

/// Why a handshake did not go on.
#[derive(Clone, Copy, Debug, PartialEq, Eq)]
pub enum HandshakeError {
    Unexpected { in_state: &'static str, event: HandshakeEvent },
}

impl Handshake {
    /// The state's name.
    pub open spec fn spec_name(self) -> Seq<char> {
        match self {
            Handshake::ExpectBanner => "ExpectBanner"@,
            Handshake::ExpectKex => "ExpectKex"@,
            Handshake::ExpectNewKeys => "ExpectNewKeys"@,
            Handshake::ExpectService => "ExpectService"@,
            Handshake::ExpectAuth => "ExpectAuth"@,
            Handshake::Authenticated => "Authenticated"@,
        }
    }

    /// The state's name.
    pub fn name(self) -> (r: &'static str)
        ensures
            r@ == self.spec_name(),
    {
        match self {
            Handshake::ExpectBanner => "ExpectBanner",
            Handshake::ExpectKex => "ExpectKex",
            Handshake::ExpectNewKeys => "ExpectNewKeys",
            Handshake::ExpectService => "ExpectService",
            Handshake::ExpectAuth => "ExpectAuth",
            Handshake::Authenticated => "Authenticated",
        }
    }

    /// The state's place in the chain.
    pub open spec fn rank(self) -> nat {
        match self {
            Handshake::ExpectBanner => 0,
            Handshake::ExpectKex => 1,
            Handshake::ExpectNewKeys => 2,
            Handshake::ExpectService => 3,
            Handshake::ExpectAuth => 4,
            Handshake::Authenticated => 5,
        }
    }

    /// The one event that each state waits for, and the state it leads to.
    pub open spec fn next(self) -> (HandshakeEvent, Handshake) {
        match self {
            Handshake::ExpectBanner => (HandshakeEvent::Banner, Handshake::ExpectKex),
            Handshake::ExpectKex => (HandshakeEvent::KexInit, Handshake::ExpectNewKeys),
            Handshake::ExpectNewKeys => (HandshakeEvent::NewKeys, Handshake::ExpectService),
            Handshake::ExpectService => (HandshakeEvent::ServiceRequest, Handshake::ExpectAuth),
            Handshake::ExpectAuth => (HandshakeEvent::UserauthSuccess, Handshake::Authenticated),
            Handshake::Authenticated => (HandshakeEvent::ChannelData, Handshake::Authenticated),
        }
    }

    /// The state after a list of events, if none is unexpected.
    pub open spec fn run(self, events: Seq<HandshakeEvent>) -> Option<Handshake>
        decreases events.len(),
    {
        if events.len() == 0 {
            Some(self)
        } else if events[0] == self.next().0 {
            self.next().1.run(events.drop_first())
        } else {
            None
        }
    }
}

impl LinearState for Handshake {
    type Event = HandshakeEvent;

    type Error = HandshakeError;

    fn handle(self, event: HandshakeEvent) -> (r: Result<Handshake, HandshakeError>)
        ensures
            match r {
                Ok(next) => event == self.next().0 && next == self.next().1,
                Err(HandshakeError::Unexpected { in_state, event: e }) => {
                    &&& event != self.next().0
                    &&& in_state@ == self.spec_name()
                    &&& e == event
                },
            },
    {
        match (self, event) {
            (Handshake::ExpectBanner, HandshakeEvent::Banner) => Ok(Handshake::ExpectKex),
            (Handshake::ExpectKex, HandshakeEvent::KexInit) => Ok(Handshake::ExpectNewKeys),
            (Handshake::ExpectNewKeys, HandshakeEvent::NewKeys) => Ok(Handshake::ExpectService),
            (Handshake::ExpectService, HandshakeEvent::ServiceRequest) => Ok(
                Handshake::ExpectAuth,
            ),
            (Handshake::ExpectAuth, HandshakeEvent::UserauthSuccess) => Ok(
                Handshake::Authenticated,
            ),
            (Handshake::Authenticated, HandshakeEvent::ChannelData) => Ok(
                Handshake::Authenticated,
            ),
            (state, event) => Err(HandshakeError::Unexpected { in_state: state.name(), event }),
        }
    }
}

/// The handshake is a single chain: it can only be completed by the five
/// events that each state in turn waits for, and nothing can be skipped.
pub proof fn law_handshake_is_a_chain(start: Handshake, events: Seq<HandshakeEvent>)
    requires
        start.run(events) == Some(Handshake::Authenticated),
    ensures
        events.len() >= 5 - start.rank(),
        start.rank() < 5 ==> events[0] == start.next().0 && start.next().1.rank() == start.rank()
            + 1,
    decreases events.len(),
{
    if events.len() > 0 {
        law_handshake_is_a_chain(start.next().1, events.drop_first());
    }
}

/// Before authentication no packet of a channel is taken.
pub proof fn law_no_channel_before_authentication(h: Handshake)
    requires
        h != Handshake::Authenticated,
    ensures
        h.next().0 != HandshakeEvent::ChannelData,
{
}

/// What happens to a channel, on this side or on the peer's.
#[derive(Clone, Copy, Debug, PartialEq, Eq, Structural)]
pub enum ChanEvent {
    Confirm,
    OpenFailure,
    Data,
    WindowAdjust,
    Eof,
    Close,
}

/// Why an event does not fit a channel.
#[derive(Clone, Copy, Debug, PartialEq, Eq, Structural)]
pub enum ChanError {
    NotConfirmed,
    AlreadyEof,
    AlreadyClosed,
    OpeningOnly { event: ChanEvent },
}

/// This side's half of a channel; CLOSE ends the channel, not a half.
#[derive(Clone, Copy, Debug, PartialEq, Eq, Structural)]
pub enum WriteHalf {
    Open,
    EofSent,
}

/// The peer's half of a channel.
#[derive(Clone, Copy, Debug, PartialEq, Eq, Structural)]
pub enum ReadHalf {
    Open,
    EofRecv,
}

/// What the peer will still take.
#[derive(Clone, Copy, Debug, PartialEq, Eq, Structural)]
pub struct Credit {
    pub peer_window: u32,
}

/// A channel.
#[derive(Clone, Copy, Debug, PartialEq, Eq, Structural)]
pub enum ChannelSm {
    Opening { credit: Credit },
    Established { write: WriteHalf, read: ReadHalf, credit: Credit },
    Dead,
}

/// A channel after an event, or why the event does not fit.
pub type ChanStep = Result<ChannelSm, ChanError>;

impl ChannelSm {
    /// Pairs of halves that a live channel can be in.
    pub const ESTABLISHED_LIVE_COMBOS: usize = 2 * 2;

    /// What an event on this side does.
    pub open spec fn local(self, event: ChanEvent) -> ChanStep {
        match self {
            ChannelSm::Opening { credit } => match event {
                ChanEvent::Confirm => Ok(
                    ChannelSm::Established { write: WriteHalf::Open, read: ReadHalf::Open, credit },
                ),
                ChanEvent::OpenFailure => Ok(ChannelSm::Dead),
                _ => Err(ChanError::OpeningOnly { event }),
            },
            ChannelSm::Established { write, read, credit } => match event {
                ChanEvent::Data => if write == WriteHalf::Open {
                    Ok(self)
                } else {
                    Err(ChanError::AlreadyEof)
                },
                ChanEvent::Eof => if write == WriteHalf::Open {
                    Ok(ChannelSm::Established { write: WriteHalf::EofSent, read, credit })
                } else {
                    Err(ChanError::AlreadyEof)
                },
                ChanEvent::WindowAdjust => Ok(self),
                ChanEvent::Close => Ok(ChannelSm::Dead),
                _ => Err(ChanError::NotConfirmed),
            },
            ChannelSm::Dead => Err(ChanError::AlreadyClosed),
        }
    }

    /// What an event on the peer's side does.
    pub open spec fn remote(self, event: ChanEvent) -> ChanStep {
        match self {
            ChannelSm::Opening { .. } => Err(ChanError::OpeningOnly { event }),
            ChannelSm::Established { write, read, credit } => match event {
                ChanEvent::Data => if read == ReadHalf::Open {
                    Ok(self)
                } else {
                    Err(ChanError::AlreadyEof)
                },
                ChanEvent::Eof => if read == ReadHalf::Open {
                    Ok(ChannelSm::Established { write, read: ReadHalf::EofRecv, credit })
                } else {
                    Err(ChanError::AlreadyEof)
                },
                ChanEvent::WindowAdjust => Ok(self),
                ChanEvent::Close => Ok(ChannelSm::Dead),
                _ => Err(ChanError::NotConfirmed),
            },
            ChannelSm::Dead => Err(ChanError::AlreadyClosed),
        }
    }

    /// The peer's window raised.
    pub open spec fn adjusted(self, amount: u32) -> ChanStep {
        match self {
            ChannelSm::Opening { credit } => Ok(
                ChannelSm::Opening {
                    credit: Credit { peer_window: raised(credit.peer_window, amount) },
                },
            ),
            ChannelSm::Established { write, read, credit } => Ok(
                ChannelSm::Established {
                    write,
                    read,
                    credit: Credit { peer_window: raised(credit.peer_window, amount) },
                },
            ),
            ChannelSm::Dead => Err(ChanError::AlreadyClosed),
        }
    }

    /// What the peer will still take.
    pub open spec fn window(self) -> Option<u32> {
        match self {
            ChannelSm::Opening { credit } => Some(credit.peer_window),
            ChannelSm::Established { credit, .. } => Some(credit.peer_window),
            ChannelSm::Dead => None,
        }
    }

    /// Data may be sent.
    pub open spec fn sends(self) -> bool {
        self matches ChannelSm::Established { write: WriteHalf::Open, .. }
    }

    /// Data may be received.
    pub open spec fn receives(self) -> bool {
        self matches ChannelSm::Established { read: ReadHalf::Open, .. }
    }

    /// A channel that waits for its confirmation.
    pub fn opening(peer_window: u32) -> (r: ChannelSm)
        ensures
            r == (ChannelSm::Opening { credit: Credit { peer_window } }),
    {
        ChannelSm::Opening { credit: Credit { peer_window } }
    }

    /// Whether data may be sent.
    pub fn can_send_data(&self) -> (r: bool)
        ensures
            r == self.sends(),
    {
        matches!(self, ChannelSm::Established { write: WriteHalf::Open, .. })
    }

    /// Whether data may be received.
    pub fn can_recv_data(&self) -> (r: bool)
        ensures
            r == self.receives(),
    {
        matches!(self, ChannelSm::Established { read: ReadHalf::Open, .. })
    }

    /// Raises the peer's window. A window is a credit and no state of the
    /// channel.
    pub fn apply_adjust(&mut self, amount: u32) -> (r: Result<(), ChanError>)
        ensures
            match old(self).adjusted(amount) {
                Ok(next) => r is Ok && *final(self) == next,
                Err(e) => r == Err::<(), ChanError>(e) && *final(self) == *old(self),
            },
    {
        match *self {
            ChannelSm::Opening { credit } => {
                let peer_window: u32 = credit.peer_window.saturating_add(amount);
                *self = ChannelSm::Opening { credit: Credit { peer_window } };
                Ok(())
            },
            ChannelSm::Established { write, read, credit } => {
                let peer_window: u32 = credit.peer_window.saturating_add(amount);
                *self = ChannelSm::Established { write, read, credit: Credit { peer_window } };
                Ok(())
            },
            ChannelSm::Dead => Err(ChanError::AlreadyClosed),
        }
    }

    /// An event on this side.
    pub fn handle_local(&mut self, event: ChanEvent) -> (r: Result<(), ChanError>)
        ensures
            match old(self).local(event) {
                Ok(next) => r is Ok && *final(self) == next,
                Err(e) => r == Err::<(), ChanError>(e) && *final(self) == *old(self),
            },
    {
        match (*self, event) {
            (ChannelSm::Opening { credit }, ChanEvent::Confirm) => {
                *self =
                ChannelSm::Established { write: WriteHalf::Open, read: ReadHalf::Open, credit };
                Ok(())
            },
            (ChannelSm::Opening { .. }, ChanEvent::OpenFailure) => {
                *self = ChannelSm::Dead;
                Ok(())
            },
            (ChannelSm::Opening { .. }, event) => Err(ChanError::OpeningOnly { event }),
            (ChannelSm::Established { write: WriteHalf::Open, .. }, ChanEvent::Data) => Ok(()),
            (ChannelSm::Established { write: WriteHalf::EofSent, .. }, ChanEvent::Data) => Err(
                ChanError::AlreadyEof,
            ),
            (
                ChannelSm::Established { write: WriteHalf::Open, read, credit },
                ChanEvent::Eof,
            ) => {
                *self = ChannelSm::Established { write: WriteHalf::EofSent, read, credit };
                Ok(())
            },
            (ChannelSm::Established { write: WriteHalf::EofSent, .. }, ChanEvent::Eof) => Err(
                ChanError::AlreadyEof,
            ),
            (ChannelSm::Established { .. }, ChanEvent::WindowAdjust) => Ok(()),
            (ChannelSm::Established { .. }, ChanEvent::Close) => {
                *self = ChannelSm::Dead;
                Ok(())
            },
            (ChannelSm::Dead, _) => Err(ChanError::AlreadyClosed),
            (ChannelSm::Established { .. }, ChanEvent::Confirm | ChanEvent::OpenFailure) => Err(
                ChanError::NotConfirmed,
            ),
        }
    }

    /// An event on the peer's side.
    pub fn handle_remote(&mut self, event: ChanEvent) -> (r: Result<(), ChanError>)
        ensures
            match old(self).remote(event) {
                Ok(next) => r is Ok && *final(self) == next,
                Err(e) => r == Err::<(), ChanError>(e) && *final(self) == *old(self),
            },
    {
        match (*self, event) {
            (ChannelSm::Opening { .. }, event) => Err(ChanError::OpeningOnly { event }),
            (ChannelSm::Established { read: ReadHalf::Open, .. }, ChanEvent::Data) => Ok(()),
            (ChannelSm::Established { read: ReadHalf::EofRecv, .. }, ChanEvent::Data) => Err(
                ChanError::AlreadyEof,
            ),
            (
                ChannelSm::Established { write, read: ReadHalf::Open, credit },
                ChanEvent::Eof,
            ) => {
                *self = ChannelSm::Established { write, read: ReadHalf::EofRecv, credit };
                Ok(())
            },
            (ChannelSm::Established { .. }, ChanEvent::WindowAdjust) => Ok(()),
            (ChannelSm::Established { .. }, ChanEvent::Close) => {
                *self = ChannelSm::Dead;
                Ok(())
            },
            (ChannelSm::Dead, _) => Err(ChanError::AlreadyClosed),
            (ChannelSm::Established { .. }, ChanEvent::Confirm | ChanEvent::OpenFailure) => Err(
                ChanError::NotConfirmed,
            ),
            (ChannelSm::Established { read: ReadHalf::EofRecv, .. }, ChanEvent::Eof) => Err(
                ChanError::AlreadyEof,
            ),
        }
    }
}

/// A window raised by `amount`, at most to its largest value.
pub open spec fn raised(window: u32, amount: u32) -> u32 {
    if window + amount > u32::MAX {
        u32::MAX
    } else {
        (window + amount) as u32
    }
}

/// The halves of a channel are independent: whatever happens on one side
/// other than a close, the other half stays as it is.
pub proof fn law_halves_are_independent(c: ChannelSm, event: ChanEvent)
    requires
        c is Established,
        event != ChanEvent::Close,
    ensures
        c.local(event) matches Ok(next) ==> next.receives() == c.receives(),
        c.remote(event) matches Ok(next) ==> next.sends() == c.sends(),
{
}

/// After its end a half stays ended, and a dead channel stays dead.
pub proof fn law_ends_are_final(c: ChannelSm, event: ChanEvent)
    requires
        !(c is Opening),
    ensures
        !c.sends() ==> (c.local(event) matches Ok(next) ==> !next.sends()),
        !c.sends() ==> (c.remote(event) matches Ok(next) ==> !next.sends()),
        !c.receives() ==> (c.local(event) matches Ok(next) ==> !next.receives()),
        !c.receives() ==> (c.remote(event) matches Ok(next) ==> !next.receives()),
        c is Dead ==> c.local(event) is Err && c.remote(event) is Err,
{
}

/// Nothing is sent or received before the confirmation.
pub proof fn law_nothing_before_confirmation(c: ChannelSm)
    requires
        c is Opening,
    ensures
        !c.sends(),
        !c.receives(),
        c.local(ChanEvent::Data) == ChanStep::Err(
            ChanError::OpeningOnly { event: ChanEvent::Data },
        ),
        c.remote(ChanEvent::Data) == ChanStep::Err(
            ChanError::OpeningOnly { event: ChanEvent::Data },
        ),
{
}

/// A channel's lifecycle written as one line of states.
#[derive(Clone, Copy, Debug, PartialEq, Eq, Structural)]
pub enum LinearChannel {
    Opening,
    Open,
    LocalEof,
    RemoteEof,
    BothEof,
    Dead,
}

impl LinearChannel {
    /// Live pairs of halves.
    pub const LIVE_HALF_CLOSE: usize = 4;

    /// States of one channel: opening, dead and the live pairs.
    pub const VARIANTS_ONE_CHANNEL: usize = 6;

    /// States of the key exchange layer.
    pub const TIMES_KEX: usize = 2;

    /// Live states of a session with `n` channels written as one line, as far
    /// as the number fits: those of the key exchange layer times those of each
    /// channel.
    pub open spec fn flattened(n: nat) -> int {
        if 2 * power::pow(4, n) > u128::MAX {
            u128::MAX as int
        } else {
            2 * power::pow(4, n)
        }
    }

    /// Live states of a session with `n_channels` channels written as one
    /// line, as far as the number fits.
    pub fn flattened_session_states(n_channels: usize) -> (r: u128)
        ensures
            r == LinearChannel::flattened(n_channels as nat),
    {
        let mut r: u128 = 2;
        let mut i: usize = 0;
        assert(power::pow(4, 0) == 1) by {
            power::lemma_pow0(4);
        }
        while i < n_channels
            invariant
                i <= n_channels,
                r == 2 * power::pow(4, i as nat),
            decreases n_channels - i,
        {
            proof {
                power::lemma_pow1(4);
                power::lemma_pow_adds(4, i as nat, 1);
            }
            match r.checked_mul(4) {
                Some(next) => {
                    r = next;
                },
                None => {
                    proof {
                        power::lemma_pow_increases(4, i as nat + 1, n_channels as nat);
                    }
                    return u128::MAX;
                },
            }
            i = i + 1;
        }
        r
    }
}

/// More channels never make fewer states.
pub proof fn law_more_channels_make_more_states(n: nat, m: nat)
    requires
        n <= m,
    ensures
        LinearChannel::flattened(n) <= LinearChannel::flattened(m),
{
    power::lemma_pow_increases(4, n, m);
}

/// Where the key exchange layer stands.
#[derive(Clone, Copy, Debug, PartialEq, Eq, Structural)]
pub enum KexLayer {
    Idle,
    InKex,
}

/// A session: a handshake, a key exchange layer and channels, side by side.
#[derive(Clone, Debug, PartialEq, Eq)]
pub struct SessionSm {
    pub handshake: Handshake,
    pub kex: KexLayer,
    pub channels: HashMap<u32, ChannelSm>,
}

impl SessionSm {
    /// A session right after authentication.
    pub fn authenticated() -> (r: SessionSm)
        ensures
            r.handshake == Handshake::Authenticated,
            r.kex == KexLayer::Idle,
            r.channels@ == Map::<u32, ChannelSm>::empty(),
    {
        SessionSm {
            handshake: Handshake::Authenticated,
            kex: KexLayer::Idle,
            channels: HashMap::new(),
        }
    }

    /// Opens a channel; before authentication that is refused.
    pub fn open_channel(&mut self, id: u32, peer_window: u32) -> (r: Result<(), ChanError>)
        ensures
            final(self).handshake == old(self).handshake,
            final(self).kex == old(self).kex,
            old(self).handshake == Handshake::Authenticated ==> r is Ok && final(self).channels@
                == old(self).channels@.insert(
                id,
                ChannelSm::Opening { credit: Credit { peer_window } },
            ),
            old(self).handshake != Handshake::Authenticated ==> r == Err::<(), ChanError>(
                ChanError::NotConfirmed,
            ) && final(self).channels@ == old(self).channels@,
    {
        if self.handshake != Handshake::Authenticated {
            return Err(ChanError::NotConfirmed);
        }
        self.channels.insert(id, ChannelSm::opening(peer_window));
        Ok(())
    }

    /// A key exchange begins; no channel changes.
    pub fn begin_rekey(&mut self)
        ensures
            final(self).kex == KexLayer::InKex,
            final(self).handshake == old(self).handshake,
            final(self).channels@ == old(self).channels@,
    {
        self.kex = KexLayer::InKex;
    }

    /// A key exchange ends; no channel changes.
    pub fn finish_rekey(&mut self)
        ensures
            final(self).kex == KexLayer::Idle,
            final(self).handshake == old(self).handshake,
            final(self).channels@ == old(self).channels@,
    {
        self.kex = KexLayer::Idle;
    }
}

} // verus!
