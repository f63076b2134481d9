//! Errors that the session and its lanes report.
use vstd::prelude::*;

verus! {

/// Why a peer's or our own channel open was refused.
#[derive(Clone, Copy, Debug, PartialEq, Eq, Structural)]
pub enum ChannelOpenFailure {
    AdministrativelyProhibited,
    ConnectFailed,
    UnknownChannelType,
    ResourceShortage,
    Unknown,
}

impl ChannelOpenFailure {
    /// The reason code of RFC 4254, section 5.1.
    pub open spec fn spec_code(self) -> u32 {
        match self {
            ChannelOpenFailure::AdministrativelyProhibited => 1,
            ChannelOpenFailure::ConnectFailed => 2,
            ChannelOpenFailure::UnknownChannelType => 3,
            ChannelOpenFailure::ResourceShortage => 4,
            ChannelOpenFailure::Unknown => 0,
        }
    }

    /// The reason code of RFC 4254, section 5.1.
    pub fn code(self) -> (r: u32)
        ensures
            r == self.spec_code(),
    {
        match self {
            ChannelOpenFailure::AdministrativelyProhibited => 1,
            ChannelOpenFailure::ConnectFailed => 2,
            ChannelOpenFailure::UnknownChannelType => 3,
            ChannelOpenFailure::ResourceShortage => 4,
            ChannelOpenFailure::Unknown => 0,
        }
    }
}

/// What a session operation can fail with.
#[derive(Clone, Copy, Debug, PartialEq, Eq, Structural)]
pub enum Error {
    /// A value does not fit the wire encoding.
    SshEncoding,
    /// The other end of an internal queue is gone.
    SendError,
    /// The session's own state rules the request out.
    Inconsistent,
    /// Data was addressed to a channel that the peer has not confirmed.
    WrongChannel,
    /// A key exchange cannot start or continue.
    Kex,
    /// The session is over.
    Disconnect,
    /// The peer refused to open a channel.
    ChannelOpenFailure(ChannelOpenFailure),
    /// The peer did not finish the handshake in time.
    HandshakeTimeout,
    /// The peer stopped answering keepalives.
    KeepaliveTimeout,
    /// Nothing happened on the connection for too long.
    InactivityTimeout,
    /// Sealed bytes stopped leaving the socket.
    WriteStalled,
    /// The key exchange of this generation ran out of time.
    RekeyTimeout(u64),
}

} // verus!
