//! Waiting for a channel that this side asked for.
use vstd::prelude::*;

use crate::channel::ChannelId;
use crate::error::{ChannelOpenFailure, Error};

verus! {

/// What the session tells the application's end of a channel that it asked
/// for.
#[derive(Clone, Copy, Debug, PartialEq, Eq, Structural)]
pub enum OpeningMsg {
    /// The peer opened the channel.
    Open { id: ChannelId, max_packet_size: u32, window_size: u32 },
    /// The peer refused it.
    OpenFailure(ChannelOpenFailure),
    /// Anything else.
    Other,
}

/// A channel that the peer opened.
#[derive(Clone, Copy, Debug, PartialEq, Eq, Structural)]
pub struct OpenedChannel {
    pub id: ChannelId,
    pub max_packet_size: u32,
    pub window_size: u32,
}

/// What a message, or (`None`) the end of them, makes of the wait.
pub open spec fn outcome(msg: Option<OpeningMsg>) -> Option<Result<OpenedChannel, Error>> {
    match msg {
        Some(OpeningMsg::Open { id, max_packet_size, window_size }) => Some(
            Ok::<OpenedChannel, Error>(OpenedChannel { id, max_packet_size, window_size }),
        ),
        Some(OpeningMsg::OpenFailure(reason)) => Some(Err(Error::ChannelOpenFailure(reason))),
        Some(OpeningMsg::Other) => None,
        None => Some(Err(Error::Disconnect)),
    }
}

/// What a message, or (`None`) the end of them, makes of the wait; `None` where
/// it goes on.
pub fn opening_step(msg: Option<OpeningMsg>) -> (r: Option<Result<OpenedChannel, Error>>)
    ensures
        r == outcome(msg),
{
    match msg {
        Some(OpeningMsg::Open { id, max_packet_size, window_size }) => {
            Some(Ok(OpenedChannel { id, max_packet_size, window_size }))
        },
        Some(OpeningMsg::OpenFailure(reason)) => Some(Err(Error::ChannelOpenFailure(reason))),
        Some(OpeningMsg::Other) => None,
        None => Some(Err(Error::Disconnect)),
    }
}

} // verus!
