//! An SSH session as the server runs it: per-channel lanes, the staging buffer,
//! the ordered hand-off to the writer, key-exchange installs, the delivery of
//! what comes in, and the supervisor that watches over them.
#![allow(unused_imports)]

pub mod channel;
pub mod common_session;
pub mod drain;
pub mod error;
pub mod lane_laws;
pub mod listing;
pub mod msg;
pub mod send_laws;
pub mod server;
pub mod session;
pub mod sm_feasibility;
pub mod sm_laws;
pub mod sshbuffer;
pub mod staging_laws;
pub mod wire;
pub mod wire_laws;
