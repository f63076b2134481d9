//! The server's side of a session.
pub mod auth_laws;
pub mod backlog_laws;
pub mod budget_laws;
pub mod cap_laws;
pub mod closing;
pub mod delivery;
pub mod dispatch;
pub mod ext_info;
pub mod facade;
pub mod facade_laws;
pub mod flush;
pub mod gates;
pub mod inbound;
pub mod inbound_laws;
pub mod install;
pub mod install_laws;
pub mod keeping;
pub mod ledger;
pub mod ledger_laws;
pub mod message_laws;
pub mod observe;
pub mod opening;
pub mod parked;
pub mod pipeline;
pub mod published;
pub mod quantum_laws;
pub mod reader;
pub mod request_laws;
pub mod requests;
pub mod run;
pub mod schedule;
pub mod schedule_laws;
pub mod sending;
pub mod session;
pub mod session_laws;
pub mod step_laws;
pub mod stream_laws;
pub mod supervision_laws;
pub mod supervisor;
pub mod turn_laws;
pub mod wholeness;
pub mod writer;
pub mod writer_drain;
pub mod writer_laws;
pub mod writer_loop_laws;
pub mod writer_run;
pub mod writer_task;
