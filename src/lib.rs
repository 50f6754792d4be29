//! An on-demand proxy for a game server: the wire codec and status-ping
//! framing, the idle-shutdown supervisor, and the connection dispatcher's
//! decisions, each with its contract.

pub mod codec;
pub mod status;
pub mod manager;
pub mod dispatch;
pub mod server;
