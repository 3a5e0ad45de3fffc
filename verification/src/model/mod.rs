//! Port and mempool data as read from telemetry.

pub mod mempool;
pub mod port;
