//! Reading and interpreting DPDK telemetry: counter deltas, history rings,
//! response interpretation and the dashboard's decision logic.

pub mod rates;
pub mod history;
pub mod text;
pub mod format;
pub mod model;
pub mod protocol;
pub mod alerts;
pub mod discovery;
pub mod ui;
pub mod poll;
