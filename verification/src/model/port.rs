//! Port data structures for DPDK ethdev info and stats.

use vstd::prelude::*;

verus! {

/// Static or slowly changing port info from `/ethdev/info`.
#[derive(Clone, Debug, Default)]
pub struct PortInfo {
    pub name: String,
    pub pci: String,
    pub driver: String,
    pub mac: String,
    pub mtu: u16,
    pub link_speed_mbps: u32,
    pub link_status: LinkStatus,
    pub nb_rx_queues: u16,
    pub nb_tx_queues: u16,
}

/// Link state of a port.
#[derive(Clone, Copy, Debug, Default, PartialEq, Eq, Structural)]
pub enum LinkStatus {
    #[default]
    Unknown,
    Down,
    Up,
}

/// Raw counters from `/ethdev/stats`.
#[derive(Clone, Copy, Debug, Default, PartialEq, Eq, Structural)]
pub struct PortStats {
    pub ipackets: u64,
    pub opackets: u64,
    pub ibytes: u64,
    pub obytes: u64,
    pub imissed: u64,
    pub ierrors: u64,
    pub oerrors: u64,
    pub rx_nombuf: u64,
}

} // verus!
