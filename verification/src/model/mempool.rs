//! Mempool data structures.

use vstd::prelude::*;

verus! {

/// Mempool info from `/mempool/info`.
#[derive(Clone, Debug, Default)]
pub struct MempoolInfo {
    pub name: String,
    pub size: u64,
    pub free_count: u64,
    pub cache_size: u32,
    pub element_size: u32,
    pub flags: u32,
}

/// Occupancy of a mempool: how many of its `size` elements are in use.
#[derive(Clone, Debug, Default)]
pub struct MempoolState {
    pub name: String,
    pub size: u64,
    pub in_use: u64,
    pub free_count: u64,
    pub cache_size: u32,
    pub element_size: u32,
}

impl MempoolState {
    /// In use is `size - free_count`, or zero when more elements are
    /// counted as free than the pool holds.
    pub fn from_info(info: &MempoolInfo) -> (s: Self)
        ensures
            s.name@ == info.name@,
            s.size == info.size,
            s.in_use == if info.size >= info.free_count { info.size - info.free_count } else { 0 },
            s.free_count == info.free_count,
            s.cache_size == info.cache_size,
            s.element_size == info.element_size,
    {
        let in_use = info.size.saturating_sub(info.free_count);
        MempoolState {
            name: info.name.clone(),
            size: info.size,
            in_use,
            free_count: info.free_count,
            cache_size: info.cache_size,
            element_size: info.element_size,
        }
    }
}

} // verus!
