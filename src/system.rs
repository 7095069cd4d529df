//! Host figures shown beside the network controls.
use vstd::prelude::*;

verus! {

/// Physical and page-file memory, in bytes.
#[derive(Debug, Clone, Copy, PartialEq, Eq, Structural)]
pub struct SystemMemoryInfo {
    pub total_physical: u64,
    pub avail_physical: u64,
    pub total_pagefile: u64,
    pub avail_pagefile: u64,
}

impl SystemMemoryInfo {
    /// Physical memory in use.
    pub fn used_physical(&self) -> (r: u64)
        requires
            self.avail_physical <= self.total_physical,
        ensures
            r == self.total_physical - self.avail_physical,
    {
        self.total_physical - self.avail_physical
    }
}

/// Which cleaning steps a disk cleaning runs.
#[derive(Debug, Clone, Copy, PartialEq, Eq, Structural)]
pub struct DiskCleaningOptions {
    pub clean_temp_files: bool,
    pub clean_browser_cache: bool,
    pub clean_thumbnails: bool,
    pub clean_recycle_bin: bool,
    pub clean_system_cache: bool,
    pub win10_optimizations: bool,
    pub win11_optimizations: bool,
}

impl Default for DiskCleaningOptions {
    /// Temporary files, browser caches and thumbnails; nothing else.
    fn default() -> (r: Self)
        ensures
            r.clean_temp_files && r.clean_browser_cache && r.clean_thumbnails,
            !r.clean_recycle_bin && !r.clean_system_cache,
            !r.win10_optimizations && !r.win11_optimizations,
    {
        DiskCleaningOptions {
            clean_temp_files: true,
            clean_browser_cache: true,
            clean_thumbnails: true,
            clean_recycle_bin: false,
            clean_system_cache: false,
            win10_optimizations: false,
            win11_optimizations: false,
        }
    }
}

} // verus!
