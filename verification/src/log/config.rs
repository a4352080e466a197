//! How large the segments of a log may grow.
use vstd::prelude::*;

verus! {

/// The settings of a log.
#[derive(Debug, Clone, Copy, PartialEq, Eq, Structural)]
pub struct Config {
    pub segment: SegmentConfig,
}

/// The limits of a segment, and the offset of the first record of a new log.
#[derive(Debug, Clone, Copy, PartialEq, Eq, Structural)]
pub struct SegmentConfig {
    pub max_store_bytes: u64,
    pub max_index_bytes: u64,
    pub initial_offset: u64,
}

impl Default for SegmentConfig {
    fn default() -> (config: SegmentConfig)
        ensures
            config == (SegmentConfig { max_store_bytes: 0, max_index_bytes: 0, initial_offset: 0 }),
    {
        SegmentConfig { max_store_bytes: 0, max_index_bytes: 0, initial_offset: 0 }
    }
}

impl Default for Config {
    fn default() -> (config: Config)
        ensures
            config.segment == (SegmentConfig {
                max_store_bytes: 0,
                max_index_bytes: 0,
                initial_offset: 0,
            }),
    {
        Config {
            segment: SegmentConfig { max_store_bytes: 0, max_index_bytes: 0, initial_offset: 0 },
        }
    }
}

} // verus!
