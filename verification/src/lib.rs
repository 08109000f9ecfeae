//! A verified model of a download-to-seekable-reader bridge: an asynchronous
//! byte stream is written into a local backing store while a synchronous
//! reader consumes it through a blocking read + seek interface.
//!
//! The downloader tracks which byte ranges have been materialized, reacts to
//! out-of-order read positions by re-requesting the stream at a new offset,
//! and withholds the first publication until a configured prefetch threshold
//! has been buffered.
use vstd::prelude::*;

pub mod handle;
pub mod memory;
pub mod metadata;
pub mod range_index;
pub mod source;

verus! {

/// Default number of bytes buffered before the first publication to readers.
pub const DEFAULT_PREFETCH_BYTES: u64 = 1024 * 256;

/// Configuration for a download session.
pub struct Settings {
    /// Bytes to buffer before readers are first unblocked.
    pub prefetch_bytes: u64,
}

impl Default for Settings {
    /// The default settings use the standard prefetch threshold.
    fn default() -> (s: Settings)
        ensures
            s.prefetch_bytes == DEFAULT_PREFETCH_BYTES,
    {
        Settings { prefetch_bytes: DEFAULT_PREFETCH_BYTES }
    }
}

} // verus!
