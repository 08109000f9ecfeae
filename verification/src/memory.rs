//! An in-memory stream source: the reference implementation of the stream
//! contract, serving a locally held byte sequence in bounded chunks. It
//! exercises a whole session without any transport.
use vstd::prelude::*;

use crate::source::SourceStream;

verus! {

/// A seekable chunk stream over a byte buffer held in memory.
pub struct MemoryStream {
    /// The bytes the stream serves: its origin resource.
    pub data: Vec<u8>,
    /// Where the next chunk begins.
    pub offset: u64,
    /// Largest chunk handed out at once; zero is read as one.
    pub chunk_size: usize,
    /// Whether `content_length` reports the length.
    pub advertise_length: bool,
    /// How many times the stream was restarted: each `seek` is one ranged
    /// re-request to the origin.
    pub seeks: usize,
}

impl MemoryStream {
    /// Whether the stream advertises its total length. An origin that omits
    /// it leaves the session's content length unknown.
    pub open spec fn advertises(self) -> bool {
        self.advertise_length
    }

    /// Serve `data` in chunks of at most `chunk_size` bytes (at least one
    /// byte per chunk), advertising the total length only when asked to.
    pub fn new(data: Vec<u8>, chunk_size: usize, advertise_length: bool) -> (s: MemoryStream)
        ensures
            s.origin() == data@,
            s.offset() == 0,
            s.advertises() == advertise_length,
            s.seeks == 0,
    {
        MemoryStream { data, offset: 0, chunk_size, advertise_length, seeks: 0 }
    }
}

impl SourceStream for MemoryStream {
    open spec fn origin(&self) -> Seq<u8> {
        self.data@
    }

    open spec fn offset(&self) -> int {
        self.offset as int
    }

    fn content_length(&self) -> (r: Option<u64>)
        ensures
            r is Some <==> self.advertises(),
    {
        if self.advertise_length {
            Some(self.data.len() as u64)
        } else {
            None
        }
    }

    fn seek(&mut self, position: u64) {
        self.offset = position;
        if self.seeks < usize::MAX {
            self.seeks = self.seeks + 1;
        }
    }

    fn next_chunk(&mut self) -> (r: Option<Vec<u8>>) {
        if self.offset >= self.data.len() as u64 {
            return None;
        }
        let off = self.offset as usize;
        let step: usize = if self.chunk_size == 0 {
            1
        } else {
            self.chunk_size
        };
        let remaining = self.data.len() - off;
        let take: usize = if step < remaining {
            step
        } else {
            remaining
        };
        let mut chunk: Vec<u8> = Vec::new();
        let mut i: usize = 0;
        while i < take
            invariant
                i <= take,
                1 <= take <= remaining,
                off + remaining == self.data@.len(),
                off + remaining <= usize::MAX,
                chunk@ == self.data@.subrange(off as int, off + i),
            decreases take - i,
        {
            chunk.push(self.data[off + i]);
            proof {
                assert(chunk@ =~= self.data@.subrange(off as int, off + i + 1));
            }
            i += 1;
        }
        self.offset = self.offset + take as u64;
        Some(chunk)
    }
}

} // verus!
