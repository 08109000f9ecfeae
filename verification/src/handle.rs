//! The reader handle: a blocking read + seek interface over a download
//! session. A read that wants a byte not yet materialized posts the
//! requested position, lets pending seek requests be serviced, restarts the
//! stream at the cursor, and pulls from the stream until the byte arrives or
//! the stream ends — the sequential rendering of a reader thread blocking on
//! the position-reached condition while the downloader makes progress.
use vstd::prelude::*;

use crate::range_index::{available_from, covered_with, covers_with_head, seg};
use crate::source::{Source, SourceStream};
use crate::Settings;

verus! {

/// A download session together with the reader's cursor.
pub struct StreamDownload<S: SourceStream> {
    /// The shared session state the downloader maintains.
    pub source: Source,
    /// The stream the downloader consumes.
    pub stream: S,
    /// The offset at which the next read starts.
    pub cursor: u64,
}

impl<S: SourceStream> StreamDownload<S> {
    /// The byte sequence of the remote resource.
    pub open spec fn origin(self) -> Seq<u8> {
        self.stream.origin()
    }

    /// The session invariant: the source state is sound for the stream's
    /// resource, the stream is positioned at the write head, and the content
    /// length has been retrieved.
    pub open spec fn inv(self) -> bool {
        &&& self.source.inv(self.stream.origin())
        &&& self.source.synced(self.stream)
        &&& self.source.content_length_known
    }

    /// Start a session: retrieve the content length, then prefetch until the
    /// configured threshold is buffered or the stream ends.
    pub fn new(stream: S, settings: Settings) -> (d: StreamDownload<S>)
        requires
            stream.offset() == 0,
            stream.origin().len() <= i64::MAX as int,
            stream.origin().len() <= usize::MAX as int,
        ensures
            d.inv(),
            d.origin() == stream.origin(),
            d.cursor == 0,
            d.source.prefetch_bytes == settings.prefetch_bytes,
            d.source.points() == seg(0, d.source.position),
            d.source.position <= stream.origin().len(),
            d.source.terminal ==> d.source.position == stream.origin().len(),
            stream.origin().len() > 0 ==> d.source.position > 0,
    {
        let ghost origin = stream.origin();
        let mut source = Source::new(settings);
        let mut stream = stream;
        proof {
            assert forall|p: u64| #[trigger] source.points().contains(p) implies p
                < source.file@.len() && source.file@[p as int] == origin[p as int] by {
                assert(!Set::<u64>::empty().contains(p));
            }
        }
        source.publish_content_length(&stream);
        source.prefetch(&mut stream);
        StreamDownload { source, stream, cursor: 0 }
    }

    /// The content length the origin advertised, or `None` for unknown.
    pub fn content_length(&self) -> (r: Option<u64>)
        requires
            self.inv(),
        ensures
            r matches Some(v) ==> v == self.origin().len(),
            r is Some <==> self.source.content_length > -1,
    {
        self.source.content_length()
    }

    /// Move the cursor. An offset outside the downloaded interval holding
    /// the write head (the head inside it or at its upper bound) — one the
    /// downloader would not reach by continuing forward — is posted on the
    /// seek queue so the downloader can issue a range request; an offset
    /// inside that interval, or at or past the known content length, posts
    /// nothing.
    pub fn seek(&mut self, position: u64)
        requires
            old(self).inv(),
        ensures
            final(self).inv(),
            final(self).cursor == position,
            final(self).stream == old(self).stream,
            final(self).source.downloaded == old(self).source.downloaded,
            final(self).source.file == old(self).source.file,
            final(self).source.position == old(self).source.position,
            final(self).source.requested_position == old(self).source.requested_position,
            final(self).source.content_length == old(self).source.content_length,
            final(self).source.content_length_known == old(self).source.content_length_known,
            final(self).source.terminal == old(self).source.terminal,
            final(self).source.prefetch_bytes == old(self).source.prefetch_bytes,
            old(self).source.content_length > -1 && position >= old(self).source.content_length
                ==> final(self).source.seek_queue@ == old(self).source.seek_queue@,
            covered_with(old(self).source.points(), position, old(self).source.position) ==> final(self).source.seek_queue@ == old(self).source.seek_queue@,
            final(self).source.seek_queue@ == old(self).source.seek_queue@ || final(self).source.seek_queue@ == old(self).source.seek_queue@.push(position),
            !covered_with(old(self).source.points(), position, old(self).source.position) && !(old(self).source.content_length > -1 && position >= old(self).source.content_length) && old(self).source.seek_queue@.len() < crate::source::SEEK_QUEUE_CAPACITY ==> final(self).source.seek_queue@ == old(self).source.seek_queue@.push(position),
    {
        self.cursor = position;
        if self.source.content_length > -1 && position >= self.source.content_length as u64 {
            return;
        }
        let covered = covers_with_head(self.source.downloaded(), position, self.source.position());
        if !covered {
            self.source.seek(position);
        }
    }

    /// Service every pending seek request, oldest first. The downloaded
    /// ranges, the backing store and the terminal flag are untouched; only
    /// the write head and the stream offset move. A final request for an
    /// offset outside every downloaded range leaves the head there.
    fn drain_seeks(&mut self)
        requires
            old(self).inv(),
        ensures
            final(self).inv(),
            final(self).origin() == old(self).origin(),
            final(self).cursor == old(self).cursor,
            final(self).source.seek_queue@.len() == 0,
            final(self).source.downloaded == old(self).source.downloaded,
            final(self).source.file == old(self).source.file,
            final(self).source.requested_position == old(self).source.requested_position,
            final(self).source.content_length == old(self).source.content_length,
            final(self).source.content_length_known == old(self).source.content_length_known,
            final(self).source.terminal == old(self).source.terminal,
            final(self).source.prefetch_bytes == old(self).source.prefetch_bytes,
            old(self).source.seek_queue@.len() == 0 ==> final(self).source.position == old(self).source.position && final(self).stream == old(self).stream,
            old(self).source.seek_queue@.len() > 0 && !old(self).source.points().contains(
                old(self).source.seek_queue@.last(),
            ) ==> final(self).source.position == old(self).source.seek_queue@.last() && final(self).stream.offset() == old(self).source.seek_queue@.last(),
    {
        let ghost origin = old(self).origin();
        let ghost q0 = old(self).source.seek_queue@;
        let ghost mut processed: int = 0;
        while self.source.seek_queue.len() > 0
            invariant
                self.inv(),
                self.origin() == origin,
                self.cursor == old(self).cursor,
                0 <= processed <= q0.len(),
                self.source.seek_queue@ == q0.skip(processed),
                self.source.downloaded == old(self).source.downloaded,
                self.source.file == old(self).source.file,
                self.source.requested_position == old(self).source.requested_position,
                self.source.content_length == old(self).source.content_length,
                self.source.content_length_known == old(self).source.content_length_known,
                self.source.terminal == old(self).source.terminal,
                self.source.prefetch_bytes == old(self).source.prefetch_bytes,
                processed == 0 ==> self.source.position == old(self).source.position
                    && self.stream == old(self).stream,
                processed == q0.len() && q0.len() > 0 && !old(self).source.points().contains(
                    q0.last(),
                ) ==> self.source.position == q0.last() && self.stream.offset() == q0.last(),
            decreases q0.len() - processed,
        {
            let pos = self.source.seek_queue.remove(0);
            proof {
                assert(pos == q0[processed]);
                assert(q0.skip(processed).remove(0) =~= q0.skip(processed + 1));
            }
            self.source.handle_seek(&mut self.stream, pos);
            proof {
                processed = processed + 1;
            }
        }
    }

    /// Read up to `n` bytes at the cursor: the largest contiguous downloaded
    /// run starting there, after blocking until at least one byte of it is
    /// materialized or the stream has ended. The bytes delivered are exactly
    /// the resource's bytes at the cursor, and the interval delivered was
    /// wholly recorded in the range index at the moment of the read. A read
    /// at or past the known content length returns nothing and touches
    /// nothing. Zero bytes mean end of file.
    ///
    /// The last clause: as long as the downloaded offsets form the single
    /// prefix `[0, head)` and the cursor has not been moved past the head,
    /// a read keeps that shape, and the stream can only end with the whole
    /// resource downloaded. Reads alone — any number of them, from a fresh
    /// session — therefore never leave a terminal session with a gap; only
    /// an out-of-order seek can.
    pub fn read(&mut self, n: usize) -> (r: Vec<u8>)
        requires
            old(self).inv(),
        ensures
            final(self).inv(),
            final(self).origin() == old(self).origin(),
            r@.len() <= n,
            final(self).cursor == old(self).cursor + r@.len(),
            r@.len() > 0 ==> old(self).cursor + r@.len() <= old(self).origin().len() && r@ == old(self).origin().subrange(old(self).cursor as int, old(self).cursor + r@.len()),
            r@.len() > 0 ==> forall|q: u64|
                old(self).cursor <= q < old(self).cursor + r@.len() ==> final(self).source.points().contains(q),
            n > 0 && !old(self).source.terminal && old(self).cursor < old(self).origin().len()
                ==> r@.len() > 0,
            n > 0 && old(self).source.points().contains(old(self).cursor) ==> r@.len() > 0,
            r@.len() == 0 ==> n == 0 || old(self).cursor >= old(self).origin().len() || (old(self).source.terminal && !old(self).source.points().contains(old(self).cursor)),
            !old(self).source.terminal && final(self).source.terminal ==> final(self).cursor
                >= old(self).origin().len() || (forall|q: u64|
                final(self).cursor <= q < old(self).origin().len() ==> final(self).source.points().contains(q)),
            old(self).source.points().subset_of(final(self).source.points()),
            final(self).source.content_length == old(self).source.content_length,
            old(self).source.content_length > -1 && old(self).cursor >= old(self).source.content_length ==> final(self).source == old(self).source && final(self).stream == old(self).stream,
            old(self).source.points() == seg(0, old(self).source.position) && old(self).cursor
                <= old(self).source.position && old(self).source.seek_queue@.len() == 0 && !old(self).source.terminal ==> final(self).source.points() == seg(
                0,
                final(self).source.position,
            ) && final(self).cursor <= final(self).source.position && final(self).source.seek_queue@.len() == 0 && (final(self).source.terminal ==> final(self).source.position == old(self).origin().len()),
    {
        let ghost prefix_shape = old(self).source.points() == seg(0, old(self).source.position)
            && old(self).cursor <= old(self).source.position && old(self).source.seek_queue@.len() == 0 && !old(self).source.terminal;
        let ghost origin = self.stream.origin();
        if n == 0 {
            return Vec::new();
        }
        if self.source.content_length > -1 && self.cursor >= self.source.content_length as u64 {
            return Vec::new();
        }
        let k = available_from(self.source.downloaded(), self.cursor, n);
        if k > 0 {
            proof {
                assert(self.source.points().contains((self.cursor + k - 1) as u64));
                if prefix_shape && self.cursor + k > self.source.position {
                    assert(self.source.points().contains(self.source.position));
                }
            }
            let out = read_file(&self.source.file, self.cursor, k);
            proof {
                assert forall|i: int| 0 <= i < k implies out@[i] == origin[self.cursor + i] by {
                    assert(self.source.points().contains((self.cursor + i) as u64));
                    assert(out@[i] == self.source.file@[self.cursor + i]);
                }
                assert(out@ =~= origin.subrange(self.cursor as int, self.cursor + k));
            }
            self.cursor = self.cursor + k as u64;
            return out;
        }
        if self.source.terminal {
            return Vec::new();
        }
        // The byte at the cursor is not materialized and the downloader is
        // alive: post the cursor plus a one-byte in-flight pad as the
        // requested position, so that satisfying it materializes the cursor
        // itself, then let pending seek requests be serviced. The requested
        // slot is an `i64`; a cursor beyond its range lies past any resource
        // the session can hold, and the wait below then ends at
        // end-of-stream.
        let req: u64 = if self.cursor < i64::MAX as u64 {
            self.cursor + 1
        } else {
            i64::MAX as u64
        };
        self.source.request_position(req);
        self.drain_seeks();
        // A request posted through the seek queue may have been dropped, so
        // the read path restarts at the cursor itself — but only when the
        // head sits past it: a head at or before the cursor reaches it by
        // plain forward download, so one blocked read causes at most one
        // restart, and none when the downloader is already on course.
        if self.source.position() > self.cursor {
            self.source.seek(self.cursor);
            self.drain_seeks();
        }
        // The head is now at or before the cursor. Block until it passes the
        // request or the stream ends.
        self.source.wait_for_requested_position(&mut self.stream);
        let k2 = available_from(self.source.downloaded(), self.cursor, n);
        proof {
            if prefix_shape {
                // A blocked read in the single-prefix shape sits exactly at
                // the head, so the pump extends that one prefix.
                assert(old(self).cursor == old(self).source.position);
                assert(self.source.points() =~= seg(0, self.source.position));
                if self.source.terminal && self.source.position > 0 {
                    assert(self.source.points().contains(
                        (self.source.position - 1) as u64,
                    ));
                }
            }
        }
        if k2 == 0 {
            proof {
                assert(!self.source.points().contains(self.cursor));
                if prefix_shape && self.source.position > self.cursor {
                    assert(self.source.points().contains(self.cursor));
                }
            }
            return Vec::new();
        }
        proof {
            assert(self.source.points().contains(self.cursor));
            assert(self.source.points().contains((self.cursor + k2 - 1) as u64));
        }
        let out = read_file(&self.source.file, self.cursor, k2);
        proof {
            assert forall|i: int| 0 <= i < k2 implies out@[i] == origin[self.cursor + i] by {
                assert(self.source.points().contains((self.cursor + i) as u64));
                assert(out@[i] == self.source.file@[self.cursor + i]);
            }
            assert(out@ =~= origin.subrange(self.cursor as int, self.cursor + k2));
            if prefix_shape && self.cursor + k2 > self.source.position {
                assert(self.source.points().contains(self.source.position));
            }
        }
        self.cursor = self.cursor + k2 as u64;
        out
    }

    /// Read from the cursor to the end of the resource. When the downloader
    /// is still running — or every byte from the cursor on is already
    /// downloaded — the bytes delivered are exactly the resource from the
    /// cursor to its end, whatever was read or sought before; a cursor past
    /// the end yields nothing.
    ///
    /// The precondition excludes exactly one family of states: the stream
    /// has ended, so the downloader has exited, and an earlier out-of-order
    /// seek left a gap at or after the cursor. A byte missing then stays
    /// missing, and the read reports end of file at the gap. After any
    /// history of plain reads the precondition holds of itself: `read`
    /// keeps the downloaded set a single prefix, and a rewind into it posts
    /// nothing and moves nothing.
    pub fn read_to_end(&mut self) -> (r: Vec<u8>)
        requires
            old(self).inv(),
            !old(self).source.terminal || (forall|q: u64|
                old(self).cursor <= q < old(self).origin().len() ==> old(self).source.points().contains(q)),
        ensures
            final(self).inv(),
            final(self).origin() == old(self).origin(),
            r@ == (if old(self).cursor <= old(self).origin().len() {
                old(self).origin().skip(old(self).cursor as int)
            } else {
                Seq::<u8>::empty()
            }),
    {
        let ghost origin = self.stream.origin();
        let ghost c0 = self.cursor;
        let mut out: Vec<u8> = Vec::new();
        let mut done = false;
        while !done
            invariant
                self.inv(),
                self.origin() == origin,
                self.cursor >= c0,
                c0 > origin.len() ==> self.cursor == c0 && out@.len() == 0,
                c0 <= origin.len() ==> self.cursor <= origin.len() && out@ == origin.subrange(
                    c0 as int,
                    self.cursor as int,
                ),
                !self.source.terminal || self.cursor >= origin.len() || (forall|q: u64|
                    self.cursor <= q < origin.len() ==> self.source.points().contains(q)),
                done ==> self.cursor >= origin.len(),
            decreases (if done {
                0int
            } else {
                1int
            }), origin.len() - self.cursor + 1,
        {
            let ghost before = *self;
            let chunk = self.read(8192);
            if chunk.len() == 0 {
                done = true;
                proof {
                    if self.cursor < origin.len() {
                        assert(before.source.terminal && !before.source.points().contains(
                            before.cursor,
                        ));
                        assert(before.source.points().contains(before.cursor));
                    }
                }
            } else {
                let mut tail = chunk;
                out.append(&mut tail);
                proof {
                    if c0 <= origin.len() {
                        assert(out@ =~= origin.subrange(c0 as int, self.cursor as int));
                    }
                }
            }
        }
        proof {
            if c0 <= origin.len() {
                assert(out@ =~= origin.skip(c0 as int));
            } else {
                assert(out@ =~= Seq::<u8>::empty());
            }
        }
        out
    }
}

/// Copy `k` bytes at `offset` out of the backing store.
fn read_file(file: &Vec<u8>, offset: u64, k: usize) -> (out: Vec<u8>)
    requires
        offset + k <= file@.len(),
    ensures
        out@ == file@.subrange(offset as int, offset + k),
        out@.len() == k,
{
    let total = file.len();
    let off = offset as usize;
    let mut out: Vec<u8> = Vec::new();
    let mut i: usize = 0;
    while i < k
        invariant
            i <= k,
            off == offset,
            off + k <= file@.len(),
            off + k <= usize::MAX,
            out@ == file@.subrange(off as int, off + i),
        decreases k - i,
    {
        out.push(file[off + i]);
        proof {
            assert(out@ =~= file@.subrange(off as int, off + i + 1));
        }
        i += 1;
    }
    out
}

} // verus!
