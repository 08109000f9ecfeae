//! The download side of the bridge: the shared state between the downloader
//! and the reader, and the downloader's decision logic.
//!
//! `Source` holds the backing store, the downloaded-range index, the write
//! head, the requested read position, the advertised content length and the
//! queue of seek requests. The downloader consumes a [`SourceStream`] chunk
//! by chunk, writing each chunk to the backing store at the write head,
//! recording the covered range, and honouring seek requests by restarting
//! the stream at a new offset when continuing the current forward download
//! would never cover the request.
use vstd::prelude::*;

use crate::range_index::{
    covered_with, covers_with_head, range_set_insert, range_set_new, range_set_points, seg,
};
use crate::Settings;

verus! {

/// Capacity of the queue carrying seek requests from reader to downloader.
/// A request posted to a full queue is dropped.
pub const SEEK_QUEUE_CAPACITY: usize = 32;

/// An ordered, resumable source of byte chunks: the lazy byte sequence of a
/// remote resource, read from a current offset that `seek` can move.
///
/// `origin` is the full sequence of bytes the resource holds; `offset` is
/// where the next chunk begins. A transport failure surfaces as an early end
/// of the stream.
pub trait SourceStream {
    /// The full sequence of bytes the origin serves.
    spec fn origin(&self) -> Seq<u8>;

    /// The offset at which the next produced chunk begins.
    spec fn offset(&self) -> int;

    /// The total resource size, when the origin advertises one.
    fn content_length(&self) -> (r: Option<u64>)
        ensures
            r matches Some(v) ==> v == self.origin().len(),
    ;

    /// Restart the stream at `position`: subsequent chunks begin there.
    fn seek(&mut self, position: u64)
        ensures
            final(self).origin() == old(self).origin(),
            final(self).offset() == position,
    ;

    /// Pull the next chunk: a non-empty run of origin bytes starting at the
    /// current offset, or end-of-stream once the offset has reached the end.
    fn next_chunk(&mut self) -> (r: Option<Vec<u8>>)
        ensures
            final(self).origin() == old(self).origin(),
            match r {
                Some(chunk) => {
                    &&& old(self).offset() < old(self).origin().len()
                    &&& chunk@.len() > 0
                    &&& final(self).offset() == old(self).offset() + chunk@.len()
                    &&& final(self).offset() <= final(self).origin().len()
                    &&& chunk@ == old(self).origin().subrange(
                        old(self).offset(),
                        old(self).offset() + chunk@.len(),
                    )
                },
                None => {
                    &&& old(self).offset() >= old(self).origin().len()
                    &&& final(self).offset() == old(self).offset()
                },
            },
    ;
}

/// Every offset in `pts` is below `file`'s end and carries the resource's
/// byte for that offset.
pub open spec fn file_matches(file: Seq<u8>, pts: Set<u64>, origin: Seq<u8>) -> bool {
    forall|p: u64|
        #[trigger] pts.contains(p) ==> p < file.len() && file[p as int] == origin[p as int]
}

/// The shared state block of one download session.
pub struct Source {
    /// The backing store: resource bytes at their true offsets, with holes
    /// zero-filled. Models a transient local file.
    pub file: Vec<u8>,
    /// Which offsets of the resource have been written to the backing store.
    pub downloaded: rangemap::RangeSet<u64>,
    /// The write head: the offset at which the next chunk will be written.
    pub position: u64,
    /// The smallest offset the reader is blocked on, or `-1` for none.
    pub requested_position: i64,
    /// The advertised content length, or `-1` for unknown. Meaningful only
    /// once `content_length_known` is set.
    pub content_length: i64,
    /// Whether the content length has been retrieved from the stream.
    pub content_length_known: bool,
    /// Whether the stream has ended; set once, never cleared.
    pub terminal: bool,
    /// Pending seek requests from the reader, oldest first.
    pub seek_queue: Vec<u64>,
    /// Bytes to buffer before the first publication to readers.
    pub prefetch_bytes: u64,
}

impl Source {
    /// The set of offsets recorded as downloaded.
    pub open spec fn points(self) -> Set<u64> {
        range_set_points(self.downloaded)
    }

    /// Every recorded offset has the resource's byte for that offset in the
    /// backing store, and the advertised content length is the resource
    /// length. `origin` is the byte sequence of the remote resource.
    pub open spec fn inv(self, origin: Seq<u8>) -> bool {
        &&& origin.len() <= i64::MAX as int
        &&& origin.len() <= usize::MAX as int
        &&& self.file@.len() <= origin.len()
        &&& file_matches(self.file@, self.points(), origin)
        &&& self.content_length_known ==> self.content_length >= -1
        &&& self.content_length > -1 ==> self.content_length == origin.len()
        &&& self.requested_position >= -1
    }

    /// The stream's read offset agrees with the write head, so the next
    /// chunk lands where it will be written.
    pub open spec fn synced<S: SourceStream>(self, stream: S) -> bool {
        stream.offset() == self.position as int
    }

    /// A fresh session: nothing downloaded, nothing requested, nothing known.
    pub open spec fn fresh(self) -> bool {
        &&& self.file@.len() == 0
        &&& self.points() == Set::<u64>::empty()
        &&& self.position == 0
        &&& self.requested_position == -1
        &&& self.content_length == -1
        &&& !self.content_length_known
        &&& !self.terminal
        &&& self.seek_queue@.len() == 0
    }

    /// Make a fresh session with the given settings.
    pub fn new(settings: Settings) -> (s: Source)
        ensures
            s.fresh(),
            s.prefetch_bytes == settings.prefetch_bytes,
    {
        Source {
            file: Vec::new(),
            downloaded: range_set_new(),
            position: 0,
            requested_position: -1,
            content_length: -1,
            content_length_known: false,
            terminal: false,
            seek_queue: Vec::new(),
            prefetch_bytes: settings.prefetch_bytes,
        }
    }

    /// Retrieve the content length from the stream and publish it: the first
    /// thing the downloader does, before any chunk is written.
    pub fn publish_content_length<S: SourceStream>(&mut self, stream: &S)
        requires
            old(self).inv(stream.origin()),
        ensures
            final(self).inv(stream.origin()),
            final(self).content_length_known,
            final(self).content_length > -1 ==> final(self).content_length
                == stream.origin().len(),
            final(self).file == old(self).file,
            final(self).downloaded == old(self).downloaded,
            final(self).position == old(self).position,
            final(self).requested_position == old(self).requested_position,
            final(self).terminal == old(self).terminal,
            final(self).seek_queue == old(self).seek_queue,
            final(self).prefetch_bytes == old(self).prefetch_bytes,
    {
        match stream.content_length() {
            Some(length) => {
                self.content_length = length as i64;
            },
            None => {
                self.content_length = -1;
            },
        }
        self.content_length_known = true;
        proof {
            assert forall|p: u64| #[trigger] self.points().contains(p) implies p
                < self.file@.len() && self.file@[p as int] == stream.origin()[p as int] by {
                assert(old(self).points().contains(p));
            }
        }
    }

    /// The published content length: `None` while the origin did not
    /// advertise one.
    pub fn content_length(&self) -> (r: Option<u64>)
        requires
            self.content_length_known,
        ensures
            r == (if self.content_length > -1 {
                Some(self.content_length as u64)
            } else {
                None::<u64>
            }),
    {
        if self.content_length > -1 {
            Some(self.content_length as u64)
        } else {
            None
        }
    }

    /// The current write head.
    pub fn position(&self) -> (p: u64)
        ensures
            p == self.position,
    {
        self.position
    }

    /// The downloaded-range index.
    pub fn downloaded(&self) -> (r: &rangemap::RangeSet<u64>)
        ensures
            range_set_points(*r) == self.points(),
    {
        &self.downloaded
    }

    /// Record the offset the reader is blocked on.
    pub fn request_position(&mut self, position: u64)
        requires
            position <= i64::MAX as u64,
        ensures
            final(self).requested_position == position as i64,
            final(self).file == old(self).file,
            final(self).downloaded == old(self).downloaded,
            final(self).position == old(self).position,
            final(self).content_length == old(self).content_length,
            final(self).content_length_known == old(self).content_length_known,
            final(self).terminal == old(self).terminal,
            final(self).seek_queue == old(self).seek_queue,
            final(self).prefetch_bytes == old(self).prefetch_bytes,
    {
        self.requested_position = position as i64;
    }

    /// Post a seek request for the downloader. A request posted to a full
    /// queue is dropped: a later request, or the reader's next blocking
    /// read, supersedes it.
    pub fn seek(&mut self, position: u64)
        ensures
            old(self).seek_queue@.len() < SEEK_QUEUE_CAPACITY ==> final(self).seek_queue@
                == old(self).seek_queue@.push(position),
            old(self).seek_queue@.len() >= SEEK_QUEUE_CAPACITY ==> final(self).seek_queue@
                == old(self).seek_queue@,
            final(self).file == old(self).file,
            final(self).downloaded == old(self).downloaded,
            final(self).position == old(self).position,
            final(self).requested_position == old(self).requested_position,
            final(self).content_length == old(self).content_length,
            final(self).content_length_known == old(self).content_length_known,
            final(self).terminal == old(self).terminal,
            final(self).prefetch_bytes == old(self).prefetch_bytes,
    {
        if self.seek_queue.len() < SEEK_QUEUE_CAPACITY {
            self.seek_queue.push(position);
        }
    }

    /// Service one seek request: restart the stream at `pos` exactly when
    /// `pos` does not lie in a downloaded interval that the write head is
    /// inside of or at the upper bound of — when continuing the current
    /// forward download neither holds the request already nor is about to
    /// extend past it. Previously downloaded ranges stay recorded.
    pub fn handle_seek<S: SourceStream>(&mut self, stream: &mut S, pos: u64) -> (sought: bool)
        requires
            old(self).inv(old(stream).origin()),
        ensures
            final(stream).origin() == old(stream).origin(),
            final(self).inv(old(stream).origin()),
            sought == !covered_with(old(self).points(), pos, old(self).position),
            sought ==> final(self).position == pos && final(stream).offset() == pos,
            !sought ==> final(self).position == old(self).position && final(stream).offset()
                == old(stream).offset(),
            final(self).file == old(self).file,
            final(self).downloaded == old(self).downloaded,
            final(self).requested_position == old(self).requested_position,
            final(self).content_length == old(self).content_length,
            final(self).content_length_known == old(self).content_length_known,
            final(self).terminal == old(self).terminal,
            final(self).seek_queue == old(self).seek_queue,
            final(self).prefetch_bytes == old(self).prefetch_bytes,
    {
        let restart = !covers_with_head(&self.downloaded, pos, self.position);
        if restart {
            stream.seek(pos);
            self.position = pos;
        }
        proof {
            assert forall|p: u64| #[trigger] self.points().contains(p) implies p
                < self.file@.len() && self.file@[p as int] == old(stream).origin()[p as int] by {
                assert(old(self).points().contains(p));
            }
        }
        restart
    }

    /// Take in one chunk pulled from the stream: write it at the write head,
    /// record the covered interval, advance the head, and clear the
    /// requested position when the new head reaches it. Returns whether a
    /// blocked reader was released.
    ///
    /// The interval is recorded before the head advance becomes visible in
    /// the result, so every offset below the new head that this download
    /// burst covered is already in the index.
    pub fn handle_chunk<S: SourceStream>(&mut self, stream: &S, chunk: &Vec<u8>) -> (notified:
        bool)
        requires
            old(self).inv(stream.origin()),
            chunk@.len() > 0,
            stream.offset() == old(self).position + chunk@.len(),
            stream.offset() <= stream.origin().len(),
            chunk@ == stream.origin().subrange(
                old(self).position as int,
                old(self).position + chunk@.len(),
            ),
        ensures
            final(self).inv(stream.origin()),
            final(self).position == old(self).position + chunk@.len(),
            final(self).points() == old(self).points().union(
                seg(old(self).position, (old(self).position + chunk@.len()) as u64),
            ),
            final(self).file@.len() == (if old(self).file@.len() >= old(self).position
                + chunk@.len() {
                old(self).file@.len() as int
            } else {
                old(self).position + chunk@.len()
            }),
            forall|j: int|
                0 <= j < old(self).file@.len() && !(old(self).position <= j < old(self).position
                    + chunk@.len()) ==> final(self).file@[j] == old(self).file@[j],
            notified == (old(self).requested_position > -1 && old(self).position + chunk@.len()
                >= old(self).requested_position),
            notified ==> final(self).requested_position == -1,
            !notified ==> final(self).requested_position == old(self).requested_position,
            final(self).content_length == old(self).content_length,
            final(self).content_length_known == old(self).content_length_known,
            final(self).terminal == old(self).terminal,
            final(self).seek_queue == old(self).seek_queue,
            final(self).prefetch_bytes == old(self).prefetch_bytes,
    {
        let ghost origin = stream.origin();
        let len = chunk.len();
        write_at(&mut self.file, self.position, chunk);
        let new_position = self.position + len as u64;
        range_set_insert(&mut self.downloaded, self.position, new_position);
        let ghost old_position = self.position;
        self.position = new_position;
        let notified = if self.requested_position > -1 && new_position
            >= self.requested_position as u64 {
            self.requested_position = -1;
            true
        } else {
            false
        };
        proof {
            let clen = chunk@.len() as int;
            assert forall|p: u64| #[trigger] self.points().contains(p) implies p
                < self.file@.len() && self.file@[p as int] == origin[p as int] by {
                if old_position <= p < new_position {
                    let i = p - old_position;
                    assert(self.file@[old_position + i] == chunk@[i]);
                    assert(chunk@[i] == origin.subrange(old_position as int, old_position + clen)[i]);
                } else {
                    assert(old(self).points().contains(p) || seg(old_position, new_position)
                        .contains(p));
                    assert(old(self).points().contains(p));
                    assert(p < old(self).file@.len());
                    assert(p < old_position || p as int >= old_position + clen);
                    assert(self.file@[p as int] == old(self).file@[p as int]);
                }
            }
        }
        notified
    }

    /// The startup phase: pull chunks, writing each at the cumulative
    /// offset, until the configured threshold is buffered or the stream ends
    /// first, and only then publish the prefetched interval and the head
    /// advance in one step. A stream that ends during prefetch raises the
    /// terminal signal from here.
    pub fn prefetch<S: SourceStream>(&mut self, stream: &mut S)
        requires
            old(self).inv(old(stream).origin()),
            old(self).position == 0,
            old(self).points() == Set::<u64>::empty(),
            old(self).file@.len() == 0,
            !old(self).terminal,
            old(stream).offset() == 0,
        ensures
            final(stream).origin() == old(stream).origin(),
            final(self).inv(old(stream).origin()),
            final(self).synced(*final(stream)),
            final(self).points() == seg(0, final(self).position),
            final(self).file@ == old(stream).origin().take(final(self).position as int),
            final(self).position <= old(stream).origin().len(),
            final(self).position >= old(self).prefetch_bytes || final(self).position
                == old(stream).origin().len(),
            final(self).terminal <==> (old(stream).origin().len() < old(self).prefetch_bytes
                || old(stream).origin().len() == 0),
            old(stream).origin().len() > 0 ==> final(self).position > 0,
            final(self).requested_position == old(self).requested_position,
            final(self).content_length == old(self).content_length,
            final(self).content_length_known == old(self).content_length_known,
            final(self).seek_queue == old(self).seek_queue,
            final(self).prefetch_bytes == old(self).prefetch_bytes,
    {
        let ghost origin = old(stream).origin();
        proof {
            assert(self.file@ =~= origin.take(0));
        }
        let mut acc: u64 = 0;
        let mut done = false;
        let mut ended = false;
        while !done
            invariant
                stream.origin() == origin,
                self.downloaded == old(self).downloaded,
                self.points() == Set::<u64>::empty(),
                self.position == 0,
                self.requested_position == old(self).requested_position,
                self.content_length == old(self).content_length,
                self.content_length_known == old(self).content_length_known,
                self.terminal == old(self).terminal,
                self.seek_queue == old(self).seek_queue,
                self.prefetch_bytes == old(self).prefetch_bytes,
                origin.len() <= i64::MAX as int,
                origin.len() <= usize::MAX as int,
                self.file@ == origin.take(acc as int),
                acc <= origin.len(),
                stream.offset() == acc as int,
                self.requested_position >= -1,
                self.content_length > -1 ==> self.content_length == origin.len(),
                self.content_length_known ==> self.content_length >= -1,
                !done ==> acc < self.prefetch_bytes || acc == 0,
                done ==> acc >= self.prefetch_bytes || ended,
                ended ==> acc == origin.len() && (acc < self.prefetch_bytes || acc == 0),
                done ==> acc > 0 || origin.len() == 0,
                done && !ended ==> acc > 0,
            decreases (if done {
                0int
            } else {
                1int
            }), origin.len() - acc,
        {
            let ghost before = self.file@;
            match stream.next_chunk() {
                Some(chunk) => {
                    write_at(&mut self.file, acc, &chunk);
                    proof {
                        let clen = chunk@.len() as int;
                        assert forall|j: int| 0 <= j < acc + clen implies self.file@[j]
                            == origin.take(acc + clen)[j] by {
                            if j < acc as int {
                                assert(self.file@[j] == before[j]);
                                assert(before[j] == origin.take(acc as int)[j]);
                            } else {
                                let i = j - acc;
                                assert(self.file@[acc + i] == chunk@[i]);
                                assert(chunk@[i] == origin.subrange(acc as int, acc + clen)[i]);
                            }
                        }
                        assert(self.file@ =~= origin.take(acc + chunk@.len()));
                    }
                    acc = acc + chunk.len() as u64;
                    if acc >= self.prefetch_bytes {
                        done = true;
                    }
                },
                None => {
                    ended = true;
                    done = true;
                },
            }
        }
        self.position = acc;
        if acc > 0 {
            range_set_insert(&mut self.downloaded, 0, acc);
        }
        if ended {
            self.terminal = true;
        }
        proof {
            assert(self.points() =~= seg(0, acc));
            assert forall|p: u64| #[trigger] self.points().contains(p) implies p
                < self.file@.len() && self.file@[p as int] == origin[p as int] by {
                assert(origin.take(acc as int)[p as int] == origin[p as int]);
            }
            if !ended {
                assert(origin.len() >= self.prefetch_bytes);
            }
        }
    }

    /// Run a session's download to completion with no reader attached:
    /// retrieve and publish the content length, prefetch, then pull chunks
    /// to the end of the stream. Afterwards the backing store holds exactly
    /// the resource bytes and every offset of the resource is recorded.
    pub fn download<S: SourceStream>(&mut self, stream: &mut S)
        requires
            old(self).fresh(),
            old(stream).offset() == 0,
            old(stream).origin().len() <= i64::MAX as int,
            old(stream).origin().len() <= usize::MAX as int,
        ensures
            final(stream).origin() == old(stream).origin(),
            final(self).inv(old(stream).origin()),
            final(self).terminal,
            final(self).content_length_known,
            final(self).position == old(stream).origin().len(),
            final(self).points() == seg(0, old(stream).origin().len() as u64),
            final(self).file@ == old(stream).origin(),
            final(self).prefetch_bytes == old(self).prefetch_bytes,
    {
        let ghost origin = old(stream).origin();
        proof {
            assert forall|p: u64| #[trigger] self.points().contains(p) implies p
                < self.file@.len() && self.file@[p as int] == origin[p as int] by {
                assert(!Set::<u64>::empty().contains(p));
            }
        }
        self.publish_content_length(stream);
        self.prefetch(stream);
        while !self.terminal
            invariant
                stream.origin() == origin,
                self.inv(origin),
                self.content_length_known,
                stream.offset() == self.position as int,
                self.points() == seg(0, self.position),
                self.file@ == origin.take(self.position as int),
                self.position <= origin.len(),
                self.terminal ==> self.position == origin.len(),
                self.prefetch_bytes == old(self).prefetch_bytes,
            decreases (if self.terminal {
                0int
            } else {
                1int
            }), origin.len() - self.position,
        {
            let ghost head = self.position;
            match stream.next_chunk() {
                Some(chunk) => {
                    self.handle_chunk(stream, &chunk);
                    proof {
                        assert(self.points() =~= seg(0, self.position));
                        assert forall|j: int| 0 <= j < self.position implies self.file@[j]
                            == origin[j] by {
                            assert(self.points().contains(j as u64));
                        }
                        assert(self.file@ =~= origin.take(self.position as int));
                    }
                },
                None => {
                    self.handle_stream_end();
                },
            }
        }
        proof {
            assert(self.file@ =~= origin);
        }
    }

    /// Pump the downloader until the write head reaches the requested
    /// position or the stream ends: the sequential rendering of a reader
    /// blocking on the position-reached condition while the downloader makes
    /// progress. Chunks land contiguously from the current head, so
    /// everything between the old and the new head becomes downloaded.
    pub fn wait_for_requested_position<S: SourceStream>(&mut self, stream: &mut S)
        requires
            old(self).inv(old(stream).origin()),
            old(self).synced(*old(stream)),
        ensures
            final(stream).origin() == old(stream).origin(),
            final(self).inv(old(stream).origin()),
            final(self).synced(*final(stream)),
            final(self).position >= old(self).position,
            final(self).points() == old(self).points().union(
                seg(old(self).position, final(self).position),
            ),
            !old(self).terminal && old(self).requested_position > -1 && !final(self).terminal
                ==> final(self).requested_position == -1 && final(self).position > old(self).position && final(self).position >= old(self).requested_position,
            !old(self).terminal && final(self).terminal ==> final(self).position >= old(
                stream,
            ).origin().len(),
            old(self).terminal ==> final(self).terminal,
            final(self).content_length == old(self).content_length,
            final(self).content_length_known == old(self).content_length_known,
            final(self).seek_queue == old(self).seek_queue,
            final(self).prefetch_bytes == old(self).prefetch_bytes,
    {
        let ghost origin = old(stream).origin();
        proof {
            assert(old(self).points().union(seg(old(self).position, old(self).position))
                =~= old(self).points());
        }
        while self.requested_position > -1 && !self.terminal
            invariant
                stream.origin() == origin,
                self.inv(origin),
                self.synced(*stream),
                self.position >= old(self).position,
                self.points() == old(self).points().union(
                    seg(old(self).position, self.position),
                ),
                old(self).requested_position > -1 ==> self.requested_position == old(self).requested_position || (self.requested_position == -1 && self.position > old(self).position && self.position >= old(self).requested_position),
                self.terminal ==> old(self).terminal || self.position >= origin.len(),
                old(self).terminal ==> self.terminal,
                self.content_length == old(self).content_length,
                self.content_length_known == old(self).content_length_known,
                self.seek_queue == old(self).seek_queue,
                self.prefetch_bytes == old(self).prefetch_bytes,
            decreases (if self.terminal || self.requested_position == -1 {
                0int
            } else {
                1int
            }), (if origin.len() >= stream.offset() {
                origin.len() - stream.offset()
            } else {
                0int
            }),
        {
            let ghost head = self.position;
            match stream.next_chunk() {
                Some(chunk) => {
                    self.handle_chunk(stream, &chunk);
                    proof {
                        assert(self.points() =~= old(self).points().union(
                            seg(old(self).position, self.position),
                        ));
                    }
                },
                None => {
                    self.handle_stream_end();
                },
            }
        }
        proof {
            assert(old(self).points().union(seg(old(self).position, self.position))
                =~= self.points());
        }
    }

    /// Take in the end of the stream: raise the terminal signal so blocked
    /// readers wake and see that no further byte will arrive.
    pub fn handle_stream_end(&mut self)
        ensures
            final(self).terminal,
            final(self).file == old(self).file,
            final(self).downloaded == old(self).downloaded,
            final(self).position == old(self).position,
            final(self).requested_position == old(self).requested_position,
            final(self).content_length == old(self).content_length,
            final(self).content_length_known == old(self).content_length_known,
            final(self).seek_queue == old(self).seek_queue,
            final(self).prefetch_bytes == old(self).prefetch_bytes,
    {
        self.terminal = true;
    }
}

/// While a contiguous forward download is in progress — the downloaded
/// offsets form one interval whose upper bound is the write head — taking in
/// a chunk keeps that shape: the set stays a single interval and the new
/// head is its upper bound, so the head never trails an offset recorded in
/// the current burst. A seek into the middle of an already-downloaded
/// interval is the one move that places the head strictly inside an
/// interval.
pub proof fn lemma_chunk_keeps_head_at_upper_bound(
    pts: Set<u64>,
    base: u64,
    head: u64,
    new_head: u64,
)
    requires
        pts == seg(base, head),
        base <= head <= new_head,
    ensures
        pts.union(seg(head, new_head)) == seg(base, new_head),
        forall|p: u64| #[trigger] seg(base, new_head).contains(p) ==> p < new_head,
{
    assert(pts.union(seg(head, new_head)) =~= seg(base, new_head));
}

/// A seek to an offset inside the downloaded interval that holds the write
/// head — the head at the interval's upper bound counts as inside, since the
/// interval is the one still being extended — never restarts the stream:
/// however many such seeks are posted, no range request reaches the origin
/// for them.
pub proof fn lemma_seek_inside_current_range_no_restart(
    pts: Set<u64>,
    lo: u64,
    hi: u64,
    head: u64,
    pos: u64,
)
    requires
        lo <= pos < hi,
        lo <= head <= hi,
        forall|q: u64| lo <= q < hi ==> pts.contains(q),
    ensures
        covered_with(pts, pos, head),
{
}

/// A seek to an offset outside every downloaded range always restarts the
/// stream: exactly one range request follows it.
pub proof fn lemma_seek_outside_downloaded_restarts(pts: Set<u64>, head: u64, pos: u64)
    requires
        !pts.contains(pos),
    ensures
        !covered_with(pts, pos, head),
{
}

/// Write `data` into the store at `offset`, zero-filling any gap between the
/// store's end and `offset`, as a sparse file write would.
fn write_at(file: &mut Vec<u8>, offset: u64, data: &Vec<u8>)
    requires
        offset + data@.len() <= usize::MAX,
    ensures
        final(file)@.len() == (if old(file)@.len() >= offset + data@.len() {
            old(file)@.len() as int
        } else {
            offset + data@.len()
        }),
        forall|i: int| 0 <= i < data@.len() ==> final(file)@[offset + i] == data@[i],
        forall|j: int|
            0 <= j < old(file)@.len() && !(offset <= j < offset + data@.len()) ==> final(file)@[j]
                == old(file)@[j],
{
    let off: usize = offset as usize;
    while file.len() < off
        invariant
            off == offset,
            offset + data@.len() <= usize::MAX,
            file@.len() >= old(file)@.len(),
            file@.len() > old(file)@.len() ==> file@.len() <= off,
            forall|j: int| 0 <= j < old(file)@.len() ==> file@[j] == old(file)@[j],
        decreases off - file@.len(),
    {
        file.push(0);
    }
    let ghost mid = file@;
    let mut i: usize = 0;
    while i < data.len()
        invariant
            off == offset,
            offset + data@.len() <= usize::MAX,
            i <= data@.len(),
            mid.len() >= off,
            mid.len() >= old(file)@.len(),
            forall|j: int| 0 <= j < old(file)@.len() ==> mid[j] == old(file)@[j],
            file@.len() == (if mid.len() >= off + i {
                mid.len() as int
            } else {
                off + i
            }),
            forall|t: int| 0 <= t < i ==> file@[offset + t] == data@[t],
            forall|j: int|
                0 <= j < mid.len() && !(offset <= j < offset + i) ==> file@[j] == mid[j],
        decreases data@.len() - i,
    {
        let idx = off + i;
        if idx < file.len() {
            file[idx] = data[i];
        } else {
            file.push(data[i]);
        }
        i += 1;
    }
}

} // verus!
