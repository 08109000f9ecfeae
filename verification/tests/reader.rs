use stream_download::handle::StreamDownload;
use stream_download::memory::MemoryStream;
use stream_download::range_index::{available_from, covers_with_head};
use stream_download::source::Source;
use stream_download::{Settings, DEFAULT_PREFETCH_BYTES};

fn pattern(len: usize) -> Vec<u8> {
    let mut v = Vec::new();
    let mut x: u32 = 7;
    for _ in 0..len {
        x = x.wrapping_mul(31).wrapping_add(11);
        v.push((x >> 3) as u8);
    }
    v
}

fn read_exactly<S: stream_download::source::SourceStream>(
    d: &mut StreamDownload<S>,
    n: usize,
) -> Vec<u8> {
    let mut out = Vec::new();
    while out.len() < n {
        let chunk = d.read(n - out.len());
        if chunk.is_empty() {
            break;
        }
        out.extend_from_slice(&chunk);
    }
    out
}

#[test]
fn default_settings_use_standard_prefetch() {
    let s = Settings::default();
    assert_eq!(s.prefetch_bytes, DEFAULT_PREFETCH_BYTES);
    assert_eq!(s.prefetch_bytes, 256 * 1024);
}

#[test]
fn basic_download() {
    let data = pattern(300_000);
    for prefetch_bytes in [0u64, 1, 256 * 1024, 1024 * 1024] {
        let stream = MemoryStream::new(data.clone(), 1000, true);
        let mut d = StreamDownload::new(stream, Settings { prefetch_bytes });
        let buf = d.read_to_end();
        assert_eq!(data, buf);
    }
}

#[test]
fn slow_download() {
    // One tiny chunk at a time: the reader still observes the whole
    // resource in order, with no loss or duplication.
    let data = pattern(30_000);
    for prefetch_bytes in [0u64, 1, 256 * 1024, 1024 * 1024] {
        let stream = MemoryStream::new(data.clone(), 7, true);
        let mut d = StreamDownload::new(stream, Settings { prefetch_bytes });
        let buf = d.read_to_end();
        assert_eq!(data, buf);
    }
}

#[test]
fn seek_basic() {
    // Read a prefix, rewind to the start, and read everything: the prefix
    // matches, and the full pass delivers the resource exactly.
    let data = pattern(200_000);
    for prefetch_bytes in [0u64, 1, 256 * 1024, 1024 * 1024] {
        let stream = MemoryStream::new(data.clone(), 1000, true);
        let mut d = StreamDownload::new(stream, Settings { prefetch_bytes });
        let initial = read_exactly(&mut d, 4096);
        assert_eq!(&data[0..4096], &initial[..]);
        d.seek(0);
        let buf = d.read_to_end();
        assert_eq!(data, buf);
        // Rewinding into the prefix under download never re-requests.
        assert_eq!(d.stream.seeks, 0);
    }
}

#[test]
fn seek_initial() {
    // Seek before the first read, read to the end, then seek near the start
    // and read to the end again.
    let data = pattern(200_000);
    let stream = MemoryStream::new(data.clone(), 1000, true);
    let mut d = StreamDownload::new(stream, Settings { prefetch_bytes: 1024 * 1024 });
    d.seek(65536);
    let buf1 = d.read_to_end();
    assert_eq!(&data[65536..], &buf1[..]);
    d.seek(128);
    let buf2 = d.read_to_end();
    assert_eq!(&data[128..], &buf2[..]);
    // Everything was materialized by the prefetch: no range request at all.
    assert_eq!(d.stream.seeks, 0);
    assert!(d.source.seek_queue.is_empty());
}

#[test]
fn two_seeks_outside_downloaded_issue_two_requests() {
    let data = pattern(200_000);
    let stream = MemoryStream::new(data.clone(), 1000, true);
    let mut d = StreamDownload::new(stream, Settings { prefetch_bytes: 0 });
    d.seek(65536);
    let first = read_exactly(&mut d, 100);
    assert_eq!(&data[65536..65636], &first[..]);
    d.seek(128);
    let rest = d.read_to_end();
    assert_eq!(&data[128..], &rest[..]);
    // One range request per seek landing outside the downloaded ranges;
    // every other interaction was a plain chunk pull.
    assert_eq!(d.stream.seeks, 2);
}

#[test]
fn rewind_during_active_download_sends_nothing() {
    let data = pattern(10_000);
    let stream = MemoryStream::new(data.clone(), 100, true);
    let mut d = StreamDownload::new(stream, Settings { prefetch_bytes: 1000 });
    // The head sits exactly at the upper bound of the downloaded prefix,
    // which counts as inside it: the interval is still being extended.
    assert!(covers_with_head(d.source.downloaded(), 0, d.source.position()));
    d.seek(0);
    d.seek(500);
    assert!(d.source.seek_queue.is_empty());
    let buf = d.read_to_end();
    assert_eq!(&data[500..], &buf[..]);
    assert_eq!(d.stream.seeks, 0);
}

#[test]
fn seek_outside_downloaded_restarts_stream() {
    // The first chunk is published, then a seek far past it: the downloader
    // restarts the stream there, leaving the gap undownloaded.
    let data = pattern(100_000);
    let stream = MemoryStream::new(data.clone(), 100, true);
    let mut d = StreamDownload::new(stream, Settings { prefetch_bytes: 0 });
    assert!(d.source.position() >= 1);
    let head = d.source.position();
    assert!(head < 65536);
    d.seek(65536);
    let chunk = d.read(100);
    assert_eq!(&data[65536..65536 + chunk.len()], &chunk[..]);
    // Exactly one range request, and the gap between the old head and the
    // seek target was never fetched.
    assert_eq!(d.stream.seeks, 1);
    assert_eq!(available_from(d.source.downloaded(), head, 16), 0);
}

#[test]
fn seeks_inside_current_range_send_nothing() {
    let data = pattern(1000);
    let stream = MemoryStream::new(data.clone(), 100, true);
    let mut d = StreamDownload::new(stream, Settings { prefetch_bytes: 0 });
    // Download [0, 100) and [150, 250), then force a restart at 100: the
    // inserted chunk bridges the gap and the head lands strictly inside the
    // coalesced interval [0, 250).
    d.seek(150);
    let _ = d.read(10);
    d.seek(100);
    let _ = d.read(10);
    assert!(d.source.seek_queue.is_empty());
    assert!(covers_with_head(d.source.downloaded(), 3, d.source.position()));
    // Two seeks inside that interval post no request at all.
    d.seek(3);
    d.seek(5);
    assert!(d.source.seek_queue.is_empty());
}

#[test]
fn seek_past_content_length_reads_eof_without_request() {
    let data = pattern(5000);
    let stream = MemoryStream::new(data.clone(), 100, true);
    let mut d = StreamDownload::new(stream, Settings { prefetch_bytes: 0 });
    d.seek(5001);
    assert!(d.source.seek_queue.is_empty());
    let buf = d.read(100);
    assert!(buf.is_empty());
    let buf = d.read_to_end();
    assert!(buf.is_empty());
}

#[test]
fn unknown_content_length_still_reads_to_eof() {
    let data = pattern(50_000);
    let stream = MemoryStream::new(data.clone(), 512, false);
    let mut d = StreamDownload::new(stream, Settings { prefetch_bytes: 1024 });
    assert_eq!(d.content_length(), None);
    let buf = d.read_to_end();
    assert_eq!(data, buf);
}

#[test]
fn known_content_length_is_reported() {
    let data = pattern(4096);
    let stream = MemoryStream::new(data.clone(), 512, true);
    let d = StreamDownload::new(stream, Settings::default());
    assert_eq!(d.content_length(), Some(4096));
}

#[test]
fn zero_prefetch_publishes_first_chunk() {
    let data = pattern(10_000);
    let stream = MemoryStream::new(data.clone(), 100, true);
    let d = StreamDownload::new(stream, Settings { prefetch_bytes: 0 });
    assert!(d.source.position() >= 1);
    assert!(!d.source.terminal);
    assert!(available_from(d.source.downloaded(), 0, 1) == 1);
}

#[test]
fn prefetch_covering_resource_publishes_on_stream_end() {
    let data = pattern(10_000);
    let stream = MemoryStream::new(data.clone(), 100, true);
    let d = StreamDownload::new(stream, Settings { prefetch_bytes: 1024 * 1024 });
    // The resource is smaller than the threshold: the terminal signal comes
    // from the prefetch phase, with everything published at once.
    assert!(d.source.terminal);
    assert_eq!(d.source.position(), 10_000);
    assert_eq!(available_from(d.source.downloaded(), 0, 10_000), 10_000);
}

#[test]
fn prefetch_equal_to_resource_publishes_everything() {
    let data = pattern(2048);
    let stream = MemoryStream::new(data.clone(), 100, true);
    let d = StreamDownload::new(stream, Settings { prefetch_bytes: 2048 });
    assert_eq!(d.source.position(), 2048);
    assert!(!d.source.terminal);
}

#[test]
fn empty_resource_reads_empty() {
    let stream = MemoryStream::new(Vec::new(), 100, true);
    let mut d = StreamDownload::new(stream, Settings { prefetch_bytes: 0 });
    assert!(d.source.terminal);
    let buf = d.read_to_end();
    assert!(buf.is_empty());
}

#[test]
fn head_is_upper_bound_during_forward_download() {
    let data = pattern(10_000);
    let stream = MemoryStream::new(data.clone(), 128, true);
    let d = StreamDownload::new(stream, Settings { prefetch_bytes: 1000 });
    let head = d.source.position();
    // Everything below the head is downloaded; nothing at or past it is.
    assert_eq!(available_from(d.source.downloaded(), 0, 20_000) as u64, head);
    assert_eq!(available_from(d.source.downloaded(), head, 1), 0);
    assert_eq!(available_from(d.source.downloaded(), head - 1, 1), 1);
}

#[test]
fn download_writes_resource_exactly() {
    let data = pattern(77_777);
    let mut stream = MemoryStream::new(data.clone(), 313, true);
    let mut source = Source::new(Settings { prefetch_bytes: 4096 });
    source.download(&mut stream);
    assert!(source.terminal);
    assert_eq!(source.position(), 77_777);
    assert_eq!(source.file, data);
    assert_eq!(source.content_length(), Some(77_777));
}
