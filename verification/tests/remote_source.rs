use std::sync::{Arc, Mutex};

use vapor_app::remote_source::{
    chunk_start, whole_answer, Ask, Chunks, Fetcher, RangeFetch, RemoteSource, RemoteTrack,
    SeekFrom, CHUNK,
};

/// A server holding one object, counting what was asked of it.
struct Fake {
    bytes: Vec<u8>,
    ranges: bool,
    asked: Mutex<Vec<(u64, u64)>>,
}

impl RangeFetch for Fake {
    fn range(&self, at: u64, len: u64) -> Result<(Vec<u8>, Option<u64>), String> {
        self.asked.lock().expect("asked").push((at, len));
        let start = (at as usize).min(self.bytes.len());
        let end = ((at + len) as usize).min(self.bytes.len());
        Ok((
            self.bytes[start..end].to_vec(),
            Some(self.bytes.len() as u64),
        ))
    }

    fn supports_ranges(&self) -> bool {
        self.ranges
    }

    fn whole(&self) -> Result<Vec<u8>, String> {
        self.asked.lock().expect("asked").push((0, u64::MAX));
        Ok(self.bytes.clone())
    }
}

fn fake(len: usize, ranges: bool) -> Arc<Fake> {
    Arc::new(Fake {
        bytes: (0..len).map(|i| (i % 251) as u8).collect(),
        ranges,
        asked: Mutex::new(Vec::new()),
    })
}

#[test]
fn reads_only_the_part_it_was_asked_for() {
    let server = fake(2 * CHUNK as usize, true);
    let mut source = RemoteSource::new(server.clone(), Arc::new(Mutex::new(Chunks::default())));

    let mut buf = [0u8; 16];
    source.read_exact(&mut buf).expect("read");

    assert_eq!(buf[0], 0);
    assert_eq!(
        server.asked.lock().expect("asked").len(),
        1,
        "one read of sixteen bytes cost more than one request",
    );
}

#[test]
fn can_seek_to_the_end_without_reading_everything_before_it() {
    let server = fake(10 * CHUNK as usize, true);
    let mut source = RemoteSource::new(server.clone(), Arc::new(Mutex::new(Chunks::default())));

    let end = source.seek(SeekFrom::End(-8)).expect("seek");
    assert_eq!(end, 10 * CHUNK - 8);

    let mut buf = [0u8; 8];
    source.read_exact(&mut buf).expect("read the tail");

    assert!(
        server.asked.lock().expect("asked").len() <= 2,
        "seeking to the end pulled the whole object",
    );
}

#[test]
fn a_second_read_of_the_same_region_asks_nothing() {
    let server = fake(4 * CHUNK as usize, true);
    let held = Arc::new(Mutex::new(Chunks::default()));
    let mut source = RemoteSource::new(server.clone(), held.clone());

    let mut buf = [0u8; 32];
    source.read_exact(&mut buf).expect("read");
    let after_first = server.asked.lock().expect("asked").len();

    source.seek(SeekFrom::Start(0)).expect("rewind");
    source.read_exact(&mut buf).expect("read again");

    assert_eq!(
        server.asked.lock().expect("asked").len(),
        after_first,
        "the bytes were fetched twice",
    );
}

#[test]
fn falls_back_to_the_whole_object_when_ranges_are_refused() {
    let server = fake(3 * CHUNK as usize, false);
    let mut source = RemoteSource::new(server.clone(), Arc::new(Mutex::new(Chunks::default())));

    assert!(
        !source.is_seekable(),
        "claimed to seek against a server that cannot"
    );

    let mut buf = [0u8; 16];
    source.read_exact(&mut buf).expect("read");
    assert_eq!(source.byte_len(), Some(3 * CHUNK));
}

#[test]
fn a_read_gives_back_the_bytes_at_the_reader() {
    let server = fake(2 * CHUNK as usize, true);
    let mut source = RemoteSource::new(server.clone(), Arc::new(Mutex::new(Chunks::default())));
    source.seek(SeekFrom::Start(CHUNK - 4)).expect("seek");

    // Straddles a chunk boundary: two fetches, one buffer.
    let mut buf = [0u8; 8];
    source.read_exact(&mut buf).expect("read");
    let expected: Vec<u8> = (CHUNK - 4..CHUNK + 4).map(|i| (i % 251) as u8).collect();
    assert_eq!(buf.to_vec(), expected);
}

#[test]
fn reading_past_the_end_fails_and_at_the_end_reads_nothing() {
    let server = fake(10, true);
    let mut source = RemoteSource::new(server.clone(), Arc::new(Mutex::new(Chunks::default())));

    let mut buf = [0u8; 16];
    assert!(source.read_exact(&mut buf).is_err(), "ten bytes cannot fill sixteen");

    source.seek(SeekFrom::End(0)).expect("seek to the end");
    let mut one = [0u8; 1];
    assert_eq!(source.read(&mut one).expect("read at the end"), 0);
}

#[test]
fn a_seek_before_the_start_is_refused() {
    let server = fake(10, true);
    let mut source = RemoteSource::new(server.clone(), Arc::new(Mutex::new(Chunks::default())));
    assert!(source.seek(SeekFrom::Current(-1)).is_err());
    assert_eq!(source.seek(SeekFrom::Current(3)).expect("forward"), 3);
    assert_eq!(source.seek(SeekFrom::Start(7)).expect("absolute"), 7);
}

#[test]
fn held_bytes_are_read_back_from_where_they_were_kept() {
    let mut chunks = Chunks::default();
    chunks.insert(100, vec![1, 2, 3, 4]);

    let mut buf = [9u8; 3];
    assert_eq!(chunks.read_at(101, &mut buf), 3);
    assert_eq!(buf, [2, 3, 4]);

    let mut wide = [9u8; 8];
    assert_eq!(chunks.read_at(102, &mut wide), 2);
    assert_eq!(wide, [3, 4, 9, 9, 9, 9, 9, 9]);

    let mut miss = [9u8; 2];
    assert_eq!(chunks.read_at(50, &mut miss), 0);
    assert_eq!(miss, [9, 9]);
}

#[test]
fn an_empty_fetch_holds_nothing_and_a_chunk_is_kept_once() {
    let mut chunks = Chunks::default();
    chunks.insert(0, Vec::new());
    let mut buf = [0u8; 1];
    assert_eq!(chunks.read_at(0, &mut buf), 0);

    chunks.insert(0, vec![7]);
    chunks.insert(0, vec![8]);
    assert_eq!(chunks.read_at(0, &mut buf), 1);
    assert_eq!(buf, [7]);
}

struct Dav {
    ranges: bool,
}

impl Fetcher for Dav {
    fn supports_ranges(&self, _href: &str) -> bool {
        self.ranges
    }

    fn range(&self, href: &str, at: u64, len: u64) -> Result<(Vec<u8>, Option<u64>), String> {
        Ok((format!("{href}@{at}+{len}").into_bytes(), None))
    }

    fn fetch(&self, href: &str) -> Result<Vec<u8>, String> {
        Ok(href.as_bytes().to_vec())
    }
}

#[test]
fn a_track_asks_the_server_about_ranges_once_and_keeps_its_href() {
    let streaming = RemoteTrack::new(Arc::new(Dav { ranges: true }), "/dav/a.m4a");
    let whole = RemoteTrack::new(Arc::new(Dav { ranges: false }), "/dav/b.m4a");
    assert!(streaming.streamable());
    assert!(!whole.streamable());
    assert_eq!(streaming.range(4, 2).expect("range").0, b"/dav/a.m4a@4+2".to_vec());
    assert_eq!(whole.whole().expect("whole"), b"/dav/b.m4a".to_vec());
}

#[test]
fn an_empty_buffer_is_filled_without_asking() {
    let server = fake(10, true);
    let mut source = RemoteSource::new(server.clone(), Arc::new(Mutex::new(Chunks::default())));
    let mut nothing: [u8; 0] = [];
    assert!(source.read_exact(&mut nothing).is_ok());
    assert!(server.asked.lock().expect("asked").is_empty());
    let track = RemoteTrack::new(Arc::new(Dav { ranges: true }), "/dav/a.m4a");
    assert!(track.supports_ranges());
}

#[test]
fn a_position_falls_in_the_chunk_that_starts_at_or_before_it() {
    assert_eq!(chunk_start(0), 0);
    assert_eq!(chunk_start(CHUNK - 1), 0);
    assert_eq!(chunk_start(CHUNK), CHUNK);
    assert_eq!(chunk_start(3 * CHUNK + 17), 3 * CHUNK);
    assert_eq!(whole_answer(vec![1, 2, 3]), (vec![1, 2, 3], Some(3)));
}

#[test]
fn a_source_asks_for_its_chunk_or_for_everything() {
    let held = Arc::new(Mutex::new(Chunks::default()));
    let mut ranged = RemoteSource::answered(fake(10, true), held.clone(), true);
    assert!(ranged.is_seekable());
    assert_eq!(ranged.byte_len(), None);
    ranged.seek(SeekFrom::Start(CHUNK + 5)).expect("seek");
    assert_eq!(ranged.request(), Ask::Range { at: CHUNK, len: CHUNK });
    let whole = RemoteSource::answered(fake(10, true), held, false);
    assert!(!whole.is_seekable());
    assert_eq!(whole.request(), Ask::Whole);
}

#[test]
fn an_answer_is_kept_at_its_chunk_and_tells_the_length() {
    let mut source = RemoteSource::answered(fake(0, true), Arc::new(Mutex::new(Chunks::default())), true);
    source.seek(SeekFrom::Start(CHUNK + 2)).expect("seek");
    let mut chunks = Chunks::default();
    assert_eq!(source.keep(&mut chunks, Ok((vec![7, 8, 9, 10], Some(CHUNK + 4)))), Ok(()));
    assert_eq!(source.byte_len(), Some(CHUNK + 4));
    assert!(chunks.holds(CHUNK + 2));
    assert!(!chunks.holds(2));
    let mut buf = [0u8; 8];
    assert_eq!(chunks.read_at(CHUNK + 2, &mut buf), 2);
    assert_eq!(&buf[..2], &[9, 10]);

    // a failed fetch keeps nothing and says why
    let mut other = Chunks::default();
    assert_eq!(source.keep(&mut other, Err("gone".to_string())), Err("gone".to_string()));
    assert!(!other.holds(CHUNK + 2));
    assert_eq!(source.byte_len(), Some(CHUNK + 4));
}

#[test]
fn a_whole_object_is_kept_from_its_start() {
    let mut source = RemoteSource::answered(fake(0, false), Arc::new(Mutex::new(Chunks::default())), false);
    source.seek(SeekFrom::Start(3)).expect("seek");
    let mut chunks = Chunks::default();
    let mut buf = [0u8; 2];
    let n = source
        .read_with(&mut chunks, Some(Ok(whole_answer(vec![1, 2, 3, 4, 5]))), &mut buf)
        .expect("read");
    assert_eq!(n, 2);
    assert_eq!(buf, [4, 5]);
    assert_eq!(source.byte_len(), Some(5));
    assert!(chunks.holds(0));

    // once held, nothing more is needed to read it again
    source.seek(SeekFrom::Start(1)).expect("seek");
    let n = source.read_with(&mut chunks, None, &mut buf).expect("read again");
    assert_eq!((n, buf), (2, [2, 3]));
}

#[test]
fn a_failed_fetch_leaves_the_reader_where_it_was() {
    let mut source = RemoteSource::answered(fake(0, true), Arc::new(Mutex::new(Chunks::default())), true);
    let mut chunks = Chunks::default();
    let mut buf = [9u8; 3];
    let r = source.read_with(&mut chunks, Some(Err("timed out".to_string())), &mut buf);
    assert_eq!(r, Err("timed out".to_string()));
    assert_eq!(buf, [9, 9, 9]);
    assert_eq!(source.byte_len(), None);
    let mut more = [0u8; 1];
    assert_eq!(source.read_with(&mut chunks, None, &mut more), Ok(0));
}

#[test]
fn a_source_without_ranges_fetches_the_whole_object_once_and_learns_its_length() {
    let server = fake(3 * CHUNK as usize, false);
    let mut source = RemoteSource::new(server.clone(), Arc::new(Mutex::new(Chunks::default())));
    let mut buf = [0u8; 16];
    source.read_exact(&mut buf).expect("read");
    source.read_exact(&mut buf).expect("read on");
    assert!(!source.is_seekable());
    assert_eq!(source.byte_len(), Some(3 * CHUNK));
    assert_eq!(*server.asked.lock().expect("asked"), vec![(0, u64::MAX)]);
}

#[test]
fn a_seek_from_a_known_end_asks_nothing() {
    let server = fake(2 * CHUNK as usize, true);
    let mut source = RemoteSource::new(server.clone(), Arc::new(Mutex::new(Chunks::default())));
    assert_eq!(source.seek(SeekFrom::End(-1)).expect("learn the end"), 2 * CHUNK - 1);
    let asked = server.asked.lock().expect("asked").len();
    assert_eq!(source.seek(SeekFrom::End(0)).expect("end"), 2 * CHUNK);
    assert!(source.seek(SeekFrom::End(-(2 * CHUNK as i64) - 1)).is_err());
    assert_eq!(source.seek(SeekFrom::Current(-3)).expect("back"), 2 * CHUNK - 3);
    assert_eq!(server.asked.lock().expect("asked").len(), asked);
}

#[test]
fn a_track_built_from_an_answer_keeps_it() {
    let track = RemoteTrack::answered(Arc::new(Dav { ranges: true }), "/dav/c.m4a", false);
    assert!(!track.streamable());
    assert!(!track.supports_ranges());
    assert_eq!(track.whole().expect("whole"), b"/dav/c.m4a".to_vec());
}

#[test]
fn read_exact_gives_the_object_s_bytes_and_says_so_when_it_ends() {
    let server = fake(CHUNK as usize + 10, true);
    let mut source = RemoteSource::new(server.clone(), Arc::new(Mutex::new(Chunks::default())));
    source.seek(SeekFrom::Start(CHUNK - 3)).expect("seek");
    let mut buf = [0u8; 6];
    source.read_exact(&mut buf).expect("read across a chunk boundary");
    let want: Vec<u8> = (CHUNK as usize - 3..CHUNK as usize + 3).map(|i| (i % 251) as u8).collect();
    assert_eq!(buf.to_vec(), want);
    let mut past = [0u8; 16];
    let err = source.read_exact(&mut past).expect_err("the object ends first");
    assert_eq!(err.kind(), std::io::ErrorKind::UnexpectedEof);
    assert_eq!(err.to_string(), "failed to fill whole buffer");
}
