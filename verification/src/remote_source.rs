//! Playing a track while it is still arriving.
//!
//! A source that fetches byte ranges of one remote object on demand and
//! remembers what it fetched, so an MP4 whose tables sit at the end, or a mix
//! that opens a track at its cue point minutes in, does not wait for every
//! byte before it. Range support is not assumed: a server that will not do
//! ranges is read whole, once.

use vstd::prelude::*;

use vstd::string::StringExecFns;

use std::sync::{Arc, Mutex, MutexGuard};

verus! {

/// How much is fetched per request: small enough that starting a track does
/// not wait on a megabyte, large enough that a track is not hundreds of
/// requests.
pub const CHUNK: u64 = 256 * 1024;

/// The bytes held so far, in whatever pieces they arrived, as
/// (offset, bytes).
#[derive(Default)]
pub struct Chunks {
    pieces: Vec<(u64, Vec<u8>)>,
}

/// Whether a piece starting at `start` with `len` bytes covers `at`.
pub open spec fn covers(start: u64, len: nat, at: u64) -> bool {
    start <= at && at < start + len
}

/// The first piece that covers `at`, by its place in the list.
pub open spec fn first_cover(pieces: Seq<(u64, Seq<u8>)>, at: u64, i: int) -> int
    decreases pieces.len() - i,
{
    if i >= pieces.len() {
        pieces.len() as int
    } else if covers(pieces[i].0, pieces[i].1.len(), at) {
        i
    } else {
        first_cover(pieces, at, i + 1)
    }
}

/// How many bytes a read at `at` into a buffer of `want` bytes yields: as
/// many as the buffer takes from the piece that covers `at`, zero when none
/// does.
pub open spec fn held_len(pieces: Seq<(u64, Seq<u8>)>, at: u64, want: nat) -> nat {
    let k = first_cover(pieces, at, 0);
    if k < pieces.len() {
        let avail = (pieces[k].0 + pieces[k].1.len() - at) as nat;
        if want <= avail {
            want
        } else {
            avail
        }
    } else {
        0
    }
}

/// The bytes a read at `at` into a buffer of `want` bytes yields.
pub open spec fn held_bytes(pieces: Seq<(u64, Seq<u8>)>, at: u64, want: nat) -> Seq<u8> {
    let k = first_cover(pieces, at, 0);
    if k < pieces.len() {
        let offset = at - pieces[k].0;
        pieces[k].1.subrange(offset, offset + held_len(pieces, at, want))
    } else {
        Seq::empty()
    }
}

/// What is held after keeping `bytes` fetched from `at`: nothing changes
/// for an empty fetch or where a piece already starts at `at`.
pub open spec fn inserted(pieces: Seq<(u64, Seq<u8>)>, at: u64, bytes: Seq<u8>) -> Seq<(u64, Seq<u8>)> {
    if bytes.len() == 0 || exists|i: int| 0 <= i < pieces.len() && (#[trigger] pieces[i]).0 == at {
        pieces
    } else {
        pieces.push((at, bytes))
    }
}

impl View for Chunks {
    type V = Seq<(u64, Seq<u8>)>;

    closed spec fn view(&self) -> Self::V {
        self.pieces@.map_values(|p: (u64, Vec<u8>)| (p.0, p.1@))
    }
}

impl Chunks {
    /// Copy out of what is held, from `at`, as much as `buf` will take.
    /// Returns how much was filled — zero when the offset is not held.
    pub fn read_at(&self, at: u64, buf: &mut [u8]) -> (n: usize)
        ensures
            n == held_len(self@, at, old(buf)@.len()),
            final(buf)@.len() == old(buf)@.len(),
            final(buf)@.take(n as int) == held_bytes(self@, at, old(buf)@.len()),
            final(buf)@.skip(n as int) == old(buf)@.skip(n as int),
    {
        let ghost ps = self@;
        let mut i: usize = 0;
        while i < self.pieces.len()
            invariant
                i <= self.pieces@.len(),
                ps == self@,
                buf@ == old(buf)@,
                first_cover(ps, at, 0) == first_cover(ps, at, i as int),
            decreases self.pieces@.len() - i,
        {
            let start = self.pieces[i].0;
            let bytes = &self.pieces[i].1;
            assert(ps[i as int] == (start, bytes@));
            if at >= start && at - start < bytes.len() as u64 {
                let offset = (at - start) as usize;
                let avail = bytes.len() - offset;
                let n = if buf.len() <= avail {
                    buf.len()
                } else {
                    avail
                };
                let mut j: usize = 0;
                while j < n
                    invariant
                        j <= n <= buf@.len(),
                        offset + n <= bytes@.len(),
                        bytes@.len() <= usize::MAX,
                        buf@.len() == old(buf)@.len(),
                        buf@.take(j as int) == bytes@.subrange(offset as int, offset + j),
                        buf@.skip(j as int) == old(buf)@.skip(j as int),
                    decreases n - j,
                {
                    let ghost before = buf@;
                    assert(offset + j < bytes@.len());
                    buf[j] = bytes[offset + j];
                    assert(buf@.take(j + 1) =~= bytes@.subrange(offset as int, offset + j + 1));
                    assert(buf@.skip(j + 1) =~= old(buf)@.skip(j + 1)) by {
                        assert forall|k: int| 0 <= k < buf@.len() - (j + 1) implies #[trigger] buf@.skip(
                            j + 1,
                        )[k] == old(buf)@.skip(j + 1)[k] by {
                            assert(buf@[j + 1 + k] == before[j + 1 + k]);
                            assert(before.skip(j as int)[k + 1] == old(buf)@.skip(j as int)[k + 1]);
                        }
                    }
                    j += 1;
                }
                return n;
            }
            i += 1;
        }
        assert(buf@.take(0) =~= Seq::<u8>::empty());
        assert(buf@.skip(0) =~= old(buf)@);
        0
    }

    /// Whether the byte at `at` is held.
    pub fn holds(&self, at: u64) -> (r: bool)
        ensures
            r == (held_len(self@, at, 1) == 1),
    {
        let mut probe = [0u8; 1];
        self.read_at(at, &mut probe) == 1
    }

    /// Keep `bytes`, fetched from `at`. Pieces are whole chunks at chunk
    /// boundaries, so a piece already held at `at` is the same chunk and
    /// the copy held is as good; an empty fetch holds nothing.
    pub fn insert(&mut self, at: u64, bytes: Vec<u8>)
        ensures
            final(self)@ == inserted(old(self)@, at, bytes@),
    {
        if bytes.len() == 0 {
            return;
        }
        let mut i: usize = 0;
        while i < self.pieces.len()
            invariant
                i <= self.pieces@.len(),
                self@ == old(self)@,
                forall|k: int| 0 <= k < i ==> (#[trigger] old(self)@[k]).0 != at,
            decreases self.pieces@.len() - i,
        {
            if self.pieces[i].0 == at {
                assert(old(self)@[i as int].0 == at);
                return;
            }
            i += 1;
        }
        let ghost before = self@;
        self.pieces.push((at, bytes));
        assert(self@ =~= before.push((at, bytes@)));
    }
}

/// What was fetched is what is read back: after keeping `bytes` from `at`
/// where nothing held covered `pos` and no piece started at `at`, a read at
/// any `pos` inside them yields those bytes from `pos` on, as many as the
/// buffer takes — so a second read of the same region needs nothing fetched.
pub proof fn read_gives_back_what_was_kept(
    pieces: Seq<(u64, Seq<u8>)>,
    at: u64,
    bytes: Seq<u8>,
    pos: u64,
    want: nat,
)
    requires
        at <= pos < at + bytes.len(),
        at + bytes.len() <= u64::MAX,
        first_cover(pieces, pos, 0) == pieces.len(),
        forall|i: int| 0 <= i < pieces.len() ==> (#[trigger] pieces[i]).0 != at,
    ensures
        held_len(inserted(pieces, at, bytes), pos, want) == (if want <= at + bytes.len() - pos {
            want
        } else {
            (at + bytes.len() - pos) as nat
        }),
        held_bytes(inserted(pieces, at, bytes), pos, want) == bytes.subrange(
            pos - at,
            pos - at + held_len(inserted(pieces, at, bytes), pos, want),
        ),
{
    let q = pieces.push((at, bytes));
    assert(inserted(pieces, at, bytes) == q);
    lemma_first_cover_push(pieces, at, bytes, pos, 0);
    assert(first_cover(q, pos, 0) == pieces.len());
    assert(q[pieces.len() as int] == (at, bytes));
}

proof fn lemma_first_cover_push(
    pieces: Seq<(u64, Seq<u8>)>,
    at: u64,
    bytes: Seq<u8>,
    pos: u64,
    i: int,
)
    requires
        0 <= i <= pieces.len(),
        at <= pos < at + bytes.len(),
        first_cover(pieces, pos, i) == pieces.len(),
    ensures
        first_cover(pieces.push((at, bytes)), pos, i) == pieces.len(),
    decreases pieces.len() - i,
{
    let q = pieces.push((at, bytes));
    if i < pieces.len() {
        assert(q[i] == pieces[i]);
        lemma_first_cover_push(pieces, at, bytes, pos, i + 1);
    } else {
        assert(q[i] == (at, bytes));
    }
}

/// Somewhere bytes can be asked for by range.
///
/// A trait so a source can be driven without a network, and so the WebDAV
/// client is not dragged into this module.
pub trait RangeFetch {
    /// Fetch `len` bytes from `at`. Returns the bytes and, when the server
    /// said so, the total size of the object.
    fn range(&self, at: u64, len: u64) -> Result<(Vec<u8>, Option<u64>), String>;

    /// Whether the server answers ranges with ranges. Asked once.
    fn supports_ranges(&self) -> bool;

    /// The whole object, for a server that will not do ranges.
    fn whole(&self) -> Result<Vec<u8>, String>;
}

#[verifier::external_type_specification]
#[verifier::external_body]
#[verifier::reject_recursive_types(T)]
pub struct ExMutex<T: ?Sized>(Mutex<T>);

#[verifier::external_type_specification]
#[verifier::external_body]
#[verifier::reject_recursive_types(T)]
pub struct ExMutexGuard<'a, T: ?Sized + 'a>(MutexGuard<'a, T>);

/// `have.lock().ok()`: the held bytes, or `None` when another thread
/// panicked holding them. What is behind the lock is shared with other
/// sources, so nothing is said of it.
#[verifier::external_body]
fn lock_chunks(have: &Mutex<Chunks>) -> Option<MutexGuard<'_, Chunks>> {
    have.lock().ok()
}

/// `&**guard`.
#[verifier::external_body]
fn held<'a, 'b>(guard: &'a MutexGuard<'b, Chunks>) -> &'a Chunks {
    guard
}

/// `&mut **guard`.
#[verifier::external_body]
fn held_mut<'a, 'b>(guard: &'a mut MutexGuard<'b, Chunks>) -> &'a mut Chunks {
    guard
}

/// `std::io::Error::other(message)`.
#[verifier::external_body]
fn io_error(message: String) -> std::io::Error {
    std::io::Error::other(message)
}

/// `std::io::Error::new(ErrorKind::UnexpectedEof, message)`: the kind of
/// error `Read::read_exact` gives when the object ends before the buffer is
/// full.
#[verifier::external_body]
fn eof_error(message: String) -> std::io::Error {
    std::io::Error::new(std::io::ErrorKind::UnexpectedEof, message)
}

/// Where to move a source's reader, as `std::io::SeekFrom` says it.
#[derive(Clone, Copy, Debug, PartialEq, Eq)]
pub enum SeekFrom {
    Start(u64),
    End(i64),
    Current(i64),
}

/// What a source asks its server for to bring a byte in.
#[derive(Clone, Copy, Debug, PartialEq, Eq)]
pub enum Ask {
    /// `len` bytes from `at`.
    Range { at: u64, len: u64 },
    /// The whole object.
    Whole,
}

/// The start of the chunk `pos` falls in.
pub open spec fn chunk_of(pos: u64) -> u64 {
    (pos - pos % CHUNK) as u64
}

/// What a source at `pos` asks for: the chunk `pos` falls in, or the whole
/// object from a server that does not do ranges.
pub open spec fn ask_for(ranges: bool, pos: u64) -> Ask {
    if ranges {
        Ask::Range { at: chunk_of(pos), len: CHUNK }
    } else {
        Ask::Whole
    }
}

/// Where the answer to that is kept: at the chunk's start, or at 0 for the
/// whole object.
pub open spec fn kept_at(ranges: bool, pos: u64) -> u64 {
    if ranges {
        chunk_of(pos)
    } else {
        0
    }
}

/// The size known after an answer that gave `total`: what it said, or what
/// was known before when it said nothing.
pub open spec fn learned(known: Option<u64>, total: Option<u64>) -> Option<u64> {
    match total {
        Some(t) => Some(t),
        None => known,
    }
}

/// What is held after an answer `got` (bytes, and the size the server gave)
/// to a source at `pos` was kept; nothing changes when nothing was asked.
pub open spec fn after_keeping(
    before: Seq<(u64, Seq<u8>)>,
    ranges: bool,
    pos: u64,
    got: Option<(Seq<u8>, Option<u64>)>,
) -> Seq<(u64, Seq<u8>)> {
    match got {
        Some(g) => inserted(before, kept_at(ranges, pos), g.0),
        None => before,
    }
}

/// What one read from `pos` did: with `got` the answer it asked for (`None`
/// when it asked nothing) and `after` what was held once that answer was
/// kept, it read `n` bytes of what was held there into a buffer that was `was` and is
/// now `now`, and the size known went from `known` to `known_now`. A whole
/// object tells its own size.
pub open spec fn read_from(
    after: Seq<(u64, Seq<u8>)>,
    got: Option<(Seq<u8>, Option<u64>)>,
    ranges: bool,
    pos: u64,
    known: Option<u64>,
    was: Seq<u8>,
    n: usize,
    now: Seq<u8>,
    known_now: Option<u64>,
) -> bool {
    &&& n == held_len(after, pos, was.len())
    &&& now.take(n as int) == held_bytes(after, pos, was.len())
    &&& now.skip(n as int) == was.skip(n as int)
    &&& known_now == match got {
        Some(g) => learned(known, g.1),
        None => known,
    }
    &&& (!ranges ==> (got matches Some(g) ==> g.1 == Some(g.0.len() as u64)))
}

/// `out` is what reads in turn from `pos` gave, the first out of what was
/// held in `snaps[0]`, the next in `snaps[1]`, and so on: each asked for the
/// rest of a `want`-byte buffer, and each gave at least one byte.
pub open spec fn read_in_turn(snaps: Seq<Seq<(u64, Seq<u8>)>>, pos: u64, want: nat, out: Seq<u8>) -> bool
    decreases snaps.len(),
{
    if snaps.len() == 0 {
        out.len() == 0
    } else {
        let n = held_len(snaps[0], pos, want);
        &&& 0 < n <= out.len()
        &&& out.take(n as int) == held_bytes(snaps[0], pos, want)
        &&& read_in_turn(snaps.drop_first(), (pos + n) as u64, (want - n) as nat, out.skip(n as int))
    }
}

proof fn lemma_held_bytes_len(pieces: Seq<(u64, Seq<u8>)>, at: u64, want: nat)
    ensures
        held_bytes(pieces, at, want).len() == held_len(pieces, at, want),
        held_len(pieces, at, want) <= want,
{
    let k = first_cover(pieces, at, 0);
    lemma_first_cover_found(pieces, at, 0);
}

proof fn lemma_first_cover_found(pieces: Seq<(u64, Seq<u8>)>, at: u64, i: int)
    requires
        0 <= i,
    ensures
        i <= first_cover(pieces, at, i) <= pieces.len() || (i > pieces.len() && first_cover(
            pieces,
            at,
            i,
        ) == pieces.len()),
        first_cover(pieces, at, i) < pieces.len() ==> covers(
            pieces[first_cover(pieces, at, i)].0,
            pieces[first_cover(pieces, at, i)].1.len(),
            at,
        ),
    decreases pieces.len() - i,
{
    if i < pieces.len() && !covers(pieces[i].0, pieces[i].1.len(), at) {
        lemma_first_cover_found(pieces, at, i + 1);
    }
}

/// One more read at the end of a run of reads extends the run.
proof fn lemma_read_in_turn_push(
    snaps: Seq<Seq<(u64, Seq<u8>)>>,
    pos: u64,
    want: nat,
    out: Seq<u8>,
    s: Seq<(u64, Seq<u8>)>,
    more: Seq<u8>,
)
    requires
        read_in_turn(snaps, pos, want, out),
        out.len() <= want,
        pos + want <= u64::MAX,
        0 < held_len(s, (pos + out.len()) as u64, (want - out.len()) as nat),
        more == held_bytes(s, (pos + out.len()) as u64, (want - out.len()) as nat),
    ensures
        read_in_turn(snaps.push(s), pos, want, out + more),
    decreases snaps.len(),
{
    lemma_held_bytes_len(s, (pos + out.len()) as u64, (want - out.len()) as nat);
    if snaps.len() == 0 {
        assert(out.len() == 0);
        assert(out + more =~= more);
        assert((pos + out.len()) as u64 == pos);
        assert((want - out.len()) as nat == want);
        let q = snaps.push(s);
        assert(q[0] == s);
        assert(q.drop_first() =~= Seq::<Seq<(u64, Seq<u8>)>>::empty());
        let n = held_len(s, pos, want);
        assert(more.len() == n);
        assert(more.take(n as int) =~= more);
        assert(more.skip(n as int) =~= Seq::<u8>::empty());
        assert(read_in_turn(q.drop_first(), (pos + n) as u64, (want - n) as nat, more.skip(n as int)));
        assert(read_in_turn(q, pos, want, more));
    } else {
        let n = held_len(snaps[0], pos, want);
        let q = snaps.push(s);
        assert(q[0] == snaps[0]);
        assert(q.drop_first() =~= snaps.drop_first().push(s));
        assert((out + more).take(n as int) =~= out.take(n as int));
        assert((out + more).skip(n as int) =~= out.skip(n as int) + more);
        lemma_read_in_turn_push(
            snaps.drop_first(),
            (pos + n) as u64,
            (want - n) as nat,
            out.skip(n as int),
            s,
            more,
        );
    }
}

/// Whether a source at `pos` asked as it should of what it `seen` held when
/// it looked: nothing when the byte at `pos` was held, and the server only
/// when it was not.
pub open spec fn looked(seen: Seq<(u64, Seq<u8>)>, got: Option<(Seq<u8>, Option<u64>)>, pos: u64) -> bool {
    match got {
        None => held_len(seen, pos, 1) == 1,
        Some(_) => held_len(seen, pos, 1) != 1,
    }
}

/// The size known after an answer `got`, or as before when nothing came.
pub open spec fn learned_from(known: Option<u64>, got: Option<(Seq<u8>, Option<u64>)>) -> Option<u64> {
    match got {
        Some(g) => learned(known, g.1),
        None => known,
    }
}

/// What an answer brought, when there was one and it was not an error.
pub open spec fn got_of(answer: Option<Result<(Vec<u8>, Option<u64>), String>>) -> Option<
    (Seq<u8>, Option<u64>),
> {
    match answer {
        Some(Ok(g)) => Some((g.0@, g.1)),
        _ => None,
    }
}

/// The start of the chunk `pos` falls in, so that repeated reads of one
/// region ask for the same range.
pub fn chunk_start(pos: u64) -> (r: u64)
    ensures
        r == chunk_of(pos),
        r <= pos,
        r % CHUNK == 0,
{
    let r = pos - pos % CHUNK;
    assert((pos - pos % CHUNK) % (CHUNK as int) == 0) by {
        vstd::arithmetic::div_mod::lemma_fundamental_div_mod(pos as int, CHUNK as int);
        vstd::arithmetic::div_mod::lemma_mod_multiples_basic(pos as int / CHUNK as int, CHUNK as int);
    }
    r
}

/// A whole object as a range answer: the bytes, and their count as the
/// size.
pub fn whole_answer(all: Vec<u8>) -> (r: (Vec<u8>, Option<u64>))
    ensures
        r.0@ == all@,
        r.1 == Some(all@.len() as u64),
{
    let len = all.len() as u64;
    (all, Some(len))
}

/// Fetches byte ranges of one remote object, and keeps what it fetched.
pub struct RemoteSource<F: RangeFetch> {
    fetch: Arc<F>,
    /// What is known about the object's size, once the server has said.
    len: Option<u64>,
    /// Whether the server answered a range request with a range.
    seekable: bool,
    /// Where the reader is.
    pos: u64,
    /// What has been fetched. Shared so a second source over the same track
    /// does not fetch it all again.
    have: Arc<Mutex<Chunks>>,
}

impl<F: RangeFetch> RemoteSource<F> {
    pub closed spec fn position(&self) -> u64 {
        self.pos
    }

    pub closed spec fn known_len(&self) -> Option<u64> {
        self.len
    }

    pub closed spec fn ranges(&self) -> bool {
        self.seekable
    }

    /// A source over `fetch`, reading from the start, sharing `have`.
    /// Whether the server does ranges is asked here, once.
    pub fn new(fetch: Arc<F>, have: Arc<Mutex<Chunks>>) -> (r: Self)
        ensures
            r.position() == 0,
            r.known_len() is None,
    {
        let seekable = fetch.supports_ranges();
        Self::answered(fetch, have, seekable)
    }

    /// A source over `fetch`, reading from the start, sharing `have`, whose
    /// server answered `seekable` when asked whether it does ranges. Nothing
    /// is fetched yet.
    pub fn answered(fetch: Arc<F>, have: Arc<Mutex<Chunks>>, seekable: bool) -> (r: Self)
        ensures
            r.position() == 0,
            r.known_len() is None,
            r.ranges() == seekable,
    {
        RemoteSource { fetch, len: None, seekable, pos: 0, have }
    }

    /// Whether the reader can be moved without reading everything first.
    pub fn is_seekable(&self) -> (r: bool)
        ensures
            r == self.ranges(),
    {
        self.seekable
    }

    /// The object's size, once the server has said.
    pub fn byte_len(&self) -> (r: Option<u64>)
        ensures
            r == self.known_len(),
    {
        self.len
    }

    /// What to ask the server for to bring in the byte at the reader.
    pub fn request(&self) -> (r: Ask)
        ensures
            r == ask_for(self.ranges(), self.position()),
    {
        if self.seekable {
            Ask::Range { at: chunk_start(self.pos), len: CHUNK }
        } else {
            Ask::Whole
        }
    }

    /// Put `what` to the server. A whole object comes back with its size.
    fn ask(&self, what: Ask) -> (r: Result<(Vec<u8>, Option<u64>), String>)
        ensures
            what is Whole ==> (r matches Ok(got) ==> got.1 == Some(got.0@.len() as u64)),
    {
        match what {
            Ask::Range { at, len } => self.fetch.range(at, len),
            Ask::Whole => match self.fetch.whole() {
                Ok(all) => Ok(whole_answer(all)),
                Err(e) => Err(e),
            },
        }
    }

    /// Keep the server's answer to `self.request()` in `chunks`: the bytes at
    /// the chunk's start (at 0 for a whole object), and the size, when the
    /// server gave one. A failed fetch keeps nothing and passes its message
    /// on.
    pub fn keep(&mut self, chunks: &mut Chunks, answer: Result<(Vec<u8>, Option<u64>), String>) -> (r:
        Result<(), String>)
        ensures
            final(self).position() == old(self).position(),
            final(self).ranges() == old(self).ranges(),
            match answer {
                Ok(got) => {
                    &&& r is Ok
                    &&& final(chunks)@ == inserted(
                        old(chunks)@,
                        kept_at(old(self).ranges(), old(self).position()),
                        got.0@,
                    )
                    &&& final(self).known_len() == learned(old(self).known_len(), got.1)
                },
                Err(e) => {
                    &&& r == Err::<(), String>(e)
                    &&& final(chunks)@ == old(chunks)@
                    &&& final(self).known_len() == old(self).known_len()
                },
            },
    {
        match answer {
            Ok((bytes, total)) => {
                if let Some(total) = total {
                    self.len = Some(total);
                }
                let at = if self.seekable {
                    chunk_start(self.pos)
                } else {
                    0
                };
                chunks.insert(at, bytes);
                Ok(())
            },
            Err(e) => Err(e),
        }
    }

    /// Read from the reader's place out of `chunks`, after keeping `answer`
    /// when there is one, and move the reader on by what was read.
    pub fn read_with(
        &mut self,
        chunks: &mut Chunks,
        answer: Option<Result<(Vec<u8>, Option<u64>), String>>,
        buf: &mut [u8],
    ) -> (r: Result<usize, String>)
        requires
            old(self).position() + old(buf)@.len() <= u64::MAX,
        ensures
            final(self).ranges() == old(self).ranges(),
            final(buf)@.len() == old(buf)@.len(),
            match answer {
                Some(Err(e)) => {
                    &&& r == Err::<usize, String>(e)
                    &&& final(chunks)@ == old(chunks)@
                    &&& final(buf)@ == old(buf)@
                    &&& final(self).position() == old(self).position()
                    &&& final(self).known_len() == old(self).known_len()
                },
                _ => {
                    let got = got_of(answer);
                    let after = after_keeping(
                        old(chunks)@,
                        old(self).ranges(),
                        old(self).position(),
                        got,
                    );
                    let n = held_len(after, old(self).position(), old(buf)@.len());
                    &&& r == Ok::<usize, String>(n as usize)
                    &&& final(chunks)@ == after
                    &&& final(buf)@.take(n as int) == held_bytes(
                        after,
                        old(self).position(),
                        old(buf)@.len(),
                    )
                    &&& final(buf)@.skip(n as int) == old(buf)@.skip(n as int)
                    &&& final(self).position() == old(self).position() + n
                    &&& final(self).known_len() == match got {
                        Some(g) => learned(old(self).known_len(), g.1),
                        None => old(self).known_len(),
                    }
                },
            },
    {
        if let Some(answer) = answer {
            match self.keep(chunks, answer) {
                Ok(()) => {},
                Err(e) => return Err(e),
            }
        }
        let n = chunks.read_at(self.pos, buf);
        self.pos = self.pos + n as u64;
        Ok(n)
    }

    /// Make sure the byte at the reader is held, asking the server for what
    /// holds it only when it was missing from what was held when it looked.
    /// A server that will not do ranges is read whole, once, and that tells
    /// the size.
    fn bring_in(&mut self) -> (r: std::io::Result<()>)
        ensures
            final(self).position() == old(self).position(),
            final(self).ranges() == old(self).ranges(),
            exists|seen: Seq<(u64, Seq<u8>)>, got: Option<(Seq<u8>, Option<u64>)>|
                #[trigger] looked(seen, got, old(self).position()) && final(self).known_len()
                    == learned_from(old(self).known_len(), got),
            r is Err ==> final(self).known_len() == old(self).known_len(),
    {
        let ghost pos = self.position();
        let ghost anything: Seq<(u64, Seq<u8>)> = seq![(pos, seq![0u8])];
        assert(looked(anything, None, pos)) by {
            assert(first_cover(anything, pos, 0) == 0);
        }
        let have = self.have.clone();
        let ghost mut seen: Seq<(u64, Seq<u8>)> = Seq::empty();
        {
            let Some(mut guard) = lock_chunks(&have) else {
                return Err(io_error(String::from_str("the byte cache lock was poisoned")));
            };
            let chunks = held_mut(&mut guard);
            proof {
                seen = chunks@;
            }
            if chunks.holds(self.pos) {
                assert(looked(seen, None, pos));
                return Ok(());
            }
        }
        let answer = self.ask(self.request());
        let ghost got = got_of(Some(answer));
        let Some(mut guard) = lock_chunks(&have) else {
            return Err(io_error(String::from_str("the byte cache lock was poisoned")));
        };
        match self.keep(held_mut(&mut guard), answer) {
            Ok(()) => {
                assert(looked(seen, got, pos));
                Ok(())
            },
            Err(e) => Err(io_error(e)),
        }
    }

    /// Read from the reader's place: nothing for an empty buffer or at the
    /// end, otherwise what is held there once the chunk it falls in (or the
    /// whole object, from a server without ranges) has been fetched and kept.
    /// The server is asked only when the byte at the reader was missing when
    /// it looked; when it was held, the read is out of what it looked at, so it
    /// gives at least that byte. The reader moves on by what was read.
    pub fn read(&mut self, buf: &mut [u8]) -> (r: std::io::Result<usize>)
        requires
            old(self).position() + old(buf)@.len() <= u64::MAX,
        ensures
            final(buf)@.len() == old(buf)@.len(),
            final(self).ranges() == old(self).ranges(),
            old(buf)@.len() == 0 ==> r == Ok::<usize, std::io::Error>(0),
            (match old(self).known_len() {
                Some(len) => old(self).position() >= len,
                None => false,
            }) ==> r == Ok::<usize, std::io::Error>(0),
            match r {
                Ok(n) => n <= old(buf)@.len() && final(self).position() == old(self).position() + n
                    && exists|before: Seq<(u64, Seq<u8>)>, got: Option<(Seq<u8>, Option<u64>)>|
                    read_from(
                        #[trigger] after_keeping(
                            before,
                            old(self).ranges(),
                            old(self).position(),
                            got,
                        ),
                        got,
                        old(self).ranges(),
                        old(self).position(),
                        old(self).known_len(),
                        old(buf)@,
                        n,
                        final(buf)@,
                        final(self).known_len(),
                    ) && (old(buf)@.len() > 0 && !(match old(self).known_len() {
                        Some(len) => old(self).position() >= len,
                        None => false,
                    }) ==> exists|seen: Seq<(u64, Seq<u8>)>|
                        #[trigger] looked(seen, got, old(self).position()) && (got is None
                            ==> seen == before)),
                Err(_) => {
                    &&& final(self).position() == old(self).position()
                    &&& final(self).known_len() == old(self).known_len()
                    &&& final(buf)@ == old(buf)@
                },
            },
    {
        if buf.len() == 0 || match self.len {
            Some(len) => self.pos >= len,
            None => false,
        } {
            proof {
                let none: Seq<(u64, Seq<u8>)> = Seq::empty();
                let after = after_keeping(none, self.seekable, self.pos, None);
                assert(held_bytes(after, self.pos, buf@.len()) =~= buf@.take(0));
                assert(buf@.skip(0) =~= buf@);
                assert(read_from(
                    after,
                    None,
                    self.ranges(),
                    self.position(),
                    self.known_len(),
                    buf@,
                    0usize,
                    buf@,
                    self.known_len(),
                ));
            }
            return Ok(0);
        }
        let have = self.have.clone();
        let ghost mut seen: Seq<(u64, Seq<u8>)> = Seq::empty();
        {
            let Some(mut guard) = lock_chunks(&have) else {
                return Err(io_error(String::from_str("the byte cache lock was poisoned")));
            };
            let chunks = held_mut(&mut guard);
            proof {
                seen = chunks@;
            }
            if chunks.holds(self.pos) {
                return match self.read_with(chunks, None, buf) {
                    Ok(n) => {
                        proof {
                            assert(looked(seen, None, old(self).position()));
                            assert(read_from(
                                after_keeping(seen, old(self).ranges(), old(self).position(), None),
                                None,
                                old(self).ranges(),
                                old(self).position(),
                                old(self).known_len(),
                                old(buf)@,
                                n,
                                buf@,
                                self.known_len(),
                            ));
                        }
                        Ok(n)
                    },
                    Err(e) => Err(io_error(e)),
                };
            }
        }
        let answer = self.ask(self.request());
        let ghost got = got_of(Some(answer));
        let Some(mut guard) = lock_chunks(&have) else {
            return Err(io_error(String::from_str("the byte cache lock was poisoned")));
        };
        let chunks = held_mut(&mut guard);
        let ghost before = chunks@;
        match self.read_with(chunks, Some(answer), buf) {
            Ok(n) => {
                proof {
                    assert(looked(seen, got, old(self).position()));
                    assert(read_from(
                        after_keeping(before, old(self).ranges(), old(self).position(), got),
                        got,
                        old(self).ranges(),
                        old(self).position(),
                        old(self).known_len(),
                        old(buf)@,
                        n,
                        buf@,
                        self.known_len(),
                    ));
                }
                Ok(n)
            },
            Err(e) => Err(io_error(e)),
        }
    }

    /// Fill `buf` from the reader's place, reading as often as it takes; an
    /// error when the object ends first. On success the reader has moved on
    /// by the whole buffer, and the buffer is what those reads gave in turn,
    /// each out of what was held when it read.
    pub fn read_exact(&mut self, buf: &mut [u8]) -> (r: std::io::Result<()>)
        requires
            old(self).position() + old(buf)@.len() <= u64::MAX,
        ensures
            final(buf)@.len() == old(buf)@.len(),
            r is Ok ==> final(self).position() == old(self).position() + old(buf)@.len(),
            r is Ok ==> exists|snaps: Seq<Seq<(u64, Seq<u8>)>>|
                #[trigger] read_in_turn(snaps, old(self).position(), old(buf)@.len(), final(buf)@),
            old(buf)@.len() == 0 ==> r is Ok,
            final(self).ranges() == old(self).ranges(),
            old(self).known_len() is Some ==> final(self).known_len() is Some,
    {
        let ghost start = self.position();
        let ghost total = buf@.len();
        let ghost mut snaps: Seq<Seq<(u64, Seq<u8>)>> = Seq::empty();
        let mut filled: usize = 0;
        while filled < buf.len()
            invariant
                filled <= buf@.len(),
                buf@.len() == old(buf)@.len(),
                total == old(buf)@.len(),
                self.position() == start + filled,
                start + old(buf)@.len() <= u64::MAX,
                self.ranges() == old(self).ranges(),
                old(self).known_len() is Some ==> self.known_len() is Some,
                read_in_turn(snaps, start, total, buf@.take(filled as int)),
            decreases buf@.len() - filled,
        {
            let want: usize = buf.len() - filled;
            let mut part: Vec<u8> = vec![0u8; want];
            let ghost was = part@;
            let ghost ranges = self.ranges();
            let ghost known = self.known_len();
            let n = match self.read(part.as_mut_slice()) {
                Ok(n) => n,
                Err(e) => return Err(e),
            };
            if n == 0 {
                return Err(eof_error(String::from_str("failed to fill whole buffer")));
            }
            let ghost (before, got) = choose|before: Seq<(u64, Seq<u8>)>, got: Option<(Seq<u8>, Option<u64>)>|
                read_from(
                    #[trigger] after_keeping(before, ranges, (start + filled) as u64, got),
                    got,
                    ranges,
                    (start + filled) as u64,
                    known,
                    was,
                    n,
                    part@,
                    self.known_len(),
                );
            let ghost after = after_keeping(before, ranges, (start + filled) as u64, got);
            let ghost prefix = buf@.take(filled as int);
            assert(part@.len() == want);
            assert(buf@.len() == buf.len());
            let mut j: usize = 0;
            while j < n
                invariant
                    j <= n,
                    n <= part@.len(),
                    filled + part@.len() == buf@.len(),
                    buf@.len() == old(buf)@.len(),
                    buf@.len() <= usize::MAX,
                    buf@.take(filled as int) == prefix,
                    buf@.subrange(filled as int, filled + j) == part@.take(j as int),
                decreases n - j,
            {
                buf[filled + j] = part[j];
                assert(buf@.take(filled as int) =~= prefix);
                assert(buf@.subrange(filled as int, filled + j + 1) =~= part@.take(j + 1));
                j += 1;
            }
            proof {
                assert(buf@.take(filled + n) =~= prefix + part@.take(n as int));
                lemma_read_in_turn_push(snaps, start, total, prefix, after, part@.take(n as int));
                snaps = snaps.push(after);
            }
            filled = filled + n;
        }
        assert(buf@.take(filled as int) =~= buf@);
        Ok(())
    }

    /// Move the reader. The end is only known once the server has answered
    /// something, so asking for it before then fetches a chunk to learn the
    /// length. A place before the start is refused, and so is one that does
    /// not fit an `i64`. Only a seek from an end not yet known fetches.
    pub fn seek(&mut self, to: SeekFrom) -> (r: std::io::Result<u64>)
        ensures
            match r {
                Ok(p) => p == final(self).position() && p <= i64::MAX,
                Err(_) => final(self).position() == old(self).position(),
            },
            match to {
                SeekFrom::Start(n) => r matches Ok(p) <==> n as i64 >= 0,
                _ => true,
            },
            match to {
                SeekFrom::Start(n) => r matches Ok(p) ==> p == n,
                SeekFrom::Current(d) => r matches Ok(p) ==> p == (old(self).position() as i64)
                    + d,
                SeekFrom::End(d) => r matches Ok(p) ==> (final(self).known_len() matches Some(
                    len,
                ) && p == (len as i64) + d),
            },
            match to {
                SeekFrom::Current(d) => {
                    let at = (old(self).position() as i64) + d;
                    i64::MIN <= at ==> (r matches Ok(_) <==> 0 <= at <= i64::MAX)
                },
                SeekFrom::End(d) => old(self).known_len() matches Some(len) ==> {
                    &&& final(self).known_len() == old(self).known_len()
                    &&& len <= i64::MAX ==> (r matches Ok(_) <==> 0 <= len + d <= i64::MAX)
                },
                _ => true,
            },
            to !is End ==> final(self).known_len() == old(self).known_len(),
            to is End && old(self).known_len() is None ==> exists|
                seen: Seq<(u64, Seq<u8>)>,
                got: Option<(Seq<u8>, Option<u64>)>,
            |
                #[trigger] looked(seen, got, old(self).position()) && final(self).known_len()
                    == learned_from(None, got),
            match to {
                SeekFrom::End(d) => final(self).known_len() matches Some(len) ==> (len <= i64::MAX
                    ==> (r matches Ok(_) <==> 0 <= len + d <= i64::MAX)),
                _ => true,
            },
            final(self).ranges() == old(self).ranges(),
    {
        let at: Option<i64> = match to {
            SeekFrom::Start(n) => {
                assert((n as i64) >= 0 ==> ((n as i64) as u64) == n) by (bit_vector);
                Some(n as i64)
            },
            SeekFrom::Current(d) => (self.pos as i64).checked_add(d),
            SeekFrom::End(d) => match self.len {
                Some(len) => (len as i64).checked_add(d),
                None => {
                    match self.bring_in() {
                        Ok(()) => {},
                        Err(e) => return Err(e),
                    }
                    match self.len {
                        Some(len) => (len as i64).checked_add(d),
                        None => {
                            return Err(
                                io_error(String::from_str("the server did not give a length")),
                            )
                        },
                    }
                },
            },
        };
        let Some(at) = at else {
            return Err(io_error(String::from_str("seek past what can be addressed")));
        };
        if at < 0 {
            return Err(io_error(String::from_str("seek before the start")));
        }
        self.pos = at as u64;
        Ok(self.pos)
    }
}

/// The WebDAV client, as a track asks it for bytes: whether the server does
/// ranges, a range, or the whole object.
pub trait Fetcher {
    fn supports_ranges(&self, href: &str) -> bool;

    fn range(&self, href: &str, at: u64, len: u64) -> Result<(Vec<u8>, Option<u64>), String>;

    fn fetch(&self, href: &str) -> Result<Vec<u8>, String>;
}

/// One track on the WebDAV server, fetched by range.
///
/// Whether the server does ranges is asked once, when this is built: the
/// answer is about the server rather than the track, and asking per read
/// would be a request per read.
pub struct RemoteTrack<W: Fetcher> {
    fetcher: Arc<W>,
    href: String,
    ranges: bool,
}

impl<W: Fetcher> RemoteTrack<W> {
    pub closed spec fn href_of(&self) -> Seq<char> {
        self.href@
    }

    pub closed spec fn ranges_of(&self) -> bool {
        self.ranges
    }

    /// The track at `href`, asking the server once whether it does ranges.
    pub fn new(fetcher: Arc<W>, href: &str) -> (r: Self)
        ensures
            r.href_of() == href@,
    {
        let ranges = fetcher.supports_ranges(href);
        Self::answered(fetcher, href, ranges)
    }

    /// The track at `href` on a server that answered `ranges` when asked
    /// whether it does ranges.
    pub fn answered(fetcher: Arc<W>, href: &str, ranges: bool) -> (r: Self)
        ensures
            r.href_of() == href@,
            r.ranges_of() == ranges,
    {
        RemoteTrack { fetcher, href: String::from_str(href), ranges }
    }

    /// Whether this track can be played while it arrives, or must land first.
    pub fn streamable(&self) -> (r: bool)
        ensures
            r == self.ranges_of(),
    {
        self.ranges
    }
}

impl<W: Fetcher> RangeFetch for RemoteTrack<W> {
    fn range(&self, at: u64, len: u64) -> Result<(Vec<u8>, Option<u64>), String> {
        self.fetcher.range(self.href.as_str(), at, len)
    }

    fn supports_ranges(&self) -> (r: bool)
        ensures
            r == self.ranges_of(),
    {
        self.ranges
    }

    fn whole(&self) -> Result<Vec<u8>, String> {
        self.fetcher.fetch(self.href.as_str())
    }
}

} // verus!
