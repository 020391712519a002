//! A library that is already on this device.
//!
//! Hrefs are relative to the folder's root and carry which folder they came
//! from: `local:<source id>/<path>`. WebDAV hrefs are left as they are,
//! starting with `/`, and that difference is how the two are told apart.
//! Resolving an href back to a file is the only place an absolute path
//! exists.

use vstd::prelude::*;
use vstd::string::{StrSliceExecFns, StringExecFns};

use std::path::{Path, PathBuf};

use crate::paths::{owned_path, path_push, path_to_buf, pushed_all};
use crate::sorting::{is_stable_sort, sort_stably, strict_weak};
use crate::text::{
    char_at_is, chars_of, chars_starts_with, first_from, first_index_of, lemma_text_order,
    slice_chars, string_of, text_less, text_lt,
};

verus! {

broadcast use vstd::string::group_string_axioms;

/// The prefix that marks an href as belonging to a local folder.
pub const LOCAL: &'static str = "local:";

pub open spec fn local_prefix() -> Seq<char> {
    seq!['l', 'o', 'c', 'a', 'l', ':']
}

/// The href of a file in a local folder.
pub open spec fn local_href(source_id: Seq<char>, relative: Seq<char>) -> Seq<char> {
    local_prefix() + source_id + relative
}

/// What [`parse_href`] reads out of an href: after the prefix, the id runs to
/// the first `/`, and the path starts there.
pub open spec fn parsed_href(href: Seq<char>) -> Option<(Seq<char>, Seq<char>)> {
    if href.len() >= 6 && href.take(6) == local_prefix() {
        let rest = href.skip(6);
        let cut = first_from(rest.len() as int, char_at_is(rest, '/'), 0);
        if cut < rest.len() {
            Some((rest.take(cut), rest.skip(cut)))
        } else {
            None
        }
    } else {
        None
    }
}

pub open spec fn has_local_prefix(href: Seq<char>) -> bool {
    href.len() >= 6 && href.take(6) == local_prefix()
}

proof fn lemma_local_literal()
    ensures
        LOCAL@ == local_prefix(),
{
    reveal_strlit("local:");
    assert(LOCAL@ =~= local_prefix());
}

/// `("desktop-music", "/Aphex/Xtal.mp3")` → `"local:desktop-music/Aphex/Xtal.mp3"`.
pub fn href(source_id: &str, relative: &str) -> (r: String)
    ensures
        r@ == local_href(source_id@, relative@),
{
    proof {
        lemma_local_literal();
    }
    let mut out = String::from_str(LOCAL);
    out.append(source_id);
    out.append(relative);
    out
}

/// The inverse of [`href`]. `None` for a WebDAV href, which is how the two
/// are told apart.
pub fn parse_href(href: &str) -> (r: Option<(&str, &str)>)
    ensures
        match r {
            Some((id, path)) => parsed_href(href@) == Some((id@, path@)),
            None => parsed_href(href@) is None,
        },
{
    proof {
        lemma_local_literal();
    }
    let h = chars_of(href);
    let p = chars_of(LOCAL);
    if !chars_starts_with(h.as_slice(), p.as_slice()) {
        return None;
    }
    let rest = slice_chars(h.as_slice(), 6, h.len());
    assert(rest@ =~= href@.skip(6));
    let cut = first_index_of(rest.as_slice(), '/');
    proof {
        crate::text::lemma_first_from_bounds(rest@.len() as int, char_at_is(rest@, '/'), 0);
    }
    if cut >= rest.len() {
        return None;
    }
    let id = href.substring_char(6, 6 + cut);
    let path = href.substring_char(6 + cut, h.len());
    assert(id@ =~= rest@.take(cut as int));
    assert(path@ =~= rest@.skip(cut as int));
    Some((id, path))
}

/// Whether this href belongs to a local folder rather than a server.
pub fn is_local(href: &str) -> (r: bool)
    ensures
        r == has_local_prefix(href@),
{
    proof {
        lemma_local_literal();
    }
    let h = chars_of(href);
    let p = chars_of(LOCAL);
    chars_starts_with(h.as_slice(), p.as_slice())
}

/// An href says which folder it came from: parsing one built from an id and
/// a root-relative path gives that id and that path back, whenever the id
/// holds no `/` and the path starts with one.
pub proof fn href_round_trip(source_id: Seq<char>, relative: Seq<char>)
    requires
        forall|i: int| 0 <= i < source_id.len() ==> source_id[i] != '/',
        relative.len() > 0,
        relative[0] == '/',
    ensures
        parsed_href(local_href(source_id, relative)) == Some((source_id, relative)),
        has_local_prefix(local_href(source_id, relative)),
{
    let h = local_href(source_id, relative);
    assert(h.take(6) =~= local_prefix());
    let rest = h.skip(6);
    assert(rest =~= source_id + relative);
    let p = char_at_is(rest, '/');
    let k = source_id.len() as int;
    assert(p(k));
    assert forall|j: int| 0 <= j < k implies !#[trigger] p(j) by {
        assert(rest[j] == source_id[j]);
    }
    lemma_first_from_is(rest.len() as int, p, 0, k);
    assert(rest.take(k) =~= source_id);
    assert(rest.skip(k) =~= relative);
}

/// Every href a folder produced is told apart from a server's by the prefix
/// alone, and an href that parses is exactly the one that would be built
/// from its two halves.
pub proof fn parsed_href_rebuilds(h: Seq<char>)
    requires
        parsed_href(h) is Some,
    ensures
        has_local_prefix(h),
        local_href(parsed_href(h).unwrap().0, parsed_href(h).unwrap().1) == h,
{
    let rest = h.skip(6);
    let cut = first_from(rest.len() as int, char_at_is(rest, '/'), 0);
    crate::text::lemma_first_from_bounds(rest.len() as int, char_at_is(rest, '/'), 0);
    assert(h =~= h.take(6) + rest);
    assert(rest =~= rest.take(cut) + rest.skip(cut));
    assert(h =~= local_prefix() + rest.take(cut) + rest.skip(cut));
}

/// A server's href — one without the prefix — never parses as a folder's.
pub proof fn server_href_is_not_local(h: Seq<char>)
    requires
        !has_local_prefix(h),
    ensures
        parsed_href(h) is None,
{
}

proof fn lemma_first_from_is(n: int, p: spec_fn(int) -> bool, i: int, k: int)
    requires
        i <= k < n,
        p(k),
        forall|j: int| i <= j < k ==> !#[trigger] p(j),
    ensures
        first_from(n, p, i) == k,
    decreases k - i,
{
    if i < k {
        assert(!p(i));
        lemma_first_from_is(n, p, i + 1, k);
    }
}


/// A piece of an href worth a directory: not empty, and not `..` — an href
/// from a stored playlist is data, and `..` in it would climb out of the
/// folder.
pub open spec fn kept_part(p: Seq<char>) -> bool {
    p.len() > 0 && p != seq!['.', '.']
}

pub open spec fn flushed(done: Seq<Seq<char>>, cur: Seq<char>) -> Seq<Seq<char>> {
    if kept_part(cur) {
        done.push(cur)
    } else {
        done
    }
}

/// Reading `s` a character at a time: the pieces finished so far, and the
/// one being read.
pub open spec fn split_state(s: Seq<char>) -> (Seq<Seq<char>>, Seq<char>)
    decreases s.len(),
{
    if s.len() == 0 {
        (Seq::empty(), Seq::empty())
    } else {
        let (done, cur) = split_state(s.drop_last());
        if s.last() == '/' {
            (flushed(done, cur), Seq::empty())
        } else {
            (done, cur.push(s.last()))
        }
    }
}

/// The pieces of `href` between its `/`s that [`resolve`] pushes, in order:
/// the empty ones and every `..` left out.
pub open spec fn resolve_parts(href: Seq<char>) -> Seq<Seq<char>> {
    flushed(split_state(href).0, split_state(href).1)
}

fn flush_into(done: &mut Vec<String>, cur: &Vec<char>)
    ensures
        final(done)@.map_values(|p: String| p@) == flushed(
            old(done)@.map_values(|p: String| p@),
            cur@,
        ),
{
    let dots = chars_of("..");
    proof {
        reveal_strlit("..");
    }
    assert(dots@ =~= seq!['.', '.']);
    if cur.len() > 0 && !crate::text::chars_eq(cur.as_slice(), dots.as_slice()) {
        let ghost before = done@.map_values(|p: String| p@);
        done.push(string_of(cur));
        assert(done@.map_values(|p: String| p@) =~= before.push(cur@));
    }
}

/// A piece of an href that names something: anything but nothing and `..`.
pub open spec fn names_something() -> spec_fn(Seq<char>) -> bool {
    |p: Seq<char>| p.len() > 0 && p != seq!['.', '.']
}

proof fn lemma_split_plain(s: Seq<char>, p: Seq<char>)
    requires
        forall|k: int| 0 <= k < p.len() ==> p[k] != '/',
    ensures
        split_state(s + p) == (split_state(s).0, split_state(s).1 + p),
    decreases p.len(),
{
    if p.len() == 0 {
        assert(s + p =~= s);
        assert(split_state(s).1 + p =~= split_state(s).1);
    } else {
        let q = p.drop_last();
        lemma_split_plain(s, q);
        assert((s + p).drop_last() =~= s + q);
        assert((s + p).last() == p.last());
        assert((split_state(s).1 + q).push(p.last()) =~= split_state(s).1 + p);
    }
}

proof fn lemma_split_href(parts: Seq<Seq<char>>)
    requires
        parts.len() > 0,
        forall|i: int, k: int| 0 <= i < parts.len() && 0 <= k < parts[i].len() ==> parts[i][k] != '/',
    ensures
        split_state(seq!['/'] + crate::metadata::join(parts, seq!['/'])) == (
            parts.drop_last().filter(names_something()),
            parts.last(),
        ),
    decreases parts.len(),
{
    reveal(Seq::filter);
    let slash: Seq<char> = seq!['/'];
    let e: Seq<char> = Seq::empty();
    assert(slash.drop_last() =~= e);
    assert(split_state(e) == (Seq::<Seq<char>>::empty(), e));
    assert(split_state(slash) == (flushed(Seq::empty(), e), e));
    assert(!kept_part(e));
    assert(flushed(Seq::empty(), e) == Seq::<Seq<char>>::empty());
    assert(e + parts.last() =~= parts.last());
    if parts.len() == 1 {
        assert(crate::metadata::join(parts, slash) == parts[0]);
        lemma_split_plain(slash, parts[0]);
        assert(parts.drop_last() =~= Seq::<Seq<char>>::empty());
        assert(parts.drop_last().filter(names_something()) == Seq::<Seq<char>>::empty());
        assert(parts.last() == parts[0]);
    } else {
        let dl = parts.drop_last();
        assert(forall|i: int, k: int|
            0 <= i < dl.len() && 0 <= k < dl[i].len() ==> dl[i][k] == parts[i][k]);
        lemma_split_href(dl);
        let x = slash + crate::metadata::join(dl, slash);
        assert(crate::metadata::join(parts, slash) == crate::metadata::join(dl, slash) + slash
            + parts.last());
        assert(slash + crate::metadata::join(parts, slash) =~= x.push('/') + parts.last());
        let y = x.push('/');
        assert(y.len() > 0);
        assert(y.drop_last() =~= x);
        assert(y.last() == '/');
        assert(split_state(y) == (flushed(split_state(x).0, split_state(x).1), e));
        lemma_split_plain(y, parts.last());
        assert(names_something()(dl.last()) == kept_part(dl.last()));
        assert(dl.filter(names_something()) == flushed(
            dl.drop_last().filter(names_something()),
            dl.last(),
        ));
    }
}

/// `resolve` pushes every piece of an href built from components, in order,
/// but for the empty ones and `..`: so a file's href resolves to the file,
/// whatever its components hold (spaces, dots inside a name, anything but a
/// `/`).
pub proof fn resolve_keeps_every_named_piece(parts: Seq<Seq<char>>)
    requires
        forall|i: int, k: int| 0 <= i < parts.len() && 0 <= k < parts[i].len() ==> parts[i][k] != '/',
    ensures
        resolve_parts(href_of_components(parts)) == parts.filter(names_something()),
        (forall|i: int| 0 <= i < parts.len() ==> (#[trigger] parts[i]).len() > 0 && parts[i] != seq![
            '.',
            '.',
        ]) ==> resolve_parts(href_of_components(parts)) == parts,
{
    reveal(Seq::filter);
    let slash: Seq<char> = seq!['/'];
    let e: Seq<char> = Seq::empty();
    if parts.len() == 0 {
        assert(crate::metadata::join(parts, slash) == e);
        assert(href_of_components(parts) =~= slash);
        assert(slash.drop_last() =~= e);
        assert(split_state(e) == (Seq::<Seq<char>>::empty(), e));
    } else {
        lemma_split_href(parts);
    }
    lemma_filter_keeps_all(parts);
}

proof fn lemma_filter_keeps_all(parts: Seq<Seq<char>>)
    ensures
        (forall|i: int| 0 <= i < parts.len() ==> (#[trigger] parts[i]).len() > 0 && parts[i] != seq![
            '.',
            '.',
        ]) ==> parts.filter(names_something()) == parts,
    decreases parts.len(),
{
    reveal(Seq::filter);
    if parts.len() > 0 {
        lemma_filter_keeps_all(parts.drop_last());
        if forall|i: int| 0 <= i < parts.len() ==> (#[trigger] parts[i]).len() > 0 && parts[i] != seq![
            '.',
            '.',
        ] {
            let dl = parts.drop_last();
            assert forall|i: int| 0 <= i < dl.len() implies (#[trigger] dl[i]).len() > 0 && dl[i]
                != seq!['.', '.'] by {
                assert(dl[i] == parts[i]);
            }
            assert(parts[parts.len() - 1] == parts.last());
            assert(names_something()(parts.last()));
            assert(dl.push(parts.last()) =~= parts);
        }
    }
}

/// The pieces of `href` that name directories and the file.
pub fn resolve_parts_of(href: &str) -> (r: Vec<String>)
    ensures
        r@.map_values(|p: String| p@) == resolve_parts(href@),
{
    let h = chars_of(href);
    let mut done: Vec<String> = Vec::new();
    let mut cur: Vec<char> = Vec::new();
    let mut i: usize = 0;
    while i < h.len()
        invariant
            i <= h@.len(),
            h@ == href@,
            (done@.map_values(|p: String| p@), cur@) == split_state(h@.take(i as int)),
        decreases h@.len() - i,
    {
        assert(h@.take(i + 1).drop_last() =~= h@.take(i as int));
        assert(h@.take(i + 1).last() == h@[i as int]);
        if h[i] == '/' {
            flush_into(&mut done, &cur);
            cur = Vec::new();
        } else {
            cur.push(h[i]);
        }
        i += 1;
    }
    assert(h@.take(i as int) =~= h@);
    flush_into(&mut done, &cur);
    done
}

/// Turn an href back into a file on this device: the root, with each piece
/// of the href pushed onto it.
///
/// The only place the absolute path exists. Pieces that are empty or `..`
/// are skipped, so a resolved href cannot climb out of the root.
pub fn resolve(root: &Path, href: &str) -> (r: PathBuf)
    ensures
        r == pushed_all(owned_path(root), resolve_parts(href@)),
{
    let parts = resolve_parts_of(href);
    let ghost ps = parts@.map_values(|p: String| p@);
    let mut path = path_to_buf(root);
    let mut i: usize = 0;
    while i < parts.len()
        invariant
            i <= parts@.len(),
            ps == parts@.map_values(|p: String| p@),
            path == pushed_all(owned_path(root), ps.take(i as int)),
        decreases parts@.len() - i,
    {
        assert(ps.take(i + 1).drop_last() =~= ps.take(i as int));
        path_push(&mut path, parts[i].as_str());
        i += 1;
    }
    assert(ps.take(i as int) =~= ps);
    path
}

/// No piece [`resolve`] pushes is `..` or empty, whatever the href holds.
pub proof fn resolve_never_climbs(href: Seq<char>)
    ensures
        forall|i: int|
            0 <= i < resolve_parts(href).len() ==> kept_part(#[trigger] resolve_parts(href)[i]),
{
    lemma_split_state_kept(href);
}

proof fn lemma_split_state_kept(s: Seq<char>)
    ensures
        forall|i: int| 0 <= i < split_state(s).0.len() ==> kept_part(#[trigger] split_state(s).0[i]),
        forall|i: int|
            0 <= i < resolve_parts(s).len() ==> kept_part(#[trigger] resolve_parts(s)[i]),
    decreases s.len(),
{
    if s.len() > 0 {
        lemma_split_state_kept(s.drop_last());
        let (d, c) = split_state(s.drop_last());
        if s.last() == '/' {
            assert forall|i: int| 0 <= i < flushed(d, c).len() implies kept_part(
                #[trigger] flushed(d, c)[i],
            ) by {
                if i < d.len() {
                    assert(flushed(d, c)[i] == d[i]);
                }
            }
        }
    }
    let (d, c) = split_state(s);
    assert forall|i: int| 0 <= i < flushed(d, c).len() implies kept_part(
        #[trigger] flushed(d, c)[i],
    ) by {
        if i < d.len() {
            assert(flushed(d, c)[i] == d[i]);
        }
    }
}


/// What a scan found. Mirrors the WebDAV scan field for field.
#[derive(Debug, Default, PartialEq)]
pub struct ScanResult {
    /// Root-relative, leading slash, in the order they were found.
    pub files: Vec<String>,
    /// Directories visited, so progress can be reported honestly.
    pub directories: usize,
    /// Directories that could not be read and were skipped.
    ///
    /// Counted rather than swallowed: a scan that quietly walked past half a
    /// library still says "found 40 tracks", and nothing distinguishes that
    /// from a library with 40 tracks in it.
    pub unreadable: usize,
}

#[verifier::external_type_specification]
#[verifier::external_body]
pub struct ExIoError(std::io::Error);

/// Why a folder could not be scanned.
#[derive(Debug)]
pub enum LocalError {
    NotADirectory(PathBuf),
    Io(std::io::Error),
}

/// How `Path::display` writes `p`.
pub uninterp spec fn shown_path(p: PathBuf) -> Seq<char>;

/// `format!("{}", p.display())`.
#[verifier::external_body]
fn path_shown(p: &PathBuf) -> (r: String)
    ensures
        r@ == shown_path(*p),
{
    format!("{}", p.display())
}

/// `format!("{e}")`. What the system says of an I/O error depends on the
/// machine and its language, so nothing is stated of it.
#[verifier::external_body]
fn io_error_shown(e: &std::io::Error) -> String {
    format!("{e}")
}

impl LocalError {
    /// What a person is told.
    pub fn to_string(&self) -> (r: String)
        ensures
            match self {
                LocalError::NotADirectory(p) => r@ == shown_path(*p)
                    + " is not a folder this app can read"@,
                LocalError::Io(_) => true,
            },
    {
        match self {
            LocalError::NotADirectory(p) => {
                let mut out = path_shown(p);
                out.append(" is not a folder this app can read");
                out
            },
            LocalError::Io(e) => io_error_shown(e),
        }
    }
}

/// Two hrefs in the order a scan lists them: `String`'s order.
pub open spec fn href_order() -> spec_fn(String, String) -> bool {
    |a: String, b: String| text_lt(a@, b@)
}

/// The order hrefs are listed in is a strict weak order.
pub proof fn lemma_href_order_is_strict_weak()
    ensures
        strict_weak(href_order()),
{
    let r = href_order();
    assert forall|a: String| !#[trigger] r(a, a) by {
        lemma_text_order(a@, a@, a@);
    }
    assert forall|a: String, b: String, c: String|
        #[trigger] r(a, b) && #[trigger] r(b, c) implies r(a, c) by {
        lemma_text_order(a@, b@, c@);
    }
    assert forall|a: String, b: String, c: String|
        !#[trigger] r(a, b) && !#[trigger] r(b, c) implies !r(a, c) by {
        lemma_text_order(a@, b@, c@);
    }
}

/// A scan's files in a stable order, the same across runs, which the file
/// system's own order is not: `read_dir` returns entries in whatever order
/// the directory holds them.
pub fn sort_files(files: Vec<String>) -> (r: Vec<String>)
    ensures
        is_stable_sort(r@, files@, href_order()),
{
    proof {
        lemma_href_order_is_strict_weak();
    }
    let precedes = |a: &String, b: &String| -> (r: bool)
        ensures
            r == href_order()(*a, *b),
        {
            let ca = chars_of(a.as_str());
            let cb = chars_of(b.as_str());
            text_less(ca.as_slice(), cb.as_slice())
        };
    sort_stably(files, precedes, Ghost(href_order()))
}

/// How deep to walk before giving up.
///
/// A loop guard, not a guess about how people file music: a file system with
/// a cycle is an infinite tree.
pub const MAX_DEPTH: usize = 16;

/// What a directory entry is, as its file type says without following links.
#[derive(Clone, Copy, Debug, PartialEq, Eq)]
pub enum EntryKind {
    Symlink,
    Directory,
    File,
    Other,
}

/// What a scan does with one directory entry.
#[derive(Clone, Copy, Debug, PartialEq, Eq)]
pub enum Entry {
    Skip,
    /// Walk into it.
    Descend,
    /// A track: record its href.
    Keep,
}

pub open spec fn dotted(name: Seq<char>) -> bool {
    name.len() > 0 && name[0] == '.'
}

/// The walk's rule for one entry.
///
/// A symlink is never followed — that is how a scan walks into a loop or out
/// of the library. A directory or file whose name starts with a dot is
/// skipped: nothing under `.Trash` is a track someone means to play. A file
/// is kept only when its name says it is audio.
pub open spec fn entry_rule(kind: EntryKind, name: Seq<char>, audio: bool) -> Entry {
    match kind {
        EntryKind::Symlink => Entry::Skip,
        EntryKind::Directory => if dotted(name) {
            Entry::Skip
        } else {
            Entry::Descend
        },
        EntryKind::File => if dotted(name) || !audio {
            Entry::Skip
        } else {
            Entry::Keep
        },
        EntryKind::Other => Entry::Skip,
    }
}

/// The walk reads nothing of a name but whether it starts with a dot: a
/// directory is walked unless it does, whatever else its name holds; a file
/// is kept when it is audio and does not; a symlink, or anything that is
/// neither file nor directory, is passed over.
pub proof fn only_a_leading_dot_hides_an_entry(kind: EntryKind, name: Seq<char>, audio: bool)
    ensures
        kind is Directory && !(name.len() > 0 && name[0] == '.') ==> entry_rule(kind, name, audio)
            == Entry::Descend,
        kind is Directory && name.len() > 0 && name[0] == '.' ==> entry_rule(kind, name, audio)
            == Entry::Skip,
        kind is File ==> (entry_rule(kind, name, audio) == Entry::Keep <==> audio && !(name.len()
            > 0 && name[0] == '.')),
        kind is Symlink || kind is Other ==> entry_rule(kind, name, audio) == Entry::Skip,
{
}

/// Two names that start alike (or are both empty) are treated alike.
pub proof fn names_alike_at_the_start_are_walked_alike(
    kind: EntryKind,
    a: Seq<char>,
    b: Seq<char>,
    audio: bool,
)
    requires
        a.len() > 0 <==> b.len() > 0,
        a.len() > 0 ==> a[0] == b[0],
    ensures
        entry_rule(kind, a, audio) == entry_rule(kind, b, audio),
{
}

/// What to do with an entry called `name` of kind `kind`; `audio` is whether
/// the name is that of an audio file.
pub fn classify(kind: EntryKind, name: &str, audio: bool) -> (r: Entry)
    ensures
        r == entry_rule(kind, name@, audio),
{
    let n = chars_of(name);
    let dot = n.len() > 0 && n[0] == '.';
    match kind {
        EntryKind::Symlink => Entry::Skip,
        EntryKind::Directory => if dot {
            Entry::Skip
        } else {
            Entry::Descend
        },
        EntryKind::File => if dot || !audio {
            Entry::Skip
        } else {
            Entry::Keep
        },
        EntryKind::Other => Entry::Skip,
    }
}

/// Whether a walk at `depth` has gone past [`MAX_DEPTH`] and must stop.
pub fn too_deep(depth: usize) -> (r: bool)
    ensures
        r == (depth > MAX_DEPTH),
{
    depth > MAX_DEPTH
}

/// The href of a file from the components of its path below the root:
/// a leading `/`, then the components joined by `/` — whatever separator the
/// file system uses.
pub open spec fn href_of_components(parts: Seq<Seq<char>>) -> Seq<char> {
    seq!['/'] + crate::metadata::join(parts, seq!['/'])
}

pub fn href_from_components(parts: &Vec<Vec<char>>) -> (r: String)
    ensures
        r@ == href_of_components(parts@.map_values(|p: Vec<char>| p@)),
{
    proof {
        reveal_strlit("/");
    }
    let joined = crate::metadata::join_chars(parts, "/");
    let mut out: Vec<char> = Vec::new();
    out.push('/');
    let mut i: usize = 0;
    while i < joined.len()
        invariant
            i <= joined@.len(),
            out@ == seq!['/'] + joined@.take(i as int),
        decreases joined@.len() - i,
    {
        out.push(joined[i]);
        i += 1;
        assert(out@ =~= seq!['/'] + joined@.take(i as int));
    }
    assert(joined@.take(i as int) =~= joined@);
    assert("/"@ =~= seq!['/']);
    string_of(&out)
}

} // verus!
