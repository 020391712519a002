//! Lyrics and artwork looked up from public services: the part that reads
//! what the services answer, and decides what to ask and how often.
//!
//! Everything here takes the response body as text and works on what
//! `serde_json` read from it ([`crate::json`]); the requests themselves are
//! made by the shell.

use vstd::prelude::*;

use std::time::Duration;

use vstd::string::{StrSliceExecFns, StringExecFns, StringSliceAdditionalSpecFns};

use crate::json::{
    as_array, as_str, as_u64, first_of, get, get_opt, json_as_array, json_as_str, json_as_u64,
    json_first, json_get, json_get_opt, json_text, opt_val, parse_json, Json,
};
use crate::paths::{path_push, path_to_buf, owned_path, pushed};
use crate::text::{
    char_at_is, first_from, first_index_of, is_ascii_alnum, last_below, last_index_of, slice_chars,
    chars_eq, chars_of, eq_ignore_case, lower_all, lowered, parse_u64, parse_u64_chars, string_of,
    trim, trimmed, chars_eq_ignore_case,
};

verus! {

broadcast use vstd::string::group_string_axioms;

// ---------------------------------------------------------------------------
// Placeholders
// ---------------------------------------------------------------------------

/// Whether a genre string says nothing: empty, or one of the placeholders a
/// service uses, in any ASCII case and ignoring surrounding white space.
pub open spec fn unknown_genre(genre: Seq<char>) -> bool {
    let g = lower_all(trim(genre));
    ||| g.len() == 0
    ||| g == "unknown"@
    ||| g == "unknown genre"@
    ||| g == "n/a"@
    ||| g == "none"@
}

/// Whether a name is real enough to search for: not blank, and not one of the
/// placeholders the path parser produces.
pub open spec fn searchable(name: Seq<char>) -> bool {
    let n = trim(name);
    &&& n.len() > 0
    &&& n != "Unknown Artist"@
    &&& n != "Unknown Album"@
    &&& n != "Unknown Track"@
}

/// Whether `v` is the literal `lit`.
fn is_literal(v: &Vec<char>, lit: &str) -> (r: bool)
    ensures
        r == (v@ == lit@),
{
    let l = chars_of(lit);
    chars_eq(v.as_slice(), l.as_slice())
}

fn unknown_genre_chars(genre: &[char]) -> (r: bool)
    ensures
        r == unknown_genre(genre@),
{
    let g = lowered(trimmed(genre).as_slice());
    g.len() == 0 || is_literal(&g, "unknown") || is_literal(&g, "unknown genre") || is_literal(
        &g,
        "n/a",
    ) || is_literal(&g, "none")
}

/// Whether a genre string says nothing.
///
/// Services return placeholder genres, and a track filed under "Unknown" is
/// worse than one filed under nothing — the first looks like an answer.
pub fn is_unknown_genre(genre: &str) -> (r: bool)
    ensures
        r == unknown_genre(genre@),
{
    let g = chars_of(genre);
    unknown_genre_chars(g.as_slice())
}

/// Whether a name is real enough to search for.
///
/// The path parser produces "Unknown Artist" and its siblings as
/// placeholders, and searching for them returns whatever the service thinks
/// "Unknown Artist" is.
pub fn is_searchable(name: &str) -> (r: bool)
    ensures
        r == searchable(name@),
{
    let c = chars_of(name);
    let n = trimmed(c.as_slice());
    n.len() > 0 && !is_literal(&n, "Unknown Artist") && !is_literal(&n, "Unknown Album")
        && !is_literal(&n, "Unknown Track")
}


// ---------------------------------------------------------------------------
// Search responses
// ---------------------------------------------------------------------------

/// Size ladders, in the order they are tried: largest first.
pub const ARTIST_KEYS: [&'static str; 4] = ["picture_xl", "picture_big", "picture_medium", "picture_small"];

pub const ALBUM_KEYS: [&'static str; 4] = ["cover_xl", "cover_big", "cover_medium", "cover_small"];

/// The first of `keys` under which `item` holds a non-empty string.
pub open spec fn first_url(item: Json, keys: Seq<Seq<char>>) -> Seq<char>
    decreases keys.len(),
{
    if keys.len() == 0 {
        Seq::empty()
    } else {
        match as_str(get(item, keys[0])) {
            Some(u) if u.len() > 0 => u,
            _ => first_url(item, keys.drop_first()),
        }
    }
}

/// The first hit of a search response: `data[0]`.
pub open spec fn first_hit(body: Seq<char>) -> Option<Json> {
    match json_text(body) {
        Some(v) => first_of(get(v, "data"@)),
        None => None,
    }
}

/// What [`image_url_of`] reads out of a search response.
pub open spec fn image_url(body: Seq<char>, keys: Seq<Seq<char>>) -> Seq<char> {
    match first_hit(body) {
        Some(hit) => first_url(hit, keys),
        None => Seq::empty(),
    }
}

pub open spec fn key_views(keys: Seq<&str>) -> Seq<Seq<char>> {
    keys.map_values(|k: &str| k@)
}

/// The best image URL in a search response.
///
/// `keys` are tried in order, which is what makes a hit still usable when the
/// service has no large version of a sleeve. An empty URL is not a URL and
/// falls through to the next size.
pub fn image_url_of(body: &str, keys: &[&str]) -> (r: String)
    ensures
        r@ == image_url(body@, key_views(keys@)),
{
    let value = parse_json(body);
    let Some(value) = value else {
        return String::new();
    };
    let data = json_get(&value, "data");
    let first = json_first(data);
    let Some(first) = first else {
        return String::new();
    };
    let ghost ks = key_views(keys@);
    assert(ks.skip(0) =~= ks);
    let mut i: usize = 0;
    while i < keys.len()
        invariant
            i <= keys@.len(),
            ks == key_views(keys@),
            image_url(body@, ks) == first_url(*first, ks),
            first_url(*first, ks) == first_url(*first, ks.skip(i as int)),
        decreases keys@.len() - i,
    {
        let ghost rest = ks.skip(i as int);
        assert(rest.drop_first() =~= ks.skip(i + 1));
        assert(rest[0] == keys@[i as int]@);
        let url = json_as_str(json_get(first, keys[i]));
        if let Some(url) = url {
            if !url.as_str().is_empty() {
                assert(as_str(get(*first, rest[0])) == Some(url@));
                return url.clone();
            }
        }
        i += 1;
    }
    assert(ks.skip(i as int).len() == 0);
    String::new()
}

/// The id of the first hit of a search response.
pub open spec fn first_id(body: Seq<char>) -> Option<u64> {
    match first_hit(body) {
        Some(hit) => as_u64(get(hit, "id"@)),
        None => None,
    }
}

fn first_id_of(body: &str) -> (r: Option<u64>)
    ensures
        r == first_id(body@),
{
    let value = parse_json(body);
    match value {
        Some(v) => {
            let hit = json_first(json_get(&v, "data"));
            match hit {
                Some(h) => json_as_u64(json_get(h, "id")),
                None => None,
            }
        },
        None => None,
    }
}

/// The id of the first track in a track search response.
pub fn track_id_of(body: &str) -> (r: Option<u64>)
    ensures
        r == first_id(body@),
{
    first_id_of(body)
}

/// The id of the first album in an album search response.
///
/// The search result does not carry a genre *name* — see [`genre_of`]. The id
/// is what turns a search hit into a request for the full album, which does.
pub fn album_id_of(body: &str) -> (r: Option<u64>)
    ensures
        r == first_id(body@),
{
    first_id_of(body)
}

/// `value.get(key).and_then(as_str).unwrap_or("").trim()`.
pub open spec fn text_at(v: Option<Json>, key: Seq<char>) -> Seq<char> {
    match as_str(get_opt(v, key)) {
        Some(s) => trim(s),
        None => Seq::empty(),
    }
}

/// `value.get(key).and_then(as_u64).unwrap_or(0)`.
pub open spec fn count_at(v: Option<Json>, key: Seq<char>) -> u64 {
    match as_u64(get_opt(v, key)) {
        Some(n) => n,
        None => 0,
    }
}

fn text_at_of(v: Option<&Json>, key: &str) -> (r: String)
    ensures
        r@ == text_at(opt_val(v), key@),
{
    match json_as_str(json_get_opt(v, key)) {
        Some(s) => {
            let c = chars_of(s.as_str());
            string_of(&trimmed(c.as_slice()))
        },
        None => String::new(),
    }
}

fn count_at_of(v: Option<&Json>, key: &str) -> (r: u64)
    ensures
        r == count_at(opt_val(v), key@),
{
    match json_as_u64(json_get_opt(v, key)) {
        Some(n) => n,
        None => 0,
    }
}

/// The first hit of a track search, with the release it sits on.
///
/// The search response already names the album, its id, and the recording's
/// length — everything needed to say which record a loose file came off.
#[derive(Clone, Debug, Default, PartialEq)]
pub struct TrackHit {
    pub id: u64,
    pub title: String,
    /// Length in seconds.
    pub duration: u32,
    pub album_id: u64,
    pub album_title: String,
}

impl View for TrackHit {
    type V = (u64, Seq<char>, u32, u64, Seq<char>);

    open spec fn view(&self) -> Self::V {
        (self.id, self.title@, self.duration, self.album_id, self.album_title@)
    }
}

/// What [`track_hit_of`] reads: the first hit, which must carry a numeric id.
/// The length is cut to 32 bits as `as u32` cuts it.
pub open spec fn track_hit(body: Seq<char>) -> Option<(u64, Seq<char>, u32, u64, Seq<char>)> {
    match first_hit(body) {
        Some(hit) => match as_u64(get(hit, "id"@)) {
            Some(id) => Some(
                (
                    id,
                    text_at(Some(hit), "title"@),
                    count_at(Some(hit), "duration"@) as u32,
                    count_at(get(hit, "album"@), "id"@),
                    text_at(get(hit, "album"@), "title"@),
                ),
            ),
            None => None,
        },
        None => None,
    }
}

/// Read the first hit out of a track search response.
pub fn track_hit_of(body: &str) -> (r: Option<TrackHit>)
    ensures
        match r {
            Some(h) => track_hit(body@) == Some(h@),
            None => track_hit(body@) is None,
        },
{
    let value = parse_json(body)?;
    let hit = json_first(json_get(&value, "data"))?;
    let id = json_as_u64(json_get(hit, "id"))?;
    let album = json_get(hit, "album");
    Some(
        TrackHit {
            id,
            title: text_at_of(Some(hit), "title"),
            duration: count_at_of(Some(hit), "duration") as u32,
            album_id: count_at_of(album, "id"),
            album_title: text_at_of(album, "title"),
        },
    )
}


// ---------------------------------------------------------------------------
// Album responses
// ---------------------------------------------------------------------------

/// `parts` joined with `sep` between each two, as `[&str]::join`.
pub open spec fn join(parts: Seq<Seq<char>>, sep: Seq<char>) -> Seq<char>
    decreases parts.len(),
{
    if parts.len() == 0 {
        Seq::empty()
    } else if parts.len() == 1 {
        parts[0]
    } else {
        join(parts.drop_last(), sep) + sep + parts.last()
    }
}

/// The names a genre list carries, trimmed, without the placeholders.
pub open spec fn genre_names(items: Seq<Json>) -> Seq<Seq<char>>
    decreases items.len(),
{
    if items.len() == 0 {
        Seq::empty()
    } else {
        let prev = genre_names(items.drop_last());
        match as_str(get(items.last(), "name"@)) {
            Some(n) if !unknown_genre(trim(n)) => prev.push(trim(n)),
            _ => prev,
        }
    }
}

/// Whether `names` already holds `n`, ignoring ASCII case.
pub open spec fn holds_ignoring_case(names: Seq<Seq<char>>, n: Seq<char>) -> bool {
    exists|i: int| 0 <= i < names.len() && eq_ignore_case(#[trigger] names[i], n)
}

/// `names` with every repeat dropped, where a repeat is a name equal to an
/// earlier one ignoring ASCII case. The first spelling is the one kept.
pub open spec fn without_repeats(names: Seq<Seq<char>>) -> Seq<Seq<char>>
    decreases names.len(),
{
    if names.len() == 0 {
        Seq::empty()
    } else {
        let kept = without_repeats(names.drop_last());
        if holds_ignoring_case(kept, names.last()) {
            kept
        } else {
            kept.push(names.last())
        }
    }
}

/// What [`genre_of`] reads out of an album response: every genre named under
/// `genres.data[*].name`, placeholders and repeats dropped, joined by " / ".
pub open spec fn genre(body: Seq<char>) -> Seq<char> {
    match json_text(body) {
        Some(v) => match as_array(get_opt(get(v, "genres"@), "data"@)) {
            Some(items) => join(without_repeats(genre_names(items)), " / "@),
            None => Seq::empty(),
        },
        None => Seq::empty(),
    }
}

/// `parts` joined with `sep`.
pub fn join_chars(parts: &Vec<Vec<char>>, sep: &str) -> (r: Vec<char>)
    ensures
        r@ == join(parts@.map_values(|p: Vec<char>| p@), sep@),
{
    let ghost ps = parts@.map_values(|p: Vec<char>| p@);
    let sep_chars = chars_of(sep);
    let mut out: Vec<char> = Vec::new();
    let mut i: usize = 0;
    while i < parts.len()
        invariant
            i <= parts@.len(),
            ps == parts@.map_values(|p: Vec<char>| p@),
            sep_chars@ == sep@,
            out@ == join(ps.take(i as int), sep@),
        decreases parts@.len() - i,
    {
        assert(ps.take(i + 1).drop_last() =~= ps.take(i as int));
        if i > 0 {
            let mut j: usize = 0;
            let ghost start = out@;
            while j < sep_chars.len()
                invariant
                    j <= sep_chars@.len(),
                    out@ == start + sep_chars@.take(j as int),
                decreases sep_chars@.len() - j,
            {
                out.push(sep_chars[j]);
                j += 1;
                assert(out@ =~= start + sep_chars@.take(j as int));
            }
            assert(sep_chars@.take(j as int) =~= sep_chars@);
        }
        let ghost before = out@;
        let part = &parts[i];
        let mut k: usize = 0;
        while k < part.len()
            invariant
                k <= part@.len(),
                out@ == before + part@.take(k as int),
            decreases part@.len() - k,
        {
            out.push(part[k]);
            k += 1;
            assert(out@ =~= before + part@.take(k as int));
        }
        assert(part@.take(k as int) =~= part@);
        assert(ps[i as int] == part@);
        i += 1;
        if i == 1 {
            assert(out@ =~= join(ps.take(1), sep@));
        }
    }
    assert(ps.take(i as int) =~= ps);
    out
}

fn holds_ignoring_case_of(names: &Vec<Vec<char>>, n: &Vec<char>) -> (r: bool)
    ensures
        r == holds_ignoring_case(names@.map_values(|p: Vec<char>| p@), n@),
{
    let ghost ns = names@.map_values(|p: Vec<char>| p@);
    let mut i: usize = 0;
    while i < names.len()
        invariant
            i <= names@.len(),
            ns == names@.map_values(|p: Vec<char>| p@),
            forall|j: int| 0 <= j < i ==> !eq_ignore_case(#[trigger] ns[j], n@),
        decreases names@.len() - i,
    {
        if chars_eq_ignore_case(names[i].as_slice(), n.as_slice()) {
            assert(eq_ignore_case(ns[i as int], n@));
            return true;
        }
        i += 1;
    }
    false
}

/// The genres named by an album response, joined with " / ".
///
/// `genres.data[*].name` — all of them, not just the first: a second genre
/// is what can say more about a record than the coarse one Deezer lists
/// first. A placeholder among real genres is dropped, and a genre listed
/// twice is one genre.
pub fn genre_of(body: &str) -> (r: String)
    ensures
        r@ == genre(body@),
{
    let value = parse_json(body);
    let Some(value) = value else {
        return String::new();
    };
    let items = json_as_array(json_get_opt(json_get(&value, "genres"), "data"));
    let Some(items) = items else {
        return String::new();
    };
    let mut kept: Vec<Vec<char>> = Vec::new();
    let mut i: usize = 0;
    while i < items.len()
        invariant
            i <= items@.len(),
            kept@.map_values(|p: Vec<char>| p@) == without_repeats(genre_names(items@.take(i as int))),
        decreases items@.len() - i,
    {
        let ghost before = kept@.map_values(|p: Vec<char>| p@);
        assert(items@.take(i + 1).drop_last() =~= items@.take(i as int));
        assert(items@.take(i + 1).last() == items@[i as int]);
        let ghost names_before = genre_names(items@.take(i as int));
        let ghost names_after = genre_names(items@.take(i + 1));
        let name = json_as_str(json_get(&items[i], "name"));
        if let Some(name) = name {
            let c = chars_of(name.as_str());
            let t = trimmed(c.as_slice());
            if !unknown_genre_chars(t.as_slice()) {
                assert(names_after == names_before.push(t@));
                assert(names_after.drop_last() =~= names_before);
                if !holds_ignoring_case_of(&kept, &t) {
                    kept.push(t);
                    assert(kept@.map_values(|p: Vec<char>| p@) =~= before.push(t@));
                }
            } else {
                assert(names_after == names_before);
            }
        } else {
            assert(names_after == names_before);
        }
        i += 1;
    }
    assert(items@.take(i as int) =~= items@);
    string_of(&join_chars(&kept, " / "))
}


/// What an album response says the album is made of.
///
/// Keeping it is what lets the library say "you have 4 of the 8 tracks on
/// *Bangarang EP*" instead of showing a tile that looks like a whole record.
#[derive(Clone, Debug, Default, PartialEq)]
pub struct AlbumFacts {
    pub id: u64,
    pub title: String,
    pub artist: String,
    /// `"album"`, `"single"` or `"ep"`.
    pub record_type: String,
    /// How many tracks the release has, as the service counts them — never
    /// fewer than it lists.
    pub nb_tracks: u32,
    /// Every track title, in album order: array order is the only order the
    /// embedded list has.
    pub tracks: Vec<String>,
}

impl View for AlbumFacts {
    type V = (u64, Seq<char>, Seq<char>, Seq<char>, u32, Seq<Seq<char>>);

    open spec fn view(&self) -> Self::V {
        (
            self.id,
            self.title@,
            self.artist@,
            self.record_type@,
            self.nb_tracks,
            self.tracks@.map_values(|t: String| t@),
        )
    }
}

impl AlbumFacts {
    /// True when the service told us something worth keeping.
    pub open spec fn usable(self) -> bool {
        self.id != 0 && self.nb_tracks > 0
    }

    /// True when the service told us something worth keeping.
    pub fn is_usable(&self) -> (r: bool)
        ensures
            r == self.usable(),
    {
        self.id != 0 && self.nb_tracks > 0
    }
}

/// The titles an album's track list carries, trimmed, blank ones left out.
pub open spec fn track_titles(items: Seq<Json>) -> Seq<Seq<char>>
    decreases items.len(),
{
    if items.len() == 0 {
        Seq::empty()
    } else {
        let prev = track_titles(items.drop_last());
        match as_str(get(items.last(), "title"@)) {
            Some(t) if trim(t).len() > 0 => prev.push(trim(t)),
            _ => prev,
        }
    }
}

pub open spec fn max_u32(a: u32, b: u32) -> u32 {
    if a >= b {
        a
    } else {
        b
    }
}

/// What [`album_facts_of`] reads out of an album response.
///
/// Only a document with a numeric `id` and a `tracks.data` list is an album;
/// a search hit carries neither list nor genres. The stated count is cut to
/// 32 bits as `as u32` cuts it, and is never below the number listed.
pub open spec fn album_facts(body: Seq<char>) -> Option<
    (u64, Seq<char>, Seq<char>, Seq<char>, u32, Seq<Seq<char>>),
> {
    match json_text(body) {
        Some(v) => match as_u64(get(v, "id"@)) {
            Some(id) => match as_array(get_opt(get(v, "tracks"@), "data"@)) {
                Some(items) => {
                    let titles = track_titles(items);
                    Some(
                        (
                            id,
                            text_at(Some(v), "title"@),
                            text_at(get(v, "artist"@), "name"@),
                            lower_all(text_at(Some(v), "record_type"@)),
                            max_u32(count_at(Some(v), "nb_tracks"@) as u32, titles.len() as u32),
                            titles,
                        ),
                    )
                },
                None => None,
            },
            None => None,
        },
        None => None,
    }
}

/// Parse an album's facts out of an album response.
///
/// Returns `None` for a document that is not one — a search hit, say, which
/// carries `nb_tracks` but no `tracks` — rather than a confident half-answer.
pub fn album_facts_of(body: &str) -> (r: Option<AlbumFacts>)
    ensures
        match r {
            Some(f) => album_facts(body@) == Some(f@),
            None => album_facts(body@) is None,
        },
{
    let value = parse_json(body)?;
    let id = json_as_u64(json_get(&value, "id"))?;
    let items = json_as_array(json_get_opt(json_get(&value, "tracks"), "data"))?;
    let mut tracks: Vec<String> = Vec::new();
    let mut i: usize = 0;
    while i < items.len()
        invariant
            i <= items@.len(),
            tracks@.map_values(|t: String| t@) == track_titles(items@.take(i as int)),
        decreases items@.len() - i,
    {
        let ghost before = tracks@.map_values(|t: String| t@);
        let ghost after = track_titles(items@.take(i + 1));
        assert(items@.take(i + 1).drop_last() =~= items@.take(i as int));
        assert(items@.take(i + 1).last() == items@[i as int]);
        let title = json_as_str(json_get(&items[i], "title"));
        if let Some(title) = title {
            let c = chars_of(title.as_str());
            let t = trimmed(c.as_slice());
            if t.len() > 0 {
                assert(after == before.push(t@));
                tracks.push(string_of(&t));
                assert(tracks@.map_values(|t: String| t@) =~= after);
            } else {
                assert(after == before);
            }
        } else {
            assert(after == before);
        }
        i += 1;
    }
    assert(items@.take(i as int) =~= items@);
    let stated = count_at_of(Some(&value), "nb_tracks") as u32;
    let listed = tracks.len() as u32;
    let title = text_at_of(Some(&value), "title");
    let artist = text_at_of(json_get(&value, "artist"), "name");
    let kind = text_at_of(Some(&value), "record_type");
    let kind_chars = chars_of(kind.as_str());
    let record_type = string_of(&lowered(kind_chars.as_slice()));
    Some(
        AlbumFacts {
            id,
            title,
            artist,
            record_type,
            nb_tracks: if stated >= listed {
                stated
            } else {
                listed
            },
            tracks,
        },
    )
}

/// What one album lookup came back with.
#[derive(Clone, Debug, Default)]
pub struct Found {
    /// Album art, as a URL on the service. Empty when nothing matched.
    pub art: String,
    /// The album's genre, empty when the service names none.
    pub genre: String,
    /// The tracklist and how long the release is. `None` when the album could
    /// not be fetched in full — art can be had from the search hit alone, and
    /// a miss here must not discard it.
    pub facts: Option<AlbumFacts>,
}

// ---------------------------------------------------------------------------
// Refusals
// ---------------------------------------------------------------------------

/// The code of an error object, read as a number whether the service sent a
/// number or a string of digits.
pub open spec fn error_code(body: Seq<char>) -> Option<u64> {
    match json_text(body) {
        Some(v) => {
            let code = get_opt(get(v, "error"@), "code"@);
            match as_u64(code) {
                Some(n) => Some(n),
                None => match as_str(code) {
                    Some(s) => parse_u64(s),
                    None => None,
                },
            }
        },
        None => None,
    }
}

/// Whether a Deezer body is a refusal wearing a 200: error code 4, "quota
/// limit exceeded", or 700, service busy.
pub open spec fn throttling(body: Seq<char>) -> bool {
    error_code(body) == Some(4u64) || error_code(body) == Some(700u64)
}

/// Whether a Deezer body is a refusal wearing a 200.
///
/// Deezer answers errors with `HTTP 200` and an error object, so a status
/// check alone sees a quota refusal as success. Every other code is a real
/// answer about the track and must not be retried — 800 means they genuinely
/// do not have it.
pub fn deezer_is_throttling(body: &str) -> (r: bool)
    ensures
        r == throttling(body@),
{
    let Some(value) = parse_json(body) else {
        return false;
    };
    let code = json_get_opt(json_get(&value, "error"), "code");
    let n = match json_as_u64(code) {
        Some(n) => Some(n),
        None => match json_as_str(code) {
            Some(s) => {
                let c = chars_of(s.as_str());
                parse_u64_chars(c.as_slice())
            },
            None => None,
        },
    };
    n == Some(4u64) || n == Some(700u64)
}


// ---------------------------------------------------------------------------
// Query strings
// ---------------------------------------------------------------------------

/// The bytes a query value may carry as they are: RFC 3986's unreserved set.
pub open spec fn unreserved(b: u8) -> bool {
    ||| 65 <= b <= 90
    ||| 97 <= b <= 122
    ||| 48 <= b <= 57
    ||| b == 45
    ||| b == 95
    ||| b == 46
    ||| b == 126
}

/// The upper-case hexadecimal digit for `n` below 16.
pub open spec fn hex_upper(n: u8) -> char {
    if n < 10 {
        (48 + n) as char
    } else {
        (55 + n) as char
    }
}

/// The lower-case hexadecimal digit for `n` below 16.
pub open spec fn hex_lower(n: u64) -> char {
    if n < 10 {
        (48 + n) as char
    } else {
        (87 + n) as char
    }
}

/// One byte of a query value: itself when unreserved, `%XX` otherwise.
pub open spec fn percent_byte(b: u8) -> Seq<char> {
    if unreserved(b) {
        seq![b as char]
    } else {
        seq!['%', hex_upper(b / 16), hex_upper(b % 16)]
    }
}

/// Every byte of `bytes`, percent-encoded in turn.
pub open spec fn percent_encoded(bytes: Seq<u8>) -> Seq<char>
    decreases bytes.len(),
{
    if bytes.len() == 0 {
        Seq::empty()
    } else {
        percent_encoded(bytes.drop_last()) + percent_byte(bytes.last())
    }
}

fn hex_upper_of(n: u8) -> (r: char)
    requires
        n < 16,
    ensures
        r == hex_upper(n),
{
    if n < 10 {
        (48 + n) as char
    } else {
        (55 + n) as char
    }
}

/// Percent-encode a query value, byte by byte of its UTF-8.
pub fn encode(s: &str) -> (r: String)
    ensures
        r@ == percent_encoded(s.spec_bytes()),
{
    let bytes = s.as_bytes();
    let mut out: Vec<char> = Vec::new();
    let mut i: usize = 0;
    while i < bytes.len()
        invariant
            i <= bytes@.len(),
            bytes@ == s.spec_bytes(),
            out@ == percent_encoded(bytes@.take(i as int)),
        decreases bytes@.len() - i,
    {
        let b = bytes[i];
        let ghost before = out@;
        assert(bytes@.take(i + 1).drop_last() =~= bytes@.take(i as int));
        if (65 <= b && b <= 90) || (97 <= b && b <= 122) || (48 <= b && b <= 57) || b == 45 || b
            == 95 || b == 46 || b == 126 {
            out.push(b as char);
        } else {
            out.push('%');
            out.push(hex_upper_of(b / 16));
            out.push(hex_upper_of(b % 16));
        }
        i += 1;
        assert(out@ =~= before + percent_byte(b));
    }
    assert(bytes@.take(i as int) =~= bytes@);
    string_of(&out)
}

// ---------------------------------------------------------------------------
// Images on disk
// ---------------------------------------------------------------------------

pub open spec fn fnv_offset() -> u64 {
    0xcbf2_9ce4_8422_2325
}

pub open spec fn fnv_prime() -> u64 {
    0x1000_0000_01b3
}

/// FNV-1a over `bytes`: start at the offset basis; for each byte, xor it in
/// and multiply by the prime, wrapping.
pub open spec fn fnv1a(bytes: Seq<u8>) -> u64
    decreases bytes.len(),
{
    if bytes.len() == 0 {
        fnv_offset()
    } else {
        (fnv1a(bytes.drop_last()) ^ (bytes.last() as u64)).wrapping_mul(fnv_prime())
    }
}

/// `format!("{h:016x}")`: sixteen lower-case hexadecimal digits, most
/// significant first.
pub open spec fn hex16(h: u64) -> Seq<char> {
    Seq::new(16, |i: int| hex_lower((h >> ((60 - 4 * i) as u64)) & 0xf))
}

fn hex_lower_of(n: u64) -> (r: char)
    requires
        n < 16,
    ensures
        r == hex_lower(n),
{
    if n < 10 {
        ((48 + n) as u8) as char
    } else {
        ((87 + n) as u8) as char
    }
}

fn hex16_of(h: u64) -> (r: Vec<char>)
    ensures
        r@ == hex16(h),
{
    let mut out: Vec<char> = Vec::new();
    let mut i: u64 = 0;
    while i < 16
        invariant
            i <= 16,
            out@ =~= hex16(h).take(i as int),
        decreases 16 - i,
    {
        let sh: u64 = 60 - 4 * i;
        let nibble = (h >> sh) & 0xf;
        assert(nibble < 16) by (bit_vector)
            requires
                nibble == (h >> sh) & 0xf,
        ;
        out.push(hex_lower_of(nibble));
        i += 1;
        assert(out@ =~= hex16(h).take(i as int));
    }
    out
}

/// A short stable name for a URL: FNV-1a of its bytes, in hex. Not a
/// security hash, and does not need to be — it names a cache file.
pub fn fingerprint(url: &str) -> (r: String)
    ensures
        r@ == hex16(fnv1a(url.spec_bytes())),
{
    let bytes = url.as_bytes();
    let mut h: u64 = 0xcbf2_9ce4_8422_2325;
    let mut i: usize = 0;
    while i < bytes.len()
        invariant
            i <= bytes@.len(),
            bytes@ == url.spec_bytes(),
            h == fnv1a(bytes@.take(i as int)),
        decreases bytes@.len() - i,
    {
        assert(bytes@.take(i + 1).drop_last() =~= bytes@.take(i as int));
        h ^= bytes[i] as u64;
        h = h.wrapping_mul(0x1000_0000_01b3);
        i += 1;
    }
    assert(bytes@.take(i as int) =~= bytes@);
    string_of(&hex16_of(h))
}

/// The last path segment of a URL: after the last `/`, or all of it.
pub open spec fn url_tail(url: Seq<char>) -> Seq<char> {
    url.skip(last_below(char_at_is(url, '/'), url.len() as int) + 1)
}

/// Up to the first `?`: a query string is not part of a file name.
pub open spec fn before_query(t: Seq<char>) -> Seq<char> {
    t.take(first_from(t.len() as int, char_at_is(t, '?'), 0))
}

/// Whether `e` can name a file's type: one to four ASCII letters or digits.
pub open spec fn usable_extension(e: Seq<char>) -> bool {
    &&& 0 < e.len() <= 4
    &&& forall|i: int| 0 <= i < e.len() ==> is_ascii_alnum(#[trigger] e[i])
}

/// The extension a URL's file is named with: what follows the last `.` of
/// its last segment, query dropped, when that is usable; `jpg` otherwise.
pub open spec fn image_extension(url: Seq<char>) -> Seq<char> {
    let name = before_query(url_tail(url));
    let dot = last_below(char_at_is(name, '.'), name.len() as int);
    if dot >= 0 && usable_extension(name.skip(dot + 1)) {
        name.skip(dot + 1)
    } else {
        "jpg"@
    }
}

/// The file a fetched image is kept in: named by the URL's fingerprint.
pub open spec fn image_file_name(url: &str) -> Seq<char> {
    hex16(fnv1a(url.spec_bytes())) + seq!['.'] + image_extension(url@)
}

fn usable_extension_of(e: &[char]) -> (r: bool)
    ensures
        r == usable_extension(e@),
{
    if e.len() == 0 || e.len() > 4 {
        return false;
    }
    let mut i: usize = 0;
    while i < e.len()
        invariant
            i <= e@.len(),
            forall|j: int| 0 <= j < i ==> is_ascii_alnum(#[trigger] e@[j]),
        decreases e@.len() - i,
    {
        let c = e[i];
        if !(('a' <= c && c <= 'z') || ('A' <= c && c <= 'Z') || ('0' <= c && c <= '9')) {
            assert(!is_ascii_alnum(e@[i as int]));
            return false;
        }
        i += 1;
    }
    true
}

fn image_extension_of(url: &str) -> (r: Vec<char>)
    ensures
        r@ == image_extension(url@),
{
    let u = chars_of(url);
    proof {
        crate::text::lemma_last_below_bounds(char_at_is(u@, '/'), u@.len() as int);
    }
    let tail = match last_index_of(u.as_slice(), '/') {
        Some(k) => slice_chars(u.as_slice(), k + 1, u.len()),
        None => {
            assert(u@.skip(0) =~= u@);
            slice_chars(u.as_slice(), 0, u.len())
        },
    };
    assert(tail@ =~= url_tail(url@));
    let q = first_index_of(tail.as_slice(), '?');
    proof {
        crate::text::lemma_first_from_bounds(tail@.len() as int, char_at_is(tail@, '?'), 0);
    }
    let name = slice_chars(tail.as_slice(), 0, q);
    assert(name@ =~= before_query(url_tail(url@)));
    proof {
        crate::text::lemma_last_below_bounds(char_at_is(name@, '.'), name@.len() as int);
    }
    match last_index_of(name.as_slice(), '.') {
        Some(d) => {
            let e = slice_chars(name.as_slice(), d + 1, name.len());
            assert(e@ =~= name@.skip(d + 1));
            if usable_extension_of(e.as_slice()) {
                return e;
            }
        },
        None => {},
    }
    chars_of("jpg")
}

/// Where a fetched image is kept on disk: `dir/metadata_images/<name>`.
///
/// Named by a hash of its URL, because two tracks from the same album resolve
/// to the same art and downloading it per track would fetch one sleeve a
/// dozen times. The extension is only ever used to name the file.
pub fn image_path(dir: &std::path::Path, url: &str) -> (r: std::path::PathBuf)
    ensures
        r == pushed(pushed(owned_path(dir), "metadata_images"@), image_file_name(url)),
{
    let mut name = fingerprint(url).as_str().to_owned();
    name.append(".");
    let ext = string_of(&image_extension_of(url));
    name.append(ext.as_str());
    proof {
        reveal_strlit(".");
    }
    assert(name@ =~= image_file_name(url));
    let mut path = path_to_buf(dir);
    path_push(&mut path, "metadata_images");
    path_push(&mut path, name.as_str());
    path
}

/// The type of an image, read from its first bytes rather than its name.
pub open spec fn image_mime_of(bytes: Seq<u8>) -> Seq<char> {
    if bytes.len() >= 4 && bytes[0] == 0x89 && bytes[1] == 80 && bytes[2] == 78 && bytes[3] == 71 {
        "image/png"@
    } else if bytes.len() >= 3 && bytes[0] == 71 && bytes[1] == 73 && bytes[2] == 70 {
        "image/gif"@
    } else if bytes.len() > 12 && bytes[8] == 87 && bytes[9] == 69 && bytes[10] == 66 && bytes[11]
        == 80 {
        "image/webp"@
    } else {
        "image/jpeg"@
    }
}

/// The type of an image from its first bytes: PNG, GIF, WebP, else JPEG.
///
/// Read from the content rather than from the URL's extension: a
/// mislabelled type renders as a broken image with no clue why.
pub fn image_mime(bytes: &[u8]) -> (r: &'static str)
    ensures
        r@ == image_mime_of(bytes@),
{
    let n = bytes.len();
    if n >= 4 && bytes[0] == 0x89 && bytes[1] == 80 && bytes[2] == 78 && bytes[3] == 71 {
        "image/png"
    } else if n >= 3 && bytes[0] == 71 && bytes[1] == 73 && bytes[2] == 70 {
        "image/gif"
    } else if n > 12 && bytes[8] == 87 && bytes[9] == 69 && bytes[10] == 66 && bytes[11] == 80 {
        "image/webp"
    } else {
        "image/jpeg"
    }
}


// ---------------------------------------------------------------------------
// Pacing and retrying
// ---------------------------------------------------------------------------

/// The `Duration` that `Duration::from_millis` makes of `ms` milliseconds.
pub uninterp spec fn millis(ms: u64) -> Duration;

/// The `Duration` that `Duration::from_secs` makes of `secs` seconds.
pub uninterp spec fn seconds(secs: u64) -> Duration;

/// `Duration::from_millis(ms)`.
#[verifier::external_body]
pub(crate) fn duration_from_millis(ms: u64) -> (r: Duration)
    ensures
        r == millis(ms),
{
    Duration::from_millis(ms)
}

/// `Duration::from_secs(secs)`.
#[verifier::external_body]
pub(crate) fn duration_from_secs(secs: u64) -> (r: Duration)
    ensures
        r == seconds(secs),
{
    Duration::from_secs(secs)
}

/// What this app calls itself to the services: a name, a version and where
/// to complain, which is what LRCLIB asks of its callers.
pub const USER_AGENT: &'static str = "VaporMusic/0.1.0 (https://github.com/Ghigog/vapor-music)";

/// The smallest gap between two Deezer requests, in milliseconds: five a
/// second, half of the limit every client converges on.
pub const DEEZER_GAP_MS: u64 = 200;

/// LRCLIB asks for 200–500 ms between requests; the middle of the band.
pub const LRCLIB_GAP_MS: u64 = 300;

/// Artwork comes off a static CDN, paced the same way as the API.
pub const ARTWORK_GAP_MS: u64 = 200;

/// A refusal that names its own wait is still capped at this many seconds.
pub const LONGEST_WAIT_SECS: u64 = 30;

/// Which stranger a URL belongs to. Each is paced on its own clock.
#[derive(Clone, Copy, Debug, PartialEq, Eq)]
pub enum Service {
    Deezer,
    Lrclib,
    Artwork,
}

/// `|j| s[j..j + 3] == "://"`.
pub open spec fn scheme_sep_at(s: Seq<char>) -> spec_fn(int) -> bool {
    |j: int| j + 3 <= s.len() && s[j] == ':' && s[j + 1] == '/' && s[j + 2] == '/'
}

/// `|j| s[j]` ends a host: `/`, `?` or `#`.
pub open spec fn host_end_at(s: Seq<char>) -> spec_fn(int) -> bool {
    |j: int| s[j] == '/' || s[j] == '?' || s[j] == '#'
}

/// The host of a URL: after the first `://`, up to the first `/`, `?` or
/// `#`. `None` when there is no `://`.
pub open spec fn url_host(url: Seq<char>) -> Option<Seq<char>> {
    let n = url.len() as int;
    let k = first_from(n, scheme_sep_at(url), 0);
    if k < n {
        let rest = url.skip(k + 3);
        Some(rest.take(first_from(rest.len() as int, host_end_at(rest), 0)))
    } else {
        None
    }
}

/// Which service a URL is for, by its host alone. An unrecognised host is
/// paced as artwork, not exempt.
pub open spec fn service_of(url: Seq<char>) -> Option<Service> {
    match url_host(url) {
        Some(h) => Some(
            if h == "api.deezer.com"@ {
                Service::Deezer
            } else if h == "lrclib.net"@ {
                Service::Lrclib
            } else {
                Service::Artwork
            },
        ),
        None => None,
    }
}

fn url_host_of(url: &str) -> (r: Option<Vec<char>>)
    ensures
        match r {
            Some(h) => url_host(url@) == Some(h@),
            None => url_host(url@) is None,
        },
{
    let u = chars_of(url);
    let n = u.len();
    let mut k: usize = 0;
    while k < n && !(n - k >= 3 && u[k] == ':' && u[k + 1] == '/' && u[k + 2] == '/')
        invariant
            k <= n == u@.len(),
            u@ == url@,
            first_from(n as int, scheme_sep_at(u@), 0) == first_from(
                n as int,
                scheme_sep_at(u@),
                k as int,
            ),
        decreases n - k,
    {
        k += 1;
    }
    if k >= n {
        return None;
    }
    proof {
        crate::text::lemma_first_from_bounds(n as int, scheme_sep_at(u@), 0);
    }
    assert(scheme_sep_at(u@)(k as int));
    assert(k + 3 <= n);
    let rest = slice_chars(u.as_slice(), k + 3, n);
    assert(rest@ =~= u@.skip(k + 3));
    let m = rest.len();
    let mut e: usize = 0;
    while e < m && !(rest[e] == '/' || rest[e] == '?' || rest[e] == '#')
        invariant
            e <= m == rest@.len(),
            first_from(m as int, host_end_at(rest@), 0) == first_from(
                m as int,
                host_end_at(rest@),
                e as int,
            ),
        decreases m - e,
    {
        e += 1;
    }
    let host = slice_chars(rest.as_slice(), 0, e);
    assert(host@ =~= rest@.take(e as int));
    Some(host)
}

impl Service {
    /// Which service a URL is for.
    ///
    /// Matched on the host, not on a substring of the whole URL: a Deezer
    /// search response is full of CDN links, and a query string can contain
    /// anything a track is called.
    pub fn of(url: &str) -> (r: Option<Service>)
        ensures
            r == service_of(url@),
    {
        let host = url_host_of(url)?;
        if is_literal(&host, "api.deezer.com") {
            Some(Service::Deezer)
        } else if is_literal(&host, "lrclib.net") {
            Some(Service::Lrclib)
        } else {
            Some(Service::Artwork)
        }
    }

    pub open spec fn gap_ms(self) -> u64 {
        match self {
            Service::Deezer => DEEZER_GAP_MS,
            Service::Lrclib => LRCLIB_GAP_MS,
            Service::Artwork => ARTWORK_GAP_MS,
        }
    }

    /// The smallest gap between two requests to this service.
    pub fn gap(self) -> (r: Duration)
        ensures
            r == millis(self.gap_ms()),
    {
        match self {
            Service::Deezer => duration_from_millis(DEEZER_GAP_MS),
            Service::Lrclib => duration_from_millis(LRCLIB_GAP_MS),
            Service::Artwork => duration_from_millis(ARTWORK_GAP_MS),
        }
    }
}

/// What to do with one response, before its body is used for anything.
#[derive(Clone, Copy, Debug, PartialEq, Eq)]
pub enum Verdict {
    /// Usable. Read it.
    Keep,
    /// Refused for a reason that passes — try again after the `Duration`, or
    /// after the caller's own backoff when the service named no time.
    Wait(Option<Duration>),
    /// Refused for a reason that will not change. Nothing to retry.
    Drop,
}

pub open spec fn verdict_for(status: u16) -> Verdict {
    if 200 <= status <= 299 {
        Verdict::Keep
    } else if status == 429 || (500 <= status <= 599) {
        Verdict::Wait(None)
    } else {
        Verdict::Drop
    }
}

/// What each status comes to: every 2xx is read; too many requests (429)
/// and every server error (500 to 599) are waited out, with no time named;
/// anything else ends the lookup.
pub proof fn server_errors_are_waited_out(status: u16)
    ensures
        200 <= status <= 299 ==> verdict_for(status) == Verdict::Keep,
        status == 429 || (500 <= status && status <= 599) ==> verdict_for(status)
            == Verdict::Wait(None),
        !(200 <= status <= 299) && status != 429 && !(500 <= status && status <= 599)
            ==> verdict_for(status) == Verdict::Drop,
{
}

/// Read the status line: success is kept; too many requests and a server
/// having a bad minute are waited out; anything else is an answer.
pub fn verdict_of(status: u16) -> (r: Verdict)
    ensures
        r == verdict_for(status),
{
    if 200 <= status && status <= 299 {
        Verdict::Keep
    } else if status == 429 {
        Verdict::Wait(None)
    } else if 500 <= status && status <= 599 {
        Verdict::Wait(None)
    } else {
        Verdict::Drop
    }
}

/// Seconds from a `Retry-After` header, when it is the numeric form, capped
/// at [`LONGEST_WAIT_SECS`].
pub open spec fn retry_after_secs(value: Seq<char>) -> Option<u64> {
    match parse_u64(trim(value)) {
        Some(n) => Some(if n <= LONGEST_WAIT_SECS {
            n
        } else {
            LONGEST_WAIT_SECS
        }),
        None => None,
    }
}

/// The wait a `Retry-After` header names, when it is the numeric form.
///
/// The HTTP-date form is allowed by the spec and is not parsed: falling
/// through to the caller's own backoff is a correct answer, just a less
/// informed one. A service asking for ten minutes gets the request abandoned
/// rather than a parked thread.
pub fn retry_after(value: &str) -> (r: Option<Duration>)
    ensures
        r == (match retry_after_secs(value@) {
            Some(n) => Some(seconds(n)),
            None => None,
        }),
{
    let c = chars_of(value);
    let t = trimmed(c.as_slice());
    let n = parse_u64_chars(t.as_slice())?;
    let capped = if n <= LONGEST_WAIT_SECS {
        n
    } else {
        LONGEST_WAIT_SECS
    };
    Some(duration_from_secs(capped))
}

} // verus!
