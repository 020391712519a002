//! What a lookup asks the services for: the searches and the documents, as
//! URLs, and which of them are worth asking at all.
//!
//! The shell sends the requests (see [`crate::retry`] for how often); the
//! placeholders the path parser produces never become a search term.

use vstd::prelude::*;

use vstd::string::{StrSliceExecFns, StringExecFns, StringSliceAdditionalSpecFns};
use vstd::utf8::encode_utf8;

use crate::metadata::{encode, is_searchable, percent_encoded, searchable};
use crate::text::{dec, dec_chars, string_of};

verus! {

broadcast use vstd::string::group_string_axioms;

/// `text` as a query value.
pub open spec fn query_value(text: Seq<char>) -> Seq<char> {
    percent_encoded(encode_utf8(text))
}

/// The LRCLIB request for one track's words, when both names are worth
/// searching for.
pub open spec fn lyrics_url_of(artist: Seq<char>, title: Seq<char>) -> Option<Seq<char>> {
    if searchable(artist) && searchable(title) {
        Some(
            "https://lrclib.net/api/get?artist_name="@ + query_value(artist) + "&track_name="@
                + query_value(title),
        )
    } else {
        None
    }
}

/// The Deezer artist search, when the name is worth searching for.
pub open spec fn artist_search_of(artist: Seq<char>) -> Option<Seq<char>> {
    if searchable(artist) {
        Some("https://api.deezer.com/search/artist?q="@ + query_value(artist))
    } else {
        None
    }
}

/// What a track is searched for: the artist and the title, or the title
/// alone when the artist is a placeholder; nothing when the title is one.
pub open spec fn track_query_of(artist: Seq<char>, title: Seq<char>) -> Option<Seq<char>> {
    if !searchable(title) {
        None
    } else if searchable(artist) {
        Some(artist + " "@ + title)
    } else {
        Some(title)
    }
}

/// What an album is searched for, in order: the artist and the album, then
/// the album alone, because a common title matches half the catalogue;
/// only the album when the artist is a placeholder; nothing when the album
/// is one.
pub open spec fn album_queries_of(artist: Seq<char>, album: Seq<char>) -> Seq<Seq<char>> {
    if !searchable(album) {
        Seq::empty()
    } else if searchable(artist) {
        seq![artist + " "@ + album, album]
    } else {
        seq![album]
    }
}

fn literal(text: &str) -> (r: String)
    ensures
        r@ == text@,
{
    String::from_str(text)
}

/// The LRCLIB request for one track's words, or `None` when either name is
/// a placeholder.
pub fn lyrics_url(artist: &str, title: &str) -> (r: Option<String>)
    ensures
        match r {
            Some(u) => lyrics_url_of(artist@, title@) == Some(u@),
            None => lyrics_url_of(artist@, title@) is None,
        },
{
    if !is_searchable(artist) || !is_searchable(title) {
        return None;
    }
    let mut url = literal("https://lrclib.net/api/get?artist_name=");
    let a = encode(artist);
    url.append(a.as_str());
    url.append("&track_name=");
    let t = encode(title);
    url.append(t.as_str());
    proof {
        reveal_strlit("https://lrclib.net/api/get?artist_name=");
        reveal_strlit("&track_name=");
    }
    Some(url)
}

/// The Deezer artist search, or `None` for a placeholder name.
pub fn artist_search_url(artist: &str) -> (r: Option<String>)
    ensures
        match r {
            Some(u) => artist_search_of(artist@) == Some(u@),
            None => artist_search_of(artist@) is None,
        },
{
    if !is_searchable(artist) {
        return None;
    }
    let mut url = literal("https://api.deezer.com/search/artist?q=");
    let a = encode(artist);
    url.append(a.as_str());
    proof {
        reveal_strlit("https://api.deezer.com/search/artist?q=");
    }
    Some(url)
}

/// What a track is searched for.
pub fn track_query(artist: &str, title: &str) -> (r: Option<String>)
    ensures
        match r {
            Some(q) => track_query_of(artist@, title@) == Some(q@),
            None => track_query_of(artist@, title@) is None,
        },
{
    if !is_searchable(title) {
        return None;
    }
    if is_searchable(artist) {
        let mut q = literal(artist);
        q.append(" ");
        q.append(title);
        proof {
            reveal_strlit(" ");
        }
        Some(q)
    } else {
        Some(literal(title))
    }
}

/// The Deezer track search for `query`.
pub fn track_search_url(query: &str) -> (r: String)
    ensures
        r@ == "https://api.deezer.com/search/track?q="@ + query_value(query@),
{
    let mut url = literal("https://api.deezer.com/search/track?q=");
    let q = encode(query);
    url.append(q.as_str());
    url
}

/// The Deezer album search for `query`.
pub fn album_search_url(query: &str) -> (r: String)
    ensures
        r@ == "https://api.deezer.com/search/album?q="@ + query_value(query@),
{
    let mut url = literal("https://api.deezer.com/search/album?q=");
    let q = encode(query);
    url.append(q.as_str());
    url
}

/// The Deezer document for track `id`.
pub fn track_url(id: u64) -> (r: String)
    ensures
        r@ == "https://api.deezer.com/track/"@ + dec(id as nat),
{
    let mut url = literal("https://api.deezer.com/track/");
    let digits = string_of(&dec_chars(id));
    url.append(digits.as_str());
    url
}

/// The Deezer document for album `id`.
pub fn album_url(id: u64) -> (r: String)
    ensures
        r@ == "https://api.deezer.com/album/"@ + dec(id as nat),
{
    let mut url = literal("https://api.deezer.com/album/");
    let digits = string_of(&dec_chars(id));
    url.append(digits.as_str());
    url
}

/// What an album is searched for, in the order to try.
pub fn album_queries(artist: &str, album: &str) -> (r: Vec<String>)
    ensures
        r@.map_values(|q: String| q@) == album_queries_of(artist@, album@),
{
    let mut out: Vec<String> = Vec::new();
    if !is_searchable(album) {
        assert(out@.map_values(|q: String| q@) =~= album_queries_of(artist@, album@));
        return out;
    }
    if is_searchable(artist) {
        let mut both = literal(artist);
        both.append(" ");
        both.append(album);
        out.push(both);
        proof {
            reveal_strlit(" ");
        }
    }
    out.push(literal(album));
    assert(out@.map_values(|q: String| q@) =~= album_queries_of(artist@, album@));
    out
}

/// Whether an image URL is one worth downloading: something over HTTP.
pub fn downloadable(url: &str) -> (r: bool)
    ensures
        r == (url@.len() >= 4 && url@.take(4) == "http"@),
{
    let c = crate::text::chars_of(url);
    let p = crate::text::chars_of("http");
    proof {
        reveal_strlit("http");
    }
    crate::text::chars_starts_with(c.as_slice(), p.as_slice())
}

} // verus!
