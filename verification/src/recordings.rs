//! Which files are the same recording, which copy of a recording survives,
//! and which release a folder of tracks belongs to.

use vstd::prelude::*;

use vstd::string::{StrSliceExecFns, StringExecFns};

use crate::entities::{lowercase, to_lower};
use crate::text::{chars_of, string_of, text_less, text_lt, trim, trimmed};

verus! {

broadcast use vstd::string::group_string_axioms;

/// What a recording is called in one field: the tag when it says something,
/// else the name the file was indexed under, trimmed and in lower case.
pub open spec fn field_of(tag: Option<Seq<char>>, fallback: Seq<char>) -> Seq<char> {
    let chosen = match tag {
        Some(t) => if trim(t).len() > 0 {
            trim(t)
        } else {
            trim(fallback)
        },
        None => trim(fallback),
    };
    lowercase(chosen)
}

/// The key two copies of one recording share: title and artist, joined by a
/// character no tag holds. A file missing either is only itself: its href.
pub open spec fn recording_key_of(
    tag_title: Option<Seq<char>>,
    title: Seq<char>,
    tag_artist: Option<Seq<char>>,
    artist: Seq<char>,
    href: Seq<char>,
) -> Seq<char> {
    let t = field_of(tag_title, title);
    let a = field_of(tag_artist, artist);
    if t.len() == 0 || a.len() == 0 {
        href
    } else {
        t + seq!['\u{1}'] + a
    }
}

fn field(tag: Option<&str>, fallback: &str) -> (r: String)
    ensures
        r@ == field_of(
            match tag {
                Some(t) => Some(t@),
                None => None,
            },
            fallback@,
        ),
{
    let fb = string_of(&trimmed(chars_of(fallback).as_slice()));
    let chosen = match tag {
        Some(t) => {
            let tt = string_of(&trimmed(chars_of(t).as_slice()));
            if tt.as_str().unicode_len() > 0 {
                tt
            } else {
                fb
            }
        },
        None => fb,
    };
    to_lower(chosen.as_str())
}

/// The key a file is grouped with its other copies under.
///
/// Falls back to the href when a title or artist is missing, so two
/// untitled files never collapse into each other.
pub fn recording_key(
    tag_title: Option<&str>,
    title: &str,
    tag_artist: Option<&str>,
    artist: &str,
    href: &str,
) -> (r: String)
    ensures
        r@ == recording_key_of(
            match tag_title {
                Some(t) => Some(t@),
                None => None,
            },
            title@,
            match tag_artist {
                Some(t) => Some(t@),
                None => None,
            },
            artist@,
            href@,
        ),
{
    let t = field(tag_title, title);
    let a = field(tag_artist, artist);
    if t.as_str().unicode_len() == 0 || a.as_str().unicode_len() == 0 {
        return String::from_str(href);
    }
    let mut sep: Vec<char> = Vec::new();
    sep.push('\u{1}');
    let sep = string_of(&sep);
    let mut out = t;
    out.append(sep.as_str());
    out.append(a.as_str());
    out
}

/// `h` is the first copy of some recording among `rows`, each a (key, href):
/// a row has it as its href, and no row with that row's key has an href that
/// sorts before it.
pub open spec fn is_first_copy(rows: Seq<(Seq<char>, Seq<char>)>, h: Seq<char>) -> bool {
    exists|j: int|
        0 <= j < rows.len() && rows[j].1 == h && forall|k: int|
            0 <= k < rows.len() && rows[k].0 == rows[j].0 ==> !text_lt(#[trigger] rows[k].1, h)
}

/// The rows as plain text.
pub open spec fn row_views(rows: Seq<(String, String)>) -> Seq<(Seq<char>, Seq<char>)> {
    rows.map_values(|r: (String, String)| (r.0@, r.1@))
}

fn sorts_first_in_group(rows: &Vec<(String, String)>, j: usize) -> (r: bool)
    requires
        j < rows@.len(),
    ensures
        r == (forall|k: int|
            0 <= k < rows@.len() && row_views(rows@)[k].0 == row_views(rows@)[j as int].0
                ==> !text_lt(#[trigger] row_views(rows@)[k].1, row_views(rows@)[j as int].1)),
{
    let ghost v = row_views(rows@);
    let key = chars_of(rows[j].0.as_str());
    let href = chars_of(rows[j].1.as_str());
    let mut k: usize = 0;
    while k < rows.len()
        invariant
            j < rows@.len(),
            v == row_views(rows@),
            key@ == v[j as int].0,
            href@ == v[j as int].1,
            k <= rows@.len(),
            forall|m: int|
                0 <= m < k && v[m].0 == v[j as int].0 ==> !text_lt(#[trigger] v[m].1, v[j as int].1),
        decreases rows@.len() - k,
    {
        let other_key = chars_of(rows[k].0.as_str());
        let other_href = chars_of(rows[k].1.as_str());
        assert(v[k as int] == (rows@[k as int].0@, rows@[k as int].1@));
        if crate::text::chars_eq(other_key.as_slice(), key.as_slice()) && text_less(
            other_href.as_slice(),
            href.as_slice(),
        ) {
            assert(v[k as int].0 == v[j as int].0 && text_lt(v[k as int].1, v[j as int].1));
            return false;
        }
        k += 1;
    }
    true
}

/// For each row, a (key, href), whether its href is the first copy of a
/// recording: the lexicographically first href among the rows that share a
/// key, so the survivor is the same one after a restart. The rest are the
/// duplicates a library can hide.
pub fn first_copies(rows: &Vec<(String, String)>) -> (r: Vec<bool>)
    ensures
        r@.len() == rows@.len(),
        forall|i: int|
            0 <= i < rows@.len() ==> #[trigger] r@[i] == is_first_copy(
                row_views(rows@),
                row_views(rows@)[i].1,
            ),
{
    let ghost v = row_views(rows@);
    let mut out: Vec<bool> = Vec::new();
    let mut i: usize = 0;
    while i < rows.len()
        invariant
            v == row_views(rows@),
            i <= rows@.len(),
            out@.len() == i,
            forall|m: int| 0 <= m < i ==> #[trigger] out@[m] == is_first_copy(v, v[m].1),
        decreases rows@.len() - i,
    {
        let href = chars_of(rows[i].1.as_str());
        let mut found = false;
        let mut j: usize = 0;
        while j < rows.len()
            invariant
                v == row_views(rows@),
                i < rows@.len(),
                href@ == v[i as int].1,
                j <= rows@.len(),
                found ==> is_first_copy(v, v[i as int].1),
                !found ==> forall|m: int|
                    0 <= m < j && #[trigger] v[m].1 == v[i as int].1 ==> !(forall|k: int|
                        0 <= k < rows@.len() && v[k].0 == v[m].0 ==> !text_lt(
                            #[trigger] v[k].1,
                            v[i as int].1,
                        )),
            decreases rows@.len() - j,
        {
            let candidate = chars_of(rows[j].1.as_str());
            assert(v[j as int] == (rows@[j as int].0@, rows@[j as int].1@));
            if !found && crate::text::chars_eq(candidate.as_slice(), href.as_slice())
                && sorts_first_in_group(rows, j) {
                found = true;
            }
            j += 1;
        }
        out.push(found);
        i += 1;
    }
    out
}

/// A vote for `x`.
pub open spec fn vote_for(x: u64) -> spec_fn(u64) -> bool {
    |y: u64| y == x
}

/// How many of `ids` are `x`.
pub open spec fn votes(ids: Seq<u64>, x: u64) -> nat {
    ids.filter(vote_for(x)).len()
}

/// `x` wins the vote among `ids`: it was voted for, and every other id voted
/// for has fewer votes, or as many and a smaller id. A zero is no vote.
pub open spec fn wins(ids: Seq<u64>, x: u64) -> bool {
    &&& x != 0
    &&& ids.contains(x)
    &&& forall|y: u64|
        y != 0 && ids.contains(y) ==> votes(ids, y) < votes(ids, x) || (votes(ids, y) == votes(
            ids,
            x,
        ) && y <= x)
}

fn count_votes(ids: &Vec<u64>, x: u64) -> (r: usize)
    ensures
        r == votes(ids@, x),
{
    let mut n: usize = 0;
    let mut i: usize = 0;
    while i < ids.len()
        invariant
            i <= ids@.len(),
            n == votes(ids@.take(i as int), x),
            n <= i,
        decreases ids@.len() - i,
    {
        proof {
            let s = ids@.take(i as int);
            assert(ids@.take(i + 1) =~= s.push(ids@[i as int]));
            s.lemma_filter_push(ids@[i as int], vote_for(x));
        }
        if ids[i] == x {
            n += 1;
        }
        i += 1;
    }
    assert(ids@.take(i as int) =~= ids@);
    n
}

/// The release a set of tracks belongs to, by vote, each track naming the
/// id it was matched to and zero for none: the most named, and of two named
/// as often, the larger id, so the answer does not depend on hash order.
/// `None` when nothing was matched.
pub fn release_vote(ids: &Vec<u64>) -> (r: Option<u64>)
    ensures
        match r {
            Some(x) => wins(ids@, x),
            None => forall|y: u64| ids@.contains(y) ==> y == 0,
        },
{
    let mut best: Option<(u64, usize)> = None;
    let mut i: usize = 0;
    while i < ids.len()
        invariant
            i <= ids@.len(),
            match best {
                Some((x, n)) => {
                    &&& x != 0
                    &&& ids@.contains(x)
                    &&& n == votes(ids@, x)
                    &&& forall|k: int|
                        0 <= k < i && ids@[k] != 0 ==> votes(ids@, #[trigger] ids@[k]) < n || (
                        votes(ids@, ids@[k]) == n && ids@[k] <= x)
                },
                None => forall|k: int| 0 <= k < i ==> #[trigger] ids@[k] == 0,
            },
        decreases ids@.len() - i,
    {
        let id = ids[i];
        if id != 0 {
            let n = count_votes(ids, id);
            assert(ids@.contains(id)) by {
                assert(ids@[i as int] == id);
            }
            best = match best {
                None => Some((id, n)),
                Some((x, m)) => if n > m || (n == m && id > x) {
                    Some((id, n))
                } else {
                    Some((x, m))
                },
            };
        }
        i += 1;
    }
    match best {
        Some((x, _)) => {
            proof {
                assert forall|y: u64| y != 0 && ids@.contains(y) implies votes(ids@, y) < votes(
                    ids@,
                    x,
                ) || (votes(ids@, y) == votes(ids@, x) && y <= x) by {
                    let k = choose|k: int| 0 <= k < ids@.len() && ids@[k] == y;
                    assert(ids@[k] == y);
                }
            }
            Some(x)
        },
        None => {
            proof {
                assert forall|y: u64| ids@.contains(y) implies y == 0 by {
                    let k = choose|k: int| 0 <= k < ids@.len() && ids@[k] == y;
                    assert(ids@[k] == 0);
                }
            }
            None
        },
    }
}

/// The genre a track is filed under: the one it was indexed with, else its
/// tag, else what the lookup found; the first that says something. The
/// lookup only ever fills a gap, so a library that tags its own files keeps
/// its own words.
pub open spec fn genre_choice_of(row: Seq<char>, tag: Option<Seq<char>>, looked: Option<Seq<char>>) -> Seq<char> {
    if trim(row).len() > 0 {
        row
    } else if tag is Some && trim(tag->0).len() > 0 {
        tag->0
    } else if looked is Some && trim(looked->0).len() > 0 {
        looked->0
    } else {
        Seq::empty()
    }
}

fn says_something(text: &str) -> (r: bool)
    ensures
        r == (trim(text@).len() > 0),
{
    trimmed(chars_of(text).as_slice()).len() > 0
}

/// The genre a track is filed under.
pub fn genre_choice(row: &str, tag: Option<&str>, looked: Option<&str>) -> (r: String)
    ensures
        r@ == genre_choice_of(
            row@,
            match tag {
                Some(t) => Some(t@),
                None => None,
            },
            match looked {
                Some(l) => Some(l@),
                None => None,
            },
        ),
{
    if says_something(row) {
        return String::from_str(row);
    }
    if let Some(t) = tag {
        if says_something(t) {
            return String::from_str(t);
        }
    }
    if let Some(l) = looked {
        if says_something(l) {
            return String::from_str(l);
        }
    }
    String::new()
}

} // verus!
