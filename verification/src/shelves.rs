//! The home screen's shelves: which tiles make it onto a shelf, and in what
//! order.

use vstd::prelude::*;

use vstd::string::{StrSliceExecFns, StringExecFns};

use crate::entities::LibraryEntity;
use crate::shell::{tracks_line, tracks_text};
use crate::sorting::{is_stable_sort, sort_stably, sorted_by_with, strict_weak};

verus! {

/// How many tiles a shelf carries: the point past which nobody scrolls.
pub const SHELF: usize = 12;

/// One tile on a home shelf. A playlist, a group, an artist and an album are
/// drawn alike and ranked alike.
#[derive(Clone, Debug, PartialEq)]
pub struct Shelf {
    /// What this is, for opening it: a playlist or group id, or the name of
    /// an artist or an album.
    pub id: String,
    pub title: String,
    /// The one line under the title; empty when there is nothing true to say.
    pub subtitle: String,
    /// A track from it, for the cover and for what plays when it is pressed.
    pub lead: String,
    pub tracks: u32,
    /// Listens this was ranked on.
    pub plays: u32,
}

/// A tile and the numbers it is ranked on.
#[derive(Debug)]
pub struct Ranked {
    pub shelf: Shelf,
    /// Listens to the thing itself.
    pub direct: u32,
    /// Listens to its tracks, wherever they were played from.
    pub member: u32,
    /// When it was last listened to, unix seconds.
    pub last: i64,
}

/// `a` ranks above `b`: more direct plays, then more member plays, then
/// played more recently, then more tracks.
pub open spec fn ranks_above(a: Ranked, b: Ranked) -> bool {
    ||| a.direct > b.direct
    ||| a.direct == b.direct && a.member > b.member
    ||| a.direct == b.direct && a.member == b.member && a.last > b.last
    ||| a.direct == b.direct && a.member == b.member && a.last == b.last && a.shelf.tracks
        > b.shelf.tracks
}

/// [`ranks_above`] as a relation.
pub open spec fn shelf_order() -> spec_fn(Ranked, Ranked) -> bool {
    |a: Ranked, b: Ranked| ranks_above(a, b)
}

/// The shelf that `tiles` make: ranked, cut to `limit`, numbers dropped.
pub open spec fn shelf_of(sorted: Seq<Ranked>, limit: nat) -> Seq<Shelf> {
    let kept = if limit < sorted.len() {
        limit as int
    } else {
        sorted.len() as int
    };
    sorted.take(kept).map_values(|t: Ranked| t.shelf)
}

/// Ranking tiles is a strict weak order, so a stable sort by it is defined.
pub proof fn lemma_shelf_order_is_strict_weak()
    ensures
        strict_weak(shelf_order()),
{
}

/// On a ranked shelf, whatever the last listens and sizes: a tile never
/// comes after one with fewer direct plays, and of two with the same direct
/// plays, never after one with fewer plays of its members.
pub proof fn more_plays_rank_higher(tiles: Seq<Ranked>, sorted: Seq<Ranked>, i: int, j: int)
    requires
        is_stable_sort(sorted, tiles, shelf_order()),
        0 <= i < j < sorted.len(),
    ensures
        sorted[i].direct >= sorted[j].direct,
        sorted[i].direct == sorted[j].direct ==> sorted[i].member >= sorted[j].member,
        sorted[i].direct == sorted[j].direct && sorted[i].member == sorted[j].member
            ==> sorted[i].last >= sorted[j].last,
{
    let p = choose|p: Seq<int>| sorted_by_with(sorted, tiles, p, shelf_order());
    assert(!shelf_order()(sorted[j], sorted[i]));
}

fn ranks_before(a: &Ranked, b: &Ranked) -> (r: bool)
    ensures
        r == ranks_above(*a, *b),
{
    if a.direct != b.direct {
        return a.direct > b.direct;
    }
    if a.member != b.member {
        return a.member > b.member;
    }
    if a.last != b.last {
        return a.last > b.last;
    }
    a.shelf.tracks > b.shelf.tracks
}

/// Most played first, and stable when nothing has been played.
///
/// Four keys, each there because the one before it runs out: direct plays,
/// then plays of the members, then the last listen, and then the size of the
/// thing, which is what is left on the day every count is zero. Tiles that
/// tie on all four keep the order they came in. At most `limit` survive.
pub fn rank(tiles: Vec<Ranked>, limit: usize) -> (r: Vec<Shelf>)
    ensures
        exists|sorted: Seq<Ranked>|
            is_stable_sort(sorted, tiles@, shelf_order()) && r@ == #[trigger] shelf_of(
                sorted,
                limit as nat,
            ),
{
    proof {
        lemma_shelf_order_is_strict_weak();
    }
    let precedes = |a: &Ranked, b: &Ranked| -> (r: bool)
        ensures
            r == shelf_order()(*a, *b),
        { ranks_before(a, b) };
    let mut sorted = sort_stably(tiles, precedes, Ghost(shelf_order()));
    let ghost all = sorted@;
    sorted.truncate(limit);
    let ghost kept = sorted@;
    let mut out: Vec<Shelf> = Vec::new();
    let mut k: usize = 0;
    let n = sorted.len();
    while sorted.len() > 0
        invariant
            n == kept.len(),
            k + sorted@.len() == n,
            sorted@ == kept.subrange(k as int, n as int),
            out@ == kept.take(k as int).map_values(|t: Ranked| t.shelf),
        decreases sorted@.len(),
    {
        let tile = sorted.remove(0);
        out.push(tile.shelf);
        proof {
            assert(kept.take(k + 1) =~= kept.take(k as int).push(kept[k as int]));
        }
        k += 1;
    }
    proof {
        assert(kept.take(k as int) =~= kept);
        assert(out@ == shelf_of(all, limit as nat));
    }
    out
}

/// The tile a playlist or a group makes: named by its id and name, its
/// tracks counted, the first of them its lead, ranked on its own plays
/// (`play` as a count and when last) and on its members' plays.
pub open spec fn collection_tile_of(
    id: Seq<char>,
    name: Seq<char>,
    tracks: Seq<Seq<char>>,
    play: Option<(u32, i64)>,
    member: u32,
) -> (Seq<char>, Seq<char>, Seq<char>, Seq<char>, u32, u32, u32, u32, i64) {
    let count = match play {
        Some(p) => p.0,
        None => 0,
    };
    (
        id,
        name,
        tracks_text(tracks.len()),
        if tracks.len() > 0 {
            tracks[0]
        } else {
            Seq::empty()
        },
        tracks.len() as u32,
        count,
        count,
        member,
        match play {
            Some(p) => p.1,
            None => 0,
        },
    )
}

/// A ranked tile as plain values: the shelf's id, title, subtitle, lead,
/// track count and plays, then the direct plays, member plays and last play.
pub open spec fn tile_view(t: Ranked) -> (Seq<char>, Seq<char>, Seq<char>, Seq<char>, u32, u32, u32, u32, i64) {
    (
        t.shelf.id@,
        t.shelf.title@,
        t.shelf.subtitle@,
        t.shelf.lead@,
        t.shelf.tracks,
        t.shelf.plays,
        t.direct,
        t.member,
        t.last,
    )
}

/// The tile a playlist or a group makes on its shelf.
pub fn collection_tile(
    id: &str,
    name: &str,
    tracks: &Vec<String>,
    play: Option<(u32, i64)>,
    member: u32,
) -> (r: Ranked)
    ensures
        tile_view(r) == collection_tile_of(
            id@,
            name@,
            tracks@.map_values(|t: String| t@),
            play,
            member,
        ),
{
    let (count, last) = match play {
        Some((c, l)) => (c, l),
        None => (0, 0),
    };
    let lead = if tracks.len() > 0 {
        String::from_str(tracks[0].as_str())
    } else {
        String::new()
    };
    proof {
        if tracks@.len() > 0 {
            assert(tracks@.map_values(|t: String| t@)[0] == tracks@[0]@);
        }
    }
    Ranked {
        shelf: Shelf {
            id: String::from_str(id),
            title: String::from_str(name),
            subtitle: tracks_line(tracks.len()),
            lead,
            tracks: #[verifier::truncate] (tracks.len() as u32),
            plays: count,
        },
        direct: count,
        member,
        last,
    }
}

/// The tile an artist or an album makes: no plays of its own, since nothing
/// means "put on an artist"; its tracks' plays are the whole of it.
pub open spec fn entity_tile_of(e: LibraryEntity) -> (Seq<char>, Seq<char>, Seq<char>, Seq<char>, u32, u32, u32, u32, i64) {
    (e.name@, e.name@, e.subtitle@, e.lead@, e.tracks as u32, e.plays, 0, e.plays, e.last_played)
}

/// The artists or albums shelf, from the library tab's own tiles, so a tile
/// on the shelf and the same tile on the tab agree.
pub fn entity_shelf(entities: Vec<LibraryEntity>) -> (r: Vec<Shelf>)
    ensures
        exists|tiles: Seq<Ranked>, sorted: Seq<Ranked>|
            tiles.len() == entities@.len() && (forall|i: int|
                0 <= i < tiles.len() ==> tile_view(#[trigger] tiles[i]) == entity_tile_of(
                    entities@[i],
                )) && is_stable_sort(sorted, tiles, shelf_order()) && r@ == shelf_of(
                sorted,
                SHELF as nat,
            ),
{
    let ghost input = entities@;
    assert(input.len() <= usize::MAX) by {
        assert(entities@.len() == entities.len());
    }
    let mut rest = entities;
    let mut tiles: Vec<Ranked> = Vec::new();
    let mut i: usize = 0;
    while rest.len() > 0
        invariant
            i + rest@.len() == input.len(),
            input.len() <= usize::MAX,
            rest@ == input.subrange(i as int, input.len() as int),
            tiles@.len() == i,
            forall|k: int| 0 <= k < i ==> tile_view(#[trigger] tiles@[k]) == entity_tile_of(input[k]),
        decreases rest@.len(),
    {
        let e = rest.remove(0);
        assert(e == input[i as int]);
        let shelf = Shelf {
            id: String::from_str(e.name.as_str()),
            title: e.name,
            subtitle: e.subtitle,
            lead: e.lead,
            tracks: #[verifier::truncate] (e.tracks as u32),
            plays: e.plays,
        };
        tiles.push(Ranked { shelf, direct: 0, member: e.plays, last: e.last_played });
        i += 1;
    }
    rank(tiles, SHELF)
}

} // verus!
