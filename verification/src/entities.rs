//! The library tabs: artists, albums and genres as tiles, and the order each
//! tab is read in.

use vstd::prelude::*;

use crate::sorting::{is_stable_sort, sort_stably, strict_weak};
use vstd::string::{StrSliceExecFns, StringExecFns};

use crate::text::{
    chars_eq, chars_of, dec, dec_chars, first_from, lemma_text_order, string_of, text_less, text_lt,
};

verus! {

/// Which tab a set of tiles is for.
#[derive(Clone, Copy, Debug, PartialEq, Eq)]
pub enum By {
    Artist,
    Album,
    Genre,
}

/// One tile on a library tab.
#[derive(Clone, Debug, PartialEq)]
pub struct LibraryEntity {
    /// Album title, or artist name.
    pub name: String,
    /// The album's artist, or for an artist the number of albums.
    pub subtitle: String,
    pub tracks: usize,
    /// A track from it, for the cover and for what plays when it is pressed.
    pub lead: String,
    /// Listens to its tracks, added up.
    pub plays: u32,
    /// When one of its tracks was last listened to, unix seconds; 0 for never.
    pub last_played: i64,
    /// How many tracks the release has; 0 means nobody knows.
    pub total_tracks: u32,
    /// `"album"`, `"single"` or `"ep"`; empty when unmatched.
    pub record_type: String,
    /// True when a known length exceeds what is held.
    pub incomplete: bool,
}

/// What `str::to_lowercase` makes of a text: each character replaced by its
/// Unicode lower-case mapping, which is Unicode's table and is only named
/// here.
pub uninterp spec fn lowercase(text: Seq<char>) -> Seq<char>;

/// `text` in lower case.
///
/// Wraps `str::to_lowercase`; the contract claims only that the result is
/// the lower-case mapping of `text`, the same every time.
#[verifier::external_body]
pub(crate) fn to_lower(text: &str) -> (r: String)
    ensures
        r@ == lowercase(text@),
{
    text.to_lowercase()
}

/// How much of a release is held, as a fraction: an unknown length, or a
/// held count at or past the length, is the whole of it.
pub open spec fn held(e: LibraryEntity) -> (int, int) {
    if e.total_tracks == 0 || e.tracks >= e.total_tracks {
        (1, 1)
    } else {
        (e.tracks as int, e.total_tracks as int)
    }
}

/// More of `a`'s release is held than of `b`'s.
pub open spec fn more_complete(a: LibraryEntity, b: LibraryEntity) -> bool {
    held(a).0 * held(b).1 > held(b).0 * held(a).1
}

/// The name as the tabs compare it.
pub open spec fn folded(e: LibraryEntity) -> Seq<char> {
    lowercase(e.name@)
}

/// `a` comes before `b` on the `by` tab.
///
/// Artists: more tracks first, then by name. Albums: whole records first,
/// then the more nearly whole, then by name. Genres: by name. Names compare
/// in lower case.
pub open spec fn entity_before(by: By, a: LibraryEntity, b: LibraryEntity) -> bool {
    match by {
        By::Artist => a.tracks > b.tracks || (a.tracks == b.tracks && text_lt(folded(a), folded(b))),
        By::Album => (!a.incomplete && b.incomplete) || (a.incomplete == b.incomplete && (
        more_complete(a, b) || (!more_complete(b, a) && text_lt(folded(a), folded(b))))),
        By::Genre => text_lt(folded(a), folded(b)),
    }
}

/// [`entity_before`] as a relation.
pub open spec fn entity_order(by: By) -> spec_fn(LibraryEntity, LibraryEntity) -> bool {
    |a: LibraryEntity, b: LibraryEntity| entity_before(by, a, b)
}

proof fn lemma_fraction_order(an: int, ad: int, bn: int, bd: int, cn: int, cd: int)
    requires
        ad > 0,
        bd > 0,
        cd > 0,
    ensures
        an * bd > bn * ad && bn * cd >= cn * bd ==> an * cd > cn * ad,
        an * bd >= bn * ad && bn * cd > cn * bd ==> an * cd > cn * ad,
        an * bd >= bn * ad && bn * cd >= cn * bd ==> an * cd >= cn * ad,
{
    if an * bd > bn * ad && bn * cd >= cn * bd {
        assert(an * bd * cd > bn * ad * cd) by (nonlinear_arith)
            requires
                an * bd > bn * ad,
                cd > 0,
        ;
        assert(bn * cd * ad >= cn * bd * ad) by (nonlinear_arith)
            requires
                bn * cd >= cn * bd,
                ad > 0,
        ;
        assert(an * cd > cn * ad) by (nonlinear_arith)
            requires
                an * bd * cd > bn * ad * cd,
                bn * cd * ad >= cn * bd * ad,
                bd > 0,
        ;
    }
    if an * bd >= bn * ad && bn * cd > cn * bd {
        assert(an * bd * cd >= bn * ad * cd) by (nonlinear_arith)
            requires
                an * bd >= bn * ad,
                cd > 0,
        ;
        assert(bn * cd * ad > cn * bd * ad) by (nonlinear_arith)
            requires
                bn * cd > cn * bd,
                ad > 0,
        ;
        assert(an * cd > cn * ad) by (nonlinear_arith)
            requires
                an * bd * cd >= bn * ad * cd,
                bn * cd * ad > cn * bd * ad,
                bd > 0,
        ;
    }
    if an * bd >= bn * ad && bn * cd >= cn * bd {
        assert(an * bd * cd >= bn * ad * cd) by (nonlinear_arith)
            requires
                an * bd >= bn * ad,
                cd > 0,
        ;
        assert(bn * cd * ad >= cn * bd * ad) by (nonlinear_arith)
            requires
                bn * cd >= cn * bd,
                ad > 0,
        ;
        assert(an * cd >= cn * ad) by (nonlinear_arith)
            requires
                an * bd * cd >= bn * ad * cd,
                bn * cd * ad >= cn * bd * ad,
                bd > 0,
        ;
    }
}

proof fn lemma_entity_triple(by: By, a: LibraryEntity, b: LibraryEntity, c: LibraryEntity)
    ensures
        !entity_before(by, a, a),
        entity_before(by, a, b) && entity_before(by, b, c) ==> entity_before(by, a, c),
        !entity_before(by, a, b) && !entity_before(by, b, c) ==> !entity_before(by, a, c),
{
    lemma_text_order(folded(a), folded(b), folded(c));
    lemma_text_order(folded(c), folded(b), folded(a));
    lemma_fraction_order(held(a).0, held(a).1, held(b).0, held(b).1, held(c).0, held(c).1);
    lemma_fraction_order(held(c).0, held(c).1, held(b).0, held(b).1, held(a).0, held(a).1);
}

/// Each tab's order is a strict weak order, so a stable sort by it is
/// defined.
pub proof fn lemma_entity_order_is_strict_weak(by: By)
    ensures
        strict_weak(entity_order(by)),
{
    let r = entity_order(by);
    assert forall|a: LibraryEntity| !#[trigger] r(a, a) by {
        lemma_entity_triple(by, a, a, a);
    }
    assert forall|a: LibraryEntity, b: LibraryEntity, c: LibraryEntity|
        #[trigger] r(a, b) && #[trigger] r(b, c) implies r(a, c) by {
        lemma_entity_triple(by, a, b, c);
    }
    assert forall|a: LibraryEntity, b: LibraryEntity, c: LibraryEntity|
        !#[trigger] r(a, b) && !#[trigger] r(b, c) implies !r(a, c) by {
        lemma_entity_triple(by, a, b, c);
    }
}

fn folded_name(e: &LibraryEntity) -> (r: Vec<char>)
    ensures
        r@ == folded(*e),
{
    let lower = to_lower(e.name.as_str());
    chars_of(lower.as_str())
}

/// The held fraction, in numbers that multiply without overflow.
fn held_of(e: &LibraryEntity) -> (r: (u64, u64))
    ensures
        r.0 == held(*e).0,
        r.1 == held(*e).1,
        r.0 <= 0xffff_ffff,
        1 <= r.1 <= 0xffff_ffff,
{
    if e.total_tracks == 0 || e.tracks >= e.total_tracks as usize {
        (1, 1)
    } else {
        (e.tracks as u64, e.total_tracks as u64)
    }
}

fn more_complete_than(a: &LibraryEntity, b: &LibraryEntity) -> (r: bool)
    ensures
        r == more_complete(*a, *b),
{
    let (an, ad) = held_of(a);
    let (bn, bd) = held_of(b);
    assert(an * bd <= 0xffff_ffff * 0xffff_ffff) by (nonlinear_arith)
        requires
            an <= 0xffff_ffff,
            bd <= 0xffff_ffff,
    ;
    assert(bn * ad <= 0xffff_ffff * 0xffff_ffff) by (nonlinear_arith)
        requires
            bn <= 0xffff_ffff,
            ad <= 0xffff_ffff,
    ;
    an * bd > bn * ad
}

fn entity_precedes(by: By, a: &LibraryEntity, b: &LibraryEntity) -> (r: bool)
    ensures
        r == entity_before(by, *a, *b),
{
    match by {
        By::Artist => {
            if a.tracks != b.tracks {
                return a.tracks > b.tracks;
            }
            let fa = folded_name(a);
            let fb = folded_name(b);
            text_less(fa.as_slice(), fb.as_slice())
        },
        By::Album => {
            if a.incomplete != b.incomplete {
                return !a.incomplete;
            }
            if more_complete_than(a, b) {
                return true;
            }
            if more_complete_than(b, a) {
                return false;
            }
            let fa = folded_name(a);
            let fb = folded_name(b);
            text_less(fa.as_slice(), fb.as_slice())
        },
        By::Genre => {
            let fa = folded_name(a);
            let fb = folded_name(b);
            text_less(fa.as_slice(), fb.as_slice())
        },
    }
}

/// Put the tiles in the order the tab is read in.
///
/// Artists biggest first, so the one with thirty-eight tracks leads and the
/// long tail of single tracks is alphabetical. Albums whole first and
/// alphabetical, then the rest by how close to whole they are. Genres
/// alphabetical. Tiles the order cannot tell apart keep the order they came
/// in.
pub fn order_entities(by: By, entities: &mut Vec<LibraryEntity>)
    ensures
        is_stable_sort(final(entities)@, old(entities)@, entity_order(by)),
{
    proof {
        lemma_entity_order_is_strict_weak(by);
    }
    let mut items: Vec<LibraryEntity> = Vec::new();
    std::mem::swap(entities, &mut items);
    let precedes = |a: &LibraryEntity, b: &LibraryEntity| -> (r: bool)
        ensures
            r == entity_order(by)(*a, *b),
        { entity_precedes(by, a, b) };
    *entities = sort_stably(items, precedes, Ghost(entity_order(by)));
}

// ---------------------------------------------------------------------------
// Gathering the tiles
// ---------------------------------------------------------------------------

/// Where the group keyed `k` is among `groups`, or `groups.len()`.
pub open spec fn group_index(groups: Seq<(Seq<char>, Seq<int>)>, k: Seq<char>) -> int {
    first_from(groups.len() as int, |j: int| groups[j].0 == k, 0)
}

/// The first `n` rows gathered into groups: each row with a key joins the
/// group of that key, a new group at the end when it is the first of it;
/// rows without one (an unknown or empty name) join nothing. Groups keep the
/// order their first row came in, and each keeps its rows in order.
pub open spec fn grouped(keys: Seq<Option<Seq<char>>>, n: nat) -> Seq<(Seq<char>, Seq<int>)>
    decreases n,
{
    if n == 0 {
        Seq::empty()
    } else {
        let g = grouped(keys, (n - 1) as nat);
        match keys[n - 1] {
            None => g,
            Some(k) => {
                let j = group_index(g, k);
                if j < g.len() {
                    g.update(j, (k, g[j].1.push(n - 1)))
                } else {
                    g.push((k, seq![n - 1]))
                }
            },
        }
    }
}

/// One group, as plain values.
pub open spec fn group_view(g: (String, Vec<usize>)) -> (Seq<char>, Seq<int>) {
    (g.0@, g.1@.map_values(|i: usize| i as int))
}

/// The keys, as plain values.
pub open spec fn keys_view(keys: Seq<Option<String>>) -> Seq<Option<Seq<char>>> {
    keys.map_values(|k: Option<String>| match k {
        Some(s) => Some(s@),
        None => None,
    })
}

fn find_group(groups: &Vec<(String, Vec<usize>)>, k: &str) -> (r: usize)
    ensures
        r == group_index(groups@.map_values(|g: (String, Vec<usize>)| group_view(g)), k@),
{
    let ghost v = groups@.map_values(|g: (String, Vec<usize>)| group_view(g));
    let kc = chars_of(k);
    let mut j: usize = 0;
    while j < groups.len()
        invariant
            j <= groups@.len(),
            kc@ == k@,
            v == groups@.map_values(|g: (String, Vec<usize>)| group_view(g)),
            group_index(v, k@) == first_from(v.len() as int, |m: int| v[m].0 == k@, j as int),
        decreases groups@.len() - j,
    {
        let other = chars_of(groups[j].0.as_str());
        assert(v[j as int].0 == groups@[j as int].0@);
        if crate::text::chars_eq(other.as_slice(), kc.as_slice()) {
            return j;
        }
        j += 1;
    }
    j
}

/// Gather rows into tiles by key, in the order the rows arrived: the rows
/// come sorted, and the tiles are ordered afterwards by the tab's own rule.
pub fn group_rows(keys: &Vec<Option<String>>) -> (r: Vec<(String, Vec<usize>)>)
    ensures
        r@.map_values(|g: (String, Vec<usize>)| group_view(g)) == grouped(
            keys_view(keys@),
            keys@.len() as nat,
        ),
{
    let ghost kv = keys_view(keys@);
    let mut out: Vec<(String, Vec<usize>)> = Vec::new();
    let mut i: usize = 0;
    while i < keys.len()
        invariant
            i <= keys@.len(),
            kv == keys_view(keys@),
            out@.map_values(|g: (String, Vec<usize>)| group_view(g)) == grouped(kv, i as nat),
        decreases keys@.len() - i,
    {
        let ghost before = out@.map_values(|g: (String, Vec<usize>)| group_view(g));
        match &keys[i] {
            None => {
                assert(kv[i as int] is None);
            },
            Some(k) => {
                assert(kv[i as int] == Some(k@));
                let j = find_group(&out, k.as_str());
                if j < out.len() {
                    let ghost old_out = out@;
                    let mut members = out[j].1.clone();
                    assert(members@ == old_out[j as int].1@);
                    members.push(i);
                    let name = String::from_str(k.as_str());
                    let ghost entry = (name, members);
                    out.set(j, (name, members));
                    proof {
                        assert(out@ == old_out.update(j as int, entry));
                        assert(before[j as int] == group_view(old_out[j as int]));
                        assert(group_view(entry).1 =~= before[j as int].1.push(i as int));
                        let after = out@.map_values(|g: (String, Vec<usize>)| group_view(g));
                        assert(after =~= before.update(
                            j as int,
                            (k@, before[j as int].1.push(i as int)),
                        ));
                    }
                } else {
                    let ghost old_out = out@;
                    let mut members: Vec<usize> = Vec::new();
                    members.push(i);
                    let name = String::from_str(k.as_str());
                    let ghost entry = (name, members);
                    out.push((name, members));
                    proof {
                        assert(out@ == old_out.push(entry));
                        assert(group_view(entry).1 =~= seq![i as int]);
                        let after = out@.map_values(|g: (String, Vec<usize>)| group_view(g));
                        assert(after =~= before.push((k@, seq![i as int])));
                    }
                }
            },
        }
        i += 1;
    }
    out
}

/// What a tile's subtitle is made from, per member track: its artist and
/// album, and whether each was known rather than guessed from the path.
#[derive(Clone, Debug)]
pub struct Member {
    pub artist: String,
    pub artist_known: bool,
    pub album: String,
    pub album_known: bool,
}

/// The known artists (or albums) of `members`, in order, repeats included.
pub open spec fn known_names(members: Seq<Member>, artists: bool) -> Seq<Seq<char>>
    decreases members.len(),
{
    if members.len() == 0 {
        Seq::empty()
    } else {
        let rest = known_names(members.drop_last(), artists);
        let m = members.last();
        if artists && m.artist_known {
            rest.push(m.artist@)
        } else if !artists && m.album_known {
            rest.push(m.album@)
        } else {
            rest
        }
    }
}

/// How many different names there are in `names`.
pub open spec fn distinct(names: Seq<Seq<char>>) -> nat
    decreases names.len(),
{
    if names.len() == 0 {
        0
    } else {
        distinct(names.drop_last()) + if names.drop_last().contains(names.last()) {
            0nat
        } else {
            1nat
        }
    }
}

/// The line under a tile: for a genre, how many artists; for an artist, how
/// many albums; for an album, its artist, or "Various artists" for a
/// compilation. With nothing known, a genre or an artist says how many
/// tracks, and an album says nothing.
pub open spec fn subtitle_text(by: By, members: Seq<Member>) -> Seq<char> {
    match by {
        By::Genre => {
            let n = distinct(known_names(members, true));
            if n == 0 {
                dec(members.len()) + " tracks"@
            } else if n == 1 {
                "1 artist"@
            } else {
                dec(n) + " artists"@
            }
        },
        By::Artist => {
            let n = distinct(known_names(members, false));
            if n == 0 {
                dec(members.len()) + " tracks"@
            } else if n == 1 {
                "1 album"@
            } else {
                dec(n) + " albums"@
            }
        },
        By::Album => {
            let names = known_names(members, true);
            let n = distinct(names);
            if n == 0 {
                Seq::empty()
            } else if n == 1 {
                names[0]
            } else {
                "Various artists"@
            }
        },
    }
}

fn known_names_of(members: &Vec<Member>, artists: bool) -> (r: Vec<Vec<char>>)
    ensures
        r@.map_values(|n: Vec<char>| n@) == known_names(members@, artists),
{
    let mut out: Vec<Vec<char>> = Vec::new();
    let mut i: usize = 0;
    while i < members.len()
        invariant
            i <= members@.len(),
            out@.map_values(|n: Vec<char>| n@) == known_names(members@.take(i as int), artists),
        decreases members@.len() - i,
    {
        let ghost before = out@.map_values(|n: Vec<char>| n@);
        let m = &members[i];
        assert(members@.take(i + 1).drop_last() =~= members@.take(i as int));
        assert(members@.take(i + 1).last() == members@[i as int]);
        if artists && m.artist_known {
            out.push(chars_of(m.artist.as_str()));
        } else if !artists && m.album_known {
            out.push(chars_of(m.album.as_str()));
        }
        assert(out@.map_values(|n: Vec<char>| n@) =~= known_names(members@.take(i + 1), artists));
        i += 1;
    }
    assert(members@.take(i as int) =~= members@);
    out
}

fn appears_before(names: &Vec<Vec<char>>, i: usize) -> (r: bool)
    requires
        i < names@.len(),
    ensures
        r == names@.map_values(|n: Vec<char>| n@).take(i as int).contains(names@[i as int]@),
{
    let ghost v = names@.map_values(|n: Vec<char>| n@);
    let mut j: usize = 0;
    while j < i
        invariant
            j <= i < names@.len(),
            v == names@.map_values(|n: Vec<char>| n@),
            forall|m: int| 0 <= m < j ==> #[trigger] v[m] != v[i as int],
        decreases i - j,
    {
        if chars_eq(names[j].as_slice(), names[i].as_slice()) {
            assert(v.take(i as int)[j as int] == v[i as int]);
            return true;
        }
        j += 1;
    }
    assert forall|m: int| 0 <= m < v.take(i as int).len() implies #[trigger] v.take(i as int)[m]
        != v[i as int] by {
        assert(v.take(i as int)[m] == v[m]);
    }
    false
}

fn count_distinct(names: &Vec<Vec<char>>) -> (r: usize)
    ensures
        r == distinct(names@.map_values(|n: Vec<char>| n@)),
        r <= names@.len(),
{
    let ghost v = names@.map_values(|n: Vec<char>| n@);
    let mut n: usize = 0;
    let mut i: usize = 0;
    while i < names.len()
        invariant
            i <= names@.len(),
            v == names@.map_values(|n: Vec<char>| n@),
            n == distinct(v.take(i as int)),
            n <= i,
        decreases names@.len() - i,
    {
        let seen = appears_before(names, i);
        assert(v.take(i + 1).drop_last() =~= v.take(i as int));
        assert(v.take(i + 1).last() == v[i as int]);
        if !seen {
            n += 1;
        }
        i += 1;
    }
    assert(v.take(i as int) =~= v);
    n
}

proof fn lemma_one_name_is_the_first(names: Seq<Seq<char>>)
    requires
        distinct(names) == 1,
    ensures
        names.len() > 0,
        forall|k: int| 0 <= k < names.len() ==> #[trigger] names[k] == names[0],
    decreases names.len(),
{
    let rest = names.drop_last();
    if rest.len() == 0 {
    } else {
        if distinct(rest) == 0 {
            lemma_no_names(rest);
        } else {
            lemma_one_name_is_the_first(rest);
            assert(rest.contains(names.last()));
            let k = choose|k: int| 0 <= k < rest.len() && rest[k] == names.last();
            assert(rest[k] == rest[0]);
            assert forall|m: int| 0 <= m < names.len() implies #[trigger] names[m] == names[0] by {
                if m < rest.len() {
                    assert(names[m] == rest[m]);
                    assert(rest[m] == rest[0]);
                }
                assert(names[0] == rest[0]);
            }
        }
    }
}

proof fn lemma_no_names(names: Seq<Seq<char>>)
    requires
        distinct(names) == 0,
    ensures
        names.len() == 0,
    decreases names.len(),
{
    if names.len() > 0 {
        lemma_no_names(names.drop_last());
    }
}

fn count_text(n: usize, unit: &str) -> (r: String)
    ensures
        r@ == dec(n as nat) + unit@,
{
    let mut out = string_of(&dec_chars(n as u64));
    out.append(unit);
    out
}

/// The line under a tile of `members` on the `by` tab.
pub fn subtitle_for(by: By, members: &Vec<Member>) -> (r: String)
    ensures
        r@ == subtitle_text(by, members@),
{
    let artists = match by {
        By::Album => true,
        By::Genre => true,
        By::Artist => false,
    };
    let names = known_names_of(members, artists);
    let n = count_distinct(&names);
    proof {
        reveal_strlit(" tracks");
        reveal_strlit("1 artist");
        reveal_strlit(" artists");
        reveal_strlit("1 album");
        reveal_strlit(" albums");
        reveal_strlit("Various artists");
    }
    match by {
        By::Genre => if n == 0 {
            count_text(members.len(), " tracks")
        } else if n == 1 {
            String::from_str("1 artist")
        } else {
            count_text(n, " artists")
        },
        By::Artist => if n == 0 {
            count_text(members.len(), " tracks")
        } else if n == 1 {
            String::from_str("1 album")
        } else {
            count_text(n, " albums")
        },
        By::Album => if n == 0 {
            String::new()
        } else if n == 1 {
            proof {
                lemma_one_name_is_the_first(names@.map_values(|x: Vec<char>| x@));
            }
            string_of(&names[0])
        } else {
            String::from_str("Various artists")
        },
    }
}

/// Listens to a tile's members added up: `plays` holds each member's count
/// and last listen, or nothing for a member never played.
pub open spec fn total_plays(plays: Seq<Option<(u32, i64)>>) -> int
    decreases plays.len(),
{
    if plays.len() == 0 {
        0
    } else {
        total_plays(plays.drop_last()) + match plays.last() {
            Some(p) => p.0 as int,
            None => 0,
        }
    }
}

/// The latest listen among a tile's members, `None` when none was played.
pub open spec fn latest(plays: Seq<Option<(u32, i64)>>) -> Option<i64>
    decreases plays.len(),
{
    if plays.len() == 0 {
        None
    } else {
        match (latest(plays.drop_last()), plays.last()) {
            (Some(a), Some(p)) => Some(
                if p.1 > a {
                    p.1
                } else {
                    a
                },
            ),
            (None, Some(p)) => Some(p.1),
            (a, None) => a,
        }
    }
}

proof fn lemma_total_plays_grows(plays: Seq<Option<(u32, i64)>>, i: int, j: int)
    requires
        0 <= i <= j <= plays.len(),
    ensures
        total_plays(plays.take(i)) <= total_plays(plays.take(j)),
    decreases j - i,
{
    if i < j {
        lemma_total_plays_grows(plays, i, j - 1);
        assert(plays.take(j).drop_last() =~= plays.take(j - 1));
    }
}

/// A tile's listens added up, and when one of its members was last listened
/// to (0 for never), both from one walk of the members so they cannot
/// disagree.
pub fn tally(plays: &Vec<Option<(u32, i64)>>) -> (r: (u32, i64))
    requires
        total_plays(plays@) <= u32::MAX,
    ensures
        r.0 == total_plays(plays@),
        r.1 == match latest(plays@) {
            Some(t) => t,
            None => 0,
        },
{
    let mut count: u32 = 0;
    let mut last: Option<i64> = None;
    let mut i: usize = 0;
    while i < plays.len()
        invariant
            i <= plays@.len(),
            count == total_plays(plays@.take(i as int)),
            last == latest(plays@.take(i as int)),
            total_plays(plays@) <= u32::MAX,
        decreases plays@.len() - i,
    {
        proof {
            assert(plays@.take(i + 1).drop_last() =~= plays@.take(i as int));
            assert(plays@.take(i + 1).last() == plays@[i as int]);
            lemma_total_plays_grows(plays@, i + 1, plays@.len() as int);
            assert(plays@.take(plays@.len() as int) =~= plays@);
        }
        match plays[i] {
            Some((c, t)) => {
                count = count + c;
                last = match last {
                    Some(a) => Some(
                        if t > a {
                            t
                        } else {
                            a
                        },
                    ),
                    None => Some(t),
                };
            },
            None => {},
        }
        i += 1;
    }
    assert(plays@.take(i as int) =~= plays@);
    (
        count,
        match last {
            Some(t) => t,
            None => 0,
        },
    )
}

/// Whether a tile with `held` tracks falls short of a release of
/// `total_tracks`, the count compared as a `u32` as the tile stores it.
/// Holding more than the release lists is a duplicate or a bonus disc, not a
/// gap, and an unknown length (0) is never short.
pub fn falls_short(total_tracks: u32, held: usize) -> (r: bool)
    ensures
        r == (total_tracks > held as u32),
{
    #[verifier::truncate]
    let h = held as u32;
    total_tracks > h
}

} // verus!
