use vapor_app::entities::{order_entities, By, LibraryEntity};
use vapor_app::shelves::{rank, Ranked, Shelf, SHELF};

fn tile(id: &str, tracks: u32, direct: u32, member: u32, last: i64) -> Ranked {
    Ranked {
        shelf: Shelf {
            id: id.to_string(),
            title: id.to_string(),
            subtitle: String::new(),
            lead: String::new(),
            tracks,
            plays: direct,
        },
        direct,
        member,
        last,
    }
}

fn ids(shelves: &[Shelf]) -> Vec<&str> {
    shelves.iter().map(|s| s.id.as_str()).collect()
}

#[test]
fn direct_plays_rank_first_then_member_plays_then_recency_then_size() {
    let tiles = vec![
        tile("small-new", 2, 0, 0, 0),
        tile("worn-members", 5, 0, 40, 100),
        tile("played", 3, 7, 0, 50),
        tile("recent-tie", 5, 0, 40, 200),
        tile("big-new", 30, 0, 0, 0),
    ];
    let shelf = rank(tiles, SHELF);
    assert_eq!(
        ids(&shelf),
        vec!["played", "recent-tie", "worn-members", "big-new", "small-new"]
    );
}

#[test]
fn tiles_that_tie_on_every_key_keep_their_order() {
    let tiles = vec![
        tile("first", 4, 1, 1, 9),
        tile("second", 4, 1, 1, 9),
        tile("third", 4, 1, 1, 9),
    ];
    assert_eq!(ids(&rank(tiles, SHELF)), vec!["first", "second", "third"]);
}

#[test]
fn a_shelf_is_cut_to_its_length() {
    let tiles: Vec<Ranked> = (0..20).map(|i| tile(&format!("t{i}"), i, 0, 0, 0)).collect();
    let shelf = rank(tiles, SHELF);
    assert_eq!(shelf.len(), 12);
    assert_eq!(shelf[0].id, "t19");
    assert_eq!(shelf[11].id, "t8");
    assert!(rank(Vec::new(), SHELF).is_empty());
    assert!(rank(vec![tile("x", 1, 0, 0, 0)], 0).is_empty());
}

fn entity(name: &str, tracks: usize, total_tracks: u32) -> LibraryEntity {
    LibraryEntity {
        name: name.to_string(),
        subtitle: String::new(),
        tracks,
        lead: String::new(),
        plays: 0,
        last_played: 0,
        total_tracks,
        record_type: String::new(),
        incomplete: total_tracks > tracks as u32,
    }
}

fn names(entities: &[LibraryEntity]) -> Vec<&str> {
    entities.iter().map(|e| e.name.as_str()).collect()
}

#[test]
fn artists_are_biggest_first_and_then_alphabetical() {
    let mut artists = vec![
        entity("boards of canada", 1, 0),
        entity("Aphex Twin", 38, 0),
        entity("Autechre", 1, 0),
        entity("Burial", 5, 0),
    ];
    order_entities(By::Artist, &mut artists);
    assert_eq!(
        names(&artists),
        vec!["Aphex Twin", "Burial", "Autechre", "boards of canada"]
    );
}

#[test]
fn whole_albums_lead_and_the_rest_sink_by_how_nearly_whole_they_are() {
    let mut albums = vec![
        entity("One of Twelve", 1, 12),
        entity("Zebra", 10, 10),
        entity("Eleven of Twelve", 11, 12),
        entity("unknown length", 3, 0),
        entity("Half", 5, 10),
        entity("also half", 2, 4),
    ];
    order_entities(By::Album, &mut albums);
    assert_eq!(
        names(&albums),
        vec!["unknown length", "Zebra", "Eleven of Twelve", "also half", "Half", "One of Twelve"]
    );
}

#[test]
fn genres_are_alphabetical_ignoring_case() {
    let mut genres = vec![entity("techno", 1, 0), entity("Ambient", 9, 0), entity("House", 2, 0)];
    order_entities(By::Genre, &mut genres);
    assert_eq!(names(&genres), vec!["Ambient", "House", "techno"]);
}

#[test]
fn names_that_fold_to_the_same_text_keep_their_order() {
    let mut genres = vec![entity("Techno", 1, 0), entity("techno", 2, 0), entity("TECHNO", 3, 0)];
    order_entities(By::Genre, &mut genres);
    assert_eq!(names(&genres), vec!["Techno", "techno", "TECHNO"]);
}

use vapor_app::entities::{falls_short, group_rows, subtitle_for, tally, Member};
use vapor_app::shelves::{collection_tile, entity_shelf};

#[test]
fn rows_gather_into_tiles_in_the_order_they_arrived() {
    let keys = vec![
        Some("Burial".to_string()),
        None,
        Some("Aphex Twin".to_string()),
        Some("Burial".to_string()),
        Some("Aphex Twin".to_string()),
    ];
    let groups = group_rows(&keys);
    assert_eq!(
        groups,
        vec![("Burial".to_string(), vec![0, 3]), ("Aphex Twin".to_string(), vec![2, 4])]
    );
    assert!(group_rows(&vec![None, None]).is_empty());
}

fn member(artist: &str, artist_known: bool, album: &str, album_known: bool) -> Member {
    Member { artist: artist.into(), artist_known, album: album.into(), album_known }
}

#[test]
fn a_tile_says_what_sets_it_apart() {
    let compilation = vec![member("A", true, "Mix", true), member("B", true, "Mix", true)];
    let single = vec![member("Burial", true, "Untrue", true), member("Burial", true, "Untrue", true)];
    let unknown = vec![member("?", false, "?", false)];

    assert_eq!(subtitle_for(By::Album, &compilation), "Various artists");
    assert_eq!(subtitle_for(By::Album, &single), "Burial");
    assert_eq!(subtitle_for(By::Album, &unknown), "");

    assert_eq!(subtitle_for(By::Genre, &compilation), "2 artists");
    assert_eq!(subtitle_for(By::Genre, &single), "1 artist");
    assert_eq!(subtitle_for(By::Genre, &unknown), "1 tracks");

    let two_albums = vec![member("Burial", true, "Untrue", true), member("Burial", true, "Kindred", true)];
    assert_eq!(subtitle_for(By::Artist, &two_albums), "2 albums");
    assert_eq!(subtitle_for(By::Artist, &single), "1 album");
    assert_eq!(subtitle_for(By::Artist, &unknown), "1 tracks");
}

#[test]
fn a_playlist_tile_counts_its_tracks_and_leads_with_the_first() {
    let tracks = vec!["/a.m4a".to_string(), "/b.m4a".to_string()];
    let tile = collection_tile("p1", "Morning", &tracks, Some((4, 1700)), 9);
    assert_eq!(tile.shelf.id, "p1");
    assert_eq!(tile.shelf.title, "Morning");
    assert_eq!(tile.shelf.subtitle, "2 tracks");
    assert_eq!(tile.shelf.lead, "/a.m4a");
    assert_eq!((tile.shelf.tracks, tile.shelf.plays), (2, 4));
    assert_eq!((tile.direct, tile.member, tile.last), (4, 9, 1700));

    let empty = collection_tile("g1", "Nothing yet", &Vec::new(), None, 0);
    assert_eq!(empty.shelf.lead, "");
    assert_eq!(empty.shelf.subtitle, "0 tracks");
    assert_eq!((empty.direct, empty.last), (0, 0));
}

#[test]
fn an_artist_shelf_ranks_by_the_plays_of_its_tracks() {
    let mut quiet = entity("Quiet", 30, 0);
    quiet.plays = 1;
    let mut loud = entity("Loud", 2, 0);
    loud.plays = 50;
    let shelf = entity_shelf(vec![quiet, loud]);
    assert_eq!(ids(&shelf), vec!["Loud", "Quiet"]);
    assert_eq!(shelf[0].plays, 50);
    assert_eq!(shelf[1].tracks, 30);
}

#[test]
fn a_tile_adds_up_its_listens_and_keeps_the_latest() {
    assert_eq!(tally(&vec![]), (0, 0));
    assert_eq!(tally(&vec![None, None]), (0, 0));
    assert_eq!(
        tally(&vec![Some((3, 1_700_000_000)), None, Some((2, 1_600_000_000))]),
        (5, 1_700_000_000),
    );
    assert_eq!(tally(&vec![Some((0, -5))]), (0, -5));
}

#[test]
fn only_a_known_length_past_what_is_held_is_short() {
    assert!(falls_short(12, 11));
    assert!(!falls_short(12, 12));
    assert!(!falls_short(12, 13));
    assert!(!falls_short(0, 3));
}
