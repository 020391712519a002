use std::path::Path;
use std::time::Duration;

use vapor_app::metadata::{
    album_facts_of, album_id_of, deezer_is_throttling, encode, fingerprint, genre_of, image_mime,
    image_path, image_url_of, is_searchable, is_unknown_genre, retry_after, track_hit_of,
    track_id_of, verdict_of, Service, Verdict, ALBUM_KEYS, ARTIST_KEYS, ARTWORK_GAP_MS,
    DEEZER_GAP_MS, LONGEST_WAIT_SECS, LRCLIB_GAP_MS, USER_AGENT,
};

const REAL_ARTIST_SEARCH: &str = r#"{"data":[{"id":27,"name":"Daft Punk","picture":"https://api.deezer.com/artist/27/image","picture_small":"https://cdn-images.dzcdn.net/images/artist/638e69b9caaf9f9f3f8826febea7b543/56x56-000000-80-0-0.jpg","picture_medium":"https://cdn-images.dzcdn.net/images/artist/638e69b9caaf9f9f3f8826febea7b543/250x250-000000-80-0-0.jpg","picture_big":"https://cdn-images.dzcdn.net/images/artist/638e69b9caaf9f9f3f8826febea7b543/500x500-000000-80-0-0.jpg","picture_xl":"https://cdn-images.dzcdn.net/images/artist/638e69b9caaf9f9f3f8826febea7b543/1000x1000-000000-80-0-0.jpg","type":"artist"}],"total":58}"#;

const REAL_ALBUM_SEARCH: &str = r#"{"data":[{"id":302127,"title":"Discovery","cover":"https://api.deezer.com/album/302127/image","cover_small":"https://cdn-images.dzcdn.net/images/cover/5718f7c81c27e0b2417e2a4c45224f8a/56x56-000000-80-0-0.jpg","cover_medium":"https://cdn-images.dzcdn.net/images/cover/5718f7c81c27e0b2417e2a4c45224f8a/250x250-000000-80-0-0.jpg","cover_big":"https://cdn-images.dzcdn.net/images/cover/5718f7c81c27e0b2417e2a4c45224f8a/500x500-000000-80-0-0.jpg","cover_xl":"https://cdn-images.dzcdn.net/images/cover/5718f7c81c27e0b2417e2a4c45224f8a/1000x1000-000000-80-0-0.jpg","genre_id":106,"nb_tracks":14,"record_type":"album","explicit_lyrics":false,"type":"album"}],"total":300}"#;

const REAL_ALBUM_FULL: &str = r#"{"id":302127,"title":"Discovery","artist":{"name":"Daft Punk"},"record_type":"album","nb_tracks":14,"genres":{"data":[{"id":106,"name":"Electro"}]},"cover_xl":"https://cdn-images.dzcdn.net/images/cover/5718f7c81c27e0b2417e2a4c45224f8a/1000x1000-000000-80-0-0.jpg","tracks":{"data":[{"id":3135553,"title":"One More Time"},{"id":3135554,"title":"Aerodynamic"},{"id":3135555,"title":"Digital Love"},{"id":3135556,"title":"Harder, Better, Faster, Stronger"},{"id":3135557,"title":"Crescendolls"},{"id":3135558,"title":"Nightvision"},{"id":3135559,"title":"Superheroes"},{"id":3135560,"title":"High Life"},{"id":3135561,"title":"Something About Us"},{"id":3135562,"title":"Voyager"},{"id":3135563,"title":"Veridis Quo"},{"id":3135564,"title":"Short Circuit"},{"id":3135565,"title":"Face to Face"},{"id":3135566,"title":"Too Long"}]}}"#;

#[test]
fn the_user_agent_names_the_app_its_version_and_somewhere_to_complain() {
    assert!(USER_AGENT.starts_with("VaporMusic/"), "{USER_AGENT}");
    let (_, rest) = USER_AGENT.split_once('/').expect("a version after the name");
    let (version, contact) = rest.split_once(' ').expect("a contact after the version");
    assert!(
        version.split('.').count() >= 3 && version.starts_with(|c: char| c.is_ascii_digit()),
        "the version is not a version: {version}"
    );
    assert!(
        contact.starts_with("(http") || contact.contains('@'),
        "no contact url or address: {contact}"
    );
}

#[test]
fn a_url_is_placed_by_its_host_and_not_by_its_query() {
    assert_eq!(
        Service::of("https://api.deezer.com/search/track?q=x"),
        Some(Service::Deezer)
    );
    assert_eq!(
        Service::of("https://lrclib.net/api/get?artist_name=a"),
        Some(Service::Lrclib)
    );
    assert_eq!(
        Service::of("https://cdn-images.dzcdn.net/images/cover/x.jpg"),
        Some(Service::Artwork)
    );
    assert_eq!(
        Service::of("https://lrclib.net.example.com/x"),
        Some(Service::Artwork),
        "a host that merely begins with a known one is not that service"
    );
    assert_eq!(
        Service::of("https://example.com/track?q=api.deezer.com"),
        Some(Service::Artwork),
        "a query naming a service is not a request to it"
    );
    assert_eq!(Service::of("not a url"), None);
}

#[test]
fn a_refusal_is_retried_and_an_answer_is_not() {
    assert_eq!(verdict_of(200), Verdict::Keep);
    assert_eq!(verdict_of(429), Verdict::Wait(None));
    assert_eq!(verdict_of(503), Verdict::Wait(None));
    assert_eq!(verdict_of(500), Verdict::Wait(None));
    assert_eq!(verdict_of(404), Verdict::Drop);
    assert_eq!(verdict_of(403), Verdict::Drop);
}

#[test]
fn deezers_quota_refusal_arrives_wearing_a_200() {
    assert!(deezer_is_throttling(
        r#"{"error":{"type":"Exception","message":"Quota limit exceeded","code":4}}"#
    ));
    assert!(
        deezer_is_throttling(r#"{"error":{"code":"4"}}"#),
        "the code is sent as a string on at least one of their error paths"
    );
    assert!(deezer_is_throttling(r#"{"error":{"code":700}}"#));
    assert!(
        !deezer_is_throttling(
            r#"{"error":{"type":"DataException","message":"no data","code":800}}"#
        ),
        "\"we do not have this track\" is an answer, and re-asking wastes \
         three more requests on it"
    );
    assert!(!deezer_is_throttling(REAL_ALBUM_FULL));
    assert!(!deezer_is_throttling("not json at all"));
}

#[test]
fn a_named_wait_is_taken_but_capped() {
    assert_eq!(retry_after("2"), Some(Duration::from_secs(2)));
    assert_eq!(retry_after(" 5 "), Some(Duration::from_secs(5)));
    assert_eq!(
        retry_after("600"),
        Some(Duration::from_secs(LONGEST_WAIT_SECS)),
        "a ten-minute wait parks a thread; the request is abandoned instead"
    );
    assert_eq!(retry_after("Wed, 21 Oct 2015 07:28:00 GMT"), None);
}

#[test]
fn each_service_keeps_its_own_gap() {
    assert_eq!(Service::Deezer.gap(), Duration::from_millis(DEEZER_GAP_MS));
    assert_eq!(Service::Lrclib.gap(), Duration::from_millis(LRCLIB_GAP_MS));
    assert_eq!(Service::Artwork.gap(), Duration::from_millis(ARTWORK_GAP_MS));
    assert_eq!(Service::Lrclib.gap(), Duration::from_millis(300));
}

#[test]
fn the_largest_available_image_is_chosen() {
    let body = r#"{"data":[{"picture_small":"small.jpg","picture_big":"big.jpg"}]}"#;

    assert_eq!(image_url_of(body, &ARTIST_KEYS), "big.jpg");
}

#[test]
fn an_empty_search_result_yields_no_image() {
    assert_eq!(image_url_of(r#"{"data":[]}"#, &ARTIST_KEYS), "");
    assert_eq!(image_url_of(r#"{"error":{}}"#, &ALBUM_KEYS), "");
    assert_eq!(image_url_of("", &ALBUM_KEYS), "");
}

#[test]
fn an_empty_url_falls_through_to_the_next_size() {
    let body = r#"{"data":[{"cover_xl":"","cover_medium":"medium.jpg"}]}"#;

    assert_eq!(image_url_of(body, &ALBUM_KEYS), "medium.jpg");
}

#[test]
fn a_placeholder_genre_is_treated_as_no_genre() {
    assert!(is_unknown_genre("Unknown"));
    assert!(is_unknown_genre("  unknown genre "));
    assert!(is_unknown_genre(""));
    assert!(!is_unknown_genre("Ambient"));

    let body = r#"{"genres":{"data":[{"name":"Unknown"}]}}"#;
    assert_eq!(genre_of(body), "");
}

#[test]
fn a_real_genre_is_read_from_the_album_response() {
    let body = r#"{"genres":{"data":[{"name":"Electronic"}]}}"#;

    assert_eq!(genre_of(body), "Electronic");
}

#[test]
fn every_genre_the_album_names_is_kept() {
    let body = r#"{"genres":{"data":[{"name":"Electronic"},{"name":"Drum & Bass"}]}}"#;
    assert_eq!(genre_of(body), "Electronic / Drum & Bass");
}

#[test]
fn placeholders_and_repeats_do_not_survive_the_join() {
    let body = r#"{"genres":{"data":[{"name":"Unknown"},{"name":"Techno"},{"name":"techno"},{"name":""}]}}"#;
    assert_eq!(genre_of(body), "Techno");
}

#[test]
fn the_album_search_response_carries_no_genre_at_all() {
    assert_eq!(
        genre_of(REAL_ALBUM_SEARCH),
        "",
        "if this ever returns a genre, Deezer changed the search response \
         and `album` can go back to one request"
    );
    assert!(image_url_of(REAL_ALBUM_SEARCH, &ALBUM_KEYS).ends_with("1000x1000-000000-80-0-0.jpg"));
}

#[test]
fn the_full_album_response_names_the_genre() {
    assert_eq!(album_id_of(REAL_ALBUM_SEARCH), Some(302127));
    assert_eq!(genre_of(REAL_ALBUM_FULL), "Electro");
}

#[test]
fn the_full_album_response_names_the_whole_tracklist() {
    let facts = album_facts_of(REAL_ALBUM_FULL).expect("a full album document parses");
    assert_eq!(facts.id, 302127);
    assert_eq!(facts.title, "Discovery");
    assert_eq!(facts.artist, "Daft Punk");
    assert_eq!(facts.record_type, "album");
    assert_eq!(facts.nb_tracks, 14);
    assert_eq!(facts.tracks.len(), 14);
    assert_eq!(
        facts.tracks.first().map(String::as_str),
        Some("One More Time")
    );
    assert_eq!(facts.tracks.last().map(String::as_str), Some("Too Long"));
    assert!(facts.is_usable());
}

#[test]
fn an_album_search_hit_is_not_mistaken_for_a_full_album() {
    assert_eq!(
        album_facts_of(REAL_ALBUM_SEARCH),
        None,
        "the search response has no tracks.data and must not parse as facts"
    );
    assert_eq!(album_facts_of("not json"), None);
    assert_eq!(album_facts_of("{}"), None);
}

#[test]
fn the_track_count_is_never_less_than_the_tracks_listed() {
    let body = r#"{"id":1,"nb_tracks":2,"tracks":{"data":[{"title":"A"},{"title":"B"},{"title":"C"}]}}"#;
    let facts = album_facts_of(body).expect("parses");
    assert_eq!(
        facts.nb_tracks, 3,
        "the listed tracks outnumbered the stated count"
    );
}

#[test]
fn the_artist_ladder_matches_what_deezer_sends() {
    let url = image_url_of(REAL_ARTIST_SEARCH, &ARTIST_KEYS);
    assert!(
        url.contains("1000x1000"),
        "expected the xl rung of the ladder, got {url}"
    );
}

#[test]
fn a_search_response_yields_the_first_track_id() {
    let body = r#"{"data":[{"id":3786816142,"title":"Space Time"},{"id":9,"title":"Other"}],"total":2}"#;
    assert_eq!(track_id_of(body), Some(3786816142));
    assert_eq!(track_id_of(r#"{"data":[]}"#), None);
    assert_eq!(track_id_of("{}"), None);
}

#[test]
fn a_track_hit_names_its_release() {
    let body = r#"{"data":[{"id":3135553,"title":" One More Time ","duration":320,"album":{"id":302127,"title":"Discovery"}}]}"#;
    let hit = track_hit_of(body).expect("a hit");
    assert_eq!(hit.id, 3135553);
    assert_eq!(hit.title, "One More Time");
    assert_eq!(hit.duration, 320);
    assert_eq!(hit.album_id, 302127);
    assert_eq!(hit.album_title, "Discovery");
    assert_eq!(track_hit_of(r#"{"data":[{"title":"no id"}]}"#), None);
    assert_eq!(track_hit_of("not json"), None);
}

#[test]
fn an_album_without_an_id_or_tracks_is_not_usable() {
    let body = r#"{"id":0,"tracks":{"data":[]}}"#;
    let facts = album_facts_of(body).expect("parses");
    assert!(!facts.is_usable());
}

#[test]
fn the_parsers_placeholders_are_not_searched_for() {
    assert!(!is_searchable("Unknown Artist"));
    assert!(!is_searchable("Unknown Album"));
    assert!(!is_searchable("   "));
    assert!(is_searchable("Aphex Twin"));
}

#[test]
fn an_image_is_named_by_its_url_not_by_its_track() {
    let dir = std::path::Path::new("/data");
    let a = image_path(dir, "https://cdn.example/cover/abc/1000x1000.jpg");
    let b = image_path(dir, "https://cdn.example/cover/abc/1000x1000.jpg");
    assert_eq!(a, b);

    let other = image_path(dir, "https://cdn.example/cover/xyz/1000x1000.jpg");
    assert_ne!(a, other);
    assert_eq!(a.extension().and_then(|e| e.to_str()), Some("jpg"));
}

#[test]
fn an_extensionless_url_falls_back_to_jpg() {
    let dir = std::path::Path::new("/data");
    assert_eq!(
        image_path(dir, "https://cdn.example/cover/abc")
            .extension()
            .and_then(|e| e.to_str()),
        Some("jpg")
    );
    assert_eq!(
        image_path(dir, "https://cdn.example/a.png?size=xl")
            .extension()
            .and_then(|e| e.to_str()),
        Some("png")
    );
}

#[test]
fn an_image_file_is_named_by_a_hash_of_its_url() {
    let url = "https://cdn.example/cover/abc/1000x1000.jpg";
    let name = fingerprint(url);
    assert_eq!(name.len(), 16);
    assert!(name.chars().all(|c| c.is_ascii_hexdigit()));
    assert_eq!(
        image_path(Path::new("/data"), url),
        Path::new("/data").join("metadata_images").join(format!("{name}.jpg"))
    );
    assert_eq!(fingerprint(""), "cbf29ce484222325");
}

#[test]
fn the_image_type_comes_from_the_content() {
    assert_eq!(image_mime(&[0x89, b'P', b'N', b'G', 0, 0]), "image/png");
    assert_eq!(image_mime(b"GIF89a...."), "image/gif");
    assert_eq!(image_mime(b"RIFF____WEBPVP8 "), "image/webp");
    assert_eq!(image_mime(&[0xFF, 0xD8, 0xFF]), "image/jpeg");
}

#[test]
fn a_query_is_percent_encoded() {
    assert_eq!(encode("Boards of Canada"), "Boards%20of%20Canada");
    assert_eq!(encode("Sigur Rós"), "Sigur%20R%C3%B3s");
    assert_eq!(encode("a&b=c"), "a%26b%3Dc");
}
