use vapor_app::lookup::{
    album_queries, album_search_url, album_url, artist_search_url, downloadable, lyrics_url,
    track_query, track_search_url, track_url,
};
use vapor_app::retry::{Attempt, Next, Retries, ATTEMPTS};

#[test]
fn the_words_are_asked_for_by_artist_and_title() {
    assert_eq!(
        lyrics_url("Daft Punk", "One More Time"),
        Some("https://lrclib.net/api/get?artist_name=Daft%20Punk&track_name=One%20More%20Time".to_string())
    );
    assert_eq!(lyrics_url("Unknown Artist", "One More Time"), None);
    assert_eq!(lyrics_url("Daft Punk", "  "), None);
}

#[test]
fn an_artist_search_names_the_artist() {
    assert_eq!(
        artist_search_url("Sigur Rós"),
        Some("https://api.deezer.com/search/artist?q=Sigur%20R%C3%B3s".to_string())
    );
    assert_eq!(artist_search_url("Unknown Artist"), None);
}

#[test]
fn a_track_is_searched_with_its_artist_when_there_is_one() {
    assert_eq!(track_query("Daft Punk", "Voyager"), Some("Daft Punk Voyager".to_string()));
    assert_eq!(track_query("Unknown Artist", "Voyager"), Some("Voyager".to_string()));
    assert_eq!(track_query("Daft Punk", "Unknown Track"), None);
    assert_eq!(
        track_search_url("Daft Punk Voyager"),
        "https://api.deezer.com/search/track?q=Daft%20Punk%20Voyager"
    );
    assert_eq!(track_url(3135562), "https://api.deezer.com/track/3135562");
}

#[test]
fn an_album_is_searched_with_its_artist_first_then_alone() {
    assert_eq!(
        album_queries("Daft Punk", "Discovery"),
        vec!["Daft Punk Discovery".to_string(), "Discovery".to_string()]
    );
    assert_eq!(album_queries("", "Discovery"), vec!["Discovery".to_string()]);
    assert!(album_queries("Daft Punk", "Unknown Album").is_empty());
    assert_eq!(album_search_url("Discovery"), "https://api.deezer.com/search/album?q=Discovery");
    assert_eq!(album_url(302127), "https://api.deezer.com/album/302127");
}

#[test]
fn only_an_http_url_is_downloaded() {
    assert!(downloadable("https://cdn.example/a.jpg"));
    assert!(!downloadable(""));
    assert!(!downloadable("file:///etc/passwd"));
}

#[test]
fn an_answer_is_read_and_accepted_on_the_first_attempt() {
    let mut retries = Retries::start();
    assert_eq!(retries.next(Attempt::Answered { status: 200, retry_after: None }), Next::ReadBody);
    assert_eq!(retries.next(Attempt::Read { readable: true, again: false }), Next::Accept);
}

#[test]
fn a_refusal_backs_off_doubling_and_gives_up_after_the_last_attempt() {
    let mut retries = Retries::start();
    assert_eq!(retries.next(Attempt::Answered { status: 503, retry_after: None }), Next::AskAgain { owed_ms: 500 });
    assert_eq!(retries.next(Attempt::Unreachable), Next::AskAgain { owed_ms: 1000 });
    assert_eq!(retries.next(Attempt::Read { readable: true, again: true }), Next::AskAgain { owed_ms: 2000 });
    assert_eq!(ATTEMPTS, 4);
    assert_eq!(retries.next(Attempt::Answered { status: 429, retry_after: None }), Next::GiveUp);
}

#[test]
fn a_named_wait_is_owed_instead_of_the_backoff_and_capped() {
    let mut retries = Retries::start();
    assert_eq!(
        retries.next(Attempt::Answered { status: 429, retry_after: Some(" 2 ".into()) }),
        Next::AskAgain { owed_ms: 2000 }
    );
    assert_eq!(
        retries.next(Attempt::Answered { status: 429, retry_after: Some("600".into()) }),
        Next::AskAgain { owed_ms: 30000 }
    );
    assert_eq!(
        retries.next(Attempt::Answered { status: 500, retry_after: Some("Wed, 21 Oct 2015 07:28:00 GMT".into()) }),
        Next::AskAgain { owed_ms: 2000 }
    );
}

#[test]
fn an_answer_that_will_not_change_ends_the_lookup() {
    let mut retries = Retries::start();
    assert_eq!(retries.next(Attempt::Answered { status: 404, retry_after: None }), Next::GiveUp);
    let mut broken = Retries::start();
    assert_eq!(broken.next(Attempt::Failed), Next::GiveUp);
    let mut unreadable = Retries::start();
    assert_eq!(unreadable.next(Attempt::Read { readable: false, again: false }), Next::GiveUp);
}
