use vapor_app::audio_window::{keeps_audio, KEEP_AHEAD, KEEP_BEHIND};
use vapor_app::local::sort_files;
use vapor_app::recordings::{first_copies, genre_choice, recording_key, release_vote};
use vapor_app::shell::{skip_key, split_skip_key};

#[test]
fn two_copies_of_a_recording_share_a_key() {
    let a = recording_key(None, "Bocca di rosa", None, "Fabrizio De André", "/a.m4a");
    let b = recording_key(Some("  BOCCA DI ROSA "), "Bocca di rosa (1)", None, "fabrizio de andré", "/b.m4a");
    assert_eq!(a, b);
    assert_eq!(a, "bocca di rosa\u{1}fabrizio de andré");
}

#[test]
fn an_untitled_file_is_only_itself() {
    assert_eq!(recording_key(None, "", None, "Artist", "/x.mp3"), "/x.mp3");
    assert_eq!(recording_key(Some("   "), " ", Some("A"), "A", "/y.mp3"), "/y.mp3");
    assert_ne!(
        recording_key(None, "", None, "", "/one.mp3"),
        recording_key(None, "", None, "", "/two.mp3")
    );
}

#[test]
fn the_first_href_of_each_recording_survives() {
    let rows = vec![
        ("song\u{1}artist".to_string(), "/b.m4a".to_string()),
        ("song\u{1}artist".to_string(), "/a.m4a".to_string()),
        ("other\u{1}artist".to_string(), "/c.m4a".to_string()),
        ("song\u{1}artist".to_string(), "/z.m4a".to_string()),
    ];
    assert_eq!(first_copies(&rows), vec![false, true, true, false]);
    assert!(first_copies(&Vec::new()).is_empty());
}

#[test]
fn a_release_is_chosen_by_vote() {
    assert_eq!(release_vote(&vec![7, 7, 3, 0, 0, 0]), Some(7));
    assert_eq!(release_vote(&vec![3, 7]), Some(7), "a tie goes to the larger id");
    assert_eq!(release_vote(&vec![0, 0]), None);
    assert_eq!(release_vote(&Vec::new()), None);
}

#[test]
fn a_skip_key_reads_back_as_its_transition() {
    let key = skip_key("/from.m4a", "/to.m4a");
    assert_eq!(split_skip_key(&key), Some(("/from.m4a".to_string(), "/to.m4a".to_string())));
    assert_eq!(split_skip_key("no separator"), None);
}

fn queue(n: usize) -> Vec<String> {
    (0..n).map(|i| format!("/t{i}")).collect()
}

#[test]
fn the_window_around_the_current_track_keeps_its_audio() {
    let q = queue(20);
    assert_eq!(KEEP_BEHIND, 3);
    assert_eq!(KEEP_AHEAD, 5);
    assert!(keeps_audio(false, None, &q, Some(10), "/t10"));
    assert!(keeps_audio(false, None, &q, Some(10), "/t7"));
    assert!(!keeps_audio(false, None, &q, Some(10), "/t6"));
    assert!(keeps_audio(false, None, &q, Some(10), "/t15"));
    assert!(!keeps_audio(false, None, &q, Some(10), "/t16"));
    assert!(keeps_audio(false, None, &q, Some(19), "/t19"));
}

#[test]
fn a_pinned_or_playing_track_is_kept_and_nothing_else_without_a_queue() {
    let q = queue(3);
    assert!(keeps_audio(true, None, &q, None, "/elsewhere"));
    assert!(keeps_audio(false, Some("/now"), &q, None, "/now"));
    assert!(!keeps_audio(false, Some("/now"), &q, None, "/t0"));
    assert!(!keeps_audio(false, None, &Vec::new(), Some(0), "/t0"));
}

#[test]
fn a_scan_lists_its_files_in_order() {
    let files = vec!["/b.mp3".to_string(), "/A.mp3".to_string(), "/a.mp3".to_string(), "/a/b.mp3".to_string()];
    assert_eq!(
        sort_files(files),
        vec!["/A.mp3".to_string(), "/a.mp3".to_string(), "/a/b.mp3".to_string(), "/b.mp3".to_string()]
    );
}

#[test]
fn a_files_own_genre_wins_over_the_service() {
    assert_eq!(genre_choice("Neurofunk", Some("Drum & Bass"), Some("Electronic")), "Neurofunk");
    assert_eq!(genre_choice("  ", Some("Drum & Bass"), Some("Electronic")), "Drum & Bass");
    assert_eq!(genre_choice("", Some(" "), Some("Electronic")), "Electronic");
    assert_eq!(genre_choice("", None, Some("  ")), "");
    assert_eq!(genre_choice("", None, None), "");
}
