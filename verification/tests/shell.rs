use vapor_app::clock::{millis_since, now, secs_since, unix_now};
use vapor_app::shell::{
    clean_machine_name, collection_key, default_true, id_of, mix_must_be_rearmed, skip_key,
    tracks_line, yes, CollectionRef, Exit,
};

#[test]
fn a_chosen_exit_abandons_a_mix_armed_for_a_different_track() {
    assert!(
        mix_must_be_rearmed(Some("/fools-rhythm.m4a"), "/gorillaz.m4a", false),
        "a pending mix for another track has to be dropped, or the deck wins"
    );
}

#[test]
fn choosing_what_is_already_armed_changes_nothing() {
    assert!(!mix_must_be_rearmed(Some("/same.m4a"), "/same.m4a", false));
}

#[test]
fn nothing_armed_means_nothing_to_abandon() {
    assert!(!mix_must_be_rearmed(None, "/anything.m4a", false));
}

#[test]
fn a_mix_already_under_way_is_left_alone() {
    assert!(!mix_must_be_rearmed(
        Some("/other.m4a"),
        "/chosen.m4a",
        true
    ));
}

#[test]
fn a_count_of_one_is_singular() {
    assert_eq!(tracks_line(1), "1 track");
    assert_eq!(tracks_line(0), "0 tracks");
    assert_eq!(tracks_line(12), "12 tracks");
    assert_eq!(tracks_line(1000), "1000 tracks");
}

#[test]
fn a_collection_is_keyed_by_kind_and_trimmed_id() {
    let playlist = CollectionRef { kind: "playlist".into(), id: "  p1 ".into() };
    let group = CollectionRef { kind: "group".into(), id: "g7".into() };
    assert_eq!(collection_key(&playlist), Some("playlist:p1".to_string()));
    assert_eq!(collection_key(&group), Some("group:g7".to_string()));
}

#[test]
fn an_unknown_kind_or_a_blank_id_has_no_key() {
    let odd = CollectionRef { kind: "album".into(), id: "a".into() };
    let blank = CollectionRef { kind: "playlist".into(), id: "   ".into() };
    assert_eq!(collection_key(&odd), None);
    assert_eq!(collection_key(&blank), None);
}

#[test]
fn a_skip_key_joins_the_two_hrefs_with_the_unit_separator() {
    assert_eq!(skip_key("/a.m4a", "/b.m4a"), "/a.m4a\u{1f}/b.m4a");
    assert_ne!(skip_key("/a", "b/c"), skip_key("/a/b", "c"));
}

#[test]
fn each_exit_has_its_word() {
    assert_eq!(Exit::Stay.label(), "STAY");
    assert_eq!(Exit::Follow.label(), "FOLLOW");
    assert_eq!(Exit::Switch.label(), "SWITCH");
}

#[test]
fn a_machine_name_loses_its_noise() {
    assert_eq!(clean_machine_name("  Dylans-MacBook.local \n"), Some("Dylans-MacBook".to_string()));
    assert_eq!(clean_machine_name("studio"), Some("studio".to_string()));
    assert_eq!(clean_machine_name("localhost"), None);
    assert_eq!(clean_machine_name("LocalHost.local"), None);
    assert_eq!(clean_machine_name("   "), None);
}

#[test]
fn an_id_names_its_prefix_time_and_counter() {
    assert_eq!(id_of("pl", 1700000000000000, 3), "pl_1700000000000000_3");
    assert_ne!(id_of("pl", 5, 1), id_of("pl", 5, 2));
}

#[test]
fn unset_switches_read_as_on() {
    assert!(default_true());
    assert!(yes());
}

#[test]
fn the_clock_reads_after_the_epoch() {
    assert!(now() > 1_600_000_000_000);
    assert!(unix_now() > 1_600_000_000);
}

#[test]
fn a_clock_reading_is_whole_units_since_the_epoch() {
    assert_eq!(millis_since(Some(1_700_000_000_123)), 1_700_000_000_123);
    assert_eq!(millis_since(None), 0);
    assert_eq!(millis_since(Some(u64::MAX as u128 + 2)), 1);
    assert_eq!(secs_since(Some(1_700_000_000)), 1_700_000_000);
    assert_eq!(secs_since(None), 0);
    assert_eq!(secs_since(Some(u64::MAX)), -1);
}
