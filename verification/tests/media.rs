use vapor_app::media::{press_of, MediaEvent as E, Press};

#[test]
fn the_five_presses_this_app_answers_map_across() {
    assert_eq!(press_of(&E::Play), Some(Press::Play));
    assert_eq!(press_of(&E::Pause), Some(Press::Pause));
    assert_eq!(press_of(&E::Toggle), Some(Press::Toggle));
    assert_eq!(press_of(&E::Next), Some(Press::Next));
    assert_eq!(press_of(&E::Previous), Some(Press::Previous));
}

#[test]
fn stop_is_not_answered_as_a_pause() {
    assert_eq!(press_of(&E::Stop), None);
}

#[test]
fn an_event_with_no_answer_here_is_ignored_rather_than_guessed_at() {
    assert_eq!(press_of(&E::Other), None);
}

#[test]
fn the_android_numbers_map_in_order() {
    assert_eq!(Press::from_i32(0), Some(Press::Play));
    assert_eq!(Press::from_i32(1), Some(Press::Pause));
    assert_eq!(Press::from_i32(2), Some(Press::Toggle));
    assert_eq!(Press::from_i32(3), Some(Press::Next));
    assert_eq!(Press::from_i32(4), Some(Press::Previous));
    assert_eq!(Press::from_i32(5), None);
    assert_eq!(Press::from_i32(-1), None);
}
