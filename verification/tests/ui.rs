use anup::ui::{InputType, Key, Selection, StatusBarState};

#[test]
fn selection_turns_to_the_other() {
    assert_eq!(Selection::Series.opposite(), Selection::Season);
    assert_eq!(Selection::Season.opposite(), Selection::Series);
    let mut selection = Selection::Series;
    selection.set_opposite();
    assert_eq!(selection, Selection::Season);
    selection.set_opposite();
    assert_eq!(selection, Selection::Series);
}

#[test]
fn input_begins_with_an_empty_line() {
    assert_eq!(InputType::score(), InputType::Score(String::new()));
    assert_eq!(InputType::series_player_args(), InputType::SeriesPlayerArgs(String::new()));
    assert_eq!(InputType::Score("8".to_string()).contents(), "8");
    assert_eq!(InputType::SeriesPlayerArgs("--fs".to_string()).contents(), "--fs");
}

#[test]
fn new_line_hands_the_input_out() {
    let mut state = StatusBarState::Input(InputType::score());
    assert!(state.in_input_dialog());
    assert_eq!(state.process_key(Key::Char('h')), None);
    assert_eq!(state.process_key(Key::Char('i')), None);
    assert_eq!(state.process_key(Key::Char('\n')), Some(InputType::Score("hi".to_string())));
    assert!(!state.in_input_dialog());
}

#[test]
fn input_line_is_edited() {
    let mut state = StatusBarState::Input(InputType::series_player_args());
    for key in [
        Key::Backspace,
        Key::Char('a'),
        Key::Char('\t'),
        Key::Left,
        Key::Char('é'),
        Key::Char('x'),
        Key::Backspace,
        Key::Up,
        Key::Other,
    ] {
        assert_eq!(state.process_key(key), None);
        assert!(state.in_input_dialog());
    }
    assert_eq!(
        state.process_key(Key::Char('\n')),
        Some(InputType::SeriesPlayerArgs("a é".to_string()))
    );
}

#[test]
fn escape_gives_the_input_up() {
    let mut state = StatusBarState::Input(InputType::score());
    assert_eq!(state.process_key(Key::Char('9')), None);
    assert_eq!(state.process_key(Key::Esc), None);
    assert!(!state.in_input_dialog());
    assert_eq!(state.process_key(Key::Char('\n')), None);
}

#[test]
fn log_takes_no_key() {
    let mut state = StatusBarState::new();
    assert!(!state.in_input_dialog());
    for key in [Key::Char('a'), Key::Char('\n'), Key::Backspace, Key::Esc, Key::Down] {
        assert_eq!(state.process_key(key), None);
        assert!(!state.in_input_dialog());
    }
}
