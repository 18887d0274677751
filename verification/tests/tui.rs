use swimps::tui::{handle_key, initial_selection, title, Key, KeyPress, Step};

fn press(key: Key) -> KeyPress {
    KeyPress { key, control: false }
}

fn control(key: Key) -> KeyPress {
    KeyPress { key, control: true }
}

#[test]
fn viewer_opens_on_the_first_row() {
    assert_eq!(initial_selection(), Some(0));
}

#[test]
fn q_closes_the_viewer() {
    assert_eq!(handle_key(Some(3), press(Key::Char('q'))), Step { selected: Some(3), quit: true });
    assert_eq!(handle_key(None, control(Key::Char('q'))), Step { selected: None, quit: true });
}

#[test]
fn control_c_and_control_d_close_the_viewer() {
    assert!(handle_key(Some(0), control(Key::Char('c'))).quit);
    assert!(handle_key(Some(0), control(Key::Char('d'))).quit);
    assert!(!handle_key(Some(0), press(Key::Char('c'))).quit);
    assert!(!handle_key(Some(0), press(Key::Char('d'))).quit);
}

#[test]
fn other_keys_change_nothing() {
    for key_press in [
        press(Key::Char('x')),
        control(Key::Char('x')),
        press(Key::Char('Q')),
        press(Key::Other),
        control(Key::Other),
    ] {
        assert_eq!(handle_key(Some(7), key_press), Step { selected: Some(7), quit: false });
        assert_eq!(handle_key(None, key_press), Step { selected: None, quit: false });
    }
}

#[test]
fn arrows_move_the_selection_by_one_row() {
    assert_eq!(handle_key(Some(7), press(Key::Up)), Step { selected: Some(6), quit: false });
    assert_eq!(handle_key(Some(7), press(Key::Down)), Step { selected: Some(8), quit: false });
    assert_eq!(handle_key(Some(7), control(Key::Up)), Step { selected: Some(6), quit: false });
    assert_eq!(handle_key(Some(7), control(Key::Down)), Step { selected: Some(8), quit: false });
}

#[test]
fn arrows_stop_at_the_ends() {
    assert_eq!(handle_key(Some(0), press(Key::Up)), Step { selected: Some(0), quit: false });
    assert_eq!(
        handle_key(Some(usize::MAX), press(Key::Down)),
        Step { selected: Some(usize::MAX), quit: false }
    );
}

#[test]
fn arrows_select_nothing_where_nothing_is_selected() {
    assert_eq!(handle_key(None, press(Key::Up)), Step { selected: None, quit: false });
    assert_eq!(handle_key(None, press(Key::Down)), Step { selected: None, quit: false });
}

#[test]
fn title_names_program_and_trace_file() {
    assert_eq!(title("echo", "hi.trace"), " swimps \u{2500} echo \u{2500} hi.trace ");
    assert_eq!(title("", ""), " swimps \u{2500}  \u{2500}  ");
}
