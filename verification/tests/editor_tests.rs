use svim::editor::{gutter_label, intro_column, Action, Editor, Key, KeyModifier, Mode};

#[test]
fn intro_column_centers_the_greeting() {
    assert_eq!(intro_column(80, 19), 80 / 2 - 19 / 2 + 2);
    assert_eq!(intro_column(19, 19), 2);
}

#[test]
fn gutter_labels_are_right_aligned() {
    let label = |n: u16| -> String { gutter_label(n).iter().collect() };
    assert_eq!(label(0), "   0");
    assert_eq!(label(1), "   1");
    assert_eq!(label(42), "  42");
    assert_eq!(label(999), " 999");
    assert_eq!(label(1234), "1234");
    assert_eq!(label(12345), "12345");
    assert_eq!(label(10), "  10");
}

#[test]
fn editor_starts_in_normal_mode() {
    let ed = Editor::new();
    assert_eq!(*ed.mode(), Mode::Normal);
}

#[test]
fn normal_mode_switches_to_insert_and_visual() {
    let mut ed = Editor::new();
    ed.switch_mode(Key::Char('i'), KeyModifier::Plain, 24, 10, 10);
    assert_eq!(*ed.mode(), Mode::Insert);
    let mut ed2 = Editor::new();
    ed2.switch_mode(Key::Char('v'), KeyModifier::Plain, 24, 10, 10);
    assert_eq!(*ed2.mode(), Mode::Visual);
}

#[test]
fn insert_mode_switches_back_and_to_visual() {
    let mut ed = Editor::new();
    ed.switch_mode(Key::Char('i'), KeyModifier::Plain, 24, 10, 10);
    ed.switch_mode(Key::Char('n'), KeyModifier::Plain, 24, 10, 10);
    assert_eq!(*ed.mode(), Mode::Normal);
    ed.switch_mode(Key::Char('i'), KeyModifier::Plain, 24, 10, 10);
    ed.switch_mode(Key::Char('v'), KeyModifier::Plain, 24, 10, 10);
    assert_eq!(*ed.mode(), Mode::Visual);
}

#[test]
fn visual_mode_switches_back_and_to_insert() {
    let mut ed = Editor::new();
    ed.switch_mode(Key::Char('v'), KeyModifier::Plain, 24, 10, 10);
    ed.switch_mode(Key::Char('n'), KeyModifier::Plain, 24, 10, 10);
    assert_eq!(*ed.mode(), Mode::Normal);
    ed.switch_mode(Key::Char('v'), KeyModifier::Plain, 24, 10, 10);
    ed.switch_mode(Key::Char('i'), KeyModifier::Plain, 24, 10, 10);
    assert_eq!(*ed.mode(), Mode::Insert);
}

#[test]
fn control_q_quits_from_every_mode() {
    for setup in [None, Some('i'), Some('v')] {
        let mut ed = Editor::new();
        if let Some(c) = setup {
            ed.switch_mode(Key::Char(c), KeyModifier::Plain, 24, 10, 10);
        }
        let before = *ed.mode();
        let a = ed.switch_mode(Key::Char('q'), KeyModifier::Control, 24, 10, 10);
        assert_eq!(a, Action::Quit);
        assert_eq!(*ed.mode(), before);
    }
}

#[test]
fn modified_keys_do_not_switch_modes() {
    let mut ed = Editor::new();
    let a = ed.switch_mode(Key::Char('i'), KeyModifier::Control, 24, 10, 10);
    assert_eq!(a, Action::Stay);
    assert_eq!(*ed.mode(), Mode::Normal);
    let a2 = ed.switch_mode(Key::Other, KeyModifier::Plain, 24, 10, 10);
    assert_eq!(a2, Action::Stay);
    assert_eq!(*ed.mode(), Mode::Normal);
}

#[test]
fn left_movement_stops_at_the_gutter() {
    let mut ed = Editor::new();
    assert_eq!(ed.switch_mode(Key::Char('h'), KeyModifier::Plain, 24, 6, 10), Action::Stay);
    assert_eq!(ed.switch_mode(Key::Char('h'), KeyModifier::Plain, 24, 7, 10), Action::MoveLeft);
}

#[test]
fn down_movement_stops_above_the_status_area() {
    let mut ed = Editor::new();
    assert_eq!(ed.switch_mode(Key::Char('j'), KeyModifier::Plain, 24, 10, 19), Action::MoveDown);
    assert_eq!(ed.switch_mode(Key::Char('j'), KeyModifier::Plain, 24, 10, 20), Action::Stay);
}

#[test]
fn up_and_right_always_move_in_normal_mode() {
    let mut ed = Editor::new();
    assert_eq!(ed.switch_mode(Key::Char('k'), KeyModifier::Plain, 24, 0, 0), Action::MoveUp);
    assert_eq!(ed.switch_mode(Key::Char('l'), KeyModifier::Plain, 24, 0, 0), Action::MoveRight);
}

#[test]
fn movement_keys_do_nothing_in_insert_mode() {
    let mut ed = Editor::new();
    ed.switch_mode(Key::Char('i'), KeyModifier::Plain, 24, 10, 10);
    assert_eq!(ed.switch_mode(Key::Char('h'), KeyModifier::Plain, 24, 10, 10), Action::Stay);
    assert_eq!(ed.switch_mode(Key::Char('l'), KeyModifier::Plain, 24, 10, 10), Action::Stay);
    assert_eq!(*ed.mode(), Mode::Insert);
}

#[test]
fn mode_labels() {
    let mut ed = Editor::new();
    assert_eq!(ed.mode().label(), "NORMAL");
    ed.switch_mode(Key::Char('i'), KeyModifier::Plain, 24, 10, 10);
    assert_eq!(ed.mode().label(), "INSERT");
    ed.switch_mode(Key::Char('v'), KeyModifier::Plain, 24, 10, 10);
    assert_eq!(ed.mode().label(), "VISUAL");
}
