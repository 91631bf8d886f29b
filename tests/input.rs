use game_of_life::input::{is_quit_event, InputEvent, Key, KeyKind};

fn key(c: char, kind: KeyKind) -> InputEvent {
    InputEvent::Key { key: Key::Char(c), kind }
}

#[test]
fn pressing_q_quits() {
    assert!(is_quit_event(&key('q', KeyKind::Press)));
}

#[test]
fn releasing_or_repeating_q_does_not_quit() {
    assert!(!is_quit_event(&key('q', KeyKind::Release)));
    assert!(!is_quit_event(&key('q', KeyKind::Repeat)));
}

#[test]
fn other_keys_and_events_do_not_quit() {
    assert!(!is_quit_event(&key('Q', KeyKind::Press)));
    assert!(!is_quit_event(&key('x', KeyKind::Press)));
    assert!(!is_quit_event(&InputEvent::Key { key: Key::Other, kind: KeyKind::Press }));
    assert!(!is_quit_event(&InputEvent::Other));
}
