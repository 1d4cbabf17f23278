use polysynth::keys::Key;
use polysynth::keys::KeyboardEvent;
use polysynth::keys::keycode_to_note;
use polysynth::keys::query_events;

#[test]
fn note_keys_ascend_from_z() {
    let keys = [
        Key::Z,
        Key::S,
        Key::X,
        Key::D,
        Key::C,
        Key::V,
        Key::G,
        Key::B,
        Key::H,
        Key::N,
        Key::J,
        Key::M,
        Key::Comma,
    ];
    for (i, k) in keys.iter().enumerate() {
        assert_eq!(keycode_to_note(*k), Some(i as i8));
    }
}

#[test]
fn non_note_keys_map_to_nothing() {
    assert_eq!(keycode_to_note(Key::Q), None);
    assert_eq!(keycode_to_note(Key::Other), None);
}

#[test]
fn key_diff_reports_presses_then_releases() {
    let prev = vec![Key::Z, Key::X];
    let cur = vec![Key::X, Key::C];
    let events = query_events(&prev, &cur);
    assert_eq!(
        events,
        vec![KeyboardEvent::KeyPressed(Key::C), KeyboardEvent::KeyReleased(Key::Z)]
    );
}

#[test]
fn key_diff_of_identical_polls_is_empty() {
    let held = vec![Key::Z, Key::M];
    assert!(query_events(&held, &held).is_empty());
    let none: Vec<Key> = Vec::new();
    assert!(query_events(&none, &none).is_empty());
}

#[test]
fn key_diff_from_empty_is_all_presses() {
    let none: Vec<Key> = Vec::new();
    let cur = vec![Key::V, Key::B];
    let events = query_events(&none, &cur);
    assert_eq!(
        events,
        vec![KeyboardEvent::KeyPressed(Key::V), KeyboardEvent::KeyPressed(Key::B)]
    );
    let back = query_events(&cur, &none);
    assert_eq!(
        back,
        vec![KeyboardEvent::KeyReleased(Key::V), KeyboardEvent::KeyReleased(Key::B)]
    );
}
