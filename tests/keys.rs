use chinchilib::keys::{system_action, KeySet, KeyTracker, LogicalKey, MyKeys, SystemAction};

fn ch(s: &str) -> LogicalKey {
    LogicalKey::Character(s.to_string())
}

#[test]
fn recognised_keys() {
    assert_eq!(MyKeys::try_from(&ch("q")), Ok(MyKeys::KeyQ));
    assert_eq!(MyKeys::try_from(&ch("d")), Ok(MyKeys::KeyD));
    assert_eq!(MyKeys::try_from(&ch("z")), Ok(MyKeys::KeyZ));
    assert_eq!(MyKeys::try_from(&ch("s")), Ok(MyKeys::KeyS));
    assert_eq!(MyKeys::try_from(&ch("a")), Ok(MyKeys::KeyA));
    assert_eq!(MyKeys::try_from(&ch("e")), Ok(MyKeys::KeyE));
    assert_eq!(MyKeys::try_from(&LogicalKey::ArrowUp), Ok(MyKeys::Up));
    assert_eq!(MyKeys::try_from(&LogicalKey::ArrowDown), Ok(MyKeys::Down));
    assert_eq!(MyKeys::try_from(&LogicalKey::ArrowLeft), Ok(MyKeys::Left));
    assert_eq!(MyKeys::try_from(&LogicalKey::ArrowRight), Ok(MyKeys::Right));
}

#[test]
fn unrecognised_keys() {
    assert_eq!(MyKeys::try_from(&ch("Q")), Err(()));
    assert_eq!(MyKeys::try_from(&ch("qq")), Err(()));
    assert_eq!(MyKeys::try_from(&ch("")), Err(()));
    assert_eq!(MyKeys::try_from(&ch("\u{e9}")), Err(()));
    assert_eq!(MyKeys::try_from(&LogicalKey::Escape), Err(()));
    assert_eq!(MyKeys::try_from(&LogicalKey::Other), Err(()));
}

#[test]
fn system_keys() {
    assert_eq!(system_action(&LogicalKey::Escape), Some(SystemAction::Exit));
    assert_eq!(system_action(&LogicalKey::Space), Some(SystemAction::TogglePause));
    assert_eq!(system_action(&ch("q")), None);
}

#[test]
fn key_set_lists_in_fixed_order() {
    let mut s = KeySet::new();
    assert!(s.is_empty());
    s.insert(MyKeys::Right);
    s.insert(MyKeys::KeyA);
    s.insert(MyKeys::Right);
    assert!(!s.is_empty());
    assert!(s.contains(MyKeys::KeyA));
    assert!(!s.contains(MyKeys::Up));
    assert_eq!(s.keys(), vec![MyKeys::KeyA, MyKeys::Right]);
    let mut other = KeySet::new();
    other.insert(MyKeys::KeyA);
    s.remove_all(&other);
    assert_eq!(s.keys(), vec![MyKeys::Right]);
}

#[test]
fn drain_twice_gives_empty_second_snapshot() {
    let mut t = KeyTracker::new();
    t.on_key_down(MyKeys::Up);
    t.on_key_up(MyKeys::Up);
    let first = t.drain_tick();
    assert_eq!(first.keys(), vec![MyKeys::Up]);
    let second = t.drain_tick();
    assert!(second.is_empty());
    assert!(!t.any_held());
}

#[test]
fn held_key_survives_drains() {
    let mut t = KeyTracker::new();
    t.on_key_down(MyKeys::KeyZ);
    assert_eq!(t.drain_tick().keys(), vec![MyKeys::KeyZ]);
    assert_eq!(t.drain_tick().keys(), vec![MyKeys::KeyZ]);
    assert!(t.any_held());
}

#[test]
fn press_release_within_tick_counts_once() {
    let mut t = KeyTracker::new();
    t.on_key_down(MyKeys::Left);
    t.on_key_down(MyKeys::Left);
    t.on_key_up(MyKeys::Left);
    let snapshot = t.drain_tick();
    assert_eq!(snapshot.keys(), vec![MyKeys::Left]);
    assert!(!t.any_held());
}

#[test]
fn keyboard_events() {
    let mut t = KeyTracker::new();
    assert_eq!(t.process_kbd_input(&ch("z"), true), None);
    assert!(t.any_held());
    assert_eq!(t.process_kbd_input(&LogicalKey::Escape, true), Some(SystemAction::Exit));
    assert_eq!(t.process_kbd_input(&LogicalKey::Space, true), Some(SystemAction::TogglePause));
    assert_eq!(t.process_kbd_input(&LogicalKey::Space, false), None);
    assert_eq!(t.process_kbd_input(&ch("x"), true), None);
    assert_eq!(t.process_kbd_input(&ch("z"), false), None);
    assert_eq!(t.drain_tick().keys(), vec![MyKeys::KeyZ]);
    assert!(!t.any_held());
}
