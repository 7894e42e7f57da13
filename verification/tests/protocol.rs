use outpost_bot::protocol::{ClickState, KeyState, Message, MouseButton, DEFAULT_PORT};

#[test]
fn default_port_is_7878() {
    assert_eq!(DEFAULT_PORT, 7878);
}

#[test]
fn key_message_carries_its_fields() {
    let m = Message::key(1.5, "w".to_string(), KeyState::Down);
    match &m {
        Message::Key { t, key, state } => {
            assert_eq!(*t, 1.5);
            assert_eq!(key, "w");
            assert_eq!(*state, KeyState::Down);
        }
        _ => panic!("expected a key message"),
    }
    assert_eq!(m.timestamp(), 1.5);
}

#[test]
fn mouse_move_message_carries_its_fields() {
    let m = Message::mouse_move(2.0, 10, -4);
    assert!(matches!(m, Message::MouseMove { dx: 10, dy: -4, .. }));
    assert_eq!(m.timestamp(), 2.0);
}

#[test]
fn mouse_message_carries_its_fields() {
    let m = Message::mouse(3.0, MouseButton::Left, ClickState::Click);
    assert!(matches!(
        m,
        Message::Mouse { button: MouseButton::Left, state: ClickState::Click, .. }
    ));
    assert_eq!(m.timestamp(), 3.0);
}

#[test]
fn heartbeat_message_carries_its_time() {
    let m = Message::heartbeat(4.0);
    assert!(matches!(m, Message::Heartbeat { .. }));
    assert_eq!(m.timestamp(), 4.0);
}

#[test]
fn stamping_replaces_only_the_time() {
    let m = Message::key((), "space".to_string(), KeyState::Up);
    let s = m.stamped(9.25);
    assert_eq!(s.timestamp(), 9.25);
    match s {
        Message::Key { key, state, .. } => {
            assert_eq!(key, "space");
            assert_eq!(state, KeyState::Up);
        }
        _ => panic!("expected a key message"),
    }
    let h = Message::heartbeat(1u64).stamped(2.5f64);
    assert!(matches!(h, Message::Heartbeat { .. }));
    assert_eq!(h.timestamp(), 2.5);
}
