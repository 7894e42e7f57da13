use outpost_bot::input::{Direction, InputAction, InputCmd, InputState};
use outpost_bot::keys::{KeyCode, KeyErrorKind};
use outpost_bot::protocol::{ClickState, KeyState, Message, MouseButton};

fn key(name: &str, state: KeyState) -> Message<f64> {
    Message::key(0.0, name.to_string(), state)
}

fn mouse(button: MouseButton, state: ClickState) -> Message<f64> {
    Message::mouse(0.0, button, state)
}

#[test]
fn key_down_holds_and_presses() {
    let mut s = InputState::new();
    assert!(s.is_idle());
    let a = s.apply(&key("W", KeyState::Down)).unwrap();
    assert_eq!(
        a,
        Some(InputAction::Key { key: KeyCode::Unicode('w'), direction: Direction::Press })
    );
    assert!(s.holds_key("W"));
    // The name is kept as it was sent.
    assert!(!s.holds_key("w"));
}

#[test]
fn key_up_lets_go_and_releases() {
    let mut s = InputState::new();
    s.apply(&key("space", KeyState::Down)).unwrap();
    let a = s.apply(&key("space", KeyState::Up)).unwrap();
    assert_eq!(a, Some(InputAction::Key { key: KeyCode::Space, direction: Direction::Release }));
    assert!(!s.holds_key("space"));
    assert!(s.is_idle());
}

#[test]
fn key_up_of_a_key_not_held_still_releases() {
    let mut s = InputState::new();
    let a = s.apply(&key("tab", KeyState::Up)).unwrap();
    assert_eq!(a, Some(InputAction::Key { key: KeyCode::Tab, direction: Direction::Release }));
    assert!(s.is_idle());
}

#[test]
fn refused_key_changes_nothing() {
    let mut s = InputState::new();
    s.apply(&key("a", KeyState::Down)).unwrap();
    let e = s.apply(&key("nope", KeyState::Down)).unwrap_err();
    assert_eq!(e.kind, KeyErrorKind::UnknownKey);
    assert_eq!(e.key, "nope");
    assert!(!s.holds_key("nope"));
    assert!(s.holds_key("a"));
    let e = s.apply(&key("f13", KeyState::Up)).unwrap_err();
    assert_eq!(e.kind, KeyErrorKind::UnsupportedFunctionKey);
    assert!(s.holds_key("a"));
}

#[test]
fn mouse_buttons_hold_release_and_click() {
    let mut s = InputState::new();
    let a = s.apply(&mouse(MouseButton::Right, ClickState::Down)).unwrap();
    assert_eq!(
        a,
        Some(InputAction::Button { button: MouseButton::Right, direction: Direction::Press })
    );
    assert!(s.holds_button(MouseButton::Right));
    let a = s.apply(&mouse(MouseButton::Left, ClickState::Click)).unwrap();
    assert_eq!(
        a,
        Some(InputAction::Button { button: MouseButton::Left, direction: Direction::Click })
    );
    assert!(!s.holds_button(MouseButton::Left));
    let a = s.apply(&mouse(MouseButton::Right, ClickState::Up)).unwrap();
    assert_eq!(
        a,
        Some(InputAction::Button { button: MouseButton::Right, direction: Direction::Release })
    );
    assert!(s.is_idle());
}

#[test]
fn mouse_move_and_heartbeat_hold_nothing() {
    let mut s = InputState::new();
    let a = s.apply(&Message::mouse_move(0.0, 10, -3)).unwrap();
    assert_eq!(a, Some(InputAction::MoveMouse { dx: 10, dy: -3 }));
    let a = s.apply(&Message::heartbeat(0.0)).unwrap();
    assert_eq!(a, None);
    assert!(s.is_idle());
}

#[test]
fn release_all_releases_everything_held_in_order() {
    let mut s = InputState::new();
    s.apply(&key("w", KeyState::Down)).unwrap();
    s.apply(&key("Shift", KeyState::Down)).unwrap();
    s.apply(&key("w", KeyState::Down)).unwrap();
    s.apply(&mouse(MouseButton::Middle, ClickState::Down)).unwrap();
    s.apply(&mouse(MouseButton::Left, ClickState::Down)).unwrap();
    let released = s.release_all();
    assert_eq!(
        released,
        vec![
            InputAction::Key { key: KeyCode::Unicode('w'), direction: Direction::Release },
            InputAction::Key { key: KeyCode::Shift, direction: Direction::Release },
            InputAction::Button { button: MouseButton::Middle, direction: Direction::Release },
            InputAction::Button { button: MouseButton::Left, direction: Direction::Release },
        ]
    );
    assert!(s.is_idle());
    assert!(s.release_all().is_empty());
}

#[test]
fn same_key_under_two_names_is_held_twice() {
    let mut s = InputState::new();
    s.apply(&key("w", KeyState::Down)).unwrap();
    s.apply(&key("W", KeyState::Down)).unwrap();
    s.apply(&key("W", KeyState::Up)).unwrap();
    assert!(s.holds_key("w"));
    assert_eq!(
        s.release_all(),
        vec![InputAction::Key { key: KeyCode::Unicode('w'), direction: Direction::Release }]
    );
}

#[test]
fn handle_dispatches_commands() {
    let mut s = InputState::new();
    let v = s.handle(InputCmd::Message(key("enter", KeyState::Down))).unwrap();
    assert_eq!(v, vec![InputAction::Key { key: KeyCode::Return, direction: Direction::Press }]);
    let v = s.handle(InputCmd::Message(Message::heartbeat(1.0))).unwrap();
    assert!(v.is_empty());
    let e = s.handle(InputCmd::Message(key("f", KeyState::Down))).unwrap_err();
    assert_eq!(e.kind, KeyErrorKind::BadFunctionKey);
    let v = s.handle(InputCmd::<f64>::ReleaseAll).unwrap();
    assert_eq!(v, vec![InputAction::Key { key: KeyCode::Return, direction: Direction::Release }]);
    assert!(s.is_idle());
}

#[test]
fn press_then_release_restores_the_held_set() {
    let mut s = InputState::new();
    s.apply(&key("a", KeyState::Down)).unwrap();
    s.apply(&mouse(MouseButton::Left, ClickState::Down)).unwrap();
    s.apply(&key("b", KeyState::Down)).unwrap();
    s.apply(&key("b", KeyState::Up)).unwrap();
    s.apply(&mouse(MouseButton::Right, ClickState::Down)).unwrap();
    s.apply(&mouse(MouseButton::Right, ClickState::Up)).unwrap();
    assert!(s.holds_key("a"));
    assert!(!s.holds_key("b"));
    assert!(s.holds_button(MouseButton::Left));
    assert!(!s.holds_button(MouseButton::Right));
}

#[test]
fn repeated_press_holds_once() {
    let mut s = InputState::new();
    s.apply(&mouse(MouseButton::Left, ClickState::Down)).unwrap();
    s.apply(&mouse(MouseButton::Left, ClickState::Down)).unwrap();
    s.apply(&mouse(MouseButton::Left, ClickState::Up)).unwrap();
    assert!(s.is_idle());
}

#[test]
fn held_set_follows_the_command_history() {
    let mut s = InputState::new();
    let cmds = vec![
        InputCmd::Message(key("a", KeyState::Down)),
        InputCmd::Message(mouse(MouseButton::Left, ClickState::Down)),
        InputCmd::ReleaseAll,
        InputCmd::Message(key("b", KeyState::Down)),
        InputCmd::Message(key("c", KeyState::Down)),
        InputCmd::Message(key("b", KeyState::Up)),
        InputCmd::Message(mouse(MouseButton::Right, ClickState::Down)),
        InputCmd::Message(mouse(MouseButton::Middle, ClickState::Click)),
        InputCmd::Message(key("nope", KeyState::Down)),
    ];
    for c in cmds {
        let _ = s.handle(c);
    }
    // Pressed since the last release-all and not released since: c and Right.
    assert!(!s.holds_key("a"));
    assert!(!s.holds_key("b"));
    assert!(s.holds_key("c"));
    assert!(!s.holds_key("nope"));
    assert!(!s.holds_button(MouseButton::Left));
    assert!(s.holds_button(MouseButton::Right));
    assert!(!s.holds_button(MouseButton::Middle));
    assert_eq!(
        s.handle(InputCmd::<f64>::ReleaseAll).unwrap(),
        vec![
            InputAction::Key { key: KeyCode::Unicode('c'), direction: Direction::Release },
            InputAction::Button { button: MouseButton::Right, direction: Direction::Release },
        ]
    );
}

#[test]
fn handle_reports_the_refused_name() {
    let mut s = InputState::new();
    let e = s.handle(InputCmd::Message(key("Bogus", KeyState::Down))).unwrap_err();
    assert_eq!(e.kind, KeyErrorKind::UnknownKey);
    assert_eq!(e.key, "Bogus");
    assert_eq!(e.message(), "unknown key: Bogus");
}
