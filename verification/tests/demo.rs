use outpost_bot::demo::{demo_script, DemoStep};
use outpost_bot::input::InputState;
use outpost_bot::protocol::{ClickState, KeyState, Message, MouseButton};

#[test]
fn demo_has_the_expected_shape() {
    let s = demo_script();
    assert_eq!(s.len(), 111);
    assert!(matches!(s[0], DemoStep::StartHeartbeat { period_ms: 500 }));
    for i in 1..=3 {
        assert!(matches!(s[i], DemoStep::Sleep { ms: 1000 }));
    }
    match &s[4] {
        DemoStep::Send(Message::Key { key, state, .. }) => {
            assert_eq!(key, "w");
            assert_eq!(*state, KeyState::Down);
        }
        other => panic!("unexpected {other:?}"),
    }
    assert!(matches!(s[5], DemoStep::Sleep { ms: 2000 }));
    match &s[6] {
        DemoStep::Send(Message::Key { key, state, .. }) => {
            assert_eq!(key, "w");
            assert_eq!(*state, KeyState::Up);
        }
        other => panic!("unexpected {other:?}"),
    }
    assert!(matches!(
        s[107],
        DemoStep::Send(Message::Mouse { button: MouseButton::Left, state: ClickState::Click, .. })
    ));
    assert!(matches!(s[108], DemoStep::StopHeartbeat));
    assert!(matches!(s[109], DemoStep::Sleep { ms: 200 }));
    assert!(matches!(s[110], DemoStep::SendBestEffort(Message::Heartbeat { .. })));
}

#[test]
fn demo_looks_right_by_500_px_over_50_ticks() {
    let s = demo_script();
    let moves: Vec<(i32, i32)> = s
        .iter()
        .filter_map(|step| match step {
            DemoStep::Send(Message::MouseMove { dx, dy, .. }) => Some((*dx, *dy)),
            _ => None,
        })
        .collect();
    assert_eq!(moves.len(), 50);
    assert_eq!(moves.iter().map(|m| m.0).sum::<i32>(), 500);
    assert_eq!(moves.iter().map(|m| m.1).sum::<i32>(), 0);
    let total_sleep: u64 = s
        .iter()
        .map(|step| match step {
            DemoStep::Sleep { ms } => *ms,
            _ => 0,
        })
        .sum();
    assert_eq!(total_sleep, 3000 + 2000 + 50 * 20 + 200);
}

#[test]
fn demo_leaves_nothing_held() {
    let mut state = InputState::new();
    for step in demo_script() {
        match step {
            DemoStep::Send(m) | DemoStep::SendBestEffort(m) => {
                state.apply(&m.stamped(0.0)).unwrap();
            }
            _ => {}
        }
    }
    assert!(state.is_idle());
}
