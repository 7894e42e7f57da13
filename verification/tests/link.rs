use outpost_bot::input::InputCmd;
use outpost_bot::link::{frame_line, on_read, route, trim_line, ConnStep, Disconnect, ReadOutcome};
use outpost_bot::protocol::{KeyState, Message};

#[test]
fn trim_removes_surrounding_whitespace() {
    assert_eq!(trim_line("  {\"a\":1}\r\n"), "{\"a\":1}");
    assert_eq!(trim_line("x"), "x");
    assert_eq!(trim_line(""), "");
    assert_eq!(trim_line(" \t\n "), "");
    assert_eq!(trim_line("a b"), "a b");
    assert_eq!(trim_line("\u{a0}\u{3000}z\u{2028}\u{85}"), "z");
    assert_eq!(trim_line("\u{200b}z"), "\u{200b}z");
}

#[test]
fn trim_agrees_with_str_trim() {
    for s in ["", " a ", "\u{2000}\u{200a}b\u{205f}", "\u{1680}x\u{202f}y\u{2029}", "\u{b}\u{c}q"] {
        assert_eq!(trim_line(s), s.trim());
    }
}

#[test]
fn trim_is_idempotent_on_examples() {
    for s in ["  a  ", "\n\nb\n", "c"] {
        let once = trim_line(s);
        assert_eq!(trim_line(&once), once);
    }
}

#[test]
fn frame_appends_one_newline() {
    assert_eq!(frame_line("{\"type\":\"heartbeat\",\"t\":4.0}".to_string()), "{\"type\":\"heartbeat\",\"t\":4.0}\n");
    assert_eq!(frame_line(String::new()), "\n");
}

#[test]
fn framed_line_is_decoded_back() {
    let payload = "{\"type\":\"key\",\"t\":1.5,\"key\":\"w\",\"state\":\"down\"}".to_string();
    let line = frame_line(payload.clone());
    match on_read::<f64>(ReadOutcome::Line(line)) {
        ConnStep::Decode(t) => assert_eq!(t, payload),
        other => panic!("unexpected {other:?}"),
    }
}

#[test]
fn reads_that_end_the_connection() {
    assert!(matches!(
        on_read::<f64>(ReadOutcome::TimedOut),
        ConnStep::End(Disconnect::HeartbeatTimeout, InputCmd::ReleaseAll)
    ));
    assert!(matches!(
        on_read::<f64>(ReadOutcome::Closed),
        ConnStep::End(Disconnect::Closed, InputCmd::ReleaseAll)
    ));
    assert!(matches!(
        on_read::<f64>(ReadOutcome::Failed),
        ConnStep::End(Disconnect::ReadError, InputCmd::ReleaseAll)
    ));
}

#[test]
fn blank_lines_are_skipped() {
    assert!(matches!(on_read::<f64>(ReadOutcome::Line("\n".to_string())), ConnStep::Skip));
    assert!(matches!(on_read::<f64>(ReadOutcome::Line("   \r\n".to_string())), ConnStep::Skip));
    assert!(matches!(on_read::<f64>(ReadOutcome::Line(String::new())), ConnStep::Skip));
}

#[test]
fn heartbeats_are_not_forwarded() {
    assert!(route(Message::heartbeat(1.0)).is_none());
    match route(Message::key(2.0, "w".to_string(), KeyState::Down)) {
        Some(InputCmd::Message(Message::Key { key, state, t })) => {
            assert_eq!(key, "w");
            assert_eq!(state, KeyState::Down);
            assert_eq!(t, 2.0);
        }
        _ => panic!("key message not forwarded"),
    }
    assert!(matches!(
        route(Message::mouse_move(3.0, 1, 2)),
        Some(InputCmd::Message(Message::MouseMove { dx: 1, dy: 2, .. }))
    ));
}
