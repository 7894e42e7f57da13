use outpost_bot::keys::{parse_key, KeyCode, KeyErrorKind};

fn ok(s: &str) -> KeyCode {
    match parse_key(s) {
        Ok(k) => k,
        Err(e) => panic!("{s:?} refused: {}", e.message()),
    }
}

fn err(s: &str) -> KeyErrorKind {
    match parse_key(s) {
        Ok(k) => panic!("{s:?} accepted as {k:?}"),
        Err(e) => {
            assert_eq!(e.key, s);
            e.kind
        }
    }
}

#[test]
fn named_keys_and_aliases() {
    assert_eq!(ok("space"), KeyCode::Space);
    assert_eq!(ok("enter"), KeyCode::Return);
    assert_eq!(ok("return"), KeyCode::Return);
    assert_eq!(ok("escape"), KeyCode::Escape);
    assert_eq!(ok("esc"), KeyCode::Escape);
    assert_eq!(ok("tab"), KeyCode::Tab);
    assert_eq!(ok("backspace"), KeyCode::Backspace);
    assert_eq!(ok("delete"), KeyCode::Delete);
    assert_eq!(ok("del"), KeyCode::Delete);
    assert_eq!(ok("shift"), KeyCode::Shift);
    assert_eq!(ok("ctrl"), KeyCode::Control);
    assert_eq!(ok("control"), KeyCode::Control);
    assert_eq!(ok("alt"), KeyCode::Alt);
    assert_eq!(ok("meta"), KeyCode::Meta);
    assert_eq!(ok("cmd"), KeyCode::Meta);
    assert_eq!(ok("super"), KeyCode::Meta);
    assert_eq!(ok("win"), KeyCode::Meta);
    assert_eq!(ok("up"), KeyCode::UpArrow);
    assert_eq!(ok("uparrow"), KeyCode::UpArrow);
    assert_eq!(ok("down"), KeyCode::DownArrow);
    assert_eq!(ok("downarrow"), KeyCode::DownArrow);
    assert_eq!(ok("left"), KeyCode::LeftArrow);
    assert_eq!(ok("leftarrow"), KeyCode::LeftArrow);
    assert_eq!(ok("right"), KeyCode::RightArrow);
    assert_eq!(ok("rightarrow"), KeyCode::RightArrow);
    assert_eq!(ok("home"), KeyCode::Home);
    assert_eq!(ok("end"), KeyCode::End);
    assert_eq!(ok("pageup"), KeyCode::PageUp);
    assert_eq!(ok("pagedown"), KeyCode::PageDown);
}

#[test]
fn names_ignore_ascii_case() {
    assert_eq!(ok("SPACE"), KeyCode::Space);
    assert_eq!(ok("PageDown"), KeyCode::PageDown);
    assert_eq!(ok("Ctrl"), ok("ctrl"));
    assert_eq!(ok("W"), ok("w"));
    assert_eq!(ok("F7"), ok("f7"));
}

#[test]
fn function_keys() {
    let expected = [
        KeyCode::F1,
        KeyCode::F2,
        KeyCode::F3,
        KeyCode::F4,
        KeyCode::F5,
        KeyCode::F6,
        KeyCode::F7,
        KeyCode::F8,
        KeyCode::F9,
        KeyCode::F10,
        KeyCode::F11,
        KeyCode::F12,
    ];
    for (i, k) in expected.iter().enumerate() {
        assert_eq!(ok(&format!("f{}", i + 1)), *k);
    }
    assert_eq!(ok("F01"), KeyCode::F1);
    assert_eq!(ok("f0012"), KeyCode::F12);
}

#[test]
fn unsupported_function_keys() {
    assert_eq!(err("f0"), KeyErrorKind::UnsupportedFunctionKey);
    assert_eq!(err("f13"), KeyErrorKind::UnsupportedFunctionKey);
    assert_eq!(err("F4294967295"), KeyErrorKind::UnsupportedFunctionKey);
}

#[test]
fn bad_function_keys() {
    // `f` alone is `f` followed by no digits, which is not a number.
    assert_eq!(err("f"), KeyErrorKind::BadFunctionKey);
    assert_eq!(err("F"), KeyErrorKind::BadFunctionKey);
    // One more than u32::MAX does not fit.
    assert_eq!(err("f4294967296"), KeyErrorKind::BadFunctionKey);
    assert_eq!(err("f99999999999999999999"), KeyErrorKind::BadFunctionKey);
}

#[test]
fn single_characters() {
    assert_eq!(ok("w"), KeyCode::Unicode('w'));
    assert_eq!(ok("W"), KeyCode::Unicode('w'));
    assert_eq!(ok("1"), KeyCode::Unicode('1'));
    assert_eq!(ok(" "), KeyCode::Unicode(' '));
    assert_eq!(ok("\u{e9}"), KeyCode::Unicode('\u{e9}'));
    // Only ASCII is lowercased.
    assert_eq!(ok("\u{c9}"), KeyCode::Unicode('\u{c9}'));
}

#[test]
fn unknown_keys() {
    assert_eq!(err(""), KeyErrorKind::UnknownKey);
    assert_eq!(err("fx"), KeyErrorKind::UnknownKey);
    assert_eq!(err("f1x"), KeyErrorKind::UnknownKey);
    assert_eq!(err("spacebar"), KeyErrorKind::UnknownKey);
    assert_eq!(err("ww"), KeyErrorKind::UnknownKey);
    assert_eq!(err("f+1"), KeyErrorKind::UnknownKey);
}

#[test]
fn error_messages_name_the_key_as_given() {
    assert_eq!(parse_key("F").unwrap_err().message(), "bad F-key: F");
    assert_eq!(parse_key("F13").unwrap_err().message(), "unsupported F-key: F13");
    assert_eq!(parse_key("Nope").unwrap_err().message(), "unknown key: Nope");
}
