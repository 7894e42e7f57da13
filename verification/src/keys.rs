//! Key names as sent on the wire, and the keys they denote.
//!
//! A key name is matched case-insensitively (ASCII only) against a table of
//! named keys, then against `f<digits>` for the function keys F1..F12, and
//! otherwise must be a single character.

use vstd::prelude::*;
use vstd::string::*;

verus! {

/// A key the agent can press or release.
#[derive(Debug, Clone, Copy, PartialEq, Eq, Structural, Hash)]
pub enum KeyCode {
    Space,
    Return,
    Escape,
    Tab,
    Backspace,
    Delete,
    Shift,
    Control,
    Alt,
    Meta,
    UpArrow,
    DownArrow,
    LeftArrow,
    RightArrow,
    Home,
    End,
    PageUp,
    PageDown,
    F1,
    F2,
    F3,
    F4,
    F5,
    F6,
    F7,
    F8,
    F9,
    F10,
    F11,
    F12,
    Unicode(char),
}

/// Why a key name was refused.
#[derive(Debug, Clone, Copy, PartialEq, Eq, Structural, Hash)]
pub enum KeyErrorKind {
    /// `f` followed by digits (possibly none) that do not form a `u32`.
    BadFunctionKey,
    /// `f` followed by a number outside 1..=12.
    UnsupportedFunctionKey,
    /// Neither a named key, a function key, nor a single character.
    UnknownKey,
}

/// A refused key name, with the name exactly as it was given.
#[derive(Debug, Clone)]
pub struct KeyParseError {
    pub kind: KeyErrorKind,
    pub key: String,
}

/// ASCII lowercase of one character; every other character is unchanged.
pub open spec fn ascii_lower_char(c: char) -> char {
    if 'A' <= c && c <= 'Z' {
        ((c as int) + 32) as char
    } else {
        c
    }
}

/// ASCII lowercase of a string.
pub open spec fn ascii_lower(s: Seq<char>) -> Seq<char> {
    s.map_values(|c: char| ascii_lower_char(c))
}

pub open spec fn is_ascii_digit(c: char) -> bool {
    '0' <= c && c <= '9'
}

pub open spec fn all_ascii_digits(s: Seq<char>) -> bool {
    forall|i: int| 0 <= i < s.len() ==> #[trigger] is_ascii_digit(s[i])
}

/// The number written in decimal by a string of ASCII digits.
pub open spec fn decimal_value(s: Seq<char>) -> nat
    decreases s.len(),
{
    if s.len() == 0 {
        0
    } else {
        decimal_value(s.drop_last()) * 10 + ((s.last() as int) - ('0' as int)) as nat
    }
}

/// The function key numbered `n`, if there is one.
pub open spec fn function_key(n: nat) -> Option<KeyCode> {
    if n == 1 {
        Some(KeyCode::F1)
    } else if n == 2 {
        Some(KeyCode::F2)
    } else if n == 3 {
        Some(KeyCode::F3)
    } else if n == 4 {
        Some(KeyCode::F4)
    } else if n == 5 {
        Some(KeyCode::F5)
    } else if n == 6 {
        Some(KeyCode::F6)
    } else if n == 7 {
        Some(KeyCode::F7)
    } else if n == 8 {
        Some(KeyCode::F8)
    } else if n == 9 {
        Some(KeyCode::F9)
    } else if n == 10 {
        Some(KeyCode::F10)
    } else if n == 11 {
        Some(KeyCode::F11)
    } else if n == 12 {
        Some(KeyCode::F12)
    } else {
        None
    }
}

/// The table of named keys, looked up by lowercase name.
pub open spec fn named_key(w: Seq<char>) -> Option<KeyCode> {
    if w == seq!['s', 'p', 'a', 'c', 'e'] {
        Some(KeyCode::Space)
    } else if w == seq!['e', 'n', 't', 'e', 'r'] || w == seq!['r', 'e', 't', 'u', 'r', 'n'] {
        Some(KeyCode::Return)
    } else if w == seq!['e', 's', 'c', 'a', 'p', 'e'] || w == seq!['e', 's', 'c'] {
        Some(KeyCode::Escape)
    } else if w == seq!['t', 'a', 'b'] {
        Some(KeyCode::Tab)
    } else if w == seq!['b', 'a', 'c', 'k', 's', 'p', 'a', 'c', 'e'] {
        Some(KeyCode::Backspace)
    } else if w == seq!['d', 'e', 'l', 'e', 't', 'e'] || w == seq!['d', 'e', 'l'] {
        Some(KeyCode::Delete)
    } else if w == seq!['s', 'h', 'i', 'f', 't'] {
        Some(KeyCode::Shift)
    } else if w == seq!['c', 't', 'r', 'l'] || w == seq!['c', 'o', 'n', 't', 'r', 'o', 'l'] {
        Some(KeyCode::Control)
    } else if w == seq!['a', 'l', 't'] {
        Some(KeyCode::Alt)
    } else if w == seq!['m', 'e', 't', 'a'] || w == seq!['c', 'm', 'd'] || w == seq![
        's',
        'u',
        'p',
        'e',
        'r',
    ] || w == seq!['w', 'i', 'n'] {
        Some(KeyCode::Meta)
    } else if w == seq!['u', 'p'] || w == seq!['u', 'p', 'a', 'r', 'r', 'o', 'w'] {
        Some(KeyCode::UpArrow)
    } else if w == seq!['d', 'o', 'w', 'n'] || w == seq![
        'd',
        'o',
        'w',
        'n',
        'a',
        'r',
        'r',
        'o',
        'w',
    ] {
        Some(KeyCode::DownArrow)
    } else if w == seq!['l', 'e', 'f', 't'] || w == seq![
        'l',
        'e',
        'f',
        't',
        'a',
        'r',
        'r',
        'o',
        'w',
    ] {
        Some(KeyCode::LeftArrow)
    } else if w == seq!['r', 'i', 'g', 'h', 't'] || w == seq![
        'r',
        'i',
        'g',
        'h',
        't',
        'a',
        'r',
        'r',
        'o',
        'w',
    ] {
        Some(KeyCode::RightArrow)
    } else if w == seq!['h', 'o', 'm', 'e'] {
        Some(KeyCode::Home)
    } else if w == seq!['e', 'n', 'd'] {
        Some(KeyCode::End)
    } else if w == seq!['p', 'a', 'g', 'e', 'u', 'p'] {
        Some(KeyCode::PageUp)
    } else if w == seq!['p', 'a', 'g', 'e', 'd', 'o', 'w', 'n'] {
        Some(KeyCode::PageDown)
    } else {
        None
    }
}

/// `w` has the shape of a function-key name: `f` followed only by ASCII digits.
pub open spec fn is_function_key_shape(w: Seq<char>) -> bool {
    w.len() >= 1 && w[0] == 'f' && all_ascii_digits(w.drop_first())
}

/// What a key name denotes, or why it is refused.
pub open spec fn key_for_name(s: Seq<char>) -> Result<KeyCode, KeyErrorKind> {
    let w = ascii_lower(s);
    if named_key(w) is Some {
        Ok(named_key(w)->0)
    } else if is_function_key_shape(w) {
        let digits = w.drop_first();
        if digits.len() == 0 || decimal_value(digits) > u32::MAX {
            Err(KeyErrorKind::BadFunctionKey)
        } else {
            match function_key(decimal_value(digits)) {
                Some(k) => Ok(k),
                None => Err(KeyErrorKind::UnsupportedFunctionKey),
            }
        }
    } else if w.len() == 1 {
        Ok(KeyCode::Unicode(w[0]))
    } else {
        Err(KeyErrorKind::UnknownKey)
    }
}

/// The text that introduces a refusal of each kind.
pub open spec fn error_prefix(kind: KeyErrorKind) -> Seq<char> {
    match kind {
        KeyErrorKind::BadFunctionKey => "bad F-key: "@,
        KeyErrorKind::UnsupportedFunctionKey => "unsupported F-key: "@,
        KeyErrorKind::UnknownKey => "unknown key: "@,
    }
}

impl KeyParseError {
    /// A human-readable account of the refusal, naming the key as given.
    pub fn message(&self) -> (m: String)
        ensures
            m@ == error_prefix(self.kind) + self.key@,
    {
        let prefix = match self.kind {
            KeyErrorKind::BadFunctionKey => "bad F-key: ",
            KeyErrorKind::UnsupportedFunctionKey => "unsupported F-key: ",
            KeyErrorKind::UnknownKey => "unknown key: ",
        };
        prefix.to_owned().concat(self.key.as_str())
    }
}

/// Appending characters never makes a decimal number smaller.
proof fn lemma_decimal_value_prefix(s: Seq<char>, t: Seq<char>)
    ensures
        decimal_value(s) <= decimal_value(s + t),
    decreases t.len(),
{
    if t.len() > 0 {
        assert((s + t).drop_last() =~= s + t.drop_last());
        lemma_decimal_value_prefix(s, t.drop_last());
    } else {
        assert(s + t =~= s);
    }
}

fn lower_char(c: char) -> (r: char)
    ensures
        r == ascii_lower_char(c),
{
    if 'A' <= c && c <= 'Z' {
        ((c as u8) + 32) as char
    } else {
        c
    }
}

fn same_chars(v: &Vec<char>, w: &[char]) -> (r: bool)
    ensures
        r == (v@ == w@),
{
    if v.len() != w.len() {
        return false;
    }
    let mut i: usize = 0;
    while i < v.len()
        invariant
            v.len() == w@.len(),
            i <= v.len(),
            forall|j: int| 0 <= j < i ==> v@[j] == w@[j],
        decreases v.len() - i,
    {
        if v[i] != w[i] {
            return false;
        }
        i = i + 1;
    }
    assert(v@ =~= w@);
    true
}

fn lookup_named_key(w: &Vec<char>) -> (r: Option<KeyCode>)
    ensures
        r == named_key(w@),
{
    if same_chars(w, &['s', 'p', 'a', 'c', 'e']) {
        Some(KeyCode::Space)
    } else if same_chars(w, &['e', 'n', 't', 'e', 'r']) || same_chars(
        w,
        &['r', 'e', 't', 'u', 'r', 'n'],
    ) {
        Some(KeyCode::Return)
    } else if same_chars(w, &['e', 's', 'c', 'a', 'p', 'e']) || same_chars(w, &['e', 's', 'c']) {
        Some(KeyCode::Escape)
    } else if same_chars(w, &['t', 'a', 'b']) {
        Some(KeyCode::Tab)
    } else if same_chars(w, &['b', 'a', 'c', 'k', 's', 'p', 'a', 'c', 'e']) {
        Some(KeyCode::Backspace)
    } else if same_chars(w, &['d', 'e', 'l', 'e', 't', 'e']) || same_chars(w, &['d', 'e', 'l']) {
        Some(KeyCode::Delete)
    } else if same_chars(w, &['s', 'h', 'i', 'f', 't']) {
        Some(KeyCode::Shift)
    } else if same_chars(w, &['c', 't', 'r', 'l']) || same_chars(
        w,
        &['c', 'o', 'n', 't', 'r', 'o', 'l'],
    ) {
        Some(KeyCode::Control)
    } else if same_chars(w, &['a', 'l', 't']) {
        Some(KeyCode::Alt)
    } else if same_chars(w, &['m', 'e', 't', 'a']) || same_chars(w, &['c', 'm', 'd'])
        || same_chars(w, &['s', 'u', 'p', 'e', 'r']) || same_chars(w, &['w', 'i', 'n']) {
        Some(KeyCode::Meta)
    } else if same_chars(w, &['u', 'p']) || same_chars(w, &['u', 'p', 'a', 'r', 'r', 'o', 'w']) {
        Some(KeyCode::UpArrow)
    } else if same_chars(w, &['d', 'o', 'w', 'n']) || same_chars(
        w,
        &['d', 'o', 'w', 'n', 'a', 'r', 'r', 'o', 'w'],
    ) {
        Some(KeyCode::DownArrow)
    } else if same_chars(w, &['l', 'e', 'f', 't']) || same_chars(
        w,
        &['l', 'e', 'f', 't', 'a', 'r', 'r', 'o', 'w'],
    ) {
        Some(KeyCode::LeftArrow)
    } else if same_chars(w, &['r', 'i', 'g', 'h', 't']) || same_chars(
        w,
        &['r', 'i', 'g', 'h', 't', 'a', 'r', 'r', 'o', 'w'],
    ) {
        Some(KeyCode::RightArrow)
    } else if same_chars(w, &['h', 'o', 'm', 'e']) {
        Some(KeyCode::Home)
    } else if same_chars(w, &['e', 'n', 'd']) {
        Some(KeyCode::End)
    } else if same_chars(w, &['p', 'a', 'g', 'e', 'u', 'p']) {
        Some(KeyCode::PageUp)
    } else if same_chars(w, &['p', 'a', 'g', 'e', 'd', 'o', 'w', 'n']) {
        Some(KeyCode::PageDown)
    } else {
        None
    }
}

fn lookup_function_key(n: u32) -> (r: Option<KeyCode>)
    ensures
        r == function_key(n as nat),
{
    if n == 1 {
        Some(KeyCode::F1)
    } else if n == 2 {
        Some(KeyCode::F2)
    } else if n == 3 {
        Some(KeyCode::F3)
    } else if n == 4 {
        Some(KeyCode::F4)
    } else if n == 5 {
        Some(KeyCode::F5)
    } else if n == 6 {
        Some(KeyCode::F6)
    } else if n == 7 {
        Some(KeyCode::F7)
    } else if n == 8 {
        Some(KeyCode::F8)
    } else if n == 9 {
        Some(KeyCode::F9)
    } else if n == 10 {
        Some(KeyCode::F10)
    } else if n == 11 {
        Some(KeyCode::F11)
    } else if n == 12 {
        Some(KeyCode::F12)
    } else {
        None
    }
}

/// The ASCII lowercase of `s`, one character per element.
fn lowercase_chars(s: &str) -> (w: Vec<char>)
    ensures
        w@ == ascii_lower(s@),
{
    let n = s.unicode_len();
    let mut w: Vec<char> = Vec::new();
    let mut i: usize = 0;
    while i < n
        invariant
            n == s@.len(),
            i <= n,
            w@.len() == i,
            forall|j: int| 0 <= j < i ==> w@[j] == ascii_lower_char(s@[j]),
        decreases n - i,
    {
        let c = s.get_char(i);
        w.push(lower_char(c));
        i = i + 1;
    }
    assert(w@ =~= ascii_lower(s@));
    w
}

/// Whether every character of `w` from `start` on is an ASCII digit.
fn digits_from(w: &Vec<char>, start: usize) -> (r: bool)
    requires
        start <= w@.len(),
    ensures
        r == all_ascii_digits(w@.subrange(start as int, w@.len() as int)),
{
    let mut i: usize = start;
    while i < w.len()
        invariant
            start <= i <= w@.len(),
            forall|j: int| start <= j < i ==> is_ascii_digit(w@[j]),
        decreases w.len() - i,
    {
        if !('0' <= w[i] && w[i] <= '9') {
            assert(!is_ascii_digit(w@.subrange(start as int, w@.len() as int)[i - start]));
            return false;
        }
        i = i + 1;
    }
    assert forall|j: int| 0 <= j < w@.len() - start implies #[trigger] is_ascii_digit(
        w@.subrange(start as int, w@.len() as int)[j],
    ) by {
        assert(is_ascii_digit(w@[start + j]));
    }
    true
}

/// The `u32` written by the ASCII digits of `w` from `start` on, or `None`
/// where there are none or the number does not fit.
fn decimal_u32_from(w: &Vec<char>, start: usize) -> (r: Option<u32>)
    requires
        start <= w@.len(),
        all_ascii_digits(w@.subrange(start as int, w@.len() as int)),
    ensures
        ({
            let d = w@.subrange(start as int, w@.len() as int);
            match r {
                Some(n) => d.len() > 0 && decimal_value(d) <= u32::MAX && n == decimal_value(d),
                None => d.len() == 0 || decimal_value(d) > u32::MAX,
            }
        }),
{
    let ghost d = w@.subrange(start as int, w@.len() as int);
    if start == w.len() {
        return None;
    }
    let mut acc: u64 = 0;
    let mut i: usize = start;
    while i < w.len()
        invariant
            start <= i <= w@.len(),
            d == w@.subrange(start as int, w@.len() as int),
            all_ascii_digits(d),
            acc == decimal_value(w@.subrange(start as int, i as int)),
            acc <= u32::MAX,
        decreases w.len() - i,
    {
        assert(is_ascii_digit(d[i - start]));
        let digit = (w[i] as u32) - ('0' as u32);
        let next = acc * 10 + (digit as u64);
        proof {
            let pre = w@.subrange(start as int, i + 1);
            assert(pre.drop_last() =~= w@.subrange(start as int, i as int));
            assert(pre.last() == w@[i as int]);
        }
        if next > 0xffff_ffff {
            proof {
                let pre = w@.subrange(start as int, i + 1);
                lemma_decimal_value_prefix(pre, w@.subrange(i + 1, w@.len() as int));
                assert(pre + w@.subrange(i + 1, w@.len() as int) =~= d);
            }
            return None;
        }
        acc = next;
        i = i + 1;
    }
    Some(acc as u32)
}

/// Every one-character key name denotes the key of that character, with an
/// ASCII capital taken as its lowercase letter; the one exception is `f` (or
/// `F`), which reads as the start of a function-key name with no number and
/// is refused as a bad function key.
pub proof fn single_character_names(c: char)
    ensures
        c != 'f' && c != 'F' ==> key_for_name(seq![c]) == Ok::<KeyCode, KeyErrorKind>(
            KeyCode::Unicode(
                if 'A' <= c && c <= 'Z' {
                    ((c as int) + 32) as char
                } else {
                    c
                },
            ),
        ),
        c == 'f' || c == 'F' ==> key_for_name(seq![c]) == Err::<KeyCode, KeyErrorKind>(
            KeyErrorKind::BadFunctionKey,
        ),
{
    let lc = ascii_lower_char(c);
    assert(ascii_lower(seq![c]) =~= seq![lc]);
    assert(named_key(seq![lc]) is None);
    if lc == 'f' {
        assert(seq![lc].drop_first() =~= Seq::<char>::empty());
        assert(is_function_key_shape(seq![lc]));
    } else {
        assert(!is_function_key_shape(seq![lc]));
    }
}

/// The name a brain would send for each key.
pub open spec fn canonical_name(k: KeyCode) -> Seq<char> {
    match k {
        KeyCode::Space => seq!['s', 'p', 'a', 'c', 'e'],
        KeyCode::Return => seq!['e', 'n', 't', 'e', 'r'],
        KeyCode::Escape => seq!['e', 's', 'c', 'a', 'p', 'e'],
        KeyCode::Tab => seq!['t', 'a', 'b'],
        KeyCode::Backspace => seq!['b', 'a', 'c', 'k', 's', 'p', 'a', 'c', 'e'],
        KeyCode::Delete => seq!['d', 'e', 'l', 'e', 't', 'e'],
        KeyCode::Shift => seq!['s', 'h', 'i', 'f', 't'],
        KeyCode::Control => seq!['c', 't', 'r', 'l'],
        KeyCode::Alt => seq!['a', 'l', 't'],
        KeyCode::Meta => seq!['m', 'e', 't', 'a'],
        KeyCode::UpArrow => seq!['u', 'p'],
        KeyCode::DownArrow => seq!['d', 'o', 'w', 'n'],
        KeyCode::LeftArrow => seq!['l', 'e', 'f', 't'],
        KeyCode::RightArrow => seq!['r', 'i', 'g', 'h', 't'],
        KeyCode::Home => seq!['h', 'o', 'm', 'e'],
        KeyCode::End => seq!['e', 'n', 'd'],
        KeyCode::PageUp => seq!['p', 'a', 'g', 'e', 'u', 'p'],
        KeyCode::PageDown => seq!['p', 'a', 'g', 'e', 'd', 'o', 'w', 'n'],
        KeyCode::F1 => seq!['f', '1'],
        KeyCode::F2 => seq!['f', '2'],
        KeyCode::F3 => seq!['f', '3'],
        KeyCode::F4 => seq!['f', '4'],
        KeyCode::F5 => seq!['f', '5'],
        KeyCode::F6 => seq!['f', '6'],
        KeyCode::F7 => seq!['f', '7'],
        KeyCode::F8 => seq!['f', '8'],
        KeyCode::F9 => seq!['f', '9'],
        KeyCode::F10 => seq!['f', '1', '0'],
        KeyCode::F11 => seq!['f', '1', '1'],
        KeyCode::F12 => seq!['f', '1', '2'],
        KeyCode::Unicode(c) => seq![c],
    }
}

proof fn lemma_function_key_name(d1: char, d2: Option<char>, n: nat)
    requires
        '0' <= d1 <= '9',
        d2 matches Some(d) ==> '0' <= d <= '9',
        n == (match d2 {
            None => (d1 as int) - ('0' as int),
            Some(d) => ((d1 as int) - ('0' as int)) * 10 + (d as int) - ('0' as int),
        }),
    ensures
        ({
            let w = match d2 {
                None => seq!['f', d1],
                Some(d) => seq!['f', d1, d],
            };
            &&& named_key(w) is None
            &&& ascii_lower(w) == w
            &&& is_function_key_shape(w)
            &&& decimal_value(w.drop_first()) == n
        }),
{
    let w = match d2 {
        None => seq!['f', d1],
        Some(d) => seq!['f', d1, d],
    };
    assert(ascii_lower(w) =~= w);
    assert(seq![d1].drop_last() =~= Seq::<char>::empty());
    assert(decimal_value(Seq::<char>::empty()) == 0);
    assert(decimal_value(seq![d1]) == (d1 as int) - ('0' as int));
    match d2 {
        None => {
            assert(w.drop_first() =~= seq![d1]);
        },
        Some(d) => {
            assert(w.drop_first() =~= seq![d1, d]);
            assert(seq![d1, d].drop_last() =~= seq![d1]);
        },
    }
}

/// Every key has a name that denotes it: the name of each named key and of
/// each function key F1..F12, and the character itself for a character key
/// (other than an ASCII capital, which reads as its lowercase letter, and
/// `f`, which reads as the start of a function-key name).
pub proof fn every_key_has_a_name(k: KeyCode)
    requires
        k matches KeyCode::Unicode(c) ==> !('A' <= c && c <= 'Z') && c != 'f',
    ensures
        key_for_name(canonical_name(k)) == Ok::<KeyCode, KeyErrorKind>(k),
{
    let w = canonical_name(k);
    match k {
        KeyCode::Unicode(c) => {
            single_character_names(c);
        },
        KeyCode::F1 => lemma_function_key_name('1', None, 1),
        KeyCode::F2 => lemma_function_key_name('2', None, 2),
        KeyCode::F3 => lemma_function_key_name('3', None, 3),
        KeyCode::F4 => lemma_function_key_name('4', None, 4),
        KeyCode::F5 => lemma_function_key_name('5', None, 5),
        KeyCode::F6 => lemma_function_key_name('6', None, 6),
        KeyCode::F7 => lemma_function_key_name('7', None, 7),
        KeyCode::F8 => lemma_function_key_name('8', None, 8),
        KeyCode::F9 => lemma_function_key_name('9', None, 9),
        KeyCode::F10 => lemma_function_key_name('1', Some('0'), 10),
        KeyCode::F11 => lemma_function_key_name('1', Some('1'), 11),
        KeyCode::F12 => lemma_function_key_name('1', Some('2'), 12),
        _ => {
            assert(ascii_lower(w) =~= w);
        },
    }
}

/// Parses a key name as sent on the wire.
pub fn parse_key(s: &str) -> (r: Result<KeyCode, KeyParseError>)
    ensures
        match r {
            Ok(k) => key_for_name(s@) == Ok::<KeyCode, KeyErrorKind>(k),
            Err(e) => key_for_name(s@) == Err::<KeyCode, KeyErrorKind>(e.kind) && e.key@ == s@,
        },
        s@.len() == 1 && s@[0] != 'f' && s@[0] != 'F' ==> (r matches Ok(KeyCode::Unicode(c)) && c
            == (if 'A' <= s@[0] && s@[0] <= 'Z' {
            ((s@[0] as int) + 32) as char
        } else {
            s@[0]
        })),
{
    proof {
        if s@.len() == 1 {
            assert(s@ =~= seq![s@[0]]);
            single_character_names(s@[0]);
        }
    }
    let w = lowercase_chars(s);
    if let Some(k) = lookup_named_key(&w) {
        return Ok(k);
    }
    if w.len() >= 1 && w[0] == 'f' && digits_from(&w, 1) {
        assert(w@.drop_first() =~= w@.subrange(1, w@.len() as int));
        return match decimal_u32_from(&w, 1) {
            None => Err(KeyParseError { kind: KeyErrorKind::BadFunctionKey, key: s.to_owned() }),
            Some(n) => match lookup_function_key(n) {
                Some(k) => Ok(k),
                None => Err(
                    KeyParseError { kind: KeyErrorKind::UnsupportedFunctionKey, key: s.to_owned() },
                ),
            },
        };
    }
    proof {
        if w@.len() >= 1 && w@[0] == 'f' {
            assert(w@.drop_first() =~= w@.subrange(1, w@.len() as int));
        }
    }
    if w.len() == 1 {
        Ok(KeyCode::Unicode(w[0]))
    } else {
        Err(KeyParseError { kind: KeyErrorKind::UnknownKey, key: s.to_owned() })
    }
}

/// Key names are case-insensitive in ASCII: a name denotes what its ASCII
/// lowercase denotes.
pub proof fn key_names_ignore_ascii_case(s: Seq<char>)
    ensures
        key_for_name(s) == key_for_name(ascii_lower(s)),
{
    assert(ascii_lower(ascii_lower(s)) =~= ascii_lower(s));
}

} // verus!
