//! The brain-to-agent link: line-delimited messages.
//!
//! The brain sends each encoded message followed by a newline; the agent reads
//! one line at a time, trims surrounding whitespace, skips blank lines, and
//! hands the rest to the decoder. Decoded heartbeats only prove liveness;
//! everything else goes to the input worker.

use vstd::prelude::*;
use vstd::string::*;

use crate::input::InputCmd;
use crate::protocol::Message;

verus! {

/// Unicode `White_Space`, the characters that trimming removes.
pub open spec fn is_white_space(c: char) -> bool {
    ||| ('\u{9}' <= c && c <= '\u{d}')
    ||| c == ' '
    ||| c == '\u{85}'
    ||| c == '\u{a0}'
    ||| c == '\u{1680}'
    ||| ('\u{2000}' <= c && c <= '\u{200a}')
    ||| c == '\u{2028}'
    ||| c == '\u{2029}'
    ||| c == '\u{202f}'
    ||| c == '\u{205f}'
    ||| c == '\u{3000}'
}

/// `s` without its leading whitespace.
pub open spec fn trim_start(s: Seq<char>) -> Seq<char>
    decreases s.len(),
{
    if s.len() > 0 && is_white_space(s[0]) {
        trim_start(s.drop_first())
    } else {
        s
    }
}

/// `s` without its trailing whitespace.
pub open spec fn trim_end(s: Seq<char>) -> Seq<char>
    decreases s.len(),
{
    if s.len() > 0 && is_white_space(s.last()) {
        trim_end(s.drop_last())
    } else {
        s
    }
}

/// `s` without leading or trailing whitespace.
pub open spec fn trimmed(s: Seq<char>) -> Seq<char> {
    trim_end(trim_start(s))
}

/// The line that carries `payload`.
pub open spec fn framed(payload: Seq<char>) -> Seq<char> {
    payload.push('\n')
}

/// How a read on the agent's connection ended.
#[derive(Debug, Clone)]
pub enum ReadOutcome {
    /// Nothing arrived within the heartbeat timeout.
    TimedOut,
    /// The brain closed the connection.
    Closed,
    /// The read failed.
    Failed,
    /// One line arrived (with its newline, if any).
    Line(String),
}

/// Why the agent ends a connection.
#[derive(Debug, Clone, Copy, PartialEq, Eq, Structural, Hash)]
pub enum Disconnect {
    HeartbeatTimeout,
    Closed,
    ReadError,
}

/// What the agent does after a read.
#[derive(Debug, Clone)]
pub enum ConnStep<T> {
    /// End the connection, and send the input worker this command.
    End(Disconnect, InputCmd<T>),
    /// A blank line: read again.
    Skip,
    /// Decode this text as a message.
    Decode(String),
}

/// The step the agent takes for a received line.
pub open spec fn line_step(line: Seq<char>) -> Option<Seq<char>> {
    if trimmed(line).len() == 0 {
        None
    } else {
        Some(trimmed(line))
    }
}

fn white_space(c: char) -> (r: bool)
    ensures
        r == is_white_space(c),
{
    ('\u{9}' <= c && c <= '\u{d}') || c == ' ' || c == '\u{85}' || c == '\u{a0}' || c == '\u{1680}'
        || ('\u{2000}' <= c && c <= '\u{200a}') || c == '\u{2028}' || c == '\u{2029}' || c
        == '\u{202f}' || c == '\u{205f}' || c == '\u{3000}'
}

/// A line without leading or trailing whitespace.
pub fn trim_line(line: &str) -> (r: String)
    ensures
        r@ == trimmed(line@),
{
    let ghost s = line@;
    let n = line.unicode_len();
    let mut a: usize = 0;
    assert(s.subrange(0, n as int) =~= s);
    while a < n && white_space(line.get_char(a))
        invariant
            s == line@,
            n == s.len(),
            a <= n,
            trim_start(s) == trim_start(s.subrange(a as int, n as int)),
        decreases n - a,
    {
        assert(s.subrange(a as int, n as int).drop_first() =~= s.subrange(a + 1, n as int));
        a = a + 1;
    }
    assert(trim_start(s) == s.subrange(a as int, n as int));
    let mut b: usize = n;
    while b > a && white_space(line.get_char(b - 1))
        invariant
            s == line@,
            n == s.len(),
            a <= b <= n,
            trim_end(s.subrange(a as int, n as int)) == trim_end(s.subrange(a as int, b as int)),
        decreases b - a,
    {
        assert(s.subrange(a as int, b as int).drop_last() =~= s.subrange(a as int, b - 1));
        b = b - 1;
    }
    assert(trim_end(s.subrange(a as int, b as int)) == s.subrange(a as int, b as int));
    line.substring_char(a, b).to_owned()
}

/// The line that carries `payload` to the agent.
pub fn frame_line(payload: String) -> (r: String)
    ensures
        r@ == framed(payload@),
{
    proof {
        reveal_strlit("\n");
    }
    let r = payload.concat("\n");
    assert(r@ =~= framed(payload@));
    r
}

/// The agent's decision after a read. Whenever the connection ends (the
/// heartbeat timed out, the brain closed it, or the read failed) every held
/// input is let go of: the input worker is sent a release-all.
pub fn on_read<T>(outcome: ReadOutcome) -> (r: ConnStep<T>)
    ensures
        match outcome {
            ReadOutcome::TimedOut => r matches ConnStep::End(
                Disconnect::HeartbeatTimeout,
                InputCmd::ReleaseAll,
            ),
            ReadOutcome::Closed => r matches ConnStep::End(Disconnect::Closed, InputCmd::ReleaseAll),
            ReadOutcome::Failed => r matches ConnStep::End(
                Disconnect::ReadError,
                InputCmd::ReleaseAll,
            ),
            ReadOutcome::Line(line) => match line_step(line@) {
                None => r is Skip,
                Some(text) => r matches ConnStep::Decode(t) && t@ == text,
            },
        },
{
    match outcome {
        ReadOutcome::TimedOut => ConnStep::End(Disconnect::HeartbeatTimeout, InputCmd::ReleaseAll),
        ReadOutcome::Closed => ConnStep::End(Disconnect::Closed, InputCmd::ReleaseAll),
        ReadOutcome::Failed => ConnStep::End(Disconnect::ReadError, InputCmd::ReleaseAll),
        ReadOutcome::Line(line) => {
            let text = trim_line(line.as_str());
            if text.as_str().unicode_len() == 0 {
                ConnStep::Skip
            } else {
                ConnStep::Decode(text)
            }
        },
    }
}

/// Where a decoded message goes: heartbeats only prove liveness, every other
/// message is carried out by the input worker.
pub fn route<T>(msg: Message<T>) -> (r: Option<InputCmd<T>>)
    ensures
        match msg {
            Message::Heartbeat { .. } => r is None,
            _ => r == Some(InputCmd::Message(msg)),
        },
{
    match msg {
        Message::Heartbeat { .. } => None,
        other => Some(InputCmd::Message(other)),
    }
}

proof fn lemma_trim_start_shape(s: Seq<char>)
    ensures
        trim_start(s).len() == 0 || !is_white_space(trim_start(s)[0]),
        trim_start(s).len() > 0 ==> !is_white_space(trim_start(s).last()) || is_white_space(s.last()),
        trim_start(s).len() > 0 ==> trim_start(s).last() == s.last(),
    decreases s.len(),
{
    if s.len() > 0 && is_white_space(s[0]) {
        lemma_trim_start_shape(s.drop_first());
    }
}

proof fn lemma_trim_end_shape(s: Seq<char>)
    ensures
        trim_end(s).len() <= s.len(),
        trim_end(s) == s.take(trim_end(s).len() as int),
        trim_end(s).len() == 0 || !is_white_space(trim_end(s).last()),
    decreases s.len(),
{
    if s.len() > 0 && is_white_space(s.last()) {
        lemma_trim_end_shape(s.drop_last());
        assert(s.drop_last().take(trim_end(s).len() as int) =~= s.take(trim_end(s).len() as int));
    } else {
        assert(s.take(s.len() as int) =~= s);
    }
}

/// Trimming twice is trimming once.
pub proof fn trim_is_idempotent(s: Seq<char>)
    ensures
        trimmed(trimmed(s)) == trimmed(s),
{
    let a = trim_start(s);
    let t = trim_end(a);
    lemma_trim_start_shape(s);
    lemma_trim_end_shape(a);
    if t.len() > 0 {
        assert(t[0] == a[0]);
        assert(trim_start(t) == t);
    } else {
        assert(trim_start(t) == t);
    }
}

/// A line framed by the brain reaches the agent intact: it holds exactly one
/// newline, at its end, so the agent reads it as one line, and trimming that
/// line gives back the payload, which is then decoded. This holds for every
/// payload that is not empty, holds no newline, and neither starts nor ends
/// with whitespace (as a compact JSON object does).
pub proof fn framed_payload_is_decoded(payload: Seq<char>)
    requires
        payload.len() > 0,
        !payload.contains('\n'),
        !is_white_space(payload[0]),
        !is_white_space(payload.last()),
    ensures
        framed(payload).last() == '\n',
        forall|i: int| 0 <= i < framed(payload).len() - 1 ==> framed(payload)[i] != '\n',
        line_step(framed(payload)) == Some(payload),
{
    let f = framed(payload);
    assert(f[0] == payload[0]);
    assert(trim_start(f) == f);
    assert(f.drop_last() =~= payload);
    assert(trim_end(f) == trim_end(payload));
    assert forall|i: int| 0 <= i < f.len() - 1 implies f[i] != '\n' by {
        assert(f[i] == payload[i]);
    }
}

proof fn trim_start_index(s: Seq<char>) -> (a: int)
    ensures
        0 <= a <= s.len(),
        trim_start(s) == s.subrange(a, s.len() as int),
        forall|i: int| 0 <= i < a ==> is_white_space(#[trigger] s[i]),
        a < s.len() ==> !is_white_space(s[a]),
    decreases s.len(),
{
    if s.len() > 0 && is_white_space(s[0]) {
        let a1 = trim_start_index(s.drop_first());
        assert(s.drop_first().subrange(a1, s.drop_first().len() as int) =~= s.subrange(
            a1 + 1,
            s.len() as int,
        ));
        assert forall|i: int| 0 <= i < a1 + 1 implies is_white_space(#[trigger] s[i]) by {
            if i > 0 {
                assert(s[i] == s.drop_first()[i - 1]);
            }
        }
        a1 + 1
    } else {
        assert(s.subrange(0, s.len() as int) =~= s);
        0
    }
}

proof fn trim_end_index(s: Seq<char>) -> (b: int)
    ensures
        0 <= b <= s.len(),
        trim_end(s) == s.subrange(0, b),
        forall|i: int| b <= i < s.len() ==> is_white_space(#[trigger] s[i]),
        b > 0 ==> !is_white_space(s[b - 1]),
    decreases s.len(),
{
    if s.len() > 0 && is_white_space(s.last()) {
        let b1 = trim_end_index(s.drop_last());
        assert(s.drop_last().subrange(0, b1) =~= s.subrange(0, b1));
        assert forall|i: int| b1 <= i < s.len() implies is_white_space(#[trigger] s[i]) by {
            if i < s.len() - 1 {
                assert(s[i] == s.drop_last()[i]);
            }
        }
        b1
    } else {
        assert(s.subrange(0, s.len() as int) =~= s);
        s.len() as int
    }
}

/// A received line is skipped exactly when it holds nothing but whitespace.
/// Otherwise what is decoded is a stretch of the line that starts and ends
/// with a character that is not whitespace, with only whitespace before and
/// after it in the line.
pub proof fn read_lines_skip_only_blank_lines(line: Seq<char>)
    ensures
        line_step(line) is None <==> forall|i: int|
            0 <= i < line.len() ==> is_white_space(#[trigger] line[i]),
        line_step(line) matches Some(t) ==> exists|a: int, b: int|
            0 <= a < b <= line.len() && t == line.subrange(a, b) && !is_white_space(line[a])
                && !is_white_space(line[b - 1]) && (forall|i: int|
                0 <= i < a ==> is_white_space(#[trigger] line[i])) && (forall|i: int|
                b <= i < line.len() ==> is_white_space(#[trigger] line[i])),
{
    let a = trim_start_index(line);
    let rest = line.subrange(a, line.len() as int);
    let c = trim_end_index(rest);
    let b = a + c;
    assert(trimmed(line) =~= line.subrange(a, b));
    assert forall|i: int| b <= i < line.len() implies is_white_space(#[trigger] line[i]) by {
        assert(line[i] == rest[i - a]);
    }
    if c == 0 {
        assert forall|i: int| 0 <= i < line.len() implies is_white_space(#[trigger] line[i]) by {
            if i >= a {
                assert(line[i] == rest[i - a]);
            }
        }
    } else {
        assert(line[a] == rest[0]);
        assert(line[b - 1] == rest[c - 1]);
        assert(!is_white_space(line[a]));
    }
}

/// Line breaks, spaces and tabs are whitespace; no printable ASCII
/// character is.
pub proof fn ascii_whitespace_facts(c: char)
    ensures
        is_white_space('\n') && is_white_space('\r') && is_white_space(' ') && is_white_space('\t'),
        '!' <= c && c <= '~' ==> !is_white_space(c),
{
}

} // verus!
