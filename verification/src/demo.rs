//! The brain's built-in smoke sequence: walk forward for two seconds, look
//! right (500 px over 50 ticks), then left-click.
//!
//! The script is data; the caller stamps each message with the time at which
//! it is sent and carries the steps out in order.

use vstd::prelude::*;
use vstd::string::*;

use crate::input::{buttons_after, keys_after};
use crate::keys::{ascii_lower, key_for_name, KeyCode, KeyErrorKind};
use crate::protocol::{ClickState, KeyState, Message, MouseButton};

verus! {

/// One step of the demo.
#[derive(Debug, Clone)]
pub enum DemoStep {
    /// Start sending heartbeats in the background, one per period.
    StartHeartbeat { period_ms: u64 },
    /// Stop the background heartbeats.
    StopHeartbeat,
    /// Wait.
    Sleep { ms: u64 },
    /// Send a message; a failure aborts the demo.
    Send(Message<()>),
    /// Send a message; a failure is only reported.
    SendBestEffort(Message<()>),
}

/// Number of steps in the demo.
pub open spec fn demo_len() -> int {
    111
}

/// The key the demo walks forward with.
pub open spec fn walk_key() -> Seq<char> {
    seq!['w']
}

/// `s` sends a key message for `name` in `state`.
pub open spec fn sends_key(s: DemoStep, name: Seq<char>, state: KeyState) -> bool {
    s matches DemoStep::Send(Message::Key { key, state: st, .. }) && key@ == name && st == state
}

/// The step at position `i` of the demo is `s`.
pub open spec fn demo_step(i: int, s: DemoStep) -> bool {
    if i == 0 {
        s == DemoStep::StartHeartbeat { period_ms: 500 }
    } else if 1 <= i <= 3 {
        s == DemoStep::Sleep { ms: 1000 }
    } else if i == 4 {
        sends_key(s, walk_key(), KeyState::Down)
    } else if i == 5 {
        s == DemoStep::Sleep { ms: 2000 }
    } else if i == 6 {
        sends_key(s, walk_key(), KeyState::Up)
    } else if 7 <= i < 107 {
        if (i - 7) % 2 == 0 {
            s == DemoStep::Send(Message::MouseMove { t: (), dx: 10, dy: 0 })
        } else {
            s == DemoStep::Sleep { ms: 20 }
        }
    } else if i == 107 {
        s == DemoStep::Send(
            Message::Mouse { t: (), button: MouseButton::Left, state: ClickState::Click },
        )
    } else if i == 108 {
        s == DemoStep::StopHeartbeat
    } else if i == 109 {
        s == DemoStep::Sleep { ms: 200 }
    } else {
        s == DemoStep::SendBestEffort(Message::Heartbeat { t: () })
    }
}

/// `steps` is the demo script.
pub open spec fn is_demo_script(steps: Seq<DemoStep>) -> bool {
    &&& steps.len() == demo_len()
    &&& forall|i: int| 0 <= i < steps.len() ==> #[trigger] demo_step(i, steps[i])
}

/// The demo script.
pub fn demo_script() -> (r: Vec<DemoStep>)
    ensures
        is_demo_script(r@),
{
    proof {
        reveal_strlit("w");
    }
    let mut r: Vec<DemoStep> = Vec::new();
    r.push(DemoStep::StartHeartbeat { period_ms: 500 });
    let mut k: usize = 0;
    while k < 3
        invariant
            k <= 3,
            r@.len() == 1 + k,
            forall|i: int| 0 <= i < r@.len() ==> #[trigger] demo_step(i, r@[i]),
        decreases 3 - k,
    {
        r.push(DemoStep::Sleep { ms: 1000 });
        k = k + 1;
    }
    let down = "w".to_owned();
    assert(down@ == walk_key());
    r.push(DemoStep::Send(Message::key((), down, KeyState::Down)));
    r.push(DemoStep::Sleep { ms: 2000 });
    let up = "w".to_owned();
    assert(up@ == walk_key());
    r.push(DemoStep::Send(Message::key((), up, KeyState::Up)));
    assert(demo_step(4, r@[4]));
    assert(demo_step(6, r@[6]));
    let mut m: usize = 0;
    while m < 50
        invariant
            m <= 50,
            r@.len() == 7 + 2 * m,
            forall|i: int| 0 <= i < r@.len() ==> #[trigger] demo_step(i, r@[i]),
        decreases 50 - m,
    {
        r.push(DemoStep::Send(Message::mouse_move((), 10, 0)));
        r.push(DemoStep::Sleep { ms: 20 });
        m = m + 1;
    }
    r.push(DemoStep::Send(Message::mouse((), MouseButton::Left, ClickState::Click)));
    r.push(DemoStep::StopHeartbeat);
    r.push(DemoStep::Sleep { ms: 200 });
    r.push(DemoStep::SendBestEffort(Message::heartbeat(())));
    r
}

/// The message a step sends, if any.
pub open spec fn sent(s: DemoStep) -> Option<Message<()>> {
    match s {
        DemoStep::Send(m) => Some(m),
        DemoStep::SendBestEffort(m) => Some(m),
        _ => None,
    }
}

/// The key names an agent holds after carrying out the messages of `steps`,
/// starting from `held`.
pub open spec fn keys_after_steps(held: Set<Seq<char>>, steps: Seq<DemoStep>) -> Set<Seq<char>>
    decreases steps.len(),
{
    if steps.len() == 0 {
        held
    } else {
        let before = keys_after_steps(held, steps.drop_last());
        match sent(steps.last()) {
            Some(m) => keys_after(before, m),
            None => before,
        }
    }
}

/// The mouse buttons an agent holds after carrying out the messages of
/// `steps`, starting from `held`.
pub open spec fn buttons_after_steps(held: Set<MouseButton>, steps: Seq<DemoStep>) -> Set<MouseButton>
    decreases steps.len(),
{
    if steps.len() == 0 {
        held
    } else {
        let before = buttons_after_steps(held, steps.drop_last());
        match sent(steps.last()) {
            Some(m) => buttons_after(before, m),
            None => before,
        }
    }
}

/// Total relative mouse movement (horizontal, vertical) sent by `steps`.
pub open spec fn mouse_travel(steps: Seq<DemoStep>) -> (int, int)
    decreases steps.len(),
{
    if steps.len() == 0 {
        (0, 0)
    } else {
        let before = mouse_travel(steps.drop_last());
        match sent(steps.last()) {
            Some(Message::MouseMove { dx, dy, .. }) => (before.0 + dx, before.1 + dy),
            _ => before,
        }
    }
}

proof fn lemma_walk_key_names_w()
    ensures
        key_for_name(walk_key()) == Ok::<KeyCode, KeyErrorKind>(KeyCode::Unicode('w')),
{
    assert(ascii_lower(walk_key()) =~= seq!['w']);
    assert(seq!['w'][0] != 'f');
}

proof fn lemma_demo_prefix(steps: Seq<DemoStep>, k: int)
    requires
        is_demo_script(steps),
        0 <= k <= demo_len(),
    ensures
        keys_after_steps(Set::empty(), steps.take(k)) == (if 5 <= k <= 6 {
            Set::empty().insert(walk_key())
        } else {
            Set::<Seq<char>>::empty()
        }),
        buttons_after_steps(Set::empty(), steps.take(k)) == Set::<MouseButton>::empty(),
        mouse_travel(steps.take(k)) == (if k <= 7 {
            (0int, 0int)
        } else if k <= 107 {
            (10 * ((k - 6) / 2), 0int)
        } else {
            (500int, 0int)
        }),
    decreases k,
{
    if k > 0 {
        lemma_demo_prefix(steps, k - 1);
        assert(steps.take(k).drop_last() =~= steps.take(k - 1));
        assert(steps.take(k).last() == steps[k - 1]);
        assert(demo_step(k - 1, steps[k - 1]));
        lemma_walk_key_names_w();
        if k == 7 {
            assert(Set::<Seq<char>>::empty().insert(walk_key()).remove(walk_key()) =~= Set::<
                Seq<char>,
            >::empty());
        }
    } else {
        assert(steps.take(0) =~= Seq::<DemoStep>::empty());
    }
}

/// The demo leaves nothing held: every key and mouse button it presses it
/// also lets go of, so an agent that starts with nothing held ends with
/// nothing held. Along the way it moves the mouse 500 px to the right and
/// not at all vertically.
pub proof fn demo_releases_everything_and_looks_right(steps: Seq<DemoStep>)
    requires
        is_demo_script(steps),
    ensures
        keys_after_steps(Set::empty(), steps) == Set::<Seq<char>>::empty(),
        buttons_after_steps(Set::empty(), steps) == Set::<MouseButton>::empty(),
        mouse_travel(steps) == (500int, 0int),
{
    lemma_demo_prefix(steps, demo_len());
    assert(steps.take(demo_len()) =~= steps);
}

} // verus!
