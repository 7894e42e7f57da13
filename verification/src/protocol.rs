//! Wire-level message types shared by the brain and the agent.
//!
//! Messages carry a timestamp of a type chosen by the caller (the wire format
//! uses seconds since the epoch as a float); the logic of this library never
//! looks inside it.

use vstd::prelude::*;

verus! {

/// Default TCP port the agent listens on.
pub const DEFAULT_PORT: u16 = 7878;

/// Whether a key goes down or comes up.
#[derive(Debug, Clone, Copy, PartialEq, Eq, Structural, Hash)]
pub enum KeyState {
    Down,
    Up,
}

/// What happens to a mouse button: pressed, released, or a full click.
#[derive(Debug, Clone, Copy, PartialEq, Eq, Structural, Hash)]
pub enum ClickState {
    Down,
    Up,
    Click,
}

/// A mouse button.
#[derive(Debug, Clone, Copy, PartialEq, Eq, Structural, Hash)]
pub enum MouseButton {
    Left,
    Right,
    Middle,
}

/// One message on the wire, stamped with a time of type `T`.
#[allow(inconsistent_fields)]
#[derive(Debug, Clone)]
pub enum Message<T> {
    Key { t: T, key: String, state: KeyState },
    MouseMove { t: T, dx: i32, dy: i32 },
    Mouse { t: T, button: MouseButton, state: ClickState },
    Heartbeat { t: T },
}

impl<T> Message<T> {
    /// The timestamp carried by any message.
    pub open spec fn time(&self) -> T {
        match *self {
            Message::Key { t, .. } => t,
            Message::MouseMove { t, .. } => t,
            Message::Mouse { t, .. } => t,
            Message::Heartbeat { t } => t,
        }
    }

    /// A key message stamped with `t`.
    pub fn key(t: T, key: String, state: KeyState) -> (m: Message<T>)
        ensures
            m == (Message::Key { t, key, state }),
    {
        Message::Key { t, key, state }
    }

    /// A relative mouse-move message stamped with `t`.
    pub fn mouse_move(t: T, dx: i32, dy: i32) -> (m: Message<T>)
        ensures
            m == (Message::<T>::MouseMove { t, dx, dy }),
    {
        Message::MouseMove { t, dx, dy }
    }

    /// A mouse-button message stamped with `t`.
    pub fn mouse(t: T, button: MouseButton, state: ClickState) -> (m: Message<T>)
        ensures
            m == (Message::<T>::Mouse { t, button, state }),
    {
        Message::Mouse { t, button, state }
    }

    /// A liveness message stamped with `t`.
    pub fn heartbeat(t: T) -> (m: Message<T>)
        ensures
            m == (Message::<T>::Heartbeat { t }),
    {
        Message::Heartbeat { t }
    }

    /// The same message with its timestamp replaced by `t`.
    pub fn stamped<U>(self, t: U) -> (m: Message<U>)
        ensures
            m.time() == t,
            m.same_body(self),
    {
        match self {
            Message::Key { key, state, .. } => Message::Key { t, key, state },
            Message::MouseMove { dx, dy, .. } => Message::MouseMove { t, dx, dy },
            Message::Mouse { button, state, .. } => Message::Mouse { t, button, state },
            Message::Heartbeat { .. } => Message::Heartbeat { t },
        }
    }

    /// Two messages say the same thing, whatever their timestamps.
    pub open spec fn same_body<U>(self, other: Message<U>) -> bool {
        match (self, other) {
            (Message::Key { key: k1, state: s1, .. }, Message::Key { key: k2, state: s2, .. }) =>
                k1@ == k2@ && s1 == s2,
            (Message::MouseMove { dx: x1, dy: y1, .. }, Message::MouseMove { dx: x2, dy: y2, .. }) =>
                x1 == x2 && y1 == y2,
            (Message::Mouse { button: b1, state: s1, .. }, Message::Mouse { button: b2, state: s2, .. }) =>
                b1 == b2 && s1 == s2,
            (Message::Heartbeat { .. }, Message::Heartbeat { .. }) => true,
            _ => false,
        }
    }
}

impl<T: Copy> Message<T> {
    /// The timestamp of the message.
    pub fn timestamp(&self) -> (t: T)
        ensures
            t == self.time(),
    {
        match self {
            Message::Key { t, .. } => *t,
            Message::MouseMove { t, .. } => *t,
            Message::Mouse { t, .. } => *t,
            Message::Heartbeat { t } => *t,
        }
    }
}

} // verus!
