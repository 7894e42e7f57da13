//! The agent's input state machine: which keys and mouse buttons it is
//! holding down, what each incoming message asks it to do, and what it must
//! release when the brain goes away.
//!
//! The library decides; the caller performs each returned [`InputAction`] on
//! the real input device (or only logs it, in a dry run).

use vstd::prelude::*;

use crate::keys::{key_for_name, parse_key, KeyCode, KeyErrorKind, KeyParseError};
use crate::protocol::{ClickState, KeyState, Message, MouseButton};

verus! {

/// How a key or button is driven.
#[derive(Debug, Clone, Copy, PartialEq, Eq, Structural, Hash)]
pub enum Direction {
    Press,
    Release,
    /// A press followed by a release.
    Click,
}

/// One thing to do on the input device.
#[derive(Debug, Clone, Copy, PartialEq, Eq, Structural, Hash)]
pub enum InputAction {
    Key { key: KeyCode, direction: Direction },
    MoveMouse { dx: i32, dy: i32 },
    Button { button: MouseButton, direction: Direction },
}

/// A command for the input worker.
#[derive(Debug, Clone)]
pub enum InputCmd<T> {
    /// Carry out one message from the brain.
    Message(Message<T>),
    /// Let go of everything that is held.
    ReleaseAll,
}

/// The direction a key message asks for.
pub open spec fn key_direction(state: KeyState) -> Direction {
    match state {
        KeyState::Down => Direction::Press,
        KeyState::Up => Direction::Release,
    }
}

/// The direction a mouse-button message asks for.
pub open spec fn click_direction(state: ClickState) -> Direction {
    match state {
        ClickState::Down => Direction::Press,
        ClickState::Up => Direction::Release,
        ClickState::Click => Direction::Click,
    }
}

/// What a message asks of the input device, or why the key it names is refused.
pub open spec fn action_for<T>(msg: Message<T>) -> Result<Option<InputAction>, KeyErrorKind> {
    match msg {
        Message::Key { key, state, .. } => match key_for_name(key@) {
            Ok(code) => Ok(Some(InputAction::Key { key: code, direction: key_direction(state) })),
            Err(kind) => Err(kind),
        },
        Message::MouseMove { dx, dy, .. } => Ok(Some(InputAction::MoveMouse { dx, dy })),
        Message::Mouse { button, state, .. } => Ok(
            Some(InputAction::Button { button, direction: click_direction(state) }),
        ),
        Message::Heartbeat { .. } => Ok(None),
    }
}

/// The key names held after `msg`, given those held before.
pub open spec fn keys_after<T>(held: Set<Seq<char>>, msg: Message<T>) -> Set<Seq<char>> {
    match msg {
        Message::Key { key, state, .. } => if key_for_name(key@) is Ok {
            match state {
                KeyState::Down => held.insert(key@),
                KeyState::Up => held.remove(key@),
            }
        } else {
            held
        },
        _ => held,
    }
}

/// The mouse buttons held after `msg`, given those held before.
pub open spec fn buttons_after<T>(held: Set<MouseButton>, msg: Message<T>) -> Set<MouseButton> {
    match msg {
        Message::Mouse { button, state, .. } => match state {
            ClickState::Down => held.insert(button),
            ClickState::Up => held.remove(button),
            ClickState::Click => held,
        },
        _ => held,
    }
}

/// The action that lets go of a held key name.
pub open spec fn key_release(name: Seq<char>) -> InputAction {
    InputAction::Key { key: key_for_name(name)->Ok_0, direction: Direction::Release }
}

/// The action that lets go of a held mouse button.
pub open spec fn button_release(button: MouseButton) -> InputAction {
    InputAction::Button { button, direction: Direction::Release }
}

/// The key names held after the input worker carries out `cmd`.
pub open spec fn keys_after_cmd<T>(held: Set<Seq<char>>, cmd: InputCmd<T>) -> Set<Seq<char>> {
    match cmd {
        InputCmd::Message(m) => keys_after(held, m),
        InputCmd::ReleaseAll => Set::empty(),
    }
}

/// The mouse buttons held after the input worker carries out `cmd`.
pub open spec fn buttons_after_cmd<T>(held: Set<MouseButton>, cmd: InputCmd<T>) -> Set<MouseButton> {
    match cmd {
        InputCmd::Message(m) => buttons_after(held, m),
        InputCmd::ReleaseAll => Set::empty(),
    }
}

/// The key names held after carrying out `cmds` in order, starting from `held`.
pub open spec fn keys_after_cmds<T>(held: Set<Seq<char>>, cmds: Seq<InputCmd<T>>) -> Set<Seq<char>>
    decreases cmds.len(),
{
    if cmds.len() == 0 {
        held
    } else {
        keys_after_cmd(keys_after_cmds(held, cmds.drop_last()), cmds.last())
    }
}

/// The mouse buttons held after carrying out `cmds` in order, starting from `held`.
pub open spec fn buttons_after_cmds<T>(held: Set<MouseButton>, cmds: Seq<InputCmd<T>>) -> Set<
    MouseButton,
>
    decreases cmds.len(),
{
    if cmds.len() == 0 {
        held
    } else {
        buttons_after_cmd(buttons_after_cmds(held, cmds.drop_last()), cmds.last())
    }
}

/// The key names held after carrying out `msgs` in order, starting from `held`.
pub open spec fn keys_after_msgs<T>(held: Set<Seq<char>>, msgs: Seq<Message<T>>) -> Set<Seq<char>>
    decreases msgs.len(),
{
    if msgs.len() == 0 {
        held
    } else {
        keys_after(keys_after_msgs(held, msgs.drop_last()), msgs.last())
    }
}

/// The mouse buttons held after carrying out `msgs` in order, starting from `held`.
pub open spec fn buttons_after_msgs<T>(held: Set<MouseButton>, msgs: Seq<Message<T>>) -> Set<
    MouseButton,
>
    decreases msgs.len(),
{
    if msgs.len() == 0 {
        held
    } else {
        buttons_after(buttons_after_msgs(held, msgs.drop_last()), msgs.last())
    }
}

/// `m` is a key message for the name `k` in `state`.
pub open spec fn is_key_msg<T>(m: Message<T>, k: Seq<char>, state: KeyState) -> bool {
    m matches Message::Key { key, state: s, .. } && key@ == k && s == state
}

/// `m` is a mouse-button message for `b` in `state`.
pub open spec fn is_button_msg<T>(m: Message<T>, b: MouseButton, state: ClickState) -> bool {
    m matches Message::Mouse { button, state: s, .. } && button == b && s == state
}

/// `cmd` carries a key message for the name `k` in `state`.
pub open spec fn cmd_is_key_msg<T>(cmd: InputCmd<T>, k: Seq<char>, state: KeyState) -> bool {
    cmd matches InputCmd::Message(m) && is_key_msg(m, k, state)
}

/// `cmd` carries a mouse-button message for `b` in `state`.
pub open spec fn cmd_is_button_msg<T>(cmd: InputCmd<T>, b: MouseButton, state: ClickState) -> bool {
    cmd matches InputCmd::Message(m) && is_button_msg(m, b, state)
}

/// Some command of `cmds` presses the key named `k`, and no later command is
/// a release-all or a key-up for `k`; and `k` names a key.
pub open spec fn key_pressed_since_release<T>(cmds: Seq<InputCmd<T>>, k: Seq<char>) -> bool {
    &&& key_for_name(k) is Ok
    &&& exists|i: int|
        0 <= i < cmds.len() && #[trigger] cmd_is_key_msg(cmds[i], k, KeyState::Down) && forall|
            j: int,
        |
            #![trigger cmds[j]]
            i < j < cmds.len() ==> !(cmds[j] is ReleaseAll) && !cmd_is_key_msg(
                cmds[j],
                k,
                KeyState::Up,
            )
}

/// Some command of `cmds` presses mouse button `b`, and no later command is a
/// release-all or a button-up for `b`.
pub open spec fn button_pressed_since_release<T>(cmds: Seq<InputCmd<T>>, b: MouseButton) -> bool {
    exists|i: int|
        0 <= i < cmds.len() && #[trigger] cmd_is_button_msg(cmds[i], b, ClickState::Down) && forall|
            j: int,
        |
            #![trigger cmds[j]]
            i < j < cmds.len() ==> !(cmds[j] is ReleaseAll) && !cmd_is_button_msg(
                cmds[j],
                b,
                ClickState::Up,
            )
}

/// Some message of `msgs` presses the key named `k` and no later message
/// releases it; and `k` names a key.
pub open spec fn key_pressed_in<T>(msgs: Seq<Message<T>>, k: Seq<char>) -> bool {
    &&& key_for_name(k) is Ok
    &&& exists|i: int|
        0 <= i < msgs.len() && #[trigger] is_key_msg(msgs[i], k, KeyState::Down) && forall|j: int|
            #![trigger msgs[j]]
            i < j < msgs.len() ==> !is_key_msg(msgs[j], k, KeyState::Up)
}

/// Some message of `msgs` presses mouse button `b` and no later message
/// releases it.
pub open spec fn button_pressed_in<T>(msgs: Seq<Message<T>>, b: MouseButton) -> bool {
    exists|i: int|
        0 <= i < msgs.len() && #[trigger] is_button_msg(msgs[i], b, ClickState::Down) && forall|
            j: int,
        |
            #![trigger msgs[j]]
            i < j < msgs.len() ==> !is_button_msg(msgs[j], b, ClickState::Up)
}

/// The keys (by the name they were pressed under) and mouse buttons held down.
pub struct InputState {
    held_keys: Vec<String>,
    held_buttons: Vec<MouseButton>,
}

impl InputState {
    /// The held key names, each once, in the order `release_all` lets go of them.
    pub closed spec fn keys(&self) -> Seq<Seq<char>> {
        self.held_keys@.map_values(|k: String| k@)
    }

    /// The held mouse buttons, each once, in the order `release_all` lets go of them.
    pub closed spec fn buttons(&self) -> Seq<MouseButton> {
        self.held_buttons@
    }

    pub open spec fn key_set(&self) -> Set<Seq<char>> {
        self.keys().to_set()
    }

    pub open spec fn button_set(&self) -> Set<MouseButton> {
        self.buttons().to_set()
    }

    /// Nothing is held twice, and every held key name denotes a key.
    pub open spec fn wf(&self) -> bool {
        &&& self.keys().no_duplicates()
        &&& self.buttons().no_duplicates()
        &&& forall|i: int| 0 <= i < self.keys().len() ==> #[trigger] key_for_name(self.keys()[i]) is Ok
    }

    /// Nothing held.
    pub fn new() -> (s: InputState)
        ensures
            s.wf(),
            s.keys() == Seq::<Seq<char>>::empty(),
            s.buttons() == Seq::<MouseButton>::empty(),
    {
        let s = InputState { held_keys: Vec::new(), held_buttons: Vec::new() };
        assert(s.keys() =~= Seq::<Seq<char>>::empty());
        s
    }

    /// Whether a key is held under the name `key`.
    pub fn holds_key(&self, key: &str) -> (r: bool)
        ensures
            r == self.key_set().contains(key@),
    {
        let name = key.to_owned();
        self.key_index(&name).is_some()
    }

    /// Whether `button` is held.
    pub fn holds_button(&self, button: MouseButton) -> (r: bool)
        ensures
            r == self.button_set().contains(button),
    {
        self.button_index(button).is_some()
    }

    /// Whether nothing at all is held.
    pub fn is_idle(&self) -> (r: bool)
        ensures
            r == (self.keys().len() == 0 && self.buttons().len() == 0),
    {
        self.held_keys.len() == 0 && self.held_buttons.len() == 0
    }

    fn key_index(&self, key: &String) -> (r: Option<usize>)
        ensures
            match r {
                Some(i) => i < self.keys().len() && self.keys()[i as int] == key@,
                None => !self.keys().contains(key@),
            },
    {
        let mut i: usize = 0;
        while i < self.held_keys.len()
            invariant
                i <= self.held_keys@.len(),
                self.keys().len() == self.held_keys@.len(),
                forall|j: int| 0 <= j < i ==> self.keys()[j] != key@,
            decreases self.held_keys.len() - i,
        {
            if self.held_keys[i] == *key {
                return Some(i);
            }
            i = i + 1;
        }
        None
    }

    fn button_index(&self, button: MouseButton) -> (r: Option<usize>)
        ensures
            match r {
                Some(i) => i < self.buttons().len() && self.buttons()[i as int] == button,
                None => !self.buttons().contains(button),
            },
    {
        let mut i: usize = 0;
        while i < self.held_buttons.len()
            invariant
                i <= self.held_buttons@.len(),
                forall|j: int| 0 <= j < i ==> self.buttons()[j] != button,
            decreases self.held_buttons.len() - i,
        {
            if self.held_buttons[i] == button {
                return Some(i);
            }
            i = i + 1;
        }
        None
    }

    fn hold_key(&mut self, key: &String)
        requires
            old(self).wf(),
            key_for_name(key@) is Ok,
        ensures
            final(self).wf(),
            final(self).key_set() == old(self).key_set().insert(key@),
            final(self).buttons() == old(self).buttons(),
    {
        match self.key_index(key) {
            Some(_) => {
                assert(self.key_set().insert(key@) =~= self.key_set());
            },
            None => {
                let ghost before = self.keys();
                self.held_keys.push(key.clone());
                assert(self.keys() =~= before.push(key@));
                proof {
                    Seq::lemma_to_set_insert_commutes(before, key@);
                    assert(before.push(key@) =~= before + seq![key@]);
                }
            },
        }
    }

    fn let_go_key(&mut self, key: &String)
        requires
            old(self).wf(),
        ensures
            final(self).wf(),
            final(self).key_set() == old(self).key_set().remove(key@),
            final(self).buttons() == old(self).buttons(),
    {
        match self.key_index(key) {
            None => {
                assert(self.key_set().remove(key@) =~= self.key_set());
            },
            Some(i) => {
                let ghost before = self.keys();
                self.held_keys.remove(i);
                assert(self.keys() =~= before.remove(i as int));
                assert(self.key_set() =~= before.to_set().remove(key@)) by {
                    assert forall|x: Seq<char>| #[trigger]
                        self.key_set().contains(x) implies before.to_set().remove(key@).contains(
                        x,
                    ) by {
                        let j = choose|j: int| 0 <= j < self.keys().len() && self.keys()[j] == x;
                        if j < i {
                            assert(before[j] == x);
                        } else {
                            assert(before[j + 1] == x);
                        }
                    }
                    assert forall|x: Seq<char>| #[trigger]
                        before.to_set().remove(key@).contains(x) implies self.key_set().contains(
                        x,
                    ) by {
                        let j = choose|j: int| 0 <= j < before.len() && before[j] == x;
                        if j < i {
                            assert(self.keys()[j] == x);
                        } else {
                            assert(self.keys()[j - 1] == x);
                        }
                    }
                }
            },
        }
    }

    fn hold_button(&mut self, button: MouseButton)
        requires
            old(self).wf(),
        ensures
            final(self).wf(),
            final(self).button_set() == old(self).button_set().insert(button),
            final(self).keys() == old(self).keys(),
    {
        match self.button_index(button) {
            Some(_) => {
                assert(self.button_set().insert(button) =~= self.button_set());
            },
            None => {
                let ghost before = self.buttons();
                self.held_buttons.push(button);
                assert(self.buttons() =~= before.push(button));
                proof {
                    Seq::lemma_to_set_insert_commutes(before, button);
                    assert(before.push(button) =~= before + seq![button]);
                }
            },
        }
    }

    fn let_go_button(&mut self, button: MouseButton)
        requires
            old(self).wf(),
        ensures
            final(self).wf(),
            final(self).button_set() == old(self).button_set().remove(button),
            final(self).keys() == old(self).keys(),
    {
        match self.button_index(button) {
            None => {
                assert(self.button_set().remove(button) =~= self.button_set());
            },
            Some(i) => {
                let ghost before = self.buttons();
                self.held_buttons.remove(i);
                assert(self.buttons() =~= before.remove(i as int));
                assert(self.button_set() =~= before.to_set().remove(button)) by {
                    assert forall|x: MouseButton| #[trigger]
                        self.button_set().contains(x) implies before.to_set().remove(
                        button,
                    ).contains(x) by {
                        let j = choose|j: int| 0 <= j < self.buttons().len() && self.buttons()[j] == x;
                        if j < i {
                            assert(before[j] == x);
                        } else {
                            assert(before[j + 1] == x);
                        }
                    }
                    assert forall|x: MouseButton| #[trigger]
                        before.to_set().remove(button).contains(x) implies self.button_set().contains(
                        x,
                    ) by {
                        let j = choose|j: int| 0 <= j < before.len() && before[j] == x;
                        if j < i {
                            assert(self.buttons()[j] == x);
                        } else {
                            assert(self.buttons()[j - 1] == x);
                        }
                    }
                }
            },
        }
    }

    /// Carries out one message: updates what is held and returns the action to
    /// perform, if any. A key message whose key name is refused changes nothing.
    pub fn apply<T>(&mut self, msg: &Message<T>) -> (r: Result<Option<InputAction>, KeyParseError>)
        requires
            old(self).wf(),
        ensures
            final(self).wf(),
            final(self).key_set() == keys_after(old(self).key_set(), *msg),
            final(self).button_set() == buttons_after(old(self).button_set(), *msg),
            match r {
                Ok(a) => action_for(*msg) == Ok::<Option<InputAction>, KeyErrorKind>(a),
                Err(e) => action_for(*msg) == Err::<Option<InputAction>, KeyErrorKind>(e.kind)
                    && (match *msg {
                    Message::Key { key, .. } => e.key@ == key@,
                    _ => false,
                }),
            },
    {
        match msg {
            Message::Key { key, state, .. } => {
                let code = match parse_key(key.as_str()) {
                    Ok(code) => code,
                    Err(e) => {
                        return Err(e);
                    },
                };
                match state {
                    KeyState::Down => {
                        self.hold_key(key);
                        Ok(Some(InputAction::Key { key: code, direction: Direction::Press }))
                    },
                    KeyState::Up => {
                        self.let_go_key(key);
                        Ok(Some(InputAction::Key { key: code, direction: Direction::Release }))
                    },
                }
            },
            Message::MouseMove { dx, dy, .. } => Ok(
                Some(InputAction::MoveMouse { dx: *dx, dy: *dy }),
            ),
            Message::Mouse { button, state, .. } => match state {
                ClickState::Down => {
                    self.hold_button(*button);
                    Ok(Some(InputAction::Button { button: *button, direction: Direction::Press }))
                },
                ClickState::Up => {
                    self.let_go_button(*button);
                    Ok(Some(InputAction::Button { button: *button, direction: Direction::Release }))
                },
                ClickState::Click => Ok(
                    Some(InputAction::Button { button: *button, direction: Direction::Click }),
                ),
            },
            Message::Heartbeat { .. } => Ok(None),
        }
    }

    /// Lets go of everything: returns a release for every held key (in the
    /// order of `keys()`), then for every held button (in the order of
    /// `buttons()`), and holds nothing afterwards.
    pub fn release_all(&mut self) -> (r: Vec<InputAction>)
        requires
            old(self).wf(),
        ensures
            final(self).wf(),
            final(self).keys() == Seq::<Seq<char>>::empty(),
            final(self).buttons() == Seq::<MouseButton>::empty(),
            r@ == old(self).keys().map_values(|k: Seq<char>| key_release(k)) + old(
                self,
            ).buttons().map_values(|b: MouseButton| button_release(b)),
    {
        let mut out: Vec<InputAction> = Vec::new();
        let mut i: usize = 0;
        while i < self.held_keys.len()
            invariant
                self.wf(),
                i <= self.held_keys@.len(),
                self.keys().len() == self.held_keys@.len(),
                out@ =~= self.keys().take(i as int).map_values(|k: Seq<char>| key_release(k)),
            decreases self.held_keys.len() - i,
        {
            assert(key_for_name(self.keys()[i as int]) is Ok);
            match parse_key(self.held_keys[i].as_str()) {
                Ok(code) => {
                    out.push(InputAction::Key { key: code, direction: Direction::Release });
                },
                // Cannot happen: every held name was accepted when it was pressed.
                Err(_) => {},
            }
            assert(self.keys().take(i + 1) =~= self.keys().take(i as int).push(self.keys()[i as int]));
            i = i + 1;
        }
        assert(self.keys().take(i as int) =~= self.keys());
        let mut j: usize = 0;
        let ghost n = out@.len();
        while j < self.held_buttons.len()
            invariant
                j <= self.held_buttons@.len(),
                n == self.keys().len(),
                out@ =~= self.keys().map_values(|k: Seq<char>| key_release(k)) + self.buttons().take(
                    j as int,
                ).map_values(|b: MouseButton| button_release(b)),
            decreases self.held_buttons.len() - j,
        {
            out.push(InputAction::Button { button: self.held_buttons[j], direction: Direction::Release });
            assert(self.buttons().take(j + 1) =~= self.buttons().take(j as int).push(
                self.buttons()[j as int],
            ));
            j = j + 1;
        }
        assert(self.buttons().take(j as int) =~= self.buttons());
        self.held_keys = Vec::new();
        self.held_buttons = Vec::new();
        assert(self.keys() =~= Seq::<Seq<char>>::empty());
        out
    }

    /// One step of the input worker: a message is carried out (yielding at
    /// most one action), a release-all lets go of everything.
    pub fn handle<T>(&mut self, cmd: InputCmd<T>) -> (r: Result<Vec<InputAction>, KeyParseError>)
        requires
            old(self).wf(),
        ensures
            final(self).wf(),
            final(self).key_set() == keys_after_cmd(old(self).key_set(), cmd),
            final(self).button_set() == buttons_after_cmd(old(self).button_set(), cmd),
            match cmd {
                InputCmd::Message(msg) => {
                    &&& final(self).key_set() == keys_after(old(self).key_set(), msg)
                    &&& final(self).button_set() == buttons_after(old(self).button_set(), msg)
                    &&& match r {
                        Ok(v) => match action_for(msg) {
                            Ok(Some(a)) => v@ == seq![a],
                            Ok(None) => v@ == Seq::<InputAction>::empty(),
                            Err(_) => false,
                        },
                        Err(e) => action_for(msg) == Err::<Option<InputAction>, KeyErrorKind>(
                            e.kind,
                        ) && (msg matches Message::Key { key, .. } && e.key@ == key@),
                    }
                },
                InputCmd::ReleaseAll => {
                    &&& final(self).keys() == Seq::<Seq<char>>::empty()
                    &&& final(self).buttons() == Seq::<MouseButton>::empty()
                    &&& r matches Ok(v) && v@ == old(self).keys().map_values(
                        |k: Seq<char>| key_release(k),
                    ) + old(self).buttons().map_values(|b: MouseButton| button_release(b))
                },
            },
    {
        match cmd {
            InputCmd::Message(msg) => {
                let a = self.apply(&msg)?;
                let mut v: Vec<InputAction> = Vec::new();
                match a {
                    Some(a) => {
                        v.push(a);
                    },
                    None => {},
                }
                assert(a is Some ==> v@ =~= seq![a->0]);
                Ok(v)
            },
            InputCmd::ReleaseAll => {
                let v = self.release_all();
                assert(self.key_set() =~= Set::<Seq<char>>::empty());
                assert(self.button_set() =~= Set::<MouseButton>::empty());
                Ok(v)
            },
        }
    }
}

/// Pressing a key that is not held and then releasing it under the same name
/// leaves the held keys as they were.
pub proof fn press_then_release_restores_keys<T>(
    held: Set<Seq<char>>,
    down: Message<T>,
    up: Message<T>,
)
    requires
        down matches Message::Key { key: k1, state: KeyState::Down, .. } && !held.contains(k1@),
        up matches Message::Key { key: k2, state: KeyState::Up, .. } && k2@ == down->Key_key@,
    ensures
        keys_after(keys_after(held, down), up) == held,
{
    let name = down->Key_key@;
    if key_for_name(name) is Ok {
        assert(held.insert(name).remove(name) =~= held);
    }
}

/// Pressing a mouse button that is not held and then releasing it leaves the
/// held buttons as they were.
pub proof fn press_then_release_restores_buttons<T>(
    held: Set<MouseButton>,
    down: Message<T>,
    up: Message<T>,
)
    requires
        down matches Message::Mouse { button: b1, state: ClickState::Down, .. } && !held.contains(b1),
        up matches Message::Mouse { button: b2, state: ClickState::Up, .. } && b2 == down->Mouse_button,
    ensures
        buttons_after(buttons_after(held, down), up) == held,
{
    let b = down->Mouse_button;
    assert(held.insert(b).remove(b) =~= held);
}

/// Pressing what is already held changes nothing.
pub proof fn repeated_press_changes_nothing<T>(
    keys: Set<Seq<char>>,
    buttons: Set<MouseButton>,
    msg: Message<T>,
)
    requires
        msg matches Message::Key { key, state: KeyState::Down, .. } ==> keys.contains(key@),
        msg matches Message::Mouse { button, state: ClickState::Down, .. } ==> buttons.contains(button),
        (msg matches Message::Key { state: KeyState::Down, .. }) || (msg matches Message::Mouse {
            state: ClickState::Down,
            ..
        }),
    ensures
        keys_after(keys, msg) == keys,
        buttons_after(buttons, msg) == buttons,
{
    match msg {
        Message::Key { key, .. } => {
            assert(keys.insert(key@) =~= keys);
        },
        Message::Mouse { button, .. } => {
            assert(buttons.insert(button) =~= buttons);
        },
        _ => {},
    }
}

/// Heartbeats, mouse moves, clicks and messages naming an unknown key never
/// change what is held.
pub proof fn non_holding_messages_change_nothing<T>(
    keys: Set<Seq<char>>,
    buttons: Set<MouseButton>,
    msg: Message<T>,
)
    requires
        ({
            ||| msg is Heartbeat
            ||| msg is MouseMove
            ||| msg matches Message::Mouse { state: ClickState::Click, .. }
            ||| msg matches Message::Key { key, .. } && key_for_name(key@) is Err
        }),
    ensures
        keys_after(keys, msg) == keys,
        buttons_after(buttons, msg) == buttons,
{
}

proof fn lemma_keys_after_cmds<T>(cmds: Seq<InputCmd<T>>, k: Seq<char>)
    ensures
        keys_after_cmds(Set::empty(), cmds).contains(k) <==> key_pressed_since_release(cmds, k),
    decreases cmds.len(),
{
    let n = cmds.len();
    if n == 0 {
        return;
    }
    let prev = cmds.drop_last();
    lemma_keys_after_cmds(prev, k);
    let last = cmds.last();
    assert(forall|i: int| 0 <= i < n - 1 ==> prev[i] == cmds[i]);
    if key_pressed_since_release(cmds, k) {
        let i = choose|i: int|
            0 <= i < cmds.len() && #[trigger] cmd_is_key_msg(cmds[i], k, KeyState::Down) && forall|
                j: int,
            |
                #![trigger cmds[j]]
                i < j < cmds.len() ==> !(cmds[j] is ReleaseAll) && !cmd_is_key_msg(
                    cmds[j],
                    k,
                    KeyState::Up,
                );
        if i < n - 1 {
            assert(cmd_is_key_msg(prev[i], k, KeyState::Down));
            assert(key_pressed_since_release(prev, k));
            assert(!(cmds[n - 1] is ReleaseAll));
            assert(!cmd_is_key_msg(cmds[n - 1], k, KeyState::Up));
        }
    } else {
        if keys_after_cmds(Set::empty(), cmds).contains(k) {
            if cmd_is_key_msg(last, k, KeyState::Down) {
                assert(key_pressed_since_release(cmds, k));
            } else {
                assert(keys_after_cmds(Set::empty(), prev).contains(k));
                let i = choose|i: int|
                    0 <= i < prev.len() && #[trigger] cmd_is_key_msg(prev[i], k, KeyState::Down)
                        && forall|j: int|
                        #![trigger prev[j]]
                        i < j < prev.len() ==> !(prev[j] is ReleaseAll) && !cmd_is_key_msg(
                            prev[j],
                            k,
                            KeyState::Up,
                        );
                assert(cmd_is_key_msg(cmds[i], k, KeyState::Down));
                assert forall|j: int| #![trigger cmds[j]] i < j < cmds.len() implies !(
                cmds[j] is ReleaseAll) && !cmd_is_key_msg(cmds[j], k, KeyState::Up) by {
                    if j < n - 1 {
                        assert(prev[j] == cmds[j]);
                    }
                }
                assert(key_pressed_since_release(cmds, k));
            }
        }
    }
}

proof fn lemma_buttons_after_cmds<T>(cmds: Seq<InputCmd<T>>, b: MouseButton)
    ensures
        buttons_after_cmds(Set::empty(), cmds).contains(b) <==> button_pressed_since_release(cmds, b),
    decreases cmds.len(),
{
    let n = cmds.len();
    if n == 0 {
        return;
    }
    let prev = cmds.drop_last();
    lemma_buttons_after_cmds(prev, b);
    let last = cmds.last();
    assert(forall|i: int| 0 <= i < n - 1 ==> prev[i] == cmds[i]);
    if button_pressed_since_release(cmds, b) {
        let i = choose|i: int|
            0 <= i < cmds.len() && #[trigger] cmd_is_button_msg(cmds[i], b, ClickState::Down)
                && forall|j: int|
                #![trigger cmds[j]]
                i < j < cmds.len() ==> !(cmds[j] is ReleaseAll) && !cmd_is_button_msg(
                    cmds[j],
                    b,
                    ClickState::Up,
                );
        if i < n - 1 {
            assert(cmd_is_button_msg(prev[i], b, ClickState::Down));
            assert(button_pressed_since_release(prev, b));
            assert(!(cmds[n - 1] is ReleaseAll));
            assert(!cmd_is_button_msg(cmds[n - 1], b, ClickState::Up));
        }
    } else {
        if buttons_after_cmds(Set::empty(), cmds).contains(b) {
            if cmd_is_button_msg(last, b, ClickState::Down) {
                assert(button_pressed_since_release(cmds, b));
            } else {
                assert(buttons_after_cmds(Set::empty(), prev).contains(b));
                let i = choose|i: int|
                    0 <= i < prev.len() && #[trigger] cmd_is_button_msg(
                        prev[i],
                        b,
                        ClickState::Down,
                    ) && forall|j: int|
                        #![trigger prev[j]]
                        i < j < prev.len() ==> !(prev[j] is ReleaseAll) && !cmd_is_button_msg(
                            prev[j],
                            b,
                            ClickState::Up,
                        );
                assert(cmd_is_button_msg(cmds[i], b, ClickState::Down));
                assert forall|j: int| #![trigger cmds[j]] i < j < cmds.len() implies !(
                cmds[j] is ReleaseAll) && !cmd_is_button_msg(cmds[j], b, ClickState::Up) by {
                    if j < n - 1 {
                        assert(prev[j] == cmds[j]);
                    }
                }
                assert(button_pressed_since_release(cmds, b));
            }
        }
    }
}

/// What the input worker holds after carrying out a sequence of commands,
/// starting with nothing held: exactly the keys and mouse buttons that some
/// command pressed and that no later command released, neither by a key-up
/// or button-up for it nor by a release-all. Key names that denote no key are
/// never held.
pub proof fn held_after_commands<T>(cmds: Seq<InputCmd<T>>)
    ensures
        forall|k: Seq<char>| #[trigger]
            keys_after_cmds(Set::empty(), cmds).contains(k) <==> key_pressed_since_release(cmds, k),
        forall|b: MouseButton| #[trigger]
            buttons_after_cmds(Set::empty(), cmds).contains(b) <==> button_pressed_since_release(
                cmds,
                b,
            ),
{
    assert forall|k: Seq<char>| #[trigger]
        keys_after_cmds(Set::empty(), cmds).contains(k) <==> key_pressed_since_release(cmds, k) by {
        lemma_keys_after_cmds(cmds, k);
    }
    assert forall|b: MouseButton| #[trigger]
        buttons_after_cmds(Set::empty(), cmds).contains(b) <==> button_pressed_since_release(
            cmds,
            b,
        ) by {
        lemma_buttons_after_cmds(cmds, b);
    }
}

/// Messages as commands for the input worker.
pub open spec fn as_commands<T>(msgs: Seq<Message<T>>) -> Seq<InputCmd<T>> {
    msgs.map_values(|m: Message<T>| InputCmd::Message(m))
}

proof fn lemma_msgs_as_commands<T>(msgs: Seq<Message<T>>)
    ensures
        keys_after_msgs(Set::empty(), msgs) == keys_after_cmds(Set::empty(), as_commands(msgs)),
        buttons_after_msgs(Set::empty(), msgs) == buttons_after_cmds(Set::empty(), as_commands(msgs)),
    decreases msgs.len(),
{
    if msgs.len() > 0 {
        lemma_msgs_as_commands(msgs.drop_last());
        assert(as_commands(msgs).drop_last() =~= as_commands(msgs.drop_last()));
    }
}

/// What the agent holds after carrying out a sequence of messages, starting
/// with nothing held: exactly the keys and mouse buttons that some message
/// pressed and no later message released. Key names that denote no key are
/// never held; clicks, mouse moves and heartbeats hold nothing.
pub proof fn held_after_messages<T>(msgs: Seq<Message<T>>)
    ensures
        forall|k: Seq<char>| #[trigger]
            keys_after_msgs(Set::empty(), msgs).contains(k) <==> key_pressed_in(msgs, k),
        forall|b: MouseButton| #[trigger]
            buttons_after_msgs(Set::empty(), msgs).contains(b) <==> button_pressed_in(msgs, b),
{
    let cmds = as_commands(msgs);
    lemma_msgs_as_commands(msgs);
    held_after_commands(cmds);
    assert forall|i: int| 0 <= i < msgs.len() implies #[trigger] cmds[i] == InputCmd::Message(
        msgs[i],
    ) by {}
    assert forall|k: Seq<char>| #[trigger]
        keys_after_msgs(Set::empty(), msgs).contains(k) <==> key_pressed_in(msgs, k) by {
        assert(keys_after_cmds(Set::empty(), cmds).contains(k) <==> key_pressed_since_release(
            cmds,
            k,
        ));
        if key_pressed_in(msgs, k) {
            let i = choose|i: int|
                0 <= i < msgs.len() && #[trigger] is_key_msg(msgs[i], k, KeyState::Down) && forall|
                    j: int,
                |
                    #![trigger msgs[j]]
                    i < j < msgs.len() ==> !is_key_msg(msgs[j], k, KeyState::Up);
            assert(cmd_is_key_msg(cmds[i], k, KeyState::Down));
            assert forall|j: int| #![trigger cmds[j]] i < j < cmds.len() implies !(
            cmds[j] is ReleaseAll) && !cmd_is_key_msg(cmds[j], k, KeyState::Up) by {
                assert(cmds[j] == InputCmd::Message(msgs[j]));
            }
            assert(key_pressed_since_release(cmds, k));
        }
        if key_pressed_since_release(cmds, k) {
            let i = choose|i: int|
                0 <= i < cmds.len() && #[trigger] cmd_is_key_msg(cmds[i], k, KeyState::Down)
                    && forall|j: int|
                    #![trigger cmds[j]]
                    i < j < cmds.len() ==> !(cmds[j] is ReleaseAll) && !cmd_is_key_msg(
                        cmds[j],
                        k,
                        KeyState::Up,
                    );
            assert(is_key_msg(msgs[i], k, KeyState::Down));
            assert forall|j: int| #![trigger msgs[j]] i < j < msgs.len() implies !is_key_msg(
                msgs[j],
                k,
                KeyState::Up,
            ) by {
                assert(cmds[j] == InputCmd::Message(msgs[j]));
            }
            assert(key_pressed_in(msgs, k));
        }
    }
    assert forall|b: MouseButton| #[trigger]
        buttons_after_msgs(Set::empty(), msgs).contains(b) <==> button_pressed_in(msgs, b) by {
        assert(buttons_after_cmds(Set::empty(), cmds).contains(b) <==> button_pressed_since_release(
            cmds,
            b,
        ));
        if button_pressed_in(msgs, b) {
            let i = choose|i: int|
                0 <= i < msgs.len() && #[trigger] is_button_msg(msgs[i], b, ClickState::Down)
                    && forall|j: int|
                    #![trigger msgs[j]]
                    i < j < msgs.len() ==> !is_button_msg(msgs[j], b, ClickState::Up);
            assert(cmd_is_button_msg(cmds[i], b, ClickState::Down));
            assert forall|j: int| #![trigger cmds[j]] i < j < cmds.len() implies !(
            cmds[j] is ReleaseAll) && !cmd_is_button_msg(cmds[j], b, ClickState::Up) by {
                assert(cmds[j] == InputCmd::Message(msgs[j]));
            }
            assert(button_pressed_since_release(cmds, b));
        }
        if button_pressed_since_release(cmds, b) {
            let i = choose|i: int|
                0 <= i < cmds.len() && #[trigger] cmd_is_button_msg(cmds[i], b, ClickState::Down)
                    && forall|j: int|
                    #![trigger cmds[j]]
                    i < j < cmds.len() ==> !(cmds[j] is ReleaseAll) && !cmd_is_button_msg(
                        cmds[j],
                        b,
                        ClickState::Up,
                    );
            assert(is_button_msg(msgs[i], b, ClickState::Down));
            assert forall|j: int| #![trigger msgs[j]] i < j < msgs.len() implies !is_button_msg(
                msgs[j],
                b,
                ClickState::Up,
            ) by {
                assert(cmds[j] == InputCmd::Message(msgs[j]));
            }
            assert(button_pressed_in(msgs, b));
        }
    }
}

/// Carrying out one more command moves the held sets by one step: what is
/// held after `history` then `cmd` is what `cmd` leaves of what was held after
/// `history`. With `handle`'s contract this keeps a worker that started from
/// `InputState::new` holding exactly `keys_after_cmds(Set::empty(), history)`
/// and `buttons_after_cmds(Set::empty(), history)`.
pub proof fn held_after_one_more_command<T>(history: Seq<InputCmd<T>>, cmd: InputCmd<T>)
    ensures
        keys_after_cmds(Set::empty(), history.push(cmd)) == keys_after_cmd(
            keys_after_cmds(Set::empty(), history),
            cmd,
        ),
        buttons_after_cmds(Set::empty(), history.push(cmd)) == buttons_after_cmd(
            buttons_after_cmds(Set::empty(), history),
            cmd,
        ),
{
    assert(history.push(cmd).drop_last() =~= history);
}

/// A release-all lets go of every key and mouse button pressed since the
/// previous release-all and not released since: for a worker whose held sets
/// are those of its command history, `release_all` (and `handle` of a
/// release-all) returns a release for each of them, and only for what is held.
pub proof fn release_all_covers_what_was_pressed<T>(s: InputState, history: Seq<InputCmd<T>>)
    requires
        s.wf(),
        s.key_set() == keys_after_cmds(Set::empty(), history),
        s.button_set() == buttons_after_cmds(Set::empty(), history),
    ensures
        forall|k: Seq<char>|
            key_pressed_since_release(history, k) <==> s.keys().map_values(
                |n: Seq<char>| key_release(n),
            ).contains(#[trigger] key_release(k)) && s.key_set().contains(k),
        forall|b: MouseButton|
            button_pressed_since_release(history, b) <==> s.buttons().map_values(
                |x: MouseButton| button_release(x),
            ).contains(#[trigger] button_release(b)),
{
    held_after_commands(history);
    let kr = s.keys().map_values(|n: Seq<char>| key_release(n));
    let br = s.buttons().map_values(|x: MouseButton| button_release(x));
    assert forall|k: Seq<char>|
        key_pressed_since_release(history, k) <==> kr.contains(#[trigger] key_release(k))
            && s.key_set().contains(k) by {
        if s.key_set().contains(k) {
            let i = choose|i: int| 0 <= i < s.keys().len() && s.keys()[i] == k;
            assert(kr[i] == key_release(k));
        }
    }
    assert forall|b: MouseButton|
        button_pressed_since_release(history, b) <==> br.contains(#[trigger] button_release(b)) by {
        if s.button_set().contains(b) {
            let i = choose|i: int| 0 <= i < s.buttons().len() && s.buttons()[i] == b;
            assert(br[i] == button_release(b));
        }
        if br.contains(button_release(b)) {
            let i = choose|i: int| 0 <= i < br.len() && br[i] == button_release(b);
            assert(s.buttons()[i] == b);
            assert(s.button_set().contains(b));
        }
    }
}

/// A mouse-button message acts on the button it names: a button-down presses
/// that button, a button-up releases it, a click clicks it.
pub proof fn mouse_actions_act_on_the_named_button<T>(msg: Message<T>)
    requires
        msg is Mouse,
    ensures
        match msg {
            Message::Mouse { button, state, .. } => action_for(msg) == Ok::<
                Option<InputAction>,
                KeyErrorKind,
            >(
                Some(
                    InputAction::Button {
                        button,
                        direction: match state {
                            ClickState::Down => Direction::Press,
                            ClickState::Up => Direction::Release,
                            ClickState::Click => Direction::Click,
                        },
                    },
                ),
            ),
            _ => false,
        },
{
}

/// A mouse move is passed on with its offsets unchanged, and holds nothing.
pub proof fn mouse_moves_pass_offsets_unchanged<T>(
    keys: Set<Seq<char>>,
    buttons: Set<MouseButton>,
    msg: Message<T>,
)
    requires
        msg is MouseMove,
    ensures
        match msg {
            Message::MouseMove { dx, dy, .. } => action_for(msg) == Ok::<
                Option<InputAction>,
                KeyErrorKind,
            >(Some(InputAction::MoveMouse { dx, dy })),
            _ => false,
        },
        keys_after(keys, msg) == keys,
        buttons_after(buttons, msg) == buttons,
{
}

/// A key-up for a name, and the release-all of that name while it is held,
/// let go of the very key that the key-down for that name pressed.
pub proof fn release_lets_go_of_what_press_pressed<T>(down: Message<T>, up: Message<T>)
    requires
        down matches Message::Key { key: k1, state: KeyState::Down, .. } && key_for_name(k1@) is Ok,
        up matches Message::Key { key: k2, state: KeyState::Up, .. } && k2@ == down->Key_key@,
    ensures
        action_for(down) matches Ok(Some(InputAction::Key { key: pressed, direction: Direction::Press }))
            && action_for(up) == Ok::<Option<InputAction>, KeyErrorKind>(
            Some(InputAction::Key { key: pressed, direction: Direction::Release }),
        ) && key_release(down->Key_key@) == (InputAction::Key {
            key: pressed,
            direction: Direction::Release,
        }),
{
}

} // verus!
