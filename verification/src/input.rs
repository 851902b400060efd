//! Keyboard and mouse state: which keys and buttons are held, and which
//! went down or up during the current frame.

use vstd::prelude::*;
use crate::global_state::GlobalState;

verus! {

/// A mouse button.
#[derive(Copy, Clone, Debug, Eq, PartialEq, Hash, Structural)]
pub enum MouseButton {
    Left,
    Right,
    Middle,
    Back,
    Forward,
    Other(u16),
}

/// A key of the keyboard.
#[derive(Copy, Clone, Debug, PartialEq, Eq, Hash, Structural)]
pub enum KeyCode {
    Backspace,
    Tab,
    Return,
    Escape,
    Space,
    Exclaim,
    Quotedbl,
    Hash,
    Dollar,
    Percent,
    Ampersand,
    Quote,
    LeftParen,
    RightParen,
    Asterisk,
    Plus,
    Comma,
    Minus,
    Period,
    Slash,
    Num0,
    Num1,
    Num2,
    Num3,
    Num4,
    Num5,
    Num6,
    Num7,
    Num8,
    Num9,
    Colon,
    Semicolon,
    Less,
    Equals,
    Greater,
    Question,
    At,
    LeftBracket,
    Backslash,
    RightBracket,
    Caret,
    Underscore,
    Backquote,
    A,
    B,
    C,
    D,
    E,
    F,
    G,
    H,
    I,
    J,
    K,
    L,
    M,
    N,
    O,
    P,
    Q,
    R,
    S,
    T,
    U,
    V,
    W,
    X,
    Y,
    Z,
    Delete,
    CapsLock,
    F1,
    F2,
    F3,
    F4,
    F5,
    F6,
    F7,
    F8,
    F9,
    F10,
    F11,
    F12,
    PrintScreen,
    ScrollLock,
    Pause,
    Insert,
    Home,
    PageUp,
    End,
    PageDown,
    Right,
    Left,
    Down,
    Up,
    NumLockClear,
    KpDivide,
    KpMultiply,
    KpMinus,
    KpPlus,
    KpEnter,
    Kp1,
    Kp2,
    Kp3,
    Kp4,
    Kp5,
    Kp6,
    Kp7,
    Kp8,
    Kp9,
    Kp0,
    KpPeriod,
    Application,
    Power,
    KpEquals,
    F13,
    F14,
    F15,
    F16,
    F17,
    F18,
    F19,
    F20,
    F21,
    F22,
    F23,
    F24,
    Execute,
    Help,
    Menu,
    Select,
    Stop,
    Again,
    Undo,
    Cut,
    Copy,
    Paste,
    Find,
    Mute,
    VolumeUp,
    VolumeDown,
    KpComma,
    KpEqualsAS400,
    AltErase,
    Sysreq,
    Cancel,
    Clear,
    Prior,
    Return2,
    Separator,
    Out,
    Oper,
    ClearAgain,
    CrSel,
    ExSel,
    Kp00,
    Kp000,
    ThousandsSeparator,
    DecimalSeparator,
    CurrencyUnit,
    CurrencySubUnit,
    KpLeftParen,
    KpRightParen,
    KpLeftBrace,
    KpRightBrace,
    KpTab,
    KpBackspace,
    KpA,
    KpB,
    KpC,
    KpD,
    KpE,
    KpF,
    KpXor,
    KpPower,
    KpPercent,
    KpLess,
    KpGreater,
    KpAmpersand,
    KpDblAmpersand,
    KpVerticalBar,
    KpDblVerticalBar,
    KpColon,
    KpHash,
    KpSpace,
    KpAt,
    KpExclam,
    KpMemStore,
    KpMemRecall,
    KpMemClear,
    KpMemAdd,
    KpMemSubtract,
    KpMemMultiply,
    KpMemDivide,
    KpPlusMinus,
    KpClear,
    KpClearEntry,
    KpBinary,
    KpOctal,
    KpDecimal,
    KpHexadecimal,
    LCtrl,
    LShift,
    LAlt,
    LGui,
    RCtrl,
    RShift,
    RAlt,
    RGui,
    Mode,
    AudioNext,
    AudioPrev,
    AudioStop,
    AudioPlay,
    AudioMute,
    MediaSelect,
    Www,
    Mail,
    Calculator,
    Computer,
    AcSearch,
    AcHome,
    AcBack,
    AcForward,
    AcStop,
    AcRefresh,
    AcBookmarks,
    BrightnessDown,
    BrightnessUp,
    DisplaySwitch,
    KbdIllumToggle,
    KbdIllumDown,
    KbdIllumUp,
    Eject,
    Sleep,
}

/// A set of keys without repetitions.
pub struct KeySet {
    items: Vec<KeyCode>,
}

impl View for KeySet {
    type V = Set<KeyCode>;

    closed spec fn view(&self) -> Set<KeyCode> {
        self.items@.to_set()
    }
}

impl KeySet {
    #[verifier::type_invariant]
    closed spec fn no_repeats(&self) -> bool {
        self.items@.no_duplicates()
    }

    /// The empty set.
    pub fn new() -> (s: KeySet)
        ensures
            s@ == Set::<KeyCode>::empty(),
    {
        let s = KeySet { items: Vec::new() };
        proof {
            assert(s.items@.to_set() =~= Set::<KeyCode>::empty());
        }
        s
    }

    fn index_of(&self, key: KeyCode) -> (r: Option<usize>)
        ensures
            match r {
                Some(i) => i < self.items@.len() && self.items@[i as int] == key,
                None => !self.items@.contains(key),
            },
    {
        let mut i: usize = 0;
        while i < self.items.len()
            invariant
                i <= self.items@.len(),
                forall|j: int| 0 <= j < i ==> self.items@[j] != key,
            decreases self.items@.len() - i,
        {
            if self.items[i] == key {
                return Some(i);
            }
            i = i + 1;
        }
        None
    }

    /// Whether `key` is in the set.
    pub fn contains(&self, key: KeyCode) -> (b: bool)
        ensures
            b == self@.contains(key),
    {
        self.index_of(key).is_some()
    }

    /// Adds `key` to the set.
    pub fn insert(&mut self, key: KeyCode)
        ensures
            final(self)@ == old(self)@.insert(key),
    {
        proof {
            use_type_invariant(&*self);
        }
        if self.index_of(key).is_none() {
            let ghost before = self.items@;
            let mut items = Vec::new();
            std::mem::swap(&mut items, &mut self.items);
            items.push(key);
            proof {
                assert forall|k: KeyCode| #[trigger] items@.contains(k) <==> before.contains(k) || k == key by {
                    if k == key {
                        assert(items@[before.len() as int] == key);
                    }
                    if before.contains(k) {
                        let j = choose|j: int| 0 <= j < before.len() && before[j] == k;
                        assert(items@[j] == k);
                    }
                }
                assert(items@.to_set() =~= before.to_set().insert(key));
                assert(items@.no_duplicates());
            }
            self.items = items;
        } else {
            proof {
                assert(self.items@.to_set().insert(key) =~= self.items@.to_set());
            }
        }
    }

    /// Removes `key` from the set.
    pub fn remove(&mut self, key: KeyCode)
        ensures
            final(self)@ == old(self)@.remove(key),
    {
        proof {
            use_type_invariant(&*self);
        }
        match self.index_of(key) {
            Some(i) => {
                let ghost before = self.items@;
                let mut items = Vec::new();
                std::mem::swap(&mut items, &mut self.items);
                items.remove(i);
                proof {
                    assert forall|k: KeyCode| #[trigger] items@.contains(k) <==> before.contains(k) && k != key by {
                        if items@.contains(k) {
                            let j = choose|j: int| 0 <= j < items@.len() && items@[j] == k;
                            if j < i {
                                assert(before[j] == k);
                            } else {
                                assert(before[j + 1] == k);
                            }
                        }
                        if before.contains(k) && k != key {
                            let j = choose|j: int| 0 <= j < before.len() && before[j] == k;
                            if j < i {
                                assert(items@[j] == k);
                            } else {
                                assert(j != i);
                                assert(items@[j - 1] == k);
                            }
                        }
                    }
                    assert(items@.to_set() =~= before.to_set().remove(key));
                    assert(items@.no_duplicates());
                }
                self.items = items;
            },
            None => {
                proof {
                    assert(self.items@.to_set().remove(key) =~= self.items@.to_set());
                }
            },
        }
    }
}

/// A set of mouse buttons without repetitions.
pub struct ButtonSet {
    items: Vec<MouseButton>,
}

impl View for ButtonSet {
    type V = Set<MouseButton>;

    closed spec fn view(&self) -> Set<MouseButton> {
        self.items@.to_set()
    }
}

impl ButtonSet {
    #[verifier::type_invariant]
    closed spec fn no_repeats(&self) -> bool {
        self.items@.no_duplicates()
    }

    /// The empty set.
    pub fn new() -> (s: ButtonSet)
        ensures
            s@ == Set::<MouseButton>::empty(),
    {
        let s = ButtonSet { items: Vec::new() };
        proof {
            assert(s.items@.to_set() =~= Set::<MouseButton>::empty());
        }
        s
    }

    fn index_of(&self, button: MouseButton) -> (r: Option<usize>)
        ensures
            match r {
                Some(i) => i < self.items@.len() && self.items@[i as int] == button,
                None => !self.items@.contains(button),
            },
    {
        let mut i: usize = 0;
        while i < self.items.len()
            invariant
                i <= self.items@.len(),
                forall|j: int| 0 <= j < i ==> self.items@[j] != button,
            decreases self.items@.len() - i,
        {
            if self.items[i] == button {
                return Some(i);
            }
            i = i + 1;
        }
        None
    }

    /// Whether `button` is in the set.
    pub fn contains(&self, button: MouseButton) -> (b: bool)
        ensures
            b == self@.contains(button),
    {
        self.index_of(button).is_some()
    }

    /// Adds `button` to the set.
    pub fn insert(&mut self, button: MouseButton)
        ensures
            final(self)@ == old(self)@.insert(button),
    {
        proof {
            use_type_invariant(&*self);
        }
        if self.index_of(button).is_none() {
            let ghost before = self.items@;
            let mut items = Vec::new();
            std::mem::swap(&mut items, &mut self.items);
            items.push(button);
            proof {
                assert forall|k: MouseButton| #[trigger] items@.contains(k) <==> before.contains(k) || k == button by {
                    if k == button {
                        assert(items@[before.len() as int] == button);
                    }
                    if before.contains(k) {
                        let j = choose|j: int| 0 <= j < before.len() && before[j] == k;
                        assert(items@[j] == k);
                    }
                }
                assert(items@.to_set() =~= before.to_set().insert(button));
                assert(items@.no_duplicates());
            }
            self.items = items;
        } else {
            proof {
                assert(self.items@.to_set().insert(button) =~= self.items@.to_set());
            }
        }
    }

    /// Removes `button` from the set.
    pub fn remove(&mut self, button: MouseButton)
        ensures
            final(self)@ == old(self)@.remove(button),
    {
        proof {
            use_type_invariant(&*self);
        }
        match self.index_of(button) {
            Some(i) => {
                let ghost before = self.items@;
                let mut items = Vec::new();
                std::mem::swap(&mut items, &mut self.items);
                items.remove(i);
                proof {
                    assert forall|k: MouseButton| #[trigger] items@.contains(k) <==> before.contains(k) && k != button by {
                        if items@.contains(k) {
                            let j = choose|j: int| 0 <= j < items@.len() && items@[j] == k;
                            if j < i {
                                assert(before[j] == k);
                            } else {
                                assert(before[j + 1] == k);
                            }
                        }
                        if before.contains(k) && k != button {
                            let j = choose|j: int| 0 <= j < before.len() && before[j] == k;
                            if j < i {
                                assert(items@[j] == k);
                            } else {
                                assert(j != i);
                                assert(items@[j - 1] == k);
                            }
                        }
                    }
                    assert(items@.to_set() =~= before.to_set().remove(button));
                    assert(items@.no_duplicates());
                }
                self.items = items;
            },
            None => {
                proof {
                    assert(self.items@.to_set().remove(button) =~= self.items@.to_set());
                }
            },
        }
    }
}


/// Whether `button` is held down.
pub fn is_mouse_button_down(state: &GlobalState, button: MouseButton) -> (b: bool)
    ensures
        b == state.mouse_pressed@.contains(button),
{
    state.mouse_pressed.contains(button)
}

/// Whether `button` went down during this frame.
pub fn is_mouse_button_pressed(state: &GlobalState, button: MouseButton) -> (b: bool)
    ensures
        b == state.mouse_just_pressed@.contains(button),
{
    state.mouse_just_pressed.contains(button)
}

/// Whether `button` went up during this frame.
pub fn is_mouse_button_released(state: &GlobalState, button: MouseButton) -> (b: bool)
    ensures
        b == state.mouse_just_released@.contains(button),
{
    state.mouse_just_released.contains(button)
}

/// Hides or shows the cursor.
pub fn set_cursor_hidden(state: &mut GlobalState, hidden: bool)
    ensures
        *final(state) == (GlobalState { cursor_hidden: hidden, ..*old(state) }),
{
    state.cursor_hidden = hidden;
}

/// Locks or unlocks the mouse.
pub fn set_mouse_locked(state: &mut GlobalState, locked: bool)
    ensures
        *final(state) == (GlobalState { mouse_locked: locked, ..*old(state) }),
{
    state.mouse_locked = locked;
}

/// Whether `keycode` went down during this frame.
pub fn is_key_pressed(state: &GlobalState, keycode: KeyCode) -> (b: bool)
    ensures
        b == state.just_pressed@.contains(keycode),
{
    state.just_pressed.contains(keycode)
}

/// Whether `keycode` went up during this frame.
pub fn is_key_released(state: &GlobalState, keycode: KeyCode) -> (b: bool)
    ensures
        b == state.just_released@.contains(keycode),
{
    state.just_released.contains(keycode)
}

/// Whether `keycode` is held down.
pub fn is_key_down(state: &GlobalState, keycode: KeyCode) -> (b: bool)
    ensures
        b == state.pressed@.contains(keycode),
{
    state.pressed.contains(keycode)
}

/// A key that went down and then up is neither held nor pressed this frame;
/// other keys are as they were.
pub proof fn law_key_up_after_down(pressed: Set<KeyCode>, just_pressed: Set<KeyCode>, k: KeyCode, other: KeyCode)
    requires
        other != k,
    ensures
        !pressed.insert(k).remove(k).contains(k),
        !just_pressed.insert(k).remove(k).contains(k),
        pressed.insert(k).remove(k).contains(other) == pressed.contains(other),
{
}

impl GlobalState {
    /// Records that `keycode` went down (a key press that is not a repeat).
    pub fn key_down(&mut self, keycode: KeyCode)
        ensures
            final(self).pressed@ == old(self).pressed@.insert(keycode),
            final(self).just_pressed@ == old(self).just_pressed@.insert(keycode),
            final(self).just_released@ == old(self).just_released@,
            final(self).mouse_pressed@ == old(self).mouse_pressed@,
            final(self).mouse_just_pressed@ == old(self).mouse_just_pressed@,
            final(self).mouse_just_released@ == old(self).mouse_just_released@,
            *final(self) == (GlobalState { pressed: final(self).pressed, just_pressed: final(self).just_pressed, ..*old(self) }),
    {
        self.pressed.insert(keycode);
        self.just_pressed.insert(keycode);
    }

    /// Records that `keycode` went up.
    pub fn key_up(&mut self, keycode: KeyCode)
        ensures
            final(self).pressed@ == old(self).pressed@.remove(keycode),
            final(self).just_pressed@ == old(self).just_pressed@.remove(keycode),
            final(self).just_released@ == old(self).just_released@,
            final(self).mouse_pressed@ == old(self).mouse_pressed@,
            final(self).mouse_just_pressed@ == old(self).mouse_just_pressed@,
            final(self).mouse_just_released@ == old(self).mouse_just_released@,
            *final(self) == (GlobalState { pressed: final(self).pressed, just_pressed: final(self).just_pressed, ..*old(self) }),
    {
        self.pressed.remove(keycode);
        self.just_pressed.remove(keycode);
    }

    /// Records that `button` went down.
    pub fn mouse_button_down(&mut self, button: MouseButton)
        ensures
            final(self).mouse_pressed@ == old(self).mouse_pressed@.insert(button),
            final(self).mouse_just_pressed@ == old(self).mouse_just_pressed@.insert(button),
            final(self).mouse_just_released@ == old(self).mouse_just_released@,
            final(self).pressed@ == old(self).pressed@,
            final(self).just_pressed@ == old(self).just_pressed@,
            final(self).just_released@ == old(self).just_released@,
            *final(self) == (GlobalState { mouse_pressed: final(self).mouse_pressed, mouse_just_pressed: final(self).mouse_just_pressed, ..*old(self) }),
    {
        self.mouse_pressed.insert(button);
        self.mouse_just_pressed.insert(button);
    }

    /// Records that `button` went up.
    pub fn mouse_button_up(&mut self, button: MouseButton)
        ensures
            final(self).mouse_pressed@ == old(self).mouse_pressed@.remove(button),
            final(self).mouse_just_pressed@ == old(self).mouse_just_pressed@.remove(button),
            final(self).mouse_just_released@ == old(self).mouse_just_released@.insert(button),
            final(self).pressed@ == old(self).pressed@,
            final(self).just_pressed@ == old(self).just_pressed@,
            final(self).just_released@ == old(self).just_released@,
            *final(self) == (GlobalState { mouse_pressed: final(self).mouse_pressed, mouse_just_pressed: final(self).mouse_just_pressed, mouse_just_released: final(self).mouse_just_released, ..*old(self) }),
    {
        self.mouse_pressed.remove(button);
        self.mouse_just_pressed.remove(button);
        self.mouse_just_released.insert(button);
    }
}

} // verus!
