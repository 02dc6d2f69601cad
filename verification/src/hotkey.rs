//! The global input-capture state machine: it turns raw flag-changed and
//! key-down observations into high-level intents, keeps the gesture and
//! key latches, and decides per event whether the rest of the OS still
//! sees the keystroke.
//!
//! The machine is a pure function from (event, latch state) to (decision,
//! new latch state); the unverified shell installs the OS-level event tap
//! and feeds each observation through it.

use vstd::prelude::*;

use crate::events::HotkeyEvent;

verus! {

/// The Command bit of the OS event-flag word.
pub const MASK_COMMAND: u64 = 0x0010_0000;

/// The physical keys the machine distinguishes.
#[derive(Debug, Clone, Copy, PartialEq, Eq, Structural)]
pub enum Key {
    /// Tab key (keycode 48)
    Tab,
    /// Space key (keycode 49)
    Space,
    /// Escape key (keycode 53)
    Escape,
    /// Right Command key (keycode 54)
    RightCommand,
    /// Left Command key (keycode 55)
    LeftCommand,
    /// Any other key
    Other,
}

/// Which [`Key`] a raw keycode denotes.
pub open spec fn spec_key_from(value: i64) -> Key {
    if value == 48 {
        Key::Tab
    } else if value == 49 {
        Key::Space
    } else if value == 53 {
        Key::Escape
    } else if value == 54 {
        Key::RightCommand
    } else if value == 55 {
        Key::LeftCommand
    } else {
        Key::Other
    }
}

impl core::convert::From<i64> for Key {
    fn from(value: i64) -> (r: Self)
        ensures
            r == spec_key_from(value),
    {
        match value {
            48 => Key::Tab,
            49 => Key::Space,
            53 => Key::Escape,
            54 => Key::RightCommand,
            55 => Key::LeftCommand,
            _ => Key::Other,
        }
    }
}

impl vstd::std_specs::convert::FromSpecImpl<i64> for Key {
    open spec fn obeys_from_spec() -> bool {
        true
    }

    open spec fn from_spec(v: i64) -> Key {
        spec_key_from(v)
    }
}

/// Whether the Command modifier bit is set in an event-flag word.
pub open spec fn cmd_set(flags: u64) -> bool {
    flags & MASK_COMMAND != 0
}

/// The capture state: the configuration choice of a secondary trigger, the
/// gesture latch, and the two key latches that remember whether Escape or
/// Space was pressed during the current gesture.
#[derive(Debug, Clone, Copy, PartialEq, Eq, Structural)]
pub struct EventHandler {
    /// Configuration: a left-Command + Tab chord also triggers the gesture.
    pub enable_left_cmd: bool,
    /// The trigger modifier is currently held.
    pub gesture_active: bool,
    /// Escape was pressed during the current gesture.
    pub escape_latched: bool,
    /// Space was pressed during the current gesture.
    pub space_latched: bool,
}

/// What a flag-changed observation says about the gesture, if anything:
/// the new active value and the directional offset of the trigger that
/// caused it (0 for the primary trigger, 1 for the Tab chord).
pub open spec fn trigger_signal(h: EventHandler, key: Key, cmd: bool) -> Option<(bool, usize)> {
    match key {
        Key::RightCommand => Some((cmd, 0usize)),
        Key::Tab => if h.enable_left_cmd {
            Some((cmd, 1usize))
        } else {
            None
        },
        Key::LeftCommand => if h.enable_left_cmd && !cmd {
            Some((false, 0usize))
        } else {
            None
        },
        _ => None,
    }
}

/// One flag-changed step: flips the gesture latch only when the reported
/// active value differs from the stored one, emitting `ShowWindow` on
/// activation (with fresh key latches) and `HideWindow` on deactivation
/// (with the key latches kept for the hide handler to inspect).
pub open spec fn flags_step(h: EventHandler, key: Key, cmd: bool) -> (EventHandler, Option<
    HotkeyEvent,
>) {
    match trigger_signal(h, key, cmd) {
        None => (h, None),
        Some((active, offset)) => {
            if active == h.gesture_active {
                (h, None)
            } else if active {
                (
                    EventHandler {
                        gesture_active: true,
                        escape_latched: false,
                        space_latched: false,
                        ..h
                    },
                    Some(HotkeyEvent::ShowWindow(offset)),
                )
            } else {
                (EventHandler { gesture_active: false, ..h }, Some(HotkeyEvent::HideWindow))
            }
        },
    }
}

/// Keys whose own key-down is swallowed because they belong to the trigger
/// gesture itself.
pub open spec fn is_trigger_key(h: EventHandler, key: Key) -> bool {
    key == Key::RightCommand || (h.enable_left_cmd && (key == Key::LeftCommand || key
        == Key::Tab))
}

/// What the event tap does with one key-down event: the intent to emit (if
/// any), whether the keystroke is swallowed, and the flag word the rest of
/// the OS sees when it is not.
#[derive(Debug, Clone, Copy, PartialEq, Eq, Structural)]
pub struct TapDecision {
    pub event: Option<HotkeyEvent>,
    pub swallow: bool,
    pub flags: u64,
}

/// One key-down step. Outside a gesture the event passes through
/// untouched. During a gesture the trigger modifier bit is stripped so held
/// keys reach the OS as plain presses; Escape and Space are consumed and
/// latched, emitting their intents; the trigger keys' own presses are
/// swallowed; any other key clears both latches and passes through.
pub open spec fn keydown_step(h: EventHandler, key: Key, flags: u64) -> (EventHandler, TapDecision) {
    if !h.gesture_active {
        (h, TapDecision { event: None, swallow: false, flags })
    } else {
        let stripped = flags & !MASK_COMMAND;
        if key == Key::Escape {
            (
                EventHandler { escape_latched: true, ..h },
                TapDecision {
                    event: Some(HotkeyEvent::QuitApplication),
                    swallow: true,
                    flags: stripped,
                },
            )
        } else if key == Key::Space {
            (
                EventHandler { space_latched: true, ..h },
                TapDecision {
                    event: Some(HotkeyEvent::HideApplication),
                    swallow: true,
                    flags: stripped,
                },
            )
        } else if is_trigger_key(h, key) {
            (h, TapDecision { event: None, swallow: true, flags: stripped })
        } else {
            (
                EventHandler { escape_latched: false, space_latched: false, ..h },
                TapDecision { event: None, swallow: false, flags: stripped },
            )
        }
    }
}

impl EventHandler {
    /// A fresh capture state: no gesture, no latches.
    pub fn new(enable_left_cmd: bool) -> (r: Self)
        ensures
            r == (EventHandler {
                enable_left_cmd,
                gesture_active: false,
                escape_latched: false,
                space_latched: false,
            }),
    {
        EventHandler { enable_left_cmd, gesture_active: false, escape_latched: false, space_latched: false }
    }

    /// Process one flag-changed observation, exactly as [`flags_step`]
    /// says: emits `ShowWindow`/`HideWindow` only on a real transition.
    pub fn handle_flags_changed(&mut self, keycode: i64, flags: u64) -> (r: Option<HotkeyEvent>)
        ensures
            (*final(self), r) == flags_step(*old(self), spec_key_from(keycode), cmd_set(flags)),
    {
        let cmd = flags & MASK_COMMAND != 0;
        let signal: Option<(bool, usize)> = match Key::from(keycode) {
            Key::RightCommand => Some((cmd, 0)),
            Key::Tab => if self.enable_left_cmd {
                Some((cmd, 1))
            } else {
                None
            },
            Key::LeftCommand => if self.enable_left_cmd && !cmd {
                Some((false, 0))
            } else {
                None
            },
            _ => None,
        };
        match signal {
            None => None,
            Some((active, offset)) => {
                if active == self.gesture_active {
                    None
                } else if active {
                    self.gesture_active = true;
                    self.escape_latched = false;
                    self.space_latched = false;
                    Some(HotkeyEvent::ShowWindow(offset))
                } else {
                    self.gesture_active = false;
                    Some(HotkeyEvent::HideWindow)
                }
            },
        }
    }

    /// Process one key-down observation, exactly as [`keydown_step`] says.
    pub fn handle_key_down(&mut self, keycode: i64, flags: u64) -> (r: TapDecision)
        ensures
            (*final(self), r) == keydown_step(*old(self), spec_key_from(keycode), flags),
    {
        if !self.gesture_active {
            return TapDecision { event: None, swallow: false, flags };
        }
        let stripped = flags & !MASK_COMMAND;
        match Key::from(keycode) {
            Key::Escape => {
                self.escape_latched = true;
                TapDecision {
                    event: Some(HotkeyEvent::QuitApplication),
                    swallow: true,
                    flags: stripped,
                }
            },
            Key::Space => {
                self.space_latched = true;
                TapDecision {
                    event: Some(HotkeyEvent::HideApplication),
                    swallow: true,
                    flags: stripped,
                }
            },
            key => {
                if key == Key::RightCommand || (self.enable_left_cmd && (key == Key::LeftCommand
                    || key == Key::Tab)) {
                    TapDecision { event: None, swallow: true, flags: stripped }
                } else {
                    self.escape_latched = false;
                    self.space_latched = false;
                    TapDecision { event: None, swallow: false, flags: stripped }
                }
            },
        }
    }
}

/// Gesture idempotence: a flag-changed observation whose reported active
/// value already equals the stored latch emits nothing and changes
/// nothing; in particular, feeding the same flag-changed observation twice
/// in a row emits nothing the second time.
pub proof fn lemma_gesture_idempotence(h: EventHandler, key: Key, cmd: bool)
    ensures
        ({
            let signal = trigger_signal(h, key, cmd);
            signal matches Some((active, _)) && active == h.gesture_active ==> flags_step(
                h,
                key,
                cmd,
            ) == (h, None::<HotkeyEvent>)
        }),
        ({
            let (h1, _e1) = flags_step(h, key, cmd);
            let (h2, e2) = flags_step(h1, key, cmd);
            h2 == h1 && e2 == None::<HotkeyEvent>
        }),
{
}

/// During a gesture, a key-down of anything but Escape, Space or a trigger
/// key clears both key latches and emits nothing.
pub proof fn lemma_other_key_clears_latches(h: EventHandler, key: Key, flags: u64)
    requires
        h.gesture_active,
        key != Key::Escape,
        key != Key::Space,
        !is_trigger_key(h, key),
    ensures
        ({
            let (h1, d) = keydown_step(h, key, flags);
            &&& !h1.escape_latched
            &&& !h1.space_latched
            &&& h1.gesture_active
            &&& h1.enable_left_cmd == h.enable_left_cmd
            &&& d.event is None
        }),
{
}

/// Releasing the trigger during a gesture emits `HideWindow` and leaves
/// the key latches exactly as the keys set them, for the hide handler to
/// inspect.
pub proof fn lemma_release_emits_hide(h: EventHandler, key: Key, cmd: bool)
    requires
        h.gesture_active,
        trigger_signal(h, key, cmd) matches Some((active, _)) && !active,
    ensures
        ({
            let (h1, e) = flags_step(h, key, cmd);
            &&& e == Some(HotkeyEvent::HideWindow)
            &&& !h1.gesture_active
            &&& h1.escape_latched == h.escape_latched
            &&& h1.space_latched == h.space_latched
        }),
{
}

} // verus!
