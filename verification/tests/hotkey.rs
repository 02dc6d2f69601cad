use fast_forward::events::HotkeyEvent;
use fast_forward::hotkey::{EventHandler, Key, MASK_COMMAND};

const KC_TAB: i64 = 48;
const KC_SPACE: i64 = 49;
const KC_ESCAPE: i64 = 53;
const KC_RIGHT_COMMAND: i64 = 54;
const KC_LEFT_COMMAND: i64 = 55;
const KC_A: i64 = 0;

#[test]
fn key_from_keycode() {
    assert_eq!(Key::from(KC_TAB), Key::Tab);
    assert_eq!(Key::from(KC_SPACE), Key::Space);
    assert_eq!(Key::from(KC_ESCAPE), Key::Escape);
    assert_eq!(Key::from(KC_RIGHT_COMMAND), Key::RightCommand);
    assert_eq!(Key::from(KC_LEFT_COMMAND), Key::LeftCommand);
    assert_eq!(Key::from(KC_A), Key::Other);
}

#[test]
fn gesture_fires_once_per_transition() {
    let mut h = EventHandler::new(false);
    let r = h.handle_flags_changed(KC_RIGHT_COMMAND, MASK_COMMAND);
    assert_eq!(r, Some(HotkeyEvent::ShowWindow(0)));

    // Repeated flag-changed events with the same state emit nothing.
    let r = h.handle_flags_changed(KC_RIGHT_COMMAND, MASK_COMMAND);
    assert_eq!(r, None);
    let r = h.handle_flags_changed(KC_RIGHT_COMMAND, MASK_COMMAND);
    assert_eq!(r, None);

    let r = h.handle_flags_changed(KC_RIGHT_COMMAND, 0);
    assert_eq!(r, Some(HotkeyEvent::HideWindow));
    let r = h.handle_flags_changed(KC_RIGHT_COMMAND, 0);
    assert_eq!(r, None);
}

#[test]
fn key_down_outside_gesture_passes_through_untouched() {
    let mut h = EventHandler::new(false);
    let d = h.handle_key_down(KC_ESCAPE, MASK_COMMAND | 1);
    assert_eq!(d.event, None);
    assert!(!d.swallow);
    assert_eq!(d.flags, MASK_COMMAND | 1);
}

#[test]
fn escape_is_consumed_and_latched() {
    let mut h = EventHandler::new(false);
    h.handle_flags_changed(KC_RIGHT_COMMAND, MASK_COMMAND);
    let d = h.handle_key_down(KC_ESCAPE, MASK_COMMAND);
    assert_eq!(d.event, Some(HotkeyEvent::QuitApplication));
    assert!(d.swallow);
    assert_eq!(d.flags, 0);
    assert!(h.escape_latched);
}

#[test]
fn space_is_consumed_and_latched() {
    let mut h = EventHandler::new(false);
    h.handle_flags_changed(KC_RIGHT_COMMAND, MASK_COMMAND);
    let d = h.handle_key_down(KC_SPACE, MASK_COMMAND);
    assert_eq!(d.event, Some(HotkeyEvent::HideApplication));
    assert!(d.swallow);
    assert!(h.space_latched);
}

#[test]
fn other_key_strips_modifier_and_clears_latches() {
    let mut h = EventHandler::new(false);
    h.handle_flags_changed(KC_RIGHT_COMMAND, MASK_COMMAND);
    h.handle_key_down(KC_ESCAPE, MASK_COMMAND);
    assert!(h.escape_latched);

    let d = h.handle_key_down(KC_A, MASK_COMMAND | 2);
    assert_eq!(d.event, None);
    assert!(!d.swallow);
    assert_eq!(d.flags, 2);
    assert!(!h.escape_latched);
    assert!(!h.space_latched);
}

#[test]
fn trigger_key_down_is_swallowed() {
    let mut h = EventHandler::new(false);
    h.handle_flags_changed(KC_RIGHT_COMMAND, MASK_COMMAND);
    let d = h.handle_key_down(KC_RIGHT_COMMAND, MASK_COMMAND);
    assert_eq!(d.event, None);
    assert!(d.swallow);
}

#[test]
fn new_gesture_starts_with_fresh_latches() {
    let mut h = EventHandler::new(false);
    h.handle_flags_changed(KC_RIGHT_COMMAND, MASK_COMMAND);
    h.handle_key_down(KC_SPACE, MASK_COMMAND);
    h.handle_flags_changed(KC_RIGHT_COMMAND, 0);
    assert!(h.space_latched);

    let r = h.handle_flags_changed(KC_RIGHT_COMMAND, MASK_COMMAND);
    assert_eq!(r, Some(HotkeyEvent::ShowWindow(0)));
    assert!(!h.space_latched);
    assert!(!h.escape_latched);
}

#[test]
fn tab_chord_carries_offset_when_enabled() {
    let mut h = EventHandler::new(true);
    let r = h.handle_flags_changed(KC_TAB, MASK_COMMAND);
    assert_eq!(r, Some(HotkeyEvent::ShowWindow(1)));

    // The primary trigger in the same state does not re-fire.
    let r = h.handle_flags_changed(KC_RIGHT_COMMAND, MASK_COMMAND);
    assert_eq!(r, None);

    // Releasing the left Command key deactivates.
    let r = h.handle_flags_changed(KC_LEFT_COMMAND, 0);
    assert_eq!(r, Some(HotkeyEvent::HideWindow));
}

#[test]
fn tab_is_ignored_when_chord_disabled() {
    let mut h = EventHandler::new(false);
    let r = h.handle_flags_changed(KC_TAB, MASK_COMMAND);
    assert_eq!(r, None);
}
