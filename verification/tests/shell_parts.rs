use fast_forward::blink::BlinkCursor;
use fast_forward::tray::MenuId;

#[test]
fn blink_toggles_and_schedules_the_next_tick() {
    let mut c = BlinkCursor::new();
    assert!(!c.visible());

    let next = c.start();
    assert_eq!(next, Some(1));
    assert!(c.visible());

    let next = c.blink(1);
    assert_eq!(next, Some(2));
    assert!(!c.visible());

    // A stale epoch does nothing.
    assert_eq!(c.blink(1), None);
}

#[test]
fn stop_hides_and_cancels() {
    let mut c = BlinkCursor::new();
    c.start();
    c.stop();
    assert!(!c.visible());
    assert_eq!(c.blink(1), None);
}

#[test]
fn pause_shows_steadily_and_resume_blinks_again() {
    let mut c = BlinkCursor::new();
    let epoch = c.pause();
    assert!(c.visible());

    // A blink scheduled before the pause is stale now.
    assert_eq!(c.blink(epoch - 1), None);
    assert!(c.visible());

    let next = c.resume(epoch);
    assert_eq!(next, Some(epoch + 1));
    assert!(c.visible());
}

#[test]
fn stale_resume_only_unpauses() {
    let mut c = BlinkCursor::new();
    let epoch = c.pause();
    assert_eq!(c.resume(epoch + 5), None);
    assert!(!c.visible());
}

#[test]
fn menu_ids_have_stable_identifiers() {
    assert_eq!(MenuId::Settings.as_str(), "settings");
    assert_eq!(MenuId::About.as_str(), "about");
    assert_eq!(MenuId::Quit.as_str(), "quit");
}
