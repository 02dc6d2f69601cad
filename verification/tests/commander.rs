use fast_forward::applications::{Applications, OsRequest};
use fast_forward::commander::{
    Commander, Effect, handle_event, handle_hotkey_event, handle_socket_event, handle_tray_event,
};
use fast_forward::events::{App, EventType, HotkeyEvent, SocketEvent, TrayEvent};

fn entry(name: &str, pid: u32, path: &str) -> App {
    App {
        name: String::from(name),
        pid,
        path: String::from(path),
        icon: String::from(""),
    }
}

#[test]
fn bus_drains_in_fifo_order() {
    let mut bus = Commander::new();
    bus.send(EventType::HotkeyEvent(HotkeyEvent::ShowWindow(0)));
    bus.send(EventType::TrayEvent(TrayEvent::About));
    bus.send(EventType::HotkeyEvent(HotkeyEvent::HideWindow));

    let drained = bus.drain();
    assert_eq!(
        drained,
        vec![
            EventType::HotkeyEvent(HotkeyEvent::ShowWindow(0)),
            EventType::TrayEvent(TrayEvent::About),
            EventType::HotkeyEvent(HotkeyEvent::HideWindow),
        ]
    );
    assert_eq!(bus.drain(), Vec::new());
}

#[test]
fn tray_intents_map_to_their_effects() {
    assert_eq!(handle_tray_event(TrayEvent::Settings), vec![Effect::OpenSettings]);
    assert_eq!(handle_tray_event(TrayEvent::About), vec![Effect::OpenAbout]);
    assert_eq!(handle_tray_event(TrayEvent::Quit), vec![Effect::QuitProcess]);
}

#[test]
fn show_window_carries_the_offset() {
    let mut apps = Applications::new();
    let mut query = String::new();
    let effects = handle_hotkey_event(&mut apps, &mut query, false, false, HotkeyEvent::ShowWindow(1));
    assert_eq!(effects, vec![Effect::ShowWindow(1)]);
}

#[test]
fn hide_window_auto_activates_when_no_latch_is_set() {
    let mut apps = Applications::new();
    let mut query = String::new();
    apps.update_list(vec![
        entry("Safari", 10, "/Applications/Safari.app"),
        entry("Mail", 11, "/Applications/Mail.app"),
    ]);
    apps.index = 1;

    let effects = handle_hotkey_event(&mut apps, &mut query, false, false, HotkeyEvent::HideWindow);
    assert_eq!(
        effects,
        vec![
            Effect::Os(OsRequest::ActivateRunning(entry("Mail", 11, "/Applications/Mail.app"))),
            Effect::HideWindow,
        ]
    );
    assert_eq!(apps.list[0].name, "Mail");
    assert_eq!(apps.index, 0);
    assert_eq!(query, "");
}

#[test]
fn hide_window_skips_activation_when_a_latch_is_set() {
    for (escape, space) in [(true, false), (false, true)] {
        let mut apps = Applications::new();
        let mut query = String::new();
        apps.update_list(vec![
            entry("Safari", 10, "/Applications/Safari.app"),
            entry("Mail", 11, "/Applications/Mail.app"),
        ]);
        apps.index = 1;

        let effects =
            handle_hotkey_event(&mut apps, &mut query, escape, space, HotkeyEvent::HideWindow);
        assert_eq!(effects, vec![Effect::HideWindow]);
        assert_eq!(apps.list[0].name, "Safari");
        assert_eq!(apps.index, 0);
    }
}

#[test]
fn quit_application_intent_quits_the_selection() {
    let mut apps = Applications::new();
    let mut query = String::new();
    apps.update_list(vec![entry("Safari", 10, "/Applications/Safari.app")]);

    let effects =
        handle_hotkey_event(&mut apps, &mut query, true, false, HotkeyEvent::QuitApplication);
    assert_eq!(
        effects,
        vec![Effect::Os(OsRequest::QuitRunning(entry(
            "Safari",
            10,
            "/Applications/Safari.app"
        )))]
    );
    assert_eq!(apps.list[0].pid, 0);
}

#[test]
fn socket_list_replaces_the_registry() {
    let mut apps = Applications::new();
    let mut query = String::new();
    assert!(apps.loading);
    handle_socket_event(
        &mut apps,
        &mut query,
        SocketEvent::List(vec![entry("Safari", 10, "/Applications/Safari.app")]),
    );
    assert!(!apps.loading);
    assert_eq!(apps.list.len(), 1);
    assert_eq!(apps.index, 0);
}

#[test]
fn socket_launch_upserts_at_the_front() {
    let mut apps = Applications::new();
    let mut query = String::new();
    apps.update_list(vec![
        entry("Safari", 10, "/Applications/Safari.app"),
        entry("Mail", 11, "/Applications/Mail.app"),
    ]);
    handle_socket_event(
        &mut apps,
        &mut query,
        SocketEvent::Launch(entry("Mail", 12, "/Applications/Mail.app")),
    );
    assert_eq!(apps.list.len(), 2);
    assert_eq!(apps.list[0].name, "Mail");
    assert_eq!(apps.list[0].pid, 12);
}

#[test]
fn socket_close_marks_not_running() {
    let mut apps = Applications::new();
    let mut query = String::new();
    apps.update_list(vec![entry("Mail", 11, "/Applications/Mail.app")]);
    handle_socket_event(
        &mut apps,
        &mut query,
        SocketEvent::Close(entry("Mail", 11, "/Applications/Mail.app")),
    );
    assert_eq!(apps.list.len(), 1);
    assert_eq!(apps.list[0].pid, 0);
}

#[test]
fn handle_event_dispatches_every_producer() {
    let mut apps = Applications::new();
    let mut query = String::new();

    let e = handle_event(&mut apps, &mut query, false, false, EventType::TrayEvent(TrayEvent::Quit));
    assert_eq!(e, vec![Effect::QuitProcess]);

    let e = handle_event(
        &mut apps,
        &mut query,
        false,
        false,
        EventType::SocketEvent(SocketEvent::List(vec![entry(
            "Safari",
            10,
            "/Applications/Safari.app",
        )])),
    );
    assert_eq!(e, Vec::new());
    assert_eq!(apps.list.len(), 1);

    let e = handle_event(
        &mut apps,
        &mut query,
        false,
        false,
        EventType::HotkeyEvent(HotkeyEvent::ShowWindow(0)),
    );
    assert_eq!(e, vec![Effect::ShowWindow(0)]);
}
