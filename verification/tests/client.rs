use fast_forward::client::{ClientAction, ClientEvent, ClientPhase, SocketClient, is_ready_line};
use fast_forward::codec::{encode_frame, encode_message};
use fast_forward::events::{App, SocketEvent};

const READY: &str = "Socket bound successfully";

fn entry(name: &str, pid: u32, path: &str) -> App {
    App {
        name: String::from(name),
        pid,
        path: String::from(path),
        icon: String::from(""),
    }
}

#[test]
fn ready_line_is_recognized_anywhere_in_the_line() {
    assert!(is_ready_line(READY));
    assert!(is_ready_line("[info] Socket bound successfully at /tmp"));
    assert!(!is_ready_line("Socket bound"));
    assert!(!is_ready_line(""));
}

#[test]
fn reconnect_attempts_once_per_backoff_cycle() {
    // The connect step fails twice, then succeeds: exactly three connect
    // attempts, each failure followed by a kill-and-backoff, and no
    // intent emitted anywhere.
    let mut c = SocketClient::new();
    let mut all: Vec<ClientAction> = Vec::new();

    let script = vec![
        ClientEvent::HelperLaunched,
        ClientEvent::Line(String::from(READY)),
        ClientEvent::ConnectFailed,
        ClientEvent::BackoffElapsed,
        ClientEvent::HelperLaunched,
        ClientEvent::Line(String::from(READY)),
        ClientEvent::ConnectFailed,
        ClientEvent::BackoffElapsed,
        ClientEvent::HelperLaunched,
        ClientEvent::Line(String::from(READY)),
        ClientEvent::Connected,
    ];
    for e in script {
        all.extend(c.step(e));
    }

    let connects = all
        .iter()
        .filter(|a| matches!(a, ClientAction::Connect))
        .count();
    let sleeps = all
        .iter()
        .filter(|a| matches!(a, ClientAction::KillAndSleep))
        .count();
    let emits = all
        .iter()
        .filter(|a| matches!(a, ClientAction::Emit(_)))
        .count();
    assert_eq!(connects, 3);
    assert_eq!(sleeps, 2);
    assert_eq!(emits, 0);
    assert_eq!(c.phase, ClientPhase::ReadingHeader);
    assert_eq!(c.connect_attempts, 3);
}

#[test]
fn non_ready_lines_keep_reading() {
    let mut c = SocketClient::new();
    assert_eq!(c.step(ClientEvent::HelperLaunched), vec![ClientAction::ReadLine]);
    assert_eq!(
        c.step(ClientEvent::Line(String::from("starting up"))),
        vec![ClientAction::ReadLine]
    );
    assert_eq!(
        c.step(ClientEvent::Line(String::from(READY))),
        vec![ClientAction::Connect]
    );
}

#[test]
fn helper_exit_before_ready_backs_off() {
    let mut c = SocketClient::new();
    c.step(ClientEvent::HelperLaunched);
    assert_eq!(c.step(ClientEvent::StdoutClosed), vec![ClientAction::KillAndSleep]);
    assert_eq!(c.phase, ClientPhase::BackingOff);
    assert_eq!(c.step(ClientEvent::BackoffElapsed), vec![ClientAction::LaunchHelper]);
    assert_eq!(c.phase, ClientPhase::LaunchingHelper);
}

#[test]
fn launch_failure_backs_off() {
    let mut c = SocketClient::new();
    assert_eq!(c.step(ClientEvent::LaunchFailed), vec![ClientAction::KillAndSleep]);
    assert_eq!(c.phase, ClientPhase::BackingOff);
}

fn connected_client() -> SocketClient {
    let mut c = SocketClient::new();
    c.step(ClientEvent::HelperLaunched);
    c.step(ClientEvent::Line(String::from(READY)));
    c.step(ClientEvent::Connected);
    c
}

#[test]
fn a_full_frame_emits_exactly_one_intent() {
    let mut c = connected_client();
    let m = SocketEvent::Launch(entry("Safari", 10, "/Applications/Safari.app"));
    let payload = encode_message(&m).unwrap();
    let framed = encode_frame(&payload).unwrap();

    let header: Vec<u8> = framed[0..4].to_vec();
    let acts = c.step(ClientEvent::Bytes(header));
    assert_eq!(acts, vec![ClientAction::ReadExact(payload.len() as u32)]);

    let acts = c.step(ClientEvent::Bytes(payload));
    assert_eq!(
        acts,
        vec![
            ClientAction::Emit(SocketEvent::Launch(entry(
                "Safari",
                10,
                "/Applications/Safari.app"
            ))),
            ClientAction::ReadExact(4),
        ]
    );
    assert_eq!(c.phase, ClientPhase::ReadingHeader);
}

#[test]
fn short_payload_tears_the_connection_down() {
    let mut c = connected_client();
    let acts = c.step(ClientEvent::Bytes(vec![0, 0, 0, 10]));
    assert_eq!(acts, vec![ClientAction::ReadExact(10)]);

    // Fewer bytes than the declared length: reconnect, no intent.
    let acts = c.step(ClientEvent::Bytes(vec![1, 2, 3]));
    assert_eq!(acts, vec![ClientAction::KillAndSleep]);
    assert_eq!(c.phase, ClientPhase::BackingOff);
}

#[test]
fn undecodable_payload_tears_the_connection_down() {
    let mut c = connected_client();
    let acts = c.step(ClientEvent::Bytes(vec![0, 0, 0, 3]));
    assert_eq!(acts, vec![ClientAction::ReadExact(3)]);

    let acts = c.step(ClientEvent::Bytes(vec![9, 9, 9]));
    assert_eq!(acts, vec![ClientAction::KillAndSleep]);
    assert_eq!(c.phase, ClientPhase::BackingOff);
}

#[test]
fn read_failure_tears_the_connection_down() {
    let mut c = connected_client();
    let acts = c.step(ClientEvent::ReadFailed);
    assert_eq!(acts, vec![ClientAction::KillAndSleep]);
    assert_eq!(c.phase, ClientPhase::BackingOff);
}
