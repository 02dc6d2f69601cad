use fast_forward::codec::{decode_message, encode_frame, encode_message, frame_length};
use fast_forward::events::{App, SocketEvent};

fn entry(name: &str, pid: u32, path: &str) -> App {
    App {
        name: String::from(name),
        pid,
        path: String::from(path),
        icon: String::from("icons/x.png"),
    }
}

#[test]
fn launch_round_trip() {
    let m = SocketEvent::Launch(entry("Safari", 10, "/Applications/Safari.app"));
    let bytes = encode_message(&m).unwrap();
    let back = decode_message(&bytes);
    assert_eq!(back, Some(m));
}

#[test]
fn close_and_activate_round_trip() {
    for m in [
        SocketEvent::Close(entry("Mail", 0, "/Applications/Mail.app")),
        SocketEvent::Activate(entry("Mail", 4, "/Applications/Mail.app")),
    ] {
        let bytes = encode_message(&m).unwrap();
        assert_eq!(decode_message(&bytes), Some(m));
    }
}

#[test]
fn list_round_trip() {
    let m = SocketEvent::List(vec![
        entry("Safari", 10, "/Applications/Safari.app"),
        entry("Notes", 0, "/Applications/Notes.app"),
        entry("Caf\u{e9}", 3, "/Users/x/Caf\u{e9}.app"),
    ]);
    let bytes = encode_message(&m).unwrap();
    assert_eq!(decode_message(&bytes), Some(m));
}

#[test]
fn empty_list_round_trip() {
    let m = SocketEvent::List(Vec::new());
    let bytes = encode_message(&m).unwrap();
    assert_eq!(bytes, vec![1, 0, 0, 0, 0]);
    assert_eq!(decode_message(&bytes), Some(m));
}

#[test]
fn truncated_payload_fails_to_decode() {
    let m = SocketEvent::Launch(entry("Safari", 10, "/Applications/Safari.app"));
    let mut bytes = encode_message(&m).unwrap();
    bytes.pop();
    assert_eq!(decode_message(&bytes), None);
    assert_eq!(decode_message(&Vec::new()), None);
}

#[test]
fn trailing_bytes_fail_to_decode() {
    let m = SocketEvent::Launch(entry("Safari", 10, "/Applications/Safari.app"));
    let mut bytes = encode_message(&m).unwrap();
    bytes.push(0);
    assert_eq!(decode_message(&bytes), None);
}

#[test]
fn unknown_tag_fails_to_decode() {
    let m = SocketEvent::Launch(entry("Safari", 10, "/Applications/Safari.app"));
    let mut bytes = encode_message(&m).unwrap();
    bytes[0] = 9;
    assert_eq!(decode_message(&bytes), None);
}

#[test]
fn invalid_utf8_fails_to_decode() {
    // A Launch whose name claims 2 bytes of invalid UTF-8.
    let bytes = vec![2, 0, 0, 0, 2, 0xff, 0xfe];
    assert_eq!(decode_message(&bytes), None);
}

#[test]
fn frame_carries_length_prefix() {
    let payload = vec![7u8, 8, 9];
    let framed = encode_frame(&payload).unwrap();
    assert_eq!(framed, vec![0, 0, 0, 3, 7, 8, 9]);

    let header = vec![0u8, 0, 0, 3];
    assert_eq!(frame_length(&header), Some(3));
    assert_eq!(frame_length(&vec![0u8, 0, 0]), None);
    let big = vec![1u8, 2, 3, 4];
    assert_eq!(frame_length(&big), Some(0x0102_0304));
}
