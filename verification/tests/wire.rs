use hyprbar::wire::{find_byte, is_fatal, response_end, socket_paths, split_first_line, HyprError, TERMINATOR};

#[test]
fn builds_both_socket_paths() {
    let (control, events) = socket_paths("/run/user/1000", "sig123");
    assert_eq!(control, "/run/user/1000/hypr/sig123/.socket.sock");
    assert_eq!(events, "/run/user/1000/hypr/sig123/.socket2.sock");
}

#[test]
fn finds_the_first_terminator() {
    assert_eq!(find_byte(&b"ok;".to_vec(), TERMINATOR), Some(2));
    assert_eq!(find_byte(&b";;".to_vec(), TERMINATOR), Some(0));
    assert_eq!(find_byte(&b"ok".to_vec(), TERMINATOR), None);
    assert_eq!(response_end(&b"ok; trailing".to_vec()), Some(3));
    assert_eq!(response_end(&b"partial".to_vec()), None);
}

#[test]
fn splits_lines_and_strips_line_endings() {
    let (line, rest) = split_first_line(&b"one\ntwo\nthree".to_vec()).unwrap();
    assert_eq!(line, b"one".to_vec());
    assert_eq!(rest, b"two\nthree".to_vec());
    let (line, rest) = split_first_line(&b"crlf\r\nrest".to_vec()).unwrap();
    assert_eq!(line, b"crlf".to_vec());
    assert_eq!(rest, b"rest".to_vec());
    let (line, rest) = split_first_line(&b"\n".to_vec()).unwrap();
    assert_eq!(line, b"".to_vec());
    assert_eq!(rest, b"".to_vec());
    assert_eq!(split_first_line(&b"incomplete".to_vec()), None);
}

#[test]
fn connection_and_stream_end_are_fatal() {
    assert!(is_fatal(HyprError::Connection));
    assert!(is_fatal(HyprError::StreamEnded));
    assert!(!is_fatal(HyprError::Control));
    assert!(!is_fatal(HyprError::Parse));
}
