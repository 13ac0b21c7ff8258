//! Messages over the control socket.

use tessera::ipc::{
    default_tail, read_message, signal_name, socket_path, take_lines, unix_millis, write_message,
    ExitStatus, Placement, RunMode, Side,
};

#[test]
fn sides_have_opposites_and_names() {
    for (side, name) in [
        (Side::Left, "left"),
        (Side::Right, "right"),
        (Side::Above, "above"),
        (Side::Below, "below"),
    ] {
        assert_eq!(side.opposite().opposite(), side);
        assert_eq!(Side::from_name(name), Some(side));
    }
    assert_eq!(Side::Left.opposite(), Side::Right);
    assert_eq!(Side::from_name("up"), None);
}

#[test]
fn exit_statuses_describe_themselves() {
    assert_eq!(ExitStatus::Code { code: 0 }.describe(), "ok");
    assert!(ExitStatus::Code { code: 0 }.success());
    assert_eq!(ExitStatus::Code { code: 2 }.describe(), "exit 2");
    assert_eq!(ExitStatus::Signal { signal: 15 }.describe(), "SIGTERM");
    assert_eq!(ExitStatus::Signal { signal: 64 }.describe(), "signal 64");
}

#[test]
fn negative_codes_and_other_signals_are_described_too() {
    assert_eq!(ExitStatus::Code { code: -1 }.describe(), "exit -1");
    assert!(!ExitStatus::Code { code: -1 }.success());
    assert!(!ExitStatus::Signal { signal: 0 }.success());
    assert_eq!(signal_name(9), Some("SIGKILL"));
    assert_eq!(signal_name(10), None);
}

#[test]
fn defaults_are_what_an_empty_request_means() {
    assert_eq!(default_tail(), 500);
    assert_eq!(Placement::auto(), Placement::Auto);
    assert_eq!(Side::default(), Side::Right);
    assert_eq!(RunMode::default(), RunMode::Background);
}

#[test]
fn reading_stops_at_end_of_input() {
    assert!(!read_message(""));
    assert!(!read_message(" \n"));
    assert!(read_message("{}\n"));
}

#[test]
fn messages_are_newline_delimited() {
    assert_eq!(write_message(b"{}".to_vec()), b"{}\n".to_vec());
}

#[test]
fn written_messages_come_out_one_by_one() {
    let mut buffer = write_message(b"one".to_vec());
    buffer.extend(write_message(b"two".to_vec()));
    buffer.extend(b"thr");
    assert_eq!(take_lines(&mut buffer), vec![b"one\n".to_vec(), b"two\n".to_vec()]);
    assert_eq!(buffer, b"thr".to_vec());
    buffer.extend(b"ee\n");
    assert_eq!(take_lines(&mut buffer), vec![b"three\n".to_vec()]);
    assert!(buffer.is_empty());
}

#[test]
fn socket_path_follows_the_runtime_directory() {
    let path = socket_path(Some("/run/user/1000"), "wayland-1");
    assert!(path.ends_with("tessera-wayland-1.sock"), "{path:?}");
    assert_eq!(path, "/run/user/1000/tessera-wayland-1.sock");
    assert_eq!(socket_path(None, "wayland-1"), "/tmp/tessera-wayland-1.sock");
}

#[test]
fn times_are_milliseconds_since_the_epoch() {
    assert_eq!(unix_millis(Some(1_700_000_000_000)), 1_700_000_000_000);
    assert_eq!(unix_millis(None), 0);
    assert_eq!(unix_millis(Some((1u128 << 64) + 5)), 5);
}
