use pty_host::error::PtyError;
use pty_host::size::pty_size;

#[test]
fn pty_size_has_no_pixels() {
    let s = pty_size(80, 24);
    assert_eq!((s.cols, s.rows, s.pixel_width, s.pixel_height), (80, 24, 0, 0));
    let s = pty_size(132, 43);
    assert_eq!((s.cols, s.rows, s.pixel_width, s.pixel_height), (132, 43, 0, 0));
}

#[test]
fn error_message_is_os_text() {
    assert_eq!(PtyError::Allocation("no pty".to_string()).message(), "no pty");
    assert_eq!(PtyError::Spawn("not found".to_string()).message(), "not found");
    assert_eq!(PtyError::Write("broken pipe".to_string()).message(), "broken pipe");
    assert_eq!(PtyError::Resize("bad fd".to_string()).message(), "bad fd");
}
