use std::io::Write;

use portable_pty::{native_pty_system, PtyPair};
use pty_host::registry::SessionRegistry;
use pty_host::size::pty_size;

#[test]
fn resize_reaches_the_terminal() {
    let pair = native_pty_system().openpty(pty_size(80, 24)).expect("open a pty");
    let size = pair.master.get_size().expect("query size");
    assert_eq!((size.cols, size.rows), (80, 24));
    let writer = pair.master.take_writer().expect("writer");

    let mut sessions: SessionRegistry<PtyPair, Box<dyn Write + Send>> = SessionRegistry::new();
    let id = "t1".to_string();
    sessions.insert(id.clone(), pair, writer);
    let pair = sessions.get_pair(&id).expect("registered");
    pair.master.resize(pty_size(132, 43)).expect("resize");
    let size = pair.master.get_size().expect("query size");
    assert_eq!((size.cols, size.rows), (132, 43));

    assert!(sessions.remove(&id).is_some());
    assert!(sessions.get_pair(&id).is_none());
}
