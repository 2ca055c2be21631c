use pty_host::reader::{channel_name, chunk_event, term_event, ReaderLoop, READ_CHUNK};

#[test]
fn channel_is_prefixed_with_session_id() {
    assert_eq!(channel_name(&"abc".to_string()), "term-data:abc");
    assert_eq!(channel_name(&String::new()), "term-data:");
}

#[test]
fn term_event_addresses_session() {
    let e = term_event(&"s1".to_string(), "out".to_string());
    assert_eq!(e.channel, "term-data:s1");
    assert_eq!(e.id, "s1");
    assert_eq!(e.data, "out");
}

#[test]
fn chunk_event_decodes_text() {
    let e = chunk_event(&"s".to_string(), b"hello\r\n");
    assert_eq!(e.data, "hello\r\n");
    assert_eq!(e.channel, "term-data:s");
    let e = chunk_event(&"s".to_string(), "h\u{e9}".as_bytes());
    assert_eq!(e.data, "h\u{e9}");
}

#[test]
fn chunk_event_replaces_invalid_bytes() {
    let e = chunk_event(&"s".to_string(), &[b'a', 0xff, b'b']);
    assert_eq!(e.data, "a\u{fffd}b");
}

#[test]
fn split_multibyte_character_is_replaced_per_chunk() {
    let mut l = ReaderLoop::new("s".to_string());
    let first = l.step(Some(&[0xc3u8][..])).expect("event");
    let second = l.step(Some(&[0xa9u8][..])).expect("event");
    assert_eq!(first.data, "\u{fffd}");
    assert_eq!(second.data, "\u{fffd}");
}

#[test]
fn read_loop_publishes_chunks_in_order() {
    let mut l = ReaderLoop::new("term1".to_string());
    let chunks: [&[u8]; 3] = [b"PS C:\\> ", b"dir\r\n", b"done"];
    let mut all = String::new();
    for c in chunks.iter() {
        let e = l.step(Some(*c)).expect("event");
        assert_eq!(e.id, "term1");
        assert_eq!(e.channel, "term-data:term1");
        all.push_str(&e.data);
    }
    assert_eq!(all, "PS C:\\> dir\r\ndone");
    assert!(!l.is_finished());
}

#[test]
fn end_of_stream_stops_for_good() {
    let mut l = ReaderLoop::new("a".to_string());
    assert!(l.step(Some(&b"x"[..])).is_some());
    assert!(l.step(Some(&b""[..])).is_none());
    assert!(l.is_finished());
    assert!(l.step(Some(&b"late"[..])).is_none());
    assert!(l.is_finished());
}

#[test]
fn read_error_stops_for_good() {
    let mut l = ReaderLoop::new("a".to_string());
    assert!(l.step(None).is_none());
    assert!(l.is_finished());
    assert!(l.step(Some(&b"late"[..])).is_none());
}

#[test]
fn two_sessions_publish_separately() {
    let mut a = ReaderLoop::new("a".to_string());
    let mut b = ReaderLoop::new("b".to_string());
    let ea = a.step(Some(&b"from a"[..])).expect("event");
    let eb = b.step(Some(&b"from b"[..])).expect("event");
    assert_eq!((ea.id.as_str(), ea.channel.as_str(), ea.data.as_str()), ("a", "term-data:a", "from a"));
    assert_eq!((eb.id.as_str(), eb.channel.as_str(), eb.data.as_str()), ("b", "term-data:b", "from b"));
    assert_ne!(ea.channel, eb.channel);
    assert!(b.step(None).is_none());
    assert!(a.step(Some(&b"still a"[..])).is_some());
}

#[test]
fn read_chunk_is_one_kib() {
    assert_eq!(READ_CHUNK, 1024);
}
