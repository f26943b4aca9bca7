use bytes::BytesMut;
use line_server::Hello;
use line_server::LineProto;
use line_server::Olleh;
use line_server::ServeStatus;
use line_server::serve_available;

#[test]
fn identity_end_to_end() {
    let proto = LineProto;
    let mut conn = proto.bind_transport();
    let mut out = BytesMut::new();
    conn.feed(b"hello\n");
    assert_eq!(serve_available(&mut conn, &Hello, &mut out), ServeStatus::NeedRead);
    assert_eq!(&out[..], b"hello\n");
}

#[test]
fn reversal_end_to_end_unicode() {
    let proto = LineProto;
    let mut conn = proto.bind_transport();
    let mut out = BytesMut::new();
    conn.feed("héllo\n".as_bytes());
    assert_eq!(serve_available(&mut conn, &Olleh, &mut out), ServeStatus::NeedRead);
    assert_eq!(&out[..], "olléh\n".as_bytes());
}

#[test]
fn responses_keep_request_order() {
    let proto = LineProto;
    let mut conn = proto.bind_transport();
    let mut out = BytesMut::new();
    conn.feed(b"one\ntwo\n");
    assert_eq!(serve_available(&mut conn, &Olleh, &mut out), ServeStatus::NeedRead);
    assert_eq!(&out[..], b"eno\nowt\n");
}

#[test]
fn partial_tail_stays_buffered() {
    let proto = LineProto;
    let mut conn = proto.bind_transport();
    let mut out = BytesMut::new();
    conn.feed(b"ab\ncd");
    assert_eq!(serve_available(&mut conn, &Hello, &mut out), ServeStatus::NeedRead);
    assert_eq!(&out[..], b"ab\n");
    conn.feed(b"\n");
    assert_eq!(serve_available(&mut conn, &Hello, &mut out), ServeStatus::NeedRead);
    assert_eq!(&out[..], b"ab\ncd\n");
}

#[test]
fn poll_frame_decodes_one_frame() {
    let proto = LineProto;
    let mut conn = proto.bind_transport();
    conn.feed(b"abc\n");
    assert_eq!(conn.poll_frame(), Ok(Some("abc".to_string())));
    assert_eq!(conn.poll_frame(), Ok(None));
}

#[test]
fn encode_frame_writes_wire_bytes() {
    let proto = LineProto;
    let mut conn = proto.bind_transport();
    let mut out = BytesMut::new();
    assert_eq!(conn.encode_frame("hey".to_string(), &mut out), Ok(()));
    assert_eq!(&out[..], b"hey\n");
}

#[test]
fn framing_error_closes_after_valid_prefix() {
    let proto = LineProto;
    let mut conn = proto.bind_transport();
    let mut out = BytesMut::new();
    conn.feed(b"ok\n");
    conn.feed(&[0xff, b'\n']);
    conn.feed(b"more\n");
    assert_eq!(serve_available(&mut conn, &Hello, &mut out), ServeStatus::Closed);
    assert_eq!(&out[..], b"ok\n");
}

#[test]
fn connection_isolation() {
    let proto = LineProto;
    let mut conn_a = proto.bind_transport();
    let mut conn_b = proto.bind_transport();
    let mut out_a = BytesMut::new();
    let mut out_b = BytesMut::new();
    conn_b.feed(b"first\n");
    conn_a.feed(&[0xff, b'\n']);
    assert_eq!(serve_available(&mut conn_a, &Hello, &mut out_a), ServeStatus::Closed);
    assert_eq!(serve_available(&mut conn_b, &Hello, &mut out_b), ServeStatus::NeedRead);
    assert_eq!(&out_b[..], b"first\n");
    conn_b.feed(b"second\n");
    assert_eq!(serve_available(&mut conn_b, &Hello, &mut out_b), ServeStatus::NeedRead);
    assert_eq!(&out_b[..], b"first\nsecond\n");
}
