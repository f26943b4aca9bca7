use bytes::BytesMut;
use line_server::LineCodec;
use line_server::LineError;

#[test]
fn frame_boundary_two_frames() {
    let mut codec = LineCodec;
    let mut buf = BytesMut::from(&b"a\nbc\n"[..]);
    assert_eq!(codec.decode(&mut buf), Ok(Some("a".to_string())));
    assert_eq!(codec.decode(&mut buf), Ok(Some("bc".to_string())));
    assert_eq!(buf.len(), 0);
    assert_eq!(codec.decode(&mut buf), Ok(None));
}

#[test]
fn partial_frame_waits_for_delimiter() {
    let mut codec = LineCodec;
    let mut buf = BytesMut::from(&b"abc"[..]);
    assert_eq!(codec.decode(&mut buf), Ok(None));
    assert_eq!(&buf[..], b"abc");
    buf.extend_from_slice(b"\n");
    assert_eq!(codec.decode(&mut buf), Ok(Some("abc".to_string())));
    assert_eq!(buf.len(), 0);
}

#[test]
fn empty_frame_between_delimiters() {
    let mut codec = LineCodec;
    let mut buf = BytesMut::from(&b"\n"[..]);
    assert_eq!(codec.decode(&mut buf), Ok(Some(String::new())));
    assert_eq!(buf.len(), 0);
}

#[test]
fn invalid_utf8_is_framing_error() {
    let mut codec = LineCodec;
    let mut buf = BytesMut::from(&[0xff, 0xfe, b'\n'][..]);
    assert_eq!(codec.decode(&mut buf), Err(LineError::InvalidUtf8));
}

#[test]
fn invalid_utf8_yields_no_garbled_frame() {
    let mut codec = LineCodec;
    let mut buf = BytesMut::from(&[b'h', 0xc3, b'\n', b'o', b'k', b'\n'][..]);
    assert_eq!(codec.decode(&mut buf), Err(LineError::InvalidUtf8));
    assert_eq!(&buf[..], b"ok\n");
}

#[test]
fn encode_appends_payload_and_delimiter() {
    let mut codec = LineCodec;
    let mut out = BytesMut::new();
    assert_eq!(codec.encode("hello".to_string(), &mut out), Ok(()));
    assert_eq!(&out[..], b"hello\n");
    assert_eq!(codec.encode("world".to_string(), &mut out), Ok(()));
    assert_eq!(&out[..], b"hello\nworld\n");
}

#[test]
fn encode_multibyte_characters() {
    let mut codec = LineCodec;
    let mut out = BytesMut::new();
    codec.encode("héllo".to_string(), &mut out).unwrap();
    assert_eq!(&out[..], "héllo\n".as_bytes());
}

#[test]
fn round_trip_preserves_message() {
    let mut codec = LineCodec;
    let mut buf = BytesMut::new();
    codec.encode("héllo wörld".to_string(), &mut buf).unwrap();
    assert_eq!(codec.decode(&mut buf), Ok(Some("héllo wörld".to_string())));
    assert_eq!(buf.len(), 0);
}

#[test]
fn round_trip_empty_message() {
    let mut codec = LineCodec;
    let mut buf = BytesMut::new();
    codec.encode(String::new(), &mut buf).unwrap();
    assert_eq!(codec.decode(&mut buf), Ok(Some(String::new())));
    assert_eq!(buf.len(), 0);
}
