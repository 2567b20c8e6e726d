use bytes::BytesMut;
use trust_chat::codec::{find_subsequence, TrustTcpCodec};

#[test]
fn decode_waits_for_marker_across_partial_writes() {
    let mut codec = TrustTcpCodec;
    let mut buf = BytesMut::new();
    buf.extend_from_slice(b"jo");
    assert_eq!(codec.decode(&mut buf), None);
    buf.extend_from_slice(b"in room al<NL>");
    assert_eq!(codec.decode(&mut buf), Some(String::from("join room al")));
    assert_eq!(codec.decode(&mut buf), None);
}

#[test]
fn decode_trims_surrounding_whitespace() {
    let mut codec = TrustTcpCodec;
    let mut buf = BytesMut::new();
    buf.extend_from_slice(b"  hello there \r\n<NL>");
    assert_eq!(codec.decode(&mut buf), Some(String::from("hello there")));
}

#[test]
fn decode_keeps_bytes_after_the_marker() {
    let mut codec = TrustTcpCodec;
    let mut buf = BytesMut::new();
    buf.extend_from_slice(b"first<NL>second<NL>tail");
    assert_eq!(codec.decode(&mut buf), Some(String::from("first")));
    assert_eq!(codec.decode(&mut buf), Some(String::from("second")));
    assert_eq!(codec.decode(&mut buf), None);
    assert_eq!(&buf[..], b"tail");
}

#[test]
fn decode_of_whitespace_only_line_is_empty() {
    let mut codec = TrustTcpCodec;
    let mut buf = BytesMut::new();
    buf.extend_from_slice(b"   <NL>");
    assert_eq!(codec.decode(&mut buf), Some(String::new()));
}

#[test]
fn encode_is_passthrough_without_framing() {
    let mut codec = TrustTcpCodec;
    let mut buf = BytesMut::new();
    codec.encode(String::from("alice: hi<NL>"), &mut buf);
    assert_eq!(&buf[..], b"alice: hi<NL>");
    codec.encode(String::from("x"), &mut buf);
    assert_eq!(&buf[..], b"alice: hi<NL>x");
}

#[test]
fn find_subsequence_reports_first_occurrence() {
    assert_eq!(find_subsequence(b"abcabc", b"abc"), Some(0));
    assert_eq!(find_subsequence(b"xxabc", b"abc"), Some(2));
    assert_eq!(find_subsequence(b"ab", b"abc"), None);
    assert_eq!(find_subsequence(b"hello", b"lo"), Some(3));
    assert_eq!(find_subsequence(b"hello", b"zz"), None);
}
