use grpc_web_client::trailers::parse_trailers;
use grpc_web_client::Error;

#[test]
fn trailer_multimap_keeps_order_and_duplicates() {
    let t = parse_trailers(b"a: 1\r\nb: 2\r\na: 3\r\n").unwrap();
    assert_eq!(t.len(), 3);
    assert_eq!(t.name_at(0), &b"a".to_vec());
    assert_eq!(t.value_at(0), &b"1".to_vec());
    assert_eq!(t.name_at(1), &b"b".to_vec());
    assert_eq!(t.value_at(1), &b"2".to_vec());
    assert_eq!(t.name_at(2), &b"a".to_vec());
    assert_eq!(t.value_at(2), &b"3".to_vec());
    assert_eq!(t.value_of(b"a").unwrap(), &b"1".to_vec());
    assert!(t.value_of(b"missing").is_none());
}

#[test]
fn trailer_names_are_lowercased() {
    let t = parse_trailers(b"Grpc-Status: 0\r\nGrpc-Message: OK\r\n").unwrap();
    assert_eq!(t.value_of(b"grpc-status").unwrap(), &b"0".to_vec());
    assert_eq!(t.value_of(b"grpc-message").unwrap(), &b"OK".to_vec());
    assert!(t.value_of(b"Grpc-Status").is_none());
}

#[test]
fn value_whitespace_is_trimmed_but_kept_inside() {
    let t = parse_trailers(b"a: \t v w \t\r\n").unwrap();
    assert_eq!(t.value_of(b"a").unwrap(), &b"v w".to_vec());
}

#[test]
fn empty_value_is_allowed() {
    let t = parse_trailers(b"a:\r\n").unwrap();
    assert_eq!(t.value_of(b"a").unwrap(), &b"".to_vec());
}

#[test]
fn bare_line_feeds_are_accepted() {
    let t = parse_trailers(b"a: 1\nb: 2\n").unwrap();
    assert_eq!(t.len(), 2);
}

#[test]
fn empty_line_ends_the_block() {
    let t = parse_trailers(b"a: 1\r\n\r\nb: 2\r\n").unwrap();
    assert_eq!(t.len(), 1);
    assert_eq!(t.value_of(b"a").unwrap(), &b"1".to_vec());
}

#[test]
fn empty_block_has_no_trailer() {
    let t = parse_trailers(b"").unwrap();
    assert!(t.is_empty());
}

#[test]
fn obs_text_value_octets_are_kept() {
    let t = parse_trailers(&[b'a', b':', b' ', 0x80, 0xff, b'\r', b'\n']).unwrap();
    assert_eq!(t.value_of(b"a").unwrap(), &vec![0x80, 0xff]);
}

#[test]
fn line_without_terminator_fails() {
    let r = parse_trailers(b"a: 1");
    assert!(matches!(r, Err(Error::HeaderParsingError)));
}

#[test]
fn missing_colon_fails() {
    let r = parse_trailers(b"nocolon\r\n");
    assert!(matches!(r, Err(Error::HeaderParsingError)));
}

#[test]
fn empty_name_fails() {
    let r = parse_trailers(b": v\r\n");
    assert!(matches!(r, Err(Error::InvalidHeaderName)));
}

#[test]
fn name_with_space_fails() {
    let r = parse_trailers(b"a b: v\r\n");
    assert!(matches!(r, Err(Error::InvalidHeaderName)));
}

#[test]
fn value_with_control_octet_fails() {
    let r = parse_trailers(b"a: v\x01w\r\n");
    assert!(matches!(r, Err(Error::InvalidHeaderValue)));
}

#[test]
fn first_fault_wins() {
    // The bad name on the first line is reported, not the bad value later.
    let r = parse_trailers(b"a b: v\r\nc: d\x01\r\n");
    assert!(matches!(r, Err(Error::InvalidHeaderName)));
}
