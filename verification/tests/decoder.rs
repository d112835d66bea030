use base64::Engine;
use grpc_web_client::response_body::BodyEvent;
use grpc_web_client::Error;
use grpc_web_client::ResponseBody;
use grpc_web_client::Trailers;

/// The single unary response: one data frame `Hello`, one trailer frame
/// carrying `grpc-status: 0`, with the trailer frame's length field set to
/// 15 so that the final line feed is a stray byte after the frame.
fn unary_wire() -> Vec<u8> {
    let mut v = vec![0x00, 0x00, 0x00, 0x00, 0x05];
    v.extend_from_slice(b"Hello");
    v.extend_from_slice(&[0x80, 0x00, 0x00, 0x00, 0x0f]);
    v.extend_from_slice(b"grpc-status: 0\r\n");
    v
}

fn unary_frame() -> Vec<u8> {
    let mut v = vec![0x00, 0x00, 0x00, 0x00, 0x05];
    v.extend_from_slice(b"Hello");
    v
}

/// Feeds the whole wire body in chunks of `chunk` bytes and collects every
/// data frame and the trailers.
fn drain(
    content_type: &str,
    wire: &[u8],
    chunk: usize,
) -> Result<(Vec<Vec<u8>>, Option<Trailers>), Error> {
    let mut body = ResponseBody::new(content_type)?;
    let mut frames: Vec<Vec<u8>> = Vec::new();
    let mut trailers: Option<Trailers> = None;
    let mut fed: usize = 0;
    loop {
        match body.next_frame()? {
            BodyEvent::Data(d) => frames.push(d),
            BodyEvent::Trailers(t) => trailers = Some(t),
            BodyEvent::Finished => return Ok((frames, trailers)),
            BodyEvent::NeedData => {
                if fed < wire.len() {
                    let hi = usize::min(fed + chunk, wire.len());
                    body.append(&wire[fed..hi])?;
                    fed = hi;
                } else if !body.is_finished() {
                    body.finish();
                } else {
                    panic!("decoder asked for data after the end of the stream");
                }
            }
        }
    }
}

#[test]
fn single_unary_response_binary() {
    let (frames, trailers) = drain("application/grpc-web+proto", &unary_wire(), 1024).unwrap();
    assert_eq!(frames, vec![unary_frame()]);
    let trailers = trailers.unwrap();
    assert_eq!(trailers.len(), 1);
    assert_eq!(trailers.value_of(b"grpc-status").unwrap(), &b"0".to_vec());
}

#[test]
fn two_frames_split_across_chunks() {
    let mut wire = vec![0x00, 0x00, 0x00, 0x00, 0x01, b'A'];
    wire.extend_from_slice(&[0x00, 0x00, 0x00, 0x00, 0x01, b'B']);
    wire.extend_from_slice(&[0x80, 0x00, 0x00, 0x00, 0x0f]);
    wire.extend_from_slice(b"grpc-status: 0\r\n");
    for chunk in [1, 2, 3, 5, 7, wire.len()] {
        let (frames, trailers) = drain("application/grpc-web+proto", &wire, chunk).unwrap();
        assert_eq!(
            frames,
            vec![
                vec![0x00, 0x00, 0x00, 0x00, 0x01, b'A'],
                vec![0x00, 0x00, 0x00, 0x00, 0x01, b'B'],
            ]
        );
        let trailers = trailers.unwrap();
        assert_eq!(trailers.value_of(b"grpc-status").unwrap(), &b"0".to_vec());
    }
}

#[test]
fn text_transport_matches_binary() {
    let encoded = base64::engine::general_purpose::STANDARD.encode(unary_wire());
    for chunk in [1, 3, 4, 6, encoded.len()] {
        let (frames, trailers) =
            drain("application/grpc-web-text+proto", encoded.as_bytes(), chunk).unwrap();
        assert_eq!(frames, vec![unary_frame()]);
        let trailers = trailers.unwrap();
        assert_eq!(trailers.value_of(b"grpc-status").unwrap(), &b"0".to_vec());
    }
}

#[test]
fn truncated_stream_is_malformed() {
    let wire = unary_wire();
    let r = drain("application/grpc-web+proto", &wire[..7], 1024);
    assert!(matches!(r, Err(Error::MalformedResponse)));
}

#[test]
fn empty_stream_is_malformed() {
    let r = drain("application/grpc-web+proto", &[], 1024);
    assert!(matches!(r, Err(Error::MalformedResponse)));
}

#[test]
fn bytes_after_the_trailer_frame_are_ignored() {
    let mut wire = unary_wire();
    wire.extend_from_slice(b"ignored junk after the trailer frame");
    let (frames, trailers) = drain("application/grpc-web+proto", &wire, 4).unwrap();
    assert_eq!(frames, vec![unary_frame()]);
    let trailers = trailers.unwrap();
    assert_eq!(trailers.len(), 1);
    assert_eq!(trailers.value_of(b"grpc-status").unwrap(), &b"0".to_vec());
}

#[test]
fn zero_length_data_frame_is_legal() {
    let mut wire = vec![0x00, 0x00, 0x00, 0x00, 0x00];
    wire.extend_from_slice(&[0x80, 0x00, 0x00, 0x00, 0x00]);
    let (frames, trailers) = drain("application/grpc-web+proto", &wire, 2).unwrap();
    assert_eq!(frames, vec![vec![0x00, 0x00, 0x00, 0x00, 0x00]]);
    assert_eq!(trailers.unwrap().len(), 0);
}

#[test]
fn at_most_one_frame_per_pull() {
    let mut wire = vec![0x00, 0x00, 0x00, 0x00, 0x01, b'A'];
    wire.extend_from_slice(&[0x00, 0x00, 0x00, 0x00, 0x01, b'B']);
    wire.extend_from_slice(&[0x80, 0x00, 0x00, 0x00, 0x00]);
    let mut body = ResponseBody::new("application/grpc-web").unwrap();
    body.append(&wire).unwrap();
    assert!(matches!(body.next_frame().unwrap(), BodyEvent::Data(d) if d.ends_with(b"A")));
    assert!(matches!(body.next_frame().unwrap(), BodyEvent::Data(d) if d.ends_with(b"B")));
    assert!(matches!(body.next_frame().unwrap(), BodyEvent::Trailers(_)));
    assert!(matches!(body.next_frame().unwrap(), BodyEvent::Finished));
    assert!(matches!(body.next_frame().unwrap(), BodyEvent::Finished));
}

#[test]
fn pull_before_any_input_asks_for_data() {
    let mut body = ResponseBody::new("application/grpc-web").unwrap();
    assert!(matches!(body.next_frame().unwrap(), BodyEvent::NeedData));
}

#[test]
fn invalid_base64_is_reported() {
    let mut body = ResponseBody::new("application/grpc-web-text").unwrap();
    let r = body.append(b"!!!!");
    assert!(matches!(r, Err(Error::Base64DecodeError)));
    assert!(body.has_failed());
}

#[test]
fn base64_residue_is_carried_across_appends() {
    // The same text body split so that no append is quantum-aligned.
    let encoded = base64::engine::general_purpose::STANDARD.encode(unary_wire());
    let (frames, trailers) = drain("application/grpc-web-text", encoded.as_bytes(), 3).unwrap();
    assert_eq!(frames, vec![unary_frame()]);
    assert_eq!(trailers.unwrap().len(), 1);
}

#[test]
fn trailer_without_colon_is_a_parse_error() {
    let mut wire = vec![0x80, 0x00, 0x00, 0x00, 0x07];
    wire.extend_from_slice(b"nocolon");
    let r = drain("application/grpc-web", &wire, 1024);
    assert!(matches!(r, Err(Error::HeaderParsingError)));
}

#[test]
fn trailer_with_bad_name_is_rejected() {
    let mut wire = vec![0x80, 0x00, 0x00, 0x00, 0x08];
    wire.extend_from_slice(b"a b: c\r\n");
    let r = drain("application/grpc-web", &wire, 1024);
    assert!(matches!(r, Err(Error::InvalidHeaderName)));
}

#[test]
fn trailer_with_bad_value_is_rejected() {
    let mut wire = vec![0x80, 0x00, 0x00, 0x00, 0x06];
    wire.extend_from_slice(b"a: b\x01c");
    let r = drain("application/grpc-web", &wire, 1024);
    assert!(matches!(r, Err(Error::InvalidHeaderValue)));
}

#[test]
fn default_body_is_already_drained() {
    let mut body = ResponseBody::default();
    assert!(matches!(body.next_frame().unwrap(), BodyEvent::Finished));
    assert!(matches!(body.next_frame().unwrap(), BodyEvent::Finished));
}
