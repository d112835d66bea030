use grpc_web_client::Encoding;
use grpc_web_client::Error;

#[test]
fn test_encoding_from_content_type() {
    let vals = [
        ("application/grpc-web", Encoding::Binary),
        ("application/grpc-web+proto", Encoding::Binary),
        ("application/grpc-web-text", Encoding::Base64),
        ("application/grpc-web-text+proto", Encoding::Base64),
        ("application/grpc-web+proto;charset=utf-8", Encoding::Binary),
        ("application/grpc-web+proto; charset=utf-8", Encoding::Binary),
        ("charset=utf-8; application/grpc-web+proto", Encoding::Binary),
    ];
    for (content_type, expected) in vals.iter() {
        assert_eq!(
            Encoding::from_content_type(content_type).ok(),
            Some(*expected)
        );
    }
}

#[test]
fn content_type_outside_the_set_is_rejected() {
    for ct in ["text/html", "application/grpc", "application/json; charset=utf-8", ""] {
        let r = Encoding::from_content_type(ct);
        assert!(matches!(r, Err(Error::InvalidContentType(ref s)) if s == ct));
    }
}

#[test]
fn first_matching_token_wins() {
    assert_eq!(
        Encoding::from_content_type("text/html; application/grpc-web-text; application/grpc-web")
            .ok(),
        Some(Encoding::Base64)
    );
    assert_eq!(
        Encoding::from_content_type(" application/grpc-web \t;x=y").ok(),
        Some(Encoding::Binary)
    );
}
