use core::time::Duration;

use grpc_web_client::headers::compose_url;
use grpc_web_client::headers::prepare_headers;
use grpc_web_client::headers::response_content_type;
use grpc_web_client::options::Cache;
use grpc_web_client::options::Credentials;
use grpc_web_client::options::Mode;
use grpc_web_client::options::Redirect;
use grpc_web_client::options::ReferrerPolicy;
use grpc_web_client::Client;
use grpc_web_client::FetchOptions;

#[test]
fn fixed_headers_are_seeded() {
    let r = prepare_headers(&Vec::new());
    assert_eq!(
        r,
        vec![
            (
                "content-type".to_string(),
                "application/grpc-web+proto".to_string()
            ),
            (
                "accept".to_string(),
                "application/grpc-web+proto".to_string()
            ),
            ("x-grpc-web".to_string(), "1".to_string()),
        ]
    );
}

#[test]
fn caller_content_type_and_accept_are_dropped() {
    let user = vec![
        ("content-type".to_string(), "application/json".to_string()),
        ("authorization".to_string(), "token-for-test".to_string()),
        ("accept".to_string(), "text/html".to_string()),
        ("x-custom".to_string(), "7".to_string()),
    ];
    let r = prepare_headers(&user);
    assert_eq!(r.len(), 5);
    assert_eq!(r[0].1, "application/grpc-web+proto");
    assert_eq!(r[1].1, "application/grpc-web+proto");
    assert_eq!(r[2], ("x-grpc-web".to_string(), "1".to_string()));
    assert_eq!(r[3], ("authorization".to_string(), "token-for-test".to_string()));
    assert_eq!(r[4], ("x-custom".to_string(), "7".to_string()));
}

#[test]
fn compose_url_concatenates() {
    assert_eq!(
        compose_url("http://localhost:9001", "/echo.Echo/Ping"),
        "http://localhost:9001/echo.Echo/Ping"
    );
    assert_eq!(compose_url("", "/x"), "/x");
}

#[test]
fn response_content_type_is_found() {
    let headers = vec![
        ("server".to_string(), "h2".to_string()),
        ("content-type".to_string(), "application/grpc-web+proto".to_string()),
        ("content-type".to_string(), "other".to_string()),
    ];
    assert_eq!(
        response_content_type(&headers),
        Some("application/grpc-web+proto".to_string())
    );
    assert_eq!(response_content_type(&Vec::new()), None);
}

#[test]
fn options_builders_set_each_field() {
    let o = FetchOptions::new()
        .cache(Cache::NoStore)
        .credentials(Credentials::Include)
        .integrity("sha256-x".to_string())
        .mode(Mode::Cors)
        .redirect(Redirect::Manual)
        .referrer("https://example.test".to_string())
        .referrer_policy(ReferrerPolicy::NoReferrer)
        .timeout(Duration::from_secs(2));
    assert!(matches!(o.cache, Some(Cache::NoStore)));
    assert!(matches!(o.credentials, Some(Credentials::Include)));
    assert_eq!(o.integrity.as_deref(), Some("sha256-x"));
    assert!(matches!(o.mode, Some(Mode::Cors)));
    assert!(matches!(o.redirect, Some(Redirect::Manual)));
    assert_eq!(o.referrer.as_deref(), Some("https://example.test"));
    assert!(matches!(o.referrer_policy, Some(ReferrerPolicy::NoReferrer)));
    assert_eq!(o.timeout, Some(Duration::from_secs(2)));
}

#[test]
fn options_start_empty() {
    let o = FetchOptions::new();
    assert!(o.cache.is_none());
    assert!(o.credentials.is_none());
    assert!(o.integrity.is_none());
    assert!(o.mode.is_none());
    assert!(o.redirect.is_none());
    assert!(o.referrer.is_none());
    assert!(o.referrer_policy.is_none());
    assert!(o.timeout.is_none());
}

#[test]
fn option_enum_defaults() {
    assert_eq!(Cache::default(), Cache::Default);
    assert_eq!(Credentials::default(), Credentials::SameOrigin);
    assert_eq!(Mode::default(), Mode::NoCors);
    assert_eq!(Redirect::default(), Redirect::Follow);
    assert_eq!(
        ReferrerPolicy::default(),
        ReferrerPolicy::StrictOriginWhenCrossOrigin
    );
}

#[test]
fn client_carries_base_url_and_options() {
    let mut c = Client::new("http://localhost:50051".to_string());
    assert_eq!(c.base_url(), "http://localhost:50051");
    assert!(c.options().is_none());
    c.with_options(FetchOptions::new().mode(Mode::Cors));
    assert!(matches!(
        c.options().as_ref().unwrap().mode,
        Some(Mode::Cors)
    ));
    let c2 = Client::new_with_options(
        "http://h".to_string(),
        FetchOptions::new().credentials(Credentials::Omit),
    );
    assert!(matches!(
        c2.options().as_ref().unwrap().credentials,
        Some(Credentials::Omit)
    ));
}
