use danse::forward::after_get;
use danse::forward::after_post;
use danse::forward::ForwardError;
use danse::forward::ForwardStep;
use danse::forward::HttpOutcome;

#[test]
fn post_success_relays_body() {
    let url = "https://a.example/dns-query".to_string();
    let query = vec![1u8, 2, 3];
    let step = after_post(
        &url,
        &query,
        HttpOutcome::Response { status: 200, body: vec![9u8, 8] },
    );
    match step {
        ForwardStep::Done(body) => assert_eq!(body, vec![9u8, 8]),
        _ => panic!("expected the body to be relayed"),
    }
}

#[test]
fn post_405_retries_as_get_with_base64url_query() {
    let url = "https://a.example/dns-query".to_string();
    let query = b"abc".to_vec();
    let step = after_post(
        &url,
        &query,
        HttpOutcome::Response { status: 405, body: Vec::new() },
    );
    match step {
        ForwardStep::RetryGet { url: u, dns_param } => {
            assert_eq!(u, "https://a.example/dns-query");
            assert_eq!(dns_param, "YWJj");
        }
        _ => panic!("expected the GET fallback"),
    }
}

#[test]
fn fallback_encoding_is_url_safe_and_unpadded() {
    let url = "https://a.example/dns-query".to_string();
    // 0xFB 0xEF encodes to 62, 62, 60: '-', '-', '8' in the URL-safe
    // alphabet, three characters with no '=' padding.
    let query = vec![0xFBu8, 0xEF];
    let step = after_post(
        &url,
        &query,
        HttpOutcome::Response { status: 405, body: Vec::new() },
    );
    match step {
        ForwardStep::RetryGet { dns_param, .. } => assert_eq!(dns_param, "--8"),
        _ => panic!("expected the GET fallback"),
    }
}

#[test]
fn post_500_fails_without_get_attempt() {
    let url = "https://a.example/dns-query".to_string();
    let query = vec![1u8];
    let step = after_post(
        &url,
        &query,
        HttpOutcome::Response { status: 500, body: Vec::new() },
    );
    match step {
        ForwardStep::Fail(ForwardError::Upstream(status)) => assert_eq!(status, 500),
        _ => panic!("expected an upstream failure with no second attempt"),
    }
}

#[test]
fn post_transport_failure_fails() {
    let url = "https://a.example/dns-query".to_string();
    let query = vec![1u8];
    let step = after_post(&url, &query, HttpOutcome::Transport);
    assert!(matches!(step, ForwardStep::Fail(ForwardError::Transport)));
}

#[test]
fn get_success_relays_body() {
    let r = after_get(HttpOutcome::Response { status: 204, body: vec![7u8] });
    assert_eq!(r.unwrap(), vec![7u8]);
}

#[test]
fn get_failure_surfaces_status() {
    let r = after_get(HttpOutcome::Response { status: 404, body: Vec::new() });
    match r {
        Err(ForwardError::Upstream(status)) => assert_eq!(status, 404),
        _ => panic!("expected an upstream failure"),
    }
}

#[test]
fn get_transport_failure_surfaces() {
    let r = after_get(HttpOutcome::Transport);
    assert!(matches!(r, Err(ForwardError::Transport)));
}
