use http::header::{HeaderMap, HeaderValue, CONTENT_TYPE, USER_AGENT};
use wasi_http_facade::client::{settle_send, Client, Method, SendEvent};
use wasi_http_facade::error::Kind;

fn json_defaults() -> HeaderMap {
    let mut headers = HeaderMap::new();
    headers.insert(CONTENT_TYPE, HeaderValue::from_static("application/json"));
    headers.insert("x-custom", HeaderValue::from_static("flibbertigibbet"));
    headers
}

#[test]
fn default_headers() {
    let client = Client::builder()
        .default_headers(json_defaults())
        .build()
        .expect("client");
    let mut req = client.get("https://www.example.com").expect("request");
    assert!(client.merge_headers(&mut req));

    let test_headers = &req.headers;
    assert!(test_headers.get(CONTENT_TYPE).is_some(), "content-type");
    assert!(test_headers.get("x-custom").is_some(), "custom header");
    assert!(test_headers.get("accept").is_none(), "no accept header");
}

#[test]
fn default_headers_clone() {
    let client = Client::builder()
        .default_headers(json_defaults())
        .build()
        .expect("client");

    let mut req = client.get("https://www.example.com").expect("request");
    req.headers.insert(CONTENT_TYPE, HeaderValue::from_static("text/plain"));
    assert!(client.merge_headers(&mut req));
    assert_eq!(
        req.headers.get(CONTENT_TYPE).unwrap(),
        "text/plain",
        "request headers override defaults"
    );

    let mut req2 = client.get("https://www.example.com/x").expect("req 2");
    assert!(client.merge_headers(&mut req2));
    assert_eq!(
        req2.headers.get(CONTENT_TYPE).unwrap(),
        "application/json",
        "request headers don't change client defaults"
    );
}

#[test]
fn user_agent_header() {
    let client = Client::builder()
        .user_agent("FooBar/1.2.3")
        .build()
        .expect("client");

    let mut req = client.get("https://www.example.com").expect("request");
    assert!(client.merge_headers(&mut req));
    assert_eq!(
        req.headers.get(USER_AGENT).unwrap(),
        "FooBar/1.2.3",
        "The user-agent header was not set"
    );

    let mut req2 = client.get("https://www.example.com").expect("request 2");
    req2.headers
        .insert(USER_AGENT, HeaderValue::from_static("Another-User-Agent/42"));
    assert!(client.merge_headers(&mut req2));
    assert_eq!(
        req2.headers.get(USER_AGENT).expect("headers2 user agent"),
        "Another-User-Agent/42",
        "Was not able to overwrite the User-Agent value on the request-builder"
    );
}

#[test]
fn request_with_timeout() {
    let err = settle_send::<u32>(SendEvent::Elapsed).expect_err("Expected error from aborted request");
    assert!(err.is_request());
    assert!(err.is_timeout());
}

#[test]
fn completed_send_passes_through() {
    assert_eq!(settle_send(SendEvent::Completed(7u32)).unwrap(), 7);
    let err = settle_send::<u32>(SendEvent::Failed).unwrap_err();
    assert!(err.is_request());
    assert!(!err.is_timeout());
}

#[test]
fn merge_adds_first_default_value_only_when_absent() {
    let mut defaults = HeaderMap::new();
    defaults.append("accept", HeaderValue::from_static("text/html"));
    defaults.append("accept", HeaderValue::from_static("text/plain"));
    defaults.insert("x-trace", HeaderValue::from_static("on"));
    let client = Client::builder().default_headers(defaults).build().unwrap();
    assert_eq!(client.default_header("accept").unwrap(), b"text/plain".to_vec());

    let mut req = client.request(Method::Post, "https://example.com/a").unwrap();
    req.headers.insert("x-trace", HeaderValue::from_static("off"));
    assert!(client.merge_headers(&mut req));
    assert_eq!(req.headers.get("x-trace").unwrap(), "off");
    assert_eq!(req.headers.get_all("accept").iter().count(), 1);
    assert_eq!(req.headers.get("accept").unwrap(), "text/plain");
    assert_eq!(req.headers.len(), 2);
}

#[test]
fn merge_scenario_leaves_client_defaults_alone() {
    let mut defaults = HeaderMap::new();
    defaults.insert(CONTENT_TYPE, HeaderValue::from_static("application/json"));
    let client = Client::builder().default_headers(defaults).build().unwrap();

    let mut a = client.get("https://example.com").unwrap();
    assert!(client.merge_headers(&mut a));
    assert_eq!(a.headers.get(CONTENT_TYPE).unwrap(), "application/json");

    let mut b = client.get("https://example.com").unwrap();
    b.headers.insert(CONTENT_TYPE, HeaderValue::from_static("text/plain"));
    assert!(client.merge_headers(&mut b));
    assert_eq!(b.headers.get(CONTENT_TYPE).unwrap(), "text/plain");

    assert_eq!(client.default_header("content-type").unwrap(), b"application/json".to_vec());
}

#[test]
fn user_agent_twice_keeps_later() {
    let client = Client::builder()
        .user_agent("First/1")
        .user_agent("Second/2")
        .build()
        .unwrap();
    assert_eq!(client.default_header("user-agent").unwrap(), b"Second/2".to_vec());
}

#[test]
fn invalid_user_agent_fails_build() {
    let err = Client::builder()
        .user_agent("bad\nagent")
        .user_agent("Fine/1")
        .build()
        .err()
        .expect("builder error");
    assert!(err.is_builder());
    assert_eq!(err.kind, Kind::Builder);
}

#[test]
fn default_headers_last_value_wins() {
    let mut first = HeaderMap::new();
    first.insert("x-a", HeaderValue::from_static("1"));
    let mut second = HeaderMap::new();
    second.append("x-a", HeaderValue::from_static("2"));
    second.append("x-a", HeaderValue::from_static("3"));
    let client = Client::builder()
        .default_headers(first)
        .default_headers(second)
        .build()
        .unwrap();
    assert_eq!(client.default_header("x-a").unwrap(), b"3".to_vec());
}

#[test]
fn clones_share_frozen_configuration() {
    let mut defaults = HeaderMap::new();
    defaults.insert("x-k", HeaderValue::from_static("v1"));
    let client = Client::builder().default_headers(defaults).build().unwrap();
    let copy = client.clone();

    let mut other = HeaderMap::new();
    other.insert("x-k", HeaderValue::from_static("v2"));
    let later = Client::builder().default_headers(other).build().unwrap();

    assert_eq!(client.default_header("x-k").unwrap(), b"v1".to_vec());
    assert_eq!(copy.default_header("x-k").unwrap(), b"v1".to_vec());
    assert_eq!(later.default_header("x-k").unwrap(), b"v2".to_vec());
}

#[test]
fn malformed_url_is_url_error() {
    let client = Client::new();
    let err = client.get("not a url").err().expect("url error");
    assert!(err.is_url());
    let req = client.delete("https://example.com/p?q=1").unwrap();
    assert_eq!(req.method, Method::Delete);
    assert_eq!(req.url, "https://example.com/p?q=1");
    let req = client.head("HTTPS://Example.COM").unwrap();
    assert_eq!(req.url, "https://example.com/");
    assert!(client.put("https://example.com").is_ok());
    assert!(client.patch("https://example.com").is_ok());
    assert!(client.post("https://example.com").is_ok());
}

#[test]
fn merging_twice_changes_nothing() {
    let client = Client::builder()
        .default_headers(json_defaults())
        .user_agent("Twice/1")
        .build()
        .unwrap();
    let mut req = client.get("https://example.com").unwrap();
    req.headers.insert("accept", HeaderValue::from_static("*/*"));
    assert!(client.merge_headers(&mut req));
    let once = req.headers.clone();
    assert!(client.merge_headers(&mut req));
    assert_eq!(req.headers, once);
    assert_eq!(req.headers.len(), 4);
}
