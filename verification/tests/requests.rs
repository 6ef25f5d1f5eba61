use hyper::header::HeaderMap;
use hyper_client::error::Error;
use hyper_client::headers::Header;
use hyper_client::message::{Request, Version};
use hyper_client::native::HEADER_ROOM;
use hyper_client::request::{check_append, check_scheme, check_url, HyperHttpRequest};

fn header(name: &str, values: &[&str]) -> Header {
    Header {
        name: name.to_string(),
        values: values.iter().map(|v| v.as_bytes().to_vec()).collect(),
    }
}

fn request(url: &str, headers: Vec<Header>) -> Request {
    Request {
        method: "GET".to_string(),
        url: url.to_string(),
        version: None,
        headers,
        body: b"hello".to_vec(),
    }
}

fn values_under(map: &HeaderMap, name: &str) -> Vec<Vec<u8>> {
    map.get_all(name).iter().map(|v| v.as_bytes().to_vec()).collect()
}

fn names_of(map: &HeaderMap) -> Vec<String> {
    map.keys().map(|k| k.as_str().to_string()).collect()
}

#[test]
fn get_with_body_keeps_method_target_and_body() {
    let native = HyperHttpRequest::try_from(request("http://localhost:8080/echo", vec![]))
        .unwrap()
        .into_inner();
    assert_eq!(native.method, "GET");
    assert_eq!(native.uri, "http://localhost:8080/echo");
    assert_eq!(native.body, b"hello".to_vec());
    assert_eq!(native.version, Version::Http1_1);
    assert!(native.headers.is_empty());
}

#[test]
fn https_is_dispatched() {
    let native = HyperHttpRequest::try_from(request("https://example.org/", vec![])).unwrap();
    assert_eq!(native.into_inner().uri, "https://example.org/");
}

#[test]
fn ftp_is_a_client_error() {
    let err = HyperHttpRequest::try_from(request("ftp://example.org/file", vec![])).unwrap_err();
    assert_eq!(err, Error::InvalidScheme);
    assert_eq!(err.status(), 400);
    assert!(err.is_client_error());
    assert_eq!(err.message(), "invalid scheme");
}

#[test]
fn url_without_scheme_has_an_invalid_scheme() {
    assert_eq!(check_url("/only/a/path"), Err(Error::InvalidScheme));
    assert_eq!(check_url("example.org"), Err(Error::InvalidScheme));
}

#[test]
fn url_that_is_no_uri_is_refused() {
    assert_eq!(check_url(""), Err(Error::InvalidUri));
    assert_eq!(check_url("http://exa mple.org/"), Err(Error::InvalidUri));
    let err = HyperHttpRequest::try_from(request("", vec![])).unwrap_err();
    assert_eq!(err, Error::InvalidUri);
    assert!(err.is_client_error());
}

#[test]
fn check_url_accepts_both_schemes() {
    assert_eq!(check_url("http://localhost:8080"), Ok(()));
    assert_eq!(check_url("https://localhost"), Ok(()));
    assert_eq!(check_url("HTTP://localhost"), Ok(()));
}

#[test]
fn check_scheme_judges_each_lookup() {
    assert_eq!(check_scheme(&Some(Some("http".to_string()))), Ok(()));
    assert_eq!(check_scheme(&Some(Some("https".to_string()))), Ok(()));
    assert_eq!(check_scheme(&Some(Some("ftp".to_string()))), Err(Error::InvalidScheme));
    assert_eq!(check_scheme(&Some(Some("httpx".to_string()))), Err(Error::InvalidScheme));
    assert_eq!(check_scheme(&Some(Some(String::new()))), Err(Error::InvalidScheme));
    assert_eq!(check_scheme(&Some(None)), Err(Error::InvalidScheme));
    assert_eq!(check_scheme(&None), Err(Error::InvalidUri));
}

#[test]
fn check_append_ends_on_a_full_map() {
    assert_eq!(check_append(Some(true)), Ok(()));
    assert_eq!(check_append(Some(false)), Ok(()));
    assert_eq!(check_append(None), Err(Error::HeaderCapacity));
}

#[test]
fn two_values_under_one_name_are_both_carried_in_order() {
    let native = HyperHttpRequest::try_from(request(
        "http://localhost/",
        vec![header("X-Test", &["a", "b"])],
    ))
    .unwrap()
    .into_inner();
    assert_eq!(values_under(&native.headers, "x-test"), vec![b"a".to_vec(), b"b".to_vec()]);
    assert_eq!(native.headers.len(), 2);
    assert_eq!(native.headers.keys_len(), 1);
}

#[test]
fn names_take_the_engine_spelling() {
    let native = HyperHttpRequest::try_from(request(
        "http://localhost/",
        vec![header("X-Test", &["a"]), header("Content-Type", &["text/plain"])],
    ))
    .unwrap()
    .into_inner();
    assert_eq!(names_of(&native.headers), vec!["x-test".to_string(), "content-type".to_string()]);
}

#[test]
fn names_and_values_survive_in_order() {
    let headers = vec![
        header("accept", &["text/html", "application/json", "*/*"]),
        header("x-first", &["1"]),
        header("x-second", &["2", "3"]),
    ];
    let native =
        HyperHttpRequest::try_from(request("http://localhost/", headers.clone())).unwrap().into_inner();
    assert_eq!(
        names_of(&native.headers),
        vec!["accept".to_string(), "x-first".to_string(), "x-second".to_string()]
    );
    for h in &headers {
        assert_eq!(values_under(&native.headers, &h.name), h.values);
    }
    let walked: Vec<(Option<String>, Vec<u8>)> = native
        .headers
        .into_iter()
        .map(|(n, v)| (n.map(|n| n.as_str().to_string()), v.as_bytes().to_vec()))
        .collect();
    assert_eq!(
        walked,
        vec![
            (Some("accept".to_string()), b"text/html".to_vec()),
            (None, b"application/json".to_vec()),
            (None, b"*/*".to_vec()),
            (Some("x-first".to_string()), b"1".to_vec()),
            (Some("x-second".to_string()), b"2".to_vec()),
            (None, b"3".to_vec()),
        ]
    );
}

#[test]
fn a_name_given_twice_gathers_its_values() {
    let native = HyperHttpRequest::try_from(request(
        "http://localhost/",
        vec![header("x-test", &["a"]), header("other", &["o"]), header("X-TEST", &["b", "c"])],
    ))
    .unwrap()
    .into_inner();
    assert_eq!(names_of(&native.headers), vec!["x-test".to_string(), "other".to_string()]);
    assert_eq!(
        values_under(&native.headers, "x-test"),
        vec![b"a".to_vec(), b"b".to_vec(), b"c".to_vec()]
    );
}

#[test]
fn a_name_without_values_leaves_no_field() {
    let native = HyperHttpRequest::try_from(request(
        "http://localhost/",
        vec![header("x-empty", &[]), header("x-full", &["v"])],
    ))
    .unwrap()
    .into_inner();
    assert_eq!(names_of(&native.headers), vec!["x-full".to_string()]);
}

#[test]
fn a_name_that_the_engine_refuses_is_a_header_error() {
    let err = HyperHttpRequest::try_from(request(
        "http://localhost/",
        vec![header("x-fine", &["v"]), header("bad name", &["v"])],
    ))
    .unwrap_err();
    assert_eq!(err, Error::HeaderName);
    assert_eq!(err.status(), 500);
    assert!(!err.is_client_error());
    let err =
        HyperHttpRequest::try_from(request("http://localhost/", vec![header("", &[])])).unwrap_err();
    assert_eq!(err, Error::HeaderName);
}

#[test]
fn a_value_that_the_engine_refuses_is_a_header_error() {
    let err = HyperHttpRequest::try_from(request(
        "http://localhost/",
        vec![header("x-test", &["fine", "line\nbreak"])],
    ))
    .unwrap_err();
    assert_eq!(err, Error::HeaderValue);
    let mut del = header("x-test", &[]);
    del.values.push(vec![b'a', 127]);
    let err = HyperHttpRequest::try_from(request("http://localhost/", vec![del])).unwrap_err();
    assert_eq!(err, Error::HeaderValue);
}

#[test]
fn tab_and_high_bytes_are_accepted_in_values() {
    let mut h = header("x-test", &[]);
    h.values.push(vec![b'a', 9, b'b', 0xfa, 255, 32]);
    let native = HyperHttpRequest::try_from(request("http://localhost/", vec![h])).unwrap().into_inner();
    assert_eq!(values_under(&native.headers, "x-test"), vec![vec![b'a', 9, b'b', 0xfa, 255, 32]]);
}

#[test]
fn the_first_fault_in_order_is_the_error() {
    let err = HyperHttpRequest::try_from(request(
        "http://localhost/",
        vec![header("x-test", &["\u{1}"]), header("bad name", &["v"])],
    ))
    .unwrap_err();
    assert_eq!(err, Error::HeaderValue);
    let err = HyperHttpRequest::try_from(request(
        "http://localhost/",
        vec![header("bad name", &["\u{1}"]), header("x-test", &["v"])],
    ))
    .unwrap_err();
    assert_eq!(err, Error::HeaderName);
    let err = HyperHttpRequest::try_from(request(
        "ftp://localhost/",
        vec![header("bad name", &["\u{1}"])],
    ))
    .unwrap_err();
    assert_eq!(err, Error::InvalidScheme);
}

#[test]
fn a_body_given_later_takes_the_place_of_the_first() {
    let mut req = request("http://localhost/", vec![header("x-test", &["a"])]);
    req.body = Vec::new();
    let native = HyperHttpRequest::try_from(req).unwrap().with_body(b"later".to_vec()).into_inner();
    assert_eq!(native.body, b"later".to_vec());
    assert_eq!(native.method, "GET");
    assert_eq!(native.uri, "http://localhost/");
    assert_eq!(native.version, Version::Http1_1);
    assert_eq!(values_under(&native.headers, "x-test"), vec![b"a".to_vec()]);
}

#[test]
fn names_are_judged_by_the_engine_s_characters() {
    for name in ["x\"y", "a!#$%&'*+-.^_`|~z", "0", "UPPER"] {
        assert!(HyperHttpRequest::try_from(request("http://localhost/", vec![header(name, &["v"])])).is_ok());
    }
    for name in ["", "a b", "a:b", "a(b", "a/b", "a[b", "a{b", "a=b", "a,b", "a@b", "n\u{e9}", "a\u{7f}"] {
        assert_eq!(
            HyperHttpRequest::try_from(request("http://localhost/", vec![header(name, &["v"])])).unwrap_err(),
            Error::HeaderName
        );
    }
    let long = "a".repeat(65535);
    assert!(HyperHttpRequest::try_from(request("http://localhost/", vec![header(&long, &["v"])])).is_ok());
    let longer = "a".repeat(65536);
    assert_eq!(
        HyperHttpRequest::try_from(request("http://localhost/", vec![header(&longer, &["v"])])).unwrap_err(),
        Error::HeaderName
    );
}

#[test]
fn every_ascii_character_is_judged_alike_by_rule_and_engine() {
    for n in 0u8..128 {
        let expected = (33..=39).contains(&n)
            || n == 42
            || n == 43
            || n == 45
            || n == 46
            || (48..=57).contains(&n)
            || (65..=90).contains(&n)
            || (94..=122).contains(&n)
            || n == 124
            || n == 126;
        let name = format!("x{}y", n as char);
        let got = HyperHttpRequest::try_from(request("http://localhost/", vec![header(&name, &["v"])]));
        assert_eq!(got.is_ok(), expected);
        if let Ok(native) = got {
            assert_eq!(names_of(&native.into_inner().headers), vec![name.to_ascii_lowercase()]);
        }
    }
}

#[test]
fn the_version_named_is_kept_and_the_default_is_http_1_1() {
    let mut req = request("http://localhost/", vec![]);
    req.version = Some(Version::Http2_0);
    assert_eq!(HyperHttpRequest::try_from(req).unwrap().into_inner().version, Version::Http2_0);
    let mut req = request("http://localhost/", vec![]);
    req.version = Some(Version::Http1_0);
    assert_eq!(HyperHttpRequest::try_from(req).unwrap().into_inner().version, Version::Http1_0);
    let req = request("http://localhost/", vec![]);
    assert_eq!(HyperHttpRequest::try_from(req).unwrap().into_inner().version, Version::Http1_1);
}

#[test]
fn a_request_within_the_room_is_translated() {
    let headers: Vec<Header> =
        (0..HEADER_ROOM).map(|i| header(&format!("x-n{}", i), &["v", "w"])).collect();
    let native = HyperHttpRequest::try_from(request("http://localhost/", headers)).unwrap().into_inner();
    assert_eq!(HEADER_ROOM, 6553);
    assert_eq!(native.headers.keys_len(), 6553);
    assert_eq!(native.headers.len(), 13106);
    assert_eq!(values_under(&native.headers, "x-n6552"), vec![b"v".to_vec(), b"w".to_vec()]);
}

#[test]
fn a_map_that_is_full_ends_the_translation() {
    let headers: Vec<Header> = (0..40000).map(|i| header(&format!("x-n{}", i), &["v"])).collect();
    let err = HyperHttpRequest::try_from(request("http://localhost/", headers)).unwrap_err();
    assert_eq!(err, Error::HeaderCapacity);
    assert_eq!(err.status(), 500);
}

#[test]
fn every_error_has_its_status_and_message() {
    assert_eq!(Error::InvalidUri.status(), 400);
    assert_eq!(Error::InvalidScheme.status(), 400);
    assert_eq!(Error::HeaderName.status(), 500);
    assert_eq!(Error::HeaderValue.status(), 500);
    assert_eq!(Error::HeaderCapacity.status(), 500);
    assert_eq!(Error::ResponseBody.status(), 502);
    assert_eq!(Error::InvalidUri.message(), "invalid URI");
    assert_eq!(Error::InvalidScheme.message(), "invalid scheme");
    assert_eq!(Error::HeaderName.message(), "invalid header name");
    assert_eq!(Error::HeaderValue.message(), "invalid header value");
    assert_eq!(Error::HeaderCapacity.message(), "too many headers");
    assert_eq!(Error::ResponseBody.message(), "unable to read HTTP response body");
    assert!(Error::InvalidUri.is_client_error());
    assert!(!Error::ResponseBody.is_client_error());
}
