use http::headers::HttpHeaders;
use http::method::HttpMethod;
use http::uri::HttpUri;
use http::utils::{content_type_for, find_headers_end, get_content_type};
use http::version::HttpVersion;

#[test]
fn test_method_into() {
    assert_eq!(HttpMethod::from("GET"), HttpMethod::Get);
    assert_eq!(HttpMethod::from("POST"), HttpMethod::Post);
    assert_eq!(HttpMethod::from("some str"), HttpMethod::NoSupport);

    assert_eq!(HttpMethod::from("GET".to_string()), HttpMethod::Get);
}

#[test]
fn test_method_is_support() {
    assert!(HttpMethod::is_support("GET"));
    assert!(HttpMethod::is_support("POST"));
    assert!(!HttpMethod::is_support("some str"));
    assert!(HttpMethod::is_support(HttpMethod::Get));
    assert!(HttpMethod::is_support(HttpMethod::Post));
    assert!(!HttpMethod::is_support(HttpMethod::NoSupport));
}

#[test]
fn method_tokens_are_case_sensitive() {
    assert_eq!(HttpMethod::from("get"), HttpMethod::NoSupport);
    assert_eq!(HttpMethod::from(""), HttpMethod::NoSupport);
    assert_eq!(HttpMethod::from("GETS"), HttpMethod::NoSupport);
}

#[test]
fn test_unsupported_http_version() {
    assert_eq!(HttpVersion::from("HTTP/1145"), HttpVersion::NoSupport);
    assert_eq!(HttpVersion::from("HTTP/1.0"), HttpVersion::V1_0);
    assert_eq!(HttpVersion::from("HTTP/1.1"), HttpVersion::V1_1);
    assert_eq!(HttpVersion::from("HTTP/1.1").as_string(), "HTTP/1.1");
}

#[test]
fn version_text_and_support() {
    assert_eq!(HttpVersion::V1_0.as_string(), "HTTP/1.0");
    assert_eq!(HttpVersion::NoSupport.as_string(), "NoSupport");
    assert!(HttpVersion::V1_0.is_supported());
    assert!(!HttpVersion::NoSupport.is_supported());
    assert_eq!(HttpVersion::default(), HttpVersion::V1_1);
}

#[test]
fn uri_keeps_raw_path() {
    assert_eq!(HttpUri::new().as_string(), "");
    assert_eq!(HttpUri::from("/a/b?c=d").as_string(), "/a/b?c=d");
    assert_eq!(HttpUri::from("/x".to_string()).path, "/x");
}

#[test]
fn test_header_add() {
    let mut header = HttpHeaders::new();
    header.insert("Content-Type", "Unknown");

    assert!(header.contains_key("Content-Type"));
    assert_eq!(header.get("Content-Type").unwrap(), "Unknown");
}

#[test]
fn header_last_write_wins_and_keys_are_case_sensitive() {
    let mut h = HttpHeaders::new();
    h.insert("Host", "a");
    h.insert("Accept", "b");
    h.insert("Host", "c");
    assert_eq!(h.get("Host").unwrap(), "c");
    assert_eq!(h.len(), 2);
    assert!(h.get("host").is_none());
    assert!(!h.contains_key("HOST"));
    let names: Vec<&str> = h.iter().iter().map(|(k, _)| k.as_str()).collect();
    assert_eq!(names, vec!["Host", "Accept"]);
}

#[test]
fn test_find_headers_end() {
    let headers = b"POST / HTTP/1.1\r\nHost: gsgfs.moe\r\n\r\nsome body data";
    assert_eq!(find_headers_end(headers), Some(36));
}

#[test]
fn find_headers_end_first_occurrence_and_absence() {
    assert_eq!(find_headers_end(b"\r\n\r\n"), Some(4));
    assert_eq!(find_headers_end(b"a\r\n\r\n\r\n\r\n"), Some(5));
    assert_eq!(find_headers_end(b"GET / HTTP/1.1\r\nHost: x\r\n"), None);
    assert_eq!(find_headers_end(b""), None);
    assert_eq!(find_headers_end(b"\r\n\r"), None);
}

#[test]
fn content_type_by_extension() {
    assert_eq!(get_content_type("/www/index.html"), "text/html");
    assert_eq!(get_content_type("/www/INDEX.HTM"), "text/html");
    assert_eq!(get_content_type("style.Css"), "text/css");
    assert_eq!(get_content_type("a/b/photo.jpeg"), "image/jpeg");
    assert_eq!(get_content_type("README"), "application/octet-stream");
    assert_eq!(get_content_type(".bashrc"), "application/octet-stream");
    assert_eq!(get_content_type("archive.tar.gz"), "application/octet-stream");
    assert_eq!(content_type_for("svg"), "image/svg+xml");
    assert_eq!(content_type_for("SVG"), "application/octet-stream");
}
