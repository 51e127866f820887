use std::io::{Cursor, Read};

use http::body::{BodyRead, HttpBody};
use http::connect::{
    keep_alive_requested, mark_connection, not_found, HeaderProgress, HeaderReader, Next, ReadEvent,
    Session,
};
use http::error::ServerError;
use http::method::HttpMethod;
use http::request::HttpRequest;
use http::response::HttpResponse;
use http::router::HttpRouter;
use http::version::HttpVersion;

/// Pulls every chunk out of a body, reading its source when asked.
fn drain<R: Read>(body: &mut HttpBody<R>) -> Vec<Vec<u8>> {
    let mut out = Vec::new();
    loop {
        match body.read_next() {
            BodyRead::Chunk(c) => out.push(c),
            BodyRead::End => break,
            BodyRead::Fill(n) => {
                let mut buf = vec![0u8; n];
                let k = match body {
                    HttpBody::Streaming { reader, .. } => reader.read(&mut buf).unwrap(),
                    _ => unreachable!(),
                };
                buf.truncate(k);
                match body.accept(buf) {
                    Some(c) => out.push(c),
                    None => break,
                }
            }
        }
    }
    out
}

/// Writes a response as sending does: header block, framed chunks, closing bytes.
fn send<R: Read>(response: &mut HttpResponse<R>) -> Vec<u8> {
    let mut out = response.head_bytes();
    let chunks = drain(response.body_mut());
    for c in chunks {
        out.extend_from_slice(&response.frame(&c));
    }
    out.extend_from_slice(&response.finish());
    out
}

/// A source that hands out one prepared piece per read.
struct Pieces {
    data: Vec<Vec<u8>>,
    pos: usize,
}

impl Read for Pieces {
    fn read(&mut self, buf: &mut [u8]) -> std::io::Result<usize> {
        if self.pos >= self.data.len() {
            return Ok(0);
        }
        let piece = &self.data[self.pos];
        buf[..piece.len()].copy_from_slice(piece);
        self.pos += 1;
        Ok(piece.len())
    }
}

#[test]
fn test_empty_body() {
    let mut body: HttpBody<()> = HttpBody::new();

    assert_eq!(body.read_next(), BodyRead::End);
    assert_eq!(body.content_length(), None);
    assert!(!body.is_streaming());
}

#[test]
fn test_in_memory_body() {
    let data = "Hello world!".as_bytes().to_vec();
    let expected_len = data.len();
    let mut body: HttpBody<()> = HttpBody::from_data(data);

    assert_eq!(body.content_length(), Some(expected_len));

    let content = match body.read_next() {
        BodyRead::Chunk(c) => c,
        other => panic!("expected a chunk, got {other:?}"),
    };
    assert_eq!(String::from_utf8_lossy(&content), "Hello world!");

    assert_eq!(body.read_next(), BodyRead::End);

    assert!(!body.is_streaming());
}

#[test]
fn in_memory_body_from_nothing_is_empty() {
    let body: HttpBody<()> = HttpBody::from_data(Vec::new());
    assert!(matches!(body, HttpBody::Empty));
    let mut body: HttpBody<Cursor<Vec<u8>>> = HttpBody::from_data(vec![1, 2, 3]);
    assert_eq!(drain(&mut body), vec![vec![1u8, 2, 3]]);
    assert_eq!(body.read_next(), BodyRead::End);
}

#[test]
fn test_streaming_body() {
    let data = "First chunk\nSecond chunk\nOther chunk".as_bytes().to_vec();
    let cursor = Cursor::new(data.clone());

    let mut body = HttpBody::from_reader(cursor, 8);

    assert!(body.is_streaming());
    assert_eq!(body.content_length(), None);

    let mut all_chunks = Vec::new();
    for chunk in drain(&mut body) {
        all_chunks.extend_from_slice(&chunk);
    }

    assert_eq!(
        String::from_utf8_lossy(&all_chunks),
        String::from_utf8_lossy(&data)
    );
}

#[test]
fn streaming_body_chunk_sizes_and_pending_bytes() {
    let data: Vec<u8> = (0u8..100).collect();
    for size in [1usize, 7, 99, 100, 1000] {
        let mut body = HttpBody::from_pending(Cursor::new(data[10..].to_vec()), data[..10].to_vec(), size);
        let chunks = drain(&mut body);
        assert_eq!(chunks[0], data[..10].to_vec());
        assert!(chunks.iter().all(|c| !c.is_empty()));
        assert!(chunks[1..].iter().all(|c| c.len() <= size));
        assert_eq!(chunks.concat(), data);
    }
}

#[test]
fn test_request_parse_from_string() {
    let request_string = "GET /index.html HTTP/1.1\r\n\
                         Host: example.com\r\n\
                         User-Agent: Mozilla/5.0 Firefox/114\r\n\
                         Accept: text/html\r\n\
                         \r\n";

    let request: HttpRequest<()> = HttpRequest::from(request_string.to_string());

    assert_eq!(request.method, HttpMethod::Get);
    assert_eq!(request.uri.path, "/index.html");
    assert_eq!(request.version, HttpVersion::V1_1);
    assert_eq!(request.headers.get("Host").unwrap(), "example.com");
    assert_eq!(
        request.headers.get("User-Agent").unwrap(),
        "Mozilla/5.0 Firefox/114"
    );
    assert_eq!(request.headers.get("Accept").unwrap(), "text/html");
    match &request.body.unwrap() {
        HttpBody::Empty => (),
        HttpBody::InMemory { data } => assert!(data.is_empty()),
        HttpBody::Streaming { .. } => panic!("Expected InMemory or Empty body, got Streaming"),
    }
}

#[test]
fn request_test_empty_request() {
    let request_string = "GET / HTTP/1.1";

    let request: HttpRequest<()> = HttpRequest::from(request_string);
    let mut body = request.body.unwrap();
    assert_eq!(body.content_length(), None);
    assert_eq!(body.read_next(), BodyRead::End);
}

#[test]
fn lenient_request_text_defaults_and_body() {
    let request: HttpRequest<()> = HttpRequest::from("BAD LINE\r\nA: 1\r\nB:2:3\r\n\r\nxy\r\nz");
    assert_eq!(request.method, HttpMethod::NoSupport);
    assert_eq!(request.uri.path, "");
    assert_eq!(request.version, HttpVersion::V1_1);
    assert_eq!(request.headers.get("A").unwrap(), "1");
    assert_eq!(request.headers.get("B").unwrap(), "2:3");
    match request.body.unwrap() {
        HttpBody::InMemory { data } => assert_eq!(data, b"xyz".to_vec()),
        other => panic!("expected an in-memory body, got {other:?}"),
    }
}

#[test]
fn parse_headers_rules() {
    let (m, u, v, h) =
        HttpRequest::<()>::parse_headers("POST  /p   HTTP/1.0\r\nX :  y z \r\nno colon\r\nK: a: b\r\n\r\nLate: no\r\n")
            .unwrap();
    assert_eq!(m, HttpMethod::Post);
    assert_eq!(u.path, "/p");
    assert_eq!(v, HttpVersion::V1_0);
    assert_eq!(h.get("X").unwrap(), "y z");
    assert_eq!(h.get("K").unwrap(), "a: b");
    assert!(!h.contains_key("Late"));
    assert_eq!(h.len(), 2);
}

#[test]
fn parse_headers_errors() {
    assert!(matches!(
        HttpRequest::<()>::parse_headers(""),
        Err(ServerError::ProtocolError(_))
    ));
    assert!(matches!(
        HttpRequest::<()>::parse_headers("GET /\r\n\r\n"),
        Err(ServerError::ProtocolError(_))
    ));
    assert!(matches!(
        HttpRequest::<()>::parse_headers("GET / HTTP/1.1 extra\r\n\r\n"),
        Err(ServerError::ProtocolError(_))
    ));
    let bad = b"GET / HTTP/1.1\r\nX: \xff\r\n\r\n";
    assert!(matches!(
        HttpRequest::from_buffer(bad, bad.len(), ()),
        Err(ServerError::ProtocolError(_))
    ));
}

#[test]
fn test_streaming_request_parse() {
    let request_headers = b"POST /post HTTP/1.1\r\n\
                            Host: gsgfs.moe\r\n\
                            Content-Length: 13\r\n\
                            Transfer-Encoding: chunked\r\n\
                            \r\n";
    let chunk1 = b"5\r\nHello\r\n";
    let chunk2 = b"5\r\nWorld\r\n";
    let chunk_end = b"0\r\n\r\n";

    let mut reader = HeaderReader::new(8192);
    let end = match reader.on_data(request_headers) {
        HeaderProgress::Complete(end) => end,
        other => panic!("expected a complete header block, got {other:?}"),
    };
    let stream = Pieces {
        data: vec![chunk1.to_vec(), chunk2.to_vec(), chunk_end.to_vec()],
        pos: 0,
    };

    let request = HttpRequest::from_buffer(reader.buffer(), end, stream).unwrap();

    assert_eq!(request.method, HttpMethod::Post);
    assert_eq!(request.uri.path, "/post");
    assert_eq!(request.version, HttpVersion::V1_1);
    assert_eq!(request.headers.get("Host").unwrap(), "gsgfs.moe");
    assert_eq!(request.headers.get("Content-Length").unwrap(), "13");
    assert_eq!(request.headers.get("Transfer-Encoding").unwrap(), "chunked");

    if let Some(http_body) = request.body {
        if let HttpBody::Streaming {
            mut read_buf,
            buffer_size,
            mut reader,
        } = http_body
        {
            let mut content = Vec::new();
            content.append(&mut read_buf);

            reader.read_to_end(&mut content).unwrap();

            let expected_body_bytes = b"5\r\nHello\r\n5\r\nWorld\r\n0\r\n\r\n";
            assert_eq!(content, expected_body_bytes);
            assert_eq!(buffer_size, 1024);
        } else {
            panic!("Expected Streaming body");
        }
    } else {
        panic!("Request body was None");
    }
}

#[test]
fn request_body_prefix_comes_first() {
    let buffer = b"POST /up HTTP/1.1\r\nHost: h\r\n\r\nabc";
    let end = http::utils::find_headers_end(buffer).unwrap();
    let request = HttpRequest::from_buffer(buffer, end, Cursor::new(b"def".to_vec())).unwrap();
    let mut body = request.body.unwrap();
    assert_eq!(drain(&mut body).concat(), b"abcdef".to_vec());

    let plain = b"GET / HTTP/1.1\r\nHost: h\r\n\r\n";
    let request = HttpRequest::from_buffer(plain, plain.len(), ()).unwrap();
    assert!(matches!(request.body, Some(HttpBody::Empty)));
}

#[test]
fn test_basic_response() {
    let mut response: HttpResponse<()> =
        HttpResponse::new(200, "OK").with_body(HttpBody::from("Hello, World!"));
    response.headers_mut().insert("Content-Type", "text/plain");

    let buffer = response.to_bytes();

    let response_str = String::from_utf8_lossy(&buffer);
    assert!(response_str.contains("HTTP/1.1 200 OK"));
    assert!(response_str.contains("Content-Type: text/plain"));
    assert!(response_str.contains("Content-Length: 13"));
    assert!(response_str.contains("Hello, World!"));

    assert!(!response_str.contains("Transfer-Encoding"))
}

#[test]
fn basic_response_exact_bytes() {
    let mut response: HttpResponse<()> =
        HttpResponse::new(200, "OK").with_body(HttpBody::from("Hello, World!"));
    response.headers_mut().insert("Content-Type", "text/plain");
    assert_eq!(
        String::from_utf8(response.to_bytes()).unwrap(),
        "HTTP/1.1 200 OK\r\nContent-Length: 13\r\nContent-Type: text/plain\r\n\r\nHello, World!"
    );
    let mut explicit: HttpResponse<()> = HttpResponse::new(200, "OK")
        .with_body(HttpBody::from("abc"))
        .insert_header("Content-Length", "3");
    assert_eq!(
        String::from_utf8(explicit.to_bytes()).unwrap(),
        "HTTP/1.1 200 OK\r\nContent-Length: 3\r\n\r\nabc"
    );
}

#[test]
fn response_test_empty_request() {
    let mut response: HttpResponse<()> = HttpResponse::new(204, "No Content");

    let buffer = response.to_bytes();

    let response_str = String::from_utf8_lossy(&buffer);
    assert!(response_str.contains("HTTP/1.1 204 No Content"));
    assert!(!response_str.contains("Content-Length"));
}

#[test]
fn test_chunked_encoding() {
    let chunks = vec![
        b"First chunk".to_vec(),
        b"Second chunk".to_vec(),
        b"Other chunk".to_vec(),
    ];

    let reader = Pieces {
        data: chunks.clone(),
        pos: 0,
    };

    let mut response = HttpResponse::new(200, "OK").with_streaming_body(reader, 1024);
    response.headers_mut().insert("Content-Type", "test/plain");

    let buffer = send(&mut response);

    let response_str = String::from_utf8_lossy(&buffer);
    assert!(response_str.contains("Transfer-Encoding: chunked"));

    for chunk in &chunks {
        let chunk_size = format!("{:X}", chunk.len());
        assert!(response_str.contains(&chunk_size));
        assert!(response_str.contains(std::str::from_utf8(chunk).unwrap()));
    }

    assert!(response_str.contains("0\r\n\r\n"));
}

#[test]
fn chunked_encoding_exact_frames() {
    let reader = Pieces {
        data: vec![b"First chunk".to_vec(), b"Second chunk".to_vec(), b"Other chunk".to_vec()],
        pos: 0,
    };
    let mut response = HttpResponse::new(200, "OK").with_streaming_body(reader, 1024);
    let text = String::from_utf8(send(&mut response)).unwrap();
    assert_eq!(
        text,
        "HTTP/1.1 200 OK\r\nTransfer-Encoding: chunked\r\n\r\n\
         B\r\nFirst chunk\r\nC\r\nSecond chunk\r\nB\r\nOther chunk\r\n0\r\n\r\n"
    );
    let empty: HttpResponse<()> = HttpResponse::new(200, "OK");
    assert_eq!(empty.frame(b"abc"), b"abc".to_vec());
    assert!(empty.finish().is_empty());
    let long = HttpResponse::new(200, "OK").with_streaming_body((), 1);
    assert_eq!(long.frame(&[7u8; 255])[..5].to_vec(), b"FF\r\n\x07".to_vec());
    assert!(long.frame(b"").is_empty());
}

#[test]
fn serialized_response_parses_back() {
    let mut response: HttpResponse<()> =
        HttpResponse::new(200, "OK").with_body(HttpBody::from("payload"));
    response.headers_mut().insert("Content-Type", "text/plain");
    response.headers_mut().insert("X-Id", "7");
    response.headers_mut().insert("X-Name", "Grüße, 世界");
    let bytes = response.to_bytes();
    let end = http::utils::find_headers_end(&bytes).unwrap();
    let head = std::str::from_utf8(&bytes[..end]).unwrap();
    assert_eq!(head.lines().next().unwrap(), "HTTP/1.1 200 OK");
    let (_, _, _, headers) = HttpRequest::<()>::parse_headers(head).unwrap();
    assert_eq!(headers.get("Content-Length").unwrap(), "7");
    assert_eq!(headers.get("Content-Type").unwrap(), "text/plain");
    assert_eq!(headers.get("X-Id").unwrap(), "7");
    assert_eq!(headers.get("X-Name").unwrap(), "Grüße, 世界");
    assert_eq!(headers.len(), 4);
    assert_eq!(&bytes[end..], b"payload");
}

fn hello() -> HttpResponse<()> {
    HttpResponse::new(200, "OK").with_body(HttpBody::InMemory {
        data: b"Hello world".to_vec(),
    })
}

fn other() -> HttpResponse<()> {
    HttpResponse::new(201, "Created")
}

#[test]
fn test_add_router_to_root() {
    let router = HttpRouter::new().add(HttpMethod::Get, "/", hello as fn() -> HttpResponse<()>);

    let f = router.find_handler("/", HttpMethod::Get).unwrap();
    let mut response = f();
    let body = match response.body_mut().read_next() {
        BodyRead::Chunk(c) => c,
        other => panic!("expected a chunk, got {other:?}"),
    };
    assert_eq!(body, b"Hello world".to_vec());
}

#[test]
fn test_long_path_router() {
    let router = HttpRouter::new().add(HttpMethod::Get, "/a/b", 1u32).add(HttpMethod::Post, "/a//b/", 2u32);
    assert_eq!(router.find_handler("/a/b", HttpMethod::Get), Some(&1));
    assert_eq!(router.find_handler("a/b/", HttpMethod::Post), Some(&2));
    assert_eq!(router.find_handler("/a/c", HttpMethod::Get), None);
    assert_eq!(router.find_handler("/a", HttpMethod::Get), None);
    assert_eq!(router.find_handler("/a/b/c", HttpMethod::Get), None);
    assert_eq!(router.find_handler("/a/b", HttpMethod::NoSupport), None);
    let router = router.add(HttpMethod::Get, "/a/b", 3u32);
    assert_eq!(router.find_handler("/a/b", HttpMethod::Get), Some(&3));
    assert_eq!(router.find_handler("/a/b", HttpMethod::Post), Some(&2));
}

#[test]
fn test_wildcard_routing() {
    let router = HttpRouter::new()
        .add(HttpMethod::Get, "/files/*/ignored", 9u32)
        .add(HttpMethod::Get, "/files", 1u32)
        .add(HttpMethod::Get, "/files/exact", 2u32);
    assert_eq!(router.find_handler("/files/x/y/z", HttpMethod::Get), Some(&9));
    assert_eq!(router.find_handler("/files/x/y/z", HttpMethod::Post), Some(&9));
    assert_eq!(router.find_handler("/files/exact", HttpMethod::Get), Some(&9));
    assert_eq!(router.find_handler("/files", HttpMethod::Get), Some(&1));
    assert_eq!(router.find_handler("/other", HttpMethod::Get), None);
}

#[test]
fn router_get_and_middlewares() {
    let mut router = HttpRouter::new().get("/", other as fn() -> HttpResponse<()>);
    router.add_global_middleware(hello as fn() -> HttpResponse<()>);
    assert!(router.find_handler("/", HttpMethod::Get).is_some());
    assert!(router.find_handler("/", HttpMethod::Post).is_none());
    let empty: HttpRouter<u8> = HttpRouter::default();
    assert_eq!(empty.find_handler("/", HttpMethod::Get), None);
}

fn decide(text: &str, server_keep_alive: bool) -> bool {
    let request: HttpRequest<()> = HttpRequest::from(text);
    keep_alive_requested(&request.version, &request.headers, server_keep_alive)
}

#[test]
fn keep_alive_decisions() {
    assert!(decide("GET / HTTP/1.1\r\nHost: a\r\n\r\n", true));
    assert!(!decide("GET / HTTP/1.1\r\nConnection: close\r\n\r\n", true));
    assert!(!decide("GET / HTTP/1.1\r\nConnection: CLOSE\r\n\r\n", true));
    assert!(!decide("GET / HTTP/1.0\r\nHost: a\r\n\r\n", true));
    assert!(decide("GET / HTTP/1.0\r\nConnection: keep-alive\r\n\r\n", true));
    assert!(decide("GET / HTTP/1.0\r\nConnection: Keep-Alive\r\n\r\n", true));
    assert!(!decide("GET / HTTP/1.1\r\nHost: a\r\n\r\n", false));
}

#[test]
fn connection_header_and_not_found() {
    let mut response: HttpResponse<()> = not_found();
    mark_connection(&mut response, false);
    let text = String::from_utf8(response.to_bytes()).unwrap();
    assert!(text.starts_with("HTTP/1.1 404 Not Found\r\n"));
    assert!(text.contains("Content-Type: text/plain\r\n"));
    assert!(text.contains("Connection: close\r\n"));
    assert!(text.ends_with("\r\n\r\nNot Found"));
    let mut kept: HttpResponse<()> = HttpResponse::new(200, "OK");
    mark_connection(&mut kept, true);
    assert_eq!(kept.handlers().get("Connection").unwrap(), "keep-alive");
}

#[test]
fn oversized_headers_fail() {
    let mut reader = HeaderReader::new(16);
    assert!(matches!(reader.on_data(b"GET / HTTP/1.1\r\n"), HeaderProgress::Failed(ServerError::ProtocolError(_))));

    let mut reader = HeaderReader::new(32);
    match reader.on_data(b"GET / HTTP/1.1\r\n") {
        HeaderProgress::More(n) => assert_eq!(n, 16),
        other => panic!("expected more, got {other:?}"),
    }
    assert!(matches!(reader.on_data(b"\r\n"), HeaderProgress::Complete(18)));

    let mut reader = HeaderReader::new(32);
    assert!(matches!(reader.on_data(b""), HeaderProgress::Closed));
}

#[test]
fn io_errors_convert() {
    let e = std::io::Error::new(std::io::ErrorKind::Other, "boom");
    assert!(matches!(ServerError::from(e), ServerError::IOError(_)));
}

fn serve_one(session: &mut Session, request: &[u8]) -> (Option<HttpResponse<()>>, Next) {
    let want = session.want();
    assert!(request.len() <= want);
    match session.on_read(ReadEvent::Data(request.to_vec())) {
        Next::Ready => {}
        other => return (None, other),
    }
    let request = match session.take_request(()) {
        Ok(r) => r,
        Err(e) => return (None, Next::Close(Err(e))),
    };
    let mut response: HttpResponse<()> = if request.uri.path == "/" {
        HttpResponse::new(200, "OK")
    } else {
        not_found()
    };
    session.respond(&mut response);
    let next = session.on_written(Ok(()));
    (Some(response), next)
}

#[test]
fn session_keep_alive_outcomes() {
    let mut s = Session::new(1024, true);
    let (resp, next) = serve_one(&mut s, b"GET / HTTP/1.1\r\nHost: a\r\n\r\n");
    assert_eq!(resp.unwrap().handlers().get("Connection").unwrap(), "keep-alive");
    assert!(matches!(next, Next::Read(1024)));
    let (resp, next) = serve_one(&mut s, b"GET / HTTP/1.1\r\nConnection: close\r\n\r\n");
    assert_eq!(resp.unwrap().handlers().get("Connection").unwrap(), "close");
    assert!(matches!(next, Next::Close(Ok(()))));

    let mut s = Session::new(1024, true);
    let (resp, next) = serve_one(&mut s, b"GET / HTTP/1.0\r\n\r\n");
    assert_eq!(resp.unwrap().handlers().get("Connection").unwrap(), "close");
    assert!(matches!(next, Next::Close(Ok(()))));

    let mut s = Session::new(1024, true);
    let (_, next) = serve_one(&mut s, b"GET / HTTP/1.0\r\nConnection: keep-alive\r\n\r\n");
    assert!(matches!(next, Next::Read(_)));

    let mut s = Session::new(1024, false);
    let (resp, next) = serve_one(&mut s, b"GET / HTTP/1.1\r\n\r\n");
    assert_eq!(resp.unwrap().handlers().get("Connection").unwrap(), "close");
    assert!(matches!(next, Next::Close(Ok(()))));
}

#[test]
fn session_missing_route_answers_not_found_and_keeps_going() {
    let mut s = Session::new(1024, true);
    let (resp, next) = serve_one(&mut s, b"GET /missing HTTP/1.1\r\n\r\n");
    let mut resp = resp.unwrap();
    let text = String::from_utf8(resp.to_bytes()).unwrap();
    assert!(text.starts_with("HTTP/1.1 404 Not Found\r\n"));
    assert!(text.contains("Connection: keep-alive\r\n"));
    assert!(matches!(next, Next::Read(_)));
}

#[test]
fn session_oversized_headers_close_without_response() {
    let mut s = Session::new(16, true);
    let (resp, next) = serve_one(&mut s, b"GET / HTTP/1.1\r\n");
    assert!(resp.is_none());
    assert!(matches!(next, Next::Close(Err(ServerError::ProtocolError(_)))));
}

#[test]
fn session_errors_close() {
    let mut s = Session::new(64, true);
    assert!(matches!(s.on_read(ReadEvent::Data(Vec::new())), Next::Close(Ok(()))));

    let mut s = Session::new(64, true);
    assert!(matches!(s.on_read(ReadEvent::TimedOut), Next::Close(Err(ServerError::TimeoutError(_)))));

    let mut s = Session::new(64, true);
    let e = std::io::Error::new(std::io::ErrorKind::Other, "reset");
    assert!(matches!(s.on_read(ReadEvent::Failed(e)), Next::Close(Err(ServerError::IOError(_)))));

    let mut s = Session::new(64, true);
    let (resp, next) = serve_one(&mut s, b"GET /\r\n\r\n");
    assert!(resp.is_none());
    assert!(matches!(next, Next::Close(Err(ServerError::ProtocolError(_)))));

    let mut s = Session::new(64, true);
    assert!(matches!(s.on_read(ReadEvent::Data(b"GET / HTTP/1.1\r\n".to_vec())), Next::Read(48)));
    assert!(matches!(s.on_read(ReadEvent::Data(b"\r\n".to_vec())), Next::Ready));
    assert!(s.take_request(()).is_ok());
    let mut r: HttpResponse<()> = HttpResponse::new(200, "OK");
    s.respond(&mut r);
    let e = std::io::Error::new(std::io::ErrorKind::BrokenPipe, "gone");
    assert!(matches!(s.on_written(Err(e)), Next::Close(Err(ServerError::IOError(_)))));
}
