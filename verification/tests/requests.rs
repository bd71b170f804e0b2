use masterbus_tools::http::{
    find_bytes, is_active, parse_head, response_head, route, HttpRequest, RequestError,
    RequestReader, Route, Step, MAX_HEADERS, MAX_REQUEST_BODY,
};

fn read(chunks: &[&[u8]]) -> Result<HttpRequest, RequestError> {
    let mut reader = RequestReader::new();
    for chunk in chunks {
        let (next, step) = reader.feed(&chunk.to_vec());
        reader = next;
        match step {
            Step::More => {}
            Step::Done(r) => return Ok(r),
            Step::Failed(e) => return Err(e),
        }
    }
    panic!("the request goes on")
}

#[test]
fn a_request_without_a_body() {
    let r = read(&[b"GET /api/config?x=1 HTTP/1.1\r\nHost: a\r\n\r\n"]).unwrap();
    assert_eq!((r.method.as_str(), r.path.as_str()), ("GET", "/api/config"));
    assert!(r.body.is_empty());
}

#[test]
fn a_request_in_pieces() {
    let r = read(&[
        b"POST /api/config HTTP/1.1\r\ncontent-LENGTH:  5 \r",
        b"\n\r\nab",
        b"cdefgh",
    ])
    .unwrap();
    assert_eq!(r.method, "POST");
    assert_eq!(r.body, b"abcde".to_vec());
}

#[test]
fn a_closed_connection_is_an_error() {
    assert_eq!(read(&[b"GET / HTTP/1.1\r\n", b""]), Err(RequestError::ClosedInHeaders));
    assert_eq!(
        read(&[b"POST / HTTP/1.1\r\nContent-Length: 3\r\n\r\nab", b""]),
        Err(RequestError::ClosedInBody)
    );
}

#[test]
fn malformed_requests_are_errors() {
    assert_eq!(read(&[b"\r\n\r\n"]), Err(RequestError::MissingMethod));
    assert_eq!(read(&[b"GET\r\n\r\n"]), Err(RequestError::MissingPath));
    assert_eq!(
        read(&[b"GET / HTTP/1.1\r\nContent-Length: x\r\n\r\n"]),
        Err(RequestError::InvalidLength)
    );
    let odd = b"GET /\xff HTTP/1.1\r\n\r\n";
    let e = read(&[odd]).unwrap_err();
    assert_eq!(e.message(), "invalid utf-8 sequence of 1 bytes from index 5");
    assert_eq!(e.message(), std::str::from_utf8(odd).unwrap_err().to_string());
    assert!(matches!(e, RequestError::NotText(_)));
    let large = format!("POST / HTTP/1.1\r\nContent-Length: {}\r\n\r\n", MAX_REQUEST_BODY + 1);
    assert_eq!(read(&[large.as_bytes()]), Err(RequestError::BodyTooLarge));
    let long = vec![b'a'; MAX_HEADERS + 1];
    assert_eq!(read(&[long.as_slice()]), Err(RequestError::HeadersTooLarge));
}

#[test]
fn text_beyond_ascii_is_read() {
    let r = read(&["GET /\u{b0} HTTP/1.1\r\n\r\n".as_bytes()]).unwrap();
    assert_eq!(r.path, "/\u{b0}");
}

#[test]
fn heads_are_parsed() {
    let h = parse_head("POST /a?b HTTP/1.1\r\nContent-Length: 7\r\nX: y").unwrap();
    assert_eq!((h.method.as_str(), h.path.as_str(), h.length), ("POST", "/a", 7));
    assert_eq!(parse_head("").err(), Some(RequestError::MissingMethod));
}

#[test]
fn every_error_has_its_words() {
    assert_eq!(
        RequestError::ClosedInHeaders.message(),
        "connection closed before request headers"
    );
    assert_eq!(RequestError::HeadersTooLarge.message(), "request headers too large");
    assert_eq!(RequestError::MissingMethod.message(), "missing method");
    assert_eq!(RequestError::MissingPath.message(), "missing path");
    assert_eq!(RequestError::InvalidLength.message(), "invalid content-length");
    assert_eq!(RequestError::BodyTooLarge.message(), "request body too large");
    assert_eq!(
        RequestError::ClosedInBody.message(),
        "connection closed before request body"
    );
}

#[test]
fn bytes_are_found_where_they_first_stand() {
    let find = |h: &[u8], n: &[u8]| find_bytes(&h.to_vec(), &n.to_vec());
    assert_eq!(find(b"aab", b"ab"), Some(1));
    assert_eq!(find(b"abab", b"ab"), Some(0));
    assert_eq!(find(b"a", b"ab"), None);
    assert_eq!(find(b"", b"a"), None);
}

#[test]
fn requests_find_their_way() {
    assert_eq!(route("GET", "/"), Route::Index);
    assert_eq!(route("GET", "/index.html"), Route::Index);
    assert_eq!(route("GET", "/api/config"), Route::ReadConfig);
    assert_eq!(route("POST", "/api/config"), Route::WriteConfig);
    assert_eq!(route("POST", "/api/restart"), Route::Restart);
    assert_eq!(route("GET", "/api/status"), Route::Status);
    assert_eq!(route("GET", "/api/restart"), Route::NotFound);
    assert_eq!(route("get", "/"), Route::NotFound);
}

#[test]
fn answers_have_a_head() {
    assert_eq!(
        response_head(404, "text/plain; charset=utf-8", 9),
        "HTTP/1.1 404 Not Found\r\nContent-Type: text/plain; charset=utf-8\r\n\
         Content-Length: 9\r\nCache-Control: no-store\r\nX-Content-Type-Options: nosniff\r\n\
         Connection: close\r\n\r\n"
    );
    assert!(response_head(200, "a", 0).starts_with("HTTP/1.1 200 OK\r\n"));
    assert!(response_head(500, "a", 0).starts_with("HTTP/1.1 500 Internal Server Error\r\n"));
}

#[test]
fn a_service_is_active_only_if_it_says_so() {
    assert!(is_active("active\n"));
    assert!(!is_active("inactive\n"));
    assert!(!is_active(""));
}

#[test]
fn reads_may_be_split() {
    let whole: &[u8] = b"POST /a?b HTTP/1.1\r\nContent-Length: 4\r\n\r\nbodyrest";
    let expected = read(&[whole]).unwrap();
    assert_eq!(expected.body, b"body".to_vec());
    for i in 1..whole.len() {
        assert_eq!(read(&[&whole[..i], &whole[i..]]).unwrap(), expected);
    }
    let bytes: Vec<&[u8]> = whole.chunks(1).collect();
    assert_eq!(read(&bytes).unwrap(), expected);
}

#[test]
fn headers_that_end_late_depend_on_the_reads() {
    let mut late = b"GET / HTTP/1.1\r\nX: ".to_vec();
    late.resize(MAX_HEADERS + 1, b'a');
    assert_eq!(read(&[&late, b"\r\n\r\n"]), Err(RequestError::HeadersTooLarge));
    late.extend_from_slice(b"\r\n\r\n");
    assert_eq!(read(&[&late]).unwrap().path, "/");
}
