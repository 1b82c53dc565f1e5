use rinton::client::{default_headers, HttpClient};
use rinton::header_map::HeaderMap;
use rinton::request::HttpRequest;
use rinton::response::{Demand, HttpResponse, ResponseError, ResponseParser};
use rinton::status::StatusCode;
use rinton::url::Url;

fn body_of(stream: &[u8]) -> String {
    HttpResponse::parse(stream).unwrap().body
}

#[test]
fn url_with_every_part() {
    let url = Url::parse("scheme://user@host:8042/path?query#fragment");
    assert_eq!(url.scheme, "scheme");
    assert_eq!(url.user_info, Some("user".to_string()));
    assert_eq!(url.domain, "host");
    assert_eq!(url.port, Some(8042));
    assert_eq!(url.path, "/path");
    assert_eq!(url.query, Some("query".to_string()));
    assert_eq!(url.fragment, Some("fragment".to_string()));
    assert_eq!(url.host(), "host");
    assert_eq!(url.port(), 8042);
    assert_eq!(url.path(), "/path");
    assert_eq!(url.query(), Some("query".to_string()));
    assert_eq!(url.fragment(), Some("fragment".to_string()));
    assert!(!url.is_https());
}

#[test]
fn url_without_port_path_query_fragment() {
    let url = Url::parse("https://example.com");
    assert_eq!(url.port, None);
    assert_eq!(url.port(), 443);
    assert_eq!(url.path, "/");
    assert_eq!(url.query, None);
    assert_eq!(url.fragment, None);
    assert!(url.is_https());
    assert_eq!(url.query_pairs().len(), 0);
}

#[test]
fn url_edge_cases() {
    let url = Url::parse("example.com/path");
    assert_eq!(url.scheme, "example.com/path");
    assert_eq!(url.domain, "");
    assert_eq!(url.path, "/");

    let url = Url::parse("http://a@b@c:x/p?q?r#s#t?u");
    assert_eq!(url.user_info, Some("a".to_string()));
    assert_eq!(url.domain, "b");
    assert_eq!(url.port, None);
    assert_eq!(url.path, "/p?q");
    assert_eq!(url.query, Some("r#s".to_string()));
    assert_eq!(url.fragment, Some("t?u".to_string()));

    let url = Url::parse("http://host:notaport/");
    assert_eq!(url.port, Some(0));
    let url = Url::parse("http://host:65536/");
    assert_eq!(url.port, Some(0));
    let url = Url::parse("http://host:65535/");
    assert_eq!(url.port, Some(65535));
    let url = Url::parse("http://host:+80/");
    assert_eq!(url.port, Some(80));
    let url = Url::parse("http://host:/");
    assert_eq!(url.port, Some(0));
    let url = Url::parse("");
    assert_eq!(url.scheme, "");
    assert_eq!(url.path, "/");
    let url = Url::parse("http://ホスト/パス?く=え#ふ");
    assert_eq!(url.domain, "ホスト");
    assert_eq!(url.path, "/パス");
    assert_eq!(url.query, Some("く=え".to_string()));
    assert_eq!(url.fragment, Some("ふ".to_string()));
}

#[test]
fn query_pairs_keep_the_last_value_of_a_name() {
    let url = Url::parse("https://example.com/?foo=bar&baz=qux&foo=again&solo&=v&k=a=b");
    let pairs = url.query_pairs();
    assert_eq!(pairs.len(), 5);
    assert_eq!(pairs.get("foo"), Some(&"again".to_string()));
    assert_eq!(pairs.get("baz"), Some(&"qux".to_string()));
    assert_eq!(pairs.get("solo"), Some(&"".to_string()));
    assert_eq!(pairs.get(""), Some(&"v".to_string()));
    assert_eq!(pairs.get("k"), Some(&"a=b".to_string()));
    assert_eq!(pairs.get("missing"), None);
    assert_eq!(pairs.key_at(0), "foo");
    assert_eq!(pairs.value_at(0), "again");
    assert_eq!(pairs.key_at(1), "baz");

    let url = Url::parse("https://example.com/?");
    let pairs = url.query_pairs();
    assert_eq!(pairs.len(), 1);
    assert_eq!(pairs.get(""), Some(&"".to_string()));
}

#[test]
fn header_map_is_last_write_wins_and_keeps_first_places() {
    let mut map = HeaderMap::new();
    assert!(map.is_empty());
    assert_eq!(map.insert("A".to_string(), "1".to_string()), None);
    assert_eq!(map.insert("B".to_string(), "2".to_string()), None);
    assert_eq!(map.insert("a".to_string(), "3".to_string()), None);
    assert_eq!(
        map.insert("A".to_string(), "4".to_string()),
        Some("1".to_string())
    );
    assert_eq!(map.len(), 3);
    assert!(!map.is_empty());
    assert_eq!(map.get("A"), Some(&"4".to_string()));
    assert_eq!(map.get("a"), Some(&"3".to_string()));
    assert!(map.contains_key("B"));
    assert!(!map.contains_key("b"));
    assert_eq!(map.key_at(0), "A");
    assert_eq!(map.value_at(0), "4");
    assert_eq!(map.key_at(2), "a");
    let copy = map.clone();
    assert_eq!(copy.len(), 3);
    assert_eq!(copy.get("B"), Some(&"2".to_string()));
    assert_eq!(copy.key_at(1), "B");
}

#[test]
fn status_mapping() {
    assert_eq!(StatusCode::from_u16(200), StatusCode::OK);
    assert_eq!(StatusCode::from_u16(201), StatusCode::Created);
    assert_eq!(StatusCode::from_u16(202), StatusCode::Accepted);
    assert_eq!(StatusCode::from_u16(204), StatusCode::NoContent);
    assert_eq!(StatusCode::from_u16(301), StatusCode::MovedPermanently);
    assert_eq!(StatusCode::from_u16(302), StatusCode::Found);
    assert_eq!(StatusCode::from_u16(304), StatusCode::NotModified);
    assert_eq!(StatusCode::from_u16(400), StatusCode::BadRequest);
    assert_eq!(StatusCode::from_u16(401), StatusCode::Unauthorized);
    assert_eq!(StatusCode::from_u16(403), StatusCode::Forbidden);
    assert_eq!(StatusCode::from_u16(404), StatusCode::NotFound);
    assert_eq!(StatusCode::from_u16(405), StatusCode::MethodNotAllowed);
    assert_eq!(StatusCode::from_u16(408), StatusCode::RequestTimeout);
    assert_eq!(StatusCode::from_u16(429), StatusCode::TooManyRequests);
    assert_eq!(StatusCode::from_u16(500), StatusCode::InternalServerError);
    assert_eq!(StatusCode::from_u16(418), StatusCode::Unsupported(418));
    assert_eq!(StatusCode::from_u16(0), StatusCode::Unsupported(0));
}

#[test]
fn status_gives_its_number_back() {
    let mut code: u16 = 0;
    loop {
        assert_eq!(StatusCode::from_u16(code).as_u16(), code);
        if code == u16::MAX {
            break;
        }
        code += 1;
    }
}

#[test]
fn status_line_is_read_by_its_second_token() {
    let line = |s: &str| StatusCode::from_status_line(&s.chars().collect::<Vec<char>>());
    assert_eq!(line("HTTP/1.1 200 OK\r\n"), StatusCode::OK);
    assert_eq!(line("  HTTP/1.1 \t 404\u{3000}Not Found"), StatusCode::NotFound);
    assert_eq!(line("HTTP/1.1 429"), StatusCode::TooManyRequests);
    assert_eq!(line("HTTP/1.1 +200 OK"), StatusCode::OK);
    assert_eq!(line("HTTP/1.1 418 teapot"), StatusCode::Unsupported(418));
    assert_eq!(line("HTTP/1.1 abc"), StatusCode::Unsupported(0));
    assert_eq!(line("HTTP/1.1 99999 x"), StatusCode::Unsupported(0));
    assert_eq!(line("HTTP/1.1"), StatusCode::Unsupported(0));
    assert_eq!(line(""), StatusCode::Unsupported(0));
    assert_eq!(line("HTTP/1.1 -200"), StatusCode::Unsupported(0));
}

#[test]
fn client_starts_with_the_default_headers() {
    let client = HttpClient::new();
    assert_eq!(client.url, "");
    assert_eq!(client.headers.len(), 3);
    assert_eq!(client.headers.key_at(0), "User-Agent");
    assert_eq!(client.headers.value_at(0), "Rust");
    assert_eq!(client.headers.key_at(1), "Accept");
    assert_eq!(client.headers.value_at(1), "*/*");
    assert_eq!(client.headers.key_at(2), "Connection");
    assert_eq!(client.headers.value_at(2), "close");
    assert_eq!(default_headers().len(), 3);
}

#[test]
fn client_overrides_replace_defaults() {
    let mut client = HttpClient::new();
    client
        .set_header("Accept", "application/json")
        .set_header("X-Extra", "1")
        .header_authorization("tok123".to_string());
    assert_eq!(client.headers.len(), 5);
    assert_eq!(
        client.headers.get("Accept"),
        Some(&"application/json".to_string())
    );
    assert_eq!(client.headers.key_at(1), "Accept");
    assert_eq!(
        client.headers.get("Authorization"),
        Some(&"Bearer tok123".to_string())
    );
    client.header_authorization("other".to_string());
    assert_eq!(client.headers.len(), 5);
    assert_eq!(
        client.headers.get("Authorization"),
        Some(&"Bearer other".to_string())
    );
}

#[test]
fn request_holds_the_parts_of_its_url() {
    let mut headers = HeaderMap::new();
    headers.insert("A".to_string(), "b".to_string());
    let request = HttpRequest::new("https://example.com:8443/x/y?k=v&k2=v2#f", headers);
    assert_eq!(request.host, "example.com");
    assert_eq!(request.port, 8443);
    assert_eq!(request.path, "/x/y");
    assert_eq!(request.query.len(), 2);
    assert_eq!(request.query.get("k2"), Some(&"v2".to_string()));
    assert_eq!(request.headers.get("A"), Some(&"b".to_string()));
    assert_eq!(request.url.fragment, Some("f".to_string()));
    assert_eq!(request.text(), "");
    let request = HttpRequest::new("https://example.com", HeaderMap::new());
    assert_eq!(request.port, 443);
    assert_eq!(request.path, "/");
}

#[test]
fn get_request_text() {
    let mut headers = HeaderMap::new();
    headers.insert("Accept".to_string(), "*/*".to_string());
    headers.insert("Connection".to_string(), "close".to_string());
    let mut request = HttpRequest::new("https://example.com/a/b?x=1&y=2&x=3", headers);
    let text = request.get().text().to_string();
    assert_eq!(
        text,
        "GET /a/b?x=3&y=2 HTTP/1.1\r\nHost: example.com\r\nAccept: */*\r\nConnection: close\r\n\r\n"
    );
    assert_eq!(request.as_bytes(), text.as_bytes());

    let mut request = HttpRequest::new("https://example.com", HeaderMap::new());
    request.get();
    assert_eq!(
        request.text(),
        "GET /? HTTP/1.1\r\nHost: example.com\r\n\r\n\r\n"
    );
}

#[test]
fn post_request_text_counts_the_bytes_of_the_body() {
    let mut headers = HeaderMap::new();
    headers.insert("Content-Type".to_string(), "text/plain".to_string());
    let mut request = HttpRequest::new("https://example.com/submit?ignored=1", headers);
    request.post("héllo wörld");
    assert_eq!(
        request.text(),
        "POST /submit HTTP/1.1\r\nHost: example.com\r\nContent-Type: text/plain\r\nContent-Length: 13\r\n\r\nhéllo wörld"
    );
    request.post("");
    assert_eq!(
        request.text(),
        "POST /submit HTTP/1.1\r\nHost: example.com\r\nContent-Type: text/plain\r\nContent-Length: 0\r\n\r\n"
    );
    let long = "x".repeat(1234);
    let mut request = HttpRequest::new("https://example.com/", HeaderMap::new());
    request.post(&long);
    assert!(request
        .text()
        .starts_with("POST / HTTP/1.1\r\nHost: example.com\r\n\r\nContent-Length: 1234\r\n\r\nxxx"));
}

#[test]
fn end_to_end_scenario() {
    let mut client = HttpClient::new();
    client.header_authorization("tok123".to_string());
    let request = client.get_request("https://example.com/a?x=1");
    let text = request.text();
    let lines: Vec<&str> = text.split("\r\n").collect();
    assert_eq!(lines[0], "GET /a?x=1 HTTP/1.1");
    assert!(lines.contains(&"Host: example.com"));
    assert!(lines.contains(&"Authorization: Bearer tok123"));
    assert_eq!(
        text,
        "GET /a?x=1 HTTP/1.1\r\nHost: example.com\r\nUser-Agent: Rust\r\nAccept: */*\r\nConnection: close\r\nAuthorization: Bearer tok123\r\n\r\n"
    );
    assert_eq!(client.headers.len(), 4);

    let response = HttpResponse::parse(b"HTTP/1.1 200 OK\r\nContent-Length: 2\r\n\r\nok").unwrap();
    assert_eq!(response.status_code, StatusCode::OK);
    assert_eq!(response.body, "ok");
    assert_eq!(response.headers.get("Content-Length"), Some(&"2".to_string()));
}

#[test]
fn post_request_from_the_client() {
    let mut client = HttpClient::new();
    client.set_header("Content-Type", "application/json");
    let request = client.post_request("https://api.example.com/v1/items?x=1", "{}");
    assert_eq!(
        request.text(),
        "POST /v1/items HTTP/1.1\r\nHost: api.example.com\r\nUser-Agent: Rust\r\nAccept: */*\r\nConnection: close\r\nContent-Type: application/json\r\nContent-Length: 2\r\n\r\n{}"
    );
    assert_eq!(request.host, "api.example.com");
    assert_eq!(request.port, 443);
}

#[test]
fn chunked_body_is_the_concatenation_of_the_chunks() {
    let head = "HTTP/1.1 200 OK\r\nTransfer-Encoding: chunked\r\n\r\n";
    let one = format!("{}5\r\nhello\r\n3\r\n wo\r\n3\r\nrld\r\n0\r\n\r\n", head);
    let two = format!("{}1\r\nh\r\nA\r\nello world\r\n0\r\n\r\n", head);
    let three = format!("{}b\r\nhello world\r\n0\r\n", head);
    assert_eq!(body_of(one.as_bytes()), "hello world");
    assert_eq!(body_of(two.as_bytes()), "hello world");
    assert_eq!(body_of(three.as_bytes()), "hello world");
    let response = HttpResponse::parse(one.as_bytes()).unwrap();
    assert_eq!(response.status_code, StatusCode::OK);
    assert_eq!(
        response.headers.get("Transfer-Encoding"),
        Some(&"chunked".to_string())
    );
}

#[test]
fn chunk_payload_may_hold_line_ends_and_split_characters() {
    let head = "HTTP/1.1 200 OK\r\nTransfer-Encoding: chunked\r\n\r\n";
    let mut stream = head.as_bytes().to_vec();
    stream.extend_from_slice(b"4\r\na\r\nb\r\n");
    stream.extend_from_slice(b"2\r\n\xe3\x81\r\n");
    stream.extend_from_slice(b" 1 \r\n\x82XX");
    stream.extend_from_slice(b"0\r\n\r\n");
    assert_eq!(body_of(&stream), "a\r\nbあ");
}

#[test]
fn chunk_size_that_is_no_number_ends_the_body() {
    let head = "HTTP/1.1 200 OK\r\nTransfer-Encoding: chunked\r\n\r\n";
    let stream = format!("{}3\r\nabc\r\nzz\r\ndef\r\n0\r\n\r\n", head);
    assert_eq!(body_of(stream.as_bytes()), "abc");
    let stream = format!("{}3\r\nabc\r\n", head);
    assert_eq!(body_of(stream.as_bytes()), "abc");
    let stream = format!("{}", head);
    assert_eq!(body_of(stream.as_bytes()), "");
    let stream = format!("{}+3\r\nabc\r\n0", head);
    assert_eq!(body_of(stream.as_bytes()), "abc");
}

#[test]
fn chunk_that_the_stream_cuts_short_is_an_error() {
    let head = "HTTP/1.1 200 OK\r\nTransfer-Encoding: chunked\r\n\r\n";
    let stream = format!("{}5\r\nhel", head);
    assert_eq!(
        HttpResponse::parse(stream.as_bytes()).err(),
        Some(ResponseError::UnexpectedEof)
    );
    let stream = format!("{}5\r\nhello\r", head);
    assert_eq!(
        HttpResponse::parse(stream.as_bytes()).err(),
        Some(ResponseError::UnexpectedEof)
    );
    let stream = format!("{}ffffffffffffffff\r\nhello\r\n", head);
    assert_eq!(
        HttpResponse::parse(stream.as_bytes()).err(),
        Some(ResponseError::UnexpectedEof)
    );
}

#[test]
fn body_of_an_announced_length_is_read_exactly() {
    let stream = b"HTTP/1.1 200 OK\r\nContent-Length: 11\r\n\r\nhello world";
    assert_eq!(body_of(stream), "hello world");
    let stream = b"HTTP/1.1 200 OK\r\nContent-Length: 11\r\n\r\nhello world and more \xff\xfe";
    assert_eq!(body_of(stream), "hello world");
    let stream = b"HTTP/1.1 200 OK\r\nContent-Length: 0\r\n\r\nhello";
    assert_eq!(body_of(stream), "");
    let stream = b"HTTP/1.1 200 OK\r\nContent-Length: eleven\r\n\r\nhello";
    assert_eq!(body_of(stream), "");
    let stream = b"HTTP/1.1 200 OK\r\nContent-Length: 12\r\n\r\nhello world";
    assert_eq!(
        HttpResponse::parse(stream).err(),
        Some(ResponseError::UnexpectedEof)
    );
}

#[test]
fn body_without_an_announced_length_runs_to_the_end() {
    let stream = b"HTTP/1.1 404 Not Found\r\nServer: x\r\n\r\nnot\r\nfound\r\n";
    let response = HttpResponse::parse(stream).unwrap();
    assert_eq!(response.status_code, StatusCode::NotFound);
    assert_eq!(response.body, "not\r\nfound\r\n");
    let stream = b"HTTP/1.1 204 No Content\r\n\r\n";
    let response = HttpResponse::parse(stream).unwrap();
    assert_eq!(response.status_code, StatusCode::NoContent);
    assert_eq!(response.body, "");
    assert_eq!(response.headers.len(), 0);
}

#[test]
fn header_lines() {
    let stream =
        b"HTTP/1.1 200 OK\r\nA: 1\r\nmalformed line\r\nB:2\r\nC: x: y\r\nA: 3\r\nD: \r\n: e\r\nlf-only: 1\n\r\nbody";
    let response = HttpResponse::parse(stream).unwrap();
    assert_eq!(response.headers.len(), 5);
    assert_eq!(response.headers.get("A"), Some(&"3".to_string()));
    assert_eq!(response.headers.get("B"), None);
    assert_eq!(response.headers.get("C"), Some(&"x: y".to_string()));
    assert_eq!(response.headers.get("D"), Some(&"".to_string()));
    assert_eq!(response.headers.get(""), Some(&"e".to_string()));
    assert_eq!(response.headers.get("lf-only"), Some(&"1\n".to_string()));
    assert_eq!(response.headers.key_at(0), "A");
    assert_eq!(response.body, "body");
}

#[test]
fn chunked_is_announced_by_the_exact_header_only() {
    let stream = b"HTTP/1.1 200 OK\r\ntransfer-encoding: chunked\r\n\r\n3\r\nabc\r\n0\r\n\r\n";
    assert_eq!(body_of(stream), "3\r\nabc\r\n0\r\n\r\n");
    let stream = b"HTTP/1.1 200 OK\r\nTransfer-Encoding: gzip, chunked\r\n\r\n3\r\nabc\r\n0\r\n\r\n";
    assert_eq!(body_of(stream), "3\r\nabc\r\n0\r\n\r\n");
    let stream =
        b"HTTP/1.1 200 OK\r\nTransfer-Encoding: chunked\r\nContent-Length: 1\r\nTransfer-Encoding: x\r\n\r\n3\r\nabc\r\n0\r\n\r\n";
    assert_eq!(body_of(stream), "abc");
}

#[test]
fn stream_that_ends_in_the_head_is_an_error() {
    assert_eq!(
        HttpResponse::parse(b"").err(),
        Some(ResponseError::UnexpectedEof)
    );
    assert_eq!(
        HttpResponse::parse(b"HTTP/1.1 200 OK\r\n").err(),
        Some(ResponseError::UnexpectedEof)
    );
    assert_eq!(
        HttpResponse::parse(b"HTTP/1.1 200 OK\r\nA: b\r\n").err(),
        Some(ResponseError::UnexpectedEof)
    );
    assert_eq!(
        HttpResponse::parse(b"HTTP/1.1 200 OK\r\nA: b").err(),
        Some(ResponseError::UnexpectedEof)
    );
}

#[test]
fn text_that_is_not_utf8_is_an_error() {
    assert_eq!(
        HttpResponse::parse(b"HTTP/1.1 200 OK\r\nContent-Length: 2\r\n\r\n\xff\xfe").err(),
        Some(ResponseError::InvalidData)
    );
    assert_eq!(
        HttpResponse::parse(b"HTTP/1.1 200 \xff\r\n\r\n").err(),
        Some(ResponseError::InvalidData)
    );
    assert_eq!(
        HttpResponse::parse(b"HTTP/1.1 200 OK\r\nA: \xc3\r\n\r\n").err(),
        Some(ResponseError::InvalidData)
    );
    assert_eq!(
        HttpResponse::parse(b"HTTP/1.1 200 OK\r\nTransfer-Encoding: chunked\r\n\r\n\xff\r\n").err(),
        Some(ResponseError::InvalidData)
    );
    assert_eq!(
        HttpResponse::parse(b"HTTP/1.1 200 OK\r\n\r\n\xe3\x81").err(),
        Some(ResponseError::InvalidData)
    );
}

#[test]
fn unreadable_status_is_unsupported() {
    let response = HttpResponse::parse(b"HTTP/1.1 abc\r\n\r\n").unwrap();
    assert_eq!(response.status_code, StatusCode::Unsupported(0));
    let response = HttpResponse::parse(b"HTTP/1.1 418 I'm a teapot\r\n\r\n").unwrap();
    assert_eq!(response.status_code, StatusCode::Unsupported(418));
    let response = HttpResponse::parse(b"\r\n\r\n").unwrap();
    assert_eq!(response.status_code, StatusCode::Unsupported(0));
}

#[test]
fn parser_says_what_it_needs() {
    let mut parser = ResponseParser::new();
    assert_eq!(parser.demand(), Demand::Line);
    assert_eq!(parser.feed(b"HTTP/1.1 201 Created\r\n"), Ok(()));
    assert_eq!(parser.demand(), Demand::Line);
    assert_eq!(parser.feed(b"Transfer-Encoding: chunked\r\n"), Ok(()));
    assert_eq!(parser.demand(), Demand::Line);
    assert_eq!(parser.feed(b"\r\n"), Ok(()));
    assert_eq!(parser.demand(), Demand::Line);
    assert_eq!(parser.feed(b"  1f \r\n"), Ok(()));
    assert_eq!(parser.demand(), Demand::Exact(33));
    assert_eq!(
        parser.feed(b"too short"),
        Err(ResponseError::UnexpectedEof)
    );
    assert_eq!(parser.demand(), Demand::Exact(33));
    assert_eq!(parser.feed(b"0123456789012345678901234567890\r\n"), Ok(()));
    assert_eq!(parser.demand(), Demand::Line);
    assert_eq!(parser.feed(b"0\r\n"), Ok(()));
    assert_eq!(parser.demand(), Demand::Nothing);
    assert_eq!(parser.feed(b"ignored"), Ok(()));
    assert_eq!(parser.demand(), Demand::Nothing);
    let response = parser.finish().unwrap();
    assert_eq!(response.status_code, StatusCode::Created);
    assert_eq!(response.body, "0123456789012345678901234567890");
}

#[test]
fn parser_demands_the_announced_length_or_the_rest() {
    let mut parser = ResponseParser::new();
    parser.feed(b"HTTP/1.1 200 OK\r\n").unwrap();
    parser.feed(b"Content-Length: 4\r\n").unwrap();
    parser.feed(b"\r\n").unwrap();
    assert_eq!(parser.demand(), Demand::Exact(4));
    assert_eq!(parser.feed(b"abc"), Err(ResponseError::UnexpectedEof));
    assert_eq!(parser.feed(b"abcd"), Ok(()));
    assert_eq!(parser.demand(), Demand::Nothing);
    assert_eq!(parser.finish().unwrap().body, "abcd");

    let mut parser = ResponseParser::new();
    parser.feed(b"HTTP/1.1 200 OK\r\n").unwrap();
    parser.feed(b"\r\n").unwrap();
    assert_eq!(parser.demand(), Demand::Rest);
    parser.feed(b"all of it").unwrap();
    assert_eq!(parser.finish().unwrap().body, "all of it");

    let mut parser = ResponseParser::new();
    parser.feed(b"HTTP/1.1 200 OK\r\n").unwrap();
    assert_eq!(parser.feed(b""), Err(ResponseError::UnexpectedEof));
    assert_eq!(
        parser.finish().err(),
        Some(ResponseError::UnexpectedEof)
    );
}

#[test]
fn json_decodes_the_body() {
    let response =
        HttpResponse::parse(b"HTTP/1.1 200 OK\r\nContent-Length: 9\r\n\r\n[1, 2, 3]").unwrap();
    let numbers: Vec<u64> = response.json().unwrap();
    assert_eq!(numbers, vec![1, 2, 3]);
    let value: serde_json::Value = response.json().unwrap();
    assert_eq!(value[1], serde_json::Value::from(2));
    let wrong: Result<String, _> = response.json();
    assert!(!wrong.unwrap_err().message.is_empty());
    let response = HttpResponse::parse(b"HTTP/1.1 200 OK\r\n\r\nnot json").unwrap();
    let failed: Result<Vec<u64>, _> = response.json();
    assert!(failed.is_err());
}
