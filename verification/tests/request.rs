use micro_http::error::Error;
use micro_http::request::is_end_of_head;
use micro_http::request::route_key;
use micro_http::request::Method;
use micro_http::request::Request;

fn lines(text: &[&str]) -> Vec<String> {
    text.iter().map(|line| line.to_string()).collect()
}

fn methods() -> Vec<(Method, &'static str)> {
    vec![
        (Method::GET, "GET"),
        (Method::POST, "POST"),
        (Method::PUT, "PUT"),
        (Method::DELETE, "DELETE"),
        (Method::PATCH, "PATCH"),
        (Method::HEAD, "HEAD"),
        (Method::OPTIONS, "OPTIONS"),
        (Method::CONNECT, "CONNECT"),
        (Method::TRACE, "TRACE"),
    ]
}

#[test]
fn method_tokens_round_trip() {
    for (method, token) in methods() {
        assert_eq!(method.to_str(), token);
        assert_eq!(Method::from_str(token), Ok(method));
        assert_eq!(Method::from_str(method.to_str()), Ok(method));
    }
}

#[test]
fn method_tokens_are_distinct() {
    let all = methods();
    for (i, a) in all.iter().enumerate() {
        for (j, b) in all.iter().enumerate() {
            assert_eq!(a.0.to_str() == b.0.to_str(), i == j);
        }
    }
}

#[test]
fn unknown_method_is_refused() {
    assert_eq!(Method::from_str(""), Err(Error::UnknownMethod));
    assert_eq!(Method::from_str("get"), Err(Error::UnknownMethod));
    assert_eq!(Method::from_str("Get"), Err(Error::UnknownMethod));
    assert_eq!(Method::from_str("GET "), Err(Error::UnknownMethod));
    assert_eq!(Method::from_str(" GET"), Err(Error::UnknownMethod));
    assert_eq!(Method::from_str("GE"), Err(Error::UnknownMethod));
    assert_eq!(Method::from_str("GETS"), Err(Error::UnknownMethod));
    assert_eq!(Method::from_str("FETCH"), Err(Error::UnknownMethod));
    assert_eq!(Method::from_str("G\u{c9}T"), Err(Error::UnknownMethod));
}

#[test]
fn route_key_joins_with_single_spaces() {
    assert_eq!(route_key(Method::GET, "/", "HTTP/1.1"), "GET / HTTP/1.1");
    assert_eq!(route_key(Method::DELETE, "/a/b", "HTTP/1.0"), "DELETE /a/b HTTP/1.0");
    assert_eq!(route_key(Method::POST, "", ""), "POST  ");
}

#[test]
fn request_line_is_read() {
    let request = Request::new(&lines(&["GET /foo HTTP/1.1"])).unwrap();
    assert_eq!(request.get_method(), Method::GET);
    assert_eq!(request.get_path(), "/foo");
    assert_eq!(request.get_version(), "HTTP/1.1");
    assert_eq!(request.get_route_key(), "GET /foo HTTP/1.1");
    assert_eq!(request.get_header("Host"), None);
}

#[test]
fn every_method_is_read() {
    for (method, token) in methods() {
        let line = format!("{} /items/1 HTTP/1.1", token);
        let request = Request::new(&vec![line.clone()]).unwrap();
        assert_eq!(request.get_method(), method);
        assert_eq!(request.get_path(), "/items/1");
        assert_eq!(request.get_route_key(), line);
    }
}

#[test]
fn headers_are_read_until_the_empty_line() {
    let request = Request::new(&lines(&[
        "POST /submit HTTP/1.1",
        "Host: example.org",
        "Content-Length: 11",
        "X-Empty: ",
        "",
        "Ignored: yes",
        "this is the body and is not even a header line",
    ]))
    .unwrap();
    assert_eq!(request.get_method(), Method::POST);
    assert_eq!(request.get_path(), "/submit");
    assert_eq!(request.get_header("Host"), Some("example.org"));
    assert_eq!(request.get_header("Content-Length"), Some("11"));
    assert_eq!(request.get_header("X-Empty"), Some(""));
    assert_eq!(request.get_header("Ignored"), None);
    assert_eq!(request.get_header("host"), None);
}

#[test]
fn headers_may_end_with_the_lines() {
    let request = Request::new(&lines(&["GET / HTTP/1.1", "Accept: */*"])).unwrap();
    assert_eq!(request.get_header("Accept"), Some("*/*"));
}

#[test]
fn header_is_split_at_the_first_separator() {
    let request = Request::new(&lines(&[
        "GET / HTTP/1.1",
        "Referer: http://a/b: c",
        "A:B: C: D",
        ": value of the empty name",
        "Time:12: 30",
    ]))
    .unwrap();
    assert_eq!(request.get_header("Referer"), Some("http://a/b: c"));
    assert_eq!(request.get_header("A:B"), Some("C: D"));
    assert_eq!(request.get_header(""), Some("value of the empty name"));
    assert_eq!(request.get_header("Time:12"), Some("30"));
}

#[test]
fn last_header_line_of_a_name_wins() {
    let request = Request::new(&lines(&[
        "GET / HTTP/1.1",
        "X-Trace: first",
        "Other: kept",
        "X-Trace: second",
        "X-Trace: third",
    ]))
    .unwrap();
    assert_eq!(request.get_header("X-Trace"), Some("third"));
    assert_eq!(request.get_header("Other"), Some("kept"));
}

#[test]
fn two_tokens_are_malformed() {
    assert_eq!(Request::new(&lines(&["GET /foo"])).err(), Some(Error::MalformedRequest));
}

#[test]
fn request_line_needs_exactly_three_tokens() {
    for line in [
        "GET",
        "GET ",
        "GET /foo",
        "GET /foo HTTP/1.1 extra",
        "GET /foo  HTTP/1.1",
        "GET  /foo HTTP/1.1",
        "GET /foo HTTP/1.1 ",
        " GET /foo HTTP/1.1",
        "GET /a b HTTP/1.1",
        "GET\t/foo\tHTTP/1.1",
        "   ",
        "nonsense",
    ] {
        assert_eq!(Request::new(&lines(&[line])).err(), Some(Error::MalformedRequest), "{}", line);
    }
}

#[test]
fn unknown_method_is_malformed() {
    for line in ["FETCH / HTTP/1.1", "get / HTTP/1.1", " / HTTP/1.1", "GETT / HTTP/1.1"] {
        assert_eq!(Request::new(&lines(&[line])).err(), Some(Error::MalformedRequest), "{}", line);
    }
}

#[test]
fn no_lines_are_malformed() {
    assert_eq!(Request::new(&Vec::new()).err(), Some(Error::MalformedRequest));
    assert_eq!(Request::new(&lines(&[""])).err(), Some(Error::MalformedRequest));
    assert_eq!(
        Request::new(&lines(&["", "GET / HTTP/1.1"])).err(),
        Some(Error::MalformedRequest)
    );
}

#[test]
fn header_without_separator_is_malformed() {
    for header in ["Host", "Host:example.org", "Host :example.org", "Host:", ":", " ", "Host:\tx"] {
        assert_eq!(
            Request::new(&lines(&["GET / HTTP/1.1", "Accept: */*", header, ""])).err(),
            Some(Error::MalformedRequest),
            "{}",
            header
        );
    }
}

#[test]
fn malformed_line_after_the_empty_line_is_not_read() {
    let request = Request::new(&lines(&["GET / HTTP/1.1", "", "no separator here"])).unwrap();
    assert_eq!(request.get_route_key(), "GET / HTTP/1.1");
}

#[test]
fn tokens_may_be_empty_or_unusual() {
    let request = Request::new(&lines(&["GET  "])).unwrap();
    assert_eq!(request.get_path(), "");
    assert_eq!(request.get_version(), "");
    assert_eq!(request.get_route_key(), "GET  ");

    let request = Request::new(&lines(&["PUT /caf\u{e9}/\u{20ac}?q=1#x HTTP/2"])).unwrap();
    assert_eq!(request.get_method(), Method::PUT);
    assert_eq!(request.get_path(), "/caf\u{e9}/\u{20ac}?q=1#x");
    assert_eq!(request.get_version(), "HTTP/2");
    assert_eq!(request.get_route_key(), "PUT /caf\u{e9}/\u{20ac}?q=1#x HTTP/2");
}

#[test]
fn header_with_text_beyond_ascii() {
    let request =
        Request::new(&lines(&["GET / HTTP/1.1", "N\u{e4}me: v\u{e4}lue: \u{1f600}"])).unwrap();
    assert_eq!(request.get_header("N\u{e4}me"), Some("v\u{e4}lue: \u{1f600}"));
}

#[test]
fn only_the_empty_line_ends_the_head() {
    assert!(is_end_of_head(""));
    assert!(!is_end_of_head(" "));
    assert!(!is_end_of_head("\r"));
    assert!(!is_end_of_head("Host: example.org"));
}

#[test]
fn lines_read_up_to_the_empty_line_carry_the_same_request() {
    let all = lines(&["GET /a HTTP/1.1", "K: v", "", "K: w", "more"]);
    let read = lines(&["GET /a HTTP/1.1", "K: v", ""]);
    let from_all = Request::new(&all).unwrap();
    let from_read = Request::new(&read).unwrap();
    assert_eq!(from_all.get_route_key(), from_read.get_route_key());
    assert_eq!(from_all.get_header("K"), Some("v"));
    assert_eq!(from_read.get_header("K"), Some("v"));
}
