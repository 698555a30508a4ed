use rtils::error::ErrorValue;
use rtils::http::{HTTPRequest, HttpConfig, HttpResponseType};
use rtils::http_parse::{
    head_header, header_line, local_path, make_request, parse_usize, reads_body, request_line, response_header,
    response_kind, trims_header_lines, HeaderLine, IntErrorKind, Method,
};

#[test]
fn request_line_names_method_and_target() {
    let r = request_line("GET /index.html HTTP/1.1\r").unwrap();
    assert_eq!(r, Some((Method::Get, "/index.html".to_string())));
    assert_eq!(request_line("  \t\r").unwrap(), None);
    assert_eq!(request_line("DELETE  /x").unwrap(), Some((Method::Delete, "/x".to_string())));
    let e = request_line("BREW /pot").unwrap_err();
    assert!(matches!(e.get_error(), ErrorValue::Message(m) if m == "error unknown argument to http request:\"BREW\""));
    let e = request_line("POST").unwrap_err();
    assert!(matches!(e.get_error(), ErrorValue::BadOption(_)));
}

#[test]
fn header_lines_give_length_and_end() {
    assert_eq!(header_line("Content-Length: 42\r", true).unwrap(), HeaderLine::ContentLength(42));
    assert_eq!(header_line("Content-Length:7", false).unwrap(), HeaderLine::ContentLength(7));
    assert_eq!(header_line("Host: x", true).unwrap(), HeaderLine::Other);
    assert_eq!(header_line("\r", true).unwrap(), HeaderLine::End);
    assert_eq!(header_line("\r", false).unwrap(), HeaderLine::Other);
    assert_eq!(header_line("", false).unwrap(), HeaderLine::End);
    let e = header_line("Content-Length: x", true).unwrap_err();
    assert!(matches!(e.get_error(), ErrorValue::Message(m) if m == "invalid digit found in string"));
    let e = header_line("Content-Length:", true).unwrap_err();
    assert!(matches!(e.get_error(), ErrorValue::Message(m) if m == "cannot parse integer from empty string"));
}

#[test]
fn parse_usize_like_from_str() {
    let c = |s: &str| s.chars().collect::<Vec<char>>();
    assert_eq!(parse_usize(&c("12")), Ok(12));
    assert_eq!(parse_usize(&c("+3")), Ok(3));
    assert_eq!(parse_usize(&c("")), Err(IntErrorKind::Empty));
    assert_eq!(parse_usize(&c("+")), Err(IntErrorKind::InvalidDigit));
    assert_eq!(parse_usize(&c("-1")), Err(IntErrorKind::InvalidDigit));
    assert_eq!(parse_usize(&c("99999999999999999999999")), Err(IntErrorKind::PosOverflow));
    for s in ["0", "77", "+9", "x", "", "18446744073709551616", "1a"] {
        let ours = parse_usize(&c(s));
        let std = s.parse::<usize>();
        assert_eq!(ours.is_ok(), std.is_ok());
        if let (Ok(a), Ok(b)) = (ours, std) {
            assert_eq!(a, b);
        }
    }
}

#[test]
fn requests_by_method() {
    assert!(trims_header_lines(Method::Get));
    assert!(!trims_header_lines(Method::Head));
    assert!(!reads_body(Method::Delete));
    assert!(reads_body(Method::Put));
    let r = make_request(Method::Put, "/a".to_string(), vec![1]);
    assert!(matches!(r, HTTPRequest::Put { target, msg } if target == "/a" && msg == vec![1]));
}

#[test]
fn response_headers() {
    assert_eq!(
        response_header(HttpResponseType::Text, 12),
        "HTTP/1.1 200 OK\r\nContent-Type: text/plain; charset=UTF-8\r\nContent-Length: 12\r\nConnection: keep-alive\r\n\n"
    );
    assert_eq!(
        response_header(HttpResponseType::Json, 0),
        "HTTP/1.1 200 OK\r\nContent-Type:text/json\r\ncharset=UTF-8\r\nContent-Length: 0\r\nConnection: keep-alive\r\n\n"
    );
    assert_eq!(
        head_header(Some("png"), 1024),
        "HTTP/1.1 200 OK\r\nContent-Type:image/png\r\ncharset=UTF-8\r\nContent-Length: 1024\r\nConnection: keep-alive\r\n\n"
    );
    assert_eq!(response_kind(Some("jpeg")), HttpResponseType::Jpeg);
    assert_eq!(response_kind(None), HttpResponseType::Text);
    assert_eq!(local_path("./site", "/"), "./site/index.html");
    assert_eq!(local_path("./site", "/a.png"), "./site/a.png");
}

#[test]
fn config_builder() {
    let c = HttpConfig::new().serve_dir("www".to_string()).build();
    assert!(c.handle_gets_locally);
    assert_eq!(c.serve_dir, "www");
}
