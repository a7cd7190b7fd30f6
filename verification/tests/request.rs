use scratch_server::{
    finish, parse_header_line, parse_req, parse_request_line, HeaderStep, HttpRequest,
    IntErrorKind, ReqParseError, Utf8Fault, MAX_BODY, MAX_HEADER,
};
use std::io::{BufRead, BufReader, Cursor, Read};

fn field(name: &str, value: &str) -> (String, String) {
    (name.to_string(), value.to_string())
}

fn request(method: &str, path: &str, headers: Vec<(String, String)>, body: &str) -> HttpRequest {
    HttpRequest {
        method: method.to_string(),
        path: path.to_string(),
        headers,
        body: body.to_string(),
    }
}

/// The same rules written with std's buffered reader, line by line, to hold
/// the parser against.
fn read_with_std(input: &[u8]) -> Result<HttpRequest, String> {
    let mut reader = BufReader::new(Cursor::new(input.to_vec()));
    let mut head = reader.by_ref().take(8192);
    let mut line = String::new();
    if head.read_line(&mut line).map_err(|e| format!("io: {e}"))? == 0 {
        return Err("closed".to_string());
    }
    let parts: Vec<&str> = line.split_whitespace().collect();
    if parts.len() < 2 {
        return Err("line".to_string());
    }
    let method = parts[0].to_ascii_uppercase();
    if method != "GET" && method != "POST" {
        return Err("method".to_string());
    }
    let path = parts[1].to_string();
    let mut headers = Vec::new();
    loop {
        let mut line = String::new();
        if head.read_line(&mut line).map_err(|e| format!("io: {e}"))? == 0 {
            return Err("closed".to_string());
        }
        if line == "\r\n" {
            break;
        }
        if let Some((k, v)) = line.split_once(':') {
            headers.push((k.trim().to_string(), v.trim().to_string()));
        }
    }
    let declared = headers
        .iter()
        .find(|(k, _)| k.eq_ignore_ascii_case("Content-Length"))
        .map_or("0", |(_, v)| v.as_str());
    let len: usize = declared.parse().map_err(|e| format!("int: {e}"))?;
    if len > 102_400 {
        return Err("oversized".to_string());
    }
    let mut body = vec![0u8; len];
    reader.read_exact(&mut body).map_err(|e| format!("io: {e}"))?;
    let body = String::from_utf8(body).map_err(|e| format!("utf8: {e}"))?;
    Ok(HttpRequest { method, path, headers, body })
}

fn described(result: Result<HttpRequest, ReqParseError>) -> Result<HttpRequest, String> {
    result.map_err(|e| match e {
        ReqParseError::ConnectionClosed => "closed".to_string(),
        ReqParseError::InvalidMethod => "method".to_string(),
        ReqParseError::InvalidReqLine => "line".to_string(),
        ReqParseError::IoError(_) => format!("io: {}", e.message()),
        ReqParseError::OversizedBody => "oversized".to_string(),
        ReqParseError::ParseIntError(_) => format!("int: {}", e.message()),
        ReqParseError::Utf8Error(_) => format!("utf8: {}", e.message()),
    })
}

fn assert_agrees_with_std(input: &[u8]) {
    assert_eq!(
        described(parse_req(input)),
        read_with_std(input),
        "input: {:?}",
        String::from_utf8_lossy(input)
    );
}

#[test]
fn reads_a_get_request() {
    let got = parse_req(b"GET /abc HTTP/1.1\r\nHost: example.com\r\n\r\n");
    assert_eq!(
        got,
        Ok(request("GET", "/abc", vec![field("Host", "example.com")], ""))
    );
}

#[test]
fn reads_a_post_request_with_body() {
    let got = parse_req(
        b"POST / HTTP/1.1\r\nContent-Type: application/json\r\nContent-Length: 30\r\n\r\n{\"url\": \"https://example.com\"}",
    );
    assert_eq!(
        got,
        Ok(request(
            "POST",
            "/",
            vec![field("Content-Type", "application/json"), field("Content-Length", "30")],
            "{\"url\": \"https://example.com\"}"
        ))
    );
}

#[test]
fn method_is_put_in_upper_case() {
    let got = parse_req(b"get / HTTP/1.1\r\n\r\n").unwrap();
    assert_eq!(got.method, "GET");
    let got = parse_req(b"pOsT / HTTP/1.1\r\n\r\n").unwrap();
    assert_eq!(got.method, "POST");
}

#[test]
fn path_is_kept_verbatim() {
    let got = parse_req(b"GET /a%20b?x=1&y=%2F#frag HTTP/1.1\r\n\r\n").unwrap();
    assert_eq!(got.path, "/a%20b?x=1&y=%2F#frag");
}

#[test]
fn request_line_needs_no_version() {
    let got = parse_req(b"GET /x\r\n\r\n").unwrap();
    assert_eq!((got.method.as_str(), got.path.as_str()), ("GET", "/x"));
}

#[test]
fn request_line_may_end_in_a_bare_line_feed() {
    let got = parse_req(b"GET /x HTTP/1.1\n\r\n").unwrap();
    assert_eq!(got.path, "/x");
}

#[test]
fn request_line_tokens_are_split_on_any_white_space() {
    let got = parse_req("  GET\t\u{a0}/x\u{2003}HTTP/1.1\r\n\r\n".as_bytes()).unwrap();
    assert_eq!((got.method.as_str(), got.path.as_str()), ("GET", "/x"));
}

#[test]
fn empty_input_is_a_closed_connection() {
    assert_eq!(parse_req(b""), Err(ReqParseError::ConnectionClosed));
}

#[test]
fn request_line_with_one_token_is_invalid() {
    assert_eq!(parse_req(b"GET\r\n"), Err(ReqParseError::InvalidReqLine));
    assert_eq!(parse_req(b"GET\r\n\r\n"), Err(ReqParseError::InvalidReqLine));
    assert_eq!(parse_req(b"/path-only\r\nHost: x\r\n\r\n"), Err(ReqParseError::InvalidReqLine));
}

#[test]
fn request_line_without_tokens_is_invalid() {
    assert_eq!(parse_req(b"\r\n\r\n"), Err(ReqParseError::InvalidReqLine));
    assert_eq!(parse_req(b"   \t \r\n\r\n"), Err(ReqParseError::InvalidReqLine));
    assert_eq!(parse_req(b"\n"), Err(ReqParseError::InvalidReqLine));
}

#[test]
fn other_methods_are_refused() {
    assert_eq!(parse_req(b"PUT / HTTP/1.1\r\n\r\n"), Err(ReqParseError::InvalidMethod));
    assert_eq!(parse_req(b"DELETE /x HTTP/1.1\r\n\r\n"), Err(ReqParseError::InvalidMethod));
    assert_eq!(parse_req(b"GETS / HTTP/1.1\r\n\r\n"), Err(ReqParseError::InvalidMethod));
    assert_eq!(parse_req(b"HEAD /\r\n"), Err(ReqParseError::InvalidMethod));
}

#[test]
fn too_few_tokens_is_found_before_the_method() {
    assert_eq!(parse_req(b"PUT\r\n\r\n"), Err(ReqParseError::InvalidReqLine));
}

#[test]
fn input_ending_before_the_empty_line_is_a_closed_connection() {
    assert_eq!(parse_req(b"GET / HTTP/1.1\r\n"), Err(ReqParseError::ConnectionClosed));
    assert_eq!(parse_req(b"GET / HTTP/1.1"), Err(ReqParseError::ConnectionClosed));
    assert_eq!(
        parse_req(b"GET / HTTP/1.1\r\nHost: example.com\r\n"),
        Err(ReqParseError::ConnectionClosed)
    );
    assert_eq!(
        parse_req(b"GET / HTTP/1.1\r\nHost: example.com"),
        Err(ReqParseError::ConnectionClosed)
    );
}

#[test]
fn a_bare_line_feed_does_not_end_the_headers() {
    assert_eq!(parse_req(b"GET / HTTP/1.1\r\n\n"), Err(ReqParseError::ConnectionClosed));
    let got = parse_req(b"GET / HTTP/1.1\r\n\nHost: a\r\n\r\n").unwrap();
    assert_eq!(got.headers, vec![field("Host", "a")]);
}

#[test]
fn header_names_and_values_are_trimmed() {
    let got = parse_req(b"GET / HTTP/1.1\r\n  Host \t:   example.com  \r\n\r\n").unwrap();
    assert_eq!(got.headers, vec![field("Host", "example.com")]);
    let got = parse_req("GET / HTTP/1.1\r\n\u{a0}A\u{2009}:\u{3000}b c\u{85}\r\n\r\n".as_bytes())
        .unwrap();
    assert_eq!(got.headers, vec![field("A", "b c")]);
}

#[test]
fn header_is_split_at_the_first_colon() {
    let got = parse_req(b"GET / HTTP/1.1\r\nHost: example.com:8080\r\n:x\r\ny:\r\n:\r\n\r\n")
        .unwrap();
    assert_eq!(
        got.headers,
        vec![field("Host", "example.com:8080"), field("", "x"), field("y", ""), field("", "")]
    );
}

#[test]
fn lines_without_a_colon_are_passed_over() {
    let got = parse_req(b"GET / HTTP/1.1\r\nnonsense\r\nHost: a\r\n \r\n\r\n").unwrap();
    assert_eq!(got.headers, vec![field("Host", "a")]);
}

#[test]
fn duplicate_headers_are_kept_in_order() {
    let got = parse_req(b"GET / HTTP/1.1\r\nX: 1\r\nY: 2\r\nx: 3\r\n\r\n").unwrap();
    assert_eq!(got.headers, vec![field("X", "1"), field("Y", "2"), field("x", "3")]);
}

#[test]
fn missing_content_length_means_no_body() {
    let got = parse_req(b"POST / HTTP/1.1\r\n\r\nignored").unwrap();
    assert_eq!(got.body, "");
}

#[test]
fn content_length_is_found_without_regard_to_case() {
    let got = parse_req(b"POST / HTTP/1.1\r\ncontent-LENGTH: 3\r\n\r\nabcdef").unwrap();
    assert_eq!(got.body, "abc");
}

#[test]
fn the_first_content_length_decides() {
    let got = parse_req(b"POST / HTTP/1.1\r\nContent-Length: 2\r\nContent-Length: 4\r\n\r\nabcdef")
        .unwrap();
    assert_eq!(got.body, "ab");
}

#[test]
fn content_length_may_carry_a_plus_sign() {
    let got = parse_req(b"POST / HTTP/1.1\r\nContent-Length: +3\r\n\r\nabc").unwrap();
    assert_eq!(got.body, "abc");
    let got = parse_req(b"POST / HTTP/1.1\r\nContent-Length: 003\r\n\r\nabc").unwrap();
    assert_eq!(got.body, "abc");
}

#[test]
fn content_length_that_is_no_number_is_refused() {
    let cases: [(&[u8], IntErrorKind); 8] = [
        (b"", IntErrorKind::Empty),
        (b"abc", IntErrorKind::InvalidDigit),
        (b"-1", IntErrorKind::InvalidDigit),
        (b"+", IntErrorKind::InvalidDigit),
        (b"-", IntErrorKind::InvalidDigit),
        (b"1 2", IntErrorKind::InvalidDigit),
        (b"12.5", IntErrorKind::InvalidDigit),
        (b"0x10", IntErrorKind::InvalidDigit),
    ];
    for (value, kind) in cases {
        let mut input = b"POST / HTTP/1.1\r\nContent-Length: ".to_vec();
        input.extend_from_slice(value);
        input.extend_from_slice(b"\r\n\r\n");
        assert_eq!(parse_req(&input), Err(ReqParseError::ParseIntError(kind)));
    }
}

#[test]
fn content_length_beyond_the_machine_is_an_overflow() {
    let got = parse_req(b"POST / HTTP/1.1\r\nContent-Length: 99999999999999999999999999\r\n\r\n");
    assert_eq!(got, Err(ReqParseError::ParseIntError(IntErrorKind::PosOverflow)));
    let got = parse_req(b"POST / HTTP/1.1\r\nContent-Length: 99999999999999999999999999x\r\n\r\n");
    assert_eq!(got, Err(ReqParseError::ParseIntError(IntErrorKind::PosOverflow)));
    let got = parse_req(b"POST / HTTP/1.1\r\nContent-Length: 9999x99999999999999999999999\r\n\r\n");
    assert_eq!(got, Err(ReqParseError::ParseIntError(IntErrorKind::InvalidDigit)));
}

#[test]
fn body_cap_is_one_hundred_kibibytes() {
    assert_eq!(MAX_BODY, 102_400);
    let mut input = b"POST / HTTP/1.1\r\nContent-Length: 102400\r\n\r\n".to_vec();
    input.extend(std::iter::repeat(b'a').take(102_400));
    let got = parse_req(&input).unwrap();
    assert_eq!(got.body.len(), 102_400);
}

#[test]
fn oversized_body_is_refused_whether_sent_or_not() {
    let head = b"POST / HTTP/1.1\r\nContent-Length: 102401\r\n\r\n";
    assert_eq!(parse_req(head), Err(ReqParseError::OversizedBody));
    let mut input = head.to_vec();
    input.extend(std::iter::repeat(b'a').take(102_401));
    assert_eq!(parse_req(&input), Err(ReqParseError::OversizedBody));
}

#[test]
fn short_body_is_an_io_error() {
    let got = parse_req(b"POST / HTTP/1.1\r\nContent-Length: 10\r\n\r\nabc");
    assert_eq!(
        got,
        Err(ReqParseError::IoError("failed to fill whole buffer".to_string()))
    );
}

#[test]
fn body_that_is_not_utf8_is_refused() {
    let got = parse_req(b"POST / HTTP/1.1\r\nContent-Length: 3\r\n\r\na\xffb");
    assert_eq!(
        got,
        Err(ReqParseError::Utf8Error(Utf8Fault { valid_up_to: 1, error_len: Some(1) }))
    );
    let got = parse_req(b"POST / HTTP/1.1\r\nContent-Length: 4\r\n\r\nab\xe2\x82");
    assert_eq!(
        got,
        Err(ReqParseError::Utf8Error(Utf8Fault { valid_up_to: 2, error_len: None }))
    );
}

#[test]
fn body_is_cut_by_length_not_by_character() {
    // The euro sign takes three bytes; a length of 2 cuts it.
    let got = parse_req("POST / HTTP/1.1\r\nContent-Length: 2\r\n\r\n€".as_bytes());
    assert_eq!(
        got,
        Err(ReqParseError::Utf8Error(Utf8Fault { valid_up_to: 0, error_len: None }))
    );
    let got = parse_req("POST / HTTP/1.1\r\nContent-Length: 3\r\n\r\n€".as_bytes()).unwrap();
    assert_eq!(got.body, "€");
}

#[test]
fn head_that_is_not_utf8_is_an_io_error() {
    let invalid = ReqParseError::IoError("stream did not contain valid UTF-8".to_string());
    assert_eq!(parse_req(b"GET /\xff HTTP/1.1\r\n\r\n"), Err(invalid.clone()));
    assert_eq!(parse_req(b"GET / HTTP/1.1\r\nX: \xc3\r\n\r\n"), Err(invalid.clone()));
    assert_eq!(parse_req(b"\xff"), Err(invalid));
}

#[test]
fn header_region_is_capped() {
    assert_eq!(MAX_HEADER, 8192);
    // The empty line ends exactly at the cap.
    let mut input = b"GET / HTTP/1.1\r\nX: ".to_vec();
    let fill = 8192 - input.len() - 4;
    input.extend(std::iter::repeat(b'a').take(fill));
    input.extend_from_slice(b"\r\n\r\n");
    assert_eq!(input.len(), 8192);
    let got = parse_req(&input).unwrap();
    assert_eq!(got.headers.len(), 1);
    assert_eq!(got.headers[0].1.len(), fill);

    // One byte more, and the empty line is cut: the region is used up.
    let mut input = b"GET / HTTP/1.1\r\nX: ".to_vec();
    input.extend(std::iter::repeat(b'a').take(fill + 1));
    input.extend_from_slice(b"\r\n\r\n");
    assert_eq!(parse_req(&input), Err(ReqParseError::ConnectionClosed));
}

#[test]
fn header_region_cap_does_not_bound_the_body() {
    let mut input = b"POST / HTTP/1.1\r\nContent-Length: 20000\r\n\r\n".to_vec();
    input.extend(std::iter::repeat(b'b').take(20_000));
    let got = parse_req(&input).unwrap();
    assert_eq!(got.body.len(), 20_000);
}

#[test]
fn overlong_request_line_uses_up_the_region() {
    let mut input = b"GET /".to_vec();
    input.extend(std::iter::repeat(b'a').take(9000));
    input.extend_from_slice(b" HTTP/1.1\r\n\r\n");
    assert_eq!(parse_req(&input), Err(ReqParseError::ConnectionClosed));
    // A single token of the same length is refused for its shape first.
    let mut input = Vec::new();
    input.extend(std::iter::repeat(b'a').take(9000));
    assert_eq!(parse_req(&input), Err(ReqParseError::InvalidReqLine));
}

#[test]
fn agrees_with_std_line_reading() {
    let mut long_header = b"GET / HTTP/1.1\r\nX: ".to_vec();
    long_header.extend(std::iter::repeat(b'a').take(8170));
    long_header.extend_from_slice(b"\r\n\r\n");
    let mut cut_character = b"GET / HTTP/1.1\r\nX: ".to_vec();
    cut_character.extend(std::iter::repeat(b'a').take(8172));
    cut_character.extend_from_slice("€\r\n\r\n".as_bytes());
    let inputs: Vec<Vec<u8>> = vec![
        b"".to_vec(),
        b"\n".to_vec(),
        b"\r\n".to_vec(),
        b"GET".to_vec(),
        b"GET /".to_vec(),
        b"GET / HTTP/1.1\r\n\r\n".to_vec(),
        b"GET / HTTP/1.1\n\n".to_vec(),
        b"GET / HTTP/1.1\n\r\n".to_vec(),
        b"get /x y z\r\nA:b\r\n\r\n".to_vec(),
        b"PATCH / HTTP/1.1\r\n\r\n".to_vec(),
        "G\u{c9}T / HTTP/1.1\r\n\r\n".as_bytes().to_vec(),
        "\u{2003}post\u{2003}/p\u{2003}\r\n\u{2003}k\u{2003}:\u{2003}v\u{2003}\r\n\r\n".as_bytes().to_vec(),
        "GET /\u{200b}x HTTP/1.1\r\n\r\n".as_bytes().to_vec(),
        "GET / HTTP/1.1\r\nK:\u{feff}v\u{200a}\u{202f}\u{205f}\u{1680}\u{2028}\u{2029}\r\n\r\n".as_bytes().to_vec(),
        "GET / HTTP/1.1\r\nK:\u{1f}v\u{1c}\u{0b}\u{0c}\r\n\r\n".as_bytes().to_vec(),
        b"GET / HTTP/1.1\r\n\xc2\r\n\r\n".to_vec(),
        b"GET / HTTP/1.1\r\nA: \xe2\x80\r\n\r\n".to_vec(),
        b"POST / HTTP/1.1\r\nContent-Length: 5\r\n\r\nhello world".to_vec(),
        b"POST / HTTP/1.1\r\nContent-Length: 5\r\n\r\nhell".to_vec(),
        b"POST / HTTP/1.1\r\nContent-Length:\r\n\r\n".to_vec(),
        b"POST / HTTP/1.1\r\nContent-Length: +\r\n\r\n".to_vec(),
        b"POST / HTTP/1.1\r\nContent-Length: +0\r\n\r\n".to_vec(),
        b"POST / HTTP/1.1\r\nContent-Length: -0\r\n\r\n".to_vec(),
        b"POST / HTTP/1.1\r\nContent-Length: 18446744073709551615\r\n\r\n".to_vec(),
        b"POST / HTTP/1.1\r\nContent-Length: 18446744073709551616\r\n\r\n".to_vec(),
        b"POST / HTTP/1.1\r\nContent-Length: 1844674407370955161x\r\n\r\n".to_vec(),
        b"POST / HTTP/1.1\r\nContent-Length: 184467440737095516160x\r\n\r\n".to_vec(),
        b"POST / HTTP/1.1\r\nContent-Length: 102401\r\n\r\n".to_vec(),
        b"POST / HTTP/1.1\r\nContent-Length: 4\r\n\r\n\xf0\x9f\x98\x80".to_vec(),
        b"POST / HTTP/1.1\r\nContent-Length: 4\r\n\r\n\xf0\x9f\x98\x41".to_vec(),
        b"POST / HTTP/1.1\r\nContent-Length: 4\r\n\r\nab\xed\xa0".to_vec(),
        b"POST / HTTP/1.1\r\nContent-Length: 3\r\n\r\n\xc0\x80a".to_vec(),
        b"POST / HTTP/1.1\r\nContent-Length: 3\r\n\r\na\xf4\x90".to_vec(),
        long_header,
        cut_character,
    ];
    for input in &inputs {
        assert_agrees_with_std(input);
    }
}

#[test]
fn agrees_with_std_on_every_prefix() {
    let whole = "POST /p HTTP/1.1\r\nHost: é\r\nContent-Length: 7\r\n\r\n{\"a\":€}".as_bytes();
    for end in 0..=whole.len() {
        assert_agrees_with_std(&whole[..end]);
    }
}

#[test]
fn reading_line_by_line_gives_the_same_request() {
    let head = parse_request_line(b"POST /new HTTP/1.1\r\n").unwrap();
    assert_eq!(head.line_limit(), 8192 - 20);
    let head = match parse_header_line(head, b"Content-Length: 5\r\n").unwrap() {
        HeaderStep::More(head) => head,
        HeaderStep::Body(_) => panic!("headers ended early"),
    };
    assert_eq!(head.line_limit(), 8192 - 20 - 19);
    let head = match parse_header_line(head, b"no colon here\r\n").unwrap() {
        HeaderStep::More(head) => head,
        HeaderStep::Body(_) => panic!("headers ended early"),
    };
    let pending = match parse_header_line(head, b"\r\n").unwrap() {
        HeaderStep::More(_) => panic!("headers did not end"),
        HeaderStep::Body(pending) => pending,
    };
    assert_eq!(pending.body_len(), 5);
    let got = finish(pending, b"hello").unwrap();
    assert_eq!(
        got,
        request("POST", "/new", vec![field("Content-Length", "5")], "hello")
    );
    assert_eq!(
        Ok(got),
        parse_req(b"POST /new HTTP/1.1\r\nContent-Length: 5\r\nno colon here\r\n\r\nhello")
    );
}

#[test]
fn an_empty_line_read_means_a_closed_connection() {
    assert!(matches!(parse_request_line(b""), Err(ReqParseError::ConnectionClosed)));
    let head = parse_request_line(b"GET / HTTP/1.1\r\n").unwrap();
    assert!(matches!(parse_header_line(head, b""), Err(ReqParseError::ConnectionClosed)));
}

#[test]
fn lines_are_looked_at_only_within_the_region() {
    let mut line = b"GET /".to_vec();
    line.extend(std::iter::repeat(b'a').take(9000));
    let head = parse_request_line(&line).unwrap();
    assert_eq!(head.line_limit(), 0);
    assert!(matches!(
        parse_header_line(head, b"\r\n"),
        Err(ReqParseError::ConnectionClosed)
    ));
}

#[test]
fn oversized_length_is_refused_before_any_body_is_asked_for() {
    let head = parse_request_line(b"POST / HTTP/1.1\r\n").unwrap();
    let head = match parse_header_line(head, b"Content-Length: 102401\r\n").unwrap() {
        HeaderStep::More(head) => head,
        HeaderStep::Body(_) => panic!("headers ended early"),
    };
    assert!(matches!(
        parse_header_line(head, b"\r\n"),
        Err(ReqParseError::OversizedBody)
    ));
}

#[test]
fn finish_takes_the_declared_length_only() {
    let head = parse_request_line(b"POST / HTTP/1.1\r\n").unwrap();
    let head = match parse_header_line(head, b"Content-Length: 2\r\n").unwrap() {
        HeaderStep::More(head) => head,
        HeaderStep::Body(_) => panic!("headers ended early"),
    };
    let pending = match parse_header_line(head, b"\r\n").unwrap() {
        HeaderStep::More(_) => panic!("headers did not end"),
        HeaderStep::Body(pending) => pending,
    };
    assert_eq!(finish(pending, b"abcdef").unwrap().body, "ab");
}

#[test]
fn error_descriptions() {
    assert_eq!(ReqParseError::ConnectionClosed.message(), "Connection closed by client");
    assert_eq!(ReqParseError::InvalidMethod.message(), "Invalid HTTP method");
    assert_eq!(ReqParseError::InvalidReqLine.message(), "Invalid request line");
    assert_eq!(ReqParseError::OversizedBody.message(), "Request body is too large");
    assert_eq!(ReqParseError::IoError("broken pipe".to_string()).message(), "broken pipe");
    assert_eq!(
        ReqParseError::ParseIntError(IntErrorKind::Empty).message(),
        "cannot parse integer from empty string"
    );
    assert_eq!(
        ReqParseError::ParseIntError(IntErrorKind::InvalidDigit).message(),
        "invalid digit found in string"
    );
    assert_eq!(
        ReqParseError::ParseIntError(IntErrorKind::PosOverflow).message(),
        "number too large to fit in target type"
    );
    assert_eq!(
        ReqParseError::Utf8Error(Utf8Fault { valid_up_to: 12, error_len: Some(3) }).message(),
        "invalid utf-8 sequence of 3 bytes from index 12"
    );
    assert_eq!(
        ReqParseError::Utf8Error(Utf8Fault { valid_up_to: 0, error_len: None }).message(),
        "incomplete utf-8 byte sequence from index 0"
    );
}

#[test]
fn error_descriptions_are_those_of_std() {
    assert_eq!(
        ReqParseError::ParseIntError(IntErrorKind::Empty).message(),
        "".parse::<usize>().unwrap_err().to_string()
    );
    assert_eq!(
        ReqParseError::ParseIntError(IntErrorKind::InvalidDigit).message(),
        "x".parse::<usize>().unwrap_err().to_string()
    );
    assert_eq!(
        ReqParseError::ParseIntError(IntErrorKind::PosOverflow).message(),
        "99999999999999999999999".parse::<usize>().unwrap_err().to_string()
    );
    for bytes in [&b"a\xffb"[..], &b"ab\xe2\x82"[..], &b"\xf0\x9f\x98\x41"[..], &b"\xed\xa0\x80"[..]] {
        let input = [b"POST / HTTP/1.1\r\nContent-Length: ", bytes.len().to_string().as_bytes(), b"\r\n\r\n", bytes].concat();
        let ours = parse_req(&input).unwrap_err();
        assert!(matches!(ours, ReqParseError::Utf8Error(_)));
        assert_eq!(
            ours.message(),
            String::from_utf8(bytes.to_vec()).unwrap_err().to_string()
        );
    }
}
