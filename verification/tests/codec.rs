use mini_http::codec::{
    parse_request, read_head, read_fields, split_header_line, split_tokens, trimmed_line,
    whitespace_at, DecodeError,
};
use mini_http::message::HttpRequest;

fn header<'a>(request: &'a HttpRequest, name: &str) -> Option<&'a [u8]> {
    request.headers.get(name.as_bytes()).map(|v| v.as_slice())
}

#[test]
fn parses_a_get_without_body() {
    let request = parse_request(b"GET /index.html HTTP/1.1\r\nHost: example.org\r\n\r\n").unwrap();
    assert_eq!(request.method, b"GET".to_vec());
    assert_eq!(request.path, b"/index.html".to_vec());
    assert_eq!(request.headers.len(), 1);
    assert_eq!(header(&request, "Host"), Some(&b"example.org"[..]));
    assert!(request.body.is_empty());
}

#[test]
fn parses_a_post_with_body() {
    let request =
        parse_request(b"POST /files/a.txt HTTP/1.1\r\nContent-Length: 3\r\n\r\nxyz").unwrap();
    assert_eq!(request.method, b"POST".to_vec());
    assert_eq!(request.path, b"/files/a.txt".to_vec());
    assert_eq!(header(&request, "Content-Length"), Some(&b"3"[..]));
    assert_eq!(request.body, b"xyz".to_vec());
}

#[test]
fn body_is_exactly_the_declared_length() {
    let request =
        parse_request(b"POST /x HTTP/1.1\r\nContent-Length: 3\r\n\r\nxyzEXTRA BYTES").unwrap();
    assert_eq!(request.body, b"xyz".to_vec());
    let none = parse_request(b"POST /x HTTP/1.1\r\n\r\nignored").unwrap();
    assert!(none.body.is_empty());
    let zero = parse_request(b"POST /x HTTP/1.1\r\nContent-Length: 0\r\n\r\nignored").unwrap();
    assert!(zero.body.is_empty());
}

#[test]
fn body_may_hold_any_bytes() {
    let mut input = b"POST /x HTTP/1.1\r\nContent-Length: 6\r\n\r\n".to_vec();
    input.extend_from_slice(&[0, 255, 13, 10, 13, 10]);
    let request = parse_request(&input).unwrap();
    assert_eq!(request.body, vec![0, 255, 13, 10, 13, 10]);
}

#[test]
fn accepts_bare_line_feeds() {
    let request = parse_request(b"GET / HTTP/1.1\nUser-Agent: t\n\n").unwrap();
    assert_eq!(request.path, b"/".to_vec());
    assert_eq!(header(&request, "User-Agent"), Some(&b"t"[..]));
}

#[test]
fn tokens_may_be_separated_by_any_whitespace() {
    let request = parse_request(b"  GET \t /a   HTTP/1.1  \r\n\r\n").unwrap();
    assert_eq!(request.method, b"GET".to_vec());
    assert_eq!(request.path, b"/a".to_vec());
}

#[test]
fn one_token_is_a_malformed_request_line() {
    assert_eq!(parse_request(b"GET\r\n\r\n").unwrap_err(), DecodeError::MalformedRequestLine);
}

#[test]
fn two_or_four_tokens_are_a_malformed_request_line() {
    assert_eq!(parse_request(b"GET /\r\n\r\n").unwrap_err(), DecodeError::MalformedRequestLine);
    assert_eq!(
        parse_request(b"GET / HTTP/1.1 extra\r\n\r\n").unwrap_err(),
        DecodeError::MalformedRequestLine
    );
}

#[test]
fn an_empty_head_is_a_malformed_request_line() {
    assert_eq!(parse_request(b"\r\n").unwrap_err(), DecodeError::MalformedRequestLine);
    assert_eq!(parse_request(b"\n").unwrap_err(), DecodeError::MalformedRequestLine);
    assert_eq!(parse_request(b"\r\nGET / HTTP/1.1\r\n\r\n").unwrap_err(), DecodeError::MalformedRequestLine);
}

#[test]
fn a_line_of_whitespace_is_a_malformed_request_line() {
    assert_eq!(parse_request(b"   \r\n\r\n").unwrap_err(), DecodeError::MalformedRequestLine);
    assert_eq!(parse_request(b"\r\r\n\r\n").unwrap_err(), DecodeError::MalformedRequestLine);
}

#[test]
fn header_lines_without_separator_are_dropped() {
    let request =
        parse_request(b"GET / HTTP/1.1\r\nNoSeparator\r\nA:b\r\nHost: h\r\nTrailing:\r\n\r\n")
            .unwrap();
    assert_eq!(request.headers.len(), 1);
    assert_eq!(header(&request, "Host"), Some(&b"h"[..]));
}

#[test]
fn header_value_is_all_after_the_first_separator() {
    let request = parse_request(b"GET / HTTP/1.1\r\nX: a: b: c\r\nY: \r\n: z\r\n\r\n").unwrap();
    assert_eq!(header(&request, "X"), Some(&b"a: b: c"[..]));
    assert_eq!(header(&request, "Y"), Some(&b""[..]));
    assert_eq!(header(&request, ""), Some(&b"z"[..]));
    assert_eq!(request.headers.len(), 3);
}

#[test]
fn duplicate_headers_last_write_wins() {
    let request = parse_request(b"GET / HTTP/1.1\r\nA: 1\r\nB: 2\r\nA: 3\r\n\r\n").unwrap();
    assert_eq!(request.headers.len(), 2);
    assert_eq!(header(&request, "A"), Some(&b"3"[..]));
    assert_eq!(header(&request, "B"), Some(&b"2"[..]));
}

#[test]
fn header_names_are_case_sensitive() {
    let request = parse_request(b"GET / HTTP/1.1\r\ncontent-length: 5\r\n\r\nhello").unwrap();
    assert_eq!(header(&request, "content-length"), Some(&b"5"[..]));
    assert_eq!(header(&request, "Content-Length"), None);
    assert!(request.body.is_empty());
}

#[test]
fn unreadable_content_length_is_a_malformed_header() {
    for value in ["abc", "", "-1", "1.5", " 5", "5 ", "0x10", "99999999999999999999999999"] {
        let input = format!("POST / HTTP/1.1\r\nContent-Length: {}\r\n\r\n", value);
        assert_eq!(parse_request(input.as_bytes()).unwrap_err(), DecodeError::MalformedHeader);
    }
}

#[test]
fn content_length_may_carry_a_plus_sign_and_zeros() {
    let request = parse_request(b"POST / HTTP/1.1\r\nContent-Length: +03\r\n\r\nabcdef").unwrap();
    assert_eq!(request.body, b"abc".to_vec());
}

#[test]
fn malformed_header_is_seen_before_the_head_ends() {
    assert_eq!(
        parse_request(b"POST / HTTP/1.1\r\nContent-Length: x\r\n").unwrap_err(),
        DecodeError::MalformedHeader
    );
}

#[test]
fn malformed_header_comes_before_malformed_request_line() {
    assert_eq!(
        parse_request(b"BAD\r\nContent-Length: x\r\n\r\n").unwrap_err(),
        DecodeError::MalformedHeader
    );
}

#[test]
fn any_unreadable_content_length_is_an_error_even_if_replaced() {
    assert_eq!(
        parse_request(b"POST / HTTP/1.1\r\nContent-Length: x\r\nContent-Length: 1\r\n\r\na")
            .unwrap_err(),
        DecodeError::MalformedHeader
    );
}

#[test]
fn last_content_length_decides() {
    let request =
        parse_request(b"POST / HTTP/1.1\r\nContent-Length: 1\r\nContent-Length: 2\r\n\r\nabc")
            .unwrap();
    assert_eq!(request.body, b"ab".to_vec());
    assert_eq!(header(&request, "Content-Length"), Some(&b"2"[..]));
}

#[test]
fn content_length_in_the_request_line_is_no_header() {
    assert_eq!(
        parse_request(b"Content-Length: 5\r\n\r\nhello").unwrap_err(),
        DecodeError::MalformedRequestLine
    );
    let request = parse_request(b"Content-Length: x y\r\n\r\n").unwrap();
    assert_eq!(request.method, b"Content-Length:".to_vec());
    assert_eq!(request.path, b"x".to_vec());
}

#[test]
fn head_without_empty_line_is_incomplete() {
    assert_eq!(parse_request(b"").unwrap_err(), DecodeError::IncompleteHead);
    assert_eq!(parse_request(b"GET / HT").unwrap_err(), DecodeError::IncompleteHead);
    assert_eq!(parse_request(b"GET / HTTP/1.1\r\n").unwrap_err(), DecodeError::IncompleteHead);
    assert_eq!(
        parse_request(b"GET / HTTP/1.1\r\nHost: x\r\n\r").unwrap_err(),
        DecodeError::IncompleteHead
    );
}

#[test]
fn short_body_is_incomplete() {
    assert_eq!(
        parse_request(b"POST / HTTP/1.1\r\nContent-Length: 10\r\n\r\nabc").unwrap_err(),
        DecodeError::IncompleteBody
    );
    assert_eq!(
        parse_request(b"POST / HTTP/1.1\r\nContent-Length: 1\r\n\r\n").unwrap_err(),
        DecodeError::IncompleteBody
    );
    let huge = format!("POST / HTTP/1.1\r\nContent-Length: {}\r\n\r\nabc", usize::MAX);
    assert_eq!(parse_request(huge.as_bytes()).unwrap_err(), DecodeError::IncompleteBody);
}

#[test]
fn malformed_request_line_comes_before_incomplete_body() {
    assert_eq!(
        parse_request(b"BAD\r\nContent-Length: 10\r\n\r\n").unwrap_err(),
        DecodeError::MalformedRequestLine
    );
}

#[test]
fn decoding_succeeds_once_all_bytes_are_there() {
    let full = b"POST /x HTTP/1.1\r\nContent-Length: 4\r\n\r\nbody";
    for cut in 0..full.len() {
        let result = parse_request(&full[..cut]);
        assert!(matches!(
            result,
            Err(DecodeError::IncompleteHead) | Err(DecodeError::IncompleteBody)
        ));
    }
    assert_eq!(parse_request(full).unwrap().body, b"body".to_vec());
}

#[test]
fn carriage_returns_before_the_line_end_are_trimmed() {
    let request = parse_request(b"GET / HTTP/1.1\r\r\nA: b\r\r\r\n\r\n").unwrap();
    assert_eq!(header(&request, "A"), Some(&b"b"[..]));
    let inner = parse_request(b"GET / HTTP/1.1\r\nA: b\rc\r\n\r\n").unwrap();
    assert_eq!(header(&inner, "A"), Some(&b"b\rc"[..]));
}

#[test]
fn read_head_reports_lines_and_length() {
    let head = read_head(b"a b c\r\nX: y\r\n\r\nrest");
    assert_eq!(head.lines, vec![b"a b c".to_vec(), b"X: y".to_vec()]);
    assert!(head.terminated);
    assert_eq!(head.length, 15);
    let open = read_head(b"a b c\r\nX: y\r\npartial");
    assert_eq!(open.lines.len(), 2);
    assert!(!open.terminated);
    assert_eq!(open.length, 13);
    let nothing = read_head(b"no line end");
    assert!(nothing.lines.is_empty());
    assert!(!nothing.terminated);
}

#[test]
fn split_tokens_gives_runs_between_whitespace() {
    assert_eq!(split_tokens(b"GET / HTTP/1.1"), vec![b"GET".to_vec(), b"/".to_vec(), b"HTTP/1.1".to_vec()]);
    assert_eq!(split_tokens(b"\t a\x0b\x0cb\r"), vec![b"a".to_vec(), b"b".to_vec()]);
    assert_eq!(split_tokens(b""), Vec::<Vec<u8>>::new());
    assert_eq!(split_tokens(b"   "), Vec::<Vec<u8>>::new());
    assert_eq!(split_tokens(b"a\xc2\xa0b"), vec![b"a".to_vec(), b"b".to_vec()]);
}

#[test]
fn split_tokens_agrees_with_split_whitespace() {
    let samples = [
        "GET / HTTP/1.1",
        " a\u{85}b\u{a0}c\u{1680}d ",
        "\u{2000}a\u{2001}\u{2002}b\u{2003}c\u{2004}d\u{2005}e\u{2006}f\u{2007}g\u{2008}h\u{2009}i\u{200a}j",
        "a\u{2028}b\u{2029}c\u{202f}d\u{205f}e\u{3000}f",
        "zero\u{200b}width\u{feff}joined\u{180e}too",
        "caf\u{e9} \u{e2}\u{20ac}\u{1f600} \u{3001}x",
        "\u{c2}\u{85} \u{e1}\u{9a}\u{80}",
        "tab\tvt\u{b}ff\u{c}cr\rlf\nend",
        "\u{1c}\u{1d}\u{1e}\u{1f}x",
        "",
    ];
    for sample in samples {
        let expected: Vec<Vec<u8>> =
            sample.split_whitespace().map(|t| t.as_bytes().to_vec()).collect();
        assert_eq!(split_tokens(sample.as_bytes()), expected, "{:?}", sample);
    }
}

#[test]
fn whitespace_at_gives_the_width() {
    assert_eq!(whitespace_at(b" x", 0), 1);
    assert_eq!(whitespace_at(b" x", 1), 0);
    assert_eq!(whitespace_at(b" x", 2), 0);
    assert_eq!(whitespace_at("\u{a0}".as_bytes(), 0), 2);
    assert_eq!(whitespace_at("\u{a0}".as_bytes(), 1), 0);
    assert_eq!(whitespace_at("x\u{3000}".as_bytes(), 1), 3);
    assert_eq!(whitespace_at(&[0xE2, 0x80], 0), 0);
    assert_eq!(whitespace_at(&[0xE2, 0x80, 0x8B], 0), 0);
    assert_eq!(whitespace_at(&[0xE2, 0x80, 0x8A], 0), 3);
    assert_eq!(whitespace_at(&[0xC2], 0), 0);
}

#[test]
fn request_line_may_use_unicode_whitespace() {
    let request = parse_request("GET\u{a0}/x\u{3000}HTTP/1.1\r\n\r\n".as_bytes()).unwrap();
    assert_eq!(request.method, b"GET".to_vec());
    assert_eq!(request.path, b"/x".to_vec());
}

#[test]
fn split_header_line_cuts_at_first_separator() {
    assert_eq!(split_header_line(b"Host: x"), Some((b"Host".to_vec(), b"x".to_vec())));
    assert_eq!(split_header_line(b"a: b: c"), Some((b"a".to_vec(), b"b: c".to_vec())));
    assert_eq!(split_header_line(b": "), Some((Vec::new(), Vec::new())));
    assert_eq!(split_header_line(b"a:b"), None);
    assert_eq!(split_header_line(b"a:"), None);
    assert_eq!(split_header_line(b""), None);
}

#[test]
fn trimmed_line_drops_line_end_bytes() {
    assert_eq!(trimmed_line(b"abc\r\n", 0, 5), b"abc".to_vec());
    assert_eq!(trimmed_line(b"abc\r\r", 0, 5), b"abc".to_vec());
    assert_eq!(trimmed_line(b"a\rb", 0, 3), b"a\rb".to_vec());
    assert_eq!(trimmed_line(b"\r\n", 0, 2), Vec::<u8>::new());
    assert_eq!(trimmed_line(b"xxabc\ryy", 2, 6), b"abc".to_vec());
}

#[test]
fn read_fields_builds_headers_and_length() {
    let lines = vec![
        b"Content-Length: 9 (the request line is no header)".to_vec(),
        b"A: 1".to_vec(),
        b"dropped".to_vec(),
        b"Content-Length: 12".to_vec(),
        b"A: 2".to_vec(),
    ];
    let (headers, length) = read_fields(&lines).unwrap();
    assert_eq!(length, 12);
    assert_eq!(headers.len(), 2);
    assert_eq!(headers.get(b"A"), Some(&b"2".to_vec()));
    assert_eq!(headers.get(b"Content-Length"), Some(&b"12".to_vec()));
    let (none, zero) = read_fields(&Vec::new()).unwrap();
    assert_eq!((none.len(), zero), (0, 0));
    let bad = vec![b"x".to_vec(), b"Content-Length: twelve".to_vec()];
    assert_eq!(read_fields(&bad).unwrap_err(), DecodeError::MalformedHeader);
}
