use httpstat::log::{HTTPStatus, ParseErrorKind};
use httpstat::nginx::NginxLogParser;

const LINE: &str = "10.0.0.1 alice [01/Dec/2014:10:20:30 +0300] example.com | 1.250 \"GET /index.html HTTP/1.1\" 200 5120 \"http://ref.example/\" \"Mozilla/5.0 (X11)\"";

#[test]
fn parses_every_field_of_a_line() {
    let parser = NginxLogParser::new();
    let rec = parser.parse(LINE).unwrap();
    assert_eq!(rec.remote_addr, "10.0.0.1");
    assert_eq!(rec.user, "alice");
    assert_eq!(rec.host, "example.com");
    assert_eq!(rec.request_time, 1250);
    assert_eq!(rec.method, "GET");
    assert_eq!(rec.path, "/index.html");
    assert_eq!(rec.status.status, 200);
    assert_eq!(rec.sent_bytes, 5120);
    assert_eq!(rec.referer, "http://ref.example/");
    assert_eq!(rec.user_agent, "Mozilla/5.0 (X11)");
    let t = rec.local_time;
    assert_eq!((t.mday, t.mon, t.year), (1, 11, 114));
    assert_eq!((t.hour, t.min, t.sec), (10, 20, 30));
    assert_eq!(t.utcoff, 3 * 3600);
}

#[test]
fn fields_are_taken_verbatim() {
    let parser = NginxLogParser::new();
    let line = "  ::1   -   [05/Jan/2015:23:59:60 -0130] h.example | 0.7 \"POST  /a%20b?x=1 HTTP/1.0\" 404 0 \"-\" \"-\"";
    let rec = parser.parse(line).unwrap();
    assert_eq!(rec.remote_addr, "::1");
    assert_eq!(rec.user, "-");
    assert_eq!(rec.request_time, 7);
    assert_eq!(rec.method, "POST");
    assert_eq!(rec.path, "/a%20b?x=1");
    assert_eq!(rec.referer, "-");
    assert_eq!(rec.user_agent, "-");
    assert_eq!(rec.local_time.utcoff, -(3600 + 30 * 60));
    assert_eq!(rec.local_time.sec, 60);
    for field in [&rec.remote_addr, &rec.user, &rec.host, &rec.method, &rec.path, &rec.referer, &rec.user_agent] {
        assert!(line.contains(field.as_str()));
    }
}

#[test]
fn request_with_too_few_tokens_defaults_the_missing_ones() {
    let parser = NginxLogParser::new();
    let empty = parser
        .parse("a b [01/Dec/2014:10:20:30 +0000] h | 0.001 \"\" 400 0 \"-\" \"-\"")
        .unwrap();
    assert_eq!(empty.method, "");
    assert_eq!(empty.path, "");
    let one = parser
        .parse("a b [01/Dec/2014:10:20:30 +0000] h | 0.001 \"GET\" 400 0 \"-\" \"-\"")
        .unwrap();
    assert_eq!(one.method, "GET");
    assert_eq!(one.path, "");
    let two = parser
        .parse("a b [01/Dec/2014:10:20:30 +0000] h | 0.001 \"GET /x\" 400 0 \"-\" \"-\"")
        .unwrap();
    assert_eq!(two.method, "GET");
    assert_eq!(two.path, "/x");
    let spaced = parser
        .parse("a b [01/Dec/2014:10:20:30 +0000] h | 0.001 \"  GET   /y  \" 400 0 \"-\" \"-\"")
        .unwrap();
    assert_eq!(spaced.method, "GET");
    assert_eq!(spaced.path, "/y");
    let blank = parser
        .parse("a b [01/Dec/2014:10:20:30 +0000] h | 0.001 \"   \" 400 0 \"-\" \"-\"")
        .unwrap();
    assert_eq!(blank.method, "");
    assert_eq!(blank.path, "");
}

#[test]
fn missing_closing_bracket_is_an_error_with_the_line() {
    let parser = NginxLogParser::new();
    let line = "10.0.0.1 alice [01/Dec/2014:10:20:30 +0300 example.com | 1.250 \"GET / HTTP/1.1\" 200 5 \"-\" \"-\"";
    let err = parser.parse(line).unwrap_err();
    assert_eq!(err.kind, ParseErrorKind::Incomplete);
    assert_eq!(err.line, line);
}

#[test]
fn unparsable_time_is_an_error() {
    let parser = NginxLogParser::new();
    let line = "a b [01/Foo/2014:10:20:30 +0300] h | 1.250 \"GET / HTTP/1.1\" 200 5 \"-\" \"-\"";
    let err = parser.parse(line).unwrap_err();
    assert_eq!(err.kind, ParseErrorKind::InvalidTime);
    assert_eq!(err.line, line);
    let line = "a b [01/Dec/2014:24:20:30 +0300] h | 1.250 \"GET / HTTP/1.1\" 200 5 \"-\" \"-\"";
    assert_eq!(parser.parse(line).unwrap_err().kind, ParseErrorKind::InvalidTime);
}

#[test]
fn request_time_needs_a_point_and_digits() {
    let parser = NginxLogParser::new();
    let no_point = "a b [01/Dec/2014:10:20:30 +0300] h | 1250 \"GET / HTTP/1.1\" 200 5 \"-\" \"-\"";
    assert_eq!(parser.parse(no_point).unwrap_err().kind, ParseErrorKind::InvalidRequestTime);
    let no_digits = "a b [01/Dec/2014:10:20:30 +0300] h | 1. \"GET / HTTP/1.1\" 200 5 \"-\" \"-\"";
    assert_eq!(parser.parse(no_digits).unwrap_err().kind, ParseErrorKind::InvalidNumber);
    let too_big = "a b [01/Dec/2014:10:20:30 +0300] h | 18446744073709551.616 \"GET / HTTP/1.1\" 200 5 \"-\" \"-\"";
    assert_eq!(parser.parse(too_big).unwrap_err().kind, ParseErrorKind::InvalidNumber);
    let fits = "a b [01/Dec/2014:10:20:30 +0300] h | 18446744073709551.615 \"GET / HTTP/1.1\" 200 5 \"-\" \"-\"";
    assert_eq!(parser.parse(fits).unwrap().request_time, u64::MAX);
}

#[test]
fn non_numeric_status_or_size_is_an_error() {
    let parser = NginxLogParser::new();
    let status = "a b [01/Dec/2014:10:20:30 +0300] h | 1.250 \"GET / HTTP/1.1\" 2x0 5 \"-\" \"-\"";
    assert_eq!(parser.parse(status).unwrap_err().kind, ParseErrorKind::InvalidNumber);
    let size = "a b [01/Dec/2014:10:20:30 +0300] h | 1.250 \"GET / HTTP/1.1\" 200 -5 \"-\" \"-\"";
    assert_eq!(parser.parse(size).unwrap_err().kind, ParseErrorKind::InvalidNumber);
}

#[test]
fn missing_quotes_or_fields_are_incomplete() {
    let parser = NginxLogParser::new();
    assert_eq!(parser.parse("").unwrap_err().kind, ParseErrorKind::Incomplete);
    assert_eq!(parser.parse("10.0.0.1").unwrap_err().kind, ParseErrorKind::Incomplete);
    let no_agent = "a b [01/Dec/2014:10:20:30 +0300] h | 1.250 \"GET / HTTP/1.1\" 200 5 \"-\"";
    assert_eq!(parser.parse(no_agent).unwrap_err().kind, ParseErrorKind::Incomplete);
    let open_agent = "a b [01/Dec/2014:10:20:30 +0300] h | 1.250 \"GET / HTTP/1.1\" 200 5 \"-\" \"Moz";
    assert_eq!(parser.parse(open_agent).unwrap_err().kind, ParseErrorKind::Incomplete);
    let unquoted = "a b [01/Dec/2014:10:20:30 +0300] h | 1.250 GET / HTTP/1.1 200 5 \"-\" \"-\"";
    assert_eq!(parser.parse(unquoted).unwrap_err().kind, ParseErrorKind::Incomplete);
}

#[test]
fn status_codes_carry_descriptions() {
    assert_eq!(HTTPStatus::new(404).to_text(), "404 Not Found");
    assert_eq!(HTTPStatus::new(200).description(), "OK");
    assert_eq!(HTTPStatus::new(299).to_text(), "299 Unknown");
    let parser = NginxLogParser::new();
    let largest = "a b [01/Dec/2014:10:20:30 +0300] h | 1.250 \"GET / HTTP/1.1\" 65535 5 \"-\" \"-\"";
    assert_eq!(parser.parse(largest).unwrap().status.status, 65535);
    let too_big = "a b [01/Dec/2014:10:20:30 +0300] h | 1.250 \"GET / HTTP/1.1\" 65736 5 \"-\" \"-\"";
    assert_eq!(parser.parse(too_big).unwrap_err().kind, ParseErrorKind::InvalidNumber);
}
