//! The parsed form of one access-log line.

use vstd::prelude::*;

use crate::text::{decimal, push_decimal};

verus! {

/// A wall-clock time with its UTC offset, in the conventions of a C `struct tm`:
/// `mon` counts months from zero and `year` counts years from 1900.
#[derive(Clone, Copy, Debug, PartialEq, Eq, Structural)]
pub struct LocalTime {
    pub sec: i32,
    pub min: i32,
    pub hour: i32,
    pub mday: i32,
    pub mon: i32,
    pub year: i32,
    /// Offset from UTC in seconds, east positive.
    pub utcoff: i32,
}

impl LocalTime {
    /// Each field lies in the range that the log's time format can produce.
    pub open spec fn wf(self) -> bool {
        &&& 0 <= self.sec <= 60
        &&& 0 <= self.min <= 59
        &&& 0 <= self.hour <= 23
        &&& 1 <= self.mday <= 31
        &&& 0 <= self.mon <= 11
        &&& -1900 <= self.year <= 8099
        &&& -(99 * 3600 + 99 * 60) <= self.utcoff <= 99 * 3600 + 99 * 60
    }

    /// Checks `wf`.
    pub fn is_wf(&self) -> (r: bool)
        ensures
            r == self.wf(),
    {
        0 <= self.sec && self.sec <= 60 && 0 <= self.min && self.min <= 59 && 0 <= self.hour
            && self.hour <= 23 && 1 <= self.mday && self.mday <= 31 && 0 <= self.mon && self.mon
            <= 11 && -1900 <= self.year && self.year <= 8099 && -(99 * 3600 + 99 * 60)
            <= self.utcoff && self.utcoff <= 99 * 3600 + 99 * 60
    }
}

/// The human description of an HTTP status code ("Unknown" when it has none).
pub open spec fn status_description(code: u16) -> Seq<char> {
    if code == 100 { "Continue"@ }
    else if code == 101 { "Switching Protocols"@ }
    else if code == 200 { "OK"@ }
    else if code == 201 { "Created"@ }
    else if code == 202 { "Accepted"@ }
    else if code == 203 { "Non-Authoritative Information"@ }
    else if code == 204 { "No Content"@ }
    else if code == 205 { "Reset Content"@ }
    else if code == 206 { "Partial Content"@ }
    else if code == 300 { "Multiple Choices"@ }
    else if code == 301 { "Moved Permanently"@ }
    else if code == 302 { "Found"@ }
    else if code == 303 { "See Other"@ }
    else if code == 304 { "Not Modified"@ }
    else if code == 305 { "Use Proxy"@ }
    else if code == 307 { "Temporary Redirect"@ }
    else if code == 308 { "Permanent Redirect"@ }
    else if code == 400 { "Bad Request"@ }
    else if code == 401 { "Unauthorized"@ }
    else if code == 402 { "Payment Required"@ }
    else if code == 403 { "Forbidden"@ }
    else if code == 404 { "Not Found"@ }
    else if code == 405 { "Method Not Allowed"@ }
    else if code == 406 { "Not Acceptable"@ }
    else if code == 407 { "Proxy Authentication Required"@ }
    else if code == 408 { "Request Timeout"@ }
    else if code == 409 { "Conflict"@ }
    else if code == 410 { "Gone"@ }
    else if code == 411 { "Length Required"@ }
    else if code == 412 { "Precondition Failed"@ }
    else if code == 413 { "Request Entity Too Large"@ }
    else if code == 414 { "Request-URI Too Long"@ }
    else if code == 415 { "Unsupported Media Type"@ }
    else if code == 416 { "Requested Range Not Satisfiable"@ }
    else if code == 417 { "Expectation Failed"@ }
    else if code == 429 { "Too Many Requests"@ }
    else if code == 444 { "No Response"@ }
    else if code == 499 { "Client Closed Request"@ }
    else if code == 500 { "Internal Server Error"@ }
    else if code == 501 { "Not Implemented"@ }
    else if code == 502 { "Bad Gateway"@ }
    else if code == 503 { "Service Unavailable"@ }
    else if code == 504 { "Gateway Timeout"@ }
    else if code == 505 { "HTTP Version Not Supported"@ }
    else { "Unknown"@ }
}

/// Looks up the human description of an HTTP status code.
pub fn http_status_description(code: u16) -> (r: &'static str)
    ensures
        r@ == status_description(code),
{
    if code == 100 { "Continue" }
    else if code == 101 { "Switching Protocols" }
    else if code == 200 { "OK" }
    else if code == 201 { "Created" }
    else if code == 202 { "Accepted" }
    else if code == 203 { "Non-Authoritative Information" }
    else if code == 204 { "No Content" }
    else if code == 205 { "Reset Content" }
    else if code == 206 { "Partial Content" }
    else if code == 300 { "Multiple Choices" }
    else if code == 301 { "Moved Permanently" }
    else if code == 302 { "Found" }
    else if code == 303 { "See Other" }
    else if code == 304 { "Not Modified" }
    else if code == 305 { "Use Proxy" }
    else if code == 307 { "Temporary Redirect" }
    else if code == 308 { "Permanent Redirect" }
    else if code == 400 { "Bad Request" }
    else if code == 401 { "Unauthorized" }
    else if code == 402 { "Payment Required" }
    else if code == 403 { "Forbidden" }
    else if code == 404 { "Not Found" }
    else if code == 405 { "Method Not Allowed" }
    else if code == 406 { "Not Acceptable" }
    else if code == 407 { "Proxy Authentication Required" }
    else if code == 408 { "Request Timeout" }
    else if code == 409 { "Conflict" }
    else if code == 410 { "Gone" }
    else if code == 411 { "Length Required" }
    else if code == 412 { "Precondition Failed" }
    else if code == 413 { "Request Entity Too Large" }
    else if code == 414 { "Request-URI Too Long" }
    else if code == 415 { "Unsupported Media Type" }
    else if code == 416 { "Requested Range Not Satisfiable" }
    else if code == 417 { "Expectation Failed" }
    else if code == 429 { "Too Many Requests" }
    else if code == 444 { "No Response" }
    else if code == 499 { "Client Closed Request" }
    else if code == 500 { "Internal Server Error" }
    else if code == 501 { "Not Implemented" }
    else if code == 502 { "Bad Gateway" }
    else if code == 503 { "Service Unavailable" }
    else if code == 504 { "Gateway Timeout" }
    else if code == 505 { "HTTP Version Not Supported" }
    else { "Unknown" }
}

/// An HTTP status code.
#[derive(Clone, Copy, Debug, PartialEq, Eq, Hash, Structural)]
pub struct HTTPStatus {
    pub status: u16,
}

/// How a status is shown: the code, a space, and its description.
pub open spec fn status_text(code: u16) -> Seq<char> {
    decimal(code as nat) + seq![' '] + status_description(code)
}

impl HTTPStatus {
    pub fn new(status: u16) -> (r: HTTPStatus)
        ensures
            r.status == status,
    {
        HTTPStatus { status }
    }

    /// The description of this status ("Not Found" for 404).
    pub fn description(&self) -> (r: &'static str)
        ensures
            r@ == status_description(self.status),
    {
        http_status_description(self.status)
    }

    /// The code followed by its description ("404 Not Found").
    pub fn to_text(&self) -> (r: String)
        ensures
            r@ == status_text(self.status),
    {
        let mut s = String::new();
        push_decimal(&mut s, self.status as u64);
        proof { reveal_strlit(" "); }
        s.append(" ");
        s.append(http_status_description(self.status));
        assert(s@ =~= status_text(self.status));
        s
    }
}

/// What a log record holds, as plain values.
pub ghost struct RecordView {
    pub remote_addr: Seq<char>,
    pub user: Seq<char>,
    pub local_time: LocalTime,
    pub host: Seq<char>,
    pub request_time: u64,
    pub method: Seq<char>,
    pub path: Seq<char>,
    pub status: u16,
    pub sent_bytes: u64,
    pub referer: Seq<char>,
    pub user_agent: Seq<char>,
}

/// One access-log line, parsed. The text fields are copies of parts of the line.
#[derive(Clone, Debug)]
pub struct HTTPLogRecord {
    pub remote_addr: String,
    pub user: String,
    pub local_time: LocalTime,
    pub host: String,
    /// Request time in milliseconds.
    pub request_time: u64,
    pub method: String,
    pub path: String,
    pub status: HTTPStatus,
    pub sent_bytes: u64,
    pub referer: String,
    pub user_agent: String,
}

impl View for HTTPLogRecord {
    type V = RecordView;

    open spec fn view(&self) -> RecordView {
        RecordView {
            remote_addr: self.remote_addr@,
            user: self.user@,
            local_time: self.local_time,
            host: self.host@,
            request_time: self.request_time,
            method: self.method@,
            path: self.path@,
            status: self.status.status,
            sent_bytes: self.sent_bytes,
            referer: self.referer@,
            user_agent: self.user_agent@,
        }
    }
}

/// What went wrong in a line that could not be parsed.
#[derive(Clone, Copy, Debug, PartialEq, Eq, Structural)]
pub enum ParseErrorKind {
    /// A field, or the delimiter that ends it, is missing.
    Incomplete,
    /// The request time has no decimal point.
    InvalidRequestTime,
    /// A numeric field holds something other than a number that fits.
    InvalidNumber,
    /// The bracketed time does not follow the time format.
    InvalidTime,
}

/// A line that could not be parsed, and why.
#[derive(Clone, Debug)]
pub struct LineParseError {
    pub kind: ParseErrorKind,
    /// The whole offending line.
    pub line: String,
}

/// A consumer of parsed records.
pub trait LogProcessor {
    /// Whether `record` may be handed to this processor in its current state.
    spec fn accepts(&self, record: &HTTPLogRecord) -> bool;

    fn process(&mut self, record: HTTPLogRecord)
        requires
            old(self).accepts(&record),
    ;
}

} // verus!
