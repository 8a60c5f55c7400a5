//! The line parser: one forward pass over a log line with a cursor, taking
//! space-separated tokens, a bracketed time and quoted fields in a fixed order.

use vstd::prelude::*;

use crate::clock::{strptime, strptime_of, LOG_TIME_FORMAT};
use crate::log::{HTTPLogRecord, HTTPStatus, LineParseError, LocalTime, ParseErrorKind, RecordView};
use crate::text::chars_of;

verus! {

/// The first position at or after `p` that is not a space, or `end`.
pub open spec fn skip_spaces(s: Seq<char>, p: int, end: int) -> int
    decreases end - p,
{
    if p < end && s[p] == ' ' {
        skip_spaces(s, p + 1, end)
    } else {
        p
    }
}

/// The first position in `p..end` that holds `c`.
pub open spec fn find_char(s: Seq<char>, p: int, end: int, c: char) -> Option<int>
    decreases end - p,
{
    if p >= end {
        None
    } else if s[p] == c {
        Some(p)
    } else {
        find_char(s, p + 1, end, c)
    }
}

/// The span of the token that starts after the spaces at `p` and ends at the
/// next space before `end`; the space itself is consumed with it.
pub open spec fn token(s: Seq<char>, p: int, end: int) -> Option<(int, int)> {
    let q = skip_spaces(s, p, end);
    match find_char(s, q, end, ' ') {
        Some(e) => Some((q, e)),
        None => None,
    }
}

/// A token of the line, which must be there.
pub open spec fn field_of(s: Seq<char>, p: int) -> Result<(int, int), ParseErrorKind> {
    match token(s, p, s.len() as int) {
        Some(span) => Ok(span),
        None => Err(ParseErrorKind::Incomplete),
    }
}

/// The span of the text between `open`, which must come first after the
/// spaces at `p`, and the next `close`.
pub open spec fn delimited_of(s: Seq<char>, p: int, open: char, close: char) -> Result<
    (int, int),
    ParseErrorKind,
> {
    let q = skip_spaces(s, p, s.len() as int);
    if q < s.len() && s[q] == open {
        match find_char(s, q + 1, s.len() as int, close) {
            Some(e) => Ok((q + 1, e)),
            None => Err(ParseErrorKind::Incomplete),
        }
    } else {
        Err(ParseErrorKind::Incomplete)
    }
}

/// A decimal digit.
pub open spec fn is_digit(c: char) -> bool {
    48 <= (c as u32) && (c as u32) <= 57
}

/// The value of a string of decimal digits.
pub open spec fn digits_value(t: Seq<char>) -> nat
    decreases t.len(),
{
    if t.len() == 0 {
        0
    } else {
        digits_value(t.drop_last()) * 10 + ((t.last() as u32) - 48) as nat
    }
}

/// The number that `t` spells: one or more decimal digits whose value fits in 64 bits.
pub open spec fn number_of(t: Seq<char>) -> Option<u64> {
    if t.len() > 0 && (forall|i: int| 0 <= i < t.len() ==> is_digit(#[trigger] t[i]))
        && digits_value(t) <= u64::MAX {
        Some(digits_value(t) as u64)
    } else {
        None
    }
}

/// A numeric token of the line.
pub open spec fn int_of(s: Seq<char>, p: int) -> Result<(u64, int), ParseErrorKind> {
    match field_of(s, p) {
        Err(k) => Err(k),
        Ok((a, e)) => match number_of(s.subrange(a, e)) {
            Some(n) => Ok((n, e + 1)),
            None => Err(ParseErrorKind::InvalidNumber),
        },
    }
}

/// The status code of the line, which must fit in 16 bits.
pub open spec fn status_of(s: Seq<char>, p: int) -> Result<(u16, int), ParseErrorKind> {
    match int_of(s, p) {
        Err(k) => Err(k),
        Ok((n, q)) => if n <= u16::MAX {
            Ok((n as u16, q))
        } else {
            Err(ParseErrorKind::InvalidNumber)
        },
    }
}

/// The bracketed time of the line.
pub open spec fn local_time_of(s: Seq<char>, p: int) -> Result<(LocalTime, int), ParseErrorKind> {
    match delimited_of(s, p, '[', ']') {
        Err(k) => Err(k),
        Ok((a, e)) => match strptime_of(s.subrange(a, e), LOG_TIME_FORMAT@) {
            Some(t) => Ok((t, e + 1)),
            None => Err(ParseErrorKind::InvalidTime),
        },
    }
}

/// The request time token, `seconds.milliseconds`, in milliseconds.
pub open spec fn request_time_of(s: Seq<char>, p: int) -> Result<(u64, int), ParseErrorKind> {
    match field_of(s, p) {
        Err(k) => Err(k),
        Ok((a, e)) => match find_char(s, a, e, '.') {
            None => Err(ParseErrorKind::InvalidRequestTime),
            Some(d) => match (number_of(s.subrange(a, d)), number_of(s.subrange(d + 1, e))) {
                (Some(sec), Some(msec)) => if sec * 1000 + msec <= u64::MAX {
                    Ok(((sec * 1000 + msec) as u64, e + 1))
                } else {
                    Err(ParseErrorKind::InvalidNumber)
                },
                _ => Err(ParseErrorKind::InvalidNumber),
            },
        },
    }
}

/// The span of the word at or after `p` within `p..end`: it starts after the
/// spaces and ends at the next space or at `end`. Where only spaces are left
/// it is empty.
pub open spec fn word(s: Seq<char>, p: int, end: int) -> (int, int) {
    let q = skip_spaces(s, p, end);
    match find_char(s, q, end, ' ') {
        Some(w) => (q, w),
        None => (q, end),
    }
}

/// The method and path within the quoted request `a..e`: its first two
/// words, each empty where it is missing; later words are not kept.
pub open spec fn request_parts(s: Seq<char>, a: int, e: int) -> ((int, int), (int, int)) {
    let method = word(s, a, e);
    (method, word(s, method.1, e))
}

/// The quoted request of the line, split into method and path.
pub open spec fn method_path_of(s: Seq<char>, p: int) -> Result<
    ((int, int), (int, int), int),
    ParseErrorKind,
> {
    match delimited_of(s, p, '"', '"') {
        Err(k) => Err(k),
        Ok((a, e)) => Ok((request_parts(s, a, e).0, request_parts(s, a, e).1, e + 1)),
    }
}

/// The text of a span.
pub open spec fn span_text(s: Seq<char>, span: (int, int)) -> Seq<char> {
    s.subrange(span.0, span.1)
}

/// The record that a line holds, or why it holds none.
pub open spec fn record_of(s: Seq<char>) -> Result<RecordView, ParseErrorKind> {
    match field_of(s, 0) {
        Err(k) => Err(k),
        Ok(addr) => match field_of(s, addr.1 + 1) {
            Err(k) => Err(k),
            Ok(user) => match local_time_of(s, user.1 + 1) {
                Err(k) => Err(k),
                Ok((time, p_time)) => match field_of(s, p_time) {
                    Err(k) => Err(k),
                    Ok(host) => match field_of(s, host.1 + 1) {
                        Err(k) => Err(k),
                        Ok(pipe) => match request_time_of(s, pipe.1 + 1) {
                            Err(k) => Err(k),
                            Ok((request_time, p_rt)) => match method_path_of(s, p_rt) {
                                Err(k) => Err(k),
                                Ok((method, path, p_req)) => match status_of(s, p_req) {
                                    Err(k) => Err(k),
                                    Ok((status, p_status)) => match int_of(s, p_status) {
                                        Err(k) => Err(k),
                                        Ok((sent_bytes, p_sent)) => match delimited_of(
                                            s,
                                            p_sent,
                                            '"',
                                            '"',
                                        ) {
                                            Err(k) => Err(k),
                                            Ok(referer) => match delimited_of(
                                                s,
                                                referer.1 + 1,
                                                '"',
                                                '"',
                                            ) {
                                                Err(k) => Err(k),
                                                Ok(user_agent) => Ok(
                                                    RecordView {
                                                        remote_addr: span_text(s, addr),
                                                        user: span_text(s, user),
                                                        local_time: time,
                                                        host: span_text(s, host),
                                                        request_time,
                                                        method: span_text(s, method),
                                                        path: span_text(s, path),
                                                        status,
                                                        sent_bytes,
                                                        referer: span_text(s, referer),
                                                        user_agent: span_text(s, user_agent),
                                                    },
                                                ),
                                            },
                                        },
                                    },
                                },
                            },
                        },
                    },
                },
            },
        },
    }
}

fn skip_spaces_exec(chars: &Vec<char>, p: usize, end: usize) -> (r: usize)
    requires
        p <= end <= chars.len(),
    ensures
        r == skip_spaces(chars@, p as int, end as int),
        p <= r <= end,
{
    let mut i = p;
    while i < end && chars[i] == ' '
        invariant
            p <= i <= end <= chars.len(),
            skip_spaces(chars@, i as int, end as int) == skip_spaces(chars@, p as int, end as int),
        decreases end - i,
    {
        i = i + 1;
    }
    i
}

fn find_char_exec(chars: &Vec<char>, p: usize, end: usize, c: char) -> (r: Option<usize>)
    requires
        p <= end <= chars.len(),
    ensures
        find_char(chars@, p as int, end as int, c) == match r {
            Some(e) => Some(e as int),
            None => None::<int>,
        },
        r matches Some(e) ==> p <= e < end,
{
    let mut i = p;
    while i < end
        invariant
            p <= i <= end <= chars.len(),
            find_char(chars@, i as int, end as int, c) == find_char(
                chars@,
                p as int,
                end as int,
                c,
            ),
        decreases end - i,
    {
        if chars[i] == c {
            return Some(i);
        }
        i = i + 1;
    }
    None
}

/// The span of the next space-terminated token before `end`.
fn get_field_in(chars: &Vec<char>, p: usize, end: usize) -> (r: Option<(usize, usize)>)
    requires
        p <= end <= chars.len(),
    ensures
        token(chars@, p as int, end as int) == match r {
            Some((a, e)) => Some((a as int, e as int)),
            None => None::<(int, int)>,
        },
        r matches Some((a, e)) ==> p <= a <= e < end,
{
    let q = skip_spaces_exec(chars, p, end);
    match find_char_exec(chars, q, end, ' ') {
        Some(e) => Some((q, e)),
        None => None,
    }
}

/// The span of the next token of the line.
fn get_field(chars: &Vec<char>, p: usize) -> (r: Result<(usize, usize), ParseErrorKind>)
    requires
        p <= chars.len(),
    ensures
        field_of(chars@, p as int) == match r {
            Ok((a, e)) => Ok((a as int, e as int)),
            Err(k) => Err::<(int, int), ParseErrorKind>(k),
        },
        r matches Ok((a, e)) ==> p <= a <= e < chars.len(),
{
    match get_field_in(chars, p, chars.len()) {
        Some(span) => Ok(span),
        None => Err(ParseErrorKind::Incomplete),
    }
}

/// The span of the next word before `end`, which a space or `end` closes.
fn get_field_or(chars: &Vec<char>, p: usize, end: usize) -> (r: (usize, usize))
    requires
        p <= end <= chars.len(),
    ensures
        word(chars@, p as int, end as int) == (r.0 as int, r.1 as int),
        p <= r.0 <= r.1 <= end,
{
    let q = skip_spaces_exec(chars, p, end);
    match find_char_exec(chars, q, end, ' ') {
        Some(w) => (q, w),
        None => (q, end),
    }
}

/// Where the line goes on after the next token, which is not kept.
fn skip_field(chars: &Vec<char>, p: usize) -> (r: Result<usize, ParseErrorKind>)
    requires
        p <= chars.len(),
    ensures
        match field_of(chars@, p as int) {
            Ok((a, e)) => r matches Ok(n) && n == e + 1,
            Err(k) => r == Err::<usize, ParseErrorKind>(k),
        },
        r matches Ok(n) ==> n <= chars.len(),
{
    match get_field(chars, p) {
        Ok((_, e)) => Ok(e + 1),
        Err(k) => Err(k),
    }
}

/// The span between `open` and the next `close`.
fn get_delimited_field(chars: &Vec<char>, p: usize, open: char, close: char) -> (r: Result<
    (usize, usize),
    ParseErrorKind,
>)
    requires
        p <= chars.len(),
    ensures
        delimited_of(chars@, p as int, open, close) == match r {
            Ok((a, e)) => Ok((a as int, e as int)),
            Err(k) => Err::<(int, int), ParseErrorKind>(k),
        },
        r matches Ok((a, e)) ==> p < a <= e < chars.len(),
{
    let q = skip_spaces_exec(chars, p, chars.len());
    if q < chars.len() && chars[q] == open {
        match find_char_exec(chars, q + 1, chars.len(), close) {
            Some(e) => Ok((q + 1, e)),
            None => Err(ParseErrorKind::Incomplete),
        }
    } else {
        Err(ParseErrorKind::Incomplete)
    }
}

proof fn lemma_digits_value_prefix(t: Seq<char>, k: int)
    requires
        0 <= k <= t.len(),
        forall|i: int| 0 <= i < t.len() ==> is_digit(#[trigger] t[i]),
    ensures
        digits_value(t.take(k)) <= digits_value(t),
    decreases t.len(),
{
    if k < t.len() {
        let u = t.drop_last();
        assert(u.take(k) =~= t.take(k));
        assert forall|i: int| 0 <= i < u.len() implies is_digit(#[trigger] u[i]) by {
            assert(u[i] == t[i]);
        }
        lemma_digits_value_prefix(u, k);
    } else {
        assert(t.take(k) =~= t);
    }
}

/// The number spelled by `chars[a..e]`.
pub(crate) fn parse_number(chars: &Vec<char>, a: usize, e: usize) -> (r: Option<u64>)
    requires
        a <= e <= chars.len(),
    ensures
        r == number_of(chars@.subrange(a as int, e as int)),
{
    let ghost t = chars@.subrange(a as int, e as int);
    if a == e {
        return None;
    }
    let mut value: u64 = 0;
    let mut i = a;
    while i < e
        invariant
            a <= i <= e <= chars.len(),
            t == chars@.subrange(a as int, e as int),
            forall|j: int| a <= j < i ==> is_digit(#[trigger] chars@[j]),
            value == digits_value(chars@.subrange(a as int, i as int)),
        decreases e - i,
    {
        let c = chars[i];
        if !((c as u32) >= 48 && (c as u32) <= 57) {
            assert(t[i - a] == c);
            return None;
        }
        let d = (c as u32 - 48) as u64;
        proof {
            let u = chars@.subrange(a as int, i + 1);
            assert(u.drop_last() =~= chars@.subrange(a as int, i as int));
            assert(u.last() == c);
        }
        let next = match value.checked_mul(10) {
            Some(v) => v.checked_add(d),
            None => None,
        };
        match next {
            Some(v) => {
                value = v;
            },
            None => {
                proof {
                    let u = chars@.subrange(a as int, i + 1);
                    if forall|j: int| 0 <= j < t.len() ==> is_digit(#[trigger] t[j]) {
                        lemma_digits_value_prefix(t, i + 1 - a);
                        assert(t.take(i + 1 - a) =~= u);
                    }
                }
                return None;
            },
        }
        i = i + 1;
    }
    proof {
        assert(chars@.subrange(a as int, i as int) =~= t);
        assert forall|j: int| 0 <= j < t.len() implies is_digit(#[trigger] t[j]) by {
            assert(t[j] == chars@[a + j]);
        }
    }
    Some(value)
}

/// A numeric token and where the line goes on after it.
fn get_int(chars: &Vec<char>, p: usize) -> (r: Result<(u64, usize), ParseErrorKind>)
    requires
        p <= chars.len(),
    ensures
        int_of(chars@, p as int) == match r {
            Ok((n, q)) => Ok((n, q as int)),
            Err(k) => Err::<(u64, int), ParseErrorKind>(k),
        },
        r matches Ok((_, q)) ==> q <= chars.len(),
{
    match get_field(chars, p) {
        Err(k) => Err(k),
        Ok((a, e)) => match parse_number(chars, a, e) {
            Some(n) => Ok((n, e + 1)),
            None => Err(ParseErrorKind::InvalidNumber),
        },
    }
}

/// The status code and where the line goes on after it.
fn get_status(chars: &Vec<char>, p: usize) -> (r: Result<(u16, usize), ParseErrorKind>)
    requires
        p <= chars.len(),
    ensures
        status_of(chars@, p as int) == match r {
            Ok((n, q)) => Ok((n, q as int)),
            Err(k) => Err::<(u16, int), ParseErrorKind>(k),
        },
        r matches Ok((_, q)) ==> q <= chars.len(),
{
    match get_int(chars, p) {
        Err(k) => Err(k),
        Ok((n, q)) => if n <= u16::MAX as u64 {
            Ok((n as u16, q))
        } else {
            Err(ParseErrorKind::InvalidNumber)
        },
    }
}

/// The bracketed time and where the line goes on after it.
fn get_local_time(line: &str, chars: &Vec<char>, p: usize) -> (r: Result<
    (LocalTime, usize),
    ParseErrorKind,
>)
    requires
        chars@ == line@,
        p <= chars.len(),
    ensures
        local_time_of(chars@, p as int) == match r {
            Ok((t, q)) => Ok((t, q as int)),
            Err(k) => Err::<(LocalTime, int), ParseErrorKind>(k),
        },
        r matches Ok((t, q)) ==> q <= chars.len() && t.wf(),
{
    match get_delimited_field(chars, p, '[', ']') {
        Err(k) => Err(k),
        Ok((a, e)) => match strptime(line.substring_char(a, e), LOG_TIME_FORMAT) {
            Ok(t) => Ok((t, e + 1)),
            Err(_) => Err(ParseErrorKind::InvalidTime),
        },
    }
}

/// The request time in milliseconds and where the line goes on after it.
fn get_request_time(chars: &Vec<char>, p: usize) -> (r: Result<(u64, usize), ParseErrorKind>)
    requires
        p <= chars.len(),
    ensures
        request_time_of(chars@, p as int) == match r {
            Ok((n, q)) => Ok((n, q as int)),
            Err(k) => Err::<(u64, int), ParseErrorKind>(k),
        },
        r matches Ok((_, q)) ==> q <= chars.len(),
{
    let (a, e) = match get_field(chars, p) {
        Ok(span) => span,
        Err(k) => return Err(k),
    };
    match find_char_exec(chars, a, e, '.') {
        None => Err(ParseErrorKind::InvalidRequestTime),
        Some(d) => {
            let sec = parse_number(chars, a, d);
            let msec = parse_number(chars, d + 1, e);
            match (sec, msec) {
                (Some(sec), Some(msec)) => {
                    if sec <= (u64::MAX - msec) / 1000 {
                        Ok((sec * 1000 + msec, e + 1))
                    } else {
                        Err(ParseErrorKind::InvalidNumber)
                    }
                },
                _ => Err(ParseErrorKind::InvalidNumber),
            }
        },
    }
}

/// The spans of the method and the path in the quoted request, and where the
/// line goes on after it.
fn get_method_path(chars: &Vec<char>, p: usize) -> (r: Result<
    ((usize, usize), (usize, usize), usize),
    ParseErrorKind,
>)
    requires
        p <= chars.len(),
    ensures
        method_path_of(chars@, p as int) == match r {
            Ok((m, pa, q)) => Ok(
                ((m.0 as int, m.1 as int), (pa.0 as int, pa.1 as int), q as int),
            ),
            Err(k) => Err::<((int, int), (int, int), int), ParseErrorKind>(k),
        },
        r matches Ok((m, pa, q)) ==> m.0 <= m.1 <= chars.len() && pa.0 <= pa.1 <= chars.len()
            && q <= chars.len(),
{
    let (a, e) = match get_delimited_field(chars, p, '"', '"') {
        Ok(span) => span,
        Err(k) => return Err(k),
    };
    let method = get_field_or(chars, a, e);
    let path = get_field_or(chars, method.1, e);
    Ok((method, path, e + 1))
}

/// The text of `line` between two positions, as a new string.
fn span_string(line: &str, a: usize, e: usize) -> (r: String)
    requires
        a <= e <= line@.len(),
    ensures
        r@ == line@.subrange(a as int, e as int),
{
    String::from_str(line.substring_char(a, e))
}

/// Parses one log line.
fn create_log_record(line: &str) -> (r: Result<HTTPLogRecord, LineParseError>)
    ensures
        match record_of(line@) {
            Ok(v) => r matches Ok(rec) && rec@ == v,
            Err(k) => r matches Err(err) && err.kind == k && err.line@ == line@,
        },
        r matches Ok(rec) ==> rec.local_time.wf(),
{
    let chars = chars_of(line);
    match parse_spans(line, &chars) {
        Ok(rec) => Ok(rec),
        Err(kind) => Err(LineParseError { kind, line: String::from_str(line) }),
    }
}

fn parse_spans(line: &str, chars: &Vec<char>) -> (r: Result<HTTPLogRecord, ParseErrorKind>)
    requires
        chars@ == line@,
    ensures
        match record_of(line@) {
            Ok(v) => r matches Ok(rec) && rec@ == v,
            Err(k) => r == Err::<HTTPLogRecord, ParseErrorKind>(k),
        },
        r matches Ok(rec) ==> rec.local_time.wf(),
{
    let addr = get_field(chars, 0)?;
    let user = get_field(chars, addr.1 + 1)?;
    let (local_time, p) = get_local_time(line, chars, user.1 + 1)?;
    let host = get_field(chars, p)?;
    let p = skip_field(chars, host.1 + 1)?;
    let (request_time, p) = get_request_time(chars, p)?;
    let (method, path, p) = get_method_path(chars, p)?;
    let (status, p) = get_status(chars, p)?;
    let (sent_bytes, p) = get_int(chars, p)?;
    let referer = get_delimited_field(chars, p, '"', '"')?;
    let user_agent = get_delimited_field(chars, referer.1 + 1, '"', '"')?;
    Ok(
        HTTPLogRecord {
            remote_addr: span_string(line, addr.0, addr.1),
            user: span_string(line, user.0, user.1),
            local_time,
            host: span_string(line, host.0, host.1),
            request_time,
            method: span_string(line, method.0, method.1),
            path: span_string(line, path.0, path.1),
            status: HTTPStatus { status },
            sent_bytes,
            referer: span_string(line, referer.0, referer.1),
            user_agent: span_string(line, user_agent.0, user_agent.1),
        },
    )
}

/// Parses access-log lines of the form
/// `addr user [time] host | secs.msecs "method path proto" status bytes "referer" "agent"`.
pub struct NginxLogParser {}

impl NginxLogParser {
    pub fn new() -> (r: NginxLogParser) {
        NginxLogParser {}
    }

    /// Parses one line. A line that breaks the grammar gives an error that
    /// holds the whole line.
    pub fn parse(&self, line: &str) -> (r: Result<HTTPLogRecord, LineParseError>)
        ensures
            match record_of(line@) {
                Ok(v) => r matches Ok(rec) && rec@ == v,
                Err(k) => r matches Err(err) && err.kind == k && err.line@ == line@,
            },
            r matches Ok(rec) ==> rec.local_time.wf(),
    {
        create_log_record(line)
    }
}

/// `t` is a run of consecutive characters of `s`.
pub open spec fn is_substring(t: Seq<char>, s: Seq<char>) -> bool {
    exists|a: int, b: int| 0 <= a <= b <= s.len() && t == s.subrange(a, b)
}

proof fn lemma_skip_spaces_bounds(s: Seq<char>, p: int, end: int)
    requires
        p <= end,
    ensures
        p <= skip_spaces(s, p, end) <= end,
    decreases end - p,
{
    if p < end && s[p] == ' ' {
        lemma_skip_spaces_bounds(s, p + 1, end);
    }
}

proof fn lemma_find_char_bounds(s: Seq<char>, p: int, end: int, c: char)
    ensures
        find_char(s, p, end, c) matches Some(e) ==> p <= e < end,
    decreases end - p,
{
    if p < end && s[p] != c {
        lemma_find_char_bounds(s, p + 1, end, c);
    }
}

proof fn lemma_token_bounds(s: Seq<char>, p: int, end: int)
    requires
        p <= end,
    ensures
        token(s, p, end) matches Some((a, e)) ==> p <= a <= e < end,
{
    lemma_skip_spaces_bounds(s, p, end);
    lemma_find_char_bounds(s, skip_spaces(s, p, end), end, ' ');
}

proof fn lemma_delimited_bounds(s: Seq<char>, p: int, open: char, close: char)
    requires
        p <= s.len(),
    ensures
        delimited_of(s, p, open, close) matches Ok((a, e)) ==> p < a <= e < s.len(),
{
    lemma_skip_spaces_bounds(s, p, s.len() as int);
    lemma_find_char_bounds(s, skip_spaces(s, p, s.len() as int) + 1, s.len() as int, close);
}

proof fn lemma_span_is_substring(s: Seq<char>, span: (int, int))
    requires
        0 <= span.0 <= span.1 <= s.len(),
    ensures
        is_substring(span_text(s, span), s),
{
    assert(span_text(s, span) == s.subrange(span.0, span.1));
}

proof fn lemma_skip_spaces_facts(s: Seq<char>, p: int, end: int)
    requires
        0 <= p <= end <= s.len(),
    ensures
        forall|i: int| p <= i < skip_spaces(s, p, end) ==> s[i] == ' ',
        skip_spaces(s, p, end) < end ==> s[skip_spaces(s, p, end)] != ' ',
    decreases end - p,
{
    lemma_skip_spaces_bounds(s, p, end);
    if p < end && s[p] == ' ' {
        lemma_skip_spaces_facts(s, p + 1, end);
    }
}

proof fn lemma_find_char_facts(s: Seq<char>, p: int, end: int, c: char)
    requires
        0 <= p <= end <= s.len(),
    ensures
        match find_char(s, p, end, c) {
            Some(w) => s[w] == c && forall|i: int| p <= i < w ==> s[i] != c,
            None => forall|i: int| p <= i < end ==> s[i] != c,
        },
    decreases end - p,
{
    lemma_find_char_bounds(s, p, end, c);
    if p < end && s[p] != c {
        lemma_find_char_facts(s, p + 1, end, c);
    }
}

/// `span` is the first word of `p..end`: only spaces come before it, it holds
/// no space, a space or `end` closes it, and it is empty only where nothing
/// but spaces is left.
pub open spec fn is_first_word(s: Seq<char>, p: int, end: int, span: (int, int)) -> bool {
    &&& p <= span.0 <= span.1 <= end
    &&& forall|i: int| p <= i < span.0 ==> s[i] == ' '
    &&& forall|i: int| span.0 <= i < span.1 ==> s[i] != ' '
    &&& span.1 == end || s[span.1] == ' '
    &&& span.0 == span.1 ==> span.0 == end
}

proof fn lemma_word(s: Seq<char>, p: int, end: int)
    requires
        0 <= p <= end <= s.len(),
    ensures
        is_first_word(s, p, end, word(s, p, end)),
{
    lemma_skip_spaces_bounds(s, p, end);
    lemma_skip_spaces_facts(s, p, end);
    let q = skip_spaces(s, p, end);
    lemma_find_char_bounds(s, q, end, ' ');
    lemma_find_char_facts(s, q, end, ' ');
}

/// Splitting the quoted request into method and path cannot fail: wherever
/// the quotes are in place the split succeeds. The method is the first word
/// of the quoted text and the path the word after it, each empty only where
/// no word is left; both lie within the quotes, the method first.
pub proof fn lemma_request_split_total(s: Seq<char>, p: int)
    requires
        0 <= p <= s.len(),
        delimited_of(s, p, '"', '"') is Ok,
    ensures
        method_path_of(s, p) matches Ok((m, pa, q)) && ({
            let (a, e) = delimited_of(s, p, '"', '"')->Ok_0;
            &&& is_first_word(s, a, e, m)
            &&& is_first_word(s, m.1, e, pa)
            &&& q == e + 1
        }),
{
    lemma_delimited_bounds(s, p, '"', '"');
    let (a, e) = delimited_of(s, p, '"', '"')->Ok_0;
    lemma_word(s, a, e);
    let m = word(s, a, e);
    lemma_word(s, m.1, e);
}

/// The spans lie in the line, each one ending no later than the next begins.
pub open spec fn spans_in_order(spans: Seq<(int, int)>, n: int) -> bool {
    &&& forall|i: int| 0 <= i < spans.len() ==> 0 <= #[trigger] spans[i].0 <= spans[i].1 <= n
    &&& forall|i: int| 0 <= i < spans.len() - 1 ==> #[trigger] spans[i].1 <= spans[i + 1].0
}

/// Parsing takes every text field of a record verbatim from the line: each is
/// a run of the line's own characters, with nothing added, dropped or moved,
/// and the address, user, host, method, path, referer and user agent come
/// from that many runs that follow one another in the line without overlap.
pub proof fn lemma_fields_are_substrings(s: Seq<char>)
    requires
        record_of(s) is Ok,
    ensures
        ({
            let v = record_of(s)->Ok_0;
            &&& is_substring(v.remote_addr, s)
            &&& is_substring(v.user, s)
            &&& is_substring(v.host, s)
            &&& is_substring(v.method, s)
            &&& is_substring(v.path, s)
            &&& is_substring(v.referer, s)
            &&& is_substring(v.user_agent, s)
            &&& exists|spans: Seq<(int, int)>|
                {
                    &&& spans.len() == 7
                    &&& spans_in_order(spans, s.len() as int)
                    &&& v.remote_addr == span_text(s, spans[0])
                    &&& v.user == span_text(s, spans[1])
                    &&& v.host == span_text(s, spans[2])
                    &&& v.method == span_text(s, spans[3])
                    &&& v.path == span_text(s, spans[4])
                    &&& v.referer == span_text(s, spans[5])
                    &&& v.user_agent == span_text(s, spans[6])
                }
        }),
{
    let n = s.len() as int;
    lemma_token_bounds(s, 0, n);
    let addr = field_of(s, 0)->Ok_0;
    lemma_span_is_substring(s, addr);
    lemma_token_bounds(s, addr.1 + 1, n);
    let user = field_of(s, addr.1 + 1)->Ok_0;
    lemma_span_is_substring(s, user);
    lemma_delimited_bounds(s, user.1 + 1, '[', ']');
    let p_time = local_time_of(s, user.1 + 1)->Ok_0.1;
    lemma_token_bounds(s, p_time, n);
    let host = field_of(s, p_time)->Ok_0;
    lemma_span_is_substring(s, host);
    lemma_token_bounds(s, host.1 + 1, n);
    let pipe = field_of(s, host.1 + 1)->Ok_0;
    lemma_token_bounds(s, pipe.1 + 1, n);
    let p_rt = request_time_of(s, pipe.1 + 1)->Ok_0.1;
    lemma_request_split_total(s, p_rt);
    let (method, path, p_req) = method_path_of(s, p_rt)->Ok_0;
    let quoted = delimited_of(s, p_rt, '"', '"')->Ok_0;
    lemma_delimited_bounds(s, p_rt, '"', '"');
    assert(quoted.0 <= method.0 <= method.1 <= quoted.1);
    assert(method.1 <= path.0 <= path.1 <= quoted.1);
    lemma_span_is_substring(s, method);
    lemma_span_is_substring(s, path);
    lemma_token_bounds(s, p_req, n);
    let p_status = status_of(s, p_req)->Ok_0.1;
    lemma_token_bounds(s, p_status, n);
    let p_sent = int_of(s, p_status)->Ok_0.1;
    lemma_delimited_bounds(s, p_sent, '"', '"');
    let referer = delimited_of(s, p_sent, '"', '"')->Ok_0;
    lemma_span_is_substring(s, referer);
    lemma_delimited_bounds(s, referer.1 + 1, '"', '"');
    let user_agent = delimited_of(s, referer.1 + 1, '"', '"')->Ok_0;
    lemma_span_is_substring(s, user_agent);
    let spans = seq![addr, user, host, method, path, referer, user_agent];
    assert(spans_in_order(spans, n)) by {
        assert forall|i: int| 0 <= i < spans.len() - 1 implies #[trigger] spans[i].1 <= spans[i
            + 1].0 by {
            if i == 0 {
            } else if i == 1 {
            } else if i == 2 {
            } else if i == 3 {
            } else if i == 4 {
            } else {
            }
        }
    }
}

} // verus!
