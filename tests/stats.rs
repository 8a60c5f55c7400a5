use httpstat::log::{HTTPLogRecord, LogProcessor};
use httpstat::nginx::NginxLogParser;
use httpstat::ranking::Row;
use httpstat::stats::LogStats;
use httpstat::table::{ObjectStats, StatKey, StatsTable};

fn record(line: &str) -> HTTPLogRecord {
    NginxLogParser::new().parse(line).unwrap()
}

fn run(lines: &[&str]) -> LogStats {
    let mut stats = LogStats::new();
    for line in lines {
        let rec = record(line);
        assert!(stats.can_process(&rec));
        stats.process(rec);
    }
    stats
}

fn sorted_rows<K: StatKey>(table: &StatsTable<K>) -> Vec<(String, u64, u64, u64)> {
    let rows: Vec<Row> = table.to_rows();
    let mut out: Vec<(String, u64, u64, u64)> = rows
        .into_iter()
        .map(|r| (r.key, r.stats.requests, r.stats.request_time, r.stats.sent_bytes))
        .collect();
    out.sort();
    out
}

fn find<K: StatKey>(table: &StatsTable<K>, key: &str) -> Option<ObjectStats> {
    table.to_rows().into_iter().find(|r| r.key == key).map(|r| r.stats)
}

const A: &str = "10.0.0.1 alice [01/Dec/2014:10:20:30 +0300] example.com | 0.500 \"GET /a HTTP/1.1\" 200 100 \"-\" \"agent-1\"";
const B: &str = "10.0.0.2 bob [01/Dec/2014:11:00:00 +0300] example.com | 0.500 \"GET /b HTTP/1.1\" 200 100 \"-\" \"agent-2\"";
const C: &str = "10.0.0.1 - [02/Dec/2014:08:00:00 +0000] other.org | 2.000 \"POST /a HTTP/1.1\" 404 7000 \"http://x/\" \"agent-1\"";
const D: &str = "10.0.0.3 - [30/Nov/2014:23:30:00 -0100] example.com | 0.010 \"HEAD /c HTTP/1.1\" 301 0 \"-\" \"agent-3\"";

#[test]
fn two_clients_one_status() {
    let stats = run(&[A, B]);
    let total = stats.total;
    assert_eq!(total.requests, 2);
    assert_eq!(total.request_time, 1000);
    assert_eq!(total.sent_bytes, 200);
    assert_eq!(stats.clients.len(), 2);
    assert_eq!(find(&stats.clients, "10.0.0.1").unwrap().requests, 1);
    assert_eq!(find(&stats.clients, "10.0.0.2").unwrap().requests, 1);
    assert_eq!(stats.statuses.len(), 1);
    let ok = find(&stats.statuses, "200 OK").unwrap();
    assert_eq!(ok.requests, 2);
    assert_eq!(ok.sent_bytes, 200);
    assert_eq!(ok.request_time, 1000);
}

#[test]
fn every_table_adds_up_to_the_totals() {
    let stats = run(&[A, B, C, D, A]);
    assert_eq!(stats.total.requests, 5);
    let sum = |rows: Vec<(String, u64, u64, u64)>| {
        rows.iter().fold((0, 0, 0), |acc, r| (acc.0 + r.1, acc.1 + r.2, acc.2 + r.3))
    };
    let expected = (stats.total.requests, stats.total.request_time, stats.total.sent_bytes);
    assert_eq!(expected, (5, 3510, 7300));
    assert_eq!(sum(sorted_rows(&stats.clients)), expected);
    assert_eq!(sum(sorted_rows(&stats.hosts)), expected);
    assert_eq!(sum(sorted_rows(&stats.methods)), expected);
    assert_eq!(sum(sorted_rows(&stats.paths)), expected);
    assert_eq!(sum(sorted_rows(&stats.statuses)), expected);
    assert_eq!(sum(sorted_rows(&stats.referers)), expected);
    assert_eq!(sum(sorted_rows(&stats.user_agents)), expected);
    assert_eq!(sum(sorted_rows(&stats.hours)), expected);
    assert_eq!(sum(sorted_rows(&stats.dates)), expected);
    assert_eq!(sum(sorted_rows(&stats.users)), expected);
}

#[test]
fn order_of_records_does_not_matter() {
    let one = run(&[A, B, C, D, A]);
    let two = run(&[D, A, C, A, B]);
    assert_eq!(one.total, two.total);
    assert_eq!(one.start, two.start);
    assert_eq!(one.end, two.end);
    assert_eq!(sorted_rows(&one.clients), sorted_rows(&two.clients));
    assert_eq!(sorted_rows(&one.hosts), sorted_rows(&two.hosts));
    assert_eq!(sorted_rows(&one.methods), sorted_rows(&two.methods));
    assert_eq!(sorted_rows(&one.paths), sorted_rows(&two.paths));
    assert_eq!(sorted_rows(&one.statuses), sorted_rows(&two.statuses));
    assert_eq!(sorted_rows(&one.referers), sorted_rows(&two.referers));
    assert_eq!(sorted_rows(&one.user_agents), sorted_rows(&two.user_agents));
    assert_eq!(sorted_rows(&one.hours), sorted_rows(&two.hours));
    assert_eq!(sorted_rows(&one.dates), sorted_rows(&two.dates));
    assert_eq!(sorted_rows(&one.users), sorted_rows(&two.users));
}

#[test]
fn hours_and_dates_use_the_local_wall_clock() {
    let stats = run(&[A, B, C, D]);
    let hours = sorted_rows(&stats.hours);
    let keys: Vec<&str> = hours.iter().map(|r| r.0.as_str()).collect();
    assert_eq!(keys, vec!["10", "11", "23", "8"]);
    let dates = sorted_rows(&stats.dates);
    let keys: Vec<&str> = dates.iter().map(|r| r.0.as_str()).collect();
    assert_eq!(keys, vec!["2014-11-30", "2014-12-01", "2014-12-02"]);
}

#[test]
fn interval_compares_instants_in_utc() {
    // 10:20:30 +0300 is 07:20:30 UTC, before 08:00 UTC on the same wall-clock day;
    // 23:30 -0100 on 30 Nov is 00:30 UTC on 1 Dec.
    let stats = run(&[C, A, D]);
    let start = stats.start.unwrap();
    let end = stats.end.unwrap();
    assert_eq!(start.time.mday, 30);
    assert_eq!(start.time.hour, 23);
    assert_eq!(end.time.mday, 2);
    assert_eq!(end.time.hour, 8);
    assert_eq!(end.instant - start.instant, 24 * 3600 + 7 * 3600 + 30 * 60);
    assert_eq!(start.instant, 1417393800);
}

#[test]
fn equal_instants_keep_a_fixed_representative() {
    let a = "x - [01/Dec/2014:10:00:00 +0100] h | 0.000 \"GET / HTTP/1.1\" 200 0 \"-\" \"-\"";
    let b = "x - [01/Dec/2014:09:00:00 +0000] h | 0.000 \"GET / HTTP/1.1\" 200 0 \"-\" \"-\"";
    let one = run(&[a, b]);
    let two = run(&[b, a]);
    assert_eq!(one.start, two.start);
    assert_eq!(one.end, two.end);
    assert_eq!(one.start.unwrap().instant, one.end.unwrap().instant);
    assert_eq!(one.start.unwrap().time.utcoff, 0);
    assert_eq!(one.end.unwrap().time.utcoff, 3600);
}

#[test]
fn new_stats_are_empty() {
    let stats = LogStats::new();
    assert_eq!(stats.total.requests, 0);
    assert!(stats.start.is_none());
    assert!(stats.end.is_none());
    assert_eq!(stats.clients.len(), 0);
}

#[test]
fn refuses_a_record_that_would_overflow() {
    let mut stats = run(&[A]);
    let mut big = record(B);
    big.sent_bytes = u64::MAX;
    assert!(!stats.can_process(&big));
    let rec = record(B);
    assert!(stats.can_process(&rec));
    stats.process(rec);
    assert_eq!(stats.total.requests, 2);
}

#[test]
fn keyed_processing_uses_the_given_seconds_and_date() {
    let mut stats = LogStats::new();
    let rec = record(A);
    assert!(stats.can_process(&rec));
    stats.process_keyed(rec, 100_000, "day-one".to_string());
    assert_eq!(stats.start.unwrap().instant, 100_000 - 3 * 3600);
    assert_eq!(stats.end, stats.start);
    assert_eq!(sorted_rows(&stats.dates), vec![("day-one".to_string(), 1, 500, 100)]);
    let rec = record(B);
    stats.process_keyed(rec, 50_000, "day-one".to_string());
    assert_eq!(stats.start.unwrap().instant, 50_000 - 3 * 3600);
    assert_eq!(stats.end.unwrap().instant, 100_000 - 3 * 3600);
    assert_eq!(sorted_rows(&stats.dates), vec![("day-one".to_string(), 2, 1000, 200)]);
}

#[test]
fn seconds_since_the_epoch_follow_the_calendar() {
    let early = "x - [01/Jan/1500:00:00:00 +0000] h | 0.000 \"GET / HTTP/1.1\" 200 0 \"-\" \"-\"";
    let epoch = "x - [01/Jan/1970:00:00:00 +0000] h | 0.000 \"GET / HTTP/1.1\" 200 0 \"-\" \"-\"";
    let leap = "x - [01/Mar/2000:00:00:00 +0000] h | 0.000 \"GET / HTTP/1.1\" 200 0 \"-\" \"-\"";
    let year_zero = "x - [01/Feb/0000:00:00:00 +0000] h | 0.000 \"GET / HTTP/1.1\" 200 0 \"-\" \"-\"";
    assert_eq!(run(&[epoch]).start.unwrap().instant, 0);
    assert_eq!(run(&[leap]).start.unwrap().instant, 951868800);
    assert_eq!(run(&[early]).start.unwrap().instant, -14831769600);
    assert_eq!(run(&[year_zero]).start.unwrap().instant, -62164540800);
    let stats = run(&[early, epoch]);
    assert_eq!(sorted_rows(&stats.dates)[0].0, "1500-01-01");
    let stats = run(&[year_zero]);
    assert_eq!(sorted_rows(&stats.dates)[0].0, "0-02-01");
}
