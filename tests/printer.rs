use httpstat::log::LogProcessor;
use httpstat::nginx::NginxLogParser;
use httpstat::printer::LogStatsPrinter;
use httpstat::stats::LogStats;

fn run(lines: &[&str]) -> LogStats {
    let parser = NginxLogParser::new();
    let mut stats = LogStats::new();
    for line in lines {
        stats.process(parser.parse(line).unwrap());
    }
    stats
}

const A: &str = "10.0.0.1 alice [01/Dec/2014:10:20:30 +0300] example.com | 0.500 \"GET /a HTTP/1.1\" 200 100 \"-\" \"agent-1\"";
const B: &str = "10.0.0.2 bob [01/Dec/2014:11:00:00 +0300] example.com | 0.500 \"GET /b HTTP/1.1\" 200 100 \"-\" \"agent-2\"";
const C: &str = "10.0.0.1 - [02/Dec/2014:08:00:00 +0000] other.org | 90.000 \"POST /a HTTP/1.1\" 404 7000 \"-\" \"agent-1\"";

#[test]
fn report_of_no_records() {
    let stats = LogStats::new();
    let text = LogStatsPrinter::new(&stats).print(10);
    let lines: Vec<&str> = text.lines().collect();
    assert_eq!(lines[0], "Totals");
    assert_eq!(lines[1], "=".repeat(81));
    assert_eq!(lines[2], format!("Period{}Requests Duration Bytes", " ".repeat(52)));
    assert_eq!(lines[3], "-".repeat(81));
    assert_eq!(
        lines[4],
        format!("{:<10} - {:>10}{}{:>8} {:>8} {:>5}", "-", "-", " ".repeat(35), "0", "0s", "0")
    );
    assert_eq!(lines[5], "");
    assert_eq!(lines[6], "Requests by Hosts (top 10)");
    assert_eq!(lines[8], format!("Hosts{} Requests Duration Bytes", " ".repeat(52)));
    assert_eq!(text.matches(" by ").count(), 10);
}

#[test]
fn report_ranks_by_requests_then_key() {
    let stats = run(&[B, A, C]);
    let text = LogStatsPrinter::new(&stats).print(10);
    let lines: Vec<&str> = text.lines().collect();
    assert_eq!(
        lines[4],
        format!("2014-12-01 - 2014-12-02{}{:>8} {:>8} {:>5}", " ".repeat(35), "3", "1.5m", "7K")
    );
    let clients = lines.iter().position(|l| *l == "Requests by Clients (top 10)").unwrap();
    assert_eq!(lines[clients + 4], format!("{:<60} {:>5} {:>8} {:>5}", "10.0.0.1", "2", "1.5m", "7K"));
    assert_eq!(lines[clients + 5], format!("{:<60} {:>5} {:>8} {:>5}", "10.0.0.2", "1", "0.5s", "100"));
    let statuses = lines.iter().position(|l| *l == "Requests by Statuses (top 10)").unwrap();
    assert_eq!(lines[statuses + 4], format!("{:<60} {:>5} {:>8} {:>5}", "200 OK", "2", "1s", "200"));
    assert_eq!(lines[statuses + 5], format!("{:<60} {:>5} {:>8} {:>5}", "404 Not Found", "1", "1.5m", "7K"));
    let users = lines.iter().position(|l| *l == "Requests by Users (top 10)").unwrap();
    assert_eq!(lines[users + 4], format!("{:<60} {:>5} {:>8} {:>5}", "-", "1", "1.5m", "7K"));
    assert_eq!(lines[users + 5], format!("{:<60} {:>5} {:>8} {:>5}", "alice", "1", "0.5s", "100"));
    assert_eq!(lines[users + 6], format!("{:<60} {:>5} {:>8} {:>5}", "bob", "1", "0.5s", "100"));
}

#[test]
fn report_keeps_to_the_limit_and_cuts_long_keys() {
    let long_agent = "x".repeat(70);
    let line = format!(
        "10.0.0.9 - [01/Dec/2014:10:20:30 +0000] h | 0.001 \"GET / HTTP/1.1\" 200 1 \"-\" \"{}\"",
        long_agent
    );
    let stats = run(&[A, B, line.as_str()]);
    let text = LogStatsPrinter::new(&stats).print(1);
    let lines: Vec<&str> = text.lines().collect();
    let clients = lines.iter().position(|l| *l == "Requests by Clients (top 1)").unwrap();
    assert_eq!(lines[clients + 5], "");
    let agents = lines.iter().position(|l| *l == "Requests by User agents (top 1)").unwrap();
    assert_eq!(lines.len(), agents + 5);
    let row = lines[agents + 4];
    assert!(row.starts_with("agent-1") || row.starts_with("agent-2") || row.starts_with(&"x".repeat(60)));
    let stats = run(&[line.as_str()]);
    let text = LogStatsPrinter::new(&stats).print(1);
    let last = text.lines().last().unwrap();
    assert_eq!(last, format!("{} {:>5} {:>8} {:>5}", "x".repeat(60), "1", "0.001s", "1"));
}
