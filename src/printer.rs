//! The report: a totals block, then each table ranked by request count.

use vstd::prelude::*;

use crate::clock::strftime;
use crate::ranking::{rank_rows, ranked, Row, RowView};
use crate::clock::DATE_FORMAT;
use crate::stats::{date_key, LogStats, Moment};
use crate::table::{ObjectStats, StatKey, StatsTable, StatsView};
use crate::text::{
    decimal, pad_left, pad_right, push_decimal, push_padded_left, push_padded_right, push_spaces,
    spaces, truncate,
};
use crate::utils::{
    bytes_text, duration_text, format_bytes, format_duration, format_number, number_text,
};

verus! {

/// The head of the totals block, down to its rule.
pub const TOTALS_HEADER: &'static str = "Totals\n=================================================================================\nPeriod                                                    Requests Duration Bytes\n---------------------------------------------------------------------------------\n";

/// A double rule across the report, with its line end.
pub const DOUBLE_RULE: &'static str = "=================================================================================\n";

/// A single rule across the report, with its line end.
pub const SINGLE_RULE: &'static str = "---------------------------------------------------------------------------------\n";

/// The column titles after a table's key column.
pub const COLUMN_TITLES: &'static str = " Requests Duration Bytes\n";

/// The line of one ranked key: the key cut to and padded to 60 characters,
/// then the request count, the total duration and the bytes, right-aligned.
pub open spec fn row_line(r: RowView) -> Seq<char> {
    pad_right(truncate(r.0, 60), 60) + " "@ + pad_left(number_text(r.1.requests), 5) + " "@
        + pad_left(duration_text(r.1.request_time), 8) + " "@ + pad_left(
        bytes_text(r.1.sent_bytes),
        5,
    ) + "\n"@
}

/// The lines of some rows, in order.
pub open spec fn rows_text(rows: Seq<RowView>) -> Seq<char>
    decreases rows.len(),
{
    if rows.len() == 0 {
        Seq::empty()
    } else {
        rows_text(rows.drop_last()) + row_line(rows.last())
    }
}

/// The first `limit` rows, or all of them where there are fewer.
pub open spec fn top(rows: Seq<RowView>, limit: nat) -> Seq<RowView> {
    if rows.len() <= limit {
        rows
    } else {
        rows.take(limit as int)
    }
}

/// One table's block: a heading that names it and the limit, rules, column
/// titles, and the lines of the first `limit` of the ranked rows.
pub open spec fn section_text(
    title: Seq<char>,
    key_title: Seq<char>,
    limit: nat,
    ranked_rows: Seq<RowView>,
) -> Seq<char> {
    section_heading(title, key_title, limit) + rows_text(top(ranked_rows, limit))
}

/// The heading of a table's block, down to its rule.
pub open spec fn section_heading(title: Seq<char>, key_title: Seq<char>, limit: nat) -> Seq<char> {
    "\n"@ + title + " by "@ + key_title + " (top "@ + decimal(limit) + ")\n"@ + DOUBLE_RULE@
        + pad_right(key_title, 57) + COLUMN_TITLES@ + SINGLE_RULE@
}

/// The date of a moment, or "-" where there is none.
pub open spec fn date_text(m: Option<Moment>) -> Seq<char> {
    match m {
        None => "-"@,
        Some(m) => date_key(m.time),
    }
}

/// The totals block: the dates of the first and last moments, the number
/// of requests, their total duration and the bytes sent.
pub open spec fn totals_text(total: StatsView, start: Option<Moment>, end: Option<Moment>) -> Seq<
    char,
> {
    TOTALS_HEADER@ + period_text(start, end) + counts_text(total)
}

/// The dates of the first and last moments, as the totals line shows them.
pub open spec fn period_text(start: Option<Moment>, end: Option<Moment>) -> Seq<char> {
    pad_right(date_text(start), 10) + " - "@ + pad_left(date_text(end), 10)
}

/// The counts of the totals line, with its line end.
pub open spec fn counts_text(total: StatsView) -> Seq<char> {
    spaces(35) + pad_left(number_text(total.requests), 8) + " "@ + pad_left(
        duration_text(total.request_time),
        8,
    ) + " "@ + pad_left(bytes_text(total.sent_bytes), 5) + "\n"@
}

/// The whole report with at most `limit` rows per table.
pub open spec fn report_text(stats: LogStats, limit: nat) -> Seq<char> {
    totals_text(stats@.total, stats.start, stats.end)
        + section_text("Requests"@, "Hosts"@, limit, ranked(stats.hosts.rows()))
        + section_text("Requests"@, "Dates"@, limit, ranked(stats.dates.rows()))
        + section_text("Requests"@, "Users"@, limit, ranked(stats.users.rows()))
        + section_text("Requests"@, "Clients"@, limit, ranked(stats.clients.rows()))
        + section_text("Requests"@, "Hours"@, limit, ranked(stats.hours.rows()))
        + section_text("Requests"@, "Paths"@, limit, ranked(stats.paths.rows()))
        + section_text("Requests"@, "Methods"@, limit, ranked(stats.methods.rows()))
        + section_text("Requests"@, "Statuses"@, limit, ranked(stats.statuses.rows()))
        + section_text("Requests"@, "Referers"@, limit, ranked(stats.referers.rows()))
        + section_text("Requests"@, "User agents"@, limit, ranked(stats.user_agents.rows()))
}

fn push_row(s: &mut String, row: &Row)
    ensures
        final(s)@ == old(s)@ + row_line(row@),
{
    let key = row.key.as_str();
    let shown = if key.unicode_len() > 60 {
        key.substring_char(0, 60)
    } else {
        key
    };
    assert(shown@ == truncate(row.key@, 60));
    push_padded_right(s, shown, 60);
    s.append(" ");
    push_padded_left(s, format_number(row.stats.requests).as_str(), 5);
    s.append(" ");
    push_padded_left(s, format_duration(row.stats.request_time).as_str(), 8);
    s.append(" ");
    push_padded_left(s, format_bytes(row.stats.sent_bytes).as_str(), 5);
    s.append("\n");
    assert(s@ =~= old(s)@ + row_line(row@));
}

fn push_section_heading(s: &mut String, title: &str, key_title: &str, limit: usize)
    ensures
        final(s)@ == old(s)@ + section_heading(title@, key_title@, limit as nat),
{
    s.append("\n");
    s.append(title);
    s.append(" by ");
    s.append(key_title);
    s.append(" (top ");
    push_decimal(s, limit as u64);
    s.append(")\n");
    s.append(DOUBLE_RULE);
    push_padded_right(s, key_title, 57);
    s.append(COLUMN_TITLES);
    s.append(SINGLE_RULE);
    assert(s@ =~= old(s)@ + section_heading(title@, key_title@, limit as nat));
}

/// Appends the block of a table whose rows are already ranked.
fn print_sorted(s: &mut String, sorted: &Vec<Row>, title: &str, key_title: &str, limit: usize)
    ensures
        final(s)@ == old(s)@ + section_text(
            title@,
            key_title@,
            limit as nat,
            sorted@.map_values(|x: Row| x@),
        ),
{
    let ghost rows = sorted@.map_values(|x: Row| x@);
    push_section_heading(s, title, key_title, limit);
    let ghost head = s@;
    let n = if sorted.len() <= limit {
        sorted.len()
    } else {
        limit
    };
    assert(top(rows, limit as nat) =~= rows.take(n as int));
    let mut i: usize = 0;
    while i < n
        invariant
            n <= sorted.len(),
            i <= n,
            rows == sorted@.map_values(|x: Row| x@),
            s@ == head + rows_text(rows.take(i as int)),
        decreases n - i,
    {
        push_row(s, &sorted[i]);
        assert(rows.take(i + 1).drop_last() =~= rows.take(i as int));
        i = i + 1;
    }
    assert(rows.take(n as int) == top(rows, limit as nat));
    assert(s@ =~= old(s)@ + section_text(title@, key_title@, limit as nat, rows));
}

/// Appends the block of a table: its rows ranked, then the first `limit`.
fn print<K: StatKey>(s: &mut String, mapping: &StatsTable<K>, title: &str, key_title: &str, limit: usize)
    ensures
        final(s)@ == old(s)@ + section_text(title@, key_title@, limit as nat, ranked(mapping.rows())),
{
    let sorted = rank_rows(mapping.to_rows());
    print_sorted(s, &sorted, title, key_title, limit);
}

fn date_string(m: &Option<Moment>) -> (r: String)
    requires
        m matches Some(m) ==> m.time.wf(),
    ensures
        r@ == date_text(*m),
{
    match m {
        None => String::from_str("-"),
        Some(m) => {
            match strftime(&m.time, DATE_FORMAT) {
                Ok(text) => text,
                Err(_) => {
                    proof {
                        assert(false);
                    }
                    String::new()
                },
            }
        },
    }
}

fn push_period(s: &mut String, start: &Option<Moment>, end: &Option<Moment>)
    requires
        start matches Some(m) ==> m.time.wf(),
        end matches Some(m) ==> m.time.wf(),
    ensures
        final(s)@ == old(s)@ + period_text(*start, *end),
{
    push_padded_right(s, date_string(start).as_str(), 10);
    s.append(" - ");
    push_padded_left(s, date_string(end).as_str(), 10);
    assert(s@ =~= old(s)@ + period_text(*start, *end));
}

fn push_counts(s: &mut String, totals: &ObjectStats)
    ensures
        final(s)@ == old(s)@ + counts_text(totals@),
{
    push_spaces(s, 35);
    push_padded_left(s, format_number(totals.requests).as_str(), 8);
    s.append(" ");
    push_padded_left(s, format_duration(totals.request_time).as_str(), 8);
    s.append(" ");
    push_padded_left(s, format_bytes(totals.sent_bytes).as_str(), 5);
    s.append("\n");
    assert(s@ =~= old(s)@ + counts_text(totals@));
}

/// Appends the totals block.
fn print_totals(s: &mut String, totals: &ObjectStats, start: &Option<Moment>, end: &Option<Moment>)
    requires
        start matches Some(m) ==> m.time.wf(),
        end matches Some(m) ==> m.time.wf(),
    ensures
        final(s)@ == old(s)@ + totals_text(totals@, *start, *end),
{
    s.append(TOTALS_HEADER);
    push_period(s, start, end);
    push_counts(s, totals);
    assert(s@ =~= old(s)@ + totals_text(totals@, *start, *end));
}

/// Renders the statistics of a run as a text report.
pub struct LogStatsPrinter<'r> {
    pub stats: &'r LogStats,
}

impl<'r> LogStatsPrinter<'r> {
    pub fn new(stats: &'r LogStats) -> (r: LogStatsPrinter<'r>)
        ensures
            r.stats == stats,
    {
        LogStatsPrinter { stats }
    }

    /// The report: totals, then hosts, dates, users, clients, hours, paths,
    /// methods, statuses, referers and user agents, each ranked by request
    /// count with at most `limit` rows.
    pub fn print(&self, limit: usize) -> (r: String)
        requires
            self.stats.wf(),
        ensures
            r@ == report_text(*self.stats, limit as nat),
    {
        let stats = self.stats;
        let mut s = String::new();
        print_totals(&mut s, &stats.total, &stats.start, &stats.end);
        print(&mut s, &stats.hosts, "Requests", "Hosts", limit);
        print(&mut s, &stats.dates, "Requests", "Dates", limit);
        print(&mut s, &stats.users, "Requests", "Users", limit);
        print(&mut s, &stats.clients, "Requests", "Clients", limit);
        print(&mut s, &stats.hours, "Requests", "Hours", limit);
        print(&mut s, &stats.paths, "Requests", "Paths", limit);
        print(&mut s, &stats.methods, "Requests", "Methods", limit);
        print(&mut s, &stats.statuses, "Requests", "Statuses", limit);
        print(&mut s, &stats.referers, "Requests", "Referers", limit);
        print(&mut s, &stats.user_agents, "Requests", "User agents", limit);
        assert(s@ =~= report_text(*stats, limit as nat));
        s
    }
}

} // verus!
