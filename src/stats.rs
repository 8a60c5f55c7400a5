//! The aggregator: folds parsed records into ten grouping tables, running
//! totals, and the earliest and latest time seen.

use vstd::prelude::*;

use crate::clock::{date_text_of, strftime, utc_seconds, utc_seconds_of, DATE_FORMAT};
use crate::log::{HTTPLogRecord, HTTPStatus, LocalTime, LogProcessor, RecordView};
use crate::table::{add_stats, map_sum, upsert, zero_stats, ObjectStats, StatsTable, StatsView};

verus! {

/// A point in time: seconds since the epoch in UTC, with the wall-clock time
/// it was read from.
#[derive(Clone, Copy, Debug, PartialEq, Eq, Structural)]
pub struct Moment {
    pub instant: i128,
    pub time: LocalTime,
}

/// The moment of a log time whose wall clock, read as UTC, is `wall_secs`
/// seconds after the epoch: those seconds less the offset.
pub open spec fn moment_at(t: LocalTime, wall_secs: int) -> Moment {
    Moment { instant: (wall_secs - t.utcoff) as i128, time: t }
}

/// The moment of a log time.
pub open spec fn moment_of(t: LocalTime) -> Moment {
    moment_at(t, utc_seconds_of(t))
}

/// Moments ordered by instant; moments of one instant are ordered by offset
/// and then by wall clock, so that the order is total.
pub open spec fn moment_lt(a: Moment, b: Moment) -> bool {
    if a.instant != b.instant {
        a.instant < b.instant
    } else if a.time.utcoff != b.time.utcoff {
        a.time.utcoff < b.time.utcoff
    } else if a.time.year != b.time.year {
        a.time.year < b.time.year
    } else if a.time.mon != b.time.mon {
        a.time.mon < b.time.mon
    } else if a.time.mday != b.time.mday {
        a.time.mday < b.time.mday
    } else if a.time.hour != b.time.hour {
        a.time.hour < b.time.hour
    } else if a.time.min != b.time.min {
        a.time.min < b.time.min
    } else {
        a.time.sec < b.time.sec
    }
}

/// The earlier of a moment and the earliest so far.
pub open spec fn earliest(cur: Option<Moment>, m: Moment) -> Option<Moment> {
    match cur {
        None => Some(m),
        Some(c) => if moment_lt(m, c) {
            Some(m)
        } else {
            Some(c)
        },
    }
}

/// The later of a moment and the latest so far.
pub open spec fn latest(cur: Option<Moment>, m: Moment) -> Option<Moment> {
    match cur {
        None => Some(m),
        Some(c) => if moment_lt(c, m) {
            Some(m)
        } else {
            Some(c)
        },
    }
}

/// The key of a time in the date table.
pub open spec fn date_key(t: LocalTime) -> Seq<char> {
    date_text_of(t)
}

/// What the aggregator holds, as plain values.
pub ghost struct LogStatsView {
    pub total: StatsView,
    pub clients: Map<Seq<char>, StatsView>,
    pub hosts: Map<Seq<char>, StatsView>,
    pub methods: Map<Seq<char>, StatsView>,
    pub paths: Map<Seq<char>, StatsView>,
    pub statuses: Map<u16, StatsView>,
    pub referers: Map<Seq<char>, StatsView>,
    pub user_agents: Map<Seq<char>, StatsView>,
    pub hours: Map<u8, StatsView>,
    pub dates: Map<Seq<char>, StatsView>,
    pub users: Map<Seq<char>, StatsView>,
    pub start: Option<Moment>,
    pub end: Option<Moment>,
}

/// The state before any record.
pub open spec fn empty_stats() -> LogStatsView {
    LogStatsView {
        total: zero_stats(),
        clients: Map::empty(),
        hosts: Map::empty(),
        methods: Map::empty(),
        paths: Map::empty(),
        statuses: Map::empty(),
        referers: Map::empty(),
        user_agents: Map::empty(),
        hours: Map::empty(),
        dates: Map::empty(),
        users: Map::empty(),
        start: None,
        end: None,
    }
}

/// What one record adds under each of its keys.
pub open spec fn record_stats(r: RecordView) -> StatsView {
    StatsView { requests: 1, request_time: r.request_time as nat, sent_bytes: r.sent_bytes as nat }
}

/// The state after one more record, given the seconds of its wall clock read
/// as UTC and the key of its day.
pub open spec fn apply_keyed(
    v: LogStatsView,
    r: RecordView,
    wall_secs: int,
    date: Seq<char>,
) -> LogStatsView {
    let d = record_stats(r);
    LogStatsView {
        total: add_stats(v.total, d),
        clients: upsert(v.clients, r.remote_addr, d),
        hosts: upsert(v.hosts, r.host, d),
        methods: upsert(v.methods, r.method, d),
        paths: upsert(v.paths, r.path, d),
        statuses: upsert(v.statuses, r.status, d),
        referers: upsert(v.referers, r.referer, d),
        user_agents: upsert(v.user_agents, r.user_agent, d),
        hours: upsert(v.hours, r.local_time.hour as u8, d),
        dates: upsert(v.dates, date, d),
        users: upsert(v.users, r.user, d),
        start: earliest(v.start, moment_at(r.local_time, wall_secs)),
        end: latest(v.end, moment_at(r.local_time, wall_secs)),
    }
}

/// The state after one more record.
pub open spec fn apply_record(v: LogStatsView, r: RecordView) -> LogStatsView {
    apply_keyed(v, r, utc_seconds_of(r.local_time), date_key(r.local_time))
}

/// The state after a sequence of records, from the empty state.
pub open spec fn stats_of(records: Seq<RecordView>) -> LogStatsView
    decreases records.len(),
{
    if records.len() == 0 {
        empty_stats()
    } else {
        apply_record(stats_of(records.drop_last()), records.last())
    }
}

fn moment_before(a: &Moment, b: &Moment) -> (r: bool)
    ensures
        r == moment_lt(*a, *b),
{
    if a.instant != b.instant {
        a.instant < b.instant
    } else if a.time.utcoff != b.time.utcoff {
        a.time.utcoff < b.time.utcoff
    } else if a.time.year != b.time.year {
        a.time.year < b.time.year
    } else if a.time.mon != b.time.mon {
        a.time.mon < b.time.mon
    } else if a.time.mday != b.time.mday {
        a.time.mday < b.time.mday
    } else if a.time.hour != b.time.hour {
        a.time.hour < b.time.hour
    } else if a.time.min != b.time.min {
        a.time.min < b.time.min
    } else {
        a.time.sec < b.time.sec
    }
}

/// Widens the interval seen to the moment `m`.
fn update_interval(start: &mut Option<Moment>, end: &mut Option<Moment>, m: Moment)
    ensures
        *final(start) == earliest(*old(start), m),
        *final(end) == latest(*old(end), m),
{
    *start = match *start {
        None => Some(m),
        Some(c) => if moment_before(&m, &c) {
            Some(m)
        } else {
            Some(c)
        },
    };
    *end = match *end {
        None => Some(m),
        Some(c) => if moment_before(&c, &m) {
            Some(m)
        } else {
            Some(c)
        },
    };
}

/// Counts one record in the totals.
fn update_totals(totals: &mut ObjectStats, record: &HTTPLogRecord)
    requires
        old(totals).requests < u64::MAX,
        old(totals).request_time + record.request_time <= u64::MAX,
        old(totals).sent_bytes + record.sent_bytes <= u64::MAX,
    ensures
        final(totals)@ == add_stats(old(totals)@, record_stats(record@)),
{
    totals.requests = totals.requests + 1;
    totals.request_time = totals.request_time + record.request_time;
    totals.sent_bytes = totals.sent_bytes + record.sent_bytes;
}

/// Statistics of a run: ten grouping tables, totals, and the interval seen.
pub struct LogStats {
    pub start: Option<Moment>,
    pub end: Option<Moment>,
    pub total: ObjectStats,
    pub clients: StatsTable<String>,
    pub hosts: StatsTable<String>,
    pub methods: StatsTable<String>,
    pub paths: StatsTable<String>,
    pub statuses: StatsTable<HTTPStatus>,
    pub referers: StatsTable<String>,
    pub user_agents: StatsTable<String>,
    pub hours: StatsTable<u8>,
    pub dates: StatsTable<String>,
    pub users: StatsTable<String>,
}

impl View for LogStats {
    type V = LogStatsView;

    open spec fn view(&self) -> LogStatsView {
        LogStatsView {
            total: self.total@,
            clients: self.clients@,
            hosts: self.hosts@,
            methods: self.methods@,
            paths: self.paths@,
            statuses: self.statuses@,
            referers: self.referers@,
            user_agents: self.user_agents@,
            hours: self.hours@,
            dates: self.dates@,
            users: self.users@,
            start: self.start,
            end: self.end,
        }
    }
}

impl LogStats {
    /// Every table keeps its keys unique, and in every table the statistics
    /// of all keys add up to the totals.
    pub open spec fn wf(&self) -> bool {
        &&& self.start matches Some(m) ==> m.time.wf()
        &&& self.end matches Some(m) ==> m.time.wf()
        &&& self.clients.wf() && self.clients.sum() == self.total@
        &&& self.hosts.wf() && self.hosts.sum() == self.total@
        &&& self.methods.wf() && self.methods.sum() == self.total@
        &&& self.paths.wf() && self.paths.sum() == self.total@
        &&& self.statuses.wf() && self.statuses.sum() == self.total@
        &&& self.referers.wf() && self.referers.sum() == self.total@
        &&& self.user_agents.wf() && self.user_agents.sum() == self.total@
        &&& self.hours.wf() && self.hours.sum() == self.total@
        &&& self.dates.wf() && self.dates.sum() == self.total@
        &&& self.users.wf() && self.users.sum() == self.total@
    }

    pub fn new() -> (r: LogStats)
        ensures
            r.wf(),
            r@ == empty_stats(),
    {
        LogStats {
            start: None,
            end: None,
            total: ObjectStats { requests: 0, request_time: 0, sent_bytes: 0 },
            clients: StatsTable::new(),
            hosts: StatsTable::new(),
            methods: StatsTable::new(),
            paths: StatsTable::new(),
            statuses: StatsTable::new(),
            referers: StatsTable::new(),
            user_agents: StatsTable::new(),
            hours: StatsTable::new(),
            dates: StatsTable::new(),
            users: StatsTable::new(),
        }
    }

    /// Checks whether `record` can be counted without overflowing the totals.
    pub fn can_process(&self, record: &HTTPLogRecord) -> (r: bool)
        requires
            self.wf(),
        ensures
            r == self.accepts(record),
    {
        record.local_time.is_wf() && self.total.requests < u64::MAX && record.request_time
            <= u64::MAX - self.total.request_time && record.sent_bytes <= u64::MAX
            - self.total.sent_bytes
    }
}

impl LogProcessor for LogStats {
    /// The state is consistent, the record's time is in range, and the
    /// totals have room for the record.
    open spec fn accepts(&self, record: &HTTPLogRecord) -> bool {
        &&& self.wf()
        &&& record.local_time.wf()
        &&& self@.total.requests < u64::MAX
        &&& self@.total.request_time + record.request_time <= u64::MAX
        &&& self@.total.sent_bytes + record.sent_bytes <= u64::MAX
    }

    /// Counts one record in the totals and under its key in every table, and
    /// widens the interval seen to its moment.
    fn process(&mut self, record: HTTPLogRecord)
        ensures
            final(self).wf(),
            final(self)@ == apply_record(old(self)@, record@),
    {
        let wall_secs = utc_seconds(&record.local_time);
        let date = match strftime(&record.local_time, DATE_FORMAT) {
            Ok(text) => text,
            Err(_) => {
                proof {
                    assert(false);
                }
                String::new()
            },
        };
        self.process_keyed(record, wall_secs, date);
    }
}

impl LogStats {
    /// Counts one record whose wall clock, read as UTC, is `wall_secs` seconds
    /// after the epoch and whose day has the key `date`.
    pub fn process_keyed(&mut self, record: HTTPLogRecord, wall_secs: i64, date: String)
        requires
            old(self).accepts(&record),
        ensures
            final(self).wf(),
            final(self)@ == apply_keyed(old(self)@, record@, wall_secs as int, date@),
    {
        let ghost rv = record@;
        let t = record.local_time;
        let m = Moment { instant: wall_secs as i128 - t.utcoff as i128, time: t };
        assert(m == moment_at(t, wall_secs as int));
        update_interval(&mut self.start, &mut self.end, m);
        update_totals(&mut self.total, &record);
        let d = ObjectStats { requests: 1, request_time: record.request_time, sent_bytes: record.sent_bytes };
        self.clients.update(record.remote_addr, d);
        self.hosts.update(record.host, d);
        self.methods.update(record.method, d);
        self.paths.update(record.path, d);
        self.statuses.update(record.status, d);
        self.referers.update(record.referer, d);
        self.user_agents.update(record.user_agent, d);
        self.hours.update(t.hour as u8, d);
        self.dates.update(date, d);
        self.users.update(record.user, d);
        assert(self@ =~= apply_keyed(old(self)@, rv, wall_secs as int, date@));
    }
}

/// In every table, the statistics of all keys add up to the totals: the
/// request counts of all clients (hosts, methods, ...) sum to the number of
/// requests, and likewise for request time and bytes sent.
pub proof fn lemma_tables_add_up(stats: &LogStats)
    requires
        stats.wf(),
    ensures
        stats@.clients.dom().finite() && map_sum(stats@.clients) == stats@.total,
        stats@.hosts.dom().finite() && map_sum(stats@.hosts) == stats@.total,
        stats@.methods.dom().finite() && map_sum(stats@.methods) == stats@.total,
        stats@.paths.dom().finite() && map_sum(stats@.paths) == stats@.total,
        stats@.statuses.dom().finite() && map_sum(stats@.statuses) == stats@.total,
        stats@.referers.dom().finite() && map_sum(stats@.referers) == stats@.total,
        stats@.user_agents.dom().finite() && map_sum(stats@.user_agents) == stats@.total,
        stats@.hours.dom().finite() && map_sum(stats@.hours) == stats@.total,
        stats@.dates.dom().finite() && map_sum(stats@.dates) == stats@.total,
        stats@.users.dom().finite() && map_sum(stats@.users) == stats@.total,
{
    stats.clients.lemma_sum();
    stats.hosts.lemma_sum();
    stats.methods.lemma_sum();
    stats.paths.lemma_sum();
    stats.statuses.lemma_sum();
    stats.referers.lemma_sum();
    stats.user_agents.lemma_sum();
    stats.hours.lemma_sum();
    stats.dates.lemma_sum();
    stats.users.lemma_sum();
}

proof fn lemma_upsert_commutes<V>(m: Map<V, StatsView>, k1: V, d1: StatsView, k2: V, d2: StatsView)
    ensures
        upsert(upsert(m, k1, d1), k2, d2) == upsert(upsert(m, k2, d2), k1, d1),
{
    assert(upsert(upsert(m, k1, d1), k2, d2) =~= upsert(upsert(m, k2, d2), k1, d1));
}

/// Two records give the same state whichever of them comes first.
pub proof fn lemma_apply_commutes(v: LogStatsView, a: RecordView, b: RecordView)
    ensures
        apply_record(apply_record(v, a), b) == apply_record(apply_record(v, b), a),
{
    let (da, db) = (record_stats(a), record_stats(b));
    lemma_upsert_commutes(v.clients, a.remote_addr, da, b.remote_addr, db);
    lemma_upsert_commutes(v.hosts, a.host, da, b.host, db);
    lemma_upsert_commutes(v.methods, a.method, da, b.method, db);
    lemma_upsert_commutes(v.paths, a.path, da, b.path, db);
    lemma_upsert_commutes(v.statuses, a.status, da, b.status, db);
    lemma_upsert_commutes(v.referers, a.referer, da, b.referer, db);
    lemma_upsert_commutes(v.user_agents, a.user_agent, da, b.user_agent, db);
    lemma_upsert_commutes(v.hours, a.local_time.hour as u8, da, b.local_time.hour as u8, db);
    lemma_upsert_commutes(v.dates, date_key(a.local_time), da, date_key(b.local_time), db);
    let (ma, mb) = (moment_of(a.local_time), moment_of(b.local_time));
    assert(earliest(earliest(v.start, ma), mb) == earliest(earliest(v.start, mb), ma));
    assert(latest(latest(v.end, ma), mb) == latest(latest(v.end, mb), ma));
    lemma_upsert_commutes(v.users, a.user, da, b.user, db);
}

proof fn lemma_stats_of_insert(s: Seq<RecordView>, i: int, x: RecordView)
    requires
        0 <= i <= s.len(),
    ensures
        stats_of(s.insert(i, x)) == apply_record(stats_of(s), x),
    decreases s.len(),
{
    if i == s.len() {
        assert(s.insert(i, x).drop_last() =~= s);
    } else {
        let u = s.drop_last();
        assert(s.insert(i, x).drop_last() =~= u.insert(i, x));
        assert(s.insert(i, x).last() == s.last());
        lemma_stats_of_insert(u, i, x);
        lemma_apply_commutes(stats_of(u), x, s.last());
    }
}

/// Aggregation does not depend on the order of the records: any two
/// arrangements of the same records give the same tables, totals and interval.
pub proof fn lemma_order_independent(a: Seq<RecordView>, b: Seq<RecordView>)
    requires
        a.to_multiset() == b.to_multiset(),
    ensures
        stats_of(a) == stats_of(b),
    decreases a.len(),
{
    broadcast use vstd::seq_lib::group_to_multiset_ensures;

    if a.len() == 0 {
        assert(b.to_multiset().len() == 0);
        assert(b =~= Seq::<RecordView>::empty());
    } else {
        let x = a.last();
        let u = a.drop_last();
        assert(a =~= u.push(x));
        assert(a.to_multiset().contains(x));
        assert(b.to_multiset().contains(x));
        let i = choose|i: int| 0 <= i < b.len() && b[i] == x;
        let w = b.remove(i);
        assert(w.insert(i, x) =~= b);
        assert(u.to_multiset() =~= a.to_multiset().remove(x));
        assert(w.to_multiset() =~= b.to_multiset().remove(x));
        lemma_order_independent(u, w);
        lemma_stats_of_insert(w, i, x);
    }
}

} // verus!
