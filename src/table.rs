//! A grouping table: per-key request statistics with the keys kept unique.

use vstd::prelude::*;

use crate::log::{status_text, HTTPStatus};
use crate::ranking::{Row, RowView};
use crate::text::{decimal, decimal_string};

verus! {

/// Request statistics as plain numbers.
pub ghost struct StatsView {
    pub requests: nat,
    pub request_time: nat,
    pub sent_bytes: nat,
}

/// The field-wise sum of two statistics.
pub open spec fn add_stats(a: StatsView, b: StatsView) -> StatsView {
    StatsView {
        requests: a.requests + b.requests,
        request_time: a.request_time + b.request_time,
        sent_bytes: a.sent_bytes + b.sent_bytes,
    }
}

/// No statistics yet.
pub open spec fn zero_stats() -> StatsView {
    StatsView { requests: 0, request_time: 0, sent_bytes: 0 }
}

/// Accumulated statistics of the requests that share a key.
#[derive(Clone, Copy, Debug, PartialEq, Eq, Structural)]
pub struct ObjectStats {
    pub requests: u64,
    /// Total request time in milliseconds.
    pub request_time: u64,
    pub sent_bytes: u64,
}

impl View for ObjectStats {
    type V = StatsView;

    open spec fn view(&self) -> StatsView {
        StatsView {
            requests: self.requests as nat,
            request_time: self.request_time as nat,
            sent_bytes: self.sent_bytes as nat,
        }
    }
}

/// A key of a grouping table.
pub trait StatKey: View + Sized {
    /// How the key is shown in a report.
    spec fn key_text(k: Self::V) -> Seq<char>;

    fn same_key(&self, other: &Self) -> (r: bool)
        ensures
            r == (self@ == other@),
    ;

    fn to_text(&self) -> (r: String)
        ensures
            r@ == Self::key_text(self@),
    ;
}

impl StatKey for String {
    open spec fn key_text(k: Seq<char>) -> Seq<char> {
        k
    }

    fn same_key(&self, other: &String) -> (r: bool) {
        *self == *other
    }

    fn to_text(&self) -> (r: String) {
        self.clone()
    }
}

impl StatKey for u8 {
    open spec fn key_text(k: u8) -> Seq<char> {
        decimal(k as nat)
    }

    fn same_key(&self, other: &u8) -> (r: bool) {
        *self == *other
    }

    fn to_text(&self) -> (r: String) {
        decimal_string(*self as u64)
    }
}

impl View for HTTPStatus {
    type V = u16;

    open spec fn view(&self) -> u16 {
        self.status
    }
}

impl StatKey for HTTPStatus {
    open spec fn key_text(k: u16) -> Seq<char> {
        status_text(k)
    }

    fn same_key(&self, other: &HTTPStatus) -> (r: bool) {
        self.status == other.status
    }

    fn to_text(&self) -> (r: String) {
        HTTPStatus::to_text(self)
    }
}

/// The map that a sequence of entries with unique keys stands for.
pub open spec fn entries_map<V>(s: Seq<(V, StatsView)>) -> Map<V, StatsView>
    decreases s.len(),
{
    if s.len() == 0 {
        Map::empty()
    } else {
        entries_map(s.drop_last()).insert(s.last().0, s.last().1)
    }
}

/// The sum of the statistics of all entries.
pub open spec fn entries_sum<V>(s: Seq<(V, StatsView)>) -> StatsView
    decreases s.len(),
{
    if s.len() == 0 {
        zero_stats()
    } else {
        add_stats(entries_sum(s.drop_last()), s.last().1)
    }
}

/// No key occurs twice.
pub open spec fn unique_keys<V>(s: Seq<(V, StatsView)>) -> bool {
    forall|i: int, j: int| 0 <= i < j < s.len() ==> #[trigger] s[i].0 != #[trigger] s[j].0
}

/// The table after one request with statistics `d` under key `k`: a new key
/// starts at `d`, a known one adds `d` to what it had.
pub open spec fn upsert<V>(m: Map<V, StatsView>, k: V, d: StatsView) -> Map<V, StatsView> {
    if m.contains_key(k) {
        m.insert(k, add_stats(m[k], d))
    } else {
        m.insert(k, d)
    }
}

proof fn lemma_entries_map_index<V>(s: Seq<(V, StatsView)>, i: int)
    requires
        unique_keys(s),
        0 <= i < s.len(),
    ensures
        entries_map(s).contains_key(s[i].0),
        entries_map(s)[s[i].0] == s[i].1,
    decreases s.len(),
{
    if i < s.len() - 1 {
        let u = s.drop_last();
        assert(u[i] == s[i]);
        assert(s[i].0 != s[s.len() - 1].0);
        lemma_entries_map_index(u, i);
    }
}

proof fn lemma_entries_map_absent<V>(s: Seq<(V, StatsView)>, k: V)
    requires
        forall|i: int| 0 <= i < s.len() ==> #[trigger] s[i].0 != k,
    ensures
        !entries_map(s).contains_key(k),
    decreases s.len(),
{
    if s.len() > 0 {
        let u = s.drop_last();
        assert forall|i: int| 0 <= i < u.len() implies #[trigger] u[i].0 != k by {
            assert(u[i] == s[i]);
        }
        lemma_entries_map_absent(u, k);
    }
}

proof fn lemma_entries_update<V>(s: Seq<(V, StatsView)>, i: int, d: StatsView)
    requires
        unique_keys(s),
        0 <= i < s.len(),
    ensures
        entries_map(s.update(i, (s[i].0, add_stats(s[i].1, d)))) == entries_map(s).insert(
            s[i].0,
            add_stats(s[i].1, d),
        ),
        entries_sum(s.update(i, (s[i].0, add_stats(s[i].1, d)))) == add_stats(entries_sum(s), d),
    decreases s.len(),
{
    let x = (s[i].0, add_stats(s[i].1, d));
    let t = s.update(i, x);
    if i == s.len() - 1 {
        assert(t.drop_last() =~= s.drop_last());
        if s.len() > 1 {
            assert(unique_keys(s.drop_last()));
        }
        lemma_entries_map_absent_after(s, i);
        assert(entries_map(t) =~= entries_map(s).insert(s[i].0, add_stats(s[i].1, d)));
    } else {
        let u = s.drop_last();
        assert(t.drop_last() =~= u.update(i, x));
        assert(u[i] == s[i]);
        lemma_entries_update(u, i, d);
        assert(s[i].0 != s.last().0);
        assert(entries_map(t) =~= entries_map(s).insert(s[i].0, add_stats(s[i].1, d)));
    }
}

proof fn lemma_entries_map_absent_after<V>(s: Seq<(V, StatsView)>, i: int)
    requires
        unique_keys(s),
        i == s.len() - 1,
        0 <= i,
    ensures
        entries_map(s) == entries_map(s.drop_last()).insert(s[i].0, s[i].1),
{
}

proof fn lemma_entry_le_sum<V>(s: Seq<(V, StatsView)>, i: int)
    requires
        0 <= i < s.len(),
    ensures
        s[i].1.requests <= entries_sum(s).requests,
        s[i].1.request_time <= entries_sum(s).request_time,
        s[i].1.sent_bytes <= entries_sum(s).sent_bytes,
    decreases s.len(),
{
    if i < s.len() - 1 {
        let u = s.drop_last();
        assert(u[i] == s[i]);
        lemma_entry_le_sum(u, i);
    }
}

/// Per-key statistics for one dimension.
pub struct StatsTable<K> {
    entries: Vec<(K, ObjectStats)>,
}

impl<K: StatKey> StatsTable<K> {
    /// The entries as plain values, in the order their keys first came.
    pub closed spec fn entries_view(&self) -> Seq<(K::V, StatsView)> {
        self.entries@.map_values(|e: (K, ObjectStats)| (e.0@, e.1@))
    }

    /// What the table holds: a map from each key seen to its statistics.
    pub open spec fn view(&self) -> Map<K::V, StatsView> {
        entries_map(self.entries_view())
    }

    /// The sum of the statistics of all keys.
    pub open spec fn sum(&self) -> StatsView {
        entries_sum(self.entries_view())
    }

    pub open spec fn wf(&self) -> bool {
        unique_keys(self.entries_view())
    }

    pub fn new() -> (r: StatsTable<K>)
        ensures
            r.wf(),
            r@ == Map::<K::V, StatsView>::empty(),
            r.sum() == zero_stats(),
    {
        let r = StatsTable { entries: Vec::new() };
        assert(r.entries_view() =~= Seq::empty());
        r
    }

    /// The rows of a report on the table: each key's text and statistics,
    /// in the order the keys first came.
    pub open spec fn rows(&self) -> Seq<RowView> {
        self.entries_view().map_values(|e: (K::V, StatsView)| (K::key_text(e.0), e.1))
    }

    /// The rows of a report on the table.
    pub fn to_rows(&self) -> (r: Vec<Row>)
        ensures
            r@.map_values(|x: Row| x@) == self.rows(),
    {
        let mut out: Vec<Row> = Vec::new();
        let mut i: usize = 0;
        while i < self.entries.len()
            invariant
                i <= self.entries@.len(),
                out@.len() == i,
                self.rows().len() == self.entries@.len(),
                out@.map_values(|x: Row| x@) == self.rows().take(i as int),
            decreases self.entries@.len() - i,
        {
            let key = self.entries[i].0.to_text();
            assert(self.entries_view()[i as int] == (
                self.entries@[i as int].0@,
                self.entries@[i as int].1@,
            ));
            assert(self.rows()[i as int] == (key@, self.entries@[i as int].1@));
            let ghost prev = out@;
            let ghost row_view = (key@, self.entries@[i as int].1@);
            out.push(Row { key, stats: self.entries[i].1 });
            assert(out@.map_values(|x: Row| x@) =~= prev.map_values(|x: Row| x@).push(row_view));
            assert(self.rows().take(i + 1) =~= self.rows().take(i as int).push(row_view));
            i = i + 1;
        }
        assert(self.rows().take(i as int) =~= self.rows());
        out
    }

    /// The number of keys.
    pub fn len(&self) -> (r: usize)
        ensures
            r == self.entries_view().len(),
    {
        self.entries.len()
    }

    /// Counts one request under `key`.
    pub fn update(&mut self, key: K, d: ObjectStats)
        requires
            old(self).wf(),
            old(self).sum().requests + d.requests <= u64::MAX,
            old(self).sum().request_time + d.request_time <= u64::MAX,
            old(self).sum().sent_bytes + d.sent_bytes <= u64::MAX,
        ensures
            final(self).wf(),
            final(self)@ == upsert(old(self)@, key@, d@),
            final(self).sum() == add_stats(old(self).sum(), d@),
    {
        let ghost s = self.entries_view();
        let mut i: usize = 0;
        while i < self.entries.len()
            invariant
                self.entries_view() == s,
                s == old(self).entries_view(),
                unique_keys(s),
                i <= s.len(),
                forall|j: int| 0 <= j < i ==> #[trigger] s[j].0 != key@,
                s.len() == self.entries@.len(),
                entries_sum(s).requests + d.requests <= u64::MAX,
                entries_sum(s).request_time + d.request_time <= u64::MAX,
                entries_sum(s).sent_bytes + d.sent_bytes <= u64::MAX,
            decreases self.entries@.len() - i,
        {
            if self.entries[i].0.same_key(&key) {
                let old_stats = self.entries[i].1;
                proof {
                    assert(s[i as int].0 == key@);
                    assert(s[i as int].1 == old_stats@);
                    lemma_entry_le_sum(s, i as int);
                    lemma_entries_map_index(s, i as int);
                    lemma_entries_update(s, i as int, d@);
                }
                let new_stats = ObjectStats {
                    requests: old_stats.requests + d.requests,
                    request_time: old_stats.request_time + d.request_time,
                    sent_bytes: old_stats.sent_bytes + d.sent_bytes,
                };
                self.entries.set(i, (key, new_stats));
                proof {
                    assert(self.entries_view() =~= s.update(
                        i as int,
                        (s[i as int].0, add_stats(s[i as int].1, d@)),
                    ));
                    assert forall|a: int, b: int|
                        0 <= a < b < self.entries_view().len() implies #[trigger] self.entries_view()[a].0
                        != #[trigger] self.entries_view()[b].0 by {
                        assert(self.entries_view()[a].0 == s[a].0);
                        assert(self.entries_view()[b].0 == s[b].0);
                    }
                }
                return;
            }
            i = i + 1;
        }
        proof {
            lemma_entries_map_absent(s, key@);
        }
        self.entries.push((key, d));
        proof {
            let t = self.entries_view();
            assert(t =~= s.push((key@, d@)));
            assert(t.drop_last() =~= s);
            assert forall|a: int, b: int| 0 <= a < b < t.len() implies #[trigger] t[a].0 != #[trigger] t[b].0 by {
                if b < s.len() {
                    assert(t[a] == s[a]);
                    assert(t[b] == s[b]);
                } else {
                    assert(t[a] == s[a]);
                }
            }
        }
    }
}

/// The sum of the statistics of all keys of a finite map.
pub open spec fn map_sum<V>(m: Map<V, StatsView>) -> StatsView
    decreases m.len(),
    when m.dom().finite()
{
    if m.len() == 0 {
        zero_stats()
    } else {
        let k = m.dom().choose();
        add_stats(map_sum(m.remove(k)), m[k])
    }
}

/// Any key can be taken out of a map sum first.
pub proof fn lemma_map_sum_remove<V>(m: Map<V, StatsView>, j: V)
    requires
        m.dom().finite(),
        m.contains_key(j),
    ensures
        map_sum(m) == add_stats(map_sum(m.remove(j)), m[j]),
    decreases m.len(),
{
    let c = m.dom().choose();
    assert(m.dom().contains(j));
    assert(m.len() > 0);
    if c != j {
        assert(m.dom().contains(c));
        lemma_map_sum_remove(m.remove(c), j);
        lemma_map_sum_remove(m.remove(j), c);
        assert(m.remove(c).remove(j) =~= m.remove(j).remove(c));
    }
}

/// Adding a new key adds its statistics to the sum.
pub proof fn lemma_map_sum_insert<V>(m: Map<V, StatsView>, k: V, v: StatsView)
    requires
        m.dom().finite(),
        !m.contains_key(k),
    ensures
        map_sum(m.insert(k, v)) == add_stats(map_sum(m), v),
{
    lemma_map_sum_remove(m.insert(k, v), k);
    assert(m.insert(k, v).remove(k) =~= m);
}

/// Changing the statistics of a key changes the sum by as much.
pub proof fn lemma_map_sum_upsert<V>(m: Map<V, StatsView>, k: V, d: StatsView)
    requires
        m.dom().finite(),
    ensures
        map_sum(upsert(m, k, d)) == add_stats(map_sum(m), d),
{
    if m.contains_key(k) {
        lemma_map_sum_remove(m, k);
        lemma_map_sum_insert(m.remove(k), k, add_stats(m[k], d));
        assert(m.remove(k).insert(k, add_stats(m[k], d)) =~= upsert(m, k, d));
    } else {
        lemma_map_sum_insert(m, k, d);
    }
}

/// The entries of a table with unique keys sum to the sum of its map.
pub proof fn lemma_entries_sum_is_map_sum<V>(s: Seq<(V, StatsView)>)
    requires
        unique_keys(s),
    ensures
        entries_map(s).dom().finite(),
        entries_sum(s) == map_sum(entries_map(s)),
    decreases s.len(),
{
    if s.len() > 0 {
        let u = s.drop_last();
        assert(unique_keys(u));
        lemma_entries_sum_is_map_sum(u);
        assert forall|i: int| 0 <= i < u.len() implies #[trigger] u[i].0 != s.last().0 by {
            assert(u[i] == s[i]);
        }
        lemma_entries_map_absent(u, s.last().0);
        lemma_map_sum_insert(entries_map(u), s.last().0, s.last().1);
    }
}

impl<K: StatKey> StatsTable<K> {
    /// A table's map has finitely many keys, and its statistics add up to
    /// the table's sum.
    pub proof fn lemma_sum(&self)
        requires
            self.wf(),
        ensures
            self@.dom().finite(),
            map_sum(self@) == self.sum(),
    {
        lemma_entries_sum_is_map_sum(self.entries_view());
    }
}

} // verus!
