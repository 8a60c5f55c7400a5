//! Ranking a table's rows: by request count, most first; ties broken by the
//! key's text in character order, then by request time and bytes sent.

use vstd::prelude::*;
use vstd::relations::{sorted_by, total_ordering};

use crate::table::{ObjectStats, StatKey, StatsTable, StatsView};
use crate::text::chars_of;

verus! {

/// A row of a ranking: a key's text and its statistics.
pub type RowView = (Seq<char>, StatsView);

/// `a` comes no later than `b` in character-code order.
pub open spec fn text_le(a: Seq<char>, b: Seq<char>) -> bool
    decreases a.len(),
{
    if a.len() == 0 {
        true
    } else if b.len() == 0 {
        false
    } else if a[0] != b[0] {
        (a[0] as int) < (b[0] as int)
    } else {
        text_le(a.drop_first(), b.drop_first())
    }
}

/// Row `a` may stand before row `b`.
pub open spec fn row_le(a: RowView, b: RowView) -> bool {
    if a.1.requests != b.1.requests {
        a.1.requests > b.1.requests
    } else if a.0 != b.0 {
        text_le(a.0, b.0)
    } else if a.1.request_time != b.1.request_time {
        a.1.request_time < b.1.request_time
    } else {
        a.1.sent_bytes <= b.1.sent_bytes
    }
}

proof fn lemma_text_le_antisymmetric(a: Seq<char>, b: Seq<char>)
    requires
        text_le(a, b),
        text_le(b, a),
    ensures
        a == b,
    decreases a.len(),
{
    if a.len() > 0 && b.len() > 0 && a[0] == b[0] {
        lemma_text_le_antisymmetric(a.drop_first(), b.drop_first());
        assert(a =~= seq![a[0]] + a.drop_first());
        assert(b =~= seq![b[0]] + b.drop_first());
    }
}

proof fn lemma_text_le_transitive(a: Seq<char>, b: Seq<char>, c: Seq<char>)
    requires
        text_le(a, b),
        text_le(b, c),
    ensures
        text_le(a, c),
    decreases a.len(),
{
    if a.len() > 0 && b.len() > 0 && c.len() > 0 && a[0] == b[0] && b[0] == c[0] {
        lemma_text_le_transitive(a.drop_first(), b.drop_first(), c.drop_first());
    }
}

proof fn lemma_text_le_total(a: Seq<char>, b: Seq<char>)
    ensures
        text_le(a, b) || text_le(b, a),
    decreases a.len(),
{
    if a.len() > 0 && b.len() > 0 && a[0] == b[0] {
        lemma_text_le_total(a.drop_first(), b.drop_first());
    }
}

proof fn lemma_text_le_reflexive(a: Seq<char>)
    ensures
        text_le(a, a),
    decreases a.len(),
{
    if a.len() > 0 {
        lemma_text_le_reflexive(a.drop_first());
    }
}

/// The row order is a total order.
pub proof fn lemma_row_le_total_ordering()
    ensures
        total_ordering(row_order()),
{
    let leq = row_order();
    assert forall|a: RowView| #[trigger] leq(a, a) by {
        lemma_text_le_reflexive(a.0);
    }
    assert forall|a: RowView, b: RowView| #[trigger] leq(a, b) && #[trigger] leq(b, a) implies a
        == b by {
        if a.0 != b.0 && a.1.requests == b.1.requests {
            lemma_text_le_antisymmetric(a.0, b.0);
        }
    }
    assert forall|a: RowView, b: RowView, c: RowView| #[trigger] leq(a, b) && #[trigger] leq(
        b,
        c,
    ) implies leq(a, c) by {
        if a.1.requests == b.1.requests && b.1.requests == c.1.requests {
            if a.0 != b.0 && b.0 != c.0 {
                lemma_text_le_transitive(a.0, b.0, c.0);
                if a.0 == c.0 {
                    lemma_text_le_antisymmetric(a.0, b.0);
                }
            }
        }
    }
    assert forall|a: RowView, b: RowView| #[trigger] leq(a, b) || #[trigger] leq(b, a) by {
        lemma_text_le_total(a.0, b.0);
    }
}

/// The row order as a relation.
pub open spec fn row_order() -> spec_fn(RowView, RowView) -> bool {
    |a: RowView, b: RowView| row_le(a, b)
}

/// The rows of a table, ranked.
pub open spec fn ranked(rows: Seq<RowView>) -> Seq<RowView> {
    rows.sort_by(row_order())
}

/// A row of a report: a key's text and its statistics.
pub struct Row {
    pub key: String,
    pub stats: ObjectStats,
}

impl View for Row {
    type V = RowView;

    open spec fn view(&self) -> RowView {
        (self.key@, self.stats@)
    }
}

fn text_before(a: &Vec<char>, b: &Vec<char>) -> (r: bool)
    ensures
        r == text_le(a@, b@),
{
    let mut i: usize = 0;
    assert(a@.skip(0) =~= a@);
    assert(b@.skip(0) =~= b@);
    while i < a.len() && i < b.len() && a[i] == b[i]
        invariant
            i <= a.len(),
            i <= b.len(),
            text_le(a@, b@) == text_le(a@.skip(i as int), b@.skip(i as int)),
        decreases a.len() - i,
    {
        proof {
            assert(a@.skip(i as int).drop_first() =~= a@.skip(i + 1));
            assert(b@.skip(i as int).drop_first() =~= b@.skip(i + 1));
        }
        i = i + 1;
    }
    if i == a.len() {
        true
    } else if i == b.len() {
        false
    } else {
        a[i] < b[i]
    }
}

fn row_before(a: &Row, b: &Row) -> (r: bool)
    ensures
        r == row_le(a@, b@),
{
    if a.stats.requests != b.stats.requests {
        a.stats.requests > b.stats.requests
    } else if a.key != b.key {
        text_before(&chars_of(a.key.as_str()), &chars_of(b.key.as_str()))
    } else if a.stats.request_time != b.stats.request_time {
        a.stats.request_time < b.stats.request_time
    } else {
        a.stats.sent_bytes <= b.stats.sent_bytes
    }
}

/// The rows of `rows`, ranked.
pub fn rank_rows(rows: Vec<Row>) -> (r: Vec<Row>)
    ensures
        r@.map_values(|x: Row| x@) == ranked(rows@.map_values(|x: Row| x@)),
{
    let ghost leq = row_order();
    let ghost input = rows@.map_values(|x: Row| x@);
    proof {
        lemma_row_le_total_ordering();
    }
    let mut out: Vec<Row> = Vec::new();
    let mut rest = rows;
    let ghost taken: Seq<RowView> = Seq::empty();
    proof {
        broadcast use vstd::seq_lib::group_to_multiset_ensures;

        assert(out@.map_values(|x: Row| x@) =~= Seq::<RowView>::empty());
        assert(rows@ =~= rest@);
    }
    while rest.len() > 0
        invariant
            leq == row_order(),
            total_ordering(leq),
            sorted_by(out@.map_values(|x: Row| x@), leq),
            input =~= taken + rest@.map_values(|x: Row| x@),
            out@.map_values(|x: Row| x@).to_multiset() == taken.to_multiset(),
        decreases rest.len(),
    {
        let x = rest.remove(0);
        let ghost o = out@.map_values(|y: Row| y@);
        let mut j: usize = 0;
        while j < out.len() && row_before(&out[j], &x)
            invariant
                j <= out.len(),
                o == out@.map_values(|y: Row| y@),
                forall|k: int| 0 <= k < j ==> row_le(#[trigger] o[k], x@),
            decreases out.len() - j,
        {
            assert(o[j as int] == out@[j as int]@);
            j = j + 1;
        }
        proof {
            if j < out.len() {
                assert(o[j as int] == out@[j as int]@);
            }
        }
        out.insert(j, x);
        proof {
            let o2 = out@.map_values(|y: Row| y@);
            assert(o2 =~= o.insert(j as int, x@));
            if j < o.len() {
                assert(!leq(o[j as int], x@));
                assert(leq(x@, o[j as int]));
            }
            assert forall|a: int, b: int| 0 <= a < b < o2.len() implies #[trigger] leq(o2[a], o2[b]) by {
                if b < j {
                    assert(o2[a] == o[a] && o2[b] == o[b]);
                } else if b == j {
                    assert(o2[a] == o[a]);
                    assert(row_le(o[a], x@));
                } else if a < j {
                    assert(o2[a] == o[a] && o2[b] == o[b - 1]);
                    assert(row_le(o[a], x@));
                    assert(leq(x@, o[j as int]));
                    if b - 1 > j {
                        assert(leq(o[j as int], o[b - 1]));
                    }
                    assert(leq(x@, o[b - 1]));
                } else if a == j {
                    assert(o2[b] == o[b - 1]);
                    if b - 1 > j {
                        assert(leq(o[j as int], o[b - 1]));
                    }
                } else {
                    assert(o2[a] == o[a - 1]);
                    assert(o2[b] == o[b - 1]);
                }
            }
            vstd::seq_lib::to_multiset_insert(o, j as int, x@);
            let t2 = taken.push(x@);
            assert(t2.to_multiset() =~= taken.to_multiset().insert(x@)) by {
                broadcast use vstd::seq_lib::group_to_multiset_ensures;
            }
            taken = t2;
        }
    }
    proof {
        let o = out@.map_values(|y: Row| y@);
        assert(input =~= taken);
        input.lemma_sort_by_ensures(leq);
        vstd::seq_lib::lemma_sorted_unique(o, input.sort_by(leq), leq);
    }
    out
}

} // verus!
