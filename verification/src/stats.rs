use vstd::prelude::*;

use crate::cache::Cache;
use crate::strutil::{chars_to_string, collect_chars, dec_rep, digit_char, str_eq, sub_vec,
    u64_to_string};
use vstd::string::{StrSliceExecFns, StringExecFns};

verus! {

/// Statistics snapshot for a single cache: its name, counters and size.
/// The hit rate is derived from the counters on demand rather than stored.
#[derive(Debug, Clone)]
pub struct CacheStats {
    pub name: String,
    pub hits: u64,
    pub misses: u64,
    pub entries: u64,
}

/// Mathematical image of a `CacheStats`.
pub ghost struct StatsView {
    pub name: Seq<char>,
    pub hits: u64,
    pub misses: u64,
    pub entries: u64,
}

impl View for CacheStats {
    type V = StatsView;

    open spec fn view(&self) -> StatsView {
        StatsView { name: self.name@, hits: self.hits, misses: self.misses, entries: self.entries }
    }
}

/// The hit rate of the counters in parts per ten thousand; zero when
/// nothing was recorded.
pub open spec fn rate_permyriad(hits: u64, misses: u64) -> int {
    if hits + misses == 0 {
        0
    } else {
        (hits * 10000) / (hits + misses)
    }
}

/// The rate rendered with four decimal places, as a whole part, a point and
/// four digits.
pub open spec fn rate_rep(hits: u64, misses: u64) -> Seq<char> {
    let r = rate_permyriad(hits, misses);
    dec_rep((r / 10000) as nat) + "."@ + seq![
        digit_char((r / 1000) % 10),
        digit_char((r / 100) % 10),
        digit_char((r / 10) % 10),
        digit_char(r % 10),
    ]
}

/// The JSON rendering of one snapshot.
pub open spec fn json_of(v: StatsView) -> Seq<char> {
    "{\n  \"name\": \""@ + v.name + "\",\n  \"hits\": "@ + dec_rep(v.hits as nat)
        + ",\n  \"misses\": "@ + dec_rep(v.misses as nat) + ",\n  \"entries\": "@ + dec_rep(
        v.entries as nat,
    ) + ",\n  \"hit_rate\": "@ + rate_rep(v.hits, v.misses) + ",\n  \"total_requests\": "@
        + dec_rep((v.hits + v.misses) as nat) + "\n}"@
}

impl CacheStats {
    /// A zeroed snapshot under the given name.
    pub fn new(name: String) -> (r: CacheStats)
        ensures
            r@.name == name@,
            r@.hits == 0,
            r@.misses == 0,
            r@.entries == 0,
    {
        CacheStats { name, hits: 0, misses: 0, entries: 0 }
    }

    /// The total number of recorded requests.
    pub fn total_requests(&self) -> (r: u64)
        requires
            self@.hits + self@.misses <= u64::MAX,
        ensures
            r == self@.hits + self@.misses,
    {
        self.hits + self.misses
    }

    /// The hit rate in parts per ten thousand of all recorded requests;
    /// exactly zero when nothing was recorded.
    pub fn hit_rate_permyriad(&self) -> (r: u64)
        ensures
            r == rate_permyriad(self@.hits, self@.misses),
    {
        let hits = self.hits as u128;
        let total = hits + (self.misses as u128);
        if total == 0 {
            0
        } else {
            let rate = (hits * 10000) / total;
            proof {
                assert(rate as int == (hits as int * 10000) / (total as int));
                assert((hits as int * 10000) / (total as int) <= 10000) by (nonlinear_arith)
                    requires
                        0 < total as int,
                        hits as int <= total as int,
                {
                }
            }
            rate as u64
        }
    }

    /// An equal snapshot.
    pub fn duplicate(&self) -> (r: CacheStats)
        ensures
            r@ == self@,
    {
        CacheStats {
            name: self.name.clone(),
            hits: self.hits,
            misses: self.misses,
            entries: self.entries,
        }
    }

    /// Renders the snapshot as a JSON object.
    pub fn to_json(&self) -> (r: String)
        requires
            self@.hits + self@.misses <= u64::MAX,
        ensures
            r@ == json_of(self@),
    {
        let mut s = String::new();
        s.append("{\n  \"name\": \"");
        s.append(self.name.as_str());
        s.append("\",\n  \"hits\": ");
        let h = u64_to_string(self.hits);
        s.append(h.as_str());
        s.append(",\n  \"misses\": ");
        let m = u64_to_string(self.misses);
        s.append(m.as_str());
        s.append(",\n  \"entries\": ");
        let e = u64_to_string(self.entries);
        s.append(e.as_str());
        s.append(",\n  \"hit_rate\": ");
        let rate = self.hit_rate_permyriad();
        let whole = u64_to_string(rate / 10000);
        s.append(whole.as_str());
        s.append(".");
        s.append(crate::strutil::digit_str((rate / 1000) % 10));
        s.append(crate::strutil::digit_str((rate / 100) % 10));
        s.append(crate::strutil::digit_str((rate / 10) % 10));
        s.append(crate::strutil::digit_str(rate % 10));
        s.append(",\n  \"total_requests\": ");
        let t = u64_to_string(self.hits + self.misses);
        s.append(t.as_str());
        s.append("\n}");
        proof {
            assert(s@ =~= json_of(self@));
        }
        s
    }
}

/// Builds the snapshot a cache publishes to a statistics sink.
pub fn snapshot_of(c: &Cache, name: String) -> (r: CacheStats)
    requires
        c.wf(),
    ensures
        r@.name == name@,
        r@.hits == c.model().hits,
        r@.misses == c.model().misses,
        r@.entries as nat == c.model().entries.dom().len(),
{
    let n = c.len();
    CacheStats { name, hits: c.hit_count(), misses: c.miss_count(), entries: n as u64 }
}

/// Builds the cache's current snapshot and files it in the collector under
/// `name`, replacing any earlier one: the publish step that follows each
/// cache operation.
pub fn publish_snapshot(c: &Cache, name: &str, g: &mut GlobalStats)
    requires
        c.wf(),
        old(g).wf(),
    ensures
        final(g).wf(),
        ({
            let filed = lookup(final(g).rows(), name@);
            &&& filed matches Option::Some(v)
            &&& (filed matches Option::Some(v) ==> v.name == name@ && v.hits == c.model().hits
                && v.misses == c.model().misses && v.entries as nat
                == c.model().entries.dom().len())
        }),
        forall|n2: Seq<char>|
            n2 != name@ ==> #[trigger] lookup(final(g).rows(), n2) == lookup(old(g).rows(), n2),
{
    let snap = snapshot_of(c, name.to_owned());
    g.register(name.to_owned(), snap);
}

/// The first snapshot of `rows` filed under `name`, if any.
pub open spec fn lookup(rows: Seq<(String, CacheStats)>, name: Seq<char>) -> Option<StatsView>
    decreases rows.len(),
{
    if rows.len() == 0 {
        Option::None
    } else if rows[0].0@ == name {
        Option::Some(rows[0].1@)
    } else {
        lookup(rows.subrange(1, rows.len() as int), name)
    }
}

/// The total hits over the rows.
pub open spec fn sum_hits(rows: Seq<(String, CacheStats)>) -> int
    decreases rows.len(),
{
    if rows.len() == 0 {
        0
    } else {
        sum_hits(rows.drop_last()) + rows.last().1@.hits
    }
}

/// The total misses over the rows.
pub open spec fn sum_misses(rows: Seq<(String, CacheStats)>) -> int
    decreases rows.len(),
{
    if rows.len() == 0 {
        0
    } else {
        sum_misses(rows.drop_last()) + rows.last().1@.misses
    }
}

/// The total entry count over the rows.
pub open spec fn sum_entries(rows: Seq<(String, CacheStats)>) -> int
    decreases rows.len(),
{
    if rows.len() == 0 {
        0
    } else {
        sum_entries(rows.drop_last()) + rows.last().1@.entries
    }
}

/// A collection of cache snapshots, one per name.
///
/// The collector is an explicit object, passed to whoever publishes or
/// reads statistics, rather than a process-wide singleton: that keeps the
/// shared state visible and testable.
pub struct GlobalStats {
    table: Vec<(String, CacheStats)>,
}

impl GlobalStats {
    /// The stored rows, in insertion order.
    pub closed spec fn rows(&self) -> Seq<(String, CacheStats)> {
        self.table@
    }

    /// Names are unique.
    pub open spec fn wf(&self) -> bool {
        forall|i: int, j: int|
            0 <= i < j < self.rows().len() ==> (#[trigger] self.rows()[i]).0@ != (
            #[trigger] self.rows()[j]).0@
    }

    /// Creates an empty collector.
    pub fn new() -> (r: GlobalStats)
        ensures
            r.wf(),
            r.rows().len() == 0,
    {
        GlobalStats { table: Vec::new() }
    }

    /// Files `stats` under `name`, replacing any snapshot already there.
    pub fn register(&mut self, name: String, stats: CacheStats)
        requires
            old(self).wf(),
        ensures
            final(self).wf(),
            lookup(final(self).rows(), name@) == Option::Some(stats@),
            forall|n2: Seq<char>|
                n2 != name@ ==> #[trigger] lookup(final(self).rows(), n2) == lookup(
                    old(self).rows(),
                    n2,
                ),
    {
        let mut i: usize = 0;
        let n = self.table.len();
        while i < n
            invariant
                i <= n,
                n == self.rows().len(),
                *self == *old(self),
                old(self).wf(),
                forall|j: int| 0 <= j < i ==> (#[trigger] self.rows()[j]).0@ != name@,
            decreases n - i,
        {
            if str_eq(self.table[i].0.as_str(), name.as_str()) {
                let ghost pre = self.table@;
                self.table[i] = (name, stats);
                proof {
                    lemma_lookup_update(pre, i as int, self.table@[i as int], name@);
                    assert forall|n2: Seq<char>| n2 != name@ implies #[trigger] lookup(
                        self.table@,
                        n2,
                    ) == lookup(pre, n2) by {
                        lemma_lookup_update_other(pre, i as int, self.table@[i as int], n2);
                    }
                    assert forall|a: int, b: int| 0 <= a < b < self.table@.len() implies (
                    #[trigger] self.table@[a]).0@ != (#[trigger] self.table@[b]).0@ by {
                        assert(pre == old(self).rows());
                        assert(old(self).rows()[a].0@ != old(self).rows()[b].0@);
                        assert(self.table@[a].0@ == pre[a].0@);
                        assert(self.table@[b].0@ == pre[b].0@);
                    }
                }
                return ;
            }
            i += 1;
        }
        let ghost pre = self.table@;
        self.table.push((name, stats));
        proof {
            lemma_lookup_push_new(pre, self.table@[pre.len() as int], name@);
            assert forall|n2: Seq<char>| n2 != name@ implies #[trigger] lookup(self.table@, n2)
                == lookup(pre, n2) by {
                lemma_lookup_push_other(pre, self.table@[pre.len() as int], n2);
            }
        }
    }

    /// Files `stats` under `name`, replacing any snapshot already there.
    pub fn update(&mut self, name: &str, stats: CacheStats)
        requires
            old(self).wf(),
        ensures
            final(self).wf(),
            lookup(final(self).rows(), name@) == Option::Some(stats@),
            forall|n2: Seq<char>|
                n2 != name@ ==> #[trigger] lookup(final(self).rows(), n2) == lookup(
                    old(self).rows(),
                    n2,
                ),
    {
        self.register(name.to_owned(), stats);
    }

    /// Retrieves the snapshot filed under `name`, if any.
    pub fn get(&self, name: &str) -> (r: Option<CacheStats>)
        ensures
            match r {
                Option::Some(s) => lookup(self.rows(), name@) == Option::Some(s@),
                Option::None => lookup(self.rows(), name@) is None,
            },
    {
        let mut i: usize = 0;
        let n = self.table.len();
        proof {
            assert(self.rows().subrange(0, self.rows().len() as int) =~= self.rows());
        }
        while i < n
            invariant
                i <= n,
                n == self.rows().len(),
                forall|j: int| 0 <= j < i ==> (#[trigger] self.rows()[j]).0@ != name@,
                lookup(self.rows(), name@) == lookup(
                    self.rows().subrange(i as int, self.rows().len() as int),
                    name@,
                ),
            decreases n - i,
        {
            proof {
                let rest = self.rows().subrange(i as int, self.rows().len() as int);
                assert(rest[0] == self.rows()[i as int]);
                assert(rest.subrange(1, rest.len() as int) =~= self.rows().subrange(
                    i + 1,
                    self.rows().len() as int,
                ));
            }
            if str_eq(self.table[i].0.as_str(), name) {
                return Option::Some(self.table[i].1.duplicate());
            }
            i += 1;
        }
        proof {
            assert(self.rows().subrange(n as int, n as int).len() == 0);
        }
        Option::None
    }

    /// All stored snapshots, in insertion order.
    pub fn all(&self) -> (r: Vec<CacheStats>)
        ensures
            r@.len() == self.rows().len(),
            forall|i: int| 0 <= i < r@.len() ==> (#[trigger] r@[i])@ == self.rows()[i].1@,
    {
        let mut r: Vec<CacheStats> = Vec::new();
        let mut i: usize = 0;
        let n = self.table.len();
        while i < n
            invariant
                i <= n,
                n == self.rows().len(),
                r@.len() == i,
                forall|j: int| 0 <= j < i ==> (#[trigger] r@[j])@ == self.rows()[j].1@,
            decreases n - i,
        {
            r.push(self.table[i].1.duplicate());
            i += 1;
        }
        r
    }

    /// Sums all snapshots into one filed as `AGGREGATE`.
    pub fn aggregate(&self) -> (r: CacheStats)
        requires
            sum_hits(self.rows()) <= u64::MAX,
            sum_misses(self.rows()) <= u64::MAX,
            sum_entries(self.rows()) <= u64::MAX,
        ensures
            r@.name == "AGGREGATE"@,
            r@.hits == sum_hits(self.rows()),
            r@.misses == sum_misses(self.rows()),
            r@.entries == sum_entries(self.rows()),
    {
        let mut hits: u64 = 0;
        let mut misses: u64 = 0;
        let mut entries: u64 = 0;
        let mut i: usize = 0;
        let n = self.table.len();
        while i < n
            invariant
                i <= n,
                n == self.rows().len(),
                hits == sum_hits(self.rows().subrange(0, i as int)),
                misses == sum_misses(self.rows().subrange(0, i as int)),
                entries == sum_entries(self.rows().subrange(0, i as int)),
                sum_hits(self.rows()) <= u64::MAX,
                sum_misses(self.rows()) <= u64::MAX,
                sum_entries(self.rows()) <= u64::MAX,
            decreases n - i,
        {
            proof {
                lemma_sums_take_le(self.rows(), i + 1);
                let pre = self.rows().subrange(0, i as int);
                let cur = self.rows().subrange(0, i + 1 as int);
                assert(cur.drop_last() =~= pre);
                assert(cur.last() == self.rows()[i as int]);
                lemma_sums_nonneg(pre);
            }
            hits = hits + self.table[i].1.hits;
            misses = misses + self.table[i].1.misses;
            entries = entries + self.table[i].1.entries;
            i += 1;
        }
        proof {
            assert(self.rows().subrange(0, n as int) =~= self.rows());
        }
        let mut name = String::new();
        name.append("AGGREGATE");
        CacheStats { name, hits, misses, entries }
    }

    /// Renders every snapshot into one JSON array.
    pub fn to_json(&self) -> (r: String)
        requires
            forall|i: int|
                0 <= i < self.rows().len() ==> (#[trigger] self.rows()[i]).1@.hits
                    + self.rows()[i].1@.misses <= u64::MAX,
        ensures
            r@ == "[\n"@ + json_rows(self.rows()) + "\n]"@,
    {
        let mut s = String::new();
        s.append("[\n");
        let mut i: usize = 0;
        let n = self.table.len();
        while i < n
            invariant
                i <= n,
                n == self.rows().len(),
                forall|j: int|
                    0 <= j < n ==> (#[trigger] self.rows()[j]).1@.hits + self.rows()[j].1@.misses
                        <= u64::MAX,
                s@ == "[\n"@ + json_rows(self.rows().subrange(0, i as int)),
            decreases n - i,
        {
            if i > 0 {
                s.append(",\n");
            }
            let part = self.table[i].1.to_json();
            s.append(part.as_str());
            proof {
                let pre = self.rows().subrange(0, i as int);
                let cur = self.rows().subrange(0, i + 1 as int);
                assert(cur.drop_last() =~= pre);
                assert(cur.last() == self.rows()[i as int]);
                assert(s@ =~= "[\n"@ + json_rows(cur));
            }
            i += 1;
        }
        s.append("\n]");
        proof {
            assert(self.rows().subrange(0, n as int) =~= self.rows());
            assert(s@ =~= "[\n"@ + json_rows(self.rows()) + "\n]"@);
        }
        s
    }

    /// Takes the snapshot filed under `name` out of the collector, if any.
    pub fn remove(&mut self, name: &str) -> (r: Option<CacheStats>)
        requires
            old(self).wf(),
        ensures
            final(self).wf(),
            match r {
                Option::Some(s) => {
                    &&& lookup(old(self).rows(), name@) == Option::Some(s@)
                    &&& exists|i: int|
                        {
                            &&& 0 <= i < old(self).rows().len()
                            &&& (#[trigger] old(self).rows()[i]).0@ == name@
                            &&& final(self).rows() == old(self).rows().remove(i)
                        }
                },
                Option::None => {
                    &&& lookup(old(self).rows(), name@) is None
                    &&& final(self).rows() == old(self).rows()
                },
            },
    {
        let mut i: usize = 0;
        let n = self.table.len();
        proof {
            assert(self.rows().subrange(0, self.rows().len() as int) =~= self.rows());
        }
        while i < n
            invariant
                i <= n,
                n == self.rows().len(),
                *self == *old(self),
                old(self).wf(),
                forall|j: int| 0 <= j < i ==> (#[trigger] self.rows()[j]).0@ != name@,
                lookup(self.rows(), name@) == lookup(
                    self.rows().subrange(i as int, self.rows().len() as int),
                    name@,
                ),
            decreases n - i,
        {
            proof {
                let rest = self.rows().subrange(i as int, self.rows().len() as int);
                assert(rest[0] == self.rows()[i as int]);
                assert(rest.subrange(1, rest.len() as int) =~= self.rows().subrange(
                    i + 1,
                    self.rows().len() as int,
                ));
            }
            if str_eq(self.table[i].0.as_str(), name) {
                let row = self.table.remove(i);
                proof {
                    assert(self.table@ =~= old(self).rows().remove(i as int));
                    assert forall|a: int, b: int| 0 <= a < b < self.table@.len() implies (
                    #[trigger] self.table@[a]).0@ != (#[trigger] self.table@[b]).0@ by {
                        let a0: int = if a < i { a } else { a + 1 };
                        let b0: int = if b < i { b } else { b + 1 };
                        assert(old(self).rows()[a0].0@ != old(self).rows()[b0].0@);
                    }
                }
                return Option::Some(row.1);
            }
            i += 1;
        }
        proof {
            assert(self.rows().subrange(n as int, n as int).len() == 0);
        }
        Option::None
    }

    /// Drops every stored snapshot.
    pub fn clear(&mut self)
        ensures
            final(self).wf(),
            final(self).rows().len() == 0,
    {
        self.table.clear();
    }
}

/// The snapshots rendered one after another, separated by a comma and a
/// line break.
pub open spec fn json_rows(rows: Seq<(String, CacheStats)>) -> Seq<char>
    decreases rows.len(),
{
    if rows.len() == 0 {
        Seq::empty()
    } else if rows.len() == 1 {
        json_of(rows[0].1@)
    } else {
        json_rows(rows.drop_last()) + ",\n"@ + json_of(rows.last().1@)
    }
}

proof fn lemma_sums_nonneg(rows: Seq<(String, CacheStats)>)
    ensures
        sum_hits(rows) >= 0,
        sum_misses(rows) >= 0,
        sum_entries(rows) >= 0,
    decreases rows.len(),
{
    if rows.len() > 0 {
        lemma_sums_nonneg(rows.drop_last());
    }
}

proof fn lemma_sums_take_le(rows: Seq<(String, CacheStats)>, i: int)
    requires
        0 <= i <= rows.len(),
    ensures
        sum_hits(rows.subrange(0, i)) <= sum_hits(rows),
        sum_misses(rows.subrange(0, i)) <= sum_misses(rows),
        sum_entries(rows.subrange(0, i)) <= sum_entries(rows),
    decreases rows.len() - i,
{
    if i == rows.len() {
        assert(rows.subrange(0, i) =~= rows);
    } else {
        lemma_sums_take_le(rows, i + 1);
        let a = rows.subrange(0, i);
        let b = rows.subrange(0, i + 1);
        assert(b.drop_last() =~= a);
    }
}

proof fn lemma_lookup_update(
    pre: Seq<(String, CacheStats)>,
    i: int,
    row: (String, CacheStats),
    name: Seq<char>,
)
    requires
        0 <= i < pre.len(),
        row.0@ == name,
        forall|j: int| 0 <= j < i ==> (#[trigger] pre[j]).0@ != name,
    ensures
        lookup(pre.update(i, row), name) == Option::Some(row.1@),
    decreases i,
{
    let cur = pre.update(i, row);
    if i == 0 {
        assert(cur[0] == row);
    } else {
        assert(cur[0] == pre[0]);
        assert(cur.subrange(1, cur.len() as int) =~= pre.subrange(1, pre.len() as int).update(
            i - 1,
            row,
        ));
        lemma_lookup_update(pre.subrange(1, pre.len() as int), i - 1, row, name);
    }
}

proof fn lemma_lookup_update_other(
    pre: Seq<(String, CacheStats)>,
    i: int,
    row: (String, CacheStats),
    n2: Seq<char>,
)
    requires
        0 <= i < pre.len(),
        pre[i].0@ == row.0@,
        n2 != row.0@,
    ensures
        lookup(pre.update(i, row), n2) == lookup(pre, n2),
    decreases i,
{
    let cur = pre.update(i, row);
    if i == 0 {
        assert(cur[0] == row);
        assert(cur.subrange(1, cur.len() as int) =~= pre.subrange(1, pre.len() as int));
    } else {
        assert(cur[0] == pre[0]);
        assert(cur.subrange(1, cur.len() as int) =~= pre.subrange(1, pre.len() as int).update(
            i - 1,
            row,
        ));
        lemma_lookup_update_other(pre.subrange(1, pre.len() as int), i - 1, row, n2);
    }
}

proof fn lemma_lookup_push_new(
    pre: Seq<(String, CacheStats)>,
    row: (String, CacheStats),
    name: Seq<char>,
)
    requires
        row.0@ == name,
        forall|j: int| 0 <= j < pre.len() ==> (#[trigger] pre[j]).0@ != name,
    ensures
        lookup(pre.push(row), name) == Option::Some(row.1@),
    decreases pre.len(),
{
    let cur = pre.push(row);
    if pre.len() == 0 {
        assert(cur[0] == row);
    } else {
        assert(cur[0] == pre[0]);
        assert(cur.subrange(1, cur.len() as int) =~= pre.subrange(1, pre.len() as int).push(row));
        lemma_lookup_push_new(pre.subrange(1, pre.len() as int), row, name);
    }
}

proof fn lemma_lookup_push_other(
    pre: Seq<(String, CacheStats)>,
    row: (String, CacheStats),
    n2: Seq<char>,
)
    requires
        n2 != row.0@,
    ensures
        lookup(pre.push(row), n2) == lookup(pre, n2),
    decreases pre.len(),
{
    let cur = pre.push(row);
    if pre.len() == 0 {
        assert(cur[0] == row);
        assert(cur.subrange(1, cur.len() as int) =~= pre.subrange(0, 0).push(row).subrange(1, 1));
        assert(lookup(cur.subrange(1, cur.len() as int), n2) is None);
    } else {
        assert(cur[0] == pre[0]);
        assert(cur.subrange(1, cur.len() as int) =~= pre.subrange(1, pre.len() as int).push(row));
        lemma_lookup_push_other(pre.subrange(1, pre.len() as int), row, n2);
    }
}

/// Files `stats` under `name` in the collector.
pub fn register_stats(g: &mut GlobalStats, name: String, stats: CacheStats)
    requires
        old(g).wf(),
    ensures
        final(g).wf(),
        lookup(final(g).rows(), name@) == Option::Some(stats@),
        forall|n2: Seq<char>|
            n2 != name@ ==> #[trigger] lookup(final(g).rows(), n2) == lookup(old(g).rows(), n2),
{
    g.register(name, stats);
}

/// Files `stats` under `name` in the collector.
pub fn update_stats(g: &mut GlobalStats, name: &str, stats: CacheStats)
    requires
        old(g).wf(),
    ensures
        final(g).wf(),
        lookup(final(g).rows(), name@) == Option::Some(stats@),
        forall|n2: Seq<char>|
            n2 != name@ ==> #[trigger] lookup(final(g).rows(), n2) == lookup(old(g).rows(), n2),
{
    g.update(name, stats);
}

/// Retrieves the snapshot filed under `name`, if any.
pub fn get_stats(g: &GlobalStats, name: &str) -> (r: Option<CacheStats>)
    ensures
        match r {
            Option::Some(s) => lookup(g.rows(), name@) == Option::Some(s@),
            Option::None => lookup(g.rows(), name@) is None,
        },
{
    g.get(name)
}

/// Renders every stored snapshot into one JSON array.
pub fn export_json(g: &GlobalStats) -> (r: String)
    requires
        forall|i: int|
            0 <= i < g.rows().len() ==> (#[trigger] g.rows()[i]).1@.hits + g.rows()[i].1@.misses
                <= u64::MAX,
    ensures
        r@ == "[\n"@ + json_rows(g.rows()) + "\n]"@,
{
    g.to_json()
}

/// Sums every stored snapshot into one.
pub fn aggregate_stats(g: &GlobalStats) -> (r: CacheStats)
    requires
        sum_hits(g.rows()) <= u64::MAX,
        sum_misses(g.rows()) <= u64::MAX,
        sum_entries(g.rows()) <= u64::MAX,
    ensures
        r@.name == "AGGREGATE"@,
        r@.hits == sum_hits(g.rows()),
        r@.misses == sum_misses(g.rows()),
        r@.entries == sum_entries(g.rows()),
{
    g.aggregate()
}

/// Drops every stored snapshot.
pub fn clear_stats(g: &mut GlobalStats)
    ensures
        final(g).wf(),
        final(g).rows().len() == 0,
{
    g.clear();
}

/// Shortens `s` to at most `max_len` characters, marking a cut with `...`.
pub fn truncate_string(s: &str, max_len: usize) -> (r: String)
    ensures
        s@.len() <= max_len ==> r@ == s@,
        s@.len() > max_len && max_len >= 3 ==> r@ == s@.subrange(0, max_len - 3) + "..."@,
        s@.len() > max_len && max_len < 3 ==> r@ == "..."@,
{
    let n = s.unicode_len();
    if n <= max_len {
        s.to_owned()
    } else {
        let keep: usize = if max_len >= 3 {
            max_len - 3
        } else {
            0
        };
        let cs = collect_chars(s);
        let mut out = chars_to_string(&sub_vec(&cs, 0, keep));
        out.append("...");
        proof {
            if max_len < 3 {
                assert(s@.subrange(0, 0).len() == 0);
                assert(out@ =~= "..."@);
            }
        }
        out
    }
}

} // verus!
