//! The latency log of a query driver: once started, the latency of every
//! command is recorded under the command's name, and the log is written as
//! CSV, one summary row per command name in ascending name order.

use vstd::prelude::*;
use crate::decimal::{decimal, push_decimal};
use crate::latency::{LatencyStats, LatencySummary, summary_of};
use crate::text::{chars_equal, chars_less, chars_lt, chars_of, lemma_chars_lt_order, trim_bounds, trim_spec};

verus! {

/// The state of a latency log: whether recording has started, and the
/// samples recorded under each command name, in ascending name order.
pub struct LatencyLogState {
    pub active: bool,
    pub entries: Seq<(Seq<char>, Seq<u64>)>,
}

/// Whether the names of `e` are in strictly ascending order.
pub open spec fn names_ascending(e: Seq<(Seq<char>, Seq<u64>)>) -> bool {
    forall|i: int, j: int| 0 <= i < j < e.len() ==> chars_lt(#[trigger] e[i].0, #[trigger] e[j].0)
}

/// A well-formed log: names ascending, and every name with a sample.
pub open spec fn log_wf(s: LatencyLogState) -> bool {
    &&& names_ascending(s.entries)
    &&& forall|i: int| 0 <= i < s.entries.len() ==> (#[trigger] s.entries[i]).1.len() > 0
}

/// Whether `name` has an entry in `e`.
pub open spec fn has_name(e: Seq<(Seq<char>, Seq<u64>)>, name: Seq<char>) -> bool {
    exists|i: int| 0 <= i < e.len() && (#[trigger] e[i]).0 == name
}

/// The index of `name`'s entry in `e` (when it has one).
pub open spec fn name_index(e: Seq<(Seq<char>, Seq<u64>)>, name: Seq<char>) -> int {
    choose|i: int| 0 <= i < e.len() && (#[trigger] e[i]).0 == name
}

/// Whether the names before `p` in `e` come before `name`, and those from
/// `p` on after it.
pub open spec fn is_insert_position(e: Seq<(Seq<char>, Seq<u64>)>, name: Seq<char>, p: int) -> bool {
    &&& 0 <= p <= e.len()
    &&& forall|j: int| 0 <= j < p ==> chars_lt(#[trigger] e[j].0, name)
    &&& forall|j: int| p <= j < e.len() ==> chars_lt(name, #[trigger] e[j].0)
}

/// Where a new entry for `name` goes to keep the names ascending.
pub open spec fn insert_position(e: Seq<(Seq<char>, Seq<u64>)>, name: Seq<char>) -> int {
    choose|p: int| #[trigger] is_insert_position(e, name, p)
}

/// The entries after recording `sample` under `name`: appended to the
/// name's samples, or a new entry in name order.
pub open spec fn record_entries(e: Seq<(Seq<char>, Seq<u64>)>, name: Seq<char>, sample: u64) -> Seq<
    (Seq<char>, Seq<u64>),
> {
    if has_name(e, name) {
        let i = name_index(e, name);
        e.update(i, (name, e[i].1.push(sample)))
    } else {
        e.insert(insert_position(e, name), (name, seq![sample]))
    }
}

/// The samples of each name, as a map.
pub open spec fn samples_by_name(e: Seq<(Seq<char>, Seq<u64>)>) -> Map<Seq<char>, Seq<u64>> {
    Map::new(|k: Seq<char>| has_name(e, k), |k: Seq<char>| e[name_index(e, k)].1)
}

/// The first line of the CSV log.
pub open spec fn csv_header() -> Seq<char> {
    "command,num_queries,avg_us,p50_us,p90_us,p99_us,max_us"@
}

/// The CSV row of a command name and the summary of its samples.
pub open spec fn csv_row(name: Seq<char>, s: LatencySummary) -> Seq<char> {
    name + ","@ + decimal(s.count as nat) + ","@ + decimal(s.avg_us as nat) + ","@ + decimal(
        s.p50_us as nat,
    ) + ","@ + decimal(s.p90_us as nat) + ","@ + decimal(s.p99_us as nat) + ","@ + decimal(
        s.max_us as nat,
    )
}

/// `fields` joined into one CSV line, with a comma between each two.
pub open spec fn join_fields(fields: Seq<Seq<char>>) -> Seq<char>
    decreases fields.len(),
{
    if fields.len() == 0 {
        Seq::empty()
    } else if fields.len() == 1 {
        fields[0]
    } else {
        join_fields(fields.drop_last()) + ","@ + fields.last()
    }
}

/// The names of the CSV log's columns, in order.
pub open spec fn csv_columns() -> Seq<Seq<char>> {
    seq!["command"@, "num_queries"@, "avg_us"@, "p50_us"@, "p90_us"@, "p99_us"@, "max_us"@]
}

/// The statistic of `s` that the column named `column` holds: the number
/// of queries, the rounded mean, the 50th, 90th or 99th percentile, or the
/// maximum (0 for any other name).
pub open spec fn column_stat(column: Seq<char>, s: LatencySummary) -> nat {
    if column == "num_queries"@ {
        s.count as nat
    } else if column == "avg_us"@ {
        s.avg_us as nat
    } else if column == "p50_us"@ {
        s.p50_us as nat
    } else if column == "p90_us"@ {
        s.p90_us as nat
    } else if column == "p99_us"@ {
        s.p99_us as nat
    } else if column == "max_us"@ {
        s.max_us as nat
    } else {
        0
    }
}

proof fn lemma_join_seven(f: Seq<Seq<char>>)
    requires
        f.len() == 7,
    ensures
        join_fields(f) == f[0] + ","@ + f[1] + ","@ + f[2] + ","@ + f[3] + ","@ + f[4] + ","@ + f[5]
            + ","@ + f[6],
{
    let f6 = f.drop_last();
    let f5 = f6.drop_last();
    let f4 = f5.drop_last();
    let f3 = f4.drop_last();
    let f2 = f3.drop_last();
    let f1 = f2.drop_last();
    assert(join_fields(f1) == f[0]);
    assert(join_fields(f2) == f[0] + ","@ + f[1]);
    assert(join_fields(f3) == f[0] + ","@ + f[1] + ","@ + f[2]);
    assert(join_fields(f4) == f[0] + ","@ + f[1] + ","@ + f[2] + ","@ + f[3]);
    assert(join_fields(f5) == f[0] + ","@ + f[1] + ","@ + f[2] + ","@ + f[3] + ","@ + f[4]);
    assert(join_fields(f6) == f[0] + ","@ + f[1] + ","@ + f[2] + ","@ + f[3] + ","@ + f[4] + ","@
        + f[5]);
}

/// Every CSV row lines up with the header: the header is the column names
/// joined by commas, and a row is the command name, then, under each other
/// column, the decimal text of the statistic that the column names.
pub proof fn lemma_csv_rows_match_header(name: Seq<char>, s: LatencySummary)
    ensures
        csv_header() == join_fields(csv_columns()),
        csv_row(name, s) == join_fields(
            seq![name] + csv_columns().drop_first().map_values(
                |c: Seq<char>| decimal(column_stat(c, s)),
            ),
        ),
{
    reveal_strlit("command");
    reveal_strlit("num_queries");
    reveal_strlit("avg_us");
    reveal_strlit("p50_us");
    reveal_strlit("p90_us");
    reveal_strlit("p99_us");
    reveal_strlit("max_us");
    reveal_strlit(",");
    reveal_strlit("command,num_queries,avg_us,p50_us,p90_us,p99_us,max_us");
    let cols = csv_columns();
    assert("avg_us"@.len() != "num_queries"@.len());
    assert("p50_us"@.len() != "num_queries"@.len());
    assert("p90_us"@.len() != "num_queries"@.len());
    assert("p99_us"@.len() != "num_queries"@.len());
    assert("max_us"@.len() != "num_queries"@.len());
    assert("p50_us"@[0] != "avg_us"@[0]);
    assert("p90_us"@[0] != "avg_us"@[0]);
    assert("p99_us"@[0] != "avg_us"@[0]);
    assert("max_us"@[0] != "avg_us"@[0]);
    assert("p90_us"@[1] != "p50_us"@[1]);
    assert("p99_us"@[1] != "p50_us"@[1]);
    assert("p99_us"@[2] != "p90_us"@[2]);
    assert("max_us"@[0] != "p50_us"@[0]);
    assert("max_us"@[0] != "p90_us"@[0]);
    assert("max_us"@[0] != "p99_us"@[0]);
    let f = seq![name] + cols.drop_first().map_values(|c: Seq<char>| decimal(column_stat(c, s)));
    assert(f =~= seq![
        name,
        decimal(s.count as nat),
        decimal(s.avg_us as nat),
        decimal(s.p50_us as nat),
        decimal(s.p90_us as nat),
        decimal(s.p99_us as nat),
        decimal(s.max_us as nat),
    ]);
    let g = seq![
        name,
        decimal(s.count as nat),
        decimal(s.avg_us as nat),
        decimal(s.p50_us as nat),
        decimal(s.p90_us as nat),
        decimal(s.p99_us as nat),
        decimal(s.max_us as nat),
    ];
    lemma_join_seven(g);
    lemma_join_seven(cols);
}

/// Latency samples per command name, recorded once the log is started.
pub struct LatencyLog {
    active: bool,
    entries: Vec<(String, LatencyStats)>,
}

pub open spec fn entry_view(e: (String, LatencyStats)) -> (Seq<char>, Seq<u64>) {
    (e.0@, e.1@)
}

impl View for LatencyLog {
    type V = LatencyLogState;

    closed spec fn view(&self) -> LatencyLogState {
        LatencyLogState {
            active: self.active,
            entries: self.entries@.map_values(|e: (String, LatencyStats)| entry_view(e)),
        }
    }
}

/// The path of the latency log: the setting, unless it is unset or blank
/// (white space only).
pub fn latency_log_path(setting: Option<String>) -> (r: Option<String>)
    ensures
        match setting {
            None => r is None,
            Some(p) => if trim_spec(p@).len() == 0 {
                r is None
            } else {
                r == Some(p)
            },
        },
{
    match setting {
        None => None,
        Some(p) => {
            let chars = chars_of(p.as_str());
            let (start, end) = trim_bounds(&chars);
            if start == end {
                None
            } else {
                Some(p)
            }
        },
    }
}

impl LatencyLog {
    /// Names in ascending order, each with at least one sample.
    #[verifier::type_invariant]
    spec fn well_formed(self) -> bool {
        log_wf(self@)
    }

    /// A log that has not started and holds nothing.
    pub fn new() -> (log: Self)
        ensures
            !log@.active,
            log@.entries.len() == 0,
            log_wf(log@),
    {
        let log = LatencyLog { active: false, entries: Vec::new() };
        assert(log@.entries =~= Seq::<(Seq<char>, Seq<u64>)>::empty());
        log
    }

    /// Starts recording.
    pub fn activate(&mut self)
        ensures
            final(self)@.active,
            final(self)@.entries == old(self)@.entries,
            log_wf(final(self)@),
    {
        proof {
            use_type_invariant(&*self);
        }
        self.active = true;
        assert(self@.entries == old(self)@.entries);
    }

    /// Records `duration_us` under `command` once the log has started;
    /// before that, does nothing.
    pub fn record(&mut self, command: &str, duration_us: u64)
        ensures
            log_wf(final(self)@),
            final(self)@.active == old(self)@.active,
            final(self)@.entries == if old(self)@.active {
                record_entries(old(self)@.entries, command@, duration_us)
            } else {
                old(self)@.entries
            },
    {
        proof {
            use_type_invariant(&*self);
        }
        if !self.active {
            return;
        }
        let ghost e = self@.entries;
        let key = chars_of(command);
        let n = self.entries.len();
        let mut i: usize = 0;
        while i < n && chars_less(&chars_of(self.entries[i].0.as_str()), &key)
            invariant
                i <= n == self.entries@.len(),
                e == self@.entries,
                key@ == command@,
                forall|j: int| 0 <= j < i ==> chars_lt(#[trigger] e[j].0, command@),
            decreases n - i,
        {
            assert(e[i as int] == entry_view(self.entries@[i as int]));
            i = i + 1;
        }
        let mut entries: Vec<(String, LatencyStats)> = Vec::new();
        std::mem::swap(&mut entries, &mut self.entries);
        let ghost ev = entries@;
        if i < n && chars_equal(&chars_of(entries[i].0.as_str()), &key) {
            let (name, mut stats) = entries.remove(i);
            stats.add_sample(duration_us);
            entries.insert(i, (name, stats));
            proof {
                assert(has_name(e, command@)) by {
                    assert(e[i as int].0 == command@);
                }
                let k = name_index(e, command@);
                if k != i {
                    lemma_chars_lt_order(e[k].0, e[i as int].0, e[k].0);
                    assert(false) by {
                        if k < i {
                            assert(chars_lt(e[k].0, e[i as int].0));
                        } else {
                            assert(chars_lt(e[i as int].0, e[k].0));
                        }
                    }
                }
                assert(entries@.map_values(|x: (String, LatencyStats)| entry_view(x)) =~= record_entries(
                    e,
                    command@,
                    duration_us,
                ));
            }
            self.entries = entries;
        } else {
            let mut stats = LatencyStats::new();
            stats.add_sample(duration_us);
            let name = command.to_string();
            entries.insert(i, (name, stats));
            proof {
                assert forall|j: int| i <= j < n implies chars_lt(command@, #[trigger] e[j].0) by {
                    if i < n {
                        lemma_chars_lt_order(command@, e[i as int].0, e[j].0);
                        if j > i {
                            assert(chars_lt(e[i as int].0, e[j].0));
                        }
                    }
                }
                assert(!has_name(e, command@)) by {
                    if has_name(e, command@) {
                        let k = name_index(e, command@);
                        lemma_chars_lt_order(command@, command@, command@);
                    }
                }
                assert(is_insert_position(e, command@, i as int));
                let p = insert_position(e, command@);
                assert(p == i) by {
                    if p < i {
                        lemma_chars_lt_order(command@, e[p].0, command@);
                    } else if p > i {
                        lemma_chars_lt_order(command@, e[i as int].0, command@);
                    }
                }
                assert(entries@.map_values(|x: (String, LatencyStats)| entry_view(x)) =~= record_entries(
                    e,
                    command@,
                    duration_us,
                ));
            }
            self.entries = entries;
        }
    }

    /// The CSV text of the log, line by line: the header, then one row per
    /// command name in ascending name order with the count, rounded mean,
    /// 50th/90th/99th percentiles and maximum of its samples.
    pub fn csv_lines(&self) -> (lines: Vec<String>)
        ensures
            lines@.len() == self@.entries.len() + 1,
            lines@[0]@ == csv_header(),
            forall|i: int|
                0 <= i < self@.entries.len() ==> (#[trigger] lines@[i + 1])@ == csv_row(
                    self@.entries[i].0,
                    summary_of(self@.entries[i].1)->0,
                ),
    {
        proof {
            use_type_invariant(self);
        }
        let mut lines: Vec<String> = Vec::new();
        lines.push(csv_header_text());
        let n = self.entries.len();
        let mut i: usize = 0;
        while i < n
            invariant
                i <= n == self.entries@.len(),
                log_wf(self@),
                lines@.len() == i + 1,
                lines@[0]@ == csv_header(),
                forall|k: int|
                    0 <= k < i ==> (#[trigger] lines@[k + 1])@ == csv_row(
                        self@.entries[k].0,
                        summary_of(self@.entries[k].1)->0,
                    ),
            decreases n - i,
        {
            assert(self@.entries[i as int] == entry_view(self.entries@[i as int]));
            assert(self@.entries[i as int].1.len() > 0);
            match self.entries[i].1.summary() {
                Some(summary) => {
                    let row = csv_row_text(&self.entries[i].0, &summary);
                    lines.push(row);
                },
                None => {
                    assert(false);
                },
            }
            i = i + 1;
        }
        lines
    }
}

/// The first line of the CSV log (see `csv_header`).
pub fn csv_header_text() -> (s: String)
    ensures
        s@ == csv_header(),
{
    "command,num_queries,avg_us,p50_us,p90_us,p99_us,max_us".to_string()
}

/// The CSV row of `name` and `s`.
fn csv_row_text(name: &String, s: &LatencySummary) -> (row: String)
    ensures
        row@ == csv_row(name@, *s),
{
    let mut row = name.clone();
    row.append(",");
    push_decimal(&mut row, s.count as u64);
    row.append(",");
    push_decimal(&mut row, s.avg_us);
    row.append(",");
    push_decimal(&mut row, s.p50_us);
    row.append(",");
    push_decimal(&mut row, s.p90_us);
    row.append(",");
    push_decimal(&mut row, s.p99_us);
    row.append(",");
    push_decimal(&mut row, s.max_us);
    row
}

proof fn lemma_names_distinct(e: Seq<(Seq<char>, Seq<u64>)>, i: int, j: int)
    requires
        names_ascending(e),
        0 <= i < e.len(),
        0 <= j < e.len(),
        e[i].0 == e[j].0,
    ensures
        i == j,
{
    lemma_chars_lt_order(e[i].0, e[i].0, e[i].0);
    if i < j {
        assert(chars_lt(e[i].0, e[j].0));
    } else if j < i {
        assert(chars_lt(e[j].0, e[i].0));
    }
}

proof fn lemma_insert_position_exists(e: Seq<(Seq<char>, Seq<u64>)>, name: Seq<char>)
    requires
        names_ascending(e),
        !has_name(e, name),
    ensures
        exists|p: int| is_insert_position(e, name, p),
    decreases e.len(),
{
    if e.len() == 0 {
        assert(is_insert_position(e, name, 0));
    } else {
        let d = e.drop_last();
        let n = e.len() - 1;
        assert(!has_name(d, name)) by {
            if has_name(d, name) {
                let k = name_index(d, name);
                assert(e[k].0 == name);
            }
        }
        assert(names_ascending(d)) by {
            assert forall|i: int, j: int| 0 <= i < j < d.len() implies chars_lt(
                #[trigger] d[i].0,
                #[trigger] d[j].0,
            ) by {
                assert(d[i] == e[i] && d[j] == e[j]);
            }
        }
        lemma_insert_position_exists(d, name);
        let q = choose|p: int| is_insert_position(d, name, p);
        assert(e[n].0 != name);
        lemma_chars_lt_order(name, e[n].0, name);
        if q == n {
            if chars_lt(e[n].0, name) {
                assert(is_insert_position(e, name, n + 1)) by {
                    assert forall|j: int| 0 <= j < n + 1 implies chars_lt(#[trigger] e[j].0, name) by {
                        if j < n {
                            assert(d[j] == e[j]);
                        }
                    }
                }
            } else {
                assert(chars_lt(name, e[n].0));
                assert(is_insert_position(e, name, n)) by {
                    assert forall|j: int| 0 <= j < n implies chars_lt(#[trigger] e[j].0, name) by {
                        assert(d[j] == e[j]);
                    }
                }
            }
        } else {
            assert(d[q] == e[q]);
            assert(chars_lt(name, e[q].0));
            assert(chars_lt(e[q].0, e[n].0));
            lemma_chars_lt_order(name, e[q].0, e[n].0);
            assert(is_insert_position(e, name, q)) by {
                assert forall|j: int| 0 <= j < q implies chars_lt(#[trigger] e[j].0, name) by {
                    assert(d[j] == e[j]);
                }
                assert forall|j: int| q <= j < e.len() implies chars_lt(name, #[trigger] e[j].0) by {
                    if j < n {
                        assert(d[j] == e[j]);
                    }
                }
            }
        }
    }
}

/// Recording a sample under a name appends it to that name's samples (a
/// name seen for the first time gets just this sample), and leaves the
/// samples of every other name as they were.
pub proof fn lemma_record_samples(e: Seq<(Seq<char>, Seq<u64>)>, name: Seq<char>, sample: u64)
    requires
        names_ascending(e),
    ensures
        samples_by_name(record_entries(e, name, sample)) == samples_by_name(e).insert(
            name,
            if has_name(e, name) {
                samples_by_name(e)[name].push(sample)
            } else {
                seq![sample]
            },
        ),
{
    let r = record_entries(e, name, sample);
    if has_name(e, name) {
        let i = name_index(e, name);
        assert forall|k: Seq<char>| has_name(r, k) == (has_name(e, k) || k == name) by {
            if has_name(e, k) {
                let j = name_index(e, k);
                if j == i {
                    assert(r[i].0 == k);
                } else {
                    assert(r[j].0 == k);
                }
            }
            if has_name(r, k) {
                let j = name_index(r, k);
                assert(j == i || e[j].0 == k);
            }
        }
        assert forall|k: Seq<char>| #[trigger] has_name(r, k) implies r[name_index(r, k)].1 == (
        if k == name {
            e[i].1.push(sample)
        } else {
            e[name_index(e, k)].1
        }) by {
            let j = name_index(r, k);
            if k == name {
                if j != i {
                    assert(e[j].0 == name);
                    lemma_names_distinct(e, i, j);
                }
            } else {
                assert(j != i);
                assert(e[j].0 == k);
                lemma_names_distinct(e, j, name_index(e, k));
            }
        }
        assert(samples_by_name(r) =~= samples_by_name(e).insert(name, e[i].1.push(sample)));
    } else {
        let p = insert_position(e, name);
        lemma_insert_position_exists(e, name);
        assert(is_insert_position(e, name, p));
        assert forall|k: Seq<char>| has_name(r, k) == (has_name(e, k) || k == name) by {
            if has_name(e, k) {
                let j = name_index(e, k);
                if j < p {
                    assert(r[j].0 == k);
                } else {
                    assert(r[j + 1].0 == k);
                }
            }
            if k == name {
                assert(r[p].0 == name);
            }
            if has_name(r, k) {
                let j = name_index(r, k);
                if j < p {
                    assert(e[j].0 == k);
                } else if j > p {
                    assert(e[j - 1].0 == k);
                }
            }
        }
        assert forall|k: Seq<char>| #[trigger] has_name(r, k) implies r[name_index(r, k)].1 == (
        if k == name {
            seq![sample]
        } else {
            e[name_index(e, k)].1
        }) by {
            let j = name_index(r, k);
            if k == name {
                if j < p {
                    assert(e[j].0 == name);
                } else if j > p {
                    assert(e[j - 1].0 == name);
                }
            } else {
                let m = name_index(e, k);
                if j < p {
                    assert(e[j].0 == k);
                    lemma_names_distinct(e, j, m);
                } else if j > p {
                    assert(e[j - 1].0 == k);
                    lemma_names_distinct(e, j - 1, m);
                } else {
                    assert(r[p].0 == name);
                }
            }
        }
        assert(samples_by_name(r) =~= samples_by_name(e).insert(name, seq![sample]));
    }
}

} // verus!
