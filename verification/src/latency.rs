//! Latency samples and their summary: count, rounded mean, nearest-rank
//! percentiles and maximum, all in microseconds.

use vstd::prelude::*;
use vstd::relations::{sorted_by, total_ordering};
use vstd::seq_lib::lemma_sorted_unique;
use vstd::arithmetic::div_mod::{
    lemma_div_is_ordered, lemma_fundamental_div_mod, lemma_fundamental_div_mod_converse,
};
use crate::sort::{is_ascending, sort_ascending};

verus! {

/// The order that samples are sorted by.
pub open spec fn u64_leq() -> spec_fn(u64, u64) -> bool {
    |a: u64, b: u64| a <= b
}

/// The samples of `s` in ascending order.
pub open spec fn sorted_samples(s: Seq<u64>) -> Seq<u64> {
    s.sort_by(u64_leq())
}

/// The sum of the samples of `s`.
pub open spec fn seq_sum(s: Seq<u64>) -> nat
    decreases s.len(),
{
    if s.len() == 0 {
        0
    } else {
        seq_sum(s.drop_last()) + s.last() as nat
    }
}

/// The mean of `s` rounded to the nearest integer, halves rounding up
/// (`s` nonempty).
pub open spec fn rounded_mean(s: Seq<u64>) -> int {
    ((2 * seq_sum(s) + s.len()) / (2 * s.len())) as int
}

/// The index of the `per_hundred`-th percentile among `len` sorted values:
/// `(len - 1) * per_hundred / 100` rounded to the nearest integer, halves
/// rounding up, and at most `len - 1`.
pub open spec fn percentile_index(len: nat, per_hundred: nat) -> int {
    let raw = (2 * (len - 1) * per_hundred + 100) / 200;
    if raw < len - 1 {
        raw
    } else {
        len - 1
    }
}

/// The `per_hundred`-th percentile of the ascending values `sorted`
/// (0 when there are none).
pub open spec fn percentile_of(sorted: Seq<u64>, per_hundred: nat) -> u64 {
    if sorted.len() == 0 {
        0
    } else {
        sorted[percentile_index(sorted.len(), per_hundred)]
    }
}

/// Summary statistics of a set of latency samples.
#[derive(Debug, Clone, Copy, PartialEq, Eq)]
pub struct LatencySummary {
    pub count: usize,
    pub avg_us: u64,
    pub p50_us: u64,
    pub p90_us: u64,
    pub p99_us: u64,
    pub max_us: u64,
}

/// The summary of the samples `s`: `None` when there are none.
pub open spec fn summary_of(s: Seq<u64>) -> Option<LatencySummary> {
    if s.len() == 0 {
        None
    } else {
        let v = sorted_samples(s);
        Some(
            LatencySummary {
                count: s.len() as usize,
                avg_us: rounded_mean(v) as u64,
                p50_us: percentile_of(v, 50),
                p90_us: percentile_of(v, 90),
                p99_us: percentile_of(v, 99),
                max_us: v.last(),
            },
        )
    }
}

/// Latency samples in microseconds, in the order they were added.
#[derive(Debug, Clone)]
pub struct LatencyStats {
    samples: Vec<u64>,
}

impl View for LatencyStats {
    type V = Seq<u64>;

    closed spec fn view(&self) -> Seq<u64> {
        self.samples@
    }
}

impl Default for LatencyStats {
    fn default() -> (r: Self)
        ensures
            r@ == Seq::<u64>::empty(),
    {
        LatencyStats::new()
    }
}

proof fn lemma_u64_leq_total()
    ensures
        total_ordering(u64_leq()),
{
}

/// An ascending arrangement of the samples of `s` is `sorted_samples(s)`.
proof fn lemma_sorted_samples(s: Seq<u64>, r: Seq<u64>)
    requires
        is_ascending(r),
        r.to_multiset() == s.to_multiset(),
    ensures
        r == sorted_samples(s),
{
    lemma_u64_leq_total();
    s.lemma_sort_by_ensures(u64_leq());
    assert(sorted_by(r, u64_leq()));
    lemma_sorted_unique(r, sorted_samples(s), u64_leq());
}

proof fn lemma_sorted_samples_props(s: Seq<u64>)
    ensures
        is_ascending(sorted_samples(s)),
        sorted_samples(s).to_multiset() == s.to_multiset(),
        sorted_samples(s).len() == s.len(),
{
    lemma_u64_leq_total();
    s.lemma_sort_by_ensures(u64_leq());
    let v = sorted_samples(s);
    assert forall|i: int, j: int| 0 <= i < j < v.len() implies v[i] <= v[j] by {
        assert(u64_leq()(v[i], v[j]));
    }
    vstd::seq_lib::to_multiset_len(s);
    vstd::seq_lib::to_multiset_len(v);
}

proof fn lemma_sum_bounds(s: Seq<u64>, lo: int, hi: int)
    requires
        forall|i: int| 0 <= i < s.len() ==> lo <= #[trigger] s[i] <= hi,
    ensures
        s.len() * lo <= seq_sum(s) <= s.len() * hi,
    decreases s.len(),
{
    if s.len() > 0 {
        let t = s.drop_last();
        assert forall|i: int| 0 <= i < t.len() implies lo <= #[trigger] t[i] <= hi by {
            assert(t[i] == s[i]);
        }
        lemma_sum_bounds(t, lo, hi);
        let n = t.len();
        assert(s.len() == n + 1);
        assert((n + 1) * lo == n * lo + lo) by (nonlinear_arith);
        assert((n + 1) * hi == n * hi + hi) by (nonlinear_arith);
    }
}

proof fn lemma_div_between(x: int, d: int, lo: int, hi: int)
    requires
        d > 0,
        lo * d <= x,
        x < (hi + 1) * d,
    ensures
        lo <= x / d <= hi,
{
    lemma_fundamental_div_mod(x, d);
    let q = x / d;
    let r = x % d;
    assert(0 <= r < d);
    assert(lo <= q <= hi) by (nonlinear_arith)
        requires
            x == d * q + r,
            0 <= r < d,
            lo * d <= x,
            x < (hi + 1) * d,
            d > 0,
    ;
}

/// The rounded mean of ascending samples lies between the least and the
/// greatest of them.
proof fn lemma_rounded_mean_bounds(v: Seq<u64>)
    requires
        v.len() > 0,
        is_ascending(v),
    ensures
        v[0] <= rounded_mean(v) <= v.last(),
{
    let n = v.len() as int;
    let lo = v[0] as int;
    let hi = v.last() as int;
    assert forall|i: int| 0 <= i < v.len() implies lo <= #[trigger] v[i] <= hi by {
        if i > 0 {
            assert(v[0] <= v[i]);
        }
        if i < n - 1 {
            assert(v[i] <= v[n - 1]);
        }
    }
    lemma_sum_bounds(v, lo, hi);
    let s = seq_sum(v) as int;
    assert(lo * (2 * n) <= 2 * s + n) by (nonlinear_arith)
        requires
            n * lo <= s,
            n > 0,
    ;
    assert(2 * s + n < (hi + 1) * (2 * n)) by (nonlinear_arith)
        requires
            s <= n * hi,
            n > 0,
    ;
    lemma_div_between(2 * s + n, 2 * n, lo, hi);
}

/// `(2 * sum + n) / (2 * n)` is the quotient of `sum / n`, plus one when
/// the remainder is at least half of `n`.
proof fn lemma_round_half_up(sum: int, n: int)
    requires
        n > 0,
        sum >= 0,
    ensures
        (2 * sum + n) / (2 * n) == sum / n + (if 2 * (sum % n) >= n {
            1int
        } else {
            0int
        }),
{
    lemma_fundamental_div_mod(sum, n);
    let q = sum / n;
    let r = sum % n;
    assert(0 <= r < n);
    if 2 * r >= n {
        assert(2 * sum + n == (q + 1) * (2 * n) + (2 * r - n)) by (nonlinear_arith)
            requires
                sum == n * q + r,
        ;
        lemma_fundamental_div_mod_converse(2 * sum + n, 2 * n, q + 1, 2 * r - n);
    } else {
        assert(2 * sum + n == q * (2 * n) + (2 * r + n)) by (nonlinear_arith)
            requires
                sum == n * q + r,
        ;
        lemma_fundamental_div_mod_converse(2 * sum + n, 2 * n, q, 2 * r + n);
    }
}

/// The sum of the samples in `v`.
fn sum_of(v: &Vec<u64>) -> (s: u128)
    ensures
        s == seq_sum(v@),
{
    let mut s: u128 = 0;
    let n = v.len();
    let mut i: usize = 0;
    while i < n
        invariant
            i <= n == v.len(),
            s == seq_sum(v@.take(i as int)),
            s <= i * 0xffff_ffff_ffff_ffffu64,
        decreases n - i,
    {
        assert(v@.take(i + 1).drop_last() == v@.take(i as int));
        assert(s + v[i as int] <= (i + 1) * 0xffff_ffff_ffff_ffffu64) by (nonlinear_arith)
            requires
                s <= i * 0xffff_ffff_ffff_ffffu64,
                v[i as int] <= 0xffff_ffff_ffff_ffffu64,
        ;
        assert((i + 1) * 0xffff_ffff_ffff_ffffu64 <= 0x1_0000_0000_0000_0000 * 0xffff_ffff_ffff_ffffu64)
            by (nonlinear_arith)
            requires
                i + 1 <= 0x1_0000_0000_0000_0000,
        ;
        s = s + v[i] as u128;
        i = i + 1;
    }
    assert(v@.take(n as int) == v@);
    s
}

/// The `per_hundred`-th percentile of the ascending values `sorted_values`:
/// the value at index `(len - 1) * per_hundred / 100`, rounded to the
/// nearest index (halves up) and at most the last index; 0 when empty.
pub fn percentile(sorted_values: &Vec<u64>, per_hundred: u32) -> (r: u64)
    ensures
        r == percentile_of(sorted_values@, per_hundred as nat),
{
    let len = sorted_values.len();
    if len == 0 {
        return 0;
    }
    let last = len - 1;
    assert((last as int) * (per_hundred as int) <= 0x1_0000_0000_0000_0000 * 0x1_0000_0000)
        by (nonlinear_arith)
        requires
            last < 0x1_0000_0000_0000_0000,
            per_hundred < 0x1_0000_0000,
    ;
    let prod: u128 = (last as u128) * (per_hundred as u128);
    let raw: u128 = (2 * prod + 100) / 200;
    assert(raw == (2 * (len - 1) * per_hundred + 100) / 200) by (nonlinear_arith)
        requires
            raw == (2 * prod + 100) / 200,
            prod == (last as int) * (per_hundred as int),
            last == len - 1,
    ;
    let idx: usize = if raw < last as u128 {
        raw as usize
    } else {
        last
    };
    sorted_values[idx]
}

impl LatencyStats {
    /// An empty set of samples.
    pub fn new() -> (r: Self)
        ensures
            r@ == Seq::<u64>::empty(),
    {
        LatencyStats { samples: Vec::new() }
    }

    /// Records one sample.
    pub fn add_sample(&mut self, duration_us: u64)
        ensures
            final(self)@ == old(self)@.push(duration_us),
            final(self)@.len() <= usize::MAX,
    {
        self.samples.push(duration_us);
        let _n = self.samples.len();
    }

    /// Count, rounded mean, 50th/90th/99th percentiles and maximum of the
    /// samples; `None` when there are none.
    pub fn summary(&self) -> (r: Option<LatencySummary>)
        ensures
            r == summary_of(self@),
            self@.len() <= usize::MAX,
    {
        if self.samples.len() == 0 {
            return None;
        }
        let values = sort_ascending(&self.samples);
        proof {
            lemma_sorted_samples(self@, values@);
            lemma_sorted_samples_props(self@);
            lemma_rounded_mean_bounds(values@);
        }
        let count = values.len();
        let sum = sum_of(&values);
        let n = count as u128;
        let q = sum / n;
        let rem = sum % n;
        proof {
            lemma_round_half_up(sum as int, n as int);
        }
        let avg = if 2 * rem >= n {
            q + 1
        } else {
            q
        };
        assert(avg == rounded_mean(values@));
        let avg_us = avg as u64;
        let p50_us = percentile(&values, 50);
        let p90_us = percentile(&values, 90);
        let p99_us = percentile(&values, 99);
        let max_us = values[count - 1];
        Some(LatencySummary { count, avg_us, p50_us, p90_us, p99_us, max_us })
    }
}


proof fn lemma_percentile_index_bounds(len: nat, p: nat, q: nat)
    requires
        len > 0,
        p <= q,
    ensures
        0 <= percentile_index(len, p) <= percentile_index(len, q) < len,
{
    assert(2 * (len - 1) * p + 100 <= 2 * (len - 1) * q + 100) by (nonlinear_arith)
        requires
            p <= q,
            len >= 1,
    ;
    assert(0 <= 2 * (len - 1) * p) by (nonlinear_arith)
        requires
            len >= 1,
    ;
    lemma_div_is_ordered(2 * (len - 1) * p + 100, 2 * (len - 1) * q + 100, 200);
    lemma_div_is_ordered(0, 2 * (len - 1) * p + 100, 200);
}

/// A summary depends only on which samples were recorded, not on the order
/// in which they were added.
pub proof fn lemma_summary_order_independent(s1: Seq<u64>, s2: Seq<u64>)
    requires
        s1.to_multiset() == s2.to_multiset(),
    ensures
        summary_of(s1) == summary_of(s2),
{
    lemma_sorted_samples_props(s1);
    lemma_sorted_samples_props(s2);
    lemma_sorted_samples(s2, sorted_samples(s1));
}

/// Of a nonempty set of samples: the count is the number of samples; the
/// maximum is a sample and no sample exceeds it; the 50th, 90th and 99th
/// percentiles are samples and are in ascending order up to the maximum;
/// the rounded mean lies between the least sample and the maximum.
pub proof fn lemma_summary_bounds(s: Seq<u64>)
    requires
        0 < s.len() <= usize::MAX,
    ensures
        ({
            let m = summary_of(s)->0;
            &&& summary_of(s) is Some
            &&& m.count == s.len()
            &&& s.contains(m.max_us)
            &&& forall|i: int| 0 <= i < s.len() ==> #[trigger] s[i] <= m.max_us
            &&& s.contains(m.p50_us) && s.contains(m.p90_us) && s.contains(m.p99_us)
            &&& m.p50_us <= m.p90_us <= m.p99_us <= m.max_us
            &&& exists|i: int| 0 <= i < s.len() && #[trigger] s[i] <= m.avg_us
            &&& m.avg_us <= m.max_us
        }),
{
    broadcast use vstd::seq_lib::group_to_multiset_ensures;

    lemma_sorted_samples_props(s);
    let v = sorted_samples(s);
    let n = v.len();
    lemma_rounded_mean_bounds(v);
    lemma_percentile_index_bounds(n, 50, 90);
    lemma_percentile_index_bounds(n, 90, 99);
    lemma_percentile_index_bounds(n, 99, 100);
    let m = summary_of(s)->0;
    assert(v.contains(v[n - 1]));
    assert(v.contains(m.p50_us));
    assert(v.contains(m.p90_us));
    assert(v.contains(m.p99_us));
    assert(v.contains(v[0]));
    assert(v.to_multiset().count(v[0]) > 0);
    assert forall|i: int| 0 <= i < s.len() implies #[trigger] s[i] <= m.max_us by {
        assert(s.contains(s[i]));
        assert(s.to_multiset().count(s[i]) > 0);
        assert(v.contains(s[i]));
        let k = choose|k: int| 0 <= k < n && v[k] == s[i];
        if k < n - 1 {
            assert(v[k] <= v[n - 1]);
        }
    }
    assert(s.contains(v[0]));
    let j = choose|j: int| 0 <= j < s.len() && s[j] == v[0];
    assert(s[j] <= m.avg_us);
    let i50 = percentile_index(n, 50);
    let i90 = percentile_index(n, 90);
    let i99 = percentile_index(n, 99);
    if i50 < i90 {
        assert(v[i50] <= v[i90]);
    }
    if i90 < i99 {
        assert(v[i90] <= v[i99]);
    }
    if i99 < n - 1 {
        assert(v[i99] <= v[n - 1]);
    }
    lemma_contains_transfer(v, s, m.max_us);
    lemma_contains_transfer(v, s, m.p50_us);
    lemma_contains_transfer(v, s, m.p90_us);
    lemma_contains_transfer(v, s, m.p99_us);
}

/// Adding a sample adds one to the count, makes the maximum the greater
/// of the old maximum and the sample (the sample, when there was none),
/// and adds exactly one copy of the sample to those recorded.
pub proof fn lemma_add_sample_summary(s: Seq<u64>, sample: u64)
    requires
        s.len() < usize::MAX,
    ensures
        s.push(sample).to_multiset() == s.to_multiset().insert(sample),
        summary_of(s.push(sample)) is Some,
        summary_of(s.push(sample))->0.count == s.len() + 1,
        summary_of(s.push(sample))->0.max_us == match summary_of(s) {
            None => sample,
            Some(m) => if m.max_us < sample {
                sample
            } else {
                m.max_us
            },
        },
{
    broadcast use vstd::seq_lib::group_to_multiset_ensures;

    let t = s.push(sample);
    lemma_summary_bounds(t);
    let big = summary_of(t)->0.max_us;
    assert(t[s.len() as int] == sample);
    assert(sample <= big);
    if s.len() == 0 {
        let k = choose|k: int| 0 <= k < t.len() && t[k] == big;
        assert(big == sample);
    } else {
        lemma_summary_bounds(s);
        let m = summary_of(s)->0.max_us;
        let k = choose|k: int| 0 <= k < s.len() && s[k] == m;
        assert(t[k] == m);
        assert(m <= big);
        let q = choose|q: int| 0 <= q < t.len() && t[q] == big;
        if q < s.len() {
            assert(t[q] == s[q]);
            assert(s[q] <= m);
        }
    }
}

proof fn lemma_contains_transfer(v: Seq<u64>, s: Seq<u64>, x: u64)
    requires
        v.to_multiset() == s.to_multiset(),
        v.contains(x),
    ensures
        s.contains(x),
{
    vstd::seq_lib::to_multiset_contains(v, x);
    vstd::seq_lib::to_multiset_contains(s, x);
}

} // verus!
