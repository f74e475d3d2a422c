//! Five-number summaries (minimum, lower quartile, median, upper quartile, maximum) with
//! linear-interpolation quantiles.
//!
//! Samples are integers. Every interpolated quartile of an integer sample is a multiple
//! of a quarter, so the summary is kept exactly, in quarter units.
use vstd::prelude::*;
use vstd::relations::{sorted_by, total_ordering};
use vstd::seq_lib::{lemma_sorted_unique, to_multiset_len};
use vstd::slice::slice_to_vec;

verus! {

/// The ascending order on sample values.
pub open spec fn sample_leq() -> spec_fn(i64, i64) -> bool {
    |a: i64, b: i64| a <= b
}

/// The sample in ascending order.
pub open spec fn sorted_sample(s: Seq<i64>) -> Seq<i64> {
    s.sort_by(sample_leq())
}

/// Four times the quantile of the ascending sequence `t` at `k` quarters of its range
/// (`k` = 0 gives the minimum, 2 the median, 4 the maximum): the position `k * (n - 1) / 4`
/// is interpolated linearly between its two neighbouring elements.
pub open spec fn quantile_quarters(t: Seq<i64>, k: int) -> int {
    let pos = k * (t.len() - 1);
    let b = pos / 4;
    if b >= t.len() - 1 {
        4 * t[t.len() - 1]
    } else {
        4 * t[b] + (t[b + 1] - t[b]) * (pos % 4)
    }
}

/// The five-number summary of the ascending sequence `t`, in quarter units.
pub open spec fn summary_quarters(t: Seq<i64>) -> Seq<int> {
    seq![
        quantile_quarters(t, 0),
        quantile_quarters(t, 1),
        quantile_quarters(t, 2),
        quantile_quarters(t, 3),
        quantile_quarters(t, 4),
    ]
}

/// A quarter-unit value rounded toward zero to a whole number.
pub open spec fn truncate_quarters(v: int) -> int {
    if v >= 0 {
        v / 4
    } else {
        -((-v) / 4)
    }
}

pub open spec fn ordered(q: Seq<int>) -> bool {
    forall|i: int, j: int| 0 <= i <= j < q.len() ==> q[i] <= q[j]
}

/// The summary of a sample.
#[derive(Clone, Copy, Debug)]
pub struct Quartiles {
    bottom_boundary: i128,
    lower: i128,
    median: i128,
    upper: i128,
    top_boundary: i128,
}

impl View for Quartiles {
    type V = Seq<int>;

    closed spec fn view(&self) -> Seq<int> {
        seq![
            self.bottom_boundary as int,
            self.lower as int,
            self.median as int,
            self.upper as int,
            self.top_boundary as int,
        ]
    }
}

/// Relies on `slice::sort_unstable`: the elements end up in ascending order, the same
/// elements as before.
#[verifier::external_body]
fn sort_ascending(v: &mut Vec<i64>)
    ensures
        final(v)@.to_multiset() == old(v)@.to_multiset(),
        sorted_by(final(v)@, sample_leq()),
{
    v.sort_unstable()
}

proof fn lemma_sample_leq_total()
    ensures
        total_ordering(sample_leq()),
{
}

/// The sorted copy that `Quartiles::new` computes is the sample's ascending order.
proof fn lemma_sorted_is_sorted_sample(s: Seq<i64>, t: Seq<i64>)
    requires
        t.to_multiset() == s.to_multiset(),
        sorted_by(t, sample_leq()),
    ensures
        t == sorted_sample(s),
{
    lemma_sample_leq_total();
    s.lemma_sort_by_ensures(sample_leq());
    lemma_sorted_unique(t, sorted_sample(s), sample_leq());
}

proof fn lemma_sorted_sample_len(s: Seq<i64>)
    ensures
        sorted_sample(s).len() == s.len(),
{
    lemma_sample_leq_total();
    s.lemma_sort_by_ensures(sample_leq());
    to_multiset_len(s);
    to_multiset_len(sorted_sample(s));
}

proof fn lemma_quantile_monotone(t: Seq<i64>, k1: int, k2: int)
    requires
        t.len() >= 1,
        sorted_by(t, sample_leq()),
        0 <= k1 <= k2 <= 4,
    ensures
        quantile_quarters(t, k1) <= quantile_quarters(t, k2),
        4 * t[0] <= quantile_quarters(t, k1) <= 4 * t[t.len() - 1],
{
    let n = t.len() as int;
    let pos_lo = k1 * (n - 1);
    let pos_hi = k2 * (n - 1);
    assert(0 <= pos_lo <= pos_hi <= 4 * (n - 1)) by (nonlinear_arith)
        requires
            0 <= k1 <= k2 <= 4,
            n >= 1,
            pos_lo == k1 * (n - 1),
            pos_hi == k2 * (n - 1),
    ;
    let b1 = pos_lo / 4;
    let b2 = pos_hi / 4;
    let f1 = pos_lo % 4;
    let f2 = pos_hi % 4;
    assert(b1 <= b2 <= n - 1);
    if b1 < n - 1 {
        assert(sample_leq()(t[b1], t[b1 + 1]));
        let d1 = t[b1 + 1] - t[b1];
        assert(0 <= d1 * f1 <= d1 * 4) by (nonlinear_arith)
            requires
                d1 >= 0,
                0 <= f1 < 4,
        ;
        if b1 > 0 {
            assert(sample_leq()(t[0], t[b1]));
        }
        if b1 + 1 < n - 1 {
            assert(sample_leq()(t[b1 + 1], t[n - 1]));
        }
    } else {
        if n > 1 {
            assert(sample_leq()(t[0], t[n - 1]));
        }
    }
    if b2 < n - 1 {
        assert(sample_leq()(t[b2], t[b2 + 1]));
        let d2 = t[b2 + 1] - t[b2];
        assert(0 <= d2 * f2) by (nonlinear_arith)
            requires
                d2 >= 0,
                0 <= f2 < 4,
        ;
        if b1 == b2 {
            assert(d2 * f1 <= d2 * f2) by (nonlinear_arith)
                requires
                    d2 >= 0,
                    f1 <= f2,
            ;
        } else {
            assert(sample_leq()(t[b1 + 1], t[b2]) || b1 + 1 == b2);
            let d1 = t[b1 + 1] - t[b1];
            assert(d1 * f1 <= d1 * 4) by (nonlinear_arith)
                requires
                    d1 >= 0,
                    0 <= f1 < 4,
            ;
        }
    } else if b1 < n - 1 {
        let d1 = t[b1 + 1] - t[b1];
        assert(d1 * f1 <= d1 * 4) by (nonlinear_arith)
            requires
                d1 >= 0,
                0 <= f1 < 4,
        ;
        if b1 + 1 < n - 1 {
            assert(sample_leq()(t[b1 + 1], t[n - 1]));
        }
    }
}

/// Law: for every non-empty sample, minimum <= lower quartile <= median <= upper quartile
/// <= maximum; the minimum and the maximum are the sample's extreme elements.
pub proof fn lemma_summary_ordered(s: Seq<i64>)
    requires
        s.len() >= 1,
    ensures
        ordered(summary_quarters(sorted_sample(s))),
        summary_quarters(sorted_sample(s))[0] == 4 * sorted_sample(s)[0],
        summary_quarters(sorted_sample(s))[4] == 4 * sorted_sample(s).last(),
{
    lemma_sample_leq_total();
    s.lemma_sort_by_ensures(sample_leq());
    lemma_sorted_sample_len(s);
    let t = sorted_sample(s);
    let q = summary_quarters(t);
    assert forall|i: int, j: int| 0 <= i <= j < q.len() implies q[i] <= q[j] by {
        lemma_quantile_monotone(t, i, j);
    }
}

/// Law: the summary of a one-element sample is that element five times.
pub proof fn lemma_summary_single(x: i64)
    ensures
        summary_quarters(sorted_sample(seq![x])) == seq![4 * x, 4 * x, 4 * x, 4 * x, 4 * x],
{
    let s = seq![x];
    lemma_sorted_sample_len(s);
    let t = sorted_sample(s);
    assert forall|i: int, j: int| 0 <= i < j < s.len() implies #[trigger] sample_leq()(
        s[i],
        s[j],
    ) by {}
    lemma_sorted_is_sorted_sample(s, s);
    assert(t == s);
    assert(summary_quarters(t) =~= seq![4 * x, 4 * x, 4 * x, 4 * x, 4 * x]);
}

/// A hundred times the quantile of the ascending sequence `t` at `p` percent: the position
/// `p * (n - 1) / 100` is interpolated linearly between its two neighbouring elements.
pub open spec fn quantile_hundredths(t: Seq<i64>, p: int) -> int {
    let pos = p * (t.len() - 1);
    let b = pos / 100;
    if b >= t.len() - 1 {
        100 * t[t.len() - 1]
    } else {
        100 * t[b] + (t[b + 1] - t[b]) * (pos % 100)
    }
}

proof fn lemma_quarter_is_percentile(t: Seq<i64>, k: int)
    requires
        t.len() >= 1,
        0 <= k <= 4,
    ensures
        quantile_hundredths(t, 25 * k) == 25 * quantile_quarters(t, k),
{
    let n = t.len() as int;
    let pq = k * (n - 1);
    let ph = (25 * k) * (n - 1);
    assert(ph == 25 * pq) by (nonlinear_arith)
        requires
            pq == k * (n - 1),
            ph == (25 * k) * (n - 1),
    ;
    assert(pq >= 0) by (nonlinear_arith)
        requires
            pq == k * (n - 1),
            k >= 0,
            n >= 1,
    ;
    let bq = pq / 4;
    let fq = pq % 4;
    assert(ph / 100 == bq && ph % 100 == 25 * fq) by (nonlinear_arith)
        requires
            ph == 25 * pq,
            pq == 4 * bq + fq,
            0 <= fq < 4,
    ;
    if bq < n - 1 {
        let d = t[bq + 1] - t[bq];
        assert(d * (25 * fq) == 25 * (d * fq)) by (nonlinear_arith);
    }
}

/// A hundred times the quantile of the ascending `t` at `percent` percent, interpolated
/// linearly between the two elements around position `percent * (n - 1) / 100`.
pub fn quantile(t: &Vec<i64>, percent: u64) -> (r: i128)
    requires
        t@.len() >= 1,
        percent <= 100,
        sorted_by(t@, sample_leq()),
    ensures
        r == quantile_hundredths(t@, percent as int),
{
    let n = t.len();
    let last: u128 = (n - 1) as u128;
    assert(percent as u128 * last <= 100 * 0xffff_ffff_ffff_ffffu128) by (nonlinear_arith)
        requires
            percent <= 100,
            last <= 0xffff_ffff_ffff_ffffu128,
    ;
    let pos: u128 = percent as u128 * last;
    let b: u128 = pos / 100;
    if b >= last {
        100 * (t[n - 1] as i128)
    } else {
        let bi = b as usize;
        let lo = t[bi] as i128;
        let hi = t[bi + 1] as i128;
        let f = (pos % 100) as i128;
        assert(sample_leq()(t@[bi as int], t@[bi + 1]));
        assert(0 <= (hi - lo) * f <= (hi - lo) * 99) by (nonlinear_arith)
            requires
                hi - lo >= 0,
                0 <= f <= 99,
        ;
        100 * lo + (hi - lo) * f
    }
}

/// Four times the quantile of the ascending `t` at `k` quarters of its range.
fn quartile(t: &Vec<i64>, k: u64) -> (r: i128)
    requires
        t@.len() >= 1,
        k <= 4,
        sorted_by(t@, sample_leq()),
    ensures
        r == quantile_quarters(t@, k as int),
{
    let h = quantile(t, 25 * k);
    proof {
        lemma_quarter_is_percentile(t@, k as int);
        lemma_quantile_monotone(t@, k as int, k as int);
    }
    h / 25
}

impl Quartiles {
    pub closed spec fn within_sample_range(&self) -> bool {
        forall|i: int| 0 <= i < 5 ==> 4 * i64::MIN <= #[trigger] self@[i] <= 4 * i64::MAX
    }

    /// The summary of a non-empty sample; the sample itself is left as it is.
    pub fn new(sample: &[i64]) -> (q: Quartiles)
        requires
            sample@.len() >= 1,
        ensures
            q@ == summary_quarters(sorted_sample(sample@)),
            ordered(q@),
            q.within_sample_range(),
    {
        let mut v = slice_to_vec(sample);
        sort_ascending(&mut v);
        proof {
            lemma_sorted_is_sorted_sample(sample@, v@);
            to_multiset_len(v@);
            to_multiset_len(sample@);
            lemma_summary_ordered(sample@);
        }
        let q = Quartiles {
            bottom_boundary: quartile(&v, 0),
            lower: quartile(&v, 1),
            median: quartile(&v, 2),
            upper: quartile(&v, 3),
            top_boundary: quartile(&v, 4),
        };
        assert(q@ =~= summary_quarters(v@));
        q
    }

    /// The five values in quarter units: four times minimum, lower quartile, median,
    /// upper quartile and maximum.
    pub fn quarters(&self) -> (r: [i128; 5])
        ensures
            r@.map_values(|x: i128| x as int) == self@,
    {
        let r = [self.bottom_boundary, self.lower, self.median, self.upper, self.top_boundary];
        assert(r@.map_values(|x: i128| x as int) =~= self@);
        r
    }

    /// Four times the median.
    pub fn median_quarters(&self) -> (r: i128)
        ensures
            r == self@[2],
    {
        self.median
    }

    /// The five values rounded toward zero to whole numbers.
    pub fn values(&self) -> (r: [i64; 5])
        requires
            self.within_sample_range(),
        ensures
            forall|i: int| 0 <= i < 5 ==> r@[i] == truncate_quarters(#[trigger] self@[i]),
    {
        proof {
            assert(4 * i64::MIN <= self@[0] <= 4 * i64::MAX);
            assert(4 * i64::MIN <= self@[1] <= 4 * i64::MAX);
            assert(4 * i64::MIN <= self@[2] <= 4 * i64::MAX);
            assert(4 * i64::MIN <= self@[3] <= 4 * i64::MAX);
            assert(4 * i64::MIN <= self@[4] <= 4 * i64::MAX);
        }
        let r = [
            truncate(self.bottom_boundary),
            truncate(self.lower),
            truncate(self.median),
            truncate(self.upper),
            truncate(self.top_boundary),
        ];
        proof {
            assert(self@[0] == self.bottom_boundary);
            assert(self@[1] == self.lower);
            assert(self@[2] == self.median);
            assert(self@[3] == self.upper);
            assert(self@[4] == self.top_boundary);
        }
        r
    }
}

/// A quarter-unit value rounded toward zero.
fn truncate(v: i128) -> (r: i64)
    requires
        4 * i64::MIN <= v <= 4 * i64::MAX,
    ensures
        r == truncate_quarters(v as int),
{
    if v >= 0 {
        (v / 4) as i64
    } else {
        let m: i128 = -v;
        (-(m / 4)) as i64
    }
}

} // verus!
