//! The downscaler: merges an arbitrarily long series into at most
//! `max_length` contiguous buckets, so that the charts always fit the
//! terminal.
//!
//! The factor is the smallest integer `f` with `ceil(len / f) <= max_length`.
//! Entries whose index lies in the ignored set are excluded from
//! aggregation; a bucket whose entries are all excluded reports `0` and its
//! own index joins the aggregated ignored set.  A bucket with kept entries
//! reports either their sum (saturated at `u32::MAX`) or their arithmetic
//! mean, depending on the chosen [`Aggregation`].

use vstd::prelude::*;

verus! {

use vstd::arithmetic::div_mod::{
    lemma_basic_div,
    lemma_div_nonincreasing,
    lemma_div_pos_is_pos,
    lemma_fundamental_div_mod,
    lemma_multiply_divide_le,
    lemma_multiply_divide_lt,
};
use vstd::arithmetic::mul::{lemma_mul_inequality, lemma_mul_is_commutative};

/// Which statistic a bucket reports for its kept entries.
///
/// The horizontal pipeline sums, so merged periods keep their total; one
/// vertical pipeline averages instead.  The rule is chosen explicitly by
/// each caller.
#[derive(Clone, Copy, PartialEq, Eq, Structural, Debug)]
pub enum Aggregation {
    Sum,
    Mean,
}

/// What one downscaling pass returns: the aggregated series, the
/// aggregated ignored set, and how many original entries one bucket
/// stands for.
#[derive(Debug, PartialEq, Eq)]
pub struct Downscaled {
    pub values: Vec<u32>,
    pub ignored: Vec<u32>,
    pub factor: u32,
}

/// Whether original index `j` contributes to aggregation: it must lie in
/// the series and not be ignored.
pub open spec fn kept(values: Seq<u32>, ignored: Seq<u32>, j: int) -> bool {
    0 <= j < values.len() && !ignored.contains(j as u32)
}

/// Sum of the kept entries with index in `[lo, hi)`.
pub open spec fn range_sum(values: Seq<u32>, ignored: Seq<u32>, lo: int, hi: int) -> int
    decreases hi - lo,
{
    if hi <= lo {
        0
    } else {
        range_sum(values, ignored, lo, hi - 1) + if kept(values, ignored, hi - 1) {
            values[hi - 1] as int
        } else {
            0
        }
    }
}

/// Number of kept entries with index in `[lo, hi)`.
pub open spec fn range_count(values: Seq<u32>, ignored: Seq<u32>, lo: int, hi: int) -> int
    decreases hi - lo,
{
    if hi <= lo {
        0
    } else {
        range_count(values, ignored, lo, hi - 1) + if kept(values, ignored, hi - 1) {
            1int
        } else {
            0
        }
    }
}

/// The scaling factor for a series of `len` entries and a bound of
/// `max_len` buckets: the smallest `f >= 1` with `len <= f * max_len`.
/// An empty series downscales to an empty series with factor 1.
pub open spec fn ds_factor(len: int, max_len: int) -> int {
    if len <= 0 {
        1
    } else {
        (len - 1) / max_len + 1
    }
}

/// How many buckets a series of `len` entries yields under `factor`:
/// `ceil(len / factor)`.
pub open spec fn ds_len(len: int, factor: int) -> int {
    if len <= 0 {
        0
    } else {
        (len - 1) / factor + 1
    }
}

/// One past the last original index of the bucket starting at `lo`: the
/// last bucket may be short.
pub open spec fn bucket_hi(lo: int, factor: int, len: int) -> int {
    if len - lo < factor {
        len
    } else {
        lo + factor
    }
}

/// Sum of the kept entries of bucket `i`.
pub open spec fn bucket_sum(values: Seq<u32>, ignored: Seq<u32>, factor: int, i: int) -> int {
    range_sum(values, ignored, i * factor, bucket_hi(i * factor, factor, values.len() as int))
}

/// Number of kept entries of bucket `i`.
pub open spec fn bucket_count(values: Seq<u32>, ignored: Seq<u32>, factor: int, i: int) -> int {
    range_count(values, ignored, i * factor, bucket_hi(i * factor, factor, values.len() as int))
}

/// A bucket joins the aggregated ignored set exactly when it has no kept
/// entry.
pub open spec fn bucket_ignored(values: Seq<u32>, ignored: Seq<u32>, factor: int, i: int) -> bool {
    bucket_count(values, ignored, factor, i) == 0
}

/// The value bucket `i` reports: `0` for an all-ignored bucket, otherwise
/// the sum of its kept entries saturated at `u32::MAX`, or their mean.
pub open spec fn bucket_value(
    values: Seq<u32>,
    ignored: Seq<u32>,
    factor: int,
    i: int,
    agg: Aggregation,
) -> int {
    let s = bucket_sum(values, ignored, factor, i);
    let c = bucket_count(values, ignored, factor, i);
    if c == 0 {
        0
    } else {
        match agg {
            Aggregation::Sum => if s > u32::MAX {
                u32::MAX as int
            } else {
                s
            },
            Aggregation::Mean => s / c,
        }
    }
}

/// The aggregated series: bucket values for buckets `0 .. n`.
pub open spec fn ds_values(
    values: Seq<u32>,
    ignored: Seq<u32>,
    factor: int,
    n: int,
    agg: Aggregation,
) -> Seq<u32>
    decreases n,
{
    if n <= 0 {
        Seq::empty()
    } else {
        ds_values(values, ignored, factor, n - 1, agg).push(
            bucket_value(values, ignored, factor, n - 1, agg) as u32,
        )
    }
}

/// The aggregated ignored set: the indices of the all-ignored buckets
/// among `0 .. n`, in increasing order.
pub open spec fn ds_ignored(values: Seq<u32>, ignored: Seq<u32>, factor: int, n: int) -> Seq<u32>
    decreases n,
{
    if n <= 0 {
        Seq::empty()
    } else {
        let rest = ds_ignored(values, ignored, factor, n - 1);
        if bucket_ignored(values, ignored, factor, n - 1) {
            rest.push((n - 1) as u32)
        } else {
            rest
        }
    }
}

/// The factor is at least 1, at most `len`, large enough that the buckets
/// cover the series, and the smallest such.
pub proof fn lemma_factor_bounds(len: int, max_len: int)
    requires
        1 <= max_len,
        1 <= len,
    ensures
        1 <= ds_factor(len, max_len) <= len,
        len <= ds_factor(len, max_len) * max_len,
        (ds_factor(len, max_len) - 1) * max_len < len,
        len <= max_len ==> ds_factor(len, max_len) == 1,
{
    let q = (len - 1) / max_len;
    let r = (len - 1) % max_len;
    lemma_fundamental_div_mod(len - 1, max_len);
    lemma_div_pos_is_pos(len - 1, max_len);
    lemma_div_nonincreasing(len - 1, max_len);
    assert((q + 1) * max_len == max_len * q + max_len) by (nonlinear_arith);
    assert(q * max_len == max_len * q) by {
        lemma_mul_is_commutative(q, max_len);
    }
    if len <= max_len {
        lemma_basic_div(len - 1, max_len);
    }
}

/// Downscaling with the chosen factor indeed yields at most `max_len`
/// buckets, and at least one for a non-empty series.
pub proof fn lemma_ds_len_le_max(len: int, max_len: int)
    requires
        1 <= max_len,
        0 <= len,
    ensures
        ds_len(len, ds_factor(len, max_len)) <= max_len,
        1 <= len ==> 1 <= ds_len(len, ds_factor(len, max_len)),
        ds_len(len, ds_factor(len, max_len)) <= len,
{
    if len >= 1 {
        let f = ds_factor(len, max_len);
        lemma_factor_bounds(len, max_len);
        lemma_multiply_divide_lt(len - 1, f, max_len);
        lemma_div_pos_is_pos(len - 1, f);
        lemma_div_nonincreasing(len - 1, f);
    }
}

/// Every bucket of the aggregation starts inside the series.
pub proof fn lemma_bucket_lo_in_range(len: int, factor: int, i: int)
    requires
        1 <= factor,
        0 <= i < ds_len(len, factor),
    ensures
        i * factor < len,
        0 <= i * factor,
{
    lemma_fundamental_div_mod(len - 1, factor);
    lemma_mul_inequality(i, (len - 1) / factor, factor);
    assert(((len - 1) / factor) * factor == factor * ((len - 1) / factor)) by {
        lemma_mul_is_commutative((len - 1) / factor, factor);
    }
    vstd::arithmetic::mul::lemma_mul_nonnegative(i, factor);
}

/// The kept entries of a range are never more than the range is long, and
/// their sum never exceeds `count * u32::MAX`.
pub proof fn lemma_range_bounds(values: Seq<u32>, ignored: Seq<u32>, lo: int, hi: int)
    requires
        lo <= hi,
    ensures
        0 <= range_count(values, ignored, lo, hi) <= hi - lo,
        0 <= range_sum(values, ignored, lo, hi),
        range_sum(values, ignored, lo, hi) <= range_count(values, ignored, lo, hi) * (
        u32::MAX as int),
    decreases hi - lo,
{
    if lo < hi {
        lemma_range_bounds(values, ignored, lo, hi - 1);
        let c = range_count(values, ignored, lo, hi - 1);
        assert((c + 1) * (u32::MAX as int) == c * (u32::MAX as int) + u32::MAX) by (nonlinear_arith);
    }
}

/// A bucket's mean never exceeds `u32::MAX`.
pub proof fn lemma_bucket_value_fits(
    values: Seq<u32>,
    ignored: Seq<u32>,
    factor: int,
    i: int,
    agg: Aggregation,
)
    requires
        1 <= factor,
        0 <= i,
    ensures
        0 <= bucket_value(values, ignored, factor, i, agg) <= u32::MAX,
{
    let lo = i * factor;
    let hi = bucket_hi(lo, factor, values.len() as int);
    if lo <= hi {
        lemma_range_bounds(values, ignored, lo, hi);
        let s = bucket_sum(values, ignored, factor, i);
        let c = bucket_count(values, ignored, factor, i);
        if c > 0 {
            lemma_multiply_divide_le(s, c, u32::MAX as int);
            lemma_div_pos_is_pos(s, c);
        }
    }
}

/// The aggregated series has one entry per bucket.
pub proof fn lemma_ds_values_len(
    values: Seq<u32>,
    ignored: Seq<u32>,
    factor: int,
    n: int,
    agg: Aggregation,
)
    requires
        0 <= n,
    ensures
        ds_values(values, ignored, factor, n, agg).len() == n,
    decreases n,
{
    if n > 0 {
        lemma_ds_values_len(values, ignored, factor, n - 1, agg);
    }
}

/// Each entry of the aggregated series is its bucket's value.
pub proof fn lemma_ds_values_index(
    values: Seq<u32>,
    ignored: Seq<u32>,
    factor: int,
    n: int,
    agg: Aggregation,
    i: int,
)
    requires
        0 <= i < n,
        1 <= factor,
    ensures
        ds_values(values, ignored, factor, n, agg).len() == n,
        ds_values(values, ignored, factor, n, agg)[i] == bucket_value(
            values,
            ignored,
            factor,
            i,
            agg,
        ),
    decreases n,
{
    lemma_ds_values_len(values, ignored, factor, n, agg);
    lemma_bucket_value_fits(values, ignored, factor, n - 1, agg);
    if i < n - 1 {
        lemma_ds_values_index(values, ignored, factor, n - 1, agg, i);
    }
}

/// The aggregated ignored set holds exactly the indices of the all-ignored
/// buckets.
pub proof fn lemma_ds_ignored_contains(values: Seq<u32>, ignored: Seq<u32>, factor: int, n: int)
    requires
        0 <= n <= u32::MAX,
    ensures
        forall|x: u32|
            #[trigger] ds_ignored(values, ignored, factor, n).contains(x) <==> (x < n
                && bucket_ignored(values, ignored, factor, x as int)),
    decreases n,
{
    if n > 0 {
        lemma_ds_ignored_contains(values, ignored, factor, n - 1);
        let rest = ds_ignored(values, ignored, factor, n - 1);
        let whole = ds_ignored(values, ignored, factor, n);
        if bucket_ignored(values, ignored, factor, n - 1) {
            assert forall|x: u32| #[trigger] whole.contains(x) implies (x < n && bucket_ignored(
                values,
                ignored,
                factor,
                x as int,
            )) by {
                let k = choose|k: int| 0 <= k < whole.len() && whole[k] == x;
                if k < rest.len() {
                    assert(rest.contains(x));
                }
            }
            assert forall|x: u32|
                (x < n && bucket_ignored(values, ignored, factor, x as int)) implies #[trigger] whole.contains(
                x,
            ) by {
                if x < n - 1 {
                    assert(rest.contains(x));
                    let k = choose|k: int| 0 <= k < rest.len() && rest[k] == x;
                    assert(whole[k] == x);
                } else {
                    assert(whole[whole.len() - 1] == x);
                }
            }
        } else {
            assert forall|x: u32|
                (x < n && bucket_ignored(values, ignored, factor, x as int)) implies #[trigger] whole.contains(
                x,
            ) by {
                assert(x < n - 1);
                assert(rest.contains(x));
            }
        }
    }
}

/// One downscaling pass as the charts see it: a series short enough for
/// its bound is used as it stands with factor 1, a longer one is
/// aggregated.
pub open spec fn spec_downscaled(
    values: Seq<u32>,
    ignored: Seq<u32>,
    bound: int,
    agg: Aggregation,
) -> (Seq<u32>, Seq<u32>, int) {
    if values.len() <= bound {
        (values, ignored, 1)
    } else {
        let f = ds_factor(values.len() as int, bound);
        let n = ds_len(values.len() as int, f);
        (ds_values(values, ignored, f, n, agg), ds_ignored(values, ignored, f, n), f)
    }
}

/// The largest value of a series; `0` when it is empty.
pub open spec fn seq_max(s: Seq<u32>) -> int
    decreases s.len(),
{
    if s.len() == 0 {
        0
    } else if s.last() as int >= seq_max(s.drop_last()) {
        s.last() as int
    } else {
        seq_max(s.drop_last())
    }
}

/// The series maximum is itself a series value or zero.
pub proof fn lemma_seq_max_bound(s: Seq<u32>)
    ensures
        0 <= seq_max(s) <= u32::MAX,
    decreases s.len(),
{
    if s.len() > 0 {
        lemma_seq_max_bound(s.drop_last());
    }
}

/// No entry exceeds the series maximum.
pub proof fn lemma_seq_max_ge(s: Seq<u32>, i: int)
    requires
        0 <= i < s.len(),
    ensures
        s[i] <= seq_max(s),
        0 <= seq_max(s) <= u32::MAX,
    decreases s.len(),
{
    lemma_seq_max_bound(s);
    if i < s.len() - 1 {
        lemma_seq_max_ge(s.drop_last(), i);
    }
}

/// Computes the largest value of the series, `0` when it is empty.
pub fn series_max(values: &Vec<u32>) -> (r: u32)
    ensures
        r == seq_max(values@),
{
    let mut r: u32 = 0;
    let mut i: usize = 0;
    while i < values.len()
        invariant
            i <= values@.len(),
            r == seq_max(values@.take(i as int)),
        decreases values@.len() - i,
    {
        proof {
            assert(values@.take(i + 1).drop_last() =~= values@.take(i as int));
        }
        if values[i] > r {
            r = values[i];
        }
        i += 1;
    }
    proof {
        assert(values@.take(values@.len() as int) =~= values@);
    }
    r
}

/// Whether a series value occurs in a plain vector; used for membership in
/// the ignored set.
pub fn contains_u32(xs: &Vec<u32>, x: u32) -> (r: bool)
    ensures
        r == xs@.contains(x),
{
    let mut k: usize = 0;
    while k < xs.len()
        invariant
            0 <= k <= xs@.len(),
            forall|j: int| 0 <= j < k ==> xs@[j] != x,
        decreases xs@.len() - k,
    {
        if xs[k] == x {
            assert(xs@[k as int] == x);
            return true;
        }
        k += 1;
    }
    false
}

/// One downscaling pass over the whole series.
pub fn downscale(values: &Vec<u32>, ignored: &Vec<u32>, max_length: u32, agg: Aggregation) -> (r:
    Downscaled)
    requires
        1 <= max_length,
        values@.len() <= u32::MAX,
    ensures
        r.factor as int == ds_factor(values@.len() as int, max_length as int),
        1 <= r.factor,
        r.values@.len() == ds_len(values@.len() as int, r.factor as int),
        r.values@.len() <= max_length,
        r.values@.len() <= values@.len(),
        r.values@ == ds_values(
            values@,
            ignored@,
            r.factor as int,
            ds_len(values@.len() as int, r.factor as int),
            agg,
        ),
        r.ignored@ == ds_ignored(
            values@,
            ignored@,
            r.factor as int,
            ds_len(values@.len() as int, r.factor as int),
        ),
        values@.len() >= 1 ==> values@.len() <= r.factor * max_length && (r.factor - 1)
            * max_length < values@.len(),
        1 <= values@.len() <= max_length ==> r.factor == 1,
{
    let len = values.len();
    proof {
        if len >= 1 {
            lemma_factor_bounds(len as int, max_length as int);
        }
        lemma_ds_len_le_max(len as int, max_length as int);
    }
    let factor: u32 = if len == 0 {
        1
    } else {
        (((len as u64 - 1) / (max_length as u64)) + 1) as u32
    };
    let final_len: usize = if len == 0 {
        0
    } else {
        (len - 1) / (factor as usize) + 1
    };
    let mut out_values: Vec<u32> = Vec::new();
    let mut out_ignored: Vec<u32> = Vec::new();
    let mut i: usize = 0;
    while i < final_len
        invariant
            0 <= i <= final_len,
            len == values@.len() <= u32::MAX,
            1 <= factor,
            factor as int == ds_factor(len as int, max_length as int),
            final_len == ds_len(len as int, factor as int),
            final_len <= len,
            out_values@ == ds_values(values@, ignored@, factor as int, i as int, agg),
            out_ignored@ == ds_ignored(values@, ignored@, factor as int, i as int),
        decreases final_len - i,
    {
        proof {
            lemma_bucket_lo_in_range(len as int, factor as int, i as int);
        }
        let lo: usize = i * factor as usize;
        let hi: usize = if len - lo < factor as usize {
            len
        } else {
            lo + factor as usize
        };
        assert(hi as int == bucket_hi(lo as int, factor as int, len as int));
        let mut j: usize = lo;
        let mut sum: u64 = 0;
        let mut count: u32 = 0;
        while j < hi
            invariant
                lo <= j <= hi <= len,
                len == values@.len() <= u32::MAX,
                sum == range_sum(values@, ignored@, lo as int, j as int),
                count == range_count(values@, ignored@, lo as int, j as int),
                count <= j - lo,
                sum <= count * (u32::MAX as int),
            decreases hi - j,
        {
            proof {
                assert((count + 1) * (u32::MAX as int) == count * (u32::MAX as int)
                    + u32::MAX) by (nonlinear_arith);
                vstd::arithmetic::mul::lemma_mul_upper_bound(
                    count as int,
                    u32::MAX as int,
                    u32::MAX as int,
                    u32::MAX as int,
                );
            }
            if !contains_u32(ignored, j as u32) {
                sum = sum + values[j] as u64;
                count = count + 1;
            }
            j += 1;
        }
        proof {
            lemma_bucket_value_fits(values@, ignored@, factor as int, i as int, agg);
        }
        if count == 0 {
            out_ignored.push(i as u32);
            out_values.push(0);
        } else {
            match agg {
                Aggregation::Sum => {
                    let v: u32 = if sum > u32::MAX as u64 {
                        u32::MAX
                    } else {
                        sum as u32
                    };
                    out_values.push(v);
                },
                Aggregation::Mean => {
                    out_values.push((sum / (count as u64)) as u32);
                },
            }
        }
        i += 1;
    }
    proof {
        lemma_ds_values_len(values@, ignored@, factor as int, final_len as int, agg);
    }
    Downscaled { values: out_values, ignored: out_ignored, factor }
}

} // verus!
