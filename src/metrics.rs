//! Statistics over an ordered list of latency samples.
//!
//! Latencies are held in microseconds; every statistic is held in hundredths
//! (hundredths of a percent for the loss, hundredths of a millisecond for the
//! latencies), rounded half up, which is the two-decimal rounding of the
//! exact value.
use vstd::prelude::*;

verus! {

/// The latency ceiling in microseconds (5000 ms). A sample at or above it is a
/// failed or timed-out probe.
pub const CEILING_US: u64 = 5_000_000;

/// One timestamped measurement.
#[derive(Clone, Copy, Debug, PartialEq, Eq, Structural)]
pub struct Sample {
    /// Milliseconds since the epoch.
    pub ts: i64,
    /// Round-trip time in microseconds; `CEILING_US` marks a failure.
    pub latency_us: u64,
}

/// Loss, minimum, maximum, mean and jitter, each in hundredths.
#[derive(Clone, Copy, Debug, PartialEq, Eq, Structural)]
pub struct StatVector {
    /// Packet loss in hundredths of a percent (10000 is 100 %).
    pub loss: u64,
    /// Smallest successful latency, hundredths of a millisecond.
    pub min: u64,
    /// Largest successful latency, hundredths of a millisecond.
    pub max: u64,
    /// Mean successful latency, hundredths of a millisecond.
    pub avg: u64,
    /// Mean absolute difference of consecutive successful latencies,
    /// hundredths of a millisecond.
    pub jitter: u64,
}

pub open spec fn zero_stats() -> StatVector {
    StatVector { loss: 0, min: 0, max: 0, avg: 0, jitter: 0 }
}

pub open spec fn is_success(latency_us: u64) -> bool {
    latency_us < CEILING_US
}

/// The latencies of the successful samples, in traversal order.
pub open spec fn successes(s: Seq<Sample>) -> Seq<int>
    decreases s.len(),
{
    if s.len() == 0 {
        Seq::empty()
    } else {
        let rest = successes(s.drop_last());
        if is_success(s.last().latency_us) {
            rest.push(s.last().latency_us as int)
        } else {
            rest
        }
    }
}

pub open spec fn sum_of(v: Seq<int>) -> int
    decreases v.len(),
{
    if v.len() == 0 {
        0
    } else {
        sum_of(v.drop_last()) + v.last()
    }
}

pub open spec fn min_of(v: Seq<int>) -> int
    decreases v.len(),
{
    if v.len() <= 1 {
        if v.len() == 0 { 0 } else { v[0] }
    } else {
        let m = min_of(v.drop_last());
        if v.last() < m { v.last() } else { m }
    }
}

pub open spec fn max_of(v: Seq<int>) -> int
    decreases v.len(),
{
    if v.len() <= 1 {
        if v.len() == 0 { 0 } else { v[0] }
    } else {
        let m = max_of(v.drop_last());
        if v.last() > m { v.last() } else { m }
    }
}

pub open spec fn abs_diff(a: int, b: int) -> int {
    if a >= b { a - b } else { b - a }
}

/// Sum of the absolute differences of adjacent entries.
pub open spec fn jitter_sum(v: Seq<int>) -> int
    decreases v.len(),
{
    if v.len() < 2 {
        0
    } else {
        jitter_sum(v.drop_last()) + abs_diff(v.last(), v[v.len() - 2])
    }
}

/// `a / b` rounded to the nearest integer, halves up.
pub open spec fn round_div(a: int, b: int) -> int {
    (2 * a + b) / (2 * b)
}

/// The statistics of a sample list, exactly as the calculator defines them.
pub open spec fn stats_of(s: Seq<Sample>) -> StatVector {
    if s.len() == 0 {
        zero_stats()
    } else {
        let v = successes(s);
        let n = v.len() as int;
        StatVector {
            loss: round_div((s.len() - n) * 10000, s.len() as int) as u64,
            min: if n == 0 { 0 } else { round_div(min_of(v), 10) as u64 },
            max: if n == 0 { 0 } else { round_div(max_of(v), 10) as u64 },
            avg: if n == 0 { 0 } else { round_div(sum_of(v), n * 10) as u64 },
            jitter: if n < 2 { 0 } else { round_div(jitter_sum(v), (n - 1) * 10) as u64 },
        }
    }
}

proof fn lemma_successes_bounds(s: Seq<Sample>)
    ensures
        successes(s).len() <= s.len(),
        forall|k: int| 0 <= k < successes(s).len() ==> 0 <= #[trigger] successes(s)[k] < CEILING_US,
    decreases s.len(),
{
    if s.len() > 0 {
        lemma_successes_bounds(s.drop_last());
    }
}

fn round_div_exec(a: u128, b: u128) -> (r: u64)
    requires
        b > 0,
        a <= b * (CEILING_US as u128),
        b < 0x1_0000_0000_0000_0000_0000,
    ensures
        r == round_div(a as int, b as int),
{
    assert(b * (CEILING_US as u128) <= 0x1_0000_0000_0000_0000_0000 * 0x80_0000) by (nonlinear_arith)
        requires b < 0x1_0000_0000_0000_0000_0000;
    assert(2 * a + b <= 2 * b * (CEILING_US as u128) + b) by (nonlinear_arith)
        requires a <= b * (CEILING_US as u128);
    let q = (2 * a + b) / (2 * b);
    assert(q <= CEILING_US) by (nonlinear_arith)
        requires q == (2 * a + b) / (2 * b), 2 * a + b <= 2 * b * (CEILING_US as u128) + b, b > 0;
    q as u64
}

/// Computes the statistics of `points`, taken in the order given.
pub fn calculate_metrics(points: &[Sample]) -> (r: StatVector)
    ensures
        r == stats_of(points@),
{
    let len = points.len();
    if len == 0 {
        return StatVector { loss: 0, min: 0, max: 0, avg: 0, jitter: 0 };
    }
    let mut count: u64 = 0;
    let mut total: u128 = 0;
    let mut min: u64 = CEILING_US;
    let mut max: u64 = 0;
    let mut jsum: u128 = 0;
    let mut prev: Option<u64> = None;
    let mut i: usize = 0;
    while i < len
        invariant
            len == points@.len(),
            0 <= i <= len,
            count as int == successes(points@.subrange(0, i as int)).len(),
            count <= i,
            total as int == sum_of(successes(points@.subrange(0, i as int))),
            total <= (count as u128) * (CEILING_US as u128),
            jsum as int == jitter_sum(successes(points@.subrange(0, i as int))),
            jsum <= (count as u128) * (CEILING_US as u128),
            count > 0 ==> min as int == min_of(successes(points@.subrange(0, i as int))),
            count > 0 ==> max as int == max_of(successes(points@.subrange(0, i as int))),
            count == 0 <==> prev is None,
            min <= CEILING_US,
            max <= CEILING_US,
            count > 0 ==> prev == Some(successes(points@.subrange(0, i as int)).last() as u64),
        decreases len - i,
    {
        let ghost before = points@.subrange(0, i as int);
        let p = points[i];
        proof {
            assert(points@.subrange(0, i + 1).drop_last() =~= before);
            lemma_successes_bounds(before);
        }
        if p.latency_us < CEILING_US {
            proof {
                let c = count as u128;
                assert((c + 1) * (CEILING_US as u128) == c * (CEILING_US as u128) + CEILING_US as u128)
                    by (nonlinear_arith);
            }
            count = count + 1;
            total = total + p.latency_us as u128;
            if count == 1 || p.latency_us < min {
                min = p.latency_us;
            }
            if count == 1 || p.latency_us > max {
                max = p.latency_us;
            }
            match prev {
                Some(q) => {
                    let d: u64 = if p.latency_us >= q { p.latency_us - q } else { q - p.latency_us };
                    jsum = jsum + d as u128;
                },
                None => {},
            }
            prev = Some(p.latency_us);
            proof {
                let v = successes(points@.subrange(0, i + 1));
                assert(v.drop_last() =~= successes(before));
            }
        }
        i = i + 1;
    }
    proof {
        assert(points@.subrange(0, len as int) =~= points@);
    }
    let loss = round_div_exec(((len as u64 - count) as u128) * 10000, len as u128);
    if count == 0 {
        return StatVector { loss, min: 0, max: 0, avg: 0, jitter: 0 };
    }
    let min_r = round_div_exec(min as u128, 10);
    let max_r = round_div_exec(max as u128, 10);
    let avg = round_div_exec(total, (count as u128) * 10);
    let jitter = if count < 2 {
        0
    } else {
        round_div_exec(jsum, ((count - 1) as u128) * 10)
    };
    StatVector { loss, min: min_r, max: max_r, avg, jitter }
}


proof fn lemma_successes_append(a: Seq<Sample>, b: Seq<Sample>)
    ensures
        successes(a + b) == successes(a) + successes(b),
    decreases b.len(),
{
    if b.len() == 0 {
        assert(a + b =~= a);
        assert(successes(a) + successes(b) =~= successes(a));
    } else {
        lemma_successes_append(a, b.drop_last());
        assert((a + b).drop_last() =~= a + b.drop_last());
        if is_success(b.last().latency_us) {
            assert(successes(a) + successes(b) =~= (successes(a) + successes(b.drop_last())).push(
                b.last().latency_us as int,
            ));
        }
    }
}

proof fn lemma_all_failed_no_successes(s: Seq<Sample>)
    requires
        forall|k: int| 0 <= k < s.len() ==> !is_success(#[trigger] s[k].latency_us),
    ensures
        successes(s).len() == 0,
    decreases s.len(),
{
    if s.len() > 0 {
        lemma_all_failed_no_successes(s.drop_last());
    }
}

proof fn lemma_all_succeeded(s: Seq<Sample>)
    requires
        forall|k: int| 0 <= k < s.len() ==> is_success(#[trigger] s[k].latency_us),
    ensures
        successes(s).len() == s.len(),
    decreases s.len(),
{
    if s.len() > 0 {
        lemma_all_succeeded(s.drop_last());
    }
}

proof fn lemma_sum_between_min_max(v: Seq<int>)
    requires
        v.len() > 0,
    ensures
        min_of(v) * v.len() <= sum_of(v) <= max_of(v) * v.len(),
        min_of(v) <= max_of(v),
    decreases v.len(),
{
    if v.len() == 1 {
        assert(v.drop_last().len() == 0);
        assert(sum_of(v.drop_last()) == 0);
        assert(v.last() == v[0]);
        assert(sum_of(v) == v[0]);
        assert(min_of(v) * v.len() == min_of(v)) by (nonlinear_arith)
            requires v.len() == 1;
        assert(max_of(v) * v.len() == max_of(v)) by (nonlinear_arith)
            requires v.len() == 1;
    } else {
        let w = v.drop_last();
        lemma_sum_between_min_max(w);
        let n = w.len() as int;
        assert(min_of(v) <= min_of(w) && min_of(v) <= v.last());
        assert(max_of(v) >= max_of(w) && max_of(v) >= v.last());
        assert(min_of(v) * n <= min_of(w) * n) by (nonlinear_arith)
            requires min_of(v) <= min_of(w), n >= 0;
        assert(max_of(w) * n <= max_of(v) * n) by (nonlinear_arith)
            requires max_of(v) >= max_of(w), n >= 0;
        assert(min_of(v) * (n + 1) == min_of(v) * n + min_of(v)) by (nonlinear_arith);
        assert(max_of(v) * (n + 1) == max_of(v) * n + max_of(v)) by (nonlinear_arith);
        assert(v.len() == n + 1);
        assert(sum_of(v) == sum_of(w) + v.last());
    }
}

proof fn lemma_round_div_monotone(a: int, b: int, c: int, d: int)
    requires
        b > 0,
        d > 0,
        a * d <= c * b,
    ensures
        round_div(a, b) <= round_div(c, d),
{
    let x = 2 * a + b;
    let y = 2 * c + d;
    assert(x * (2 * d) <= y * (2 * b)) by (nonlinear_arith)
        requires x == 2 * a + b, y == 2 * c + d, a * d <= c * b, b > 0, d > 0;
    assert(x / (2 * b) <= y / (2 * d)) by (nonlinear_arith)
        requires x * (2 * d) <= y * (2 * b), b > 0, d > 0;
}

/// The statistics of an empty list are all zero.
pub proof fn lemma_empty_is_zero()
    ensures
        stats_of(Seq::<Sample>::empty()) == zero_stats(),
{
}

/// When every sample failed, the loss is 100 % and the other four values are
/// zero.
pub proof fn lemma_all_failed(s: Seq<Sample>)
    requires
        s.len() > 0,
        forall|k: int| 0 <= k < s.len() ==> !is_success(#[trigger] s[k].latency_us),
    ensures
        stats_of(s) == (StatVector { loss: 10000, min: 0, max: 0, avg: 0, jitter: 0 }),
{
    lemma_all_failed_no_successes(s);
    let n = s.len() as int;
    assert(round_div(n * 10000, n) == 10000) by (nonlinear_arith)
        requires n > 0;
}

/// When no sample failed, the loss is zero and the mean lies between the
/// minimum and the maximum.
pub proof fn lemma_no_failures(s: Seq<Sample>)
    requires
        s.len() > 0,
        forall|k: int| 0 <= k < s.len() ==> is_success(#[trigger] s[k].latency_us),
    ensures
        stats_of(s).loss == 0,
        stats_of(s).min <= stats_of(s).avg <= stats_of(s).max,
{
    lemma_all_succeeded(s);
    lemma_successes_bounds(s);
    let v = successes(s);
    let n = v.len() as int;
    assert(round_div(0, n) == 0) by (nonlinear_arith)
        requires n > 0;
    lemma_sum_between_min_max(v);
    assert(v[0] >= 0 && v[0] < CEILING_US);
    assert(0 <= min_of(v) && max_of(v) < CEILING_US) by {
        lemma_min_max_members(v);
    }
    assert(0 <= sum_of(v) < CEILING_US * n) by (nonlinear_arith)
        requires min_of(v) * n <= sum_of(v) <= max_of(v) * n, 0 <= min_of(v), max_of(v) < CEILING_US, n > 0;
    assert(min_of(v) * (n * 10) <= sum_of(v) * 10) by (nonlinear_arith)
        requires min_of(v) * n <= sum_of(v);
    assert(sum_of(v) * 10 <= max_of(v) * (n * 10)) by (nonlinear_arith)
        requires sum_of(v) <= max_of(v) * n;
    lemma_round_div_monotone(min_of(v), 10, sum_of(v), n * 10);
    lemma_round_div_monotone(sum_of(v), n * 10, max_of(v), 10);
    assert(0 <= round_div(min_of(v), 10));
    assert(round_div(max_of(v), 10) <= CEILING_US) by (nonlinear_arith)
        requires 0 <= max_of(v) < CEILING_US;
}

proof fn lemma_min_max_members(v: Seq<int>)
    requires
        v.len() > 0,
    ensures
        exists|k: int| 0 <= k < v.len() && v[k] == min_of(v),
        exists|k: int| 0 <= k < v.len() && v[k] == max_of(v),
    decreases v.len(),
{
    if v.len() == 1 {
        assert(v[0] == min_of(v));
        assert(v[0] == max_of(v));
    } else {
        let w = v.drop_last();
        lemma_min_max_members(w);
        let i = choose|k: int| 0 <= k < w.len() && w[k] == min_of(w);
        let j = choose|k: int| 0 <= k < w.len() && w[k] == max_of(w);
        assert(v[i] == w[i] && v[j] == w[j]);
        assert(v[v.len() - 1] == v.last());
    }
}

/// A failed sample inserted anywhere changes neither the successful
/// latencies seen in order nor, therefore, the jitter: failures are skipped,
/// not read as a latency of zero.
pub proof fn lemma_failure_skipped(s: Seq<Sample>, i: int, f: Sample)
    requires
        0 <= i <= s.len(),
        !is_success(f.latency_us),
    ensures
        successes(s.insert(i, f)) == successes(s),
        stats_of(s.insert(i, f)).jitter == stats_of(s).jitter,
        stats_of(s.insert(i, f)).min == stats_of(s).min,
        stats_of(s.insert(i, f)).max == stats_of(s).max,
        stats_of(s.insert(i, f)).avg == stats_of(s).avg,
{
    let a = s.subrange(0, i);
    let b = s.subrange(i, s.len() as int);
    let one = seq![f];
    assert(s.insert(i, f) =~= (a + one) + b);
    assert(s =~= a + b);
    lemma_successes_append(a + one, b);
    lemma_successes_append(a, one);
    lemma_successes_append(a, b);
    assert(one.drop_last() =~= Seq::<Sample>::empty());
    assert(one.last() == f);
    assert(successes(one) == successes(one.drop_last()));
    assert(successes(a) + successes(one) =~= successes(a));
}

} // verus!
