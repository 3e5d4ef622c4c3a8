//! Trailing-window statistics and the bucketed recent history of one target.
use vstd::prelude::*;
use crate::metrics::{Sample, StatVector, calculate_metrics, stats_of};
use crate::registry::Target;
use crate::clock::now_millis;

verus! {

/// Milliseconds in one minute, the width of a history bucket.
pub const MINUTE_MS: i64 = 60_000;

/// Number of buckets in the recent history.
pub const HISTORY_LEN: usize = 30;

/// Number of trailing windows.
pub const WINDOW_COUNT: usize = 7;

/// Milliseconds in the longest window; samples older than this are not read.
pub const DAY_MS: i64 = 86_400_000;

/// A trailing time span over which statistics are computed.
#[derive(Clone, Copy, Debug, PartialEq, Eq, Structural)]
pub enum Window {
    OneMinute,
    FiveMinutes,
    FifteenMinutes,
    OneHour,
    ThreeHours,
    TwelveHours,
    OneDay,
}

pub open spec fn window_at(k: int) -> Window {
    if k == 0 {
        Window::OneMinute
    } else if k == 1 {
        Window::FiveMinutes
    } else if k == 2 {
        Window::FifteenMinutes
    } else if k == 3 {
        Window::OneHour
    } else if k == 4 {
        Window::ThreeHours
    } else if k == 5 {
        Window::TwelveHours
    } else {
        Window::OneDay
    }
}

impl Window {
    pub open spec fn spec_duration_ms(self) -> int {
        match self {
            Window::OneMinute => 60_000,
            Window::FiveMinutes => 300_000,
            Window::FifteenMinutes => 900_000,
            Window::OneHour => 3_600_000,
            Window::ThreeHours => 10_800_000,
            Window::TwelveHours => 43_200_000,
            Window::OneDay => 86_400_000,
        }
    }

    /// Length of the window in milliseconds.
    pub fn duration_ms(&self) -> (r: i64)
        ensures
            r == self.spec_duration_ms(),
    {
        match self {
            Window::OneMinute => 60_000,
            Window::FiveMinutes => 300_000,
            Window::FifteenMinutes => 900_000,
            Window::OneHour => 3_600_000,
            Window::ThreeHours => 10_800_000,
            Window::TwelveHours => 43_200_000,
            Window::OneDay => 86_400_000,
        }
    }

    pub open spec fn spec_label(self) -> Seq<char> {
        match self {
            Window::OneMinute => "1m"@,
            Window::FiveMinutes => "5m"@,
            Window::FifteenMinutes => "15m"@,
            Window::OneHour => "1h"@,
            Window::ThreeHours => "3h"@,
            Window::TwelveHours => "12h"@,
            Window::OneDay => "24h"@,
        }
    }

    /// The label under which the window's statistics are published.
    pub fn label(&self) -> (r: &'static str)
        ensures
            r@ == self.spec_label(),
    {
        match self {
            Window::OneMinute => "1m",
            Window::FiveMinutes => "5m",
            Window::FifteenMinutes => "15m",
            Window::OneHour => "1h",
            Window::ThreeHours => "3h",
            Window::TwelveHours => "12h",
            Window::OneDay => "24h",
        }
    }

    /// The window at position `k` of the fixed list, shortest first.
    pub fn at(k: usize) -> (r: Window)
        requires
            k < WINDOW_COUNT,
        ensures
            r == window_at(k as int),
    {
        if k == 0 {
            Window::OneMinute
        } else if k == 1 {
            Window::FiveMinutes
        } else if k == 2 {
            Window::FifteenMinutes
        } else if k == 3 {
            Window::OneHour
        } else if k == 4 {
            Window::ThreeHours
        } else if k == 5 {
            Window::TwelveHours
        } else {
            Window::OneDay
        }
    }
}

/// The statistics of one window.
#[derive(Clone, Copy, Debug, PartialEq, Eq, Structural)]
pub struct WindowStat {
    pub window: Window,
    pub stats: StatVector,
}

/// Everything published for one target after an aggregation pass.
#[derive(Clone, Debug)]
pub struct AggregatedView {
    pub id: String,
    pub address: String,
    /// One entry per window, in the order of `window_at`.
    pub stats: Vec<WindowStat>,
    /// One entry per minute of the last half hour, oldest first.
    pub history: Vec<StatVector>,
}

/// The samples of `s` with `lo <= ts < hi`, in their order.
pub open spec fn select(s: Seq<Sample>, lo: int, hi: int) -> Seq<Sample>
    decreases s.len(),
{
    if s.len() == 0 {
        Seq::empty()
    } else {
        let rest = select(s.drop_last(), lo, hi);
        if lo <= s.last().ts < hi {
            rest.push(s.last())
        } else {
            rest
        }
    }
}

/// An upper end above every timestamp.
pub open spec fn open_end() -> int {
    i64::MAX as int + 1
}

pub open spec fn window_stats_of(s: Seq<Sample>, now: int) -> Seq<WindowStat> {
    Seq::new(
        WINDOW_COUNT as nat,
        |k: int|
            WindowStat {
                window: window_at(k),
                stats: stats_of(select(s, now - window_at(k).spec_duration_ms(), open_end())),
            },
    )
}

/// Start of history entry `j` (oldest first): it covers the minute that ended
/// `29 - j` minutes before `now`.
pub open spec fn bucket_start(now: int, j: int) -> int {
    now - (HISTORY_LEN - j) * MINUTE_MS
}

pub open spec fn bucket_end(now: int, j: int) -> int {
    now - (HISTORY_LEN - 1 - j) * MINUTE_MS
}

pub open spec fn history_of(s: Seq<Sample>, now: int) -> Seq<StatVector> {
    Seq::new(
        HISTORY_LEN as nat,
        |j: int| stats_of(select(s, bucket_start(now, j), bucket_end(now, j))),
    )
}

/// The samples of `points` with `lo <= ts < hi`, in their order.
pub fn points_in(points: &[Sample], lo: i128, hi: i128) -> (r: Vec<Sample>)
    ensures
        r@ == select(points@, lo as int, hi as int),
{
    let mut r: Vec<Sample> = Vec::new();
    let mut i: usize = 0;
    while i < points.len()
        invariant
            0 <= i <= points@.len(),
            r@ == select(points@.subrange(0, i as int), lo as int, hi as int),
        decreases points@.len() - i,
    {
        proof {
            assert(points@.subrange(0, i + 1).drop_last() =~= points@.subrange(0, i as int));
        }
        let p = points[i];
        if lo <= p.ts as i128 && (p.ts as i128) < hi {
            r.push(p);
        }
        i = i + 1;
    }
    proof {
        assert(points@.subrange(0, points@.len() as int) =~= points@);
    }
    r
}

/// Statistics for every trailing window ending at `now`: window `w` holds the
/// samples with `ts >= now - w.duration_ms()`.
pub fn window_stats(points: &[Sample], now: i64) -> (r: Vec<WindowStat>)
    ensures
        r@ == window_stats_of(points@, now as int),
{
    let mut r: Vec<WindowStat> = Vec::new();
    let mut k: usize = 0;
    while k < WINDOW_COUNT
        invariant
            0 <= k <= WINDOW_COUNT,
            r@ == window_stats_of(points@, now as int).subrange(0, k as int),
        decreases WINDOW_COUNT - k,
    {
        let w = Window::at(k);
        let cutoff = now as i128 - w.duration_ms() as i128;
        let end = i64::MAX as i128 + 1;
        let relevant = points_in(points, cutoff, end);
        let stats = calculate_metrics(relevant.as_slice());
        r.push(WindowStat { window: w, stats });
        proof {
            assert(r@ =~= window_stats_of(points@, now as int).subrange(0, k + 1));
        }
        k = k + 1;
    }
    proof {
        assert(r@ =~= window_stats_of(points@, now as int));
    }
    r
}

/// Statistics per minute of the last half hour, oldest first. Entry `j`
/// covers `[now - (30 - j) min, now - (29 - j) min)`; an empty minute gives
/// all zeros.
pub fn history(points: &[Sample], now: i64) -> (r: Vec<StatVector>)
    ensures
        r@ == history_of(points@, now as int),
        r@.len() == HISTORY_LEN,
{
    let mut r: Vec<StatVector> = Vec::new();
    let mut j: usize = 0;
    while j < HISTORY_LEN
        invariant
            0 <= j <= HISTORY_LEN,
            r@ == history_of(points@, now as int).subrange(0, j as int),
        decreases HISTORY_LEN - j,
    {
        let lo = now as i128 - ((HISTORY_LEN - j) as i128) * (MINUTE_MS as i128);
        let hi = now as i128 - ((HISTORY_LEN - 1 - j) as i128) * (MINUTE_MS as i128);
        let bucket = points_in(points, lo, hi);
        let stats = calculate_metrics(bucket.as_slice());
        r.push(stats);
        proof {
            assert(r@ =~= history_of(points@, now as int).subrange(0, j + 1));
        }
        j = j + 1;
    }
    proof {
        assert(r@ =~= history_of(points@, now as int));
    }
    r
}

/// The view published for `target` from its samples, as of `now`.
pub fn aggregate_target(target: &Target, points: &[Sample], now: i64) -> (r: AggregatedView)
    ensures
        r.id@ == target.id@,
        r.address@ == target.address@,
        r.stats@ == window_stats_of(points@, now as int),
        r.history@ == history_of(points@, now as int),
        r.history@.len() == HISTORY_LEN,
{
    AggregatedView {
        id: target.id.clone(),
        address: target.address.clone(),
        stats: window_stats(points, now),
        history: history(points, now),
    }
}

impl AggregatedView {
    /// The statistics published for window `w`.
    pub fn stats_for(&self, w: Window) -> (r: Option<StatVector>)
        ensures
            r is None <==> forall|k: int| 0 <= k < self.stats@.len() ==> self.stats@[k].window != w,
            r matches Some(v) ==> exists|k: int|
                0 <= k < self.stats@.len() && self.stats@[k].window == w && self.stats@[k].stats == v,
    {
        let mut k: usize = 0;
        while k < self.stats.len()
            invariant
                0 <= k <= self.stats@.len(),
                forall|m: int| 0 <= m < k ==> self.stats@[m].window != w,
            decreases self.stats@.len() - k,
        {
            if self.stats[k].window == w {
                return Some(self.stats[k].stats);
            }
            k = k + 1;
        }
        None
    }
}

/// One aggregation pass: every target of the pass is aggregated as of the
/// same instant.
pub struct AggregationPass {
    pub now: i64,
}

impl AggregationPass {
    /// Starts a pass at the current time.
    pub fn begin() -> AggregationPass {
        AggregationPass { now: now_millis() }
    }

    /// The earliest timestamp read for the pass: one day before `now`, or the
    /// smallest timestamp when that would underflow.
    pub fn range_start(&self) -> (r: i64)
        ensures
            r == (if self.now - DAY_MS >= i64::MIN { self.now - DAY_MS } else { i64::MIN as int }),
    {
        if self.now >= i64::MIN + DAY_MS {
            self.now - DAY_MS
        } else {
            i64::MIN
        }
    }

    /// The view of `target` from its samples as of the pass's instant.
    pub fn aggregate(&self, target: &Target, points: &[Sample]) -> (r: AggregatedView)
        ensures
            r.id@ == target.id@,
            r.address@ == target.address@,
            r.stats@ == window_stats_of(points@, self.now as int),
            r.history@ == history_of(points@, self.now as int),
    {
        aggregate_target(target, points, self.now)
    }
}

/// Whatever the samples, the history has one entry per minute of the last
/// half hour; with no samples every entry is zero.
pub proof fn lemma_history_shape(s: Seq<Sample>, now: int)
    ensures
        history_of(s, now).len() == HISTORY_LEN,
        s.len() == 0 ==> forall|j: int| 0 <= j < HISTORY_LEN ==>
            #[trigger] history_of(s, now)[j] == crate::metrics::zero_stats(),
{
}

} // verus!
