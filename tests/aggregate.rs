use ping_monitor::aggregate::{
    aggregate_target, history, points_in, window_stats, AggregationPass, Window, DAY_MS,
};
use ping_monitor::metrics::{Sample, StatVector};
use ping_monitor::registry::Target;

fn target() -> Target {
    Target { id: "a".to_string(), address: "127.0.0.1".to_string(), prefix: "monitor".to_string() }
}

fn zero() -> StatVector {
    StatVector { loss: 0, min: 0, max: 0, avg: 0, jitter: 0 }
}

#[test]
fn five_probes_in_the_last_minute() {
    let now: i64 = 1_700_000_000_000;
    let lat = [10u64, 12, 11, 13, 9];
    let points: Vec<Sample> = lat
        .iter()
        .enumerate()
        .map(|(k, l)| Sample { ts: now - 50_000 + 5_000 * k as i64, latency_us: l * 1000 })
        .collect();
    let view = aggregate_target(&target(), &points, now);
    assert_eq!(view.id, "a");
    assert_eq!(view.address, "127.0.0.1");
    let expected = StatVector { loss: 0, min: 900, max: 1300, avg: 1100, jitter: 225 };
    assert_eq!(view.stats_for(Window::OneMinute), Some(expected));
    assert_eq!(view.stats_for(Window::OneDay), Some(expected));
    assert_eq!(view.history.len(), 30);
    assert_eq!(view.history[29], expected);
    assert_eq!(view.history[0], zero());
}

#[test]
fn three_probes_two_timeouts() {
    let now: i64 = 1_000_000;
    let points = vec![
        Sample { ts: now - 15_000, latency_us: 5_000_000 },
        Sample { ts: now - 10_000, latency_us: 20_000 },
        Sample { ts: now - 5_000, latency_us: 5_000_000 },
    ];
    let view = aggregate_target(&target(), &points, now);
    assert_eq!(
        view.stats_for(Window::OneMinute),
        Some(StatVector { loss: 6667, min: 2000, max: 2000, avg: 2000, jitter: 0 })
    );
}

#[test]
fn history_has_thirty_zero_buckets_without_samples() {
    let h = history(&[], 123_456_789);
    assert_eq!(h.len(), 30);
    assert!(h.iter().all(|s| *s == zero()));
}

#[test]
fn every_window_is_present_without_samples() {
    let w = window_stats(&[], 5_000_000);
    let labels: Vec<&str> = w.iter().map(|s| s.window.label()).collect();
    assert_eq!(labels, vec!["1m", "5m", "15m", "1h", "3h", "12h", "24h"]);
    assert!(w.iter().all(|s| s.stats == zero()));
}

#[test]
fn windows_filter_by_age() {
    let now: i64 = 100_000_000;
    let points = vec![
        Sample { ts: now - 2 * 3_600_000, latency_us: 40_000 },
        Sample { ts: now - 4 * 60_000, latency_us: 20_000 },
        Sample { ts: now - 60_000, latency_us: 10_000 },
    ];
    let w = window_stats(&points, now);
    assert_eq!(w[0].stats.avg, 1000);
    assert_eq!(w[1].stats.avg, 1500);
    assert_eq!(w[3].stats.avg, 1500);
    assert_eq!(w[4].stats.avg, 2333);
    assert_eq!(w[4].window.duration_ms(), 10_800_000);
}

#[test]
fn history_buckets_are_oldest_first_and_half_open() {
    let now: i64 = 10_000_000;
    let points = vec![
        Sample { ts: now - 30 * 60_000, latency_us: 1_000 },
        Sample { ts: now - 60_000, latency_us: 2_000 },
        Sample { ts: now, latency_us: 3_000 },
    ];
    let h = history(&points, now);
    assert_eq!(h[0].avg, 100);
    assert_eq!(h[28].avg, 0);
    assert_eq!(h[29].avg, 200);
}

#[test]
fn points_in_keeps_order() {
    let points = vec![
        Sample { ts: 5, latency_us: 1 },
        Sample { ts: 1, latency_us: 2 },
        Sample { ts: 9, latency_us: 3 },
        Sample { ts: 3, latency_us: 4 },
    ];
    let r = points_in(&points, 3, 9);
    assert_eq!(r, vec![points[0], points[3]]);
}

#[test]
fn pass_reads_one_day_back() {
    let pass = AggregationPass { now: 90_000_000 };
    assert_eq!(pass.range_start(), 90_000_000 - DAY_MS);
    let low = AggregationPass { now: i64::MIN + 5 };
    assert_eq!(low.range_start(), i64::MIN);
    let view = pass.aggregate(&target(), &[]);
    assert_eq!(view.history.len(), 30);
}

#[test]
fn pass_starts_at_the_current_time() {
    let pass = AggregationPass::begin();
    assert!(pass.now > 1_600_000_000_000);
}

#[test]
fn missing_window_reads_as_none() {
    let view = ping_monitor::aggregate::AggregatedView {
        id: "x".to_string(),
        address: "y".to_string(),
        stats: vec![],
        history: vec![],
    };
    assert_eq!(view.stats_for(Window::OneHour), None);
}
