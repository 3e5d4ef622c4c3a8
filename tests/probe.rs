use ping_monitor::metrics::{Sample, CEILING_US};
use ping_monitor::probe::{latency_from_reply, probe_sample, ProbeScheduler, ProbeStart};
use ping_monitor::registry::{collect_targets, Target, TargetSet};
use ping_monitor::stream::{SampleStream, MAX_RETAINED};

fn t(id: &str) -> Target {
    Target { id: id.to_string(), address: "10.0.0.1".to_string(), prefix: "monitor".to_string() }
}

#[test]
fn reply_latency_is_clamped() {
    assert_eq!(latency_from_reply(Some(1_234)), 1_234);
    assert_eq!(latency_from_reply(Some(CEILING_US)), CEILING_US);
    assert_eq!(latency_from_reply(Some(7_000_000)), CEILING_US);
    assert_eq!(latency_from_reply(None), CEILING_US);
}

#[test]
fn probe_sample_records_timeout_as_ceiling() {
    assert_eq!(probe_sample(42, None), Sample { ts: 42, latency_us: CEILING_US });
    assert_eq!(probe_sample(43, Some(900)), Sample { ts: 43, latency_us: 900 });
}

#[test]
fn probe_start_stamps_the_current_time() {
    let start = ProbeStart::now();
    assert!(start.ts > 1_600_000_000_000);
    assert_eq!(start.finish(Some(10)).ts, start.ts);
}

#[test]
fn sequence_wraps_around() {
    let mut s = ProbeScheduler { sequence: 65534 };
    assert_eq!(s.next_sequence(), 65535);
    assert_eq!(s.next_sequence(), 0);
    assert_eq!(s.next_sequence(), 1);
}

#[test]
fn tick_numbers_each_target() {
    let mut s = ProbeScheduler::new();
    assert_eq!(s.plan_tick(&[t("a"), t("b"), t("c")]), vec![1, 2, 3]);
    assert_eq!(s.plan_tick(&[t("a")]), vec![4]);
    assert_eq!(s.plan_tick(&[]), Vec::<u16>::new());
    assert_eq!(s.sequence, 4);
}

#[test]
fn malformed_entries_are_skipped() {
    let r = collect_targets(vec![Some(t("a")), None, Some(t("b")), None]);
    let ids: Vec<String> = r.into_iter().map(|x| x.id).collect();
    assert_eq!(ids, vec!["a".to_string(), "b".to_string()]);
}

#[test]
fn failed_sync_keeps_previous_targets() {
    let mut set = TargetSet::new();
    set.apply_sync(Some(vec![t("a"), t("b")]));
    assert_eq!(set.targets.len(), 2);
    set.apply_sync(None);
    assert_eq!(set.targets.len(), 2);
    set.apply_sync(Some(vec![t("c")]));
    assert_eq!(set.targets.len(), 1);
    assert_eq!(set.targets[0].id, "c");
}

#[test]
fn trimming_keeps_the_most_recent() {
    let mut s = SampleStream::new(MAX_RETAINED);
    for k in 0..20000i64 {
        s.append(Sample { ts: k, latency_us: 1 });
    }
    assert_eq!(s.entries.len(), 17280);
    assert_eq!(s.entries[0].ts, 20000 - 17280);
    assert_eq!(s.entries[17279].ts, 19999);
    assert!(s.entries.windows(2).all(|w| w[0].ts + 1 == w[1].ts));
}

#[test]
fn stream_below_its_cap_keeps_everything() {
    let mut s = SampleStream::new(3);
    s.append(Sample { ts: 1, latency_us: 1 });
    s.append(Sample { ts: 2, latency_us: 1 });
    assert_eq!(s.entries.len(), 2);
    s.append(Sample { ts: 3, latency_us: 1 });
    s.append(Sample { ts: 4, latency_us: 1 });
    let ts: Vec<i64> = s.entries.iter().map(|x| x.ts).collect();
    assert_eq!(ts, vec![2, 3, 4]);
}
