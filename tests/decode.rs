use ping_monitor::decode::{decode_sample, parse_latency, parse_timestamp};
use ping_monitor::metrics::{Sample, CEILING_US};

#[test]
fn timestamps_parse_as_integers() {
    assert_eq!(parse_timestamp(b"1700000000123"), 1_700_000_000_123);
    assert_eq!(parse_timestamp(b"-42"), -42);
    assert_eq!(parse_timestamp(b"+7"), 7);
    assert_eq!(parse_timestamp(b"9223372036854775807"), i64::MAX);
    assert_eq!(parse_timestamp(b"-9223372036854775808"), i64::MIN);
}

#[test]
fn malformed_timestamps_read_as_zero() {
    assert_eq!(parse_timestamp(b""), 0);
    assert_eq!(parse_timestamp(b"-"), 0);
    assert_eq!(parse_timestamp(b"12a"), 0);
    assert_eq!(parse_timestamp(b"9223372036854775808"), 0);
    assert_eq!(parse_timestamp(b"99999999999999999999999999999999999999999"), 0);
}

#[test]
fn latencies_parse_to_microseconds() {
    assert_eq!(parse_latency(b"12"), 12_000);
    assert_eq!(parse_latency(b"12.5"), 12_500);
    assert_eq!(parse_latency(b"0.123456789"), 123);
    assert_eq!(parse_latency(b"4999.9999"), 4_999_999);
    assert_eq!(parse_latency(b"7."), 7_000);
}

#[test]
fn malformed_or_large_latencies_read_as_failure() {
    assert_eq!(parse_latency(b"5000"), CEILING_US);
    assert_eq!(parse_latency(b"123456789012345678901234567890"), CEILING_US);
    assert_eq!(parse_latency(b""), CEILING_US);
    assert_eq!(parse_latency(b".5"), CEILING_US);
    assert_eq!(parse_latency(b"-1"), CEILING_US);
    assert_eq!(parse_latency(b"1.2.3"), CEILING_US);
    assert_eq!(parse_latency(b"NaN"), CEILING_US);
}

#[test]
fn missing_fields_take_defaults() {
    assert_eq!(decode_sample(None, None), Sample { ts: 0, latency_us: CEILING_US });
    assert_eq!(
        decode_sample(Some(b"1000".as_slice()), Some(b"3.25".as_slice())),
        Sample { ts: 1000, latency_us: 3_250 }
    );
}
