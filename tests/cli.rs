use ledger_inspect::cli::{
    calculate_interval, calculate_valid_intervals, create_block_filter, format_duration,
    format_timestamp, interval_statistics, render_timestamp, parse_range_filter, parse_u64_at, truncate_hash, FilterError,
    IntervalStats,
};
use ledger_inspect::model::{BlockFilter, BlockHeaderLite, BlockSummary};

fn summary(height: u64, timestamp: u64) -> BlockSummary {
    BlockSummary {
        height,
        hash: String::new(),
        header: BlockHeaderLite {
            version: 0,
            height,
            previous_hash: String::new(),
            timestamp,
            nonce: 0,
            output_mr: String::new(),
            kernel_mr: String::new(),
            input_mr: String::new(),
            total_kernel_offset: String::new(),
            total_script_offset: String::new(),
            pow_data_hash: String::new(),
            raw_header_length: 0,
            pow_algorithm: String::new(),
        },
    }
}

#[test]
fn range_text_parses_into_filter() {
    assert_eq!(parse_range_filter("100-110"), Ok(BlockFilter::Range(100, 110)));
    assert_eq!(parse_range_filter("7-7"), Ok(BlockFilter::Range(7, 7)));
    assert_eq!(parse_range_filter("+1-2"), Ok(BlockFilter::Range(1, 2)));
}

#[test]
fn range_text_errors() {
    assert_eq!(parse_range_filter("5"), Err(FilterError::InvalidFormat));
    assert_eq!(parse_range_filter("1-2-3"), Err(FilterError::InvalidFormat));
    assert_eq!(parse_range_filter("a-5"), Err(FilterError::InvalidNumber));
    assert_eq!(parse_range_filter("-5"), Err(FilterError::InvalidNumber));
    assert_eq!(parse_range_filter("99999999999999999999-1"), Err(FilterError::InvalidNumber));
    assert_eq!(parse_range_filter("10-5"), Err(FilterError::StartAfterEnd));
}

#[test]
fn decimal_parse_bounds() {
    assert_eq!(parse_u64_at("18446744073709551615", 0, 20), Some(u64::MAX));
    assert_eq!(parse_u64_at("18446744073709551616", 0, 20), None);
    assert_eq!(parse_u64_at("x42y", 1, 3), Some(42));
    assert_eq!(parse_u64_at("+", 0, 1), None);
    assert_eq!(parse_u64_at("", 0, 0), None);
}

#[test]
fn filter_from_options() {
    assert_eq!(create_block_filter(10, None, Some(5)), Ok(BlockFilter::Specific(5)));
    assert_eq!(create_block_filter(10, Some("1-3".to_string()), None), Ok(BlockFilter::Range(1, 3)));
    assert_eq!(create_block_filter(10, None, None), Ok(BlockFilter::LastN(10)));
    assert_eq!(
        create_block_filter(10, Some("1-3".to_string()), Some(2)),
        Err(FilterError::ConflictingOptions)
    );
}

#[test]
fn durations_are_formatted() {
    assert_eq!(format_duration(0), "0s");
    assert_eq!(format_duration(59), "59s");
    assert_eq!(format_duration(60), "1m");
    assert_eq!(format_duration(61), "1m 1s");
    assert_eq!(format_duration(3599), "59m 59s");
    assert_eq!(format_duration(3600), "1h 0m");
    assert_eq!(format_duration(3725), "1h 2m");
}

#[test]
fn interval_beside_each_block() {
    let v = vec![summary(1, 100), summary(2, 220), summary(3, 200)];
    assert_eq!(calculate_interval(&v, 0), "─");
    assert_eq!(calculate_interval(&v, 1), "2m");
    assert_eq!(calculate_interval(&v, 2), "⚠ -time");
}

#[test]
fn only_positive_intervals_are_kept() {
    let v = vec![summary(1, 100), summary(2, 160), summary(3, 150), summary(4, 450)];
    assert_eq!(calculate_valid_intervals(&v), vec![60, 300]);
    assert!(calculate_valid_intervals(&v[..1]).is_empty());
}

#[test]
fn interval_statistics_average_min_max() {
    assert_eq!(interval_statistics(&vec![]), None);
    assert_eq!(
        interval_statistics(&vec![60, 300, 121]),
        Some(IntervalStats { avg: 160, min: 60, max: 300 })
    );
    assert_eq!(
        interval_statistics(&vec![u64::MAX, u64::MAX]),
        Some(IntervalStats { avg: u64::MAX, min: u64::MAX, max: u64::MAX })
    );
}

#[test]
fn hashes_are_truncated() {
    assert_eq!(truncate_hash("abcdef", 4), "abcd");
    assert_eq!(truncate_hash("abc", 4), "abc");
    assert_eq!(truncate_hash("abcd", 4), "abcd");
}

#[test]
fn hashes_are_truncated_by_bytes() {
    assert_eq!(truncate_hash("éa", 2), "é");
    assert_eq!(truncate_hash("éa", 3), "éa");
    assert_eq!(truncate_hash("aé", 2), "a");
    assert_eq!(truncate_hash("éa", 1), "");
    assert_eq!(truncate_hash("日本", 3), "日");
    assert_eq!(truncate_hash("日本", 5), "日");
    assert_eq!(truncate_hash("a😀b", 5), "a😀");
    assert_eq!(truncate_hash("", 0), "");
}

#[test]
fn timestamps_are_shown_in_utc() {
    assert_eq!(format_timestamp(0), "1970-01-01 00:00:00 UTC");
    assert_eq!(format_timestamp(1_700_000_000), "2023-11-14 22:13:20 UTC");
    assert_eq!(format_timestamp(i64::MAX as u64), "Invalid: 9223372036854775807");
}

#[test]
fn timestamp_without_utc_text_is_marked_invalid() {
    assert_eq!(render_timestamp(None, 42), "Invalid: 42");
    assert_eq!(render_timestamp(Some("then".to_string()), 42), "then");
}
