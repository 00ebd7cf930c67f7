use ledger_inspect::dashboard::{
    average_block_time, block_detail_info, latest_height, range_request_filter, recent_block_infos,
    BlockInfo, RangeRequestError, DEFAULT_BLOCK_TIME,
};
use ledger_inspect::model::{
    BlockDetailSummary, BlockFilter, BlockHeaderLite, BlockSummary, InputSummary, KernelSummary,
    OutputSummary, TransactionSummary,
};

fn lite(timestamp: u64) -> BlockHeaderLite {
    BlockHeaderLite {
        version: 1,
        height: 0,
        previous_hash: String::new(),
        timestamp,
        nonce: 0,
        output_mr: String::new(),
        kernel_mr: String::new(),
        input_mr: String::new(),
        total_kernel_offset: String::new(),
        total_script_offset: String::new(),
        pow_data_hash: "empty".to_string(),
        raw_header_length: 0,
        pow_algorithm: "Sha3x".to_string(),
    }
}

fn summary(height: u64, timestamp: u64) -> BlockSummary {
    BlockSummary { height, hash: format!("h{}", height), header: lite(timestamp) }
}

fn info(height: u64, interval: Option<i64>) -> BlockInfo {
    BlockInfo { height, hash: String::new(), timestamp: 0, transaction_count: 0, interval_seconds: interval }
}

#[test]
fn recent_blocks_newest_first_with_intervals() {
    let v = vec![summary(1, 100), summary(2, 220), summary(3, 200), summary(4, 260)];
    let r = recent_block_infos(&v, 3);
    assert_eq!(r.iter().map(|b| b.height).collect::<Vec<_>>(), vec![4, 3, 2]);
    assert_eq!(r[0].interval_seconds, Some(60));
    assert_eq!(r[1].interval_seconds, None);
    assert_eq!(r[2].interval_seconds, Some(120));
    assert_eq!(r[0].hash, "h4");
    let all = recent_block_infos(&v, 10);
    assert_eq!(all.len(), 4);
    assert_eq!(all[3].interval_seconds, None);
}

#[test]
fn typical_block_time_leaves_out_outliers() {
    let v = vec![info(5, Some(100)), info(4, Some(5000)), info(3, None), info(2, Some(140)), info(1, Some(0))];
    assert_eq!(average_block_time(&v), 120);
    let v = vec![info(2, Some(90)), info(1, Some(91))];
    assert_eq!(average_block_time(&v), 90);
    assert_eq!(average_block_time(&[info(1, Some(3600))]), DEFAULT_BLOCK_TIME);
    assert_eq!(average_block_time(&[]), DEFAULT_BLOCK_TIME);
}

#[test]
fn latest_height_is_first_shown() {
    assert_eq!(latest_height(&[info(9, None), info(8, None)]), 9);
    assert_eq!(latest_height(&[]), 0);
}

#[test]
fn range_requests_are_bounded() {
    assert_eq!(range_request_filter(10, 20), Ok(BlockFilter::Range(10, 20)));
    assert_eq!(range_request_filter(0, 999), Ok(BlockFilter::Range(0, 999)));
    assert_eq!(range_request_filter(0, 1000), Err(RangeRequestError::TooLarge));
    assert_eq!(range_request_filter(0, u64::MAX), Err(RangeRequestError::TooLarge));
    assert_eq!(range_request_filter(20, 10), Err(RangeRequestError::StartAfterEnd));
}

#[test]
fn detail_converts_for_dashboards() {
    let d = BlockDetailSummary {
        height: 7,
        hash: "abc".to_string(),
        header: lite(500),
        transactions: TransactionSummary {
            inputs: vec![InputSummary { commitment: "c1".to_string(), input_type: "Compact".to_string() }],
            outputs: vec![
                OutputSummary { commitment: "c2".to_string(), features: "Standard".to_string(), script_type: "".to_string() },
                OutputSummary { commitment: "c3".to_string(), features: "Burn".to_string(), script_type: "00".to_string() },
            ],
            kernels: vec![KernelSummary { excess: "e1".to_string(), fee: 3, lock_height: 4 }],
        },
    };
    let (b, t) = block_detail_info(&d);
    assert_eq!((b.height, b.hash.as_str(), b.timestamp, b.transaction_count), (7, "abc", 500, 4));
    assert_eq!(b.interval_seconds, None);
    assert_eq!(t.inputs[0].commitment, "c1");
    assert_eq!(t.inputs[0].amount, None);
    assert_eq!(t.outputs[1].features, "Burn");
    assert_eq!(t.outputs[1].script_type, "00");
    assert_eq!((t.kernels[0].fee, t.kernels[0].lock_height), (3, 4));
}
