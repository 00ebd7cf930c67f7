//! What the dashboards derive from query answers: recent blocks newest first
//! with their intervals, the typical block time, limits on range requests,
//! and block details in the shape the dashboards send.

use vstd::prelude::*;
use crate::model::{BlockDetailSummary, BlockFilter, BlockSummary};

verus! {

/// Block time assumed where no typical interval is known, in seconds.
pub const DEFAULT_BLOCK_TIME: i64 = 120;

/// Intervals at or above this many seconds are left out of the typical block time.
pub const TYPICAL_INTERVAL_LIMIT: i64 = 3600;

/// Most heights that one range request may span.
pub const MAX_RANGE_SPAN: u64 = 1000;

/// One block as a dashboard shows it.
#[derive(Debug, Clone)]
pub struct BlockInfo {
    pub height: u64,
    pub hash: String,
    pub timestamp: u64,
    pub transaction_count: usize,
    pub interval_seconds: Option<i64>,
}

#[derive(Debug, Clone)]
pub struct InputInfo {
    pub commitment: String,
    pub input_type: String,
    pub amount: Option<u64>,
}

#[derive(Debug, Clone)]
pub struct OutputInfo {
    pub commitment: String,
    pub features: String,
    pub amount: Option<u64>,
    pub script_type: String,
}

#[derive(Debug, Clone)]
pub struct KernelInfo {
    pub excess: String,
    pub fee: u64,
    pub lock_height: u64,
}

/// Transaction components as a dashboard sends them.
#[derive(Debug, Clone)]
pub struct TransactionDetail {
    pub inputs: Vec<InputInfo>,
    pub outputs: Vec<OutputInfo>,
    pub kernels: Vec<KernelInfo>,
}

/// Time from the block before entry `k` of a listing to entry `k`, where it
/// went forward.
pub open spec fn interval_before(s: Seq<BlockSummary>, k: int) -> Option<i64> {
    if k >= 1 && s[k].header.timestamp > s[k - 1].header.timestamp {
        Some((s[k].header.timestamp - s[k - 1].header.timestamp) as i64)
    } else {
        None
    }
}

/// `b` shows entry `k` of the listing `s`.
pub open spec fn info_matches(b: BlockInfo, s: Seq<BlockSummary>, k: int) -> bool {
    &&& b.height == s[k].height
    &&& b.hash@ == s[k].hash@
    &&& b.timestamp == s[k].header.timestamp
    &&& b.transaction_count == 0
    &&& b.interval_seconds == interval_before(s, k)
}

/// The last `limit` entries of a listing, newest first, each with the time
/// since the entry before it.
pub fn recent_block_infos(summaries: &[BlockSummary], limit: usize) -> (r: Vec<BlockInfo>)
    ensures
        r@.len() == if limit < summaries@.len() {
            limit as int
        } else {
            summaries@.len() as int
        },
        forall|j: int|
            0 <= j < r@.len() ==> info_matches(#[trigger] r@[j], summaries@, summaries@.len() - 1 - j),
{
    let n = summaries.len();
    let k: usize = if limit < n { limit } else { n };
    let mut out: Vec<BlockInfo> = Vec::new();
    let mut j: usize = 0;
    while j < k
        invariant
            n == summaries@.len(),
            k <= n,
            j <= k,
            out@.len() == j,
            forall|a: int| 0 <= a < j ==> info_matches(#[trigger] out@[a], summaries@, n - 1 - a),
        decreases k - j,
    {
        let i = n - 1 - j;
        let s = &summaries[i];
        let interval = if i >= 1 && s.header.timestamp > summaries[i - 1].header.timestamp {
            Some((s.header.timestamp - summaries[i - 1].header.timestamp) as i64)
        } else {
            None
        };
        out.push(
            BlockInfo {
                height: s.height,
                hash: s.hash.clone(),
                timestamp: s.header.timestamp,
                transaction_count: 0,
                interval_seconds: interval,
            },
        );
        j = j + 1;
    }
    out
}

/// An interval that counts toward the typical block time.
pub open spec fn is_typical(x: Option<i64>) -> bool {
    match x {
        Some(v) => 0 < v < TYPICAL_INTERVAL_LIMIT,
        None => false,
    }
}

/// The typical intervals of `s`, in order.
pub open spec fn typical_intervals(s: Seq<BlockInfo>) -> Seq<int>
    decreases s.len(),
{
    if s.len() == 0 {
        Seq::empty()
    } else {
        let p = typical_intervals(s.drop_last());
        if is_typical(s.last().interval_seconds) {
            p.push(s.last().interval_seconds.unwrap() as int)
        } else {
            p
        }
    }
}

pub open spec fn int_sum(s: Seq<int>) -> int
    decreases s.len(),
{
    if s.len() == 0 {
        0
    } else {
        int_sum(s.drop_last()) + s.last()
    }
}

/// Average of the typical intervals, rounded down; `DEFAULT_BLOCK_TIME`
/// where there are none.
pub fn average_block_time(blocks: &[BlockInfo]) -> (r: i64)
    ensures
        r == if typical_intervals(blocks@).len() == 0 {
            DEFAULT_BLOCK_TIME as int
        } else {
            int_sum(typical_intervals(blocks@)) / typical_intervals(blocks@).len() as int
        },
{
    let n = blocks.len();
    let mut sum: u128 = 0;
    let mut count: u128 = 0;
    let mut i: usize = 0;
    while i < n
        invariant
            n == blocks@.len(),
            i <= n,
            count == typical_intervals(blocks@.take(i as int)).len(),
            sum == int_sum(typical_intervals(blocks@.take(i as int))),
            count <= i,
            sum <= count * 3599,
        decreases n - i,
    {
        assert(blocks@.take(i + 1).drop_last() =~= blocks@.take(i as int));
        match blocks[i].interval_seconds {
            Some(v) => {
                if 0 < v && v < TYPICAL_INTERVAL_LIMIT {
                    proof {
                        let p = typical_intervals(blocks@.take(i as int));
                        assert(blocks@.take(i + 1).last() == blocks@[i as int]);
                        assert(p.push(v as int).drop_last() =~= p);
                        assert(sum + v <= (count + 1) * 3599) by (nonlinear_arith)
                            requires
                                sum <= count * 3599,
                                v < 3600,
                        ;
                        assert((count + 1) * 3599 < 0xffff_ffff_ffff_ffff_ffff_ffff_ffff_ffffu128) by (nonlinear_arith)
                            requires
                                count <= 0xffff_ffff_ffff_ffffu64,
                        ;
                    }
                    sum = sum + v as u128;
                    count = count + 1;
                }
            },
            None => {},
        }
        i = i + 1;
    }
    assert(blocks@.take(n as int) =~= blocks@);
    if count == 0 {
        DEFAULT_BLOCK_TIME
    } else {
        let avg = sum / count;
        proof {
            assert(avg <= 3599) by (nonlinear_arith)
                requires
                    avg as int == sum as int / count as int,
                    sum <= count * 3599,
                    count >= 1,
            ;
        }
        avg as i64
    }
}

/// Height of the first block shown, or zero where none is.
pub fn latest_height(blocks: &[BlockInfo]) -> (r: u64)
    ensures
        r == if blocks@.len() == 0 {
            0
        } else {
            blocks@[0].height
        },
{
    if blocks.len() == 0 {
        0
    } else {
        blocks[0].height
    }
}

/// Why a range request was refused.
#[derive(Debug, Clone, Copy, PartialEq, Eq, Structural)]
pub enum RangeRequestError {
    StartAfterEnd,
    TooLarge,
}

/// The filter for a range request of `start..=end`, spanning at most
/// `MAX_RANGE_SPAN` heights.
pub fn range_request_filter(start: u64, end: u64) -> (r: Result<BlockFilter, RangeRequestError>)
    ensures
        r == if start > end {
            Err::<BlockFilter, RangeRequestError>(RangeRequestError::StartAfterEnd)
        } else if end - start + 1 > MAX_RANGE_SPAN {
            Err(RangeRequestError::TooLarge)
        } else {
            Ok(BlockFilter::Range(start, end))
        },
{
    if start > end {
        Err(RangeRequestError::StartAfterEnd)
    } else if end - start >= MAX_RANGE_SPAN {
        Err(RangeRequestError::TooLarge)
    } else {
        Ok(BlockFilter::Range(start, end))
    }
}

/// A block detail as a dashboard sends it: the block with the number of its
/// components (saturating), and the components with amounts left unknown.
pub fn block_detail_info(d: &BlockDetailSummary) -> (r: (BlockInfo, TransactionDetail))
    ensures
        r.0.height == d.height,
        r.0.hash@ == d.hash@,
        r.0.timestamp == d.header.timestamp,
        r.0.interval_seconds is None,
        r.0.transaction_count == if d.transactions.inputs@.len() + d.transactions.outputs@.len()
            + d.transactions.kernels@.len() <= usize::MAX {
            (d.transactions.inputs@.len() + d.transactions.outputs@.len()
                + d.transactions.kernels@.len()) as int
        } else {
            usize::MAX as int
        },
        r.1.inputs@.len() == d.transactions.inputs@.len(),
        forall|j: int|
            0 <= j < r.1.inputs@.len() ==> {
                &&& (#[trigger] r.1.inputs@[j]).commitment@ == d.transactions.inputs@[j].commitment@
                &&& r.1.inputs@[j].input_type@ == d.transactions.inputs@[j].input_type@
                &&& r.1.inputs@[j].amount is None
            },
        r.1.outputs@.len() == d.transactions.outputs@.len(),
        forall|j: int|
            0 <= j < r.1.outputs@.len() ==> {
                &&& (#[trigger] r.1.outputs@[j]).commitment@ == d.transactions.outputs@[j].commitment@
                &&& r.1.outputs@[j].features@ == d.transactions.outputs@[j].features@
                &&& r.1.outputs@[j].script_type@ == d.transactions.outputs@[j].script_type@
                &&& r.1.outputs@[j].amount is None
            },
        r.1.kernels@.len() == d.transactions.kernels@.len(),
        forall|j: int|
            0 <= j < r.1.kernels@.len() ==> {
                &&& (#[trigger] r.1.kernels@[j]).excess@ == d.transactions.kernels@[j].excess@
                &&& r.1.kernels@[j].fee == d.transactions.kernels@[j].fee
                &&& r.1.kernels@[j].lock_height == d.transactions.kernels@[j].lock_height
            },
{
    let tx = &d.transactions;
    let mut inputs: Vec<InputInfo> = Vec::new();
    let mut i: usize = 0;
    while i < tx.inputs.len()
        invariant
            i <= tx.inputs@.len(),
            inputs@.len() == i,
            forall|j: int|
                0 <= j < i ==> {
                    &&& (#[trigger] inputs@[j]).commitment@ == tx.inputs@[j].commitment@
                    &&& inputs@[j].input_type@ == tx.inputs@[j].input_type@
                    &&& inputs@[j].amount is None
                },
        decreases tx.inputs@.len() - i,
    {
        let s = &tx.inputs[i];
        inputs.push(InputInfo { commitment: s.commitment.clone(), input_type: s.input_type.clone(), amount: None });
        i = i + 1;
    }
    let mut outputs: Vec<OutputInfo> = Vec::new();
    let mut i: usize = 0;
    while i < tx.outputs.len()
        invariant
            i <= tx.outputs@.len(),
            outputs@.len() == i,
            forall|j: int|
                0 <= j < i ==> {
                    &&& (#[trigger] outputs@[j]).commitment@ == tx.outputs@[j].commitment@
                    &&& outputs@[j].features@ == tx.outputs@[j].features@
                    &&& outputs@[j].script_type@ == tx.outputs@[j].script_type@
                    &&& outputs@[j].amount is None
                },
        decreases tx.outputs@.len() - i,
    {
        let s = &tx.outputs[i];
        outputs.push(
            OutputInfo {
                commitment: s.commitment.clone(),
                features: s.features.clone(),
                amount: None,
                script_type: s.script_type.clone(),
            },
        );
        i = i + 1;
    }
    let mut kernels: Vec<KernelInfo> = Vec::new();
    let mut i: usize = 0;
    while i < tx.kernels.len()
        invariant
            i <= tx.kernels@.len(),
            kernels@.len() == i,
            forall|j: int|
                0 <= j < i ==> {
                    &&& (#[trigger] kernels@[j]).excess@ == tx.kernels@[j].excess@
                    &&& kernels@[j].fee == tx.kernels@[j].fee
                    &&& kernels@[j].lock_height == tx.kernels@[j].lock_height
                },
        decreases tx.kernels@.len() - i,
    {
        let s = &tx.kernels[i];
        kernels.push(KernelInfo { excess: s.excess.clone(), fee: s.fee, lock_height: s.lock_height });
        i = i + 1;
    }
    let count = tx.inputs.len().saturating_add(tx.outputs.len()).saturating_add(tx.kernels.len());
    let info = BlockInfo {
        height: d.height,
        hash: d.hash.clone(),
        timestamp: d.header.timestamp,
        transaction_count: count,
        interval_seconds: None,
    };
    (info, TransactionDetail { inputs, outputs, kernels })
}

} // verus!
