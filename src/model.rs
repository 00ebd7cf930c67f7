//! The entities that queries return, and what each one states of the bytes
//! it was decoded from.

use vstd::prelude::*;
use vstd::bytes::spec_u16_from_le_bytes;
use crate::codec::{
    hex_seq, input_kind_name, output_type_name, pow_algo_name, u64_at,
    HEADER_FIXED_LEN, POW_ALGO_OFFSET,
};

verus! {

/// Which headers a listing keeps.
#[derive(Debug, Clone, Copy, PartialEq, Eq, Structural)]
pub enum BlockFilter {
    /// The last `n` headers by height.
    LastN(usize),
    /// Heights from the first to the second, both included.
    Range(u64, u64),
    /// One height.
    Specific(u64),
}

/// Header fields as shown to a reader, digests in hex.
#[derive(Debug, Clone)]
pub struct BlockHeaderLite {
    pub version: u16,
    pub height: u64,
    pub previous_hash: String,
    pub timestamp: u64,
    pub nonce: u64,
    pub output_mr: String,
    pub kernel_mr: String,
    pub input_mr: String,
    pub total_kernel_offset: String,
    pub total_script_offset: String,
    pub pow_data_hash: String,
    pub raw_header_length: usize,
    pub pow_algorithm: String,
}

/// One listed block: its height, its identity in hex, its header.
#[derive(Debug, Clone)]
pub struct BlockSummary {
    pub height: u64,
    pub hash: String,
    pub header: BlockHeaderLite,
}

#[derive(Debug, Clone)]
pub struct InputSummary {
    pub commitment: String,
    pub input_type: String,
}

#[derive(Debug, Clone)]
pub struct OutputSummary {
    pub commitment: String,
    pub features: String,
    pub script_type: String,
}

#[derive(Debug, Clone)]
pub struct KernelSummary {
    pub excess: String,
    pub fee: u64,
    pub lock_height: u64,
}

/// The transaction components linked to one block, in stored order.
#[derive(Debug, Clone)]
pub struct TransactionSummary {
    pub inputs: Vec<InputSummary>,
    pub outputs: Vec<OutputSummary>,
    pub kernels: Vec<KernelSummary>,
}

/// One block with its transaction components.
#[derive(Debug, Clone)]
pub struct BlockDetailSummary {
    pub height: u64,
    pub hash: String,
    pub header: BlockHeaderLite,
    pub transactions: TransactionSummary,
}

/// Entry counts of the component tables.
#[derive(Debug, Clone, Copy, PartialEq, Eq, Structural)]
pub struct DatabaseStats {
    pub utxos_count: usize,
    pub inputs_count: usize,
    pub kernels_count: usize,
    pub total_transactions: usize,
    pub total_io_records: usize,
}

impl Default for DatabaseStats {
    fn default() -> (r: DatabaseStats)
        ensures
            r.utxos_count == 0,
            r.inputs_count == 0,
            r.kernels_count == 0,
            r.total_transactions == 0,
            r.total_io_records == 0,
    {
        DatabaseStats {
            utxos_count: 0,
            inputs_count: 0,
            kernels_count: 0,
            total_transactions: 0,
            total_io_records: 0,
        }
    }
}

/// What a reader sees of the proof-of-work data: its hex, or `empty`.
pub open spec fn pow_data_text(b: Seq<u8>) -> Seq<char> {
    if b.len() == HEADER_FIXED_LEN {
        "empty"@
    } else {
        hex_seq(b.subrange(HEADER_FIXED_LEN as int, b.len() as int))
    }
}

/// `l` shows the header record `b`.
pub open spec fn lite_matches(l: BlockHeaderLite, b: Seq<u8>) -> bool {
    &&& l.version == spec_u16_from_le_bytes(b.subrange(8, 10))
    &&& l.height == u64_at(b, 0)
    &&& l.previous_hash@ == hex_seq(b.subrange(26, 58))
    &&& l.timestamp == u64_at(b, 10)
    &&& l.nonce == u64_at(b, 18)
    &&& l.output_mr@ == hex_seq(b.subrange(58, 90))
    &&& l.kernel_mr@ == hex_seq(b.subrange(90, 122))
    &&& l.input_mr@ == hex_seq(b.subrange(122, 154))
    &&& l.total_kernel_offset@ == hex_seq(b.subrange(154, 186))
    &&& l.total_script_offset@ == hex_seq(b.subrange(186, 218))
    &&& l.pow_data_hash@ == pow_data_text(b)
    &&& l.raw_header_length == b.len()
    &&& l.pow_algorithm@ == pow_algo_name(b[POW_ALGO_OFFSET as int])
}

/// `s` shows the input record `b`.
pub open spec fn input_matches(s: InputSummary, b: Seq<u8>) -> bool {
    &&& s.commitment@ == hex_seq(b.subrange(0, 32))
    &&& s.input_type@ == input_kind_name(b[32])
}

/// `s` shows the output record `b`.
pub open spec fn output_matches(s: OutputSummary, b: Seq<u8>) -> bool {
    &&& s.commitment@ == hex_seq(b.subrange(0, 32))
    &&& s.features@ == output_type_name(b[32])
    &&& s.script_type@ == hex_seq(b.subrange(33, b.len() as int))
}

/// `s` shows the kernel record `b`.
pub open spec fn kernel_matches(s: KernelSummary, b: Seq<u8>) -> bool {
    &&& s.excess@ == hex_seq(b.subrange(0, 32))
    &&& s.fee == u64_at(b, 32)
    &&& s.lock_height == u64_at(b, 40)
}

} // verus!
