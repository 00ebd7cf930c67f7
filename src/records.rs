//! Decoding of stored records into the entities that queries return.

use vstd::prelude::*;
use crate::codec::{
    blake3_of, bytes_at, content_hash, decode_block_header, header_well_formed, hex_seq,
    input_kind_label, input_well_formed, kernel_well_formed, output_type_label, output_well_formed,
    pow_algo_label, to_hex, DecodeError, HEADER_FIXED_LEN,
};
use crate::model::{
    input_matches, kernel_matches, lite_matches, output_matches, BlockHeaderLite, BlockSummary,
    InputSummary, KernelSummary, OutputSummary,
};
use vstd::bytes::{spec_u64_from_le_bytes, u64_from_le_bytes};
use vstd::slice::slice_subrange;

verus! {

/// Decodes a header record into the fields shown to a reader.
pub fn decode_header_lite(b: &[u8]) -> (r: Result<BlockHeaderLite, DecodeError>)
    ensures
        r.is_ok() == header_well_formed(b@),
        r matches Ok(l) ==> lite_matches(l, b@),
{
    let h = match decode_block_header(b) {
        Ok(h) => h,
        Err(e) => return Err(e),
    };
    let pow_data_hash = if b.len() == HEADER_FIXED_LEN {
        String::from_str("empty")
    } else {
        to_hex(h.pow_data.as_slice())
    };
    Ok(BlockHeaderLite {
        version: h.version,
        height: h.height,
        previous_hash: to_hex(h.prev_hash.as_slice()),
        timestamp: h.timestamp,
        nonce: h.nonce,
        output_mr: to_hex(h.output_mr.as_slice()),
        kernel_mr: to_hex(h.kernel_mr.as_slice()),
        input_mr: to_hex(h.input_mr.as_slice()),
        total_kernel_offset: to_hex(h.total_kernel_offset.as_slice()),
        total_script_offset: to_hex(h.total_script_offset.as_slice()),
        pow_data_hash,
        raw_header_length: b.len(),
        pow_algorithm: pow_algo_label(h.pow_algo),
    })
}

/// Decodes an input record.
pub fn decode_input(b: &[u8]) -> (r: Result<InputSummary, DecodeError>)
    ensures
        r.is_ok() == input_well_formed(b@),
        r matches Ok(s) ==> input_matches(s, b@),
{
    if b.len() != 33 || b[32] > 1 {
        return Err(DecodeError);
    }
    let commitment = bytes_at(b, 0, 32);
    Ok(InputSummary { commitment: to_hex(commitment.as_slice()), input_type: input_kind_label(b[32]) })
}

/// Decodes an output record.
pub fn decode_output(b: &[u8]) -> (r: Result<OutputSummary, DecodeError>)
    ensures
        r.is_ok() == output_well_formed(b@),
        r matches Ok(s) ==> output_matches(s, b@),
{
    if b.len() < 33 || b[32] > 4 {
        return Err(DecodeError);
    }
    let commitment = bytes_at(b, 0, 32);
    let script = bytes_at(b, 33, b.len());
    Ok(OutputSummary {
        commitment: to_hex(commitment.as_slice()),
        features: output_type_label(b[32]),
        script_type: to_hex(script.as_slice()),
    })
}

/// Decodes a kernel record.
pub fn decode_kernel(b: &[u8]) -> (r: Result<KernelSummary, DecodeError>)
    ensures
        r.is_ok() == kernel_well_formed(b@),
        r matches Ok(s) ==> kernel_matches(s, b@),
{
    if b.len() != 48 {
        return Err(DecodeError);
    }
    let excess = bytes_at(b, 0, 32);
    Ok(KernelSummary {
        excess: to_hex(excess.as_slice()),
        fee: u64_from_le_bytes(slice_subrange(b, 32, 40)),
        lock_height: u64_from_le_bytes(slice_subrange(b, 40, 48)),
    })
}

impl BlockSummary {
    /// A summary of one header table entry on its own: the height its key
    /// spells and, for identity, the content digest of its record.
    pub fn from_raw(k: &[u8], v: &[u8]) -> (r: Result<BlockSummary, DecodeError>)
        ensures
            r.is_ok() == (k@.len() == 8 && header_well_formed(v@)),
            r matches Ok(b) ==> {
                &&& b.height == spec_u64_from_le_bytes(k@)
                &&& b.hash@ == hex_seq(blake3_of(v@))
                &&& lite_matches(b.header, v@)
            },
    {
        if k.len() != 8 {
            return Err(DecodeError);
        }
        let height = u64_from_le_bytes(k);
        let header = match decode_header_lite(v) {
            Ok(h) => h,
            Err(e) => return Err(e),
        };
        let digest = content_hash(v);
        Ok(BlockSummary { height, hash: to_hex(digest.as_slice()), header })
    }
}

} // verus!
