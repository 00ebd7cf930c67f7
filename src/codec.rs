//! Byte layouts of the stored records, and the hex and content-hash helpers.
//!
//! These layouts are this library's own fixed-then-variable format: it is
//! not the serialisation that a particular chain implementation writes, and
//! a store written in another format reads here as records that do not
//! decode. The component texts follow from it: kinds and types are shown by
//! name, digests and scripts in hex.
//!
//! Integers are little-endian. A header record holds, in order: height
//! (8 bytes), version (2), timestamp (8), nonce (8), previous-block link
//! (32), output, kernel and input roots (32 each), total kernel and script
//! offsets (32 each), proof-of-work algorithm tag (1), proof-of-work data
//! length (8) and the data itself. An input record is a commitment (32) and
//! a kind tag (1); an output record a commitment (32), a type tag (1) and the
//! script bytes; a kernel record an excess (32), a fee (8) and a lock
//! height (8).

use vstd::prelude::*;
use vstd::bytes::{spec_u16_from_le_bytes, spec_u64_from_le_bytes, u16_from_le_bytes, u64_from_le_bytes};
use vstd::slice::{slice_subrange, slice_to_vec};

verus! {

/// Length of the fixed part of a header record.
pub const HEADER_FIXED_LEN: usize = 227;

/// Offset of the proof-of-work algorithm tag in a header record.
pub const POW_ALGO_OFFSET: usize = 218;

/// Number of bytes in a block identity and in every stored digest.
pub const HASH_LEN: usize = 32;

/// A record whose bytes do not follow its layout.
#[derive(Debug, Clone, Copy, PartialEq, Eq, Structural)]
pub struct DecodeError;

/// A decoded block header.
pub struct BlockHeader {
    pub height: u64,
    pub version: u16,
    pub timestamp: u64,
    pub nonce: u64,
    pub prev_hash: Vec<u8>,
    pub output_mr: Vec<u8>,
    pub kernel_mr: Vec<u8>,
    pub input_mr: Vec<u8>,
    pub total_kernel_offset: Vec<u8>,
    pub total_script_offset: Vec<u8>,
    pub pow_algo: u8,
    pub pow_data: Vec<u8>,
}

/// Little-endian `u64` at `off` in `b`.
pub open spec fn u64_at(b: Seq<u8>, off: int) -> u64 {
    spec_u64_from_le_bytes(b.subrange(off, off + 8))
}

/// The proof-of-work algorithm tags that a header may carry.
pub open spec fn pow_algo_known(tag: u8) -> bool {
    tag <= 2
}

/// A header record: the fixed part, a known algorithm tag, and a length
/// prefix that covers exactly the rest of the record.
pub open spec fn header_well_formed(b: Seq<u8>) -> bool {
    &&& b.len() >= HEADER_FIXED_LEN
    &&& pow_algo_known(b[POW_ALGO_OFFSET as int])
    &&& u64_at(b, 219) as int == b.len() - HEADER_FIXED_LEN
}

/// `h` holds the fields that the header layout places in `b`.
pub open spec fn header_matches(h: BlockHeader, b: Seq<u8>) -> bool {
    &&& h.height == u64_at(b, 0)
    &&& h.version == spec_u16_from_le_bytes(b.subrange(8, 10))
    &&& h.timestamp == u64_at(b, 10)
    &&& h.nonce == u64_at(b, 18)
    &&& h.prev_hash@ == b.subrange(26, 58)
    &&& h.output_mr@ == b.subrange(58, 90)
    &&& h.kernel_mr@ == b.subrange(90, 122)
    &&& h.input_mr@ == b.subrange(122, 154)
    &&& h.total_kernel_offset@ == b.subrange(154, 186)
    &&& h.total_script_offset@ == b.subrange(186, 218)
    &&& h.pow_algo == b[POW_ALGO_OFFSET as int]
    &&& h.pow_data@ == b.subrange(HEADER_FIXED_LEN as int, b.len() as int)
}

/// The previous-block link that a well-formed header record carries.
pub open spec fn prev_hash_of(b: Seq<u8>) -> Seq<u8> {
    b.subrange(26, 58)
}

/// Copy of `b[start..end]`.
pub fn bytes_at(b: &[u8], start: usize, end: usize) -> (r: Vec<u8>)
    requires
        start <= end <= b@.len(),
    ensures
        r@ == b@.subrange(start as int, end as int),
{
    slice_to_vec(slice_subrange(b, start, end))
}

fn read_u64(b: &[u8], off: usize) -> (r: u64)
    requires
        off + 8 <= b@.len(),
    ensures
        r == u64_at(b@, off as int),
{
    // The slice's length is a usize, so `off + 8` fits in one.
    let _len = b.len();
    u64_from_le_bytes(slice_subrange(b, off, off + 8))
}

/// Decodes a header record.
pub fn decode_block_header(b: &[u8]) -> (r: Result<BlockHeader, DecodeError>)
    ensures
        r.is_ok() == header_well_formed(b@),
        r matches Ok(h) ==> header_matches(h, b@),
{
    if b.len() < HEADER_FIXED_LEN {
        return Err(DecodeError);
    }
    let pow_algo = b[POW_ALGO_OFFSET];
    if pow_algo > 2 {
        return Err(DecodeError);
    }
    let pow_len = read_u64(b, 219);
    if pow_len != (b.len() - HEADER_FIXED_LEN) as u64 {
        return Err(DecodeError);
    }
    Ok(BlockHeader {
        height: read_u64(b, 0),
        version: u16_from_le_bytes(slice_subrange(b, 8, 10)),
        timestamp: read_u64(b, 10),
        nonce: read_u64(b, 18),
        prev_hash: bytes_at(b, 26, 58),
        output_mr: bytes_at(b, 58, 90),
        kernel_mr: bytes_at(b, 90, 122),
        input_mr: bytes_at(b, 122, 154),
        total_kernel_offset: bytes_at(b, 154, 186),
        total_script_offset: bytes_at(b, 186, 218),
        pow_algo,
        pow_data: bytes_at(b, HEADER_FIXED_LEN, b.len()),
    })
}


/// Lower-case hex digit of a nibble.
pub open spec fn hex_digit(n: int) -> char {
    if n < 10 {
        (n + 48) as char
    } else {
        (n + 87) as char
    }
}

/// Lower-case hex text of `b`, two digits per byte, high nibble first.
pub open spec fn hex_seq(b: Seq<u8>) -> Seq<char>
    decreases b.len(),
{
    if b.len() == 0 {
        Seq::empty()
    } else {
        seq![hex_digit(b[0] as int / 16), hex_digit(b[0] as int % 16)] + hex_seq(b.drop_first())
    }
}

/// The 32-byte content digest of a record's bytes.
pub uninterp spec fn blake3_of(b: Seq<u8>) -> Seq<u8>;

/// Relies on hex::encode: lower-case digits, two per byte, high nibble first.
#[verifier::external_body]
pub(crate) fn to_hex(b: &[u8]) -> (r: String)
    ensures
        r@ == hex_seq(b@),
{
    hex::encode(b)
}

/// Relies on blake3::hash: a 32-byte digest that depends on the bytes alone.
#[verifier::external_body]
pub(crate) fn content_hash(b: &[u8]) -> (r: Vec<u8>)
    ensures
        r@ == blake3_of(b@),
        r@.len() == HASH_LEN,
{
    blake3::hash(b).as_bytes().to_vec()
}

/// Name of an input kind tag.
pub open spec fn input_kind_name(tag: u8) -> Seq<char> {
    if tag == 0 {
        "Compact"@
    } else {
        "WithOutputData"@
    }
}

/// Name of an output type tag.
pub open spec fn output_type_name(tag: u8) -> Seq<char> {
    if tag == 0 {
        "Standard"@
    } else if tag == 1 {
        "Coinbase"@
    } else if tag == 2 {
        "Burn"@
    } else if tag == 3 {
        "ValidatorNodeRegistration"@
    } else {
        "CodeTemplateRegistration"@
    }
}

/// Name of a proof-of-work algorithm tag.
pub open spec fn pow_algo_name(tag: u8) -> Seq<char> {
    if tag == 0 {
        "RandomXM"@
    } else if tag == 1 {
        "Sha3x"@
    } else {
        "RandomXT"@
    }
}

pub fn input_kind_label(tag: u8) -> (r: String)
    requires
        tag <= 1,
    ensures
        r@ == input_kind_name(tag),
{
    if tag == 0 {
        String::from_str("Compact")
    } else {
        String::from_str("WithOutputData")
    }
}

pub fn output_type_label(tag: u8) -> (r: String)
    requires
        tag <= 4,
    ensures
        r@ == output_type_name(tag),
{
    if tag == 0 {
        String::from_str("Standard")
    } else if tag == 1 {
        String::from_str("Coinbase")
    } else if tag == 2 {
        String::from_str("Burn")
    } else if tag == 3 {
        String::from_str("ValidatorNodeRegistration")
    } else {
        String::from_str("CodeTemplateRegistration")
    }
}

pub fn pow_algo_label(tag: u8) -> (r: String)
    requires
        pow_algo_known(tag),
    ensures
        r@ == pow_algo_name(tag),
{
    if tag == 0 {
        String::from_str("RandomXM")
    } else if tag == 1 {
        String::from_str("Sha3x")
    } else {
        String::from_str("RandomXT")
    }
}

/// An input record: commitment, then a kind tag.
pub open spec fn input_well_formed(b: Seq<u8>) -> bool {
    b.len() == 33 && b[32] <= 1
}

/// An output record: commitment, a type tag, then the script bytes.
pub open spec fn output_well_formed(b: Seq<u8>) -> bool {
    b.len() >= 33 && b[32] <= 4
}

/// A kernel record: excess, fee, lock height.
pub open spec fn kernel_well_formed(b: Seq<u8>) -> bool {
    b.len() == 48
}

} // verus!
