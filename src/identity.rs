//! Reconciliation of a block's identity from the header table.

use vstd::prelude::*;
use crate::codec::{blake3_of, content_hash, decode_block_header, header_well_formed, prev_hash_of};
use crate::store::{has_height, heights_ascending, lemma_raw_for_index, raw_for, HeaderTable};

verus! {

/// Identity of a block from its successor's record, where there is one, and
/// its own record: the successor's previous-block link when the successor
/// decodes, else the content digest of the block's own record.
pub open spec fn reconcile(next: Option<Seq<u8>>, raw: Seq<u8>) -> Seq<u8> {
    match next {
        Some(n) => if header_well_formed(n) {
            prev_hash_of(n)
        } else {
            blake3_of(raw)
        },
        None => blake3_of(raw),
    }
}

/// The record stored at the height after `h`, where there is one.
pub open spec fn successor_record(s: Seq<(u64, Seq<u8>)>, h: u64) -> Option<Seq<u8>> {
    if h < u64::MAX && has_height(s, (h + 1) as u64) {
        Some(raw_for(s, (h + 1) as u64))
    } else {
        None
    }
}

/// Identity of the block at height `h` of the header table `s`.
pub open spec fn identity_of(s: Seq<(u64, Seq<u8>)>, h: u64) -> Seq<u8> {
    reconcile(successor_record(s, h), raw_for(s, h))
}

/// Identity of a block from its successor's record, if any, and its own.
pub fn resolve_identity(next: Option<&[u8]>, raw: &[u8]) -> (r: Vec<u8>)
    ensures
        r@ == reconcile(
            match next {
                Some(n) => Some(n@),
                None => None,
            },
            raw@,
        ),
{
    match next {
        Some(n) => match decode_block_header(n) {
            Ok(h) => h.prev_hash,
            Err(_) => content_hash(raw),
        },
        None => content_hash(raw),
    }
}

/// In an ascending table where the entry after `i` does not hold the next
/// height, no entry does.
proof fn lemma_no_successor(s: Seq<(u64, Seq<u8>)>, i: int)
    requires
        heights_ascending(s),
        0 <= i < s.len(),
        s[i].0 < u64::MAX,
        i + 1 == s.len() || s[i + 1].0 != s[i].0 + 1,
    ensures
        !has_height(s, (s[i].0 + 1) as u64),
{
    if has_height(s, (s[i].0 + 1) as u64) {
        let j = choose|j: int| 0 <= j < s.len() && s[j].0 == s[i].0 + 1;
        if j <= i {
            if j < i {
                assert(s[j].0 < s[i].0);
            }
        } else if j > i + 1 {
            assert(s[i].0 < s[i + 1].0);
            assert(s[i + 1].0 < s[j].0);
        }
    }
}

/// Identity of the block stored at index `i` of the header table.
pub fn block_identity(t: &HeaderTable, i: usize) -> (r: Vec<u8>)
    requires
        t.wf(),
        i < t@.len(),
    ensures
        r@ == identity_of(t@, t@[i as int].0),
{
    let h = t.height_at(i);
    let n = t.len();
    proof {
        lemma_raw_for_index(t@, i as int);
    }
    if h < u64::MAX && i + 1 < n && t.height_at(i + 1) == h + 1 {
        proof {
            lemma_raw_for_index(t@, i + 1);
        }
        resolve_identity(Some(t.raw_at(i + 1).as_slice()), t.raw_at(i).as_slice())
    } else {
        proof {
            if h < u64::MAX {
                lemma_no_successor(t@, i as int);
            }
        }
        resolve_identity(None, t.raw_at(i).as_slice())
    }
}

} // verus!
