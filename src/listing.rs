//! Listing of block summaries under a filter.

use vstd::prelude::*;
use crate::codec::{decode_block_header, hex_seq, header_well_formed, to_hex};
use crate::identity::{block_identity, identity_of};
use crate::model::{lite_matches, BlockFilter, BlockSummary};
use crate::records::decode_header_lite;
use crate::store::HeaderTable;

verus! {

/// Why a query was not answered.
#[derive(Debug, Clone, Copy, PartialEq, Eq, Structural)]
pub enum QueryError {
    /// No header is stored at the height asked for.
    NotFound,
    /// A record that the answer needs does not follow its layout.
    Decode,
    /// A height range whose start lies after its end.
    InvalidRange,
}

/// The entries of the header table whose record decodes, in table order.
pub open spec fn listable(s: Seq<(u64, Seq<u8>)>) -> Seq<(u64, Seq<u8>)>
    decreases s.len(),
{
    if s.len() == 0 {
        Seq::empty()
    } else {
        let p = listable(s.drop_last());
        if header_well_formed(s.last().1) {
            p.push(s.last())
        } else {
            p
        }
    }
}

/// The entries of `l` whose height lies in `lo..=hi`, in order.
pub open spec fn window(l: Seq<(u64, Seq<u8>)>, lo: u64, hi: u64) -> Seq<(u64, Seq<u8>)>
    decreases l.len(),
{
    if l.len() == 0 {
        Seq::empty()
    } else {
        let p = window(l.drop_last(), lo, hi);
        if lo <= l.last().0 <= hi {
            p.push(l.last())
        } else {
            p
        }
    }
}

/// The entries of `l` that `f` keeps, in order.
pub open spec fn select(l: Seq<(u64, Seq<u8>)>, f: BlockFilter) -> Seq<(u64, Seq<u8>)> {
    match f {
        BlockFilter::LastN(n) => if n < l.len() {
            l.subrange(l.len() - n, l.len() as int)
        } else {
            l
        },
        BlockFilter::Range(lo, hi) => window(l, lo, hi),
        BlockFilter::Specific(h) => window(l, h, h),
    }
}

/// A filter that a listing rejects before reading anything.
pub open spec fn filter_rejected(f: BlockFilter) -> bool {
    match f {
        BlockFilter::Range(lo, hi) => lo > hi,
        _ => false,
    }
}

/// `b` summarises the entry `e` of the header table `s`.
pub open spec fn summary_matches(b: BlockSummary, s: Seq<(u64, Seq<u8>)>, e: (u64, Seq<u8>)) -> bool {
    &&& b.height == e.0
    &&& b.hash@ == hex_seq(identity_of(s, e.0))
    &&& lite_matches(b.header, e.1)
}

/// `r` summarises the entries `sel` of the header table `s`, one for one.
pub open spec fn summaries_match(
    r: Seq<BlockSummary>,
    s: Seq<(u64, Seq<u8>)>,
    sel: Seq<(u64, Seq<u8>)>,
) -> bool {
    &&& r.len() == sel.len()
    &&& forall|j: int| 0 <= j < r.len() ==> summary_matches(#[trigger] r[j], s, sel[j])
}

/// Indices of the entries whose record decodes.
fn listable_positions(t: &HeaderTable) -> (idx: Vec<usize>)
    ensures
        idx@.len() == listable(t@).len(),
        forall|j: int|
            0 <= j < idx@.len() ==> #[trigger] idx@[j] < t@.len() && t@[idx@[j] as int]
                == listable(t@)[j],
{
    let ghost s = t@;
    let n = t.len();
    let mut idx: Vec<usize> = Vec::new();
    let mut i: usize = 0;
    while i < n
        invariant
            s == t@,
            n == s.len(),
            i <= n,
            idx@.len() == listable(s.take(i as int)).len(),
            forall|j: int|
                0 <= j < idx@.len() ==> #[trigger] idx@[j] < i && s[idx@[j] as int]
                    == listable(s.take(i as int))[j],
        decreases n - i,
    {
        assert(s.take(i + 1).drop_last() =~= s.take(i as int));
        assert(s.take(i + 1).last() == s[i as int]);
        if decode_block_header(t.raw_at(i).as_slice()).is_ok() {
            idx.push(i);
        }
        i = i + 1;
    }
    assert(s.take(n as int) =~= s);
    idx
}

/// Every entry of `listable(s)` decodes.
proof fn lemma_listable_decodes(s: Seq<(u64, Seq<u8>)>, j: int)
    requires
        0 <= j < listable(s).len(),
    ensures
        header_well_formed(listable(s)[j].1),
    decreases s.len(),
{
    if s.len() > 0 {
        let p = listable(s.drop_last());
        if j < p.len() {
            lemma_listable_decodes(s.drop_last(), j);
        }
    }
}

/// The indices, among `0..l.len()`, of the entries that `window` keeps.
fn window_positions(heights: &Vec<u64>, lo: u64, hi: u64, l: Ghost<Seq<(u64, Seq<u8>)>>) -> (sel: Vec<usize>)
    requires
        heights@.len() == l@.len(),
        forall|j: int| 0 <= j < l@.len() ==> #[trigger] heights@[j] == l@[j].0,
    ensures
        sel@.len() == window(l@, lo, hi).len(),
        forall|j: int|
            0 <= j < sel@.len() ==> #[trigger] sel@[j] < l@.len() && l@[sel@[j] as int]
                == window(l@, lo, hi)[j],
{
    let n = heights.len();
    let mut sel: Vec<usize> = Vec::new();
    let mut k: usize = 0;
    while k < n
        invariant
            n == l@.len(),
            heights@.len() == l@.len(),
            forall|j: int| 0 <= j < l@.len() ==> #[trigger] heights@[j] == l@[j].0,
            k <= n,
            sel@.len() == window(l@.take(k as int), lo, hi).len(),
            forall|j: int|
                0 <= j < sel@.len() ==> #[trigger] sel@[j] < k && l@[sel@[j] as int] == window(
                    l@.take(k as int),
                    lo,
                    hi,
                )[j],
        decreases n - k,
    {
        assert(l@.take(k + 1).drop_last() =~= l@.take(k as int));
        assert(l@.take(k + 1).last() == l@[k as int]);
        if lo <= heights[k] && heights[k] <= hi {
            sel.push(k);
        }
        k = k + 1;
    }
    assert(l@.take(n as int) =~= l@);
    sel
}

/// Summaries of the header entries that `filter` keeps, in ascending height
/// order. Entries whose record does not decode are passed over.
pub fn read_lmdb_headers_with_filter(t: &HeaderTable, filter: BlockFilter) -> (r: Result<Vec<BlockSummary>, QueryError>)
    requires
        t.wf(),
    ensures
        match r {
            Ok(v) => !filter_rejected(filter) && summaries_match(v@, t@, select(listable(t@), filter)),
            Err(e) => filter_rejected(filter) && e == QueryError::InvalidRange,
        },
{
    if let BlockFilter::Range(lo, hi) = filter {
        if lo > hi {
            return Err(QueryError::InvalidRange);
        }
    }
    let ghost s = t@;
    let ghost l = listable(s);
    let idx = listable_positions(t);
    let m = idx.len();
    // Positions, within `idx`, of the entries kept.
    let kept: Vec<usize> = match filter {
        BlockFilter::LastN(count) => {
            let start: usize = if count < m { m - count } else { 0 };
            let mut kept: Vec<usize> = Vec::new();
            let mut k: usize = start;
            while k < m
                invariant
                    start <= k <= m,
                    m == l.len(),
                    kept@.len() == k - start,
                    forall|j: int| 0 <= j < kept@.len() ==> #[trigger] kept@[j] == start + j,
                decreases m - k,
            {
                kept.push(k);
                k = k + 1;
            }
            assert(select(l, filter) =~= l.subrange(start as int, m as int));
            kept
        },
        _ => {
            let (lo, hi): (u64, u64) = match filter {
                BlockFilter::Range(a, b) => (a, b),
                BlockFilter::Specific(h) => (h, h),
                BlockFilter::LastN(_) => (0, 0),
            };
            let mut heights: Vec<u64> = Vec::new();
            let mut k: usize = 0;
            while k < m
                invariant
                    k <= m,
                    m == idx@.len(),
                    m == l.len(),
                    s == t@,
                    l == listable(s),
                    forall|j: int|
                        0 <= j < idx@.len() ==> #[trigger] idx@[j] < s.len() && s[idx@[j] as int]
                            == l[j],
                    heights@.len() == k,
                    forall|j: int| 0 <= j < k ==> #[trigger] heights@[j] == l[j].0,
                decreases m - k,
            {
                heights.push(t.height_at(idx[k]));
                k = k + 1;
            }
            window_positions(&heights, lo, hi, Ghost(l))
        },
    };
    let ghost chosen = select(l, filter);
    assert(kept@.len() == chosen.len());
    assert(forall|j: int| 0 <= j < kept@.len() ==> #[trigger] kept@[j] < m && l[kept@[j] as int] == chosen[j]);
    let mut out: Vec<BlockSummary> = Vec::new();
    let mut j: usize = 0;
    while j < kept.len()
        invariant
            t.wf(),
            s == t@,
            l == listable(s),
            m == l.len(),
            m == idx@.len(),
            kept@.len() == chosen.len(),
            forall|a: int| 0 <= a < kept@.len() ==> #[trigger] kept@[a] < m && l[kept@[a] as int] == chosen[a],
            forall|a: int|
                0 <= a < idx@.len() ==> #[trigger] idx@[a] < s.len() && s[idx@[a] as int] == l[a],
            j <= kept@.len(),
            out@.len() == j,
            forall|a: int| 0 <= a < j ==> summary_matches(#[trigger] out@[a], s, chosen[a]),
        decreases kept@.len() - j,
    {
        let p = idx[kept[j]];
        proof {
            lemma_listable_decodes(s, kept@[j as int] as int);
        }
        let lite = match decode_header_lite(t.raw_at(p).as_slice()) {
            Ok(lite) => lite,
            Err(_) => {
                assert(false);
                return Err(QueryError::Decode);
            },
        };
        let id = block_identity(t, p);
        out.push(BlockSummary { height: t.height_at(p), hash: to_hex(id.as_slice()), header: lite });
        j = j + 1;
    }
    Ok(out)
}

} // verus!
