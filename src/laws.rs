//! Properties that hold of every store: how identities are reconciled, what
//! each filter keeps, where linked components come from, and that answers
//! are determined by the store alone.

use vstd::prelude::*;
use crate::codec::{blake3_of, header_well_formed, prev_hash_of};
use crate::identity::identity_of;
use crate::linker::{
    linked, has_prefix, key_lt, keys_ascending, lemma_key_lt_transitive, lemma_linked_prefix, linked_in,
    run_end, seek_from,
};
use crate::listing::{listable, select, summaries_match, window};
use crate::model::{BlockFilter, BlockSummary};
use crate::model::BlockDetailSummary;
use crate::codec::hex_seq;
use crate::listing::QueryError;
use crate::queries::{
    detail_matches, detail_ok, eq_ignore_case, first_hit, hash_hit, search_result_ok,
};
use crate::store::{has_height, heights_ascending, raw_for, Store, table_wf};

verus! {

/// Where the header after `h` is stored and decodes, the identity of `h` is
/// that header's previous-block link.
pub proof fn lemma_identity_from_successor(s: Seq<(u64, Seq<u8>)>, h: u64)
    requires
        h < u64::MAX,
        has_height(s, (h + 1) as u64),
        header_well_formed(raw_for(s, (h + 1) as u64)),
    ensures
        identity_of(s, h) == prev_hash_of(raw_for(s, (h + 1) as u64)),
{
}

/// At the tip, where no header follows `h`, the identity of `h` is the
/// content digest of its own record.
pub proof fn lemma_identity_at_tip(s: Seq<(u64, Seq<u8>)>, h: u64)
    requires
        h == u64::MAX || !has_height(s, (h + 1) as u64),
    ensures
        identity_of(s, h) == blake3_of(raw_for(s, h)),
{
}

/// Every entry of `listable(s)` is an entry of `s`, and in an ascending
/// table the entries kept stay ascending.
pub proof fn lemma_listable_ascending(s: Seq<(u64, Seq<u8>)>)
    requires
        heights_ascending(s),
    ensures
        heights_ascending(listable(s)),
        forall|j: int|
            0 <= j < listable(s).len() ==> exists|i: int|
                0 <= i < s.len() && s[i] == #[trigger] listable(s)[j],
    decreases s.len(),
{
    if s.len() > 0 {
        let d = s.drop_last();
        assert(heights_ascending(d));
        lemma_listable_ascending(d);
        let p = listable(d);
        assert forall|j: int| 0 <= j < p.len() implies p[j].0 < s.last().0 by {
            let i = choose|i: int| 0 <= i < d.len() && d[i] == p[j];
            assert(s[i] == d[i]);
        }
        assert forall|j: int| 0 <= j < listable(s).len() implies exists|i: int|
            0 <= i < s.len() && s[i] == #[trigger] listable(s)[j] by {
            if j < p.len() {
                let i = choose|i: int| 0 <= i < d.len() && d[i] == p[j];
                assert(s[i] == d[i]);
            } else {
                assert(s[s.len() - 1] == listable(s)[j]);
            }
        }
    }
}

/// `LastN(n)` keeps `min(n, total)` of the headers that decode, in ascending
/// height order, and every header it leaves out lies below every one it keeps.
pub proof fn lemma_last_n_keeps_highest(s: Seq<(u64, Seq<u8>)>, n: usize)
    requires
        heights_ascending(s),
    ensures
        ({
            let l = listable(s);
            let r = select(l, BlockFilter::LastN(n));
            &&& r.len() == if n < l.len() {
                n as int
            } else {
                l.len() as int
            }
            &&& heights_ascending(r)
            &&& forall|j: int|
                0 <= j < l.len() - r.len() ==> forall|k: int|
                    0 <= k < r.len() ==> #[trigger] l[j].0 < #[trigger] r[k].0
            &&& forall|k: int| 0 <= k < r.len() ==> r[k] == l[l.len() - r.len() + k]
        }),
{
    lemma_listable_ascending(s);
}

/// `window(l, lo, hi)` keeps exactly the entries of `l` whose height lies in
/// `lo..=hi`, in the order of `l`.
pub proof fn lemma_window_exact(l: Seq<(u64, Seq<u8>)>, lo: u64, hi: u64)
    ensures
        forall|k: int|
            0 <= k < window(l, lo, hi).len() ==> lo <= (#[trigger] window(l, lo, hi)[k]).0 <= hi
                && l.contains(window(l, lo, hi)[k]),
        forall|j: int|
            0 <= j < l.len() && lo <= l[j].0 <= hi ==> window(l, lo, hi).contains(#[trigger] l[j]),
    decreases l.len(),
{
    if l.len() > 0 {
        let d = l.drop_last();
        lemma_window_exact(d, lo, hi);
        let p = window(d, lo, hi);
        let w = window(l, lo, hi);
        assert forall|k: int| 0 <= k < w.len() implies lo <= (#[trigger] w[k]).0 <= hi && l.contains(w[k]) by {
            if k < p.len() {
                assert(w[k] == p[k]);
                let i = choose|i: int| 0 <= i < d.len() && d[i] == p[k];
                assert(l[i] == d[i]);
            } else {
                assert(l[l.len() - 1] == w[k]);
            }
        }
        assert forall|j: int| 0 <= j < l.len() && lo <= l[j].0 <= hi implies w.contains(#[trigger] l[j]) by {
            if j < d.len() {
                assert(d[j] == l[j]);
                assert(p.contains(d[j]));
                let k = choose|k: int| 0 <= k < p.len() && p[k] == d[j];
                assert(w[k] == p[k]);
            } else {
                assert(w[w.len() - 1] == l[j]);
            }
        }
    }
}

/// `Range(lo, hi)` keeps exactly the headers that decode and whose height
/// lies in `lo..=hi`, in ascending height order.
pub proof fn lemma_range_exact(s: Seq<(u64, Seq<u8>)>, lo: u64, hi: u64)
    requires
        heights_ascending(s),
    ensures
        ({
            let l = listable(s);
            let r = select(l, BlockFilter::Range(lo, hi));
            &&& forall|k: int| 0 <= k < r.len() ==> lo <= (#[trigger] r[k]).0 <= hi && l.contains(r[k])
            &&& forall|j: int| 0 <= j < l.len() && lo <= l[j].0 <= hi ==> r.contains(#[trigger] l[j])
            &&& heights_ascending(r)
        }),
{
    let l = listable(s);
    lemma_listable_ascending(s);
    lemma_window_exact(l, lo, hi);
    lemma_window_ascending(l, lo, hi);
}

proof fn lemma_window_ascending(l: Seq<(u64, Seq<u8>)>, lo: u64, hi: u64)
    requires
        heights_ascending(l),
    ensures
        heights_ascending(window(l, lo, hi)),
    decreases l.len(),
{
    if l.len() > 0 {
        let d = l.drop_last();
        assert(heights_ascending(d));
        lemma_window_ascending(d, lo, hi);
        lemma_window_exact(d, lo, hi);
        let p = window(d, lo, hi);
        assert forall|k: int| 0 <= k < p.len() implies p[k].0 < l.last().0 by {
            assert(d.contains(p[k]));
            let i = choose|i: int| 0 <= i < d.len() && d[i] == p[k];
            assert(l[i] == d[i]);
        }
    }
}

/// Every component record that a detail query for `h` links has a key that
/// begins with the identity of `h`.
pub proof fn lemma_detail_components_prefixed(st: Store, h: u64)
    ensures
        ({
            let id = identity_of(st.headers@, h);
            &&& forall|j: int|
                0 <= j < linked_in(st.inputs, id).len() ==> has_prefix(
                    #[trigger] linked_in(st.inputs, id)[j].0,
                    id,
                )
            &&& forall|j: int|
                0 <= j < linked_in(st.utxos, id).len() ==> has_prefix(
                    #[trigger] linked_in(st.utxos, id)[j].0,
                    id,
                )
            &&& forall|j: int|
                0 <= j < linked_in(st.kernels, id).len() ==> has_prefix(
                    #[trigger] linked_in(st.kernels, id)[j].0,
                    id,
                )
        }),
{
    let id = identity_of(st.headers@, h);
    if let Some(t) = st.inputs {
        lemma_linked_prefix(t@, id);
    }
    if let Some(t) = st.utxos {
        lemma_linked_prefix(t@, id);
    }
    if let Some(t) = st.kernels {
        lemma_linked_prefix(t@, id);
    }
}

/// A hash search finds the same block for two targets that differ only in
/// the case of ASCII letters.
pub proof fn lemma_search_ignores_case(s: Seq<(u64, Seq<u8>)>, a: Seq<char>, b: Seq<char>, i: int)
    requires
        eq_ignore_case(a, b),
        0 <= i < s.len(),
    ensures
        hash_hit(s, i, a) == hash_hit(s, i, b),
        first_hit(s, i, a) == first_hit(s, i, b),
{
    assert forall|j: int| 0 <= j < s.len() implies hash_hit(s, j, a) == hash_hit(s, j, b) by {
    }
}

/// Two listings that meet the listing contract for one table and one filter
/// agree in every height, identity and header field.
pub proof fn lemma_listing_determined(
    r1: Seq<BlockSummary>,
    r2: Seq<BlockSummary>,
    s: Seq<(u64, Seq<u8>)>,
    f: BlockFilter,
)
    requires
        summaries_match(r1, s, select(listable(s), f)),
        summaries_match(r2, s, select(listable(s), f)),
    ensures
        r1.len() == r2.len(),
        forall|j: int|
            0 <= j < r1.len() ==> {
                &&& (#[trigger] r1[j]).height == r2[j].height
                &&& r1[j].hash@ == r2[j].hash@
                &&& r1[j].header.previous_hash@ == r2[j].header.previous_hash@
                &&& r1[j].header.timestamp == r2[j].header.timestamp
                &&& r1[j].header.nonce == r2[j].header.nonce
                &&& r1[j].header.version == r2[j].header.version
                &&& r1[j].header.raw_header_length == r2[j].header.raw_header_length
                &&& r1[j].header.pow_algorithm@ == r2[j].header.pow_algorithm@
                &&& r1[j].header.pow_data_hash@ == r2[j].header.pow_data_hash@
            },
{
    assert forall|j: int| 0 <= j < r1.len() implies (#[trigger] r1[j]).height == r2[j].height by {
        assert(summaries_match(r2, s, select(listable(s), f)));
    }
}


/// Two details that meet the detail contract for one store and one height
/// agree in identity, header and every linked component.
pub proof fn lemma_detail_determined(st: Store, h: u64, d1: BlockDetailSummary, d2: BlockDetailSummary)
    requires
        detail_matches(st, h, d1),
        detail_matches(st, h, d2),
    ensures
        d1.height == d2.height,
        d1.hash@ == d2.hash@,
        d1.header.previous_hash@ == d2.header.previous_hash@,
        d1.header.timestamp == d2.header.timestamp,
        d1.transactions.inputs@.len() == d2.transactions.inputs@.len(),
        d1.transactions.outputs@.len() == d2.transactions.outputs@.len(),
        d1.transactions.kernels@.len() == d2.transactions.kernels@.len(),
        forall|j: int|
            0 <= j < d1.transactions.inputs@.len() ==> (#[trigger] d1.transactions.inputs@[j]).commitment@
                == d2.transactions.inputs@[j].commitment@,
        forall|j: int|
            0 <= j < d1.transactions.outputs@.len() ==> (#[trigger] d1.transactions.outputs@[j]).commitment@
                == d2.transactions.outputs@[j].commitment@,
        forall|j: int|
            0 <= j < d1.transactions.kernels@.len() ==> {
                &&& (#[trigger] d1.transactions.kernels@[j]).excess@ == d2.transactions.kernels@[j].excess@
                &&& d1.transactions.kernels@[j].fee == d2.transactions.kernels@[j].fee
            },
{
}


proof fn lemma_prefix_unfold(k: Seq<u8>, p: Seq<u8>)
    requires
        p.len() > 0,
    ensures
        has_prefix(k, p) == (k.len() > 0 && k[0] == p[0] && has_prefix(k.drop_first(), p.drop_first())),
{
    if has_prefix(k, p) {
        assert(k[0] == k.subrange(0, p.len() as int)[0]);
        assert(k.drop_first().subrange(0, p.len() - 1) =~= k.subrange(0, p.len() as int).drop_first());
    }
    if k.len() > 0 && k[0] == p[0] && has_prefix(k.drop_first(), p.drop_first()) {
        assert(k.subrange(0, p.len() as int) =~= p) by {
            assert forall|i: int| 0 <= i < p.len() implies k.subrange(0, p.len() as int)[i] == p[i] by {
                if i > 0 {
                    assert(k.drop_first().subrange(0, p.len() - 1)[i - 1] == p.drop_first()[i - 1]);
                }
            }
        }
    }
}

/// A key that begins with `p` does not sort before `p`.
proof fn lemma_prefixed_not_below(k: Seq<u8>, p: Seq<u8>)
    requires
        has_prefix(k, p),
    ensures
        !key_lt(k, p),
    decreases p.len(),
{
    if p.len() > 0 {
        lemma_prefix_unfold(k, p);
        lemma_prefixed_not_below(k.drop_first(), p.drop_first());
    }
}

/// The keys that begin with `p` are all those from `p` up to one of them: a
/// key at or above `p` and below a key that begins with `p` begins with `p`.
proof fn lemma_prefix_interval(b: Seq<u8>, c: Seq<u8>, p: Seq<u8>)
    requires
        has_prefix(c, p),
        !key_lt(b, p),
        key_lt(b, c),
    ensures
        has_prefix(b, p),
    decreases p.len(),
{
    if p.len() > 0 {
        lemma_prefix_unfold(c, p);
        lemma_prefix_unfold(b, p);
        assert(b.len() > 0);
        assert(b[0] == p[0]);
        lemma_prefix_interval(b.drop_first(), c.drop_first(), p.drop_first());
    } else {
        assert(b.subrange(0, 0) =~= p);
    }
}

proof fn lemma_seek_below(t: Seq<(Seq<u8>, Seq<u8>)>, p: Seq<u8>, i: int)
    requires
        0 <= i <= t.len(),
    ensures
        i <= seek_from(t, p, i) <= t.len(),
        forall|j: int| i <= j < seek_from(t, p, i) ==> key_lt(#[trigger] t[j].0, p),
        seek_from(t, p, i) < t.len() ==> !key_lt(t[seek_from(t, p, i)].0, p),
    decreases t.len() - i,
{
    if i < t.len() && key_lt(t[i].0, p) {
        lemma_seek_below(t, p, i + 1);
    }
}

proof fn lemma_run_prefixed(t: Seq<(Seq<u8>, Seq<u8>)>, p: Seq<u8>, i: int)
    requires
        0 <= i <= t.len(),
    ensures
        i <= run_end(t, p, i) <= t.len(),
        forall|j: int| i <= j < run_end(t, p, i) ==> has_prefix(#[trigger] t[j].0, p),
        run_end(t, p, i) < t.len() ==> !has_prefix(t[run_end(t, p, i)].0, p),
    decreases t.len() - i,
{
    if i < t.len() && has_prefix(t[i].0, p) {
        lemma_run_prefixed(t, p, i + 1);
    }
}

/// In a table whose keys ascend, the prefix scan for `p` visits exactly the
/// records whose key begins with `p`.
pub proof fn lemma_prefix_scan_complete(t: Seq<(Seq<u8>, Seq<u8>)>, p: Seq<u8>)
    requires
        keys_ascending(t),
    ensures
        forall|j: int|
            0 <= j < t.len() ==> (has_prefix(#[trigger] t[j].0, p) <==> (seek_from(t, p, 0) <= j
                && j < run_end(t, p, seek_from(t, p, 0)))),
{
    let a = seek_from(t, p, 0);
    lemma_seek_below(t, p, 0);
    lemma_run_prefixed(t, p, a);
    let e = run_end(t, p, a);
    assert forall|j: int| 0 <= j < t.len() implies (has_prefix(#[trigger] t[j].0, p) <==> (a <= j && j < e)) by {
        if j < a {
            if has_prefix(t[j].0, p) {
                lemma_prefixed_not_below(t[j].0, p);
            }
        } else if j >= e && has_prefix(t[j].0, p) {
            // The key at `e` lies at or above `p` and below `t[j]`.
            assert(e < t.len());
            assert(!key_lt(t[e].0, p)) by {
                if e > a && key_lt(t[e].0, p) {
                    assert(key_lt(t[a].0, t[e].0));
                    lemma_key_lt_transitive(t[a].0, t[e].0, p);
                }
            }
            if j > e {
                assert(key_lt(t[e].0, t[j].0));
                lemma_prefix_interval(t[e].0, t[j].0, p);
            }
        }
    }
}

/// A detail answer for a block whose successor is stored and decodes
/// carries, as its hash, the successor's previous-block link in hex.
pub proof fn lemma_detail_hash_from_successor(st: Store, h: u64, d: BlockDetailSummary)
    requires
        detail_matches(st, h, d),
        h < u64::MAX,
        has_height(st.headers@, (h + 1) as u64),
        header_well_formed(raw_for(st.headers@, (h + 1) as u64)),
    ensures
        d.hash@ == hex_seq(prev_hash_of(raw_for(st.headers@, (h + 1) as u64))),
{
    lemma_identity_from_successor(st.headers@, h);
}

/// A detail answer for the tip block carries, as its hash, the content digest
/// of the block's own record in hex.
pub proof fn lemma_detail_hash_at_tip(st: Store, h: u64, d: BlockDetailSummary)
    requires
        detail_matches(st, h, d),
        h == u64::MAX || !has_height(st.headers@, (h + 1) as u64),
    ensures
        d.hash@ == hex_seq(blake3_of(raw_for(st.headers@, h))),
{
    lemma_identity_at_tip(st.headers@, h);
}

/// At most one entry is the first that a search target hits.
proof fn lemma_first_hit_unique(s: Seq<(u64, Seq<u8>)>, t: Seq<char>, i: int, j: int)
    requires
        first_hit(s, i, t),
        first_hit(s, j, t),
    ensures
        i == j,
{
}

/// Two hash searches whose targets differ only in the case of ASCII letters
/// give the same answer: both none, both `Decode`, or the same block with
/// the same hash and components.
pub proof fn lemma_search_same_for_case_variants(
    st: Store,
    a: Seq<char>,
    b: Seq<char>,
    r1: Result<Option<BlockDetailSummary>, QueryError>,
    r2: Result<Option<BlockDetailSummary>, QueryError>,
)
    requires
        eq_ignore_case(a, b),
        search_result_ok(st, a, r1),
        search_result_ok(st, b, r2),
    ensures
        (r1 matches Ok(None)) == (r2 matches Ok(None)),
        (r1 matches Err(_)) == (r2 matches Err(_)),
        r1 matches Ok(Some(d1)) ==> r2 matches Ok(Some(d2)) && d1.height == d2.height && d1.hash@
            == d2.hash@ && d1.transactions.inputs@.len() == d2.transactions.inputs@.len()
            && d1.transactions.outputs@.len() == d2.transactions.outputs@.len()
            && d1.transactions.kernels@.len() == d2.transactions.kernels@.len(),
{
    let s = st.headers@;
    assert forall|j: int| 0 <= j < s.len() implies hash_hit(s, j, a) == hash_hit(s, j, b) by {
        lemma_search_ignores_case(s, a, b, j);
    }
    assert forall|j: int| #[trigger] first_hit(s, j, a) implies first_hit(s, j, b) by {
        lemma_search_ignores_case(s, a, b, j);
    }
    assert forall|j: int| #[trigger] first_hit(s, j, b) implies first_hit(s, j, a) by {
        lemma_search_ignores_case(s, a, b, j);
    }
    match r1 {
        Ok(None) => {
            match r2 {
                Ok(Some(_)) | Err(_) => {
                    let j = choose|j: int| first_hit(s, j, b) && #[trigger] s[j].0 == s[j].0;
                    assert(hash_hit(s, j, a));
                },
                Ok(None) => {},
            }
        },
        Ok(Some(d1)) => {
            let i = choose|i: int|
                first_hit(s, i, a) && s[i].0 == d1.height && detail_ok(st, d1.height) && detail_matches(
                    st,
                    d1.height,
                    d1,
                );
            assert(first_hit(s, i, b));
            match r2 {
                Ok(None) => {
                    assert(hash_hit(s, i, b));
                },
                Ok(Some(d2)) => {
                    let j = choose|j: int|
                        first_hit(s, j, b) && s[j].0 == d2.height && detail_ok(st, d2.height)
                            && detail_matches(st, d2.height, d2);
                    lemma_first_hit_unique(s, b, i, j);
                    lemma_detail_determined(st, d1.height, d1, d2);
                },
                Err(_) => {
                    let j = choose|j: int| first_hit(s, j, b) && !detail_ok(st, s[j].0);
                    lemma_first_hit_unique(s, b, i, j);
                },
            }
        },
        Err(_) => {
            let i = choose|i: int| first_hit(s, i, a) && !detail_ok(st, s[i].0);
            assert(first_hit(s, i, b));
            match r2 {
                Ok(None) => {
                    assert(hash_hit(s, i, b));
                },
                Ok(Some(d2)) => {
                    let j = choose|j: int|
                        first_hit(s, j, b) && s[j].0 == d2.height && detail_ok(st, d2.height)
                            && detail_matches(st, d2.height, d2);
                    lemma_first_hit_unique(s, b, i, j);
                },
                Err(_) => {},
            }
        },
    }
}

/// In a table whose keys ascend, the prefix scan for `p` visits every record
/// whose key begins with `p`.
pub proof fn lemma_linked_complete(t: Seq<(Seq<u8>, Seq<u8>)>, p: Seq<u8>)
    requires
        keys_ascending(t),
    ensures
        forall|j: int|
            0 <= j < t.len() && has_prefix(#[trigger] t[j].0, p) ==> linked(t, p).contains(t[j]),
{
    lemma_prefix_scan_complete(t, p);
    let a = seek_from(t, p, 0);
    lemma_seek_below(t, p, 0);
    lemma_run_prefixed(t, p, a);
    assert forall|j: int| 0 <= j < t.len() && has_prefix(#[trigger] t[j].0, p) implies linked(
        t,
        p,
    ).contains(t[j]) by {
        assert(a <= j < run_end(t, p, a));
        assert(linked(t, p)[j - a] == t[j]);
    }
}

/// In a well-formed store, a detail query for `h` links every component
/// record whose key begins with the identity of `h`, in each table present.
pub proof fn lemma_detail_components_complete(st: Store, h: u64)
    requires
        st.wf(),
    ensures
        ({
            let id = identity_of(st.headers@, h);
            &&& (st.inputs matches Some(t) ==> forall|j: int|
                0 <= j < t@.len() && has_prefix(#[trigger] t@[j].0, id) ==> linked_in(
                    st.inputs,
                    id,
                ).contains(t@[j]))
            &&& (st.utxos matches Some(t) ==> forall|j: int|
                0 <= j < t@.len() && has_prefix(#[trigger] t@[j].0, id) ==> linked_in(
                    st.utxos,
                    id,
                ).contains(t@[j]))
            &&& (st.kernels matches Some(t) ==> forall|j: int|
                0 <= j < t@.len() && has_prefix(#[trigger] t@[j].0, id) ==> linked_in(
                    st.kernels,
                    id,
                ).contains(t@[j]))
        }),
{
    let id = identity_of(st.headers@, h);
    if let Some(t) = st.inputs {
        lemma_linked_complete(t@, id);
    }
    if let Some(t) = st.utxos {
        lemma_linked_complete(t@, id);
    }
    if let Some(t) = st.kernels {
        lemma_linked_complete(t@, id);
    }
}

} // verus!
