//! Detail lookups, hash search and bounded counting.

use vstd::prelude::*;
use crate::codec::{decode_block_header, 
    hex_seq, header_well_formed, input_well_formed, kernel_well_formed, output_well_formed, to_hex,
};
use crate::identity::{block_identity, identity_of};
use crate::linker::{link_inputs, link_kernels, link_outputs, linked_in};
use crate::listing::{read_lmdb_headers_with_filter, listable, select, summaries_match, QueryError};
use crate::model::{
    input_matches, kernel_matches, lite_matches, output_matches, BlockDetailSummary, BlockFilter,
    BlockSummary, DatabaseStats, TransactionSummary,
};
use crate::records::decode_header_lite;
use crate::store::{has_height, lemma_raw_for_index, raw_for, HeaderTable, KvTable, Store};

verus! {

/// Entries past which a count stops: a count that reaches it means "at least
/// this many".
pub const COUNT_CAP: usize = 10_000_000;

/// Every component record that the scan for block `h` visits decodes.
pub open spec fn components_decode(st: Store, h: u64) -> bool {
    let id = identity_of(st.headers@, h);
    &&& forall|j: int|
        0 <= j < linked_in(st.inputs, id).len() ==> input_well_formed(
            #[trigger] linked_in(st.inputs, id)[j].1,
        )
    &&& forall|j: int|
        0 <= j < linked_in(st.utxos, id).len() ==> output_well_formed(
            #[trigger] linked_in(st.utxos, id)[j].1,
        )
    &&& forall|j: int|
        0 <= j < linked_in(st.kernels, id).len() ==> kernel_well_formed(
            #[trigger] linked_in(st.kernels, id)[j].1,
        )
}

/// A detail query for height `h` succeeds: the header is there and decodes,
/// and so does every component record linked to it.
pub open spec fn detail_ok(st: Store, h: u64) -> bool {
    &&& has_height(st.headers@, h)
    &&& header_well_formed(raw_for(st.headers@, h))
    &&& components_decode(st, h)
}

/// `d` shows block `h` of `st` with the component records linked to it.
pub open spec fn detail_matches(st: Store, h: u64, d: BlockDetailSummary) -> bool {
    let id = identity_of(st.headers@, h);
    let ins = linked_in(st.inputs, id);
    let outs = linked_in(st.utxos, id);
    let ks = linked_in(st.kernels, id);
    &&& d.height == h
    &&& d.hash@ == hex_seq(id)
    &&& lite_matches(d.header, raw_for(st.headers@, h))
    &&& d.transactions.inputs@.len() == ins.len()
    &&& forall|j: int|
        0 <= j < ins.len() ==> input_matches(#[trigger] d.transactions.inputs@[j], ins[j].1)
    &&& d.transactions.outputs@.len() == outs.len()
    &&& forall|j: int|
        0 <= j < outs.len() ==> output_matches(#[trigger] d.transactions.outputs@[j], outs[j].1)
    &&& d.transactions.kernels@.len() == ks.len()
    &&& forall|j: int|
        0 <= j < ks.len() ==> kernel_matches(#[trigger] d.transactions.kernels@[j], ks[j].1)
}

/// The block at `height` with its transaction components.
pub fn read_block_with_transactions(st: &Store, height: u64) -> (r: Result<BlockDetailSummary, QueryError>)
    requires
        st.wf(),
    ensures
        match r {
            Ok(d) => detail_ok(*st, height) && detail_matches(*st, height, d),
            Err(QueryError::NotFound) => !has_height(st.headers@, height),
            Err(QueryError::Decode) => has_height(st.headers@, height) && !detail_ok(*st, height),
            Err(QueryError::InvalidRange) => false,
        },
{
    let p = match st.headers.position(height) {
        Some(p) => p,
        None => return Err(QueryError::NotFound),
    };
    proof {
        lemma_raw_for_index(st.headers@, p as int);
    }
    let header = match decode_header_lite(st.headers.raw_at(p).as_slice()) {
        Ok(l) => l,
        Err(_) => return Err(QueryError::Decode),
    };
    let id = block_identity(&st.headers, p);
    let inputs = match link_inputs(&st.inputs, id.as_slice()) {
        Ok(v) => v,
        Err(_) => return Err(QueryError::Decode),
    };
    let outputs = match link_outputs(&st.utxos, id.as_slice()) {
        Ok(v) => v,
        Err(_) => return Err(QueryError::Decode),
    };
    let kernels = match link_kernels(&st.kernels, id.as_slice()) {
        Ok(v) => v,
        Err(_) => return Err(QueryError::Decode),
    };
    Ok(BlockDetailSummary {
        height,
        hash: to_hex(id.as_slice()),
        header,
        transactions: TransactionSummary { inputs, outputs, kernels },
    })
}

/// A character with ASCII upper case folded to lower case, as a code point.
pub open spec fn fold_case(c: char) -> int {
    if 'A' <= c <= 'Z' {
        c as int + 32
    } else {
        c as int
    }
}

/// `a` and `b` are equal but for the case of ASCII letters.
pub open spec fn eq_ignore_case(a: Seq<char>, b: Seq<char>) -> bool {
    a.len() == b.len() && forall|i: int| 0 <= i < a.len() ==> fold_case(a[i]) == fold_case(b[i])
}

fn fold_char(c: char) -> (r: u32)
    ensures
        r == fold_case(c),
{
    if 'A' <= c && c <= 'Z' {
        c as u32 + 32
    } else {
        c as u32
    }
}

/// `a` and `b` are equal but for the case of ASCII letters.
pub fn same_ignoring_case(a: &str, b: &str) -> (r: bool)
    ensures
        r == eq_ignore_case(a@, b@),
{
    let n = a.unicode_len();
    if n != b.unicode_len() {
        return false;
    }
    let mut i: usize = 0;
    while i < n
        invariant
            n == a@.len(),
            n == b@.len(),
            i <= n,
            forall|j: int| 0 <= j < i ==> fold_case(a@[j]) == fold_case(b@[j]),
        decreases n - i,
    {
        if fold_char(a.get_char(i)) != fold_char(b.get_char(i)) {
            return false;
        }
        i = i + 1;
    }
    true
}

/// Entry `i` of the header table decodes and its identity, in hex, equals
/// `target` but for case.
pub open spec fn hash_hit(s: Seq<(u64, Seq<u8>)>, i: int, target: Seq<char>) -> bool {
    header_well_formed(s[i].1) && eq_ignore_case(hex_seq(identity_of(s, s[i].0)), target)
}

/// `i` is the first entry of the header table that `hash_hit` holds of.
pub open spec fn first_hit(s: Seq<(u64, Seq<u8>)>, i: int, target: Seq<char>) -> bool {
    &&& 0 <= i < s.len()
    &&& hash_hit(s, i, target)
    &&& forall|j: int| 0 <= j < i ==> !hash_hit(s, j, target)
}

/// Height of the first block, in table order, whose identity in hex equals
/// `target` but for case.
pub fn find_height_by_hash(st: &Store, target: &str) -> (r: Option<u64>)
    requires
        st.wf(),
    ensures
        match r {
            Some(h) => exists|i: int| first_hit(st.headers@, i, target@) && st.headers@[i].0 == h,
            None => forall|i: int| 0 <= i < st.headers@.len() ==> !hash_hit(st.headers@, i, target@),
        },
{
    let n = st.headers.len();
    let mut i: usize = 0;
    while i < n
        invariant
            st.headers.wf(),
            n == st.headers@.len(),
            i <= n,
            forall|j: int| 0 <= j < i ==> !hash_hit(st.headers@, j, target@),
        decreases n - i,
    {
        if decode_block_header(st.headers.raw_at(i).as_slice()).is_ok() {
            let id = block_identity(&st.headers, i);
            let hex = to_hex(id.as_slice());
            if same_ignoring_case(hex.as_str(), target) {
                let h = st.headers.height_at(i);
                assert(hash_hit(st.headers@, i as int, target@));
                assert(first_hit(st.headers@, i as int, target@) && st.headers@[i as int].0 == h);
                return Some(h);
            }
        }
        i = i + 1;
    }
    None
}

/// What a hash search for `target` may answer: none where no block
/// matches; else the detail of the first block that matches, or `Decode`
/// where that detail cannot be given.
pub open spec fn search_result_ok(
    st: Store,
    target: Seq<char>,
    r: Result<Option<BlockDetailSummary>, QueryError>,
) -> bool {
    match r {
        Ok(None) => forall|i: int| 0 <= i < st.headers@.len() ==> !hash_hit(st.headers@, i, target),
        Ok(Some(d)) => exists|i: int|
            first_hit(st.headers@, i, target) && st.headers@[i].0 == d.height && detail_ok(st, d.height)
                && detail_matches(st, d.height, d),
        Err(e) => e == QueryError::Decode && exists|i: int|
            first_hit(st.headers@, i, target) && !detail_ok(st, st.headers@[i].0),
    }
}

/// The first block, in table order, whose identity in hex equals `target`
/// but for case, with its transaction components.
pub fn search_block_by_hash(st: &Store, target: &str) -> (r: Result<Option<BlockDetailSummary>, QueryError>)
    requires
        st.wf(),
    ensures
        search_result_ok(*st, target@, r),
{
    match find_height_by_hash(st, target) {
        None => Ok(None),
        Some(h) => {
            let ghost i = choose|i: int| first_hit(st.headers@, i, target@) && st.headers@[i].0 == h;
            proof {
                lemma_raw_for_index(st.headers@, i);
            }
            match read_block_with_transactions(st, h) {
                Ok(d) => Ok(Some(d)),
                Err(e) => Err(e),
            }
        },
    }
}

/// Number of entries in `t`, counting no further than `cap`.
pub fn count_database_entries(t: &KvTable, cap: usize) -> (r: usize)
    ensures
        r == if t@.len() < cap {
            t@.len() as int
        } else {
            cap as int
        },
{
    let n = t.len();
    let mut count: usize = 0;
    while count < cap && count < n
        invariant
            count <= cap,
            count <= n,
            n == t@.len(),
        decreases n - count,
    {
        count = count + 1;
    }
    count
}

/// Number of entries in an optional table, counting no further than `cap`;
/// none where the table is absent.
pub fn count_table(t: &Option<KvTable>, cap: usize) -> (r: usize)
    ensures
        r == match t {
            Some(t) => if t@.len() < cap {
                t@.len() as int
            } else {
                cap as int
            },
            None => 0,
        },
{
    match t {
        Some(t) => count_database_entries(t, cap),
        None => 0,
    }
}

/// Entries of an optional table; none where the table is absent.
pub open spec fn table_len(t: Option<KvTable>) -> int {
    match t {
        Some(t) => t@.len() as int,
        None => 0,
    }
}

/// Entries of an optional table; none where the table is absent.
pub fn table_length(t: &Option<KvTable>) -> (r: usize)
    ensures
        r == table_len(*t),
{
    match t {
        Some(t) => t.len(),
        None => 0,
    }
}

/// Counts of the component tables, every entry counted, as a dashboard
/// shows them.
pub fn dashboard_stats(st: &Store) -> (r: DatabaseStats)
    requires
        table_len(st.utxos) + table_len(st.inputs) <= usize::MAX,
    ensures
        r.utxos_count == table_len(st.utxos),
        r.inputs_count == table_len(st.inputs),
        r.kernels_count == table_len(st.kernels),
        r.total_transactions == r.kernels_count,
        r.total_io_records == r.utxos_count + r.inputs_count,
{
    let utxos_count = table_length(&st.utxos);
    let inputs_count = table_length(&st.inputs);
    let kernels_count = table_length(&st.kernels);
    DatabaseStats {
        utxos_count,
        inputs_count,
        kernels_count,
        total_transactions: kernels_count,
        total_io_records: utxos_count + inputs_count,
    }
}

/// Counts of the component tables, each capped at `COUNT_CAP`.
pub fn database_stats(st: &Store) -> (r: DatabaseStats)
    ensures
        r.utxos_count == count_table_spec(st.utxos),
        r.inputs_count == count_table_spec(st.inputs),
        r.kernels_count == count_table_spec(st.kernels),
        r.total_transactions == r.kernels_count,
        r.total_io_records == r.utxos_count + r.inputs_count,
{
    let utxos_count = count_table(&st.utxos, COUNT_CAP);
    let inputs_count = count_table(&st.inputs, COUNT_CAP);
    let kernels_count = count_table(&st.kernels, COUNT_CAP);
    DatabaseStats {
        utxos_count,
        inputs_count,
        kernels_count,
        total_transactions: kernels_count,
        total_io_records: utxos_count + inputs_count,
    }
}

/// Entries of an optional table, capped at `COUNT_CAP`; none where the table
/// is absent.
pub open spec fn count_table_spec(t: Option<KvTable>) -> int {
    match t {
        Some(t) => if t@.len() < COUNT_CAP {
            t@.len() as int
        } else {
            COUNT_CAP as int
        },
        None => 0,
    }
}

/// Summaries of the ten highest headers that decode, in ascending height order.
pub fn read_lmdb_headers(t: &HeaderTable) -> (r: Vec<BlockSummary>)
    requires
        t.wf(),
    ensures
        summaries_match(r@, t@, select(listable(t@), BlockFilter::LastN(10))),
{
    match read_lmdb_headers_with_filter(t, BlockFilter::LastN(10)) {
        Ok(v) => v,
        Err(_) => Vec::new(),
    }
}

} // verus!
