use ledger_inspect::codec::{decode_block_header, DecodeError, HEADER_FIXED_LEN};
use ledger_inspect::identity::resolve_identity;
use ledger_inspect::listing::{read_lmdb_headers_with_filter, QueryError};
use ledger_inspect::model::{BlockFilter, BlockSummary, DatabaseStats};
use ledger_inspect::queries::{
    count_database_entries, count_table, dashboard_stats, database_stats, read_block_with_transactions, find_height_by_hash, read_lmdb_headers,
    same_ignoring_case, search_block_by_hash,
};
use ledger_inspect::records::{decode_input, decode_kernel, decode_output};
use ledger_inspect::store::{height_from_key, HeaderTable, KvTable, Store};

fn header_bytes(height: u64, timestamp: u64, prev: [u8; 32], pow_data: &[u8]) -> Vec<u8> {
    let mut b = Vec::new();
    b.extend_from_slice(&height.to_le_bytes());
    b.extend_from_slice(&3u16.to_le_bytes());
    b.extend_from_slice(&timestamp.to_le_bytes());
    b.extend_from_slice(&(height * 7).to_le_bytes());
    b.extend_from_slice(&prev);
    for tag in 1u8..=5 {
        b.extend_from_slice(&[tag; 32]);
    }
    b.push(1);
    b.extend_from_slice(&(pow_data.len() as u64).to_le_bytes());
    b.extend_from_slice(pow_data);
    b
}

fn link(n: u8) -> [u8; 32] {
    [n; 32]
}

/// Headers at the given heights; the header at `h` links back to `link(h - 1)`.
fn table(heights: &[u64]) -> HeaderTable {
    let mut t = HeaderTable::new();
    for &h in heights {
        t.insert(h, header_bytes(h, 1_000 + h * 60, link((h as u8).wrapping_sub(1)), &[]));
    }
    t
}

fn input_record(c: u8, kind: u8) -> Vec<u8> {
    let mut v = vec![c; 32];
    v.push(kind);
    v
}

fn output_record(c: u8, kind: u8, script: &[u8]) -> Vec<u8> {
    let mut v = vec![c; 32];
    v.push(kind);
    v.extend_from_slice(script);
    v
}

fn kernel_record(c: u8, fee: u64, lock: u64) -> Vec<u8> {
    let mut v = vec![c; 32];
    v.extend_from_slice(&fee.to_le_bytes());
    v.extend_from_slice(&lock.to_le_bytes());
    v
}

fn key(prefix: [u8; 32], n: u8) -> Vec<u8> {
    let mut k = prefix.to_vec();
    k.push(n);
    k
}

fn heights(v: &[BlockSummary]) -> Vec<u64> {
    v.iter().map(|b| b.height).collect()
}

fn store_with(headers: HeaderTable) -> Store {
    Store { headers, utxos: None, inputs: None, kernels: None }
}

#[test]
fn header_decodes_each_field() {
    let b = header_bytes(42, 1_700_000_000, link(9), &[1, 2, 3]);
    assert_eq!(b.len(), HEADER_FIXED_LEN + 3);
    let h = decode_block_header(&b).unwrap();
    assert_eq!(h.height, 42);
    assert_eq!(h.version, 3);
    assert_eq!(h.timestamp, 1_700_000_000);
    assert_eq!(h.nonce, 294);
    assert_eq!(h.prev_hash, vec![9u8; 32]);
    assert_eq!(h.output_mr, vec![1u8; 32]);
    assert_eq!(h.total_script_offset, vec![5u8; 32]);
    assert_eq!(h.pow_algo, 1);
    assert_eq!(h.pow_data, vec![1, 2, 3]);
}

#[test]
fn header_with_bad_layout_is_refused() {
    let b = header_bytes(1, 1, link(0), &[7]);
    assert_eq!(decode_block_header(&b[..100]).err(), Some(DecodeError));
    let mut extra = b.clone();
    extra.push(0);
    assert!(decode_block_header(&extra).is_err());
    let mut algo = b.clone();
    algo[218] = 3;
    assert!(decode_block_header(&algo).is_err());
}

#[test]
fn header_lite_shows_hex_fields() {
    let t = table(&[5]);
    let v = read_lmdb_headers_with_filter(&t, BlockFilter::LastN(1)).unwrap();
    let h = &v[0].header;
    assert_eq!(h.previous_hash, "04".repeat(32));
    assert_eq!(h.output_mr, "01".repeat(32));
    assert_eq!(h.pow_data_hash, "empty");
    assert_eq!(h.pow_algorithm, "Sha3x");
    assert_eq!(h.raw_header_length, HEADER_FIXED_LEN);
    assert_eq!(h.timestamp, 1_300);
}

#[test]
fn hex_is_lower_case_two_digits_per_byte() {
    let mut record = vec![0x00u8, 0xab, 0x5f];
    record.extend_from_slice(&[0x0f; 29]);
    record.push(0);
    let i = decode_input(&record).unwrap();
    assert_eq!(&i.commitment[..6], "00ab5f");
    assert_eq!(i.commitment.len(), 64);
    let o = decode_output(&output_record(1, 0, &[])).unwrap();
    assert_eq!(o.script_type, "");
}

#[test]
fn identity_comes_from_successor_link() {
    let next = header_bytes(2, 5, link(77), &[]);
    let own = header_bytes(1, 4, link(0), &[]);
    assert_eq!(resolve_identity(Some(&next), &own), vec![77u8; 32]);
}

#[test]
fn identity_at_tip_is_content_hash() {
    let own = header_bytes(1, 4, link(0), &[]);
    let expected = blake3::hash(&own).as_bytes().to_vec();
    assert_eq!(resolve_identity(None, &own), expected);
    assert_eq!(resolve_identity(None, &own), resolve_identity(None, &own));
}

#[test]
fn identity_falls_back_when_successor_is_corrupt() {
    let own = header_bytes(1, 4, link(0), &[]);
    let expected = blake3::hash(&own).as_bytes().to_vec();
    assert_eq!(resolve_identity(Some(&[1, 2, 3]), &own), expected);
}

#[test]
fn listing_reports_reconciled_hashes() {
    let t = table(&[1, 2, 3]);
    let v = read_lmdb_headers_with_filter(&t, BlockFilter::LastN(10)).unwrap();
    assert_eq!(v[0].hash, "01".repeat(32));
    assert_eq!(v[1].hash, "02".repeat(32));
    let tip = header_bytes(3, 1_180, link(2), &[]);
    assert_eq!(v[2].hash, hex::encode(blake3::hash(&tip).as_bytes()));
}

#[test]
fn last_n_keeps_highest_in_ascending_order() {
    let t = table(&[100, 101, 102, 103]);
    assert_eq!(heights(&read_lmdb_headers_with_filter(&t, BlockFilter::LastN(2)).unwrap()), vec![102, 103]);
    assert_eq!(heights(&read_lmdb_headers_with_filter(&t, BlockFilter::LastN(10)).unwrap()), vec![100, 101, 102, 103]);
    assert!(read_lmdb_headers_with_filter(&t, BlockFilter::LastN(0)).unwrap().is_empty());
}

#[test]
fn range_keeps_heights_inside_bounds() {
    let t = table(&[100, 101, 102, 103]);
    assert_eq!(heights(&read_lmdb_headers_with_filter(&t, BlockFilter::Range(101, 102)).unwrap()), vec![101, 102]);
    assert_eq!(heights(&read_lmdb_headers_with_filter(&t, BlockFilter::Range(0, 100)).unwrap()), vec![100]);
    assert!(read_lmdb_headers_with_filter(&t, BlockFilter::Range(200, 300)).unwrap().is_empty());
}

#[test]
fn range_with_start_after_end_is_rejected() {
    let t = table(&[1, 2]);
    assert_eq!(read_lmdb_headers_with_filter(&t, BlockFilter::Range(5, 3)).err(), Some(QueryError::InvalidRange));
}

#[test]
fn specific_height_found_or_empty() {
    let t = table(&[100, 101, 102]);
    assert_eq!(heights(&read_lmdb_headers_with_filter(&t, BlockFilter::Specific(101)).unwrap()), vec![101]);
    assert!(read_lmdb_headers_with_filter(&t, BlockFilter::Specific(999)).unwrap().is_empty());
}

#[test]
fn corrupt_header_is_skipped_in_listing() {
    let mut t = table(&[1, 2, 3]);
    t.insert(2, vec![0u8; 10]);
    assert_eq!(heights(&read_lmdb_headers_with_filter(&t, BlockFilter::LastN(10)).unwrap()), vec![1, 3]);
}

#[test]
fn insert_keeps_heights_sorted_and_replaces() {
    let mut t = HeaderTable::new();
    t.insert(9, header_bytes(9, 1, link(8), &[]));
    t.insert(3, header_bytes(3, 1, link(2), &[]));
    t.insert(5, header_bytes(5, 1, link(4), &[]));
    t.insert(5, header_bytes(5, 2, link(4), &[]));
    assert_eq!(t.len(), 3);
    assert_eq!((t.height_at(0), t.height_at(1), t.height_at(2)), (3, 5, 9));
    assert_eq!(t.position(5), Some(1));
    assert_eq!(t.position(4), None);
    assert_eq!(decode_block_header(t.raw_at(1)).unwrap().timestamp, 2);
}

#[test]
fn read_lmdb_headers_lists_last_ten() {
    let hs: Vec<u64> = (1..=12).collect();
    let t = table(&hs);
    assert_eq!(heights(&read_lmdb_headers(&t)), (3..=12).collect::<Vec<u64>>());
}

#[test]
fn repeated_queries_give_identical_results() {
    let t = table(&[10, 11, 12]);
    let a = read_lmdb_headers_with_filter(&t, BlockFilter::LastN(3)).unwrap();
    let b = read_lmdb_headers_with_filter(&t, BlockFilter::LastN(3)).unwrap();
    assert_eq!(heights(&a), heights(&b));
    for (x, y) in a.iter().zip(b.iter()) {
        assert_eq!(x.hash, y.hash);
        assert_eq!(x.header.previous_hash, y.header.previous_hash);
        assert_eq!(x.header.nonce, y.header.nonce);
    }
    let st = store_with(t);
    let d1 = read_block_with_transactions(&st, 11).unwrap();
    let d2 = read_block_with_transactions(&st, 11).unwrap();
    assert_eq!(d1.hash, d2.hash);
}

/// Headers at 100..=103; inputs, outputs and kernels each hold two records
/// keyed under block 101's identity, and one under block 100's.
fn scenario_store() -> Store {
    let headers = table(&[100, 101, 102, 103]);
    // The identity of 101 is the link that 102 carries: link(101).
    let id101 = link(101);
    let id100 = link(100);
    let mut inputs = KvTable::new();
    inputs.push(key(id100, 0), input_record(1, 0));
    inputs.push(key(id101, 0), input_record(2, 0));
    inputs.push(key(id101, 1), input_record(3, 1));
    inputs.push(key(link(200), 0), input_record(4, 0));
    let mut utxos = KvTable::new();
    utxos.push(key(id100, 0), output_record(5, 0, &[]));
    utxos.push(key(id101, 0), output_record(6, 1, &[0xaa]));
    utxos.push(key(id101, 1), output_record(7, 2, &[]));
    let mut kernels = KvTable::new();
    kernels.push(key(id101, 0), kernel_record(8, 25, 0));
    kernels.push(key(id101, 1), kernel_record(9, 30, 7));
    kernels.push(key(link(250), 0), kernel_record(10, 1, 1));
    Store { headers, utxos: Some(utxos), inputs: Some(inputs), kernels: Some(kernels) }
}

#[test]
fn detail_links_components_by_identity_prefix() {
    let st = scenario_store();
    let d = read_block_with_transactions(&st, 101).unwrap();
    assert_eq!(d.height, 101);
    assert_eq!(d.hash, hex::encode(link(101)));
    assert_eq!(d.transactions.inputs.len(), 2);
    assert_eq!(d.transactions.outputs.len(), 2);
    assert_eq!(d.transactions.kernels.len(), 2);
    assert_eq!(d.transactions.inputs[0].commitment, "02".repeat(32));
    assert_eq!(d.transactions.inputs[1].input_type, "WithOutputData");
    assert_eq!(d.transactions.outputs[0].features, "Coinbase");
    assert_eq!(d.transactions.outputs[0].script_type, "aa");
    assert_eq!(d.transactions.kernels[1].fee, 30);
    assert_eq!(d.transactions.kernels[1].lock_height, 7);
}

#[test]
fn detail_without_components_has_empty_lists() {
    let st = scenario_store();
    let d = read_block_with_transactions(&st, 102).unwrap();
    assert!(d.transactions.inputs.is_empty());
    assert!(d.transactions.outputs.is_empty());
    assert_eq!(d.transactions.kernels.len(), 0);
    let d = read_block_with_transactions(&st, 103).unwrap();
    assert!(d.transactions.inputs.is_empty());
}

#[test]
fn detail_of_absent_height_is_not_found() {
    let st = scenario_store();
    assert_eq!(read_block_with_transactions(&st, 999).err(), Some(QueryError::NotFound));
}

#[test]
fn detail_with_absent_tables_degrades_to_empty() {
    let st = store_with(table(&[1, 2]));
    let d = read_block_with_transactions(&st, 1).unwrap();
    assert!(d.transactions.inputs.is_empty());
    assert!(d.transactions.outputs.is_empty());
    assert!(d.transactions.kernels.is_empty());
}

#[test]
fn detail_with_corrupt_component_fails() {
    let mut st = scenario_store();
    let mut kernels = KvTable::new();
    kernels.push(key(link(101), 0), vec![1, 2, 3]);
    st.kernels = Some(kernels);
    assert_eq!(read_block_with_transactions(&st, 101).err(), Some(QueryError::Decode));
    let mut st = store_with(table(&[1, 2]));
    st.headers.insert(1, vec![0u8; 4]);
    assert_eq!(read_block_with_transactions(&st, 1).err(), Some(QueryError::Decode));
}

#[test]
fn search_by_hash_ignores_case() {
    let st = store_with(table(&[1, 2, 3, 4, 5]));
    // The identity of 3 is the link carried by 4: thirty-two bytes 0x03.
    let target = "0A".repeat(32);
    assert_eq!(find_height_by_hash(&st, &target), None);
    let mixed = "03".repeat(32);
    assert_eq!(find_height_by_hash(&st, &mixed), Some(3));
    let st2 = store_with(table(&[1, 2, 3, 4, 5]));
    let found = search_block_by_hash(&st2, &mixed).unwrap().unwrap();
    assert_eq!(found.height, 3);
}

#[test]
fn search_by_hash_mixed_case_letters() {
    let mut t = HeaderTable::new();
    for h in 1u64..=5 {
        t.insert(h, header_bytes(h, h, link(0xa0 + h as u8 - 1), &[]));
    }
    let st = store_with(t);
    // Block 3's identity is link(0xa3), carried by block 4.
    let upper = "A3".repeat(32);
    let mixed = "a3A3".repeat(16);
    assert_eq!(search_block_by_hash(&st, &upper).unwrap().unwrap().height, 3);
    assert_eq!(search_block_by_hash(&st, &mixed).unwrap().unwrap().height, 3);
    assert_eq!(search_block_by_hash(&st, "zz").unwrap().map(|d| d.height), None);
    assert!(search_block_by_hash(&st, &"ff".repeat(32)).unwrap().is_none());
}

#[test]
fn case_folding_compare() {
    assert!(same_ignoring_case("abCD", "ABcd"));
    assert!(!same_ignoring_case("abc", "abd"));
    assert!(!same_ignoring_case("abc", "ab"));
}

#[test]
fn count_of_empty_table_is_zero() {
    assert_eq!(count_database_entries(&KvTable::new(), 10_000_000), 0);
    assert_eq!(count_table(&None, 5), 0);
}

#[test]
fn count_stops_at_cap() {
    let mut t = KvTable::new();
    for i in 0u8..6 {
        t.push(vec![i], vec![]);
    }
    assert_eq!(count_database_entries(&t, 5), 5);
    assert_eq!(count_database_entries(&t, 6), 6);
    assert_eq!(count_database_entries(&t, 100), 6);
}

#[test]
fn stats_count_each_table() {
    let st = scenario_store();
    let s = database_stats(&st);
    assert_eq!(s.utxos_count, 3);
    assert_eq!(s.inputs_count, 4);
    assert_eq!(s.kernels_count, 3);
    assert_eq!(s.total_transactions, 3);
    assert_eq!(s.total_io_records, 7);
}

#[test]
fn component_records_decode() {
    let i = decode_input(&input_record(0xab, 1)).unwrap();
    assert_eq!(i.commitment, "ab".repeat(32));
    assert_eq!(i.input_type, "WithOutputData");
    assert!(decode_input(&input_record(1, 2)).is_err());
    let o = decode_output(&output_record(1, 4, &[0x10, 0x20])).unwrap();
    assert_eq!(o.features, "CodeTemplateRegistration");
    assert_eq!(o.script_type, "1020");
    assert!(decode_output(&[0u8; 32]).is_err());
    let k = decode_kernel(&kernel_record(2, 500, 9)).unwrap();
    assert_eq!((k.fee, k.lock_height), (500, 9));
    assert!(decode_kernel(&[0u8; 47]).is_err());
}

#[test]
fn height_keys_are_little_endian() {
    assert_eq!(height_from_key(&258u64.to_le_bytes()), Some(258));
    assert_eq!(height_from_key(&[1, 2, 3]), None);
}

#[test]
fn summary_from_raw_entry() {
    let v = header_bytes(77, 10, link(3), &[]);
    let b = BlockSummary::from_raw(&77u64.to_le_bytes(), &v).unwrap();
    assert_eq!(b.height, 77);
    assert_eq!(b.hash, blake3::hash(&v).to_hex().to_string());
    assert_eq!(b.header.previous_hash, "03".repeat(32));
    assert!(BlockSummary::from_raw(&[1, 2], &v).is_err());
    assert!(BlockSummary::from_raw(&77u64.to_le_bytes(), &v[..50]).is_err());
}

#[test]
fn default_stats_are_zero() {
    let s = DatabaseStats::default();
    assert_eq!(s, DatabaseStats { utxos_count: 0, inputs_count: 0, kernels_count: 0, total_transactions: 0, total_io_records: 0 });
}

#[test]
fn dashboard_stats_count_every_entry() {
    let st = scenario_store();
    let s = dashboard_stats(&st);
    assert_eq!((s.utxos_count, s.inputs_count, s.kernels_count), (3, 4, 3));
    assert_eq!((s.total_transactions, s.total_io_records), (3, 7));
    let mut big = KvTable::new();
    for i in 0u32..12 {
        assert!(big.push(i.to_be_bytes().to_vec(), vec![]));
    }
    let st = Store { headers: HeaderTable::new(), utxos: Some(big), inputs: None, kernels: None };
    assert_eq!(dashboard_stats(&st).utxos_count, 12);
    assert_eq!(count_table(&st.utxos, 10), 10);
}

#[test]
fn push_keeps_keys_ascending() {
    let mut t = KvTable::new();
    assert!(t.push(vec![1, 2], vec![9]));
    assert!(t.push(vec![1, 3], vec![9]));
    assert!(!t.push(vec![1, 3], vec![8]));
    assert!(!t.push(vec![1], vec![8]));
    assert!(t.push(vec![2], vec![7]));
    assert_eq!(t.len(), 3);
    assert_eq!(t.value_at(2), &vec![7]);
}
