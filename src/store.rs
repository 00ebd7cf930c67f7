//! Snapshots of the store's tables: the header table keyed by height, and
//! component tables of key/value records in stored key order.

use vstd::prelude::*;
use vstd::bytes::{spec_u64_from_le_bytes, u64_from_le_bytes};
use crate::linker::{key_less, key_lt, keys_ascending, lemma_key_lt_transitive};

verus! {

/// Heights strictly increase along the table.
pub open spec fn heights_ascending(s: Seq<(u64, Seq<u8>)>) -> bool {
    forall|i: int, j: int| 0 <= i < j < s.len() ==> s[i].0 < s[j].0
}

/// Some entry of the table has height `h`.
pub open spec fn has_height(s: Seq<(u64, Seq<u8>)>, h: u64) -> bool {
    exists|i: int| 0 <= i < s.len() && s[i].0 == h
}

/// The record stored at height `h`, where there is one.
pub open spec fn raw_for(s: Seq<(u64, Seq<u8>)>, h: u64) -> Seq<u8> {
    s[choose|i: int| 0 <= i < s.len() && s[i].0 == h].1
}

/// In an ascending table, the entry at `i` is the one `raw_for` finds.
pub proof fn lemma_raw_for_index(s: Seq<(u64, Seq<u8>)>, i: int)
    requires
        heights_ascending(s),
        0 <= i < s.len(),
    ensures
        has_height(s, s[i].0),
        raw_for(s, s[i].0) == s[i].1,
{
    let h = s[i].0;
    assert(has_height(s, h));
    let j = choose|j: int| 0 <= j < s.len() && s[j].0 == h;
    if j < i {
        assert(s[j].0 < s[i].0);
    } else if i < j {
        assert(s[i].0 < s[j].0);
    }
}

/// The height that a header table key spells: eight little-endian bytes.
pub fn height_from_key(k: &[u8]) -> (r: Option<u64>)
    ensures
        r == if k@.len() == 8 {
            Some(spec_u64_from_le_bytes(k@))
        } else {
            None::<u64>
        },
{
    if k.len() == 8 {
        Some(u64_from_le_bytes(k))
    } else {
        None
    }
}

/// One header record and the height it is stored under.
pub struct HeaderEntry {
    pub height: u64,
    pub raw: Vec<u8>,
}

/// The header table, ordered by height, one record per height.
pub struct HeaderTable {
    entries: Vec<HeaderEntry>,
}

impl View for HeaderTable {
    type V = Seq<(u64, Seq<u8>)>;

    closed spec fn view(&self) -> Seq<(u64, Seq<u8>)> {
        self.entries@.map_values(|e: HeaderEntry| (e.height, e.raw@))
    }
}

impl HeaderTable {
    pub open spec fn wf(&self) -> bool {
        heights_ascending(self@)
    }

    pub fn new() -> (t: HeaderTable)
        ensures
            t.wf(),
            t@ == Seq::<(u64, Seq<u8>)>::empty(),
    {
        HeaderTable { entries: Vec::new() }
    }

    pub fn len(&self) -> (n: usize)
        ensures
            n == self@.len(),
    {
        self.entries.len()
    }

    pub fn height_at(&self, i: usize) -> (h: u64)
        requires
            i < self@.len(),
        ensures
            h == self@[i as int].0,
    {
        self.entries[i].height
    }

    pub fn raw_at(&self, i: usize) -> (r: &Vec<u8>)
        requires
            i < self@.len(),
        ensures
            r@ == self@[i as int].1,
    {
        &self.entries[i].raw
    }

    /// Stores `raw` under `height`, replacing a record already there.
    pub fn insert(&mut self, height: u64, raw: Vec<u8>)
        requires
            old(self).wf(),
        ensures
            final(self).wf(),
            has_height(final(self)@, height),
            raw_for(final(self)@, height) == raw@,
            forall|k: u64|
                k != height ==> has_height(final(self)@, k) == has_height(old(self)@, k),
            forall|k: u64|
                k != height && has_height(old(self)@, k) ==> raw_for(final(self)@, k) == raw_for(
                    old(self)@,
                    k,
                ),
    {
        let ghost s0 = self@;
        let n = self.entries.len();
        // Records usually arrive in height order: start past the last one
        // when it lies below `height`.
        let mut i: usize = if n > 0 && self.entries[n - 1].height < height {
            n
        } else {
            0
        };
        assert forall|j: int| 0 <= j < i implies self@[j].0 < height by {
            if j < n - 1 {
                assert(self@[j].0 < self@[n - 1].0);
            }
        }
        while i < n && self.entries[i].height < height
            invariant
                n == self.entries@.len(),
                s0 == self@,
                i <= n,
                forall|j: int| 0 <= j < i ==> self@[j].0 < height,
            decreases n - i,
        {
            i = i + 1;
        }
        if i < n && self.entries[i].height == height {
            let ghost rv = raw@;
            self.entries.set(i, HeaderEntry { height, raw });
            assert(self@ =~= s0.update(i as int, (height, rv)));
        } else {
            let ghost rv = raw@;
            self.entries.insert(i, HeaderEntry { height, raw });
            assert(self@ =~= s0.insert(i as int, (height, rv)));
        }
        let ghost s1 = self@;
        assert(i == n || s0[i as int].0 >= height);
        assert forall|a: int, b: int| 0 <= a < b < s1.len() implies s1[a].0 < s1[b].0 by {
            if s1.len() == s0.len() {
            } else {
                if a < i && b > i {
                    assert(s1[b] == s0[b - 1]);
                }
                if a > i {
                    assert(s1[a] == s0[a - 1]);
                    assert(s1[b] == s0[b - 1]);
                }
                if a == i && b > i {
                    assert(s1[b] == s0[b - 1]);
                    assert(i < n);
                }
            }
        }
        proof {
            lemma_raw_for_index(s1, i as int);
        }
        assert forall|k: u64| k != height implies has_height(s1, k) == has_height(s0, k) by {
            if has_height(s0, k) {
                let j = choose|j: int| 0 <= j < s0.len() && s0[j].0 == k;
                if s1.len() == s0.len() {
                    assert(s1[j] == s0[j]);
                } else if j < i {
                    assert(s1[j] == s0[j]);
                } else {
                    assert(s1[j + 1] == s0[j]);
                }
            }
            if has_height(s1, k) {
                let j = choose|j: int| 0 <= j < s1.len() && s1[j].0 == k;
                if s1.len() == s0.len() {
                    assert(s1[j] == s0[j]);
                } else if j < i {
                    assert(s1[j] == s0[j]);
                } else {
                    assert(j != i);
                    assert(s1[j] == s0[j - 1]);
                }
            }
        }
        assert forall|k: u64| k != height && has_height(s0, k) implies raw_for(s1, k) == raw_for(
            s0,
            k,
        ) by {
            let j = choose|j: int| 0 <= j < s0.len() && s0[j].0 == k;
            lemma_raw_for_index(s0, j);
            if s1.len() == s0.len() || j < i {
                assert(s1[j] == s0[j]);
                lemma_raw_for_index(s1, j);
            } else {
                assert(s1[j + 1] == s0[j]);
                lemma_raw_for_index(s1, j + 1);
            }
        }
    }

    /// Index of the entry at height `h`, found by halving the table.
    pub fn position(&self, h: u64) -> (r: Option<usize>)
        requires
            self.wf(),
        ensures
            match r {
                Some(i) => i < self@.len() && self@[i as int].0 == h,
                None => !has_height(self@, h),
            },
    {
        let mut lo: usize = 0;
        let mut hi: usize = self.entries.len();
        while lo < hi
            invariant
                self.wf(),
                lo <= hi <= self@.len(),
                forall|j: int| 0 <= j < lo ==> self@[j].0 < h,
                forall|j: int| hi <= j < self@.len() ==> self@[j].0 > h,
            decreases hi - lo,
        {
            let mid = lo + (hi - lo) / 2;
            let m = self.entries[mid].height;
            if m == h {
                return Some(mid);
            } else if m < h {
                assert forall|j: int| 0 <= j < mid + 1 implies self@[j].0 < h by {
                    if j < mid {
                        assert(self@[j].0 < self@[mid as int].0);
                    }
                }
                lo = mid + 1;
            } else {
                assert forall|j: int| mid <= j < self@.len() implies self@[j].0 > h by {
                    if j > mid {
                        assert(self@[mid as int].0 < self@[j].0);
                    }
                }
                hi = mid;
            }
        }
        None
    }
}

/// A component table: key/value records in stored key order.
pub struct KvTable {
    entries: Vec<(Vec<u8>, Vec<u8>)>,
}

impl View for KvTable {
    type V = Seq<(Seq<u8>, Seq<u8>)>;

    closed spec fn view(&self) -> Seq<(Seq<u8>, Seq<u8>)> {
        self.entries@.map_values(|e: (Vec<u8>, Vec<u8>)| (e.0@, e.1@))
    }
}

impl KvTable {
    pub fn new() -> (t: KvTable)
        ensures
            t@ == Seq::<(Seq<u8>, Seq<u8>)>::empty(),
    {
        KvTable { entries: Vec::new() }
    }

    /// Keys strictly increase along the table, as a cursor walks them.
    pub open spec fn wf(&self) -> bool {
        keys_ascending(self@)
    }

    /// Appends a record after those already held, where its key sorts after
    /// theirs; otherwise leaves the table as it is and returns `false`.
    pub fn push(&mut self, key: Vec<u8>, value: Vec<u8>) -> (added: bool)
        requires
            old(self).wf(),
        ensures
            final(self).wf(),
            added == (old(self)@.len() == 0 || key_lt(old(self)@.last().0, key@)),
            added ==> final(self)@ == old(self)@.push((key@, value@)),
            !added ==> final(self)@ == old(self)@,
    {
        let n = self.entries.len();
        if n > 0 && !key_less(self.entries[n - 1].0.as_slice(), key.as_slice()) {
            return false;
        }
        let ghost s0 = self@;
        let ghost k = key@;
        let ghost v = value@;
        self.entries.push((key, value));
        assert(self@ =~= s0.push((k, v)));
        assert forall|i: int, j: int| 0 <= i < j < self@.len() implies key_lt(self@[i].0, self@[j].0) by {
            if j == n && i < n - 1 {
                lemma_key_lt_transitive(s0[i].0, s0[n - 1].0, k);
            }
        }
        true
    }

    pub fn len(&self) -> (n: usize)
        ensures
            n == self@.len(),
    {
        self.entries.len()
    }

    pub fn key_at(&self, i: usize) -> (k: &Vec<u8>)
        requires
            i < self@.len(),
        ensures
            k@ == self@[i as int].0,
    {
        &self.entries[i].0
    }

    pub fn value_at(&self, i: usize) -> (v: &Vec<u8>)
        requires
            i < self@.len(),
        ensures
            v@ == self@[i as int].1,
    {
        &self.entries[i].1
    }
}

/// The tables that queries read. A component table that the store lacks is
/// `None`; the header table is always there.
pub struct Store {
    pub headers: HeaderTable,
    pub utxos: Option<KvTable>,
    pub inputs: Option<KvTable>,
    pub kernels: Option<KvTable>,
}

/// An absent component table, or one whose keys ascend.
pub open spec fn table_wf(t: Option<KvTable>) -> bool {
    match t {
        Some(t) => t.wf(),
        None => true,
    }
}

impl Store {
    pub open spec fn wf(&self) -> bool {
        &&& self.headers.wf()
        &&& table_wf(self.utxos)
        &&& table_wf(self.inputs)
        &&& table_wf(self.kernels)
    }
}

} // verus!
