//! Prefix scans of the component tables: the records that belong to a block.

use vstd::prelude::*;
use crate::codec::{input_well_formed, kernel_well_formed, output_well_formed};
use crate::model::{input_matches, kernel_matches, output_matches, InputSummary, KernelSummary, OutputSummary};
use crate::records::{decode_input, decode_kernel, decode_output};
use crate::store::{table_wf, KvTable};

verus! {

/// `a` sorts strictly before `b`, byte by byte, a proper prefix first.
pub open spec fn key_lt(a: Seq<u8>, b: Seq<u8>) -> bool
    decreases a.len(),
{
    if a.len() == 0 {
        b.len() > 0
    } else if b.len() == 0 {
        false
    } else if a[0] != b[0] {
        a[0] < b[0]
    } else {
        key_lt(a.drop_first(), b.drop_first())
    }
}

/// Keys strictly increase along a component table.
pub open spec fn keys_ascending(t: Seq<(Seq<u8>, Seq<u8>)>) -> bool {
    forall|i: int, j: int| 0 <= i < j < t.len() ==> key_lt(t[i].0, t[j].0)
}

/// Sorting before is transitive.
pub proof fn lemma_key_lt_transitive(a: Seq<u8>, b: Seq<u8>, c: Seq<u8>)
    requires
        key_lt(a, b),
        key_lt(b, c),
    ensures
        key_lt(a, c),
    decreases a.len(),
{
    if a.len() > 0 && b.len() > 0 && c.len() > 0 && a[0] == b[0] && b[0] == c[0] {
        lemma_key_lt_transitive(a.drop_first(), b.drop_first(), c.drop_first());
    }
}

/// `k` begins with `p`.
pub open spec fn has_prefix(k: Seq<u8>, p: Seq<u8>) -> bool {
    p.len() <= k.len() && k.subrange(0, p.len() as int) == p
}

/// First index at or after `i` whose key does not sort before `p`, or the
/// table's length.
pub open spec fn seek_from(t: Seq<(Seq<u8>, Seq<u8>)>, p: Seq<u8>, i: int) -> int
    decreases t.len() - i,
{
    if i >= t.len() {
        t.len() as int
    } else if !key_lt(t[i].0, p) {
        i
    } else {
        seek_from(t, p, i + 1)
    }
}

/// First index at or after `i` whose key does not begin with `p`, or the
/// table's length.
pub open spec fn run_end(t: Seq<(Seq<u8>, Seq<u8>)>, p: Seq<u8>, i: int) -> int
    decreases t.len() - i,
{
    if i >= t.len() {
        t.len() as int
    } else if !has_prefix(t[i].0, p) {
        i
    } else {
        run_end(t, p, i + 1)
    }
}

/// The records that a prefix scan for `p` visits: from the first key not
/// below `p`, while keys begin with `p`.
pub open spec fn linked(t: Seq<(Seq<u8>, Seq<u8>)>, p: Seq<u8>) -> Seq<(Seq<u8>, Seq<u8>)> {
    t.subrange(seek_from(t, p, 0), run_end(t, p, seek_from(t, p, 0)))
}

/// The records of an optional table that a prefix scan for `p` visits; none
/// where the table is absent.
pub open spec fn linked_in(t: Option<KvTable>, p: Seq<u8>) -> Seq<(Seq<u8>, Seq<u8>)> {
    match t {
        Some(t) => linked(t@, p),
        None => Seq::empty(),
    }
}

proof fn lemma_seek_bounds(t: Seq<(Seq<u8>, Seq<u8>)>, p: Seq<u8>, i: int)
    requires
        0 <= i <= t.len(),
    ensures
        i <= seek_from(t, p, i) <= t.len(),
    decreases t.len() - i,
{
    if i < t.len() && key_lt(t[i].0, p) {
        lemma_seek_bounds(t, p, i + 1);
    }
}

proof fn lemma_run_bounds(t: Seq<(Seq<u8>, Seq<u8>)>, p: Seq<u8>, i: int)
    requires
        0 <= i <= t.len(),
    ensures
        i <= run_end(t, p, i) <= t.len(),
        forall|j: int| i <= j < run_end(t, p, i) ==> has_prefix(#[trigger] t[j].0, p),
    decreases t.len() - i,
{
    if i < t.len() && has_prefix(t[i].0, p) {
        lemma_run_bounds(t, p, i + 1);
    }
}

/// Every record that a prefix scan for `p` visits has a key that begins with `p`.
pub proof fn lemma_linked_prefix(t: Seq<(Seq<u8>, Seq<u8>)>, p: Seq<u8>)
    ensures
        forall|j: int| 0 <= j < linked(t, p).len() ==> has_prefix(#[trigger] linked(t, p)[j].0, p),
{
    lemma_seek_bounds(t, p, 0);
    let a = seek_from(t, p, 0);
    lemma_run_bounds(t, p, a);
    assert forall|j: int| 0 <= j < linked(t, p).len() implies has_prefix(#[trigger] linked(t, p)[j].0, p) by {
        assert(linked(t, p)[j] == t[a + j]);
    }
}

/// `a` sorts strictly before `b`.
pub fn key_less(a: &[u8], b: &[u8]) -> (r: bool)
    ensures
        r == key_lt(a@, b@),
{
    let n = a.len();
    let m = b.len();
    let mut i: usize = 0;
    assert(a@.skip(0) =~= a@);
    assert(b@.skip(0) =~= b@);
    while i < n && i < m && a[i] == b[i]
        invariant
            n == a@.len(),
            m == b@.len(),
            i <= n,
            i <= m,
            key_lt(a@, b@) == key_lt(a@.skip(i as int), b@.skip(i as int)),
        decreases n - i,
    {
        assert(a@.skip(i as int).drop_first() =~= a@.skip(i + 1));
        assert(b@.skip(i as int).drop_first() =~= b@.skip(i + 1));
        i = i + 1;
    }
    if i == n {
        i < m
    } else if i == m {
        false
    } else {
        a[i] < b[i]
    }
}

/// `k` begins with `p`.
pub fn starts_with(k: &[u8], p: &[u8]) -> (r: bool)
    ensures
        r == has_prefix(k@, p@),
{
    let n = p.len();
    if n > k.len() {
        return false;
    }
    let mut i: usize = 0;
    while i < n
        invariant
            n == p@.len(),
            n <= k@.len(),
            i <= n,
            forall|j: int| 0 <= j < i ==> k@[j] == p@[j],
        decreases n - i,
    {
        if k[i] != p[i] {
            assert(k@.subrange(0, n as int)[i as int] != p@[i as int]);
            return false;
        }
        i = i + 1;
    }
    assert(k@.subrange(0, n as int) =~= p@);
    true
}

/// Where every entry before `lo` sorts below `p` and the one at `lo`, if
/// any, does not, the seek lands on `lo`.
proof fn lemma_seek_lands(t: Seq<(Seq<u8>, Seq<u8>)>, p: Seq<u8>, i: int, lo: int)
    requires
        0 <= i <= lo <= t.len(),
        forall|j: int| 0 <= j < lo ==> key_lt(#[trigger] t[j].0, p),
        lo < t.len() ==> !key_lt(t[lo].0, p),
    ensures
        seek_from(t, p, i) == lo,
    decreases lo - i,
{
    if i < lo {
        lemma_seek_lands(t, p, i + 1, lo);
    }
}

/// Bounds of the records that a prefix scan for `p` visits. The first key not
/// below `p` is found by halving the table.
pub fn prefix_run(t: &KvTable, p: &[u8]) -> (r: (usize, usize))
    requires
        t.wf(),
    ensures
        r.0 == seek_from(t@, p@, 0),
        r.1 == run_end(t@, p@, r.0 as int),
        r.0 <= r.1 <= t@.len(),
{
    let n = t.len();
    let mut lo: usize = 0;
    let mut hi: usize = n;
    while lo < hi
        invariant
            t.wf(),
            n == t@.len(),
            lo <= hi <= n,
            forall|j: int| 0 <= j < lo ==> key_lt(#[trigger] t@[j].0, p@),
            forall|j: int| hi <= j < n ==> !key_lt(#[trigger] t@[j].0, p@),
        decreases hi - lo,
    {
        let mid = lo + (hi - lo) / 2;
        if key_less(t.key_at(mid).as_slice(), p) {
            assert forall|j: int| 0 <= j < mid + 1 implies key_lt(#[trigger] t@[j].0, p@) by {
                if j < mid {
                    lemma_key_lt_transitive(t@[j].0, t@[mid as int].0, p@);
                }
            }
            lo = mid + 1;
        } else {
            assert forall|j: int| mid <= j < n implies !key_lt(#[trigger] t@[j].0, p@) by {
                if j > mid && key_lt(t@[j].0, p@) {
                    lemma_key_lt_transitive(t@[mid as int].0, t@[j].0, p@);
                }
            }
            hi = mid;
        }
    }
    proof {
        lemma_seek_lands(t@, p@, 0, lo as int);
    }
    let i = lo;
    let mut j: usize = i;
    while j < n && starts_with(t.key_at(j).as_slice(), p)
        invariant
            n == t@.len(),
            i <= j <= n,
            run_end(t@, p@, i as int) == run_end(t@, p@, j as int),
        decreases n - j,
    {
        j = j + 1;
    }
    (i, j)
}

/// Inputs of the block whose identity is `id`, in stored order.
pub fn link_inputs(t: &Option<KvTable>, id: &[u8]) -> (r: Result<Vec<InputSummary>, ()>)
    requires
        table_wf(*t),
    ensures
        match r {
            Ok(v) => v@.len() == linked_in(*t, id@).len() && forall|j: int|
                0 <= j < v@.len() ==> input_matches(#[trigger] v@[j], linked_in(*t, id@)[j].1),
            Err(_) => exists|j: int|
                0 <= j < linked_in(*t, id@).len() && !input_well_formed(
                    #[trigger] linked_in(*t, id@)[j].1,
                ),
        },
        r.is_ok() == forall|j: int|
            0 <= j < linked_in(*t, id@).len() ==> input_well_formed(#[trigger] linked_in(*t, id@)[j].1),
{
    let mut out: Vec<InputSummary> = Vec::new();
    match t {
        None => Ok(out),
        Some(table) => {
            let (a, b) = prefix_run(table, id);
            let ghost l = linked(table@, id@);
            assert(linked_in(*t, id@) == l);
            let mut k: usize = a;
            while k < b
                invariant
                    a <= k <= b <= table@.len(),
                    l == table@.subrange(a as int, b as int),
                    l == linked_in(*t, id@),
                    out@.len() == k - a,
                    forall|j: int| 0 <= j < out@.len() ==> input_matches(#[trigger] out@[j], l[j].1),
                    forall|j: int| 0 <= j < k - a ==> input_well_formed(#[trigger] l[j].1),
                decreases b - k,
            {
                match decode_input(table.value_at(k).as_slice()) {
                    Ok(s) => out.push(s),
                    Err(_) => {
                        assert(!input_well_formed(l[k - a].1));
                        assert(!input_well_formed(linked_in(*t, id@)[k - a].1));
                        return Err(());
                    },
                }
                k = k + 1;
            }
            Ok(out)
        },
    }
}

/// Outputs of the block whose identity is `id`, in stored order.
pub fn link_outputs(t: &Option<KvTable>, id: &[u8]) -> (r: Result<Vec<OutputSummary>, ()>)
    requires
        table_wf(*t),
    ensures
        match r {
            Ok(v) => v@.len() == linked_in(*t, id@).len() && forall|j: int|
                0 <= j < v@.len() ==> output_matches(#[trigger] v@[j], linked_in(*t, id@)[j].1),
            Err(_) => exists|j: int|
                0 <= j < linked_in(*t, id@).len() && !output_well_formed(
                    #[trigger] linked_in(*t, id@)[j].1,
                ),
        },
        r.is_ok() == forall|j: int|
            0 <= j < linked_in(*t, id@).len() ==> output_well_formed(#[trigger] linked_in(*t, id@)[j].1),
{
    let mut out: Vec<OutputSummary> = Vec::new();
    match t {
        None => Ok(out),
        Some(table) => {
            let (a, b) = prefix_run(table, id);
            let ghost l = linked(table@, id@);
            assert(linked_in(*t, id@) == l);
            let mut k: usize = a;
            while k < b
                invariant
                    a <= k <= b <= table@.len(),
                    l == table@.subrange(a as int, b as int),
                    l == linked_in(*t, id@),
                    out@.len() == k - a,
                    forall|j: int| 0 <= j < out@.len() ==> output_matches(#[trigger] out@[j], l[j].1),
                    forall|j: int| 0 <= j < k - a ==> output_well_formed(#[trigger] l[j].1),
                decreases b - k,
            {
                match decode_output(table.value_at(k).as_slice()) {
                    Ok(s) => out.push(s),
                    Err(_) => {
                        assert(!output_well_formed(l[k - a].1));
                        assert(!output_well_formed(linked_in(*t, id@)[k - a].1));
                        return Err(());
                    },
                }
                k = k + 1;
            }
            Ok(out)
        },
    }
}

/// Kernels of the block whose identity is `id`, in stored order.
pub fn link_kernels(t: &Option<KvTable>, id: &[u8]) -> (r: Result<Vec<KernelSummary>, ()>)
    requires
        table_wf(*t),
    ensures
        match r {
            Ok(v) => v@.len() == linked_in(*t, id@).len() && forall|j: int|
                0 <= j < v@.len() ==> kernel_matches(#[trigger] v@[j], linked_in(*t, id@)[j].1),
            Err(_) => exists|j: int|
                0 <= j < linked_in(*t, id@).len() && !kernel_well_formed(
                    #[trigger] linked_in(*t, id@)[j].1,
                ),
        },
        r.is_ok() == forall|j: int|
            0 <= j < linked_in(*t, id@).len() ==> kernel_well_formed(#[trigger] linked_in(*t, id@)[j].1),
{
    let mut out: Vec<KernelSummary> = Vec::new();
    match t {
        None => Ok(out),
        Some(table) => {
            let (a, b) = prefix_run(table, id);
            let ghost l = linked(table@, id@);
            assert(linked_in(*t, id@) == l);
            let mut k: usize = a;
            while k < b
                invariant
                    a <= k <= b <= table@.len(),
                    l == table@.subrange(a as int, b as int),
                    l == linked_in(*t, id@),
                    out@.len() == k - a,
                    forall|j: int| 0 <= j < out@.len() ==> kernel_matches(#[trigger] out@[j], l[j].1),
                    forall|j: int| 0 <= j < k - a ==> kernel_well_formed(#[trigger] l[j].1),
                decreases b - k,
            {
                match decode_kernel(table.value_at(k).as_slice()) {
                    Ok(s) => out.push(s),
                    Err(_) => {
                        assert(!kernel_well_formed(l[k - a].1));
                        assert(!kernel_well_formed(linked_in(*t, id@)[k - a].1));
                        return Err(());
                    },
                }
                k = k + 1;
            }
            Ok(out)
        },
    }
}

} // verus!
