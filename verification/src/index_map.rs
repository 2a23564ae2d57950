//! The bidirectional id-map of the store.
//!
//! One direction (`fwd`) takes an external identifier to the internal ids of
//! every vector pushed under it, in insertion order; the other (`inv`) takes
//! an internal id back to its external identifier. Deleting an identifier
//! removes it from `fwd` only: internal ids already embedded in a committed
//! graph must still resolve through `inv`, so that a reader can translate a
//! hit before the tombstone filter suppresses it.

use vstd::prelude::*;

use crate::errors::VectorError;
use crate::identifier::VectorIdentifier;

verus! {

/// The mathematical key of an external identifier: its view.
pub type XidKey = (u128, Seq<char>, u128, int, int);

/// One forward entry: an identifier and its internal ids, oldest first.
struct FwdEntry {
    key: VectorIdentifier,
    iids: Vec<u64>,
}

/// One inverse entry: an internal id and the identifier it was pushed under.
struct InvEntry {
    iid: u64,
    key: VectorIdentifier,
}

/// The internal ids mapped to `k`, or the empty sequence when `k` is absent.
pub open spec fn iids_of(m: Map<XidKey, Seq<u64>>, k: XidKey) -> Seq<u64> {
    if m.contains_key(k) {
        m[k]
    } else {
        Seq::<u64>::empty()
    }
}

/// The forward map after appending `i` under `k`.
pub open spec fn fwd_insert(m: Map<XidKey, Seq<u64>>, k: XidKey, i: u64) -> Map<XidKey, Seq<u64>> {
    m.insert(k, iids_of(m, k).push(i))
}

/// The forward map after a whole batch, first pair first.
pub open spec fn insert_all_fwd(m: Map<XidKey, Seq<u64>>, ks: Seq<XidKey>, is: Seq<u64>) -> Map<
    XidKey,
    Seq<u64>,
>
    recommends
        ks.len() == is.len(),
    decreases ks.len(),
{
    if ks.len() == 0 {
        m
    } else {
        insert_all_fwd(fwd_insert(m, ks[0], is[0]), ks.drop_first(), is.drop_first())
    }
}

/// The inverse map after a whole batch, first pair first.
pub open spec fn insert_all_inv(m: Map<u64, XidKey>, ks: Seq<XidKey>, is: Seq<u64>) -> Map<
    u64,
    XidKey,
>
    recommends
        ks.len() == is.len(),
    decreases ks.len(),
{
    if ks.len() == 0 {
        m
    } else {
        insert_all_inv(m.insert(is[0], ks[0]), ks.drop_first(), is.drop_first())
    }
}

/// One direction of the consistency of the two maps, at one listed id.
pub open spec fn resolves(
    fwdm: Map<XidKey, Seq<u64>>,
    invm: Map<u64, XidKey>,
    k: XidKey,
    j: int,
) -> bool {
    fwdm.contains_key(k) && 0 <= j < fwdm[k].len() ==> invm.contains_key(fwdm[k][j])
        && invm[fwdm[k][j]] == k
}

/// Both directions resolve each other: every internal id listed under an
/// identifier maps back to that identifier.
pub open spec fn consistent(fwdm: Map<XidKey, Seq<u64>>, invm: Map<u64, XidKey>) -> bool {
    forall|k: XidKey, j: int| #[trigger] resolves(fwdm, invm, k, j)
}

/// `i` has never been handed out: no direction knows it.
pub open spec fn fresh_iid(fwdm: Map<XidKey, Seq<u64>>, invm: Map<u64, XidKey>, i: u64) -> bool {
    &&& !invm.contains_key(i)
    &&& forall|k: XidKey| fwdm.contains_key(k) ==> !#[trigger] fwdm[k].contains(i)
}

spec fn fwd_map_of(s: Seq<FwdEntry>) -> Map<XidKey, Seq<u64>>
    decreases s.len(),
{
    if s.len() == 0 {
        Map::<XidKey, Seq<u64>>::empty()
    } else {
        fwd_map_of(s.drop_last()).insert(s.last().key@, s.last().iids@)
    }
}

spec fn inv_map_of(s: Seq<InvEntry>) -> Map<u64, XidKey>
    decreases s.len(),
{
    if s.len() == 0 {
        Map::<u64, XidKey>::empty()
    } else {
        inv_map_of(s.drop_last()).insert(s.last().iid, s.last().key@)
    }
}

spec fn key_at(s: Seq<FwdEntry>, i: int) -> XidKey {
    s[i].key@
}

spec fn iid_at(s: Seq<InvEntry>, i: int) -> u64 {
    s[i].iid
}

spec fn fwd_distinct(s: Seq<FwdEntry>) -> bool {
    forall|i: int, j: int| 0 <= i < j < s.len() ==> key_at(s, i) != key_at(s, j)
}

spec fn inv_distinct(s: Seq<InvEntry>) -> bool {
    forall|i: int, j: int| 0 <= i < j < s.len() ==> iid_at(s, i) != iid_at(s, j)
}

proof fn lemma_fwd_char(s: Seq<FwdEntry>)
    requires
        fwd_distinct(s),
    ensures
        forall|k: XidKey|
            #[trigger] fwd_map_of(s).contains_key(k) <==> exists|i: int|
                0 <= i < s.len() && key_at(s, i) == k,
        forall|i: int|
            #![trigger key_at(s, i)]
            0 <= i < s.len() ==> fwd_map_of(s).contains_key(key_at(s, i)) && fwd_map_of(s)[key_at(
                s,
                i,
            )] == s[i].iids@,
    decreases s.len(),
{
    if s.len() > 0 {
        let n = s.len() as int;
        assert forall|i: int, j: int|
            0 <= i < j < s.drop_last().len() implies key_at(s.drop_last(), i) != key_at(
            s.drop_last(),
            j,
        ) by {
            assert(s.drop_last()[i] == s[i]);
            assert(s.drop_last()[j] == s[j]);
            assert(key_at(s, i) != key_at(s, j));
        }
        lemma_fwd_char(s.drop_last());
        assert forall|k: XidKey| #[trigger] fwd_map_of(s).contains_key(k) implies exists|i: int|
            0 <= i < s.len() && key_at(s, i) == k by {
            if k == s.last().key@ {
                assert(key_at(s, n - 1) == k);
            } else {
                assert(fwd_map_of(s.drop_last()).contains_key(k));
                assert(exists|i: int|
                    0 <= i < s.drop_last().len() && key_at(s.drop_last(), i) == k);
                let i = choose|i: int| 0 <= i < s.drop_last().len() && key_at(s.drop_last(), i) == k;
                assert(s.drop_last()[i] == s[i]);
                assert(key_at(s, i) == k);
            }
        }
        assert forall|k: XidKey|
            (exists|i: int| 0 <= i < s.len() && key_at(s, i) == k) implies #[trigger] fwd_map_of(
            s,
        ).contains_key(k) by {
            let i = choose|i: int| 0 <= i < s.len() && key_at(s, i) == k;
            if i == n - 1 {
            } else {
                assert(s.drop_last()[i] == s[i]);
                assert(key_at(s.drop_last(), i) == k);
            }
        }
        assert forall|i: int| #![trigger key_at(s, i)] 0 <= i < s.len() implies fwd_map_of(
            s,
        ).contains_key(key_at(s, i)) && fwd_map_of(s)[key_at(s, i)] == s[i].iids@ by {
            if i < n - 1 {
                assert(key_at(s.drop_last(), i) == key_at(s, i));
                assert(s.drop_last()[i] == s[i]);
                assert(key_at(s, i) != key_at(s, n - 1));
            }
        }
    }
}

proof fn lemma_inv_char(s: Seq<InvEntry>)
    requires
        inv_distinct(s),
    ensures
        forall|k: u64|
            #[trigger] inv_map_of(s).contains_key(k) <==> exists|i: int|
                0 <= i < s.len() && iid_at(s, i) == k,
        forall|i: int|
            #![trigger iid_at(s, i)]
            0 <= i < s.len() ==> inv_map_of(s).contains_key(iid_at(s, i)) && inv_map_of(s)[iid_at(
                s,
                i,
            )] == s[i].key@,
    decreases s.len(),
{
    if s.len() > 0 {
        let n = s.len() as int;
        assert forall|i: int, j: int|
            0 <= i < j < s.drop_last().len() implies iid_at(s.drop_last(), i) != iid_at(
            s.drop_last(),
            j,
        ) by {
            assert(s.drop_last()[i] == s[i]);
            assert(s.drop_last()[j] == s[j]);
            assert(iid_at(s, i) != iid_at(s, j));
        }
        lemma_inv_char(s.drop_last());
        assert forall|k: u64| #[trigger] inv_map_of(s).contains_key(k) implies exists|i: int|
            0 <= i < s.len() && iid_at(s, i) == k by {
            if k == s.last().iid {
                assert(iid_at(s, n - 1) == k);
            } else {
                assert(inv_map_of(s.drop_last()).contains_key(k));
                assert(exists|i: int|
                    0 <= i < s.drop_last().len() && iid_at(s.drop_last(), i) == k);
                let i = choose|i: int| 0 <= i < s.drop_last().len() && iid_at(s.drop_last(), i) == k;
                assert(s.drop_last()[i] == s[i]);
                assert(iid_at(s, i) == k);
            }
        }
        assert forall|k: u64|
            (exists|i: int| 0 <= i < s.len() && iid_at(s, i) == k) implies #[trigger] inv_map_of(
            s,
        ).contains_key(k) by {
            let i = choose|i: int| 0 <= i < s.len() && iid_at(s, i) == k;
            if i == n - 1 {
            } else {
                assert(s.drop_last()[i] == s[i]);
                assert(iid_at(s.drop_last(), i) == k);
            }
        }
        assert forall|i: int| #![trigger iid_at(s, i)] 0 <= i < s.len() implies inv_map_of(
            s,
        ).contains_key(iid_at(s, i)) && inv_map_of(s)[iid_at(s, i)] == s[i].key@ by {
            if i < n - 1 {
                assert(iid_at(s.drop_last(), i) == iid_at(s, i));
                assert(s.drop_last()[i] == s[i]);
                assert(iid_at(s, i) != iid_at(s, n - 1));
            }
        }
    }
}

proof fn lemma_fwd_update(s0: Seq<FwdEntry>, s1: Seq<FwdEntry>, idx: int, v: u64)
    requires
        fwd_distinct(s0),
        0 <= idx < s0.len(),
        s1.len() == s0.len(),
        forall|j: int| 0 <= j < s0.len() && j != idx ==> s1[j] == s0[j],
        key_at(s1, idx) == key_at(s0, idx),
        s1[idx].iids@ == s0[idx].iids@.push(v),
    ensures
        fwd_distinct(s1),
        fwd_map_of(s1) == fwd_insert(fwd_map_of(s0), key_at(s0, idx), v),
{
    assert forall|i: int, j: int| 0 <= i < j < s1.len() implies key_at(s1, i) != key_at(
        s1,
        j,
    ) by {
        assert(key_at(s1, i) == key_at(s0, i));
        assert(key_at(s1, j) == key_at(s0, j));
    }
    lemma_fwd_char(s0);
    lemma_fwd_char(s1);
    let m0 = fwd_map_of(s0);
    let m1 = fwd_map_of(s1);
    let k0 = key_at(s0, idx);
    let m2 = fwd_insert(m0, k0, v);
    assert(m0.contains_key(k0) && m0[k0] == s0[idx].iids@);
    assert forall|k: XidKey| #[trigger] m1.contains_key(k) implies m2.contains_key(k) && m1[k]
        == m2[k] by {
        let w = choose|w: int| 0 <= w < s1.len() && key_at(s1, w) == k;
        if k == k0 {
            assert(w == idx) by {
                if w != idx {
                    assert(key_at(s1, w) != key_at(s1, idx));
                }
            }
            assert(m1[k] == s1[idx].iids@);
            assert(m2[k] == m0[k0].push(v));
        } else {
            assert(w != idx);
            assert(key_at(s0, w) == k);
            assert(m1[k] == s1[w].iids@);
            assert(m0[k] == s0[w].iids@);
        }
    }
    assert forall|k: XidKey| #[trigger] m2.contains_key(k) implies m1.contains_key(k) by {
        if k == k0 {
            assert(key_at(s1, idx) == k);
        } else {
            assert(m0.contains_key(k));
            let w = choose|w: int| 0 <= w < s0.len() && key_at(s0, w) == k;
            assert(key_at(s1, w) == k);
        }
    }
    assert(m1 =~= m2);
}

proof fn lemma_fwd_append(s0: Seq<FwdEntry>, s1: Seq<FwdEntry>)
    requires
        fwd_distinct(s0),
        s1.len() == s0.len() + 1,
        forall|j: int| 0 <= j < s0.len() ==> s1[j] == s0[j],
        forall|j: int| 0 <= j < s0.len() ==> key_at(s0, j) != key_at(s1, s0.len() as int),
    ensures
        fwd_distinct(s1),
        !fwd_map_of(s0).contains_key(key_at(s1, s0.len() as int)),
        fwd_map_of(s1) == fwd_map_of(s0).insert(
            key_at(s1, s0.len() as int),
            s1[s0.len() as int].iids@,
        ),
{
    let n = s0.len() as int;
    assert forall|i: int, j: int| 0 <= i < j < s1.len() implies key_at(s1, i) != key_at(
        s1,
        j,
    ) by {
        if j < n {
            assert(key_at(s1, i) == key_at(s0, i));
            assert(key_at(s1, j) == key_at(s0, j));
        } else {
            assert(key_at(s1, i) == key_at(s0, i));
        }
    }
    lemma_fwd_char(s0);
    if fwd_map_of(s0).contains_key(key_at(s1, n)) {
        let w = choose|w: int| 0 <= w < s0.len() && key_at(s0, w) == key_at(s1, n);
        assert(false);
    }
    assert(s1.drop_last() =~= s0);
    assert(s1.last() == s1[n]);
}

proof fn lemma_inv_update(s0: Seq<InvEntry>, s1: Seq<InvEntry>, idx: int, k: XidKey)
    requires
        inv_distinct(s0),
        0 <= idx < s0.len(),
        s1.len() == s0.len(),
        forall|j: int| 0 <= j < s0.len() && j != idx ==> s1[j] == s0[j],
        iid_at(s1, idx) == iid_at(s0, idx),
        s1[idx].key@ == k,
    ensures
        inv_distinct(s1),
        inv_map_of(s1) == inv_map_of(s0).insert(iid_at(s0, idx), k),
{
    assert forall|i: int, j: int| 0 <= i < j < s1.len() implies iid_at(s1, i) != iid_at(s1, j) by {
        assert(iid_at(s1, i) == iid_at(s0, i));
        assert(iid_at(s1, j) == iid_at(s0, j));
    }
    lemma_inv_char(s0);
    lemma_inv_char(s1);
    let m0 = inv_map_of(s0);
    let m1 = inv_map_of(s1);
    let i0 = iid_at(s0, idx);
    let m2 = m0.insert(i0, k);
    assert forall|x: u64| #[trigger] m1.contains_key(x) implies m2.contains_key(x) && m1[x]
        == m2[x] by {
        let w = choose|w: int| 0 <= w < s1.len() && iid_at(s1, w) == x;
        if x == i0 {
            assert(w == idx) by {
                if w != idx {
                    assert(iid_at(s1, w) != iid_at(s1, idx));
                }
            }
            assert(m1[x] == s1[idx].key@);
        } else {
            assert(w != idx);
            assert(iid_at(s0, w) == x);
            assert(m1[x] == s1[w].key@);
            assert(m0[x] == s0[w].key@);
        }
    }
    assert forall|x: u64| #[trigger] m2.contains_key(x) implies m1.contains_key(x) by {
        if x == i0 {
            assert(iid_at(s1, idx) == x);
        } else {
            let w = choose|w: int| 0 <= w < s0.len() && iid_at(s0, w) == x;
            assert(iid_at(s1, w) == x);
        }
    }
    assert(m1 =~= m2);
}

proof fn lemma_inv_append(s0: Seq<InvEntry>, s1: Seq<InvEntry>)
    requires
        inv_distinct(s0),
        s1.len() == s0.len() + 1,
        forall|j: int| 0 <= j < s0.len() ==> s1[j] == s0[j],
        forall|j: int| 0 <= j < s0.len() ==> iid_at(s0, j) != iid_at(s1, s0.len() as int),
    ensures
        inv_distinct(s1),
        inv_map_of(s1) == inv_map_of(s0).insert(
            iid_at(s1, s0.len() as int),
            s1[s0.len() as int].key@,
        ),
{
    let n = s0.len() as int;
    assert forall|i: int, j: int| 0 <= i < j < s1.len() implies iid_at(s1, i) != iid_at(s1, j) by {
        if j < n {
            assert(iid_at(s1, i) == iid_at(s0, i));
            assert(iid_at(s1, j) == iid_at(s0, j));
        } else {
            assert(iid_at(s1, i) == iid_at(s0, i));
        }
    }
    assert(s1.drop_last() =~= s0);
    assert(s1.last() == s1[n]);
}

proof fn lemma_fwd_remove(s0: Seq<FwdEntry>, s1: Seq<FwdEntry>, idx: int)
    requires
        fwd_distinct(s0),
        0 <= idx < s0.len(),
        s1 == s0.subrange(0, idx) + s0.subrange(idx + 1, s0.len() as int),
    ensures
        fwd_distinct(s1),
        fwd_map_of(s1) == fwd_map_of(s0).remove(key_at(s0, idx)),
{
    assert forall|i: int, j: int| 0 <= i < j < s1.len() implies key_at(s1, i) != key_at(
        s1,
        j,
    ) by {
        let i0 = if i < idx {
            i
        } else {
            i + 1
        };
        let j0 = if j < idx {
            j
        } else {
            j + 1
        };
        assert(s1[i] == s0[i0]);
        assert(s1[j] == s0[j0]);
        assert(key_at(s0, i0) != key_at(s0, j0));
    }
    lemma_fwd_char(s0);
    lemma_fwd_char(s1);
    let m0 = fwd_map_of(s0);
    let m1 = fwd_map_of(s1);
    let k0 = key_at(s0, idx);
    let m2 = m0.remove(k0);
    assert forall|k: XidKey| #[trigger] m1.contains_key(k) implies m2.contains_key(k) && m1[k]
        == m2[k] by {
        let w = choose|w: int| 0 <= w < s1.len() && key_at(s1, w) == k;
        let w0 = if w < idx {
            w
        } else {
            w + 1
        };
        assert(s1[w] == s0[w0]);
        assert(key_at(s0, w0) == k);
        assert(k != k0) by {
            if w0 < idx {
                assert(key_at(s0, w0) != key_at(s0, idx));
            } else {
                assert(key_at(s0, idx) != key_at(s0, w0));
            }
        }
        assert(m1[k] == s1[w].iids@);
        assert(m0[k] == s0[w0].iids@);
    }
    assert forall|k: XidKey| #[trigger] m2.contains_key(k) implies m1.contains_key(k) by {
        let w = choose|w: int| 0 <= w < s0.len() && key_at(s0, w) == k;
        assert(w != idx);
        let w1 = if w < idx {
            w
        } else {
            w - 1
        };
        assert(s1[w1] == s0[w]);
        assert(key_at(s1, w1) == k);
    }
    assert(m1 =~= m2);
}

spec fn fwd_views_equal(a: Seq<FwdEntry>, b: Seq<FwdEntry>) -> bool {
    a.len() == b.len() && forall|i: int|
        0 <= i < a.len() ==> key_at(a, i) == key_at(b, i) && (#[trigger] a[i]).iids@
            == b[i].iids@
}

proof fn lemma_fwd_views_equal(a: Seq<FwdEntry>, b: Seq<FwdEntry>)
    requires
        fwd_views_equal(a, b),
    ensures
        fwd_map_of(a) == fwd_map_of(b),
        fwd_distinct(a) <==> fwd_distinct(b),
    decreases a.len(),
{
    if a.len() > 0 {
        assert(fwd_views_equal(a.drop_last(), b.drop_last())) by {
            assert forall|i: int|
                0 <= i < a.drop_last().len() implies key_at(a.drop_last(), i) == key_at(
                b.drop_last(),
                i,
            ) && (#[trigger] a.drop_last()[i]).iids@ == b.drop_last()[i].iids@ by {
                assert(a.drop_last()[i] == a[i]);
                assert(b.drop_last()[i] == b[i]);
                assert(a[i].iids@ == b[i].iids@);
            }
        }
        lemma_fwd_views_equal(a.drop_last(), b.drop_last());
        let n = a.len() - 1;
        assert(key_at(a, n) == key_at(b, n));
        assert(a[n].iids@ == b[n].iids@);
        assert(a.last() == a[n]);
        assert(b.last() == b[n]);
    }
    assert forall|i: int, j: int|
        0 <= i < j < a.len() && key_at(a, i) != key_at(a, j) implies key_at(b, i) != key_at(
        b,
        j,
    ) by {}
    assert forall|i: int, j: int|
        0 <= i < j < b.len() && key_at(b, i) != key_at(b, j) implies key_at(a, i) != key_at(
        a,
        j,
    ) by {}
}

spec fn inv_views_equal(a: Seq<InvEntry>, b: Seq<InvEntry>) -> bool {
    a.len() == b.len() && forall|i: int|
        0 <= i < a.len() ==> iid_at(a, i) == iid_at(b, i) && (#[trigger] a[i]).key@ == b[i].key@
}

proof fn lemma_inv_views_equal(a: Seq<InvEntry>, b: Seq<InvEntry>)
    requires
        inv_views_equal(a, b),
    ensures
        inv_map_of(a) == inv_map_of(b),
        inv_distinct(a) <==> inv_distinct(b),
    decreases a.len(),
{
    if a.len() > 0 {
        assert(inv_views_equal(a.drop_last(), b.drop_last())) by {
            assert forall|i: int|
                0 <= i < a.drop_last().len() implies iid_at(a.drop_last(), i) == iid_at(
                b.drop_last(),
                i,
            ) && (#[trigger] a.drop_last()[i]).key@ == b.drop_last()[i].key@ by {
                assert(a.drop_last()[i] == a[i]);
                assert(b.drop_last()[i] == b[i]);
                assert(a[i].key@ == b[i].key@);
            }
        }
        lemma_inv_views_equal(a.drop_last(), b.drop_last());
        let n = a.len() - 1;
        assert(iid_at(a, n) == iid_at(b, n));
        assert(a[n].key@ == b[n].key@);
        assert(a.last() == a[n]);
        assert(b.last() == b[n]);
    }
    assert forall|i: int, j: int|
        0 <= i < j < a.len() && iid_at(a, i) != iid_at(a, j) implies iid_at(b, i) != iid_at(
        b,
        j,
    ) by {}
    assert forall|i: int, j: int|
        0 <= i < j < b.len() && iid_at(b, i) != iid_at(b, j) implies iid_at(a, i) != iid_at(
        a,
        j,
    ) by {}
}

fn copy_u64s(v: &Vec<u64>) -> (r: Vec<u64>)
    ensures
        r@ == v@,
{
    let n = v.len();
    let mut out: Vec<u64> = Vec::new();
    let mut i: usize = 0;
    while i < n
        invariant
            n == v@.len(),
            0 <= i <= n,
            out@ == v@.subrange(0, i as int),
        decreases n - i,
    {
        out.push(v[i]);
        proof {
            assert(out@ =~= v@.subrange(0, i + 1 as int));
        }
        i = i + 1;
    }
    proof {
        assert(v@.subrange(0, n as int) == v@);
    }
    out
}

/// The bidirectional mapping between external identifiers and internal ids.
pub struct IndexMap {
    fwd: Vec<FwdEntry>,
    inv: Vec<InvEntry>,
}

impl IndexMap {
    /// The structural invariant: each direction holds each key at most once.
    pub closed spec fn wf(&self) -> bool {
        fwd_distinct(self.fwd@) && inv_distinct(self.inv@)
    }

    /// The forward direction: identifier to internal ids, oldest first.
    pub closed spec fn fwd_view(&self) -> Map<XidKey, Seq<u64>> {
        fwd_map_of(self.fwd@)
    }

    /// The inverse direction: internal id to identifier.
    pub closed spec fn inv_view(&self) -> Map<u64, XidKey> {
        inv_map_of(self.inv@)
    }

    /// An empty map.
    pub fn new() -> (r: Self)
        ensures
            r.wf(),
            r.fwd_view() == Map::<XidKey, Seq<u64>>::empty(),
            r.inv_view() == Map::<u64, XidKey>::empty(),
    {
        IndexMap { fwd: Vec::new(), inv: Vec::new() }
    }

    /// An independent copy holding the same mapping.
    pub fn duplicate(&self) -> (r: Self)
        ensures
            r.fwd_view() == self.fwd_view(),
            r.inv_view() == self.inv_view(),
            self.wf() ==> r.wf(),
    {
        let nf = self.fwd.len();
        let mut fwd2: Vec<FwdEntry> = Vec::new();
        let mut i: usize = 0;
        while i < nf
            invariant
                nf == self.fwd@.len(),
                0 <= i <= nf,
                fwd2@.len() == i,
                forall|j: int|
                    0 <= j < i ==> key_at(fwd2@, j) == key_at(self.fwd@, j) && (
                    #[trigger] fwd2@[j]).iids@ == self.fwd@[j].iids@,
            decreases nf - i,
        {
            let entry = FwdEntry {
                key: self.fwd[i].key.duplicate(),
                iids: copy_u64s(&self.fwd[i].iids),
            };
            fwd2.push(entry);
            i = i + 1;
        }
        let ni = self.inv.len();
        let mut inv2: Vec<InvEntry> = Vec::new();
        let mut j: usize = 0;
        while j < ni
            invariant
                ni == self.inv@.len(),
                0 <= j <= ni,
                inv2@.len() == j,
                forall|w: int|
                    0 <= w < j ==> iid_at(inv2@, w) == iid_at(self.inv@, w) && (
                    #[trigger] inv2@[w]).key@ == self.inv@[w].key@,
            decreases ni - j,
        {
            let entry = InvEntry { iid: self.inv[j].iid, key: self.inv[j].key.duplicate() };
            inv2.push(entry);
            j = j + 1;
        }
        let r = IndexMap { fwd: fwd2, inv: inv2 };
        proof {
            lemma_fwd_views_equal(r.fwd@, self.fwd@);
            lemma_inv_views_equal(r.inv@, self.inv@);
        }
        r
    }

    fn find_fwd(&self, key: &VectorIdentifier) -> (r: Option<usize>)
        ensures
            match r {
                Some(i) => i < self.fwd@.len() && key_at(self.fwd@, i as int) == key@,
                None => forall|j: int| 0 <= j < self.fwd@.len() ==> key_at(self.fwd@, j) != key@,
            },
    {
        let n = self.fwd.len();
        let mut i: usize = 0;
        while i < n
            invariant
                n == self.fwd@.len(),
                0 <= i <= n,
                forall|j: int| 0 <= j < i ==> key_at(self.fwd@, j) != key@,
            decreases n - i,
        {
            if self.fwd[i].key.eq(key) {
                proof {
                    assert(key_at(self.fwd@, i as int) == key@);
                }
                return Some(i);
            }
            proof {
                assert(key_at(self.fwd@, i as int) != key@);
            }
            i = i + 1;
        }
        None
    }

    fn find_inv(&self, iid: u64) -> (r: Option<usize>)
        ensures
            match r {
                Some(i) => i < self.inv@.len() && iid_at(self.inv@, i as int) == iid,
                None => forall|j: int| 0 <= j < self.inv@.len() ==> iid_at(self.inv@, j) != iid,
            },
    {
        let n = self.inv.len();
        let mut i: usize = 0;
        while i < n
            invariant
                n == self.inv@.len(),
                0 <= i <= n,
                forall|j: int| 0 <= j < i ==> iid_at(self.inv@, j) != iid,
            decreases n - i,
        {
            if self.inv[i].iid == iid {
                proof {
                    assert(iid_at(self.inv@, i as int) == iid);
                }
                return Some(i);
            }
            proof {
                assert(iid_at(self.inv@, i as int) != iid);
            }
            i = i + 1;
        }
        None
    }

    /// Records `vec_id` as the next internal id of `doc_id`, in both
    /// directions.
    pub fn insert(&mut self, doc_id: &VectorIdentifier, vec_id: u64) -> (r: Result<
        (),
        VectorError,
    >)
        requires
            old(self).wf(),
        ensures
            r is Ok,
            final(self).wf(),
            final(self).fwd_view() == fwd_insert(old(self).fwd_view(), doc_id@, vec_id),
            final(self).inv_view() == old(self).inv_view().insert(vec_id, doc_id@),
    {
        let ghost fwd0 = self.fwd@;
        match self.find_fwd(doc_id) {
            Some(idx) => {
                let entry = self.fwd.remove(idx);
                let mut iids = entry.iids;
                iids.push(vec_id);
                self.fwd.insert(idx, FwdEntry { key: entry.key, iids });
                proof {
                    assert forall|j: int|
                        0 <= j < fwd0.len() && j != idx implies self.fwd@[j] == fwd0[j] by {}
                    assert(key_at(self.fwd@, idx as int) == key_at(fwd0, idx as int));
                    assert(self.fwd@[idx as int].iids@ == fwd0[idx as int].iids@.push(vec_id));
                    lemma_fwd_update(fwd0, self.fwd@, idx as int, vec_id);
                }
            },
            None => {
                self.fwd.push(FwdEntry { key: doc_id.duplicate(), iids: vec![vec_id] });
                proof {
                    assert(key_at(self.fwd@, fwd0.len() as int) == doc_id@);
                    lemma_fwd_append(fwd0, self.fwd@);
                    lemma_fwd_char(fwd0);
                    assert(!old(self).fwd_view().contains_key(doc_id@));
                    assert(self.fwd@[fwd0.len() as int].iids@ =~= Seq::<u64>::empty().push(
                        vec_id,
                    ));
                    assert(self.fwd_view() == fwd_insert(old(self).fwd_view(), doc_id@, vec_id));
                }
            },
        }
        let ghost inv0 = self.inv@;
        match self.find_inv(vec_id) {
            Some(idx) => {
                let entry = self.inv.remove(idx);
                self.inv.insert(idx, InvEntry { iid: entry.iid, key: doc_id.duplicate() });
                proof {
                    assert forall|j: int|
                        0 <= j < inv0.len() && j != idx implies self.inv@[j] == inv0[j] by {}
                    assert(iid_at(self.inv@, idx as int) == iid_at(inv0, idx as int));
                    assert(self.inv@[idx as int].key@ == doc_id@);
                    lemma_inv_update(inv0, self.inv@, idx as int, doc_id@);
                }
            },
            None => {
                self.inv.push(InvEntry { iid: vec_id, key: doc_id.duplicate() });
                proof {
                    assert(iid_at(self.inv@, inv0.len() as int) == vec_id);
                    lemma_inv_append(inv0, self.inv@);
                }
            },
        }
        Ok(())
    }

    /// Records a whole batch of pairs, first pair first. Both slices must
    /// pair up one to one.
    pub fn insert_batch(&mut self, doc_ids: &Vec<VectorIdentifier>, vec_ids: &Vec<u64>) -> (r:
        Result<(), VectorError>)
        requires
            old(self).wf(),
            doc_ids@.len() == vec_ids@.len(),
        ensures
            r is Ok,
            final(self).wf(),
            final(self).fwd_view() == insert_all_fwd(
                old(self).fwd_view(),
                doc_ids@.map_values(|d: VectorIdentifier| d@),
                vec_ids@,
            ),
            final(self).inv_view() == insert_all_inv(
                old(self).inv_view(),
                doc_ids@.map_values(|d: VectorIdentifier| d@),
                vec_ids@,
            ),
    {
        let ghost ks = doc_ids@.map_values(|d: VectorIdentifier| d@);
        let n = doc_ids.len();
        let mut i: usize = 0;
        proof {
            assert(ks.skip(0) =~= ks);
            assert(vec_ids@.skip(0) =~= vec_ids@);
        }
        while i < n
            invariant
                self.wf(),
                n == doc_ids@.len(),
                n == vec_ids@.len(),
                ks == doc_ids@.map_values(|d: VectorIdentifier| d@),
                0 <= i <= n,
                insert_all_fwd(old(self).fwd_view(), ks, vec_ids@) == insert_all_fwd(
                    self.fwd_view(),
                    ks.skip(i as int),
                    vec_ids@.skip(i as int),
                ),
                insert_all_inv(old(self).inv_view(), ks, vec_ids@) == insert_all_inv(
                    self.inv_view(),
                    ks.skip(i as int),
                    vec_ids@.skip(i as int),
                ),
            decreases n - i,
        {
            let ghost pre_fwd = self.fwd_view();
            let ghost pre_inv = self.inv_view();
            let _ = self.insert(&doc_ids[i], vec_ids[i]);
            proof {
                let rest_k = ks.skip(i as int);
                let rest_i = vec_ids@.skip(i as int);
                assert(rest_k.len() == n - i);
                assert(rest_k[0] == ks[i as int]);
                assert(rest_i[0] == vec_ids@[i as int]);
                assert(ks[i as int] == doc_ids@[i as int]@);
                assert(rest_k.drop_first() =~= ks.skip(i + 1));
                assert(rest_i.drop_first() =~= vec_ids@.skip(i + 1));
                assert(insert_all_fwd(pre_fwd, rest_k, rest_i) == insert_all_fwd(
                    self.fwd_view(),
                    ks.skip(i + 1),
                    vec_ids@.skip(i + 1),
                ));
                assert(insert_all_inv(pre_inv, rest_k, rest_i) == insert_all_inv(
                    self.inv_view(),
                    ks.skip(i + 1),
                    vec_ids@.skip(i + 1),
                ));
            }
            i = i + 1;
        }
        proof {
            assert(ks.skip(n as int) =~= Seq::<XidKey>::empty());
            assert(vec_ids@.skip(n as int) =~= Seq::<u64>::empty());
        }
        Ok(())
    }

    /// Every internal id pushed under `doc_id`, oldest first; empty when the
    /// identifier is unknown.
    pub fn get_vec_ids(&self, doc_id: &VectorIdentifier) -> (r: Result<Vec<u64>, VectorError>)
        requires
            self.wf(),
        ensures
            r matches Ok(v) && v@ == iids_of(self.fwd_view(), doc_id@),
    {
        proof {
            lemma_fwd_char(self.fwd@);
        }
        match self.find_fwd(doc_id) {
            Some(idx) => {
                let stored = &self.fwd[idx].iids;
                let m = stored.len();
                let mut out: Vec<u64> = Vec::new();
                let mut j: usize = 0;
                while j < m
                    invariant
                        m == stored@.len(),
                        0 <= j <= m,
                        out@ == stored@.subrange(0, j as int),
                    decreases m - j,
                {
                    out.push(stored[j]);
                    proof {
                        assert(out@ =~= stored@.subrange(0, j + 1 as int));
                    }
                    j = j + 1;
                }
                proof {
                    assert(stored@.subrange(0, m as int) == stored@);
                }
                Ok(out)
            },
            None => {
                proof {
                    if self.fwd_view().contains_key(doc_id@) {
                        let w = choose|w: int|
                            0 <= w < self.fwd@.len() && key_at(self.fwd@, w) == doc_id@;
                        assert(false);
                    }
                }
                Ok(Vec::new())
            },
        }
    }

    /// The identifier a vector was pushed under, or `NotFound` when the
    /// internal id was never assigned.
    pub fn get_doc_id(&self, vec_id: u64) -> (r: Result<VectorIdentifier, VectorError>)
        requires
            self.wf(),
        ensures
            self.inv_view().contains_key(vec_id) ==> (r matches Ok(d) && d@
                == self.inv_view()[vec_id as u64]),
            !self.inv_view().contains_key(vec_id) ==> (r matches Err(e) && e
                == VectorError::NotFound),
    {
        proof {
            lemma_inv_char(self.inv@);
        }
        match self.find_inv(vec_id) {
            Some(idx) => Ok(self.inv[idx].key.duplicate()),
            None => {
                proof {
                    if self.inv_view().contains_key(vec_id) {
                        let w = choose|w: int|
                            0 <= w < self.inv@.len() && iid_at(self.inv@, w) == vec_id;
                        assert(false);
                    }
                }
                Err(VectorError::NotFound)
            },
        }
    }

    /// Forgets `doc_id` in the forward direction only; the inverse direction
    /// keeps resolving its internal ids.
    pub fn delete(&mut self, doc_id: &VectorIdentifier) -> (r: Result<(), VectorError>)
        requires
            old(self).wf(),
        ensures
            r is Ok,
            final(self).wf(),
            final(self).fwd_view() == old(self).fwd_view().remove(doc_id@),
            final(self).inv_view() == old(self).inv_view(),
    {
        let ghost fwd0 = self.fwd@;
        match self.find_fwd(doc_id) {
            Some(idx) => {
                let _ = self.fwd.remove(idx);
                proof {
                    lemma_fwd_remove(fwd0, self.fwd@, idx as int);
                }
                Ok(())
            },
            None => {
                proof {
                    lemma_fwd_char(fwd0);
                    if old(self).fwd_view().contains_key(doc_id@) {
                        let w = choose|w: int| 0 <= w < fwd0.len() && key_at(fwd0, w) == doc_id@;
                        assert(false);
                    }
                    assert(self.fwd_view() =~= old(self).fwd_view().remove(doc_id@));
                }
                Ok(())
            },
        }
    }
}

/// Appending one more pair to a batch is the same as inserting that pair
/// singly after the batch: pushing pairs in one batch is equivalent to
/// pushing them one at a time.
pub proof fn lemma_batch_equals_singles(
    fwdm: Map<XidKey, Seq<u64>>,
    invm: Map<u64, XidKey>,
    ks: Seq<XidKey>,
    is: Seq<u64>,
    k: XidKey,
    i: u64,
)
    requires
        ks.len() == is.len(),
    ensures
        insert_all_fwd(fwdm, ks.push(k), is.push(i)) == fwd_insert(
            insert_all_fwd(fwdm, ks, is),
            k,
            i,
        ),
        insert_all_inv(invm, ks.push(k), is.push(i)) == insert_all_inv(invm, ks, is).insert(i, k),
    decreases ks.len(),
{
    if ks.len() == 0 {
        assert(ks.push(k)[0] == k);
        assert(is.push(i)[0] == i);
        assert(ks.push(k).drop_first() =~= Seq::<XidKey>::empty());
        assert(is.push(i).drop_first() =~= Seq::<u64>::empty());
        let m1 = fwd_insert(fwdm, k, i);
        assert(insert_all_fwd(m1, Seq::<XidKey>::empty(), Seq::<u64>::empty()) == m1);
        assert(insert_all_fwd(fwdm, ks, is) == fwdm);
        let m2 = invm.insert(i, k);
        assert(insert_all_inv(m2, Seq::<XidKey>::empty(), Seq::<u64>::empty()) == m2);
        assert(insert_all_inv(invm, ks, is) == invm);
    } else {
        assert(ks.push(k)[0] == ks[0]);
        assert(is.push(i)[0] == is[0]);
        assert(ks.push(k).drop_first() =~= ks.drop_first().push(k));
        assert(is.push(i).drop_first() =~= is.drop_first().push(i));
        lemma_batch_equals_singles(
            fwd_insert(fwdm, ks[0], is[0]),
            invm.insert(is[0], ks[0]),
            ks.drop_first(),
            is.drop_first(),
            k,
            i,
        );
    }
}

/// Inserting a never-assigned internal id keeps the two directions
/// consistent: every id listed under an identifier still resolves back to
/// that identifier.
pub proof fn lemma_insert_preserves_consistent(
    fwdm: Map<XidKey, Seq<u64>>,
    invm: Map<u64, XidKey>,
    k: XidKey,
    i: u64,
)
    requires
        consistent(fwdm, invm),
        fresh_iid(fwdm, invm, i),
    ensures
        consistent(fwd_insert(fwdm, k, i), invm.insert(i, k)),
{
    let fwd2 = fwd_insert(fwdm, k, i);
    let inv2 = invm.insert(i, k);
    assert forall|k2: XidKey, j: int| #[trigger] resolves(fwd2, inv2, k2, j) by {
        if fwd2.contains_key(k2) && 0 <= j < fwd2[k2].len() {
            assert(resolves(fwdm, invm, k2, j));
            if k2 == k {
                if j < iids_of(fwdm, k).len() {
                    if fwdm.contains_key(k) {
                        assert(fwd2[k2][j] == fwdm[k][j]);
                        assert(fwdm[k].contains(fwdm[k][j]));
                        assert(fwdm[k][j] != i);
                    }
                } else {
                    assert(fwd2[k2][j] == i);
                }
            } else {
                assert(fwd2[k2] == fwdm[k2]);
                assert(fwdm[k2].contains(fwdm[k2][j]));
                assert(fwdm[k2][j] != i);
            }
        }
    }
}

/// Round trip: in a consistent store, every internal id listed under an
/// identifier resolves back, through the inverse direction, to exactly that
/// identifier.
pub proof fn lemma_listed_ids_resolve(
    fwdm: Map<XidKey, Seq<u64>>,
    invm: Map<u64, XidKey>,
    k: XidKey,
    j: int,
)
    requires
        consistent(fwdm, invm),
        fwdm.contains_key(k),
        0 <= j < fwdm[k].len(),
    ensures
        invm.contains_key(fwdm[k][j]),
        invm[fwdm[k][j]] == k,
{
    assert(resolves(fwdm, invm, k, j));
}

/// Deleting an identifier from the forward direction cannot break the
/// consistency of what remains.
pub proof fn lemma_delete_preserves_consistent(
    fwdm: Map<XidKey, Seq<u64>>,
    invm: Map<u64, XidKey>,
    k: XidKey,
)
    requires
        consistent(fwdm, invm),
    ensures
        consistent(fwdm.remove(k), invm),
{
    let fwd2 = fwdm.remove(k);
    assert forall|k2: XidKey, j: int| #[trigger] resolves(fwd2, invm, k2, j) by {
        if fwd2.contains_key(k2) && 0 <= j < fwd2[k2].len() {
            assert(resolves(fwdm, invm, k2, j));
            assert(fwd2[k2] == fwdm[k2]);
        }
    }
}

} // verus!
