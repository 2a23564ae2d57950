//! The single-writer ingest session.
//!
//! A writer owns a store directory for its lifetime: it takes the writer
//! lock at open and releases it at close. Pushes assign internal ids
//! densely in append order, record them in the id-map and append the
//! vector to the in-memory payload; a commit builds a fresh graph over the
//! payload, writes payload and graph to temporary files, renames both into
//! place under the commit lock and raises the dirty flag for readers.

use vstd::prelude::*;

use crate::directory::Location;
use crate::errors::LockError;
use crate::errors::VectorError;
use crate::graph;
use crate::identifier::VectorIdentifier;
use crate::index_map::IndexMap;
use crate::index_map::XidKey;
use crate::index_map::consistent;
use crate::index_map::fresh_iid;
use crate::index_map::fwd_insert;
use crate::index_map::iids_of;
use crate::index_map::insert_all_fwd;
use crate::index_map::insert_all_inv;
use crate::lock::Lock;
use crate::marker;
use crate::tombstones::Tombstones;

verus! {

/// One listed id of the forward map lies below `n`.
pub open spec fn listed_below(fwdm: Map<XidKey, Seq<u64>>, k: XidKey, j: int, n: nat) -> bool {
    fwdm.contains_key(k) && 0 <= j < fwdm[k].len() ==> (fwdm[k][j] as nat) < n
}

/// Every internal id either direction knows lies below `n`: ids are only
/// ever assigned from the payload's length upward.
pub open spec fn ids_bounded(
    fwdm: Map<XidKey, Seq<u64>>,
    invm: Map<u64, XidKey>,
    n: nat,
) -> bool {
    &&& forall|k: XidKey, j: int| #[trigger] listed_below(fwdm, k, j, n)
    &&& forall|i: u64| #[trigger] invm.contains_key(i) ==> (i as nat) < n
}

/// Every tombstoned id names a vector the payload holds.
pub open spec fn tombs_bounded(t: Set<u64>, n: nat) -> bool {
    forall|i: u64| #[trigger] t.contains(i) ==> (i as nat) < n
}

/// Whether a batch of vectors is acceptable from a payload of dimension
/// `d0` (zero while unset): each vector has at least one scalar the
/// distance accepts, and matches the dimension the payload has once its
/// predecessors are in.
pub open spec fn batch_dims_ok(d0: nat, vs: Seq<granne::angular::Vector<'static>>) -> bool
    decreases vs.len(),
{
    if vs.len() == 0 {
        true
    } else {
        &&& graph::vector_dim(vs[0]) > 0
        &&& graph::vector_well_formed(vs[0])
        &&& (d0 == 0 || graph::vector_dim(vs[0]) == d0)
        &&& batch_dims_ok(
            if d0 == 0 {
                graph::vector_dim(vs[0])
            } else {
                d0
            },
            vs.drop_first(),
        )
    }
}

/// The internal ids `start, start + 1, ...` of a batch of `n` pushes.
pub open spec fn range_ids(start: nat, n: nat) -> Seq<u64> {
    Seq::new(n, |i: int| (start + i) as u64)
}

/// A single-writer session on one store directory.
pub struct Writer {
    location: Location,
    elements: granne::angular::Vectors<'static>,
    build_config: granne::BuildConfig,
    commit_lock: Lock,
    writer_lock: Lock,
    deleted: Tombstones,
    index_map: IndexMap,
}

impl Writer {
    /// How many vectors the uncommitted payload holds.
    pub closed spec fn payload_len(&self) -> nat {
        graph::elements_count(self.elements)
    }

    /// The payload's dimension; zero until a first push fixes it.
    pub closed spec fn payload_dim(&self) -> nat {
        graph::elements_dim(self.elements)
    }

    /// The forward id-map: identifier to internal ids, oldest first.
    pub closed spec fn fwd(&self) -> Map<XidKey, Seq<u64>> {
        self.index_map.fwd_view()
    }

    /// The inverse id-map: internal id to identifier.
    pub closed spec fn inv(&self) -> Map<u64, XidKey> {
        self.index_map.inv_view()
    }

    /// The tombstoned internal ids.
    pub closed spec fn tombs(&self) -> Set<u64> {
        self.deleted@
    }

    /// The store directory.
    pub closed spec fn root(&self) -> Seq<char> {
        self.location.0@
    }

    /// Whether `v` may enter the payload: it has at least one scalar, the
    /// distance accepts it, and its dimension matches the payload's once
    /// one is fixed.
    pub closed spec fn accepts(&self, v: granne::angular::Vector<'static>) -> bool {
        &&& graph::vector_dim(v) > 0
        &&& graph::vector_well_formed(v)
        &&& (self.payload_dim() == 0 || graph::vector_dim(v) == self.payload_dim())
    }

    /// The session invariant: the id-map is well formed, both its
    /// directions resolve each other, every id it or the tombstone set
    /// knows lies below the payload's length, the payload stays below the
    /// graph library's id space, every buffered vector is one the graph's
    /// distance accepts, and the lock discipline stands — this session
    /// holds the writer lock and, outside a commit's critical section, not
    /// the commit lock.
    pub closed spec fn wf(&self) -> bool {
        &&& self.index_map.wf()
        &&& self.payload_len() < 0xFFFF_FFFF
        &&& graph::elements_well_formed(self.elements)
        &&& consistent(self.fwd(), self.inv())
        &&& ids_bounded(self.fwd(), self.inv(), self.payload_len())
        &&& tombs_bounded(self.tombs(), self.payload_len())
        &&& self.writer_lock.held()
        &&& !self.commit_lock.held()
    }

    /// Opens a fresh writer session on `location`, taking the writer lock.
    ///
    /// Fails with `WriterBusy` while another writer holds the lock. The
    /// directory must exist: creating a missing one is a raw filesystem
    /// act this crate cannot hold, so it stays with the caller. This
    /// constructor serves a store without a committed payload file;
    /// re-opening a store that has one requires the caller to memory-map
    /// it and come through `open_with_elements`.
    pub fn open(location: &str) -> (r: Result<Writer, VectorError>)
        ensures
            r matches Ok(w) ==> w.wf() && w.payload_len() == 0 && w.payload_dim() == 0 && w.fwd()
                == Map::<XidKey, Seq<u64>>::empty() && w.inv() == Map::<u64, XidKey>::empty()
                && w.tombs() == Set::<u64>::empty() && w.root() == location@,
            r matches Err(e) ==> e == VectorError::WriterBusy || e == VectorError::IoError,
    {
        let loc = Location(location.to_owned());
        if marker::path_exists(loc.elements_path().as_str()) {
            return Err(VectorError::IoError);
        }
        Writer::open_with_elements(location, graph::vectors_new())
    }

    /// Opens a writer session over an already-loaded payload with empty
    /// id-map and tombstone state, taking the writer lock. The caller owns
    /// the loading; everything after it is this session's.
    pub fn open_with_elements(
        location: &str,
        elements: granne::angular::Vectors<'static>,
    ) -> (r: Result<Writer, VectorError>)
        requires
            graph::elements_count(elements) < 0xFFFF_FFFF,
            graph::elements_well_formed(elements),
        ensures
            r matches Ok(w) ==> w.wf() && w.payload_len() == graph::elements_count(elements)
                && w.payload_dim() == graph::elements_dim(elements) && w.fwd() == Map::<
                XidKey,
                Seq<u64>,
            >::empty() && w.inv() == Map::<u64, XidKey>::empty() && w.tombs() == Set::<
                u64,
            >::empty() && w.root() == location@,
            r matches Err(e) ==> e == VectorError::WriterBusy || e == VectorError::IoError,
    {
        Writer::open_with_state(location, elements, Tombstones::new(), IndexMap::new())
    }

    /// Opens a writer session over an already-loaded payload and the
    /// store's persisted id-map and tombstone state, taking the writer
    /// lock. A caller re-opening a committed store seeds the maps from its
    /// durable mirror, so that this session's deletes see every earlier
    /// pair; the requires are the session invariant's own bounds, which the
    /// caller checks against the payload before handing the state in.
    pub fn open_with_state(
        location: &str,
        elements: granne::angular::Vectors<'static>,
        deleted: Tombstones,
        index_map: IndexMap,
    ) -> (r: Result<Writer, VectorError>)
        requires
            graph::elements_count(elements) < 0xFFFF_FFFF,
            graph::elements_well_formed(elements),
            index_map.wf(),
            consistent(index_map.fwd_view(), index_map.inv_view()),
            ids_bounded(
                index_map.fwd_view(),
                index_map.inv_view(),
                graph::elements_count(elements),
            ),
            tombs_bounded(deleted@, graph::elements_count(elements)),
        ensures
            r matches Ok(w) ==> w.wf() && w.payload_len() == graph::elements_count(elements)
                && w.payload_dim() == graph::elements_dim(elements) && w.fwd()
                == index_map.fwd_view() && w.inv() == index_map.inv_view() && w.tombs()
                == deleted@ && w.root() == location@,
            r matches Err(e) ==> e == VectorError::WriterBusy || e == VectorError::IoError,
    {
        let loc = Location(location.to_owned());
        let commit_lock = match Lock::open(&loc.commit_lock_path()) {
            Ok(l) => l,
            Err(_) => {
                return Err(VectorError::IoError);
            },
        };
        let mut writer_lock = match Lock::open(&loc.writer_lock_path()) {
            Ok(l) => l,
            Err(_) => {
                return Err(VectorError::IoError);
            },
        };
        match writer_lock.try_lock() {
            Ok(_) => {},
            Err(LockError::AlreadyHeld) => {
                return Err(VectorError::WriterBusy);
            },
            Err(LockError::Io) => {
                return Err(VectorError::IoError);
            },
        }
        let w = Writer {
            location: loc,
            elements,
            build_config: graph::default_build_config(),
            commit_lock,
            writer_lock,
            deleted,
            index_map,
        };
        Ok(w)
    }

    /// How many vectors the uncommitted payload holds.
    pub fn payload_count(&self) -> (r: usize)
        ensures
            r as nat == self.payload_len(),
    {
        graph::vectors_len(&self.elements)
    }

    /// The payload's dimension; zero until a first push fixes it.
    pub fn payload_dimension(&self) -> (r: usize)
        ensures
            r as nat == self.payload_dim(),
    {
        graph::vectors_dim(&self.elements)
    }

    /// Records `vector` under `doc_id`: the vector takes the next internal
    /// id, the id-map learns the pair, and the payload grows by one.
    pub fn push(
        &mut self,
        doc_id: &VectorIdentifier,
        vector: &granne::angular::Vector<'static>,
    ) -> (r: Result<(), VectorError>)
        requires
            old(self).wf(),
            old(self).payload_len() + 1 < 0xFFFF_FFFF,
            old(self).accepts(*vector),
        ensures
            r is Ok,
            final(self).wf(),
            final(self).payload_len() == old(self).payload_len() + 1,
            final(self).fwd() == fwd_insert(
                old(self).fwd(),
                doc_id@,
                old(self).payload_len() as u64,
            ),
            final(self).inv() == old(self).inv().insert(old(self).payload_len() as u64, doc_id@),
            final(self).tombs() == old(self).tombs(),
            final(self).payload_dim() == if old(self).payload_dim() == 0 {
                graph::vector_dim(*vector)
            } else {
                old(self).payload_dim()
            },
            final(self).root() == old(self).root(),
    {
        let next = graph::vectors_len(&self.elements);
        let next_id: u64 = next as u64;
        proof {
            lemma_count_is_fresh(old(self).fwd(), old(self).inv(), old(self).payload_len());
        }
        match self.index_map.insert(doc_id, next_id) {
            Ok(_) => {},
            Err(e) => {
                return Err(e);
            },
        }
        graph::vectors_push(&mut self.elements, vector);
        proof {
            crate::index_map::lemma_insert_preserves_consistent(
                old(self).fwd(),
                old(self).inv(),
                doc_id@,
                next_id,
            );
            lemma_insert_keeps_bounds(
                old(self).fwd(),
                old(self).inv(),
                doc_id@,
                next_id,
                old(self).payload_len(),
            );
        }
        Ok(())
    }

    /// Records a whole batch of pairs, assigning the contiguous internal
    /// ids that follow the current payload, first pair first.
    pub fn push_batch(
        &mut self,
        batch: &Vec<(VectorIdentifier, granne::angular::Vector<'static>)>,
    ) -> (r: Result<(), VectorError>)
        requires
            old(self).wf(),
            old(self).payload_len() + batch@.len() < 0xFFFF_FFFF,
            batch_dims_ok(
                old(self).payload_dim(),
                batch@.map_values(|p: (VectorIdentifier, granne::angular::Vector<'static>)| p.1),
            ),
        ensures
            r is Ok,
            final(self).wf(),
            final(self).payload_len() == old(self).payload_len() + batch@.len(),
            final(self).fwd() == insert_all_fwd(
                old(self).fwd(),
                batch@.map_values(
                    |p: (VectorIdentifier, granne::angular::Vector<'static>)| p.0@,
                ),
                range_ids(old(self).payload_len(), batch@.len()),
            ),
            final(self).inv() == insert_all_inv(
                old(self).inv(),
                batch@.map_values(
                    |p: (VectorIdentifier, granne::angular::Vector<'static>)| p.0@,
                ),
                range_ids(old(self).payload_len(), batch@.len()),
            ),
            final(self).tombs() == old(self).tombs(),
            final(self).root() == old(self).root(),
    {
        let ghost ks = batch@.map_values(
            |p: (VectorIdentifier, granne::angular::Vector<'static>)| p.0@,
        );
        let ghost vs = batch@.map_values(
            |p: (VectorIdentifier, granne::angular::Vector<'static>)| p.1,
        );
        let ghost ids = range_ids(old(self).payload_len(), batch@.len());
        let n = batch.len();
        let mut i: usize = 0;
        proof {
            assert(ks.skip(0) =~= ks);
            assert(ids.skip(0) =~= ids);
            assert(vs.skip(0) =~= vs);
        }
        while i < n
            invariant
                self.wf(),
                n == batch@.len(),
                ks == batch@.map_values(
                    |p: (VectorIdentifier, granne::angular::Vector<'static>)| p.0@,
                ),
                vs == batch@.map_values(
                    |p: (VectorIdentifier, granne::angular::Vector<'static>)| p.1,
                ),
                ids == range_ids(old(self).payload_len(), n as nat),
                0 <= i <= n,
                self.payload_len() == old(self).payload_len() + i,
                self.payload_len() + (n - i) < 0xFFFF_FFFF,
                batch_dims_ok(self.payload_dim(), vs.skip(i as int)),
                insert_all_fwd(old(self).fwd(), ks, ids) == insert_all_fwd(
                    self.fwd(),
                    ks.skip(i as int),
                    ids.skip(i as int),
                ),
                insert_all_inv(old(self).inv(), ks, ids) == insert_all_inv(
                    self.inv(),
                    ks.skip(i as int),
                    ids.skip(i as int),
                ),
                self.tombs() == old(self).tombs(),
                self.root() == old(self).root(),
            decreases n - i,
        {
            let ghost pre = *self;
            proof {
                assert(vs.skip(i as int)[0] == vs[i as int]);
                assert(vs[i as int] == batch@[i as int].1);
            }
            let _ = self.push(&batch[i].0, &batch[i].1);
            proof {
                let rest_k = ks.skip(i as int);
                let rest_v = vs.skip(i as int);
                let rest_i = ids.skip(i as int);
                assert(rest_k[0] == ks[i as int]);
                assert(ks[i as int] == batch@[i as int].0@);
                assert(rest_i[0] == ids[i as int]);
                assert(ids[i as int] == (old(self).payload_len() + i) as u64);
                assert(rest_k.drop_first() =~= ks.skip(i + 1));
                assert(rest_i.drop_first() =~= ids.skip(i + 1));
                assert(rest_v.drop_first() =~= vs.skip(i + 1));
                assert(insert_all_fwd(pre.fwd(), rest_k, rest_i) == insert_all_fwd(
                    self.fwd(),
                    ks.skip(i + 1),
                    ids.skip(i + 1),
                ));
                assert(insert_all_inv(pre.inv(), rest_k, rest_i) == insert_all_inv(
                    self.inv(),
                    ks.skip(i + 1),
                    ids.skip(i + 1),
                ));
            }
            i = i + 1;
        }
        proof {
            assert(ks.skip(n as int) =~= Seq::<XidKey>::empty());
            assert(ids.skip(n as int) =~= Seq::<u64>::empty());
        }
        Ok(())
    }

    /// Tombstones every vector currently mapped to `doc_id`; an unknown
    /// identifier is a no-op success. The forward id-map keeps the entry,
    /// as the original mapping semantics require for translation.
    pub fn delete(&mut self, doc_id: &VectorIdentifier) -> (r: Result<(), VectorError>)
        requires
            old(self).wf(),
        ensures
            r is Ok,
            final(self).wf(),
            final(self).tombs() == old(self).tombs() + iids_of(
                old(self).fwd(),
                doc_id@,
            ).to_set(),
            final(self).payload_len() == old(self).payload_len(),
            final(self).payload_dim() == old(self).payload_dim(),
            final(self).fwd() == old(self).fwd(),
            final(self).inv() == old(self).inv(),
            final(self).root() == old(self).root(),
    {
        let iids = match self.index_map.get_vec_ids(doc_id) {
            Ok(v) => v,
            Err(e) => {
                return Err(e);
            },
        };
        let _ = self.deleted.add_batch(&iids);
        proof {
            assert forall|i: u64| #[trigger] self.tombs().contains(i) implies (i as nat)
                < self.payload_len() by {
                if !old(self).tombs().contains(i) {
                    let iids_spec = iids_of(old(self).fwd(), doc_id@);
                    let j = choose|j: int| 0 <= j < iids_spec.len() && iids_spec[j] == i;
                    assert(listed_below(old(self).fwd(), doc_id@, j, old(self).payload_len()));
                }
            }
        }
        Ok(())
    }

    /// A searchable graph freshly built over the current payload: the
    /// commit's build phase, also serving in-process snapshots.
    pub fn build_index(&self) -> (r: granne::Granne<
        'static,
        granne::angular::Vectors<'static>,
    >)
        requires
            self.wf(),
        ensures
            graph::graph_count(r) == self.payload_len(),
            graph::graph_well_formed(r),
    {
        let els = graph::vectors_clone(&self.elements);
        let mut builder = graph::builder_new(self.build_config, els);
        graph::builder_build(&mut builder);
        graph::builder_index(&builder)
    }

    /// Commits the buffered state: builds a fresh graph, writes payload and
    /// graph to temporary files, renames both into place under the commit
    /// lock and raises the dirty flag.
    ///
    /// A failure before the first rename aborts with `IoError` and leaves
    /// the on-disk pair as it was; a failure of the second rename after the
    /// first succeeded surfaces as `CommitTorn`, and the store must be
    /// treated as corrupted. The in-memory session is unchanged either way.
    pub fn commit(&mut self) -> (r: Result<(), VectorError>)
        requires
            old(self).wf(),
        ensures
            final(self).wf(),
            final(self).payload_len() == old(self).payload_len(),
            final(self).payload_dim() == old(self).payload_dim(),
            final(self).fwd() == old(self).fwd(),
            final(self).inv() == old(self).inv(),
            final(self).tombs() == old(self).tombs(),
            final(self).root() == old(self).root(),
            r matches Err(e) ==> e == VectorError::IoError || e == VectorError::CommitTorn,
    {
        let els = graph::vectors_clone(&self.elements);
        let mut builder = graph::builder_new(self.build_config, els);
        graph::builder_build(&mut builder);
        let tmp_elements = match graph::save_elements(&builder) {
            Ok(t) => t,
            Err(_) => {
                return Err(VectorError::IoError);
            },
        };
        let tmp_index = match graph::save_index(&builder) {
            Ok(t) => t,
            Err(_) => {
                return Err(VectorError::IoError);
            },
        };
        match self.commit_lock.lock() {
            Ok(_) => {},
            Err(_) => {
                return Err(VectorError::IoError);
            },
        }
        match marker::persist_replace(tmp_elements, self.location.elements_path().as_str()) {
            Ok(_) => {},
            Err(_) => {
                self.commit_lock.unlock();
                return Err(VectorError::IoError);
            },
        }
        match marker::persist_replace(tmp_index, self.location.index_path().as_str()) {
            Ok(_) => {},
            Err(_) => {
                self.commit_lock.unlock();
                return Err(VectorError::CommitTorn);
            },
        }
        let dirty = self.location.dirty_path();
        let root_dir = self.location.path();
        match marker::create_marker(dirty.as_str(), root_dir.as_str()) {
            Ok(_) => {},
            Err(crate::errors::MarkerError::AlreadyThere) => {
                // The flag may still be up from an earlier commit no reader
                // has consumed; that is the signal already raised.
            },
            Err(crate::errors::MarkerError::Io) => {
                // The pair is swapped but readers would never learn of it:
                // a write-path error, surfaced as the spec demands.
                self.commit_lock.unlock();
                return Err(VectorError::IoError);
            },
        }
        self.commit_lock.unlock();
        Ok(())
    }

    /// An independent copy of the current tombstone set, for building a
    /// reader snapshot.
    pub fn snapshot_tombstones(&self) -> (r: Tombstones)
        ensures
            r@ == self.tombs(),
    {
        self.deleted.duplicate()
    }

    /// An independent copy of the current id-map, for building a reader
    /// snapshot.
    pub fn snapshot_index_map(&self) -> (r: IndexMap)
        requires
            self.wf(),
        ensures
            r.wf(),
            r.fwd_view() == self.fwd(),
            r.inv_view() == self.inv(),
    {
        self.index_map.duplicate()
    }

    /// Ends the session, releasing the writer lock; the session invariant
    /// no longer holds afterwards. The library cannot verify a scoped
    /// release, so the call is explicit here; the unverified session type
    /// around this writer releases through its own scoped destruction, and
    /// a writer leaked without either leaves the lock file in place, to be
    /// removed by an operator as after a crash.
    pub fn close(&mut self)
        ensures
            !final(self).wf(),
    {
        self.writer_lock.unlock();
    }
}

proof fn lemma_count_is_fresh(fwdm: Map<XidKey, Seq<u64>>, invm: Map<u64, XidKey>, n: nat)
    requires
        ids_bounded(fwdm, invm, n),
        n < 0xFFFF_FFFF_FFFF_FFFF,
    ensures
        fresh_iid(fwdm, invm, n as u64),
{
    if invm.contains_key(n as u64) {
        assert(false);
    }
    assert forall|k: XidKey| fwdm.contains_key(k) implies !#[trigger] fwdm[k].contains(
        n as u64,
    ) by {
        if fwdm[k].contains(n as u64) {
            let j = choose|j: int| 0 <= j < fwdm[k].len() && fwdm[k][j] == n as u64;
            assert(listed_below(fwdm, k, j, n));
        }
    }
}

proof fn lemma_insert_keeps_bounds(
    fwdm: Map<XidKey, Seq<u64>>,
    invm: Map<u64, XidKey>,
    k: XidKey,
    i: u64,
    n: nat,
)
    requires
        ids_bounded(fwdm, invm, n),
        i as nat == n,
    ensures
        ids_bounded(fwd_insert(fwdm, k, i), invm.insert(i, k), n + 1),
{
    let fwd2 = fwd_insert(fwdm, k, i);
    assert forall|k2: XidKey, j: int| #[trigger] listed_below(fwd2, k2, j, n + 1) by {
        if fwd2.contains_key(k2) && 0 <= j < fwd2[k2].len() {
            assert(listed_below(fwdm, k2, j, n));
            if k2 == k {
                if j < iids_of(fwdm, k).len() {
                } else {
                    assert(fwd2[k2][j] == i);
                }
            } else {
                assert(fwd2[k2] == fwdm[k2]);
            }
        }
    }
}

/// Density of internal ids: a store whose inverse map knows exactly the
/// ids below its payload length keeps that shape when a push records the
/// next id, so a run of pushes from an empty store uses exactly the ids
/// `0 .. n`.
pub proof fn lemma_push_density(invm: Map<u64, XidKey>, n: u64, k: XidKey)
    requires
        forall|i: u64| #[trigger] invm.contains_key(i) <==> (i as nat) < n as nat,
        n < 0xFFFF_FFFF_FFFF_FFFF,
    ensures
        forall|i: u64| #[trigger]
            invm.insert(n, k).contains_key(i) <==> (i as nat) < n as nat + 1,
{
}

} // verus!
