//! The query session.
//!
//! A reader serves nearest-neighbor queries from a loaded snapshot: a
//! searchable graph, the tombstone set and the id-map's inverse direction.
//! A search runs the graph, drops tombstoned hits in order, translates the
//! surviving internal ids to external identifiers and pairs each with the
//! score the graph reported. A hit whose internal id the id-map cannot
//! resolve is treated as tombstoned and suppressed.
//!
//! Loading is the caller's: files are memory-mapped outside this crate and
//! handed in through `from_parts`, and a caller that finds `is_dirty` set
//! installs a fresh load under the commit lock before searching.

use vstd::prelude::*;

use crate::directory::Location;
use crate::errors::VectorError;
use crate::graph;
use crate::identifier::VectorIdentifier;
use crate::index_map::IndexMap;
use crate::index_map::XidKey;
use crate::lock::Lock;
use crate::marker;
use crate::tombstones::Tombstones;
use crate::tombstones::surviving;

verus! {

/// The internal ids of the graph's hits, in the graph's order.
pub open spec fn hit_ids(raw: Seq<(u64, u32)>) -> Seq<u64> {
    raw.map_values(|p: (u64, u32)| p.0)
}

/// The score the graph paired with `id`; of repeated ids the last stands.
pub open spec fn score_of(raw: Seq<(u64, u32)>, id: u64) -> u32
    decreases raw.len(),
{
    if raw.len() == 0 {
        0
    } else if raw.last().0 == id {
        raw.last().1
    } else {
        score_of(raw.drop_last(), id)
    }
}

/// The surviving ids translated through the inverse map, in order, each
/// paired with its score; unresolvable ids are dropped.
pub open spec fn translated(
    survivors: Seq<u64>,
    raw: Seq<(u64, u32)>,
    invm: Map<u64, XidKey>,
) -> Seq<(XidKey, u32)>
    decreases survivors.len(),
{
    if survivors.len() == 0 {
        Seq::<(XidKey, u32)>::empty()
    } else {
        let rest = translated(survivors.drop_first(), raw, invm);
        if invm.contains_key(survivors[0]) {
            seq![(invm[survivors[0]], score_of(raw, survivors[0]))] + rest
        } else {
            rest
        }
    }
}

/// What a search hands back, given the graph's raw hits, the tombstone set
/// and the inverse id-map.
pub open spec fn search_output(
    raw: Seq<(u64, u32)>,
    t: Set<u64>,
    invm: Map<u64, XidKey>,
) -> Seq<(XidKey, u32)> {
    translated(surviving(hit_ids(raw), t), raw, invm)
}

/// The result vector agrees with the specified output pair for pair.
pub open spec fn output_matches(
    out: Seq<(VectorIdentifier, u32)>,
    spec_out: Seq<(XidKey, u32)>,
) -> bool {
    out.len() == spec_out.len() && forall|i: int|
        0 <= i < out.len() ==> (#[trigger] out[i]).0@ == spec_out[i].0 && out[i].1
            == spec_out[i].1
}

/// A non-exclusive query session over one loaded snapshot.
pub struct Reader {
    location: Location,
    commit_lock: Lock,
    index: granne::Granne<'static, granne::angular::Vectors<'static>>,
    max_search: usize,
    num_neighbors: usize,
    deleted: Tombstones,
    index_map: IndexMap,
}

impl Reader {
    /// The store directory.
    pub closed spec fn root(&self) -> Seq<char> {
        self.location.0@
    }

    /// The tombstoned internal ids of this snapshot.
    pub closed spec fn tombs(&self) -> Set<u64> {
        self.deleted@
    }

    /// The inverse id-map of this snapshot.
    pub closed spec fn inv(&self) -> Map<u64, XidKey> {
        self.index_map.inv_view()
    }

    /// How many vectors the loaded graph knows.
    pub closed spec fn graph_size(&self) -> nat {
        graph::graph_count(self.index)
    }

    /// The search breadth of every query.
    pub closed spec fn breadth(&self) -> nat {
        self.max_search as nat
    }

    /// How many hits a query asks the graph for.
    pub closed spec fn neighbors(&self) -> nat {
        self.num_neighbors as nat
    }

    /// Whether this reader holds the commit lock for a reload in flight.
    pub closed spec fn reload_locked(&self) -> bool {
        self.commit_lock.held()
    }

    /// The session invariant: the id-map is well formed, the loaded graph
    /// is one this crate's builder produced, and the search breadth is at
    /// least one, as the graph's search demands.
    pub closed spec fn wf(&self) -> bool {
        &&& self.index_map.wf()
        &&& graph::graph_well_formed(self.index)
        &&& self.max_search >= 1
    }

    /// The hits the loaded graph returns for `q` under this reader's
    /// configuration.
    pub closed spec fn hits_for(&self, q: granne::angular::Vector<'static>) -> Seq<(u64, u32)> {
        graph::search_hits(self.index, q, self.breadth(), self.neighbors())
    }

    /// Builds a reader over an already-loaded snapshot, with the default
    /// query configuration: search breadth 200, 30 neighbors. The graph
    /// must be one this crate's builder produced; a caller loading one from
    /// disk vouches that the file was written by a commit.
    pub fn from_parts(
        location: &str,
        index: granne::Granne<'static, granne::angular::Vectors<'static>>,
        deleted: Tombstones,
        index_map: IndexMap,
    ) -> (r: Result<Reader, VectorError>)
        requires
            index_map.wf(),
            graph::graph_well_formed(index),
        ensures
            r matches Ok(rd) ==> rd.wf() && rd.root() == location@ && rd.tombs() == deleted@
                && rd.inv() == index_map.inv_view() && rd.graph_size() == graph::graph_count(
                index,
            ) && rd.breadth() == 200 && rd.neighbors() == 30 && !rd.reload_locked(),
            r matches Err(e) ==> e == VectorError::IoError,
    {
        let loc = Location(location.to_owned());
        let commit_lock = match Lock::open(&loc.commit_lock_path()) {
            Ok(l) => l,
            Err(_) => {
                return Err(VectorError::IoError);
            },
        };
        Ok(
            Reader {
                location: loc,
                commit_lock,
                index,
                max_search: 200,
                num_neighbors: 30,
                deleted,
                index_map,
            },
        )
    }

    /// Whether a commit newer than this snapshot is flagged on disk.
    pub fn is_dirty(&self) -> bool {
        marker::path_exists(self.location.dirty_path().as_str())
    }

    /// Removes the dirty flag after a reload; its absence is not an error.
    pub fn clear_dirty(&self) {
        let _ = marker::remove_marker(self.location.dirty_path().as_str());
    }

    /// The lock a reload must hold so that it never races a commit's
    /// renames. The acquisition retries a bounded number of times, so a
    /// reload against a long-held lock gets `IoError` where the original
    /// would block without end; the commit it waits for is short, and a
    /// lock file that outlives its holder needs an operator anyway.
    pub fn lock_for_reload(&mut self) -> (r: Result<(), VectorError>)
        requires
            old(self).wf(),
            !old(self).reload_locked(),
        ensures
            final(self).wf(),
            r matches Ok(_) ==> final(self).reload_locked(),
            r matches Err(e) ==> !final(self).reload_locked() && e == VectorError::IoError,
            final(self).root() == old(self).root(),
            final(self).tombs() == old(self).tombs(),
            final(self).inv() == old(self).inv(),
            final(self).graph_size() == old(self).graph_size(),
            final(self).breadth() == old(self).breadth(),
            final(self).neighbors() == old(self).neighbors(),
    {
        match self.commit_lock.lock() {
            Ok(_) => Ok(()),
            Err(_) => Err(VectorError::IoError),
        }
    }

    /// Releases the reload lock.
    pub fn unlock_after_reload(&mut self)
        requires
            old(self).wf(),
        ensures
            final(self).wf(),
            !final(self).reload_locked(),
            final(self).root() == old(self).root(),
            final(self).tombs() == old(self).tombs(),
            final(self).inv() == old(self).inv(),
            final(self).graph_size() == old(self).graph_size(),
            final(self).breadth() == old(self).breadth(),
            final(self).neighbors() == old(self).neighbors(),
    {
        self.commit_lock.unlock();
    }

    /// Replaces the served snapshot: the reload step of a dirty reader.
    pub fn install(
        &mut self,
        index: granne::Granne<'static, granne::angular::Vectors<'static>>,
        deleted: Tombstones,
        index_map: IndexMap,
    )
        requires
            old(self).wf(),
            index_map.wf(),
            graph::graph_well_formed(index),
        ensures
            final(self).wf(),
            final(self).root() == old(self).root(),
            final(self).breadth() == old(self).breadth(),
            final(self).neighbors() == old(self).neighbors(),
            final(self).tombs() == deleted@,
            final(self).inv() == index_map.inv_view(),
            final(self).graph_size() == graph::graph_count(index),
            final(self).reload_locked() == old(self).reload_locked(),
    {
        self.index = index;
        self.deleted = deleted;
        self.index_map = index_map;
    }

    /// Serves one query from the held snapshot: exactly the graph's hits
    /// for this query and configuration, minus tombstoned and unresolvable
    /// internal ids, translated to external identifiers in the graph's
    /// order, each with the graph's reported angular distance as a 32-bit
    /// float's bits (lower is closer).
    pub fn search(&self, query: &granne::angular::Vector<'static>) -> (r: Vec<
        (VectorIdentifier, u32),
    >)
        requires
            self.wf(),
            graph::vector_well_formed(*query),
        ensures
            output_matches(r@, search_output(self.hits_for(*query), self.tombs(), self.inv())),
            self.hits_for(*query).len() <= self.neighbors(),
            forall|i: int|
                0 <= i < self.hits_for(*query).len() ==> (#[trigger] self.hits_for(
                    *query,
                )[i].0 as nat) < self.graph_size(),
    {
        let raw = graph::graph_search(&self.index, query, self.max_search, self.num_neighbors);
        let ghost raw_v = raw@;
        let n = raw.len();
        let mut idxs: Vec<u64> = Vec::new();
        let mut i: usize = 0;
        while i < n
            invariant
                n == raw_v.len(),
                raw_v == raw@,
                0 <= i <= n,
                idxs@ == hit_ids(raw_v).subrange(0, i as int),
            decreases n - i,
        {
            idxs.push(raw[i].0);
            proof {
                assert(idxs@ =~= hit_ids(raw_v).subrange(0, i + 1 as int));
            }
            i = i + 1;
        }
        proof {
            assert(idxs@ =~= hit_ids(raw_v));
        }
        let filtered = self.deleted.filter(&idxs);
        let ghost survivors = filtered@;
        proof {
            crate::tombstones::lemma_filter_suppresses(idxs@, self.tombs());
        }
        let m = filtered.len();
        let mut out: Vec<(VectorIdentifier, u32)> = Vec::new();
        let mut j: usize = 0;
        proof {
            assert(survivors.skip(0) =~= survivors);
        }
        while j < m
            invariant
                self.wf(),
                m == survivors.len(),
                survivors == filtered@,
                raw_v == raw@,
                0 <= j <= m,
                forall|w: int|
                    0 <= w < survivors.len() ==> hit_ids(raw_v).contains(
                        #[trigger] survivors[w],
                    ),
                translated(survivors, raw_v, self.inv()) == out@.map_values(
                    |p: (VectorIdentifier, u32)| (p.0@, p.1),
                ) + translated(survivors.skip(j as int), raw_v, self.inv()),
            decreases m - j,
        {
            let id = filtered[j];
            let ghost rest = survivors.skip(j as int);
            proof {
                assert(rest[0] == survivors[j as int]);
                assert(rest.drop_first() =~= survivors.skip(j + 1));
                assert(hit_ids(raw_v).contains(id));
                let w = choose|w: int|
                    0 <= w < hit_ids(raw_v).len() && hit_ids(raw_v)[w] == id;
                assert(raw_v[w].0 == id);
            }
            match self.index_map.get_doc_id(id) {
                Ok(doc) => {
                    let score = find_score(&raw, id);
                    let ghost out0 = out@;
                    out.push((doc, score));
                    proof {
                        assert(out@.map_values(|p: (VectorIdentifier, u32)| (p.0@, p.1)) =~= out0.map_values(
                            |p: (VectorIdentifier, u32)| (p.0@, p.1),
                        ).push((self.inv()[id], score_of(raw_v, id))));
                        assert(translated(rest, raw_v, self.inv()) =~= seq![
                            (self.inv()[id], score_of(raw_v, id)),
                        ] + translated(survivors.skip(j + 1), raw_v, self.inv()));
                        assert(translated(survivors, raw_v, self.inv()) =~= out@.map_values(
                            |p: (VectorIdentifier, u32)| (p.0@, p.1),
                        ) + translated(survivors.skip(j + 1), raw_v, self.inv()));
                    }
                },
                Err(_) => {
                    proof {
                        assert(!self.inv().contains_key(id));
                        assert(translated(rest, raw_v, self.inv()) == translated(
                            survivors.skip(j + 1),
                            raw_v,
                            self.inv(),
                        ));
                    }
                },
            }
            j = j + 1;
        }
        proof {
            assert(survivors.skip(m as int) =~= Seq::<u64>::empty());
            assert(translated(survivors, raw_v, self.inv()) == out@.map_values(
                |p: (VectorIdentifier, u32)| (p.0@, p.1),
            ));
            assert(output_matches(out@, search_output(raw_v, self.tombs(), self.inv())));
        }
        out
    }
}

/// The score the graph paired with `id`, read back from the raw hits.
fn find_score(raw: &Vec<(u64, u32)>, id: u64) -> (r: u32)
    requires
        exists|j: int| 0 <= j < raw@.len() && (#[trigger] raw@[j]).0 == id,
    ensures
        r == score_of(raw@, id),
{
    let mut i: usize = raw.len();
    proof {
        assert(raw@.subrange(0, raw@.len() as int) =~= raw@);
    }
    while i > 0
        invariant
            0 <= i <= raw@.len(),
            exists|j: int| 0 <= j < i && (#[trigger] raw@[j]).0 == id,
            score_of(raw@, id) == score_of(raw@.subrange(0, i as int), id),
        decreases i,
    {
        i = i - 1;
        let ghost pre = raw@.subrange(0, i + 1 as int);
        proof {
            assert(pre.drop_last() =~= raw@.subrange(0, i as int));
            assert(pre.last() == raw@[i as int]);
        }
        if raw[i].0 == id {
            proof {
                assert(score_of(pre, id) == raw@[i as int].1);
            }
            return raw[i].1;
        }
        proof {
            assert(score_of(pre, id) == score_of(raw@.subrange(0, i as int), id));
            let j = choose|j: int| 0 <= j < i + 1 && (#[trigger] raw@[j]).0 == id;
            assert(j < i + 1 && raw@[j].0 == id && raw@[i as int].0 != id);
            assert(0 <= j < i && raw@[j].0 == id);
        }
    }
    proof {
        assert(false);
    }
    0
}

/// One output pair rises from a surviving internal id: some id among the
/// survivors resolves to exactly this identifier and carries this score.
pub open spec fn sourced(
    survivors: Seq<u64>,
    raw: Seq<(u64, u32)>,
    invm: Map<u64, XidKey>,
    p: (XidKey, u32),
) -> bool {
    exists|id: u64|
        #![auto]
        survivors.contains(id) && invm.contains_key(id) && invm[id] == p.0 && p.1 == score_of(
            raw,
            id,
        )
}

/// One output pair rises from an id that is not tombstoned.
pub open spec fn untombstoned_source(
    raw: Seq<(u64, u32)>,
    t: Set<u64>,
    invm: Map<u64, XidKey>,
    p: (XidKey, u32),
) -> bool {
    exists|id: u64|
        #![auto]
        !t.contains(id) && invm.contains_key(id) && invm[id] == p.0 && p.1 == score_of(raw, id)
}

proof fn lemma_sourced_widen(
    survivors: Seq<u64>,
    raw: Seq<(u64, u32)>,
    invm: Map<u64, XidKey>,
    p: (XidKey, u32),
)
    requires
        survivors.len() > 0,
        sourced(survivors.drop_first(), raw, invm, p),
    ensures
        sourced(survivors, raw, invm, p),
{
    let id = choose|id: u64|
        #![auto]
        survivors.drop_first().contains(id) && invm.contains_key(id) && invm[id] == p.0 && p.1
            == score_of(raw, id);
    let w = choose|w: int|
        0 <= w < survivors.drop_first().len() && survivors.drop_first()[w] == id;
    assert(survivors[w + 1] == id);
    assert(survivors.contains(id) && invm.contains_key(id) && invm[id] == p.0 && p.1 == score_of(
        raw,
        id,
    ));
}

proof fn lemma_translated_sources(
    survivors: Seq<u64>,
    raw: Seq<(u64, u32)>,
    invm: Map<u64, XidKey>,
)
    ensures
        forall|i: int|
            0 <= i < translated(survivors, raw, invm).len() ==> #[trigger] sourced(
                survivors,
                raw,
                invm,
                translated(survivors, raw, invm)[i],
            ),
    decreases survivors.len(),
{
    if survivors.len() > 0 {
        lemma_translated_sources(survivors.drop_first(), raw, invm);
        let out = translated(survivors, raw, invm);
        let rest = translated(survivors.drop_first(), raw, invm);
        assert forall|i: int| 0 <= i < out.len() implies #[trigger] sourced(
            survivors,
            raw,
            invm,
            translated(survivors, raw, invm)[i],
        ) by {
            if invm.contains_key(survivors[0]) {
                if i == 0 {
                    assert(survivors.contains(survivors[0]));
                    assert(out[0] == (invm[survivors[0]], score_of(raw, survivors[0])));
                    assert(survivors.contains(survivors[0]) && invm.contains_key(survivors[0])
                        && invm[survivors[0]] == out[0].0 && out[0].1 == score_of(
                        raw,
                        survivors[0],
                    ));
                } else {
                    assert(out[i] == rest[i - 1]);
                    assert(sourced(
                        survivors.drop_first(),
                        raw,
                        invm,
                        translated(survivors.drop_first(), raw, invm)[i - 1],
                    ));
                    lemma_sourced_widen(survivors, raw, invm, rest[i - 1]);
                }
            } else {
                assert(out[i] == rest[i]);
                assert(sourced(
                    survivors.drop_first(),
                    raw,
                    invm,
                    translated(survivors.drop_first(), raw, invm)[i],
                ));
                lemma_sourced_widen(survivors, raw, invm, rest[i]);
            }
        }
    }
}

/// Every pair a search returns rises from an internal id that is not
/// tombstoned and that the inverse map resolves to exactly that external
/// identifier, with exactly the score the graph paired with it: a deleted
/// vector's id can never reach the output.
pub proof fn lemma_search_suppresses_tombstoned(
    raw: Seq<(u64, u32)>,
    t: Set<u64>,
    invm: Map<u64, XidKey>,
)
    ensures
        forall|i: int|
            0 <= i < search_output(raw, t, invm).len() ==> #[trigger] untombstoned_source(
                raw,
                t,
                invm,
                search_output(raw, t, invm)[i],
            ),
{
    let survivors = surviving(hit_ids(raw), t);
    crate::tombstones::lemma_filter_suppresses(hit_ids(raw), t);
    lemma_translated_sources(survivors, raw, invm);
    assert forall|i: int| 0 <= i < search_output(raw, t, invm).len() implies
        #[trigger] untombstoned_source(raw, t, invm, search_output(raw, t, invm)[i]) by {
        let p = search_output(raw, t, invm)[i];
        assert(p == translated(survivors, raw, invm)[i]);
        assert(sourced(survivors, raw, invm, translated(survivors, raw, invm)[i]));
        let id = choose|id: u64|
            #![auto]
            survivors.contains(id) && invm.contains_key(id) && invm[id] == p.0 && p.1
                == score_of(raw, id);
        let w = choose|w: int| 0 <= w < survivors.len() && survivors[w] == id;
        assert(!t.contains(survivors[w]));
        assert(!t.contains(id) && invm.contains_key(id) && invm[id] == p.0 && p.1 == score_of(
            raw,
            id,
        ));
    }
}

} // verus!
