//! The proximity-graph library behind the store.
//!
//! The store keeps its vectors in the graph library's dense payload
//! collection, rebuilds a layered proximity graph over them at each commit,
//! and serves nearest-neighbor queries through the graph's search. All of
//! that behaviour belongs to the outside library; the items below declare
//! its types and state, over a handful of named measures, what the store's
//! own logic relies on. Scores cross this boundary as the bit patterns of
//! the library's 32-bit floats.
//!
//! Besides the counting measures, three well-formedness measures thread
//! through the boundary: a vector whose scalars granne's angular distance
//! accepts, a payload all of whose vectors it accepts, and a graph built by
//! this crate over such a payload. granne's distance stops the process on a
//! scalar that is not a number, and a graph not produced here can hold
//! out-of-range neighbor ids, so the build and search items require these
//! measures and the constructors account for them.

use vstd::prelude::*;

use crate::errors::VectorError;

verus! {

#[verifier::external_type_specification]
#[verifier::external_body]
pub struct ExVector<'a>(granne::angular::Vector<'a>);

#[verifier::external_type_specification]
#[verifier::external_body]
pub struct ExVectors<'a>(granne::angular::Vectors<'a>);

#[verifier::external_type_specification]
#[verifier::external_body]
#[verifier::reject_recursive_types(Elements)]
pub struct ExGranne<'a, Elements>(granne::Granne<'a, Elements>);

/// The graph builder, held whole behind an opaque wrapper: its own type's
/// bound names a trait of the outside crate that the verifier cannot see.
#[verifier::external_body]
pub struct GraphBuilder {
    inner: granne::GranneBuilder<granne::angular::Vectors<'static>>,
}

#[verifier::external_type_specification]
#[verifier::external_body]
pub struct ExBuildConfig(granne::BuildConfig);

/// How many vectors a payload collection holds.
pub uninterp spec fn elements_count(es: granne::angular::Vectors<'static>) -> nat;

/// The dimension shared by the collection's vectors; zero while none decides
/// it.
pub uninterp spec fn elements_dim(es: granne::angular::Vectors<'static>) -> nat;

/// The number of scalars in one vector.
pub uninterp spec fn vector_dim(v: granne::angular::Vector<'static>) -> nat;

/// The vector is one granne's angular distance accepts: a distance against
/// it and any other accepted vector evaluates to a number rather than
/// stopping the process. The normalized vectors granne's own constructor
/// produces qualify; finite scalars alone need their dot products to stay
/// finite too.
pub uninterp spec fn vector_well_formed(v: granne::angular::Vector<'static>) -> bool;

/// Every vector the collection holds is one the distance accepts.
pub uninterp spec fn elements_well_formed(es: granne::angular::Vectors<'static>) -> bool;

/// How many vectors a builder was given to index.
pub uninterp spec fn builder_total(b: GraphBuilder) -> nat;

/// How many of them its graph indexes so far.
pub uninterp spec fn builder_indexed(b: GraphBuilder) -> nat;

/// The builder holds a payload the distance accepts, so building cannot
/// stop the process.
pub uninterp spec fn builder_well_formed(b: GraphBuilder) -> bool;

/// How many vectors a searchable graph knows; every hit's internal id lies
/// below it.
pub uninterp spec fn graph_count(
    g: granne::Granne<'static, granne::angular::Vectors<'static>>,
) -> nat;

/// The graph came out of this crate's builder over an acceptable payload:
/// its neighbor lists point inside the payload and searching it cannot
/// stop the process. A graph memory-mapped from arbitrary bytes has no such
/// guarantee; a caller handing one in vouches for its provenance.
pub uninterp spec fn graph_well_formed(
    g: granne::Granne<'static, granne::angular::Vectors<'static>>,
) -> bool;

/// What granne's search returns for a graph, a query and the two limits.
/// The query path is sequential and reads only its arguments, so the hits
/// are a function of them alone.
pub uninterp spec fn search_hits(
    g: granne::Granne<'static, granne::angular::Vectors<'static>>,
    q: granne::angular::Vector<'static>,
    max_search: nat,
    num_neighbors: nat,
) -> Seq<(u64, u32)>;

/// Relies on granne's `angular::Vectors::new`: an empty collection with no
/// dimension fixed yet, trivially acceptable to the distance.
#[verifier::external_body]
pub fn vectors_new() -> (r: granne::angular::Vectors<'static>)
    ensures
        elements_count(r) == 0,
        elements_dim(r) == 0,
        elements_well_formed(r),
{
    granne::angular::Vectors::new()
}

/// Relies on granne's `angular::Vectors::len`.
#[verifier::external_body]
pub fn vectors_len(es: &granne::angular::Vectors<'static>) -> (r: usize)
    ensures
        r as nat == elements_count(*es),
{
    es.len()
}

/// Relies on granne's `angular::Vectors::dim`.
#[verifier::external_body]
pub fn vectors_dim(es: &granne::angular::Vectors<'static>) -> (r: usize)
    ensures
        r as nat == elements_dim(*es),
{
    es.dim()
}

/// Relies on granne's `angular::Vector::len`.
#[verifier::external_body]
pub fn vector_len(v: &granne::angular::Vector<'static>) -> (r: usize)
    ensures
        r as nat == vector_dim(*v),
{
    v.len()
}

/// Relies on granne's `angular::Vectors::push`: appends one vector; the
/// first push fixes the collection's dimension and later pushes must match
/// it (granne stops the process otherwise, so the mismatch is ruled out
/// here). A vector of no scalars is ruled out too: granne would leave the
/// dimension unset and the count unchanged, so the count clause would not
/// hold of it. The collection stays acceptable exactly when it was and the
/// new vector is.
#[verifier::external_body]
pub fn vectors_push(
    es: &mut granne::angular::Vectors<'static>,
    v: &granne::angular::Vector<'static>,
)
    requires
        vector_dim(*v) > 0,
        elements_dim(*old(es)) == 0 || vector_dim(*v) == elements_dim(*old(es)),
    ensures
        elements_count(*final(es)) == elements_count(*old(es)) + 1,
        elements_dim(*final(es)) == if elements_dim(*old(es)) == 0 {
            vector_dim(*v)
        } else {
            elements_dim(*old(es))
        },
        elements_well_formed(*final(es)) == (elements_well_formed(*old(es))
            && vector_well_formed(*v)),
{
    es.push(v)
}

/// Relies on granne's derived `Clone` for `angular::Vectors`.
#[verifier::external_body]
pub fn vectors_clone(es: &granne::angular::Vectors<'static>) -> (r: granne::angular::Vectors<
    'static,
>)
    ensures
        elements_count(r) == elements_count(*es),
        elements_dim(r) == elements_dim(*es),
        elements_well_formed(r) == elements_well_formed(*es),
{
    es.clone()
}

/// Relies on granne's `BuildConfig::default`: fan-out 30, search breadth
/// 200, layer multiplier 15.
#[verifier::external_body]
pub fn default_build_config() -> granne::BuildConfig {
    granne::BuildConfig::default()
}

/// Relies on granne's `GranneBuilder::new`; granne insists that the payload
/// stays below its 32-bit id space. The builder is acceptable exactly when
/// the payload is.
#[verifier::external_body]
pub fn builder_new(config: granne::BuildConfig, es: granne::angular::Vectors<'static>) -> (r:
    GraphBuilder)
    requires
        elements_count(es) < 0xFFFF_FFFF,
    ensures
        builder_total(r) == elements_count(es),
        builder_indexed(r) == 0,
        builder_well_formed(r) == elements_well_formed(es),
{
    GraphBuilder { inner: granne::GranneBuilder::new(config, es) }
}

/// Relies on granne's `Builder::build`: after it, the graph indexes every
/// vector the builder was given. Building computes distances between the
/// stored vectors, so the payload must be acceptable.
#[verifier::external_body]
pub fn builder_build(b: &mut GraphBuilder)
    requires
        builder_well_formed(*old(b)),
    ensures
        builder_total(*final(b)) == builder_total(*old(b)),
        builder_indexed(*final(b)) == builder_total(*old(b)),
        builder_well_formed(*final(b)) == builder_well_formed(*old(b)),
{
    granne::Builder::build(&mut b.inner)
}

/// Relies on granne's `GranneBuilder::get_index` and `Granne::to_owned`: a
/// searchable snapshot of what the builder has indexed, well formed exactly
/// when the builder is.
#[verifier::external_body]
pub fn builder_index(b: &GraphBuilder) -> (r: granne::Granne<
    'static,
    granne::angular::Vectors<'static>,
>)
    ensures
        graph_count(r) == builder_indexed(*b),
        graph_well_formed(r) == builder_well_formed(*b),
{
    b.inner.get_index().to_owned()
}

/// Relies on granne's `Granne::search`: the hits for this graph, query and
/// limits — at most `num_neighbors` of them, each an internal id the graph
/// indexes, closest first, the score bits carrying the reported angular
/// distance. Searching computes distances against the query, so both the
/// graph and the query must be acceptable; and the breadth must be at
/// least one, since granne reads the best candidate of a bounded heap of
/// that size and stops the process when the bound is zero on a non-empty
/// graph.
#[verifier::external_body]
pub fn graph_search(
    g: &granne::Granne<'static, granne::angular::Vectors<'static>>,
    q: &granne::angular::Vector<'static>,
    max_search: usize,
    num_neighbors: usize,
) -> (r: Vec<(u64, u32)>)
    requires
        max_search >= 1,
        graph_well_formed(*g),
        vector_well_formed(*q),
    ensures
        r@ == search_hits(*g, *q, max_search as nat, num_neighbors as nat),
        r@.len() <= num_neighbors,
        forall|i: int| 0 <= i < r@.len() ==> (#[trigger] r@[i].0 as nat) < graph_count(*g),
{
    g.search(q, max_search, num_neighbors).into_iter().map(
        |(i, s)| (i as u64, s.to_bits()),
    ).collect()
}

/// Relies on tempfile's `NamedTempFile` and granne's `write_elements`: the
/// payload, written to a fresh temporary file in the OS temp area.
#[verifier::external_body]
pub fn save_elements(b: &GraphBuilder) -> (r: Result<tempfile::TempPath, VectorError>) {
    let mut tmp = match tempfile::NamedTempFile::new() {
        Ok(f) => f,
        Err(_) => return Err(VectorError::IoError),
    };
    match b.inner.write_elements(tmp.as_file_mut()) {
        Ok(_) => Ok(tmp.into_temp_path()),
        Err(_) => Err(VectorError::IoError),
    }
}

/// Relies on tempfile's `NamedTempFile` and granne's `write_index`: the
/// graph, written to a fresh temporary file in the OS temp area.
#[verifier::external_body]
pub fn save_index(b: &GraphBuilder) -> (r: Result<tempfile::TempPath, VectorError>) {
    let mut tmp = match tempfile::NamedTempFile::new() {
        Ok(f) => f,
        Err(_) => return Err(VectorError::IoError),
    };
    match granne::Index::write_index(&b.inner, tmp.as_file_mut()) {
        Ok(_) => Ok(tmp.into_temp_path()),
        Err(_) => Err(VectorError::IoError),
    }
}

} // verus!
