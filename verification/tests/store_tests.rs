use vector_store::errors::VectorError;
use vector_store::identifier::VectorIdentifier;
use vector_store::reader::Reader;
use vector_store::writer::Writer;

fn create_vector(n_dim: usize, u: f32) -> granne::angular::Vector<'static> {
    granne::angular::Vector((0..n_dim).map(|_| u).collect::<Vec<f32>>().into())
}

fn xid(n: u128) -> VectorIdentifier {
    VectorIdentifier {
        doc_id: n,
        field: "body".to_string(),
        paragraph_id: 0,
        start: 0,
        end: 0,
    }
}

fn root_of(dir: &tempfile::TempDir) -> String {
    dir.path().to_str().unwrap().to_string()
}

fn snapshot(w: &Writer, root: &str) -> Reader {
    Reader::from_parts(
        root,
        w.build_index(),
        w.snapshot_tombstones(),
        w.snapshot_index_map(),
    )
    .unwrap()
}

fn reload(r: &mut Reader, w: &Writer) {
    r.lock_for_reload().unwrap();
    r.install(
        w.build_index(),
        w.snapshot_tombstones(),
        w.snapshot_index_map(),
    );
    r.unlock_after_reload();
    r.clear_dirty();
}

#[test]
fn only_one_writer() {
    let tmpdir = tempfile::tempdir().unwrap();
    let root = root_of(&tmpdir);
    let w1 = Writer::open(&root);
    let w2 = Writer::open(&root);

    assert!(w1.is_ok());
    assert!(w2.is_err());
}

#[test]
fn writer_exclusion() {
    // A second writer is told the store is busy; after the first closes, a
    // third succeeds.
    let tmpdir = tempfile::tempdir().unwrap();
    let root = root_of(&tmpdir);
    let mut a = Writer::open(&root).unwrap();
    let b = match Writer::open(&root) {
        Ok(_) => panic!("a second writer must be refused"),
        Err(e) => e,
    };
    assert_eq!(b, VectorError::WriterBusy);
    a.close();
    let c = Writer::open(&root);
    assert!(c.is_ok());
}

#[test]
fn push() {
    let tmpdir = tempfile::tempdir().unwrap();
    let root = root_of(&tmpdir);
    let mut writer = Writer::open(&root).unwrap();

    let doc_id1 = VectorIdentifier {
        doc_id: 0,
        field: "body".to_string(),
        paragraph_id: 0,
        start: 0,
        end: 100,
    };
    let doc_id2 = VectorIdentifier {
        doc_id: 1,
        field: "body".to_string(),
        paragraph_id: 1,
        start: 100,
        end: 200,
    };
    let doc_id3 = VectorIdentifier {
        doc_id: 2,
        field: "body".to_string(),
        paragraph_id: 0,
        start: 0,
        end: 100,
    };

    writer.push(&doc_id1, &create_vector(3, 1.0)).unwrap();
    writer.push(&doc_id1, &create_vector(3, 2.0)).unwrap();
    writer.push(&doc_id1, &create_vector(3, 3.0)).unwrap();

    writer.commit().unwrap();

    writer.push(&doc_id2, &create_vector(3, 4.0)).unwrap();
    writer.push(&doc_id2, &create_vector(3, 5.0)).unwrap();

    writer.commit().unwrap();

    writer.push(&doc_id3, &create_vector(3, 6.0)).unwrap();
    writer.push(&doc_id3, &create_vector(3, 7.0)).unwrap();

    writer.commit().unwrap();
}

#[test]
fn reader_and_writer() {
    let tmpdir = tempfile::tempdir().unwrap();
    let root = root_of(&tmpdir);
    let mut writer = Writer::open(&root).unwrap();

    let doc_id1 = VectorIdentifier {
        doc_id: 0,
        field: "body".to_string(),
        paragraph_id: 0,
        start: 0,
        end: 100,
    };

    writer.push(&doc_id1, &create_vector(3, 1.0)).unwrap();
    writer.push(&doc_id1, &create_vector(3, 2.0)).unwrap();
    writer.push(&doc_id1, &create_vector(3, 3.0)).unwrap();

    writer.commit().unwrap();

    let mut reader = snapshot(&writer, &root);
    reader.clear_dirty();
    let res = reader.search(&create_vector(3, 1.0));

    let doc_ids: Vec<_> = res.iter().map(|(doc_id, _score)| doc_id.clone()).collect();
    assert_eq!(
        doc_ids,
        vec![doc_id1.clone(), doc_id1.clone(), doc_id1.clone()]
    );

    let doc_id2 = VectorIdentifier {
        doc_id: 1,
        field: "body".to_string(),
        paragraph_id: 1,
        start: 100,
        end: 200,
    };

    writer.push(&doc_id2, &create_vector(3, 4.0)).unwrap();
    writer.push(&doc_id2, &create_vector(3, 5.0)).unwrap();
    writer.push(&doc_id2, &create_vector(3, 6.0)).unwrap();

    writer.commit().unwrap();

    assert!(reader.is_dirty());
    reload(&mut reader, &writer);

    let res = reader.search(&create_vector(3, 3.0));

    let doc_ids: Vec<_> = res.iter().map(|(doc_id, _score)| doc_id.clone()).collect();
    assert_eq!(
        doc_ids,
        vec![
            doc_id1.clone(),
            doc_id1.clone(),
            doc_id1.clone(),
            doc_id2.clone(),
            doc_id2.clone(),
            doc_id2.clone()
        ]
    );
}

#[test]
fn density_of_assigned_ids() {
    // After n pushes into a fresh store the payload holds n vectors and the
    // assigned internal ids are exactly 0 .. n.
    let tmpdir = tempfile::tempdir().unwrap();
    let root = root_of(&tmpdir);
    let mut writer = Writer::open(&root).unwrap();
    assert_eq!(writer.payload_count(), 0);

    let n = 5u64;
    for i in 0..n {
        writer.push(&xid(100 + i as u128), &create_vector(3, i as f32 + 1.0)).unwrap();
        assert_eq!(writer.payload_count() as u64, i + 1);
    }

    let map = writer.snapshot_index_map();
    for i in 0..n {
        assert_eq!(map.get_doc_id(i).unwrap(), xid(100 + i as u128));
    }
    assert_eq!(map.get_doc_id(n).unwrap_err(), VectorError::NotFound);
}

#[test]
fn push_order_round_trip() {
    // Vectors pushed under one identifier come back in push order, and each
    // internal id resolves back to the identifier.
    let tmpdir = tempfile::tempdir().unwrap();
    let root = root_of(&tmpdir);
    let mut writer = Writer::open(&root).unwrap();

    let x = xid(7);
    writer.push(&xid(1), &create_vector(3, 1.0)).unwrap();
    writer.push(&x, &create_vector(3, 2.0)).unwrap();
    writer.push(&xid(2), &create_vector(3, 3.0)).unwrap();
    writer.push(&x, &create_vector(3, 4.0)).unwrap();
    writer.push(&x, &create_vector(3, 5.0)).unwrap();

    let map = writer.snapshot_index_map();
    let iids = map.get_vec_ids(&x).unwrap();
    assert_eq!(iids, vec![1, 3, 4]);
    for i in iids {
        assert_eq!(map.get_doc_id(i).unwrap(), x);
    }
}

#[test]
fn basic_recall() {
    let tmpdir = tempfile::tempdir().unwrap();
    let root = root_of(&tmpdir);
    let mut writer = Writer::open(&root).unwrap();

    writer
        .push(&xid(1), &granne::angular::Vector(vec![1.0f32, 0.0, 0.0].into()))
        .unwrap();
    writer
        .push(&xid(2), &granne::angular::Vector(vec![0.0f32, 1.0, 0.0].into()))
        .unwrap();
    writer
        .push(&xid(3), &granne::angular::Vector(vec![0.0f32, 0.0, 1.0].into()))
        .unwrap();
    writer.commit().unwrap();

    let reader = snapshot(&writer, &root);
    let res = reader.search(&granne::angular::Vector(vec![1.0f32, 0.0, 0.0].into()));
    assert!(!res.is_empty());
    assert_eq!(res[0].0.doc_id, 1);
    let score = f32::from_bits(res[0].1);
    assert!(score.abs() < 1e-4);
}

#[test]
fn duplicate_xid() {
    let tmpdir = tempfile::tempdir().unwrap();
    let root = root_of(&tmpdir);
    let mut writer = Writer::open(&root).unwrap();

    let seven = xid(7);
    writer.push(&seven, &create_vector(3, 1.0)).unwrap();
    writer.push(&seven, &create_vector(3, 2.0)).unwrap();
    writer.push(&seven, &create_vector(3, 3.0)).unwrap();
    writer.commit().unwrap();

    let reader = snapshot(&writer, &root);
    let res = reader.search(&create_vector(3, 1.0));
    assert_eq!(res.len(), 3);
    for (doc, _score) in res {
        assert_eq!(doc.doc_id, 7);
    }
}

#[test]
fn delete_suppresses() {
    let tmpdir = tempfile::tempdir().unwrap();
    let root = root_of(&tmpdir);
    let mut writer = Writer::open(&root).unwrap();

    let seven = xid(7);
    writer.push(&seven, &create_vector(3, 1.0)).unwrap();
    writer.push(&seven, &create_vector(3, 2.0)).unwrap();
    writer.push(&seven, &create_vector(3, 3.0)).unwrap();
    writer.commit().unwrap();

    writer.delete(&seven).unwrap();
    writer.commit().unwrap();

    let reader = snapshot(&writer, &root);
    let res = reader.search(&create_vector(3, 1.0));
    assert!(res.is_empty());
}

#[test]
fn reload_on_dirty() {
    let tmpdir = tempfile::tempdir().unwrap();
    let root = root_of(&tmpdir);
    let mut writer = Writer::open(&root).unwrap();
    writer
        .push(&xid(1), &granne::angular::Vector::from(vec![1.0f32, 0.0, 0.0]))
        .unwrap();
    writer.commit().unwrap();

    let mut reader = snapshot(&writer, &root);
    reader.clear_dirty();
    assert!(!reader.is_dirty());

    writer
        .push(&xid(42), &granne::angular::Vector::from(vec![9.0f32, 9.0, 9.0]))
        .unwrap();
    writer.commit().unwrap();

    // The dirty flag tells the reader its snapshot is stale; after a reload
    // the fresh vector is served.
    assert!(reader.is_dirty());
    reload(&mut reader, &writer);
    assert!(!reader.is_dirty());

    let res = reader.search(&granne::angular::Vector::from(vec![9.0f32, 9.0, 9.0]));
    assert_eq!(res[0].0.doc_id, 42);
}

#[test]
fn commit_torn_surfaces() {
    let tmpdir = tempfile::tempdir().unwrap();
    let root = root_of(&tmpdir);
    let mut writer = Writer::open(&root).unwrap();
    writer.push(&xid(1), &create_vector(3, 1.0)).unwrap();

    // A directory squatting on the graph file's name makes the second
    // rename fail after the first succeeded.
    let _blocker = tempfile::Builder::new()
        .prefix("index.dat")
        .rand_bytes(0)
        .tempdir_in(tmpdir.path())
        .unwrap();

    let e = writer.commit().unwrap_err();
    assert_eq!(e, VectorError::CommitTorn);
    // The payload file landed before the failure: the pair is torn, not
    // silently missing.
    assert!(std::path::Path::new(&format!("{}/elements.dat", root)).exists());
}

#[test]
fn batch_equals_singles() {
    // The same ten thousand pairs, once through push_batch and once pushed
    // singly, leave identical id-maps. (A commit provably leaves the id-map
    // untouched, so the comparison is made on the uncommitted sessions.)
    let n: u64 = 10_000;
    let dir_a = tempfile::tempdir().unwrap();
    let dir_b = tempfile::tempdir().unwrap();
    let root_a = root_of(&dir_a);
    let root_b = root_of(&dir_b);

    let mut batch_writer = Writer::open(&root_a).unwrap();
    let mut single_writer = Writer::open(&root_b).unwrap();

    let pairs: Vec<(VectorIdentifier, granne::angular::Vector<'static>)> = (0..n)
        .map(|i| (xid((i % 100) as u128), create_vector(3, i as f32 + 1.0)))
        .collect();

    batch_writer.push_batch(&pairs).unwrap();
    for (id, v) in &pairs {
        single_writer.push(id, v).unwrap();
    }

    assert_eq!(batch_writer.payload_count(), n as usize);
    assert_eq!(single_writer.payload_count(), n as usize);

    let map_a = batch_writer.snapshot_index_map();
    let map_b = single_writer.snapshot_index_map();
    for d in 0..100u128 {
        assert_eq!(
            map_a.get_vec_ids(&xid(d)).unwrap(),
            map_b.get_vec_ids(&xid(d)).unwrap()
        );
    }
    for i in 0..n {
        assert_eq!(map_a.get_doc_id(i).unwrap(), map_b.get_doc_id(i).unwrap());
    }
}

#[test]
fn writer_open_missing_dir() {
    let e = match Writer::open("/tmp/this_dir_doesnt_exists/store") {
        Ok(_) => panic!("a missing directory must be refused"),
        Err(e) => e,
    };
    assert_eq!(e, VectorError::IoError);
}

#[test]
fn empty_store_serves_no_hits() {
    let tmpdir = tempfile::tempdir().unwrap();
    let root = root_of(&tmpdir);
    let writer = Writer::open(&root).unwrap();
    let reader = snapshot(&writer, &root);
    let res = reader.search(&create_vector(3, 1.0));
    assert!(res.is_empty());
}

#[test]
fn empty_batch_is_a_no_op() {
    let tmpdir = tempfile::tempdir().unwrap();
    let root = root_of(&tmpdir);
    let mut writer = Writer::open(&root).unwrap();
    writer.push_batch(&vec![]).unwrap();
    assert_eq!(writer.payload_count(), 0);
}

#[test]
fn reopen_with_state_sees_earlier_pairs() {
    // A re-opened session seeded with the store's id-map and tombstones
    // deletes vectors recorded by the earlier session.
    let tmpdir = tempfile::tempdir().unwrap();
    let root = root_of(&tmpdir);
    let mut first = Writer::open(&root).unwrap();
    let seven = xid(7);
    first.push(&seven, &create_vector(3, 1.0)).unwrap();
    first.push(&seven, &create_vector(3, 2.0)).unwrap();
    let saved_tombs = first.snapshot_tombstones();
    let saved_map = first.snapshot_index_map();
    let count = first.payload_count();
    first.close();

    // Stand in for the memory-mapped payload of a real reopen.
    let mut payload = vector_store::graph::vectors_new();
    vector_store::graph::vectors_push(&mut payload, &create_vector(3, 1.0));
    vector_store::graph::vectors_push(&mut payload, &create_vector(3, 2.0));
    assert_eq!(vector_store::graph::vectors_len(&payload), count);

    let mut second =
        Writer::open_with_state(&root, payload, saved_tombs, saved_map).unwrap();
    second.delete(&seven).unwrap();
    let tombs = second.snapshot_tombstones();
    assert!(tombs.contains(0));
    assert!(tombs.contains(1));
    second.close();
}
