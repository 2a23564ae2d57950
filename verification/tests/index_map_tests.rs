use vector_store::identifier::VectorIdentifier;
use vector_store::index_map::IndexMap;

fn ident(doc: u128, sentence: i32) -> VectorIdentifier {
    VectorIdentifier {
        doc_id: doc,
        field: "body".to_string(),
        paragraph_id: 0,
        start: 0,
        end: sentence,
    }
}

#[test]
fn insert() {
    let mut map = IndexMap::new();

    let doc_id0 = ident(0, 0);
    let doc_id1 = ident(0, 1);

    map.insert(&doc_id0, 0).unwrap();
    map.insert(&doc_id1, 4).unwrap();

    assert_eq!(map.get_vec_ids(&doc_id0).unwrap(), vec![0]);
    assert_eq!(map.get_vec_ids(&doc_id1).unwrap(), vec![4]);

    assert_eq!(map.get_doc_id(0).unwrap(), doc_id0);
    assert_eq!(map.get_doc_id(4).unwrap(), doc_id1);
}

#[test]
fn insert_dup() {
    let mut map = IndexMap::new();

    let doc_id0 = ident(0, 0);
    let doc_id1 = ident(0, 1);

    map.insert(&doc_id0, 0).unwrap();
    map.insert(&doc_id0, 1).unwrap();
    map.insert(&doc_id0, 2).unwrap();
    map.insert(&doc_id1, 3).unwrap();
    map.insert(&doc_id1, 4).unwrap();

    assert_eq!(map.get_vec_ids(&doc_id0).unwrap(), vec![0, 1, 2]);
    assert_eq!(map.get_vec_ids(&doc_id1).unwrap(), vec![3, 4]);

    assert_eq!(map.get_doc_id(0).unwrap(), doc_id0);
    assert_eq!(map.get_doc_id(1).unwrap(), doc_id0);
    assert_eq!(map.get_doc_id(2).unwrap(), doc_id0);

    assert_eq!(map.get_doc_id(3).unwrap(), doc_id1);
    assert_eq!(map.get_doc_id(4).unwrap(), doc_id1);
}

#[test]
fn delete() {
    let mut map = IndexMap::new();

    let doc_id0 = ident(0, 0);
    let doc_id1 = ident(0, 1);

    map.insert(&doc_id0, 0).unwrap();
    map.insert(&doc_id0, 1).unwrap();
    map.insert(&doc_id0, 2).unwrap();
    map.insert(&doc_id1, 3).unwrap();
    map.insert(&doc_id1, 4).unwrap();
    map.insert(&doc_id1, 5).unwrap();

    assert_eq!(map.get_vec_ids(&doc_id0).unwrap(), vec![0, 1, 2]);

    map.delete(&doc_id0).unwrap();
    assert!(map.get_vec_ids(&doc_id0).unwrap().is_empty());
    assert_eq!(map.get_vec_ids(&doc_id1).unwrap(), vec![3, 4, 5]);

    // The vectors still exist in the committed payload, so the inverse
    // direction keeps resolving them.
    assert_eq!(map.get_doc_id(0).unwrap(), doc_id0);
    assert_eq!(map.get_doc_id(1).unwrap(), doc_id0);
    assert_eq!(map.get_doc_id(2).unwrap(), doc_id0);

    map.delete(&doc_id1).unwrap();
    assert!(map.get_vec_ids(&doc_id1).unwrap().is_empty());
}

#[test]
fn insert_batch() {
    let mut map = IndexMap::new();

    let doc_id0 = ident(0, 0);
    let doc_id1 = ident(0, 1);

    map.insert_batch(
        &vec![
            doc_id0.clone(),
            doc_id0.clone(),
            doc_id0.clone(),
            doc_id1.clone(),
            doc_id1.clone(),
        ],
        &vec![0, 1, 2, 3, 4],
    )
    .unwrap();

    assert_eq!(map.get_vec_ids(&doc_id0).unwrap(), vec![0, 1, 2]);
    assert_eq!(map.get_vec_ids(&doc_id1).unwrap(), vec![3, 4]);

    assert_eq!(map.get_doc_id(0).unwrap(), doc_id0);
    assert_eq!(map.get_doc_id(1).unwrap(), doc_id0);
    assert_eq!(map.get_doc_id(2).unwrap(), doc_id0);

    assert_eq!(map.get_doc_id(3).unwrap(), doc_id1);
    assert_eq!(map.get_doc_id(4).unwrap(), doc_id1);
}

#[test]
fn lookup_misses_are_not_found() {
    let map = IndexMap::new();
    let e = map.get_doc_id(0).unwrap_err();
    assert_eq!(e, vector_store::errors::VectorError::NotFound);
    assert!(map.get_vec_ids(&ident(9, 9)).unwrap().is_empty());
}
