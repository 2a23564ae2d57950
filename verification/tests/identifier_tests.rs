use std::str::FromStr;

use vector_store::identifier::VectorIdentifier;

#[test]
fn test_from_str() {
    // Format: UUID/field/UUID/start-end
    let doc_id = "4ffa4021-0932-4835-bd92-19e92c047293";
    let paragraph_id = "250c7835-1736-4776-afa0-08490c647cb0";

    let input = format!("{}/body/{}/10-20", doc_id, paragraph_id);
    let result = VectorIdentifier::from_text(input.as_str()).unwrap();

    let vi = VectorIdentifier {
        doc_id: uuid::Uuid::from_str(doc_id).unwrap().as_u128(),
        field: "body".to_string(),
        paragraph_id: uuid::Uuid::from_str(paragraph_id).unwrap().as_u128(),
        start: 10,
        end: 20,
    };

    assert_eq!(result, vi);
}

#[test]
fn text_round_trip() {
    let vi = VectorIdentifier {
        doc_id: uuid::Uuid::from_str("4ffa4021-0932-4835-bd92-19e92c047293")
            .unwrap()
            .as_u128(),
        field: "title".to_string(),
        paragraph_id: uuid::Uuid::from_str("250c7835-1736-4776-afa0-08490c647cb0")
            .unwrap()
            .as_u128(),
        start: 0,
        end: 100,
    };
    let text = vi.to_text().unwrap();
    assert_eq!(
        text,
        "4ffa4021-0932-4835-bd92-19e92c047293/title/250c7835-1736-4776-afa0-08490c647cb0/0-100"
    );
    let back = VectorIdentifier::from_text(text.as_str()).unwrap();
    assert_eq!(back, vi);
}

#[test]
fn negative_end_parses() {
    let input = "00000000-0000-0000-0000-000000000001/f/00000000-0000-0000-0000-000000000002/5--3";
    let vi = VectorIdentifier::from_text(input).unwrap();
    assert_eq!(vi.start, 5);
    assert_eq!(vi.end, -3);
}

#[test]
fn malformed_text_is_rejected() {
    assert!(VectorIdentifier::from_text("").is_err());
    assert!(VectorIdentifier::from_text("not-a-uuid/f/also-not/1-2").is_err());
    assert!(
        VectorIdentifier::from_text("4ffa4021-0932-4835-bd92-19e92c047293/body").is_err()
    );
    assert!(VectorIdentifier::from_text(
        "4ffa4021-0932-4835-bd92-19e92c047293/body/250c7835-1736-4776-afa0-08490c647cb0/10"
    )
    .is_err());
    assert!(VectorIdentifier::from_text(
        "4ffa4021-0932-4835-bd92-19e92c047293/body/250c7835-1736-4776-afa0-08490c647cb0/-10-2"
    )
    .is_err());
}

#[test]
fn uppercase_uuid_accepted() {
    let input = "4FFA4021-0932-4835-BD92-19E92C047293/b/250c7835-1736-4776-afa0-08490c647cb0/1-2";
    let vi = VectorIdentifier::from_text(input).unwrap();
    assert_eq!(
        vi.doc_id,
        uuid::Uuid::from_str("4ffa4021-0932-4835-bd92-19e92c047293")
            .unwrap()
            .as_u128()
    );
}

#[test]
fn key_bytes_round_trip() {
    let vi = VectorIdentifier {
        doc_id: 77,
        field: "body".to_string(),
        paragraph_id: 88,
        start: -5,
        end: 1000,
    };
    let key = vi.key_bytes();
    assert_eq!(key.len(), 48 + 4);
    let (doc, field_bytes, par, start, end) =
        VectorIdentifier::from_key_bytes(&key).unwrap();
    assert_eq!(doc, 77);
    assert_eq!(field_bytes, b"body".to_vec());
    assert_eq!(par, 88);
    assert_eq!(start, -5);
    assert_eq!(end, 1000);
    assert_eq!(VectorIdentifier::from_key_bytes(&vec![1, 2, 3]), None);
}
