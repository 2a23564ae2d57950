use vector_store::errors::VectorError;

#[test]
fn every_error_describes_itself() {
    let all = [
        VectorError::WriterBusy,
        VectorError::IoError,
        VectorError::IdMapError,
        VectorError::TombstoneError,
        VectorError::CommitTorn,
        VectorError::NotFound,
    ];
    for e in all {
        assert!(!e.describe().is_empty());
    }
    assert_ne!(
        VectorError::WriterBusy.describe(),
        VectorError::CommitTorn.describe()
    );
}
