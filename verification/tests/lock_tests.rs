use vector_store::errors::LockError;
use vector_store::lock::Lock;

fn lock_path(dir: &tempfile::TempDir) -> String {
    format!("{}/lock", dir.path().to_str().unwrap())
}

fn file_present(p: &str) -> bool {
    std::path::Path::new(p).exists()
}

#[test]
fn basic_lock() {
    let dir = tempfile::tempdir().unwrap();
    let p = lock_path(&dir);
    let mut lock = Lock::open(&p).unwrap();

    assert!(lock.try_lock().is_ok());
    assert!(file_present(&p));
    lock.unlock();
    assert!(!file_present(&p));
}

#[test]
fn try_second_lock() {
    let dir = tempfile::tempdir().unwrap();
    let p = lock_path(&dir);
    let mut lock1 = Lock::open(&p).unwrap();
    let mut lock2 = Lock::open(&p).unwrap();

    assert!(lock1.try_lock().is_ok());
    assert!(lock1.is_locked());
    assert!(lock2.try_lock().is_err());

    lock1.unlock();
    assert!(!lock1.is_locked());
    assert!(!lock2.is_locked());
    assert!(lock2.try_lock().is_ok());
    assert!(lock2.is_locked());
}

#[test]
fn destroy_dont_delete_lock_file() {
    let dir = tempfile::tempdir().unwrap();
    let p = lock_path(&dir);
    {
        let mut lock = Lock::open(&p).unwrap();
        assert!(lock.try_lock().is_ok());
    }

    assert!(file_present(&p));

    let mut lock2 = Lock::open(&p).unwrap();
    assert!(lock2.try_lock().is_err());

    lock2.unlock();
    assert!(lock2.try_lock().is_ok());
}

#[test]
fn parent_dir_doesnt_exists() {
    let temp_file = "/tmp/this_dir_doesnt_exists/lock".to_string();
    let lock = Lock::open(&temp_file);
    assert!(lock.is_err());
}

#[test]
fn already_held_is_reported() {
    let dir = tempfile::tempdir().unwrap();
    let p = lock_path(&dir);
    let mut holder = Lock::open(&p).unwrap();
    holder.try_lock().unwrap();
    let mut contender = Lock::open(&p).unwrap();
    assert_eq!(contender.try_lock().unwrap_err(), LockError::AlreadyHeld);
}
