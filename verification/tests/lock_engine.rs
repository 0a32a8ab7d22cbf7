use lfs_core::locks::{
    create_lock_with, lfs_create_lock, lfs_delete_lock, lfs_get_filtered_locks, lfs_get_locks,
    lfs_retrieve_lock, lfs_verify_lock,
};
use lfs_core::store::{LfsStorage, LockRecord};
use lfs_core::types::{
    LfsError, Lock, LockListQuery, LockRequest, UnlockRequest, VerifiableLockRequest,
};

fn query(refspec: &str, path: &str, cursor: &str, limit: usize) -> LockListQuery {
    LockListQuery {
        refspec: refspec.to_string(),
        path: path.to_string(),
        cursor: cursor.to_string(),
        limit,
    }
}

fn seeded_store(n: usize) -> (LfsStorage, Vec<String>) {
    let mut storage = LfsStorage::mock();
    let mut ids = Vec::new();
    for k in 0..n {
        let id = format!("1000000{}", k);
        let req = LockRequest { refspec: "r1".to_string(), path: format!("file{}.bin", k) };
        let stamp = format!("2024-01-01T00:00:0{}+00:00", k);
        let lock = create_lock_with(&mut storage, &req, id.clone(), stamp).unwrap();
        assert_eq!(lock.id, id);
        ids.push(id);
    }
    (storage, ids)
}

#[test]
fn scenario_create_conflict_delete_list() {
    let mut storage = LfsStorage::mock();
    let req = LockRequest { refspec: "r1".to_string(), path: "a.psd".to_string() };

    let lock = lfs_create_lock(&mut storage, &req).unwrap();
    assert_eq!(lock.id.len(), 8);
    assert!(lock.id.chars().all(|c| c.is_ascii_digit()));
    assert_eq!(lock.path, "a.psd");
    assert!(lock.owner.is_none());

    let second = lfs_create_lock(&mut storage, &req);
    assert_eq!(second, Err(LfsError::Conflict));

    let unlock = UnlockRequest { refspec: "r1".to_string(), force: Some(false) };
    let removed = lfs_delete_lock(&mut storage, &lock.id, &unlock).unwrap();
    assert_eq!(removed.id, lock.id);
    assert_eq!(removed.path, "a.psd");

    let list = lfs_retrieve_lock(&storage, &query("r1", "", "", 0)).unwrap();
    assert!(list.locks.is_empty());
    assert_eq!(list.next_cursor, "");
}

#[test]
fn listing_is_repeatable_without_writes() {
    let (storage, _) = seeded_store(4);
    let first = lfs_retrieve_lock(&storage, &query("r1", "", "", 0)).unwrap();
    let second = lfs_retrieve_lock(&storage, &query("r1", "", "", 0)).unwrap();
    assert_eq!(first, second);
    assert_eq!(first.locks.len(), 4);
    assert_eq!(first.next_cursor, "");
}

#[test]
fn pagination_visits_every_lock_once_in_order() {
    let (storage, ids) = seeded_store(5);
    let limit = 2;
    let mut seen: Vec<String> = Vec::new();
    let mut cursor = String::new();
    let mut prior_cursor: Option<String> = None;
    loop {
        let page = lfs_retrieve_lock(&storage, &query("r1", "", &cursor, limit)).unwrap();
        assert!(page.locks.len() <= limit);
        if let Some(prior) = &prior_cursor {
            assert_eq!(&page.locks[0].id, prior);
        }
        for lock in &page.locks {
            seen.push(lock.id.clone());
        }
        if page.next_cursor.is_empty() {
            break;
        }
        prior_cursor = Some(page.next_cursor.clone());
        cursor = page.next_cursor;
    }
    assert_eq!(seen, ids);
}

#[test]
fn pagination_cursor_names_first_dropped_lock() {
    let (storage, ids) = seeded_store(3);
    let page = lfs_retrieve_lock(&storage, &query("r1", "", "", 2)).unwrap();
    assert_eq!(page.locks.len(), 2);
    assert_eq!(page.next_cursor, ids[2]);
}

#[test]
fn unknown_cursor_is_invalid() {
    let (storage, _) = seeded_store(2);
    let r = lfs_retrieve_lock(&storage, &query("r1", "", "99999999", 0));
    assert_eq!(r, Err(LfsError::InvalidCursor));
    let r2 = lfs_get_filtered_locks(
        &storage,
        &"r1".to_string(),
        &String::new(),
        &"99999999".to_string(),
        0,
    );
    assert_eq!(r2, Err(LfsError::InvalidCursor));
}

#[test]
fn path_filter_keeps_exact_matches_only() {
    let (storage, _) = seeded_store(3);
    let page = lfs_retrieve_lock(&storage, &query("r1", "file1.bin", "", 0)).unwrap();
    assert_eq!(page.locks.len(), 1);
    assert_eq!(page.locks[0].path, "file1.bin");
    let none = lfs_retrieve_lock(&storage, &query("r1", "file1", "", 0)).unwrap();
    assert!(none.locks.is_empty());
}

fn owned_mix_store() -> LfsStorage {
    let locks = vec![
        Lock {
            id: "10000001".to_string(),
            path: "a.bin".to_string(),
            owner: None,
            locked_at: "2024-01-01T00:00:01+00:00".to_string(),
        },
        Lock {
            id: "10000002".to_string(),
            path: "b.bin".to_string(),
            owner: Some("alice".to_string()),
            locked_at: "2024-01-01T00:00:02+00:00".to_string(),
        },
        Lock {
            id: "10000003".to_string(),
            path: "c.bin".to_string(),
            owner: None,
            locked_at: "2024-01-01T00:00:03+00:00".to_string(),
        },
    ];
    let mut storage = LfsStorage::mock();
    storage.locks.push(LockRecord { id: "r1".to_string(), locks });
    storage
}

#[test]
fn verify_partitions_ours_and_theirs() {
    let storage = owned_mix_store();
    let req = VerifiableLockRequest { refspec: "r1".to_string(), cursor: String::new(), limit: 0 };
    let parts = lfs_verify_lock(&storage, &req).unwrap();
    assert_eq!(parts.ours.len(), 2);
    assert_eq!(parts.theirs.len(), 1);
    assert!(parts.ours.iter().all(|l| l.owner.is_none()));
    assert!(parts.theirs.iter().all(|l| l.owner.is_some()));
    let mut union: Vec<&Lock> = parts.ours.iter().chain(parts.theirs.iter()).collect();
    union.sort_by(|a, b| a.id.cmp(&b.id));
    let all = lfs_get_locks(&storage, &"r1".to_string()).unwrap();
    assert_eq!(union.len(), all.len());
    for (u, a) in union.iter().zip(all.iter()) {
        assert_eq!(**u, *a);
    }
    assert_eq!(parts.next_cursor, "");
}

#[test]
fn delete_owned_lock_needs_force() {
    let mut storage = owned_mix_store();
    let no_force = UnlockRequest { refspec: "r1".to_string(), force: Some(false) };
    let r = lfs_delete_lock(&mut storage, &"10000002".to_string(), &no_force);
    assert_eq!(r, Err(LfsError::Forbidden));

    let force = UnlockRequest { refspec: "r1".to_string(), force: Some(true) };
    let removed = lfs_delete_lock(&mut storage, &"10000002".to_string(), &force).unwrap();
    assert_eq!(removed.owner.as_deref(), Some("alice"));
    assert_eq!(removed.path, "b.bin");
}

#[test]
fn delete_missing_lock_is_not_found() {
    let mut storage = owned_mix_store();
    let unlock = UnlockRequest { refspec: "r1".to_string(), force: None };
    let r = lfs_delete_lock(&mut storage, &"77777777".to_string(), &unlock);
    assert_eq!(r, Err(LfsError::NotFound));
    let r2 = lfs_delete_lock(&mut storage, &"10000001".to_string(), &UnlockRequest {
        refspec: "missing".to_string(),
        force: None,
    });
    assert_eq!(r2, Err(LfsError::NotFound));
}

#[test]
fn delete_empty_id_is_general_error() {
    let mut storage = owned_mix_store();
    let unlock = UnlockRequest { refspec: "r1".to_string(), force: None };
    let r = lfs_delete_lock(&mut storage, &String::new(), &unlock);
    assert_eq!(r, Err(LfsError::GeneralError));
}

#[test]
fn deleting_last_lock_removes_the_record() {
    let mut storage = LfsStorage::mock();
    let req = LockRequest { refspec: "r1".to_string(), path: "solo.bin".to_string() };
    let lock = lfs_create_lock(&mut storage, &req).unwrap();
    assert_eq!(storage.locks.len(), 1);

    let unlock = UnlockRequest { refspec: "r1".to_string(), force: None };
    lfs_delete_lock(&mut storage, &lock.id, &unlock).unwrap();
    assert!(storage.locks.is_empty());

    let list = lfs_retrieve_lock(&storage, &query("r1", "", "", 0)).unwrap();
    assert!(list.locks.is_empty());
    assert_eq!(list.next_cursor, "");
}

#[test]
fn locks_stay_ordered_by_timestamp() {
    let mut storage = LfsStorage::mock();
    let stamps = ["2024-03-01T00:00:00+00:00", "2024-01-01T00:00:00+00:00", "2024-02-01T00:00:00+00:00"];
    for (k, stamp) in stamps.iter().enumerate() {
        let req = LockRequest { refspec: "r1".to_string(), path: format!("f{}.bin", k) };
        create_lock_with(&mut storage, &req, format!("2000000{}", k), stamp.to_string()).unwrap();
    }
    let all = lfs_get_locks(&storage, &"r1".to_string()).unwrap();
    let stamps_stored: Vec<&str> = all.iter().map(|l| l.locked_at.as_str()).collect();
    let mut sorted = stamps_stored.clone();
    sorted.sort();
    assert_eq!(stamps_stored, sorted);
}

#[test]
fn create_with_taken_id_is_general_error() {
    let mut storage = LfsStorage::mock();
    let req = LockRequest { refspec: "r1".to_string(), path: "a.bin".to_string() };
    create_lock_with(&mut storage, &req, "30000000".to_string(), "2024-01-01T00:00:00+00:00".to_string())
        .unwrap();
    let other = LockRequest { refspec: "r1".to_string(), path: "b.bin".to_string() };
    let r = create_lock_with(&mut storage, &other, "30000000".to_string(), "2024-01-01T00:00:01+00:00".to_string());
    assert_eq!(r, Err(LfsError::GeneralError));
}

#[test]
fn absent_limit_defaults_to_one_hundred() {
    let mut storage = LfsStorage::mock();
    let mut ids = Vec::new();
    for k in 0..102u32 {
        let id = format!("{:08}", 10000000 + k);
        let req = LockRequest { refspec: "r1".to_string(), path: format!("f{}.bin", k) };
        let stamp = format!("2024-01-01T{:02}:{:02}:00+00:00", k / 60, k % 60);
        create_lock_with(&mut storage, &req, id.clone(), stamp).unwrap();
        ids.push(id);
    }
    let page = lfs_retrieve_lock(&storage, &query("r1", "", "", 0)).unwrap();
    assert_eq!(page.locks.len(), 100);
    assert_eq!(page.next_cursor, ids[100]);
}

#[test]
fn get_locks_of_unknown_repo_is_not_found() {
    let storage = LfsStorage::mock();
    let r = lfs_get_locks(&storage, &"nowhere".to_string());
    assert_eq!(r, Err(LfsError::NotFound));
}
