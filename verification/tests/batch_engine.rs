use lfs_core::batch::{lfs_get_meta, lfs_process_batch, lfs_put_meta, represent};
use lfs_core::store::{LfsStorage, ObjectStorage, SplitRelation};
use lfs_core::transfer::{lfs_download_object, lfs_upload_object};
use lfs_core::types::{
    BatchRequest, LfsConfig, LfsError, MetaObject, RequestVars,
};

fn config(enable_split: bool) -> LfsConfig {
    LfsConfig {
        host: "127.0.0.1".to_string(),
        port: 8000,
        repo_name: "repo".to_string(),
        enable_split,
    }
}

fn vars(oid: &str, size: i64) -> RequestVars {
    RequestVars { oid: oid.to_string(), size, authorization: String::new() }
}

fn batch(operation: &str, objects: Vec<RequestVars>) -> BatchRequest {
    BatchRequest { operation: operation.to_string(), objects }
}

#[test]
fn satisfied_object_has_neither_actions_nor_error() {
    let cfg = config(false);
    let mut storage = LfsStorage::mock();
    let mut files = ObjectStorage::empty();
    lfs_put_meta(&mut storage, &vars("abc", 3), false).unwrap();
    lfs_upload_object(&cfg, &storage, &mut files, &vars("abc", 3), &[1, 2, 3]).unwrap();

    let reps =
        lfs_process_batch(&cfg, &mut storage, &files, &batch("download", vec![vars("abc", 3)]))
            .unwrap();
    assert_eq!(reps.len(), 1);
    let rep = &reps[0];
    assert_eq!(rep.oid, "abc");
    assert_eq!(rep.size, 3);
    assert_eq!(rep.authenticated, Some(true));
    assert!(rep.actions.is_none());
    assert!(rep.error.is_none());
}

#[test]
fn fresh_upload_creates_one_row_and_offers_upload() {
    let cfg = config(false);
    let mut storage = LfsStorage::mock();
    let files = ObjectStorage::empty();

    let reps =
        lfs_process_batch(&cfg, &mut storage, &files, &batch("upload", vec![vars("abc", 42)]))
            .unwrap();
    assert_eq!(storage.objects.len(), 1);
    assert_eq!(storage.objects[0].oid, "abc");
    assert_eq!(storage.objects[0].size, 42);
    assert!(storage.objects[0].exist);
    assert!(!storage.objects[0].splited);

    let rep = &reps[0];
    assert_eq!(rep.authenticated, Some(true));
    assert!(rep.error.is_none());
    let actions = rep.actions.as_ref().unwrap();
    assert!(actions.download.is_none());
    let upload = actions.upload.as_ref().unwrap();
    assert_eq!(upload.href, "http://127.0.0.1:8000/objects/abc");
    assert_eq!(upload.header.len(), 1);
    assert_eq!(upload.header[0].0, "Accept");
    assert_eq!(upload.header[0].1, "application/vnd.git-lfs");
    assert!(actions.verify.is_none());
}

#[test]
fn fresh_upload_offers_verify_when_split_is_configured() {
    let cfg = config(true);
    let mut storage = LfsStorage::mock();
    let files = ObjectStorage::empty();

    let reps =
        lfs_process_batch(&cfg, &mut storage, &files, &batch("upload", vec![vars("abc", 42)]))
            .unwrap();
    assert!(storage.objects[0].splited);
    let actions = reps[0].actions.as_ref().unwrap();
    let verify = actions.verify.as_ref().unwrap();
    assert_eq!(verify.href, "http://127.0.0.1:8000/objects/abc/verify");
}

#[test]
fn repeated_upload_creates_no_second_row() {
    let cfg = config(false);
    let mut storage = LfsStorage::mock();
    let files = ObjectStorage::empty();
    let req = batch("upload", vec![vars("abc", 42), vars("abc", 7)]);
    let reps = lfs_process_batch(&cfg, &mut storage, &files, &req).unwrap();
    assert_eq!(storage.objects.len(), 1);
    assert_eq!(storage.objects[0].size, 42);
    assert_eq!(reps.len(), 2);
    assert_eq!(reps[1].size, 42);
}

#[test]
fn fresh_download_is_not_found_and_creates_nothing() {
    let cfg = config(false);
    let mut storage = LfsStorage::mock();
    let files = ObjectStorage::empty();

    let reps =
        lfs_process_batch(&cfg, &mut storage, &files, &batch("download", vec![vars("abc", 9)]))
            .unwrap();
    assert!(storage.objects.is_empty());
    let rep = &reps[0];
    assert_eq!(rep.oid, "abc");
    assert_eq!(rep.size, 9);
    assert!(rep.authenticated.is_none());
    assert!(rep.actions.is_none());
    let err = rep.error.as_ref().unwrap();
    assert_eq!(err.code, 404);
    assert_eq!(err.message, "Not found");
}

#[test]
fn represent_carries_authorization_only_when_token_present() {
    let meta = MetaObject { oid: "abc".to_string(), size: 5, exist: true, splited: false };
    let url = "http://127.0.0.1:8000".to_string();

    let with_token = RequestVars {
        oid: "abc".to_string(),
        size: 5,
        authorization: "token-value".to_string(),
    };
    let rep = represent(&with_token, &meta, true, false, false, &url);
    let actions = rep.actions.as_ref().unwrap();
    let download = actions.download.as_ref().unwrap();
    assert_eq!(download.href, "http://127.0.0.1:8000/objects/abc");
    assert_eq!(download.header.len(), 2);
    assert_eq!(download.header[1].0, "Authorization");
    assert_eq!(download.header[1].1, "token-value");
    assert!(actions.upload.is_none());
    assert!(actions.verify.is_none());

    let without = represent(&vars("abc", 5), &meta, true, false, false, &url);
    let actions = without.actions.as_ref().unwrap();
    assert_eq!(actions.download.as_ref().unwrap().header.len(), 1);
}

#[test]
fn represent_builds_verify_for_its_own_flag() {
    let meta = MetaObject { oid: "abc".to_string(), size: 5, exist: true, splited: false };
    let url = "http://127.0.0.1:8000".to_string();

    let verify_only = represent(&vars("abc", 5), &meta, false, false, true, &url);
    let actions = verify_only.actions.as_ref().unwrap();
    assert!(actions.download.is_none());
    assert!(actions.upload.is_none());
    let verify = actions.verify.as_ref().unwrap();
    assert_eq!(verify.href, "http://127.0.0.1:8000/objects/abc/verify");

    let with_download = represent(&vars("abc", 5), &meta, true, false, true, &url);
    let actions = with_download.actions.as_ref().unwrap();
    assert!(actions.download.is_some());
    assert!(actions.upload.is_none());
    assert!(actions.verify.is_some());
}

#[test]
fn represent_without_flags_offers_no_actions() {
    let meta = MetaObject { oid: "abc".to_string(), size: 5, exist: true, splited: false };
    let url = "http://127.0.0.1:8000".to_string();
    let rep = represent(&vars("abc", 5), &meta, false, false, false, &url);
    assert!(rep.actions.is_none());
    assert!(rep.error.is_none());
    assert_eq!(rep.authenticated, Some(true));
}

#[test]
fn upload_without_negotiation_fails_and_compensates_nothing() {
    let cfg = config(false);
    let storage = LfsStorage::mock();
    let mut files = ObjectStorage::empty();
    let r = lfs_upload_object(&cfg, &storage, &mut files, &vars("abc", 3), &[1, 2, 3]);
    assert_eq!(r, Err(LfsError::GeneralError));
    assert!(files.entries.is_empty());
}

#[test]
fn upload_then_download_roundtrips_bytes() {
    let cfg = config(false);
    let mut storage = LfsStorage::mock();
    let mut files = ObjectStorage::empty();
    lfs_put_meta(&mut storage, &vars("abc", 3), false).unwrap();
    lfs_upload_object(&cfg, &storage, &mut files, &vars("abc", 3), &[9, 8, 7]).unwrap();
    let bytes = lfs_download_object(&cfg, &storage, &files, &vars("abc", 3)).unwrap();
    assert_eq!(bytes, vec![9, 8, 7]);
}

#[test]
fn download_of_unknown_object_is_not_found() {
    let cfg = config(false);
    let storage = LfsStorage::mock();
    let files = ObjectStorage::empty();
    let r = lfs_download_object(&cfg, &storage, &files, &vars("abc", 3));
    assert_eq!(r, Err(LfsError::NotFound));
}

#[test]
fn get_meta_reports_missing_rows() {
    let mut storage = LfsStorage::mock();
    assert_eq!(lfs_get_meta(&storage, &vars("abc", 1)), Err(LfsError::NotFound));
    lfs_put_meta(&mut storage, &vars("abc", 1), true).unwrap();
    let m = lfs_get_meta(&storage, &vars("abc", 1)).unwrap();
    assert_eq!(m.oid, "abc");
    assert_eq!(m.size, 1);
    assert!(m.exist);
    assert!(m.splited);
}

#[test]
fn relations_need_object_and_chunks() {
    let mut storage = LfsStorage::mock();
    let oid = "abc".to_string();
    assert_eq!(storage.get_lfs_relations(&oid), Err(LfsError::NotFound));
    lfs_put_meta(&mut storage, &vars("abc", 10), true).unwrap();
    assert_eq!(storage.get_lfs_relations(&oid), Err(LfsError::NotFound));
    storage.new_lfs_relation(SplitRelation {
        ori_oid: "abc".to_string(),
        sub_oid: "chunk1".to_string(),
        offset: 0,
        size: 10,
    });
    let rels = storage.get_lfs_relations(&oid).unwrap();
    assert_eq!(rels.len(), 1);
    assert_eq!(rels[0].sub_oid, "chunk1");
}
