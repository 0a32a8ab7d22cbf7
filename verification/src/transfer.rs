//! Transfer orchestration for the plain, non-split path: bytes go into
//! and come out of the object store, guarded by the object's metadata row.

use vstd::prelude::*;
use vstd::slice::slice_to_vec;
use crate::store::{entry_idx, has_entry, has_oid, LfsStorage, ObjectStorage};
use crate::types::{LfsConfig, LfsError, RequestVars};

verus! {

/// Stores the object's bytes under the configured repository. The
/// metadata row must already exist from a prior negotiation: its absence
/// fails `GeneralError` and changes nothing. On success the bytes stand
/// in the object store under the declared id and everything else is
/// unchanged.
pub fn lfs_upload_object(
    config: &LfsConfig,
    storage: &LfsStorage,
    files: &mut ObjectStorage,
    request_vars: &RequestVars,
    body_bytes: &[u8],
) -> (r: Result<(), LfsError>)
    requires
        storage.wf(),
        old(files).wf(),
    ensures
        final(files).wf(),
        ({
            if !has_oid(storage.objects@, request_vars.oid@) {
                r matches Err(e) && e == LfsError::GeneralError && final(files).entries@ == old(
                    files,
                ).entries@
            } else {
                let i = entry_idx(final(files).entries@, config.repo_name@, request_vars.oid@);
                &&& r is Ok
                &&& has_entry(final(files).entries@, config.repo_name@, request_vars.oid@)
                &&& final(files).entries@[i].data@ == body_bytes@
                &&& (if has_entry(old(files).entries@, config.repo_name@, request_vars.oid@) {
                    final(files).entries@ == old(files).entries@.update(
                        entry_idx(old(files).entries@, config.repo_name@, request_vars.oid@),
                        final(files).entries@[i],
                    )
                } else {
                    final(files).entries@ == old(files).entries@.push(final(files).entries@[i])
                })
            }
        }),
{
    if storage.get_lfs_object(&request_vars.oid).is_none() {
        return Err(LfsError::GeneralError);
    }
    files.put_object(&config.repo_name, &request_vars.oid, body_bytes);
    Ok(())
}

/// The object's bytes, verbatim, from the object store under the
/// configured repository. Fails `NotFound` when the object has no
/// metadata row or the store holds no bytes for it.
pub fn lfs_download_object(
    config: &LfsConfig,
    storage: &LfsStorage,
    files: &ObjectStorage,
    request_vars: &RequestVars,
) -> (r: Result<Vec<u8>, LfsError>)
    requires
        storage.wf(),
        files.wf(),
    ensures
        ({
            let present = has_oid(storage.objects@, request_vars.oid@) && has_entry(
                files.entries@,
                config.repo_name@,
                request_vars.oid@,
            );
            match r {
                Ok(bytes) => present && bytes@ == files.entries@[entry_idx(
                    files.entries@,
                    config.repo_name@,
                    request_vars.oid@,
                )].data@,
                Err(e) => e == LfsError::NotFound && !present,
            }
        }),
{
    if storage.get_lfs_object(&request_vars.oid).is_none() {
        return Err(LfsError::NotFound);
    }
    match files.get_object(&config.repo_name, &request_vars.oid) {
        Some(data) => Ok(slice_to_vec(data.as_slice())),
        None => Err(LfsError::NotFound),
    }
}

} // verus!
