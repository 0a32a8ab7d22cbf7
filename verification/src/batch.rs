//! The batch engine and the link builder: per declared object, resolve
//! existence against the metadata rows and the object store, create the
//! row on a first upload, and build the response representation.

use vstd::prelude::*;
use vstd::string::*;
use crate::clock::expiry_rfc3339_one_day;
use crate::store::{has_entry, has_oid, oid_idx, unique_oids, LfsStorage, ObjectStorage, StoredObject};
use crate::text::{dec_rep, str_eq, u64_to_string};
use crate::types::{
    meta_view, metas_view, BatchActions, BatchRequest, LfsConfig, LfsError, Link, MetaObject,
    MetaV, ObjectError, Representation, RequestVars,
};

verus! {

/// Row values are pairwise distinct by object id.
pub open spec fn unique_oids_v(s: Seq<MetaV>) -> bool {
    forall|i: int, j: int| 0 <= i < j < s.len() ==> s[i].oid != s[j].oid
}

/// Whether some row value carries the object id.
pub open spec fn has_oid_v(s: Seq<MetaV>, oid: Seq<char>) -> bool {
    exists|i: int| 0 <= i < s.len() && s[i].oid == oid
}

/// The index of the row value of the object id; meaningful only when one
/// exists, and unique when ids are distinct.
pub open spec fn oid_idx_v(s: Seq<MetaV>, oid: Seq<char>) -> int {
    choose|i: int| 0 <= i < s.len() && s[i].oid == oid
}

/// The row value of the object id.
pub open spec fn meta_at_v(s: Seq<MetaV>, oid: Seq<char>) -> MetaV {
    s[oid_idx_v(s, oid)]
}

/// The rows and their values carry the same ids, indices and uniqueness.
pub proof fn lemma_metas_view_has(s: Seq<MetaObject>, oid: Seq<char>)
    ensures
        has_oid_v(metas_view(s), oid) == has_oid(s, oid),
        unique_oids(s) ==> unique_oids_v(metas_view(s)),
        (unique_oids(s) && has_oid(s, oid)) ==> meta_at_v(metas_view(s), oid) == meta_view(
            s[oid_idx(s, oid)],
        ),
{
    let v = metas_view(s);
    assert(v.len() == s.len());
    assert(forall|i: int| 0 <= i < s.len() ==> v[i] == meta_view(s[i]));
    if has_oid(s, oid) {
        let i = oid_idx(s, oid);
        assert(0 <= i < s.len() && s[i].oid@ == oid);
        assert(v[i].oid == oid);
        assert(has_oid_v(v, oid));
    }
    if has_oid_v(v, oid) {
        let i = oid_idx_v(v, oid);
        assert(0 <= i < v.len() && v[i].oid == oid);
        assert(s[i].oid@ == oid);
        assert(has_oid(s, oid));
    }
    if unique_oids(s) {
        assert forall|i: int, j: int| 0 <= i < j < v.len() implies v[i].oid != v[j].oid by {
            assert(s[i].oid@ != s[j].oid@);
        }
        if has_oid(s, oid) {
            let i = oid_idx(s, oid);
            let j = oid_idx_v(v, oid);
            assert(0 <= j < v.len() && v[j].oid == oid);
            assert(s[j].oid@ == oid);
            if i < j {
                assert(s[i].oid@ != s[j].oid@);
            } else if j < i {
                assert(s[j].oid@ != s[i].oid@);
            }
        }
    }
}

/// How one declared object changes the metadata rows: an upload of an
/// unknown id appends its row; everything else leaves the rows alone.
pub open spec fn step_db(
    objs: Seq<MetaV>,
    oid: Seq<char>,
    size: i64,
    upload: bool,
    split: bool,
) -> Seq<MetaV> {
    if has_oid_v(objs, oid) || !upload {
        objs
    } else {
        objs.push(MetaV { oid, size, exist: true, splited: split })
    }
}

/// The metadata rows after a whole batch, processed in request order.
pub open spec fn batch_db(
    objs: Seq<MetaV>,
    reqs: Seq<RequestVars>,
    upload: bool,
    split: bool,
) -> Seq<MetaV>
    decreases reqs.len(),
{
    if reqs.len() == 0 {
        objs
    } else {
        batch_db(
            step_db(objs, reqs[0].oid@, reqs[0].size, upload, split),
            reqs.skip(1),
            upload,
            split,
        )
    }
}

/// A batch is its leading part followed by one more step.
pub proof fn lemma_batch_db_snoc(objs: Seq<MetaV>, reqs: Seq<RequestVars>, upload: bool, split: bool)
    requires
        reqs.len() > 0,
    ensures
        batch_db(objs, reqs, upload, split) == step_db(
            batch_db(objs, reqs.drop_last(), upload, split),
            reqs.last().oid@,
            reqs.last().size,
            upload,
            split,
        ),
    decreases reqs.len(),
{
    if reqs.len() == 1 {
        assert(reqs.skip(1) =~= Seq::<RequestVars>::empty());
        assert(reqs.drop_last() =~= Seq::<RequestVars>::empty());
        let o1 = step_db(objs, reqs[0].oid@, reqs[0].size, upload, split);
        assert(batch_db(objs, reqs, upload, split) == batch_db(o1, reqs.skip(1), upload, split));
        assert(batch_db(o1, reqs.skip(1), upload, split) == o1);
        assert(batch_db(objs, reqs.drop_last(), upload, split) == objs);
        assert(reqs.last() == reqs[0]);
    } else {
        let o1 = step_db(objs, reqs[0].oid@, reqs[0].size, upload, split);
        lemma_batch_db_snoc(o1, reqs.skip(1), upload, split);
        assert(batch_db(objs, reqs, upload, split) == batch_db(o1, reqs.skip(1), upload, split));
        assert(reqs.skip(1).drop_last() =~= reqs.drop_last().skip(1));
        assert(reqs.skip(1).last() == reqs.last());
        assert(batch_db(objs, reqs, upload, split) == step_db(
            batch_db(o1, reqs.drop_last().skip(1), upload, split),
            reqs.last().oid@,
            reqs.last().size,
            upload,
            split,
        ));
        assert(reqs.drop_last()[0] == reqs[0]);
        assert(reqs.drop_last().len() > 0);
        assert(batch_db(objs, reqs.drop_last(), upload, split) == batch_db(
            o1,
            reqs.drop_last().skip(1),
            upload,
            split,
        ));
    }
}

/// The headers of a transfer action: always the protocol's accept header,
/// and the request's authorization value exactly when one was carried.
pub open spec fn header_ok(h: Seq<(String, String)>, auth: Seq<char>) -> bool {
    &&& h.len() == (if auth.len() == 0 {
        1int
    } else {
        2int
    })
    &&& h[0].0@ == "Accept"@
    &&& h[0].1@ == "application/vnd.git-lfs"@
    &&& (auth.len() > 0 ==> h[1].0@ == "Authorization"@ && h[1].1@ == auth)
}

/// A transfer action pointing at the address, carrying the headers.
pub open spec fn link_ok(link: Link, href: Seq<char>, auth: Seq<char>) -> bool {
    &&& link.href@ == href
    &&& header_ok(link.header@, auth)
}

/// An element-wise copy of a header list.
fn clone_header(h: &Vec<(String, String)>) -> (r: Vec<(String, String)>)
    ensures
        r@ == h@,
{
    let n = h.len();
    let mut r: Vec<(String, String)> = Vec::new();
    let mut i: usize = 0;
    while i < n
        invariant
            i <= n,
            n == h@.len(),
            r@ == h@.take(i as int),
        decreases n - i,
    {
        let pair = (h[i].0.clone(), h[i].1.clone());
        proof {
            assert(pair == h@[i as int]);
            assert(h@.take(i + 1) =~= h@.take(i as int).push(h@[i as int]));
        }
        r.push(pair);
        i = i + 1;
    }
    proof {
        assert(h@.take(n as int) =~= h@);
    }
    r
}

/// One transfer action: the address and headers handed in, expiring one
/// day from build time.
pub fn create_link(href: String, header: &Vec<(String, String)>) -> (r: Link)
    ensures
        r.href@ == href@,
        r.header@ == header@,
{
    Link { href, header: clone_header(header), expires_at: expiry_rfc3339_one_day() }
}

/// The representation of one object: its id and size, the authenticated
/// mark, and one action per requested flag, each pointing at the
/// deterministic address for the object and carrying the accept header,
/// plus the request's authorization value exactly when one was carried.
pub fn represent(
    rv: &RequestVars,
    meta: &MetaObject,
    download: bool,
    upload: bool,
    use_tus: bool,
    server_url: &String,
) -> (r: Representation)
    ensures
        r.oid@ == meta.oid@,
        r.size == meta.size,
        r.authenticated == Some(true),
        r.error is None,
        (download || upload || use_tus) <==> r.actions is Some,
        (r.actions matches Some(a) ==> {
            &&& (download ==> (a.download matches Some(link) && link_ok(
                link,
                server_url@ + "/objects/"@ + rv.oid@,
                rv.authorization@,
            )))
            &&& (!download ==> a.download is None)
            &&& (upload ==> (a.upload matches Some(link) && link_ok(
                link,
                server_url@ + "/objects/"@ + rv.oid@,
                rv.authorization@,
            )))
            &&& (!upload ==> a.upload is None)
            &&& (use_tus ==> (a.verify matches Some(link) && link_ok(
                link,
                server_url@ + "/objects/"@ + rv.oid@ + "/verify"@,
                rv.authorization@,
            )))
            &&& (!use_tus ==> a.verify is None)
        }),
{
    let mut header: Vec<(String, String)> = Vec::new();
    header.push((String::from_str("Accept"), String::from_str("application/vnd.git-lfs")));
    if !rv.authorization.as_str().is_empty() {
        header.push((String::from_str("Authorization"), rv.authorization.clone()));
    }
    proof {
        assert(header_ok(header@, rv.authorization@));
    }
    let mut download_link: Option<Link> = None;
    let mut upload_link: Option<Link> = None;
    let mut verify_link: Option<Link> = None;
    if download {
        download_link = Some(create_link(rv.download_link(server_url.clone()), &header));
    }
    if upload {
        upload_link = Some(create_link(rv.upload_link(server_url.clone()), &header));
    }
    if use_tus {
        verify_link = Some(create_link(rv.verify_link(server_url.clone()), &header));
    }
    let actions: Option<BatchActions> = if download || upload || use_tus {
        Some(BatchActions { download: download_link, upload: upload_link, verify: verify_link })
    } else {
        None
    };
    Representation {
        oid: meta.oid.clone(),
        size: meta.size,
        authenticated: Some(true),
        actions,
        error: None,
    }
}

/// The metadata row of the declared object. Fails `NotFound` when the
/// object id has no row.
pub fn lfs_get_meta(storage: &LfsStorage, v: &RequestVars) -> (r: Result<MetaObject, LfsError>)
    requires
        storage.wf(),
    ensures
        match r {
            Ok(m) => has_oid(storage.objects@, v.oid@) && m == storage.objects@[oid_idx(
                storage.objects@,
                v.oid@,
            )],
            Err(e) => e == LfsError::NotFound && !has_oid(storage.objects@, v.oid@),
        },
{
    match storage.get_lfs_object(&v.oid) {
        Some(m) => Ok(m.duplicate()),
        None => Err(LfsError::NotFound),
    }
}

/// The metadata row of the declared object, created on first sight: an
/// unknown id gains a row of the declared size, marked existing, with
/// the given split flag; a known id keeps its row, which is returned
/// marked existing.
pub fn lfs_put_meta(storage: &mut LfsStorage, v: &RequestVars, splited: bool) -> (r: Result<
    MetaObject,
    LfsError,
>)
    requires
        old(storage).wf(),
    ensures
        final(storage).wf(),
        final(storage).locks@ == old(storage).locks@,
        final(storage).relations@ == old(storage).relations@,
        ({
            let pre = old(storage).objects@;
            r matches Ok(m) && if has_oid(pre, v.oid@) {
                let row = pre[oid_idx(pre, v.oid@)];
                final(storage).objects@ == pre && m.oid@ == v.oid@ && m.size == row.size
                    && m.exist && m.splited == row.splited
            } else {
                final(storage).objects@ == pre.push(m) && m.oid@ == v.oid@ && m.size == v.size
                    && m.exist && m.splited == splited
            }
        }),
{
    let existing = match storage.get_lfs_object(&v.oid) {
        Some(row) => Some(row.duplicate()),
        None => None,
    };
    match existing {
        Some(row) => Ok(
            MetaObject { oid: row.oid, size: row.size, exist: true, splited: row.splited },
        ),
        None => {
            let meta = MetaObject { oid: v.oid.clone(), size: v.size, exist: true, splited };
            storage.new_lfs_object(meta.duplicate());
            Ok(meta)
        },
    }
}

/// Removes the metadata row of the declared object, if it has one.
pub fn lfs_delete_meta(storage: &mut LfsStorage, v: &RequestVars) -> (r: Result<(), LfsError>)
    requires
        old(storage).wf(),
    ensures
        final(storage).wf(),
        final(storage).locks@ == old(storage).locks@,
        final(storage).relations@ == old(storage).relations@,
        r is Ok,
        if has_oid(old(storage).objects@, v.oid@) {
            final(storage).objects@ == old(storage).objects@.remove(
                oid_idx(old(storage).objects@, v.oid@),
            )
        } else {
            final(storage).objects@ == old(storage).objects@
        },
{
    storage.delete_lfs_object(v.oid.clone());
    Ok(())
}

/// The address all links of a batch response are built under.
pub open spec fn server_url_of(c: LfsConfig) -> Seq<char> {
    "http://"@ + c.host@ + ":"@ + dec_rep(c.port as nat)
}

/// What one response entry holds, given the rows as they stood when its
/// object was processed: an object present in a row and confirmed in the
/// object store is satisfied, with neither actions nor error; otherwise
/// an upload offers an upload action, with a verify action exactly when
/// split-aware verification is configured, and a download reports the
/// object missing. Authorization tokens are blanked, so batch links
/// carry no authorization header.
pub open spec fn rep_ok(
    state: Seq<MetaV>,
    files: Seq<StoredObject>,
    repo: Seq<char>,
    rv: RequestVars,
    upload: bool,
    split: bool,
    url: Seq<char>,
    rep: Representation,
) -> bool {
    let found = has_oid_v(state, rv.oid@);
    let confirmed = found && has_entry(files, repo, rv.oid@);
    if confirmed {
        &&& rep.oid@ == rv.oid@
        &&& rep.size == meta_at_v(state, rv.oid@).size
        &&& rep.authenticated == Some(true)
        &&& rep.actions is None
        &&& rep.error is None
    } else if upload {
        let sz = if found {
            meta_at_v(state, rv.oid@).size
        } else {
            rv.size
        };
        &&& rep.oid@ == rv.oid@
        &&& rep.size == sz
        &&& rep.authenticated == Some(true)
        &&& rep.error is None
        &&& (rep.actions matches Some(a) && {
            &&& a.download is None
            &&& (a.upload matches Some(link) && link_ok(
                link,
                url + "/objects/"@ + rv.oid@,
                Seq::<char>::empty(),
            ))
            &&& (split ==> (a.verify matches Some(link) && link_ok(
                link,
                url + "/objects/"@ + rv.oid@ + "/verify"@,
                Seq::<char>::empty(),
            )))
            &&& (!split ==> a.verify is None)
        })
    } else {
        &&& rep.oid@ == rv.oid@
        &&& rep.size == rv.size
        &&& rep.authenticated is None
        &&& rep.actions is None
        &&& (rep.error matches Some(e) && e.code == 404 && e.message@ == "Not found"@)
    }
}

/// Processes a batch in request order. Per declared object: a row
/// confirmed in the object store yields a satisfied entry; otherwise an
/// upload creates the row on first sight and offers upload (and, when
/// configured, verify) actions, and a download yields a not-found error
/// entry and creates nothing. Authorization tokens are blanked before
/// processing.
pub fn lfs_process_batch(
    config: &LfsConfig,
    storage: &mut LfsStorage,
    files: &ObjectStorage,
    batch_vars: &BatchRequest,
) -> (r: Result<Vec<Representation>, LfsError>)
    requires
        old(storage).wf(),
        files.wf(),
    ensures
        final(storage).wf(),
        final(storage).locks@ == old(storage).locks@,
        final(storage).relations@ == old(storage).relations@,
        ({
            let init = metas_view(old(storage).objects@);
            let reqs = batch_vars.objects@;
            let upload = batch_vars.operation@ == "upload"@;
            let split = config.enable_split;
            r matches Ok(reps) && {
                &&& metas_view(final(storage).objects@) == batch_db(init, reqs, upload, split)
                &&& reps@.len() == reqs.len()
                &&& (forall|k: int| 0 <= k < reqs.len() ==> rep_ok(
                    batch_db(init, reqs.take(k), upload, split),
                    files.entries@,
                    config.repo_name@,
                    reqs[k],
                    upload,
                    split,
                    server_url_of(*config),
                    reps@[k],
                ))
            }
        }),
{
    let ghost init = metas_view(old(storage).objects@);
    let ghost reqs = batch_vars.objects@;
    let upload_op = str_eq(batch_vars.operation.as_str(), "upload");
    let server_url = String::from_str("http://").concat(config.host.as_str()).concat(":").concat(
        u64_to_string(config.port as u64).as_str(),
    );
    proof {
        assert(server_url@ == server_url_of(*config));
        assert(reqs.take(0) =~= Seq::<RequestVars>::empty());
    }
    let n = batch_vars.objects.len();
    let mut reps: Vec<Representation> = Vec::new();
    let mut i: usize = 0;
    while i < n
        invariant
            i <= n,
            n == reqs.len(),
            reqs == batch_vars.objects@,
            storage.wf(),
            files.wf(),
            upload_op == (batch_vars.operation@ == "upload"@),
            server_url@ == server_url_of(*config),
            init == metas_view(old(storage).objects@),
            storage.locks@ == old(storage).locks@,
            storage.relations@ == old(storage).relations@,
            metas_view(storage.objects@) == batch_db(
                init,
                reqs.take(i as int),
                upload_op,
                config.enable_split,
            ),
            reps@.len() == i,
            forall|k: int| 0 <= k < i ==> rep_ok(
                batch_db(init, reqs.take(k), upload_op, config.enable_split),
                files.entries@,
                config.repo_name@,
                reqs[k],
                upload_op,
                config.enable_split,
                server_url_of(*config),
                reps@[k],
            ),
        decreases n - i,
    {
        let ghost state = metas_view(storage.objects@);
        let rv = &batch_vars.objects[i];
        let rv2 = RequestVars {
            oid: rv.oid.clone(),
            size: rv.size,
            authorization: String::new(),
        };
        proof {
            lemma_metas_view_has(storage.objects@, rv.oid@);
        }
        let meta_found = match storage.get_lfs_object(&rv.oid) {
            Some(m) => Some(m.duplicate()),
            None => None,
        };
        let confirmed = match &meta_found {
            Some(_) => files.exist_object(&config.repo_name, &rv.oid),
            None => false,
        };
        let rep: Representation = if confirmed {
            let meta = match meta_found {
                Some(m) => m,
                None => {
                    proof {
                        assert(false);
                    }
                    MetaObject { oid: String::new(), size: 0, exist: false, splited: false }
                },
            };
            represent(&rv2, &meta, false, false, false, &server_url)
        } else {
            {
                if upload_op {
                    let meta = match lfs_put_meta(storage, rv, config.enable_split) {
                        Ok(m) => m,
                        Err(_) => {
                            proof {
                                assert(false);
                            }
                            MetaObject {
                                oid: String::new(),
                                size: 0,
                                exist: false,
                                splited: false,
                            }
                        },
                    };
                    represent(&rv2, &meta, false, true, config.enable_split, &server_url)
                } else {
                    Representation {
                        oid: rv.oid.clone(),
                        size: rv.size,
                        authenticated: None,
                        actions: None,
                        error: Some(
                            ObjectError { code: 404, message: String::from_str("Not found") },
                        ),
                    }
                }
            }
        };
        proof {
            let split = config.enable_split;
            lemma_metas_view_has(old(storage).objects@, rv.oid@);
            if !(has_oid_v(state, rv.oid@) || !upload_op) {
                assert(metas_view(storage.objects@) =~= state.push(
                    MetaV { oid: rv.oid@, size: rv.size, exist: true, splited: split },
                ));
            }
            assert(metas_view(storage.objects@) == step_db(
                state,
                rv.oid@,
                rv.size,
                upload_op,
                split,
            ));
            assert(reqs.take(i + 1).drop_last() =~= reqs.take(i as int));
            assert(reqs.take(i + 1).last() == reqs[i as int]);
            lemma_batch_db_snoc(init, reqs.take(i + 1), upload_op, split);
            assert(metas_view(storage.objects@) == batch_db(
                init,
                reqs.take(i + 1),
                upload_op,
                split,
            ));
            assert(rep_ok(
                state,
                files.entries@,
                config.repo_name@,
                reqs[i as int],
                upload_op,
                split,
                server_url_of(*config),
                rep,
            ));
        }
        reps.push(rep);
        i = i + 1;
    }
    proof {
        assert(reqs.take(n as int) =~= reqs);
    }
    Ok(reps)
}

} // verus!
