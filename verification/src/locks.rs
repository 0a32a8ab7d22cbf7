//! The lock engine: creation with a fresh random id, cursor-paginated and
//! path-filtered listing, ownership partition, and authorized deletion.

use vstd::prelude::*;
use vstd::string::*;
use crate::clock::now_rfc3339;
use crate::store::{
    has_repo, lock_record_wf, nonempty_lock_ids, repo_idx, repo_locks_of, sorted_by_time,
    unique_lock_ids, LfsStorage, LockRecord,
};
use crate::text::{char_seq_le, digit_str, lemma_char_seq_le_total, lemma_char_seq_le_trans, str_eq, str_le};
use crate::types::{
    LfsError, Lock, LockList, LockListQuery, LockRequest, UnlockRequest, VerifiableLockList,
    VerifiableLockRequest,
};

use rand::Rng;

verus! {

/// Whether some lock in the sequence carries the id.
pub open spec fn has_lock_id(s: Seq<Lock>, id: Seq<char>) -> bool {
    exists|i: int| 0 <= i < s.len() && s[i].id@ == id
}

/// The index of the lock with the id; meaningful only when one exists,
/// and unique when lock ids are distinct.
pub open spec fn lock_idx(s: Seq<Lock>, id: Seq<char>) -> int {
    choose|i: int| 0 <= i < s.len() && s[i].id@ == id
}

/// Under distinct lock ids, a lock holding the id is the lock the index
/// function names.
pub proof fn lemma_lock_idx_is(s: Seq<Lock>, id: Seq<char>, i: int)
    requires
        unique_lock_ids(s),
        0 <= i < s.len(),
        s[i].id@ == id,
    ensures
        has_lock_id(s, id),
        lock_idx(s, id) == i,
{
    assert(has_lock_id(s, id));
    let j = lock_idx(s, id);
    assert(0 <= j < s.len() && s[j].id@ == id);
    if i < j {
        assert(s[i].id@ != s[j].id@);
    } else if j < i {
        assert(s[j].id@ != s[i].id@);
    }
}

/// Whether some lock in the sequence holds the exact path.
pub open spec fn has_lock_path(s: Seq<Lock>, path: Seq<char>) -> bool {
    exists|i: int| 0 <= i < s.len() && s[i].path@ == path
}

/// The locks whose path matches exactly, in order.
pub open spec fn locks_with_path(s: Seq<Lock>, path: Seq<char>) -> Seq<Lock>
    decreases s.len(),
{
    if s.len() == 0 {
        Seq::<Lock>::empty()
    } else if s.last().path@ == path {
        locks_with_path(s.drop_last(), path).push(s.last())
    } else {
        locks_with_path(s.drop_last(), path)
    }
}

/// The path filter a listing applies: an empty filter keeps everything.
pub open spec fn path_filter(s: Seq<Lock>, path: Seq<char>) -> Seq<Lock> {
    if path.len() == 0 {
        s
    } else {
        locks_with_path(s, path)
    }
}

/// The effective page size: an absent or zero limit means 100.
pub open spec fn effective_limit(limit: usize) -> int {
    if limit == 0 {
        100
    } else {
        limit as int
    }
}

/// Whether the cursor names a lock of the list, or asks for no truncation.
pub open spec fn cursor_ok(s: Seq<Lock>, cursor: Seq<char>) -> bool {
    cursor.len() == 0 || has_lock_id(s, cursor)
}

/// The list as seen from the cursor: every lock from the named one on.
pub open spec fn cursor_view(s: Seq<Lock>, cursor: Seq<char>) -> Seq<Lock> {
    if cursor.len() == 0 {
        s
    } else {
        s.skip(lock_idx(s, cursor))
    }
}

/// The page the limit keeps.
pub open spec fn page_locks(s: Seq<Lock>, limit: int) -> Seq<Lock> {
    if s.len() <= limit {
        s
    } else {
        s.take(limit)
    }
}

/// The cursor of the first dropped lock; empty when nothing was dropped.
pub open spec fn page_cursor(s: Seq<Lock>, limit: int) -> Seq<char> {
    if s.len() <= limit {
        Seq::<char>::empty()
    } else {
        s[limit].id@
    }
}

/// What a filtered listing returns: the repository's locks from the
/// cursor on, kept to the exact path when one is given, cut to the limit.
pub open spec fn filtered_page(s: Seq<Lock>, path: Seq<char>, cursor: Seq<char>, limit: usize) -> Seq<Lock> {
    page_locks(path_filter(cursor_view(s, cursor), path), effective_limit(limit))
}

/// The next cursor a filtered listing returns.
pub open spec fn filtered_cursor(s: Seq<Lock>, path: Seq<char>, cursor: Seq<char>, limit: usize) -> Seq<char> {
    page_cursor(path_filter(cursor_view(s, cursor), path), effective_limit(limit))
}

/// An element-wise copy of a lock list.
fn clone_locks(v: &Vec<Lock>) -> (r: Vec<Lock>)
    ensures
        r@ == v@,
{
    let n = v.len();
    let mut r: Vec<Lock> = Vec::new();
    let mut i: usize = 0;
    while i < n
        invariant
            i <= n,
            n == v@.len(),
            r@ == v@.take(i as int),
        decreases n - i,
    {
        r.push(v[i].duplicate());
        proof {
            assert(v@.take(i + 1) =~= v@.take(i as int).push(v@[i as int]));
        }
        i = i + 1;
    }
    proof {
        assert(v@.take(n as int) =~= v@);
    }
    r
}

/// The first index holding the id, scanning from the front.
fn find_lock_index(v: &Vec<Lock>, id: &String) -> (r: Option<usize>)
    ensures
        match r {
            Some(i) => i < v@.len() && v@[i as int].id@ == id@ && (forall|k: int|
                0 <= k < i ==> v@[k].id@ != id@),
            None => !has_lock_id(v@, id@),
        },
{
    let n = v.len();
    let mut i: usize = 0;
    while i < n
        invariant
            i <= n,
            n == v@.len(),
            forall|k: int| 0 <= k < i ==> v@[k].id@ != id@,
        decreases n - i,
    {
        if str_eq(v[i].id.as_str(), id.as_str()) {
            return Some(i);
        }
        i = i + 1;
    }
    None
}

/// The copy of a lock list from the given index on.
fn suffix_locks(v: &Vec<Lock>, from: usize) -> (r: Vec<Lock>)
    requires
        from <= v@.len(),
    ensures
        r@ == v@.skip(from as int),
{
    let n = v.len();
    let mut r: Vec<Lock> = Vec::new();
    let mut i: usize = from;
    while i < n
        invariant
            from <= i <= n,
            n == v@.len(),
            r@ == v@.subrange(from as int, i as int),
        decreases n - i,
    {
        r.push(v[i].duplicate());
        proof {
            assert(v@.subrange(from as int, i + 1) =~= v@.subrange(from as int, i as int).push(
                v@[i as int],
            ));
        }
        i = i + 1;
    }
    proof {
        assert(v@.subrange(from as int, n as int) =~= v@.skip(from as int));
    }
    r
}

/// The copy of a lock list kept to one exact path.
fn filter_locks_by_path(v: &Vec<Lock>, path: &String) -> (r: Vec<Lock>)
    ensures
        r@ == locks_with_path(v@, path@),
{
    let n = v.len();
    let mut r: Vec<Lock> = Vec::new();
    let mut i: usize = 0;
    while i < n
        invariant
            i <= n,
            n == v@.len(),
            r@ == locks_with_path(v@.take(i as int), path@),
        decreases n - i,
    {
        if str_eq(v[i].path.as_str(), path.as_str()) {
            r.push(v[i].duplicate());
        }
        proof {
            assert(v@.take(i + 1).drop_last() =~= v@.take(i as int));
            assert(v@.take(i + 1).last() == v@[i as int]);
        }
        i = i + 1;
    }
    proof {
        assert(v@.take(n as int) =~= v@);
    }
    r
}

/// The repository's locks, in stored order. Fails `NotFound` when the
/// repository has no lock record.
pub fn lfs_get_locks(storage: &LfsStorage, refspec: &String) -> (r: Result<Vec<Lock>, LfsError>)
    requires
        storage.wf(),
    ensures
        match r {
            Ok(v) => has_repo(storage.locks@, refspec@) && v@ == repo_locks_of(
                storage.locks@,
                refspec@,
            ),
            Err(e) => e == LfsError::NotFound && !has_repo(storage.locks@, refspec@),
        },
{
    match storage.find_repo(refspec) {
        Some(i) => Ok(clone_locks(&storage.locks[i].locks)),
        None => Err(LfsError::NotFound),
    }
}

/// The filtered listing: the repository's locks from the cursor on, kept
/// to the exact path when one is given, cut to the limit, together with
/// the id of the first dropped lock. Fails `InvalidCursor` exactly when a
/// nonempty cursor names no lock of the list.
pub fn lfs_get_filtered_locks(
    storage: &LfsStorage,
    refspec: &String,
    path: &String,
    cursor: &String,
    limit: usize,
) -> (r: Result<(Vec<Lock>, String), LfsError>)
    requires
        storage.wf(),
    ensures
        ({
            let base = repo_locks_of(storage.locks@, refspec@);
            match r {
                Ok(p) => cursor_ok(base, cursor@) && p.0@ == filtered_page(
                    base,
                    path@,
                    cursor@,
                    limit,
                ) && p.1@ == filtered_cursor(base, path@, cursor@, limit),
                Err(e) => e == LfsError::InvalidCursor && !cursor_ok(base, cursor@),
            }
        }),
{
    let ghost base = repo_locks_of(storage.locks@, refspec@);
    let mut locks: Vec<Lock> = match storage.find_repo(refspec) {
        Some(i) => clone_locks(&storage.locks[i].locks),
        None => Vec::new(),
    };
    proof {
        assert(locks@ =~= base);
    }
    if !cursor.as_str().is_empty() {
        match find_lock_index(&locks, cursor) {
            Some(i) => {
                proof {
                    assert(has_lock_id(base, cursor@));
                    if has_repo(storage.locks@, refspec@) {
                        assert(lock_record_wf(
                            storage.locks@[repo_idx(storage.locks@, refspec@)],
                        ));
                    }
                    assert(unique_lock_ids(base));
                    lemma_lock_idx_is(base, cursor@, i as int);
                }
                let suffix = suffix_locks(&locks, i);
                locks = suffix;
            },
            None => {
                return Err(LfsError::InvalidCursor);
            },
        }
    }
    proof {
        assert(locks@ == cursor_view(base, cursor@));
    }
    let ghost visible = cursor_view(base, cursor@);
    if !path.as_str().is_empty() {
        locks = filter_locks_by_path(&locks, path);
    }
    proof {
        assert(locks@ == path_filter(visible, path@));
    }
    let eff: usize = if limit == 0 {
        100
    } else {
        limit
    };
    let mut next: String = String::new();
    if locks.len() > eff {
        next = locks[eff].id.clone();
        locks.truncate(eff);
    }
    proof {
        assert(locks@ == page_locks(path_filter(visible, path@), effective_limit(limit)));
        assert(next@ == page_cursor(path_filter(visible, path@), effective_limit(limit)));
    }
    Ok((locks, next))
}

/// The page of a listing query, with the cursor of the next page.
pub fn lfs_retrieve_lock(storage: &LfsStorage, query: &LockListQuery) -> (r: Result<
    LockList,
    LfsError,
>)
    requires
        storage.wf(),
    ensures
        ({
            let base = repo_locks_of(storage.locks@, query.refspec@);
            match r {
                Ok(list) => cursor_ok(base, query.cursor@) && list.locks@ == filtered_page(
                    base,
                    query.path@,
                    query.cursor@,
                    query.limit,
                ) && list.next_cursor@ == filtered_cursor(
                    base,
                    query.path@,
                    query.cursor@,
                    query.limit,
                ),
                Err(e) => e == LfsError::InvalidCursor && !cursor_ok(base, query.cursor@),
            }
        }),
{
    match lfs_get_filtered_locks(storage, &query.refspec, &query.path, &query.cursor, query.limit) {
        Ok(p) => {
            let (locks, next) = p;
            Ok(LockList { locks, next_cursor: next })
        },
        Err(e) => Err(e),
    }
}

/// The locks of the page whose owner is unset: held by the caller's own
/// session.
pub open spec fn ours_of(s: Seq<Lock>) -> Seq<Lock>
    decreases s.len(),
{
    if s.len() == 0 {
        Seq::<Lock>::empty()
    } else if s.last().owner is None {
        ours_of(s.drop_last()).push(s.last())
    } else {
        ours_of(s.drop_last())
    }
}

/// The locks of the page whose owner is set: held by someone else.
pub open spec fn theirs_of(s: Seq<Lock>) -> Seq<Lock>
    decreases s.len(),
{
    if s.len() == 0 {
        Seq::<Lock>::empty()
    } else if s.last().owner is Some {
        theirs_of(s.drop_last()).push(s.last())
    } else {
        theirs_of(s.drop_last())
    }
}

/// The ownership partition of one page of the repository's locks, under
/// the same cursor and limit rules as a listing without a path filter.
pub fn lfs_verify_lock(storage: &LfsStorage, req: &VerifiableLockRequest) -> (r: Result<
    VerifiableLockList,
    LfsError,
>)
    requires
        storage.wf(),
    ensures
        ({
            let base = repo_locks_of(storage.locks@, req.refspec@);
            let page = filtered_page(base, Seq::<char>::empty(), req.cursor@, req.limit);
            match r {
                Ok(list) => cursor_ok(base, req.cursor@) && list.ours@ == ours_of(page)
                    && list.theirs@ == theirs_of(page) && list.next_cursor@ == filtered_cursor(
                    base,
                    Seq::<char>::empty(),
                    req.cursor@,
                    req.limit,
                ),
                Err(e) => e == LfsError::InvalidCursor && !cursor_ok(base, req.cursor@),
            }
        }),
{
    let empty_path = String::new();
    let page = match lfs_get_filtered_locks(storage, &req.refspec, &empty_path, &req.cursor, req.limit) {
        Ok(p) => p,
        Err(e) => {
            return Err(e);
        },
    };
    let (locks, next) = page;
    let n = locks.len();
    let mut ours: Vec<Lock> = Vec::new();
    let mut theirs: Vec<Lock> = Vec::new();
    let mut i: usize = 0;
    while i < n
        invariant
            i <= n,
            n == locks@.len(),
            ours@ == ours_of(locks@.take(i as int)),
            theirs@ == theirs_of(locks@.take(i as int)),
        decreases n - i,
    {
        if locks[i].owner.is_none() {
            ours.push(locks[i].duplicate());
        } else {
            theirs.push(locks[i].duplicate());
        }
        proof {
            assert(locks@.take(i + 1).drop_last() =~= locks@.take(i as int));
            assert(locks@.take(i + 1).last() == locks@[i as int]);
        }
        i = i + 1;
    }
    proof {
        assert(locks@.take(n as int) =~= locks@);
    }
    Ok(VerifiableLockList { ours, theirs, next_cursor: next })
}

/// Relies on rand's `thread_rng` and `Rng::gen_range`: a draw from the
/// half-open range below nine, as lock id generation uses it.
#[verifier::external_body]
fn random_digit() -> (r: u8)
    ensures
        r < 9,
{
    rand::thread_rng().gen_range(0..9u8)
}

/// Whether the character is a decimal digit.
pub open spec fn is_dec_digit(c: char) -> bool {
    48 <= (c as u32) <= 57
}

/// An eight-character numeric lock id drawn at random.
fn random_lock_id() -> (r: String)
    ensures
        r@.len() == 8,
        forall|i: int| 0 <= i < 8 ==> is_dec_digit(r@[i]),
{
    let mut s = String::new();
    let mut k: usize = 0;
    while k < 8
        invariant
            k <= 8,
            s@.len() == k,
            forall|i: int| 0 <= i < k ==> is_dec_digit(s@[i]),
        decreases 8 - k,
    {
        let d = random_digit();
        s.append(digit_str(d));
        k = k + 1;
    }
    s
}

/// Where a lock of the given timestamp lands in a timestamp-ordered list:
/// after every lock that orders no later than it.
pub open spec fn insert_pos(s: Seq<Lock>, t: Seq<char>) -> int
    decreases s.len(),
{
    if s.len() == 0 {
        0
    } else if char_seq_le(s[0].locked_at@, t) {
        1 + insert_pos(s.skip(1), t)
    } else {
        0
    }
}

/// A timestamp-ordered list with one more lock, at its place.
pub open spec fn insert_lock_sorted(s: Seq<Lock>, l: Lock) -> Seq<Lock> {
    s.insert(insert_pos(s, l.locked_at@), l)
}

/// The insertion point is the first index whose lock orders strictly
/// after the timestamp.
proof fn lemma_insert_pos_is(s: Seq<Lock>, t: Seq<char>, i: int)
    requires
        0 <= i <= s.len(),
        forall|k: int| 0 <= k < i ==> char_seq_le(s[k].locked_at@, t),
        i < s.len() ==> !char_seq_le(s[i as int].locked_at@, t),
    ensures
        insert_pos(s, t) == i,
    decreases s.len(),
{
    if i == 0 {
    } else {
        assert(char_seq_le(s[0].locked_at@, t));
        let s1 = s.skip(1);
        assert forall|k: int| 0 <= k < i - 1 implies char_seq_le(s1[k].locked_at@, t) by {
            assert(s1[k] == s[k + 1]);
        }
        if i - 1 < s1.len() {
            assert(s1[i - 1] == s[i]);
        }
        lemma_insert_pos_is(s1, t, i - 1);
    }
}

/// Inserts the lock at its timestamp position, keeping the list sorted,
/// its ids distinct, and its ids nonempty.
fn insert_lock_at_time(locks: Vec<Lock>, l: Lock) -> (r: Vec<Lock>)
    requires
        sorted_by_time(locks@),
        unique_lock_ids(locks@),
        nonempty_lock_ids(locks@),
        !has_lock_id(locks@, l.id@),
        l.id@.len() > 0,
        locks@.len() < usize::MAX,
    ensures
        r@ == insert_lock_sorted(locks@, l),
        sorted_by_time(r@),
        unique_lock_ids(r@),
        nonempty_lock_ids(r@),
        r@.len() == locks@.len() + 1,
{
    let ghost s0 = locks@;
    let ghost t = l.locked_at@;
    let n = locks.len();
    let mut i: usize = 0;
    let mut scanning = true;
    while scanning && i < n
        invariant
            i <= n,
            n == locks@.len(),
            locks@ == s0,
            t == l.locked_at@,
            forall|k: int| 0 <= k < i ==> char_seq_le(s0[k].locked_at@, t),
            !scanning ==> i < n && !char_seq_le(s0[i as int].locked_at@, t),
        decreases n - i, (if scanning { 1int } else { 0int }),
    {
        if str_le(locks[i].locked_at.as_str(), l.locked_at.as_str()) {
            i = i + 1;
        } else {
            scanning = false;
        }
    }
    proof {
        lemma_insert_pos_is(s0, t, i as int);
        if (i as int) < s0.len() {
            lemma_char_seq_le_total(s0[i as int].locked_at@, t);
        }
    }
    let mut out = locks;
    out.insert(i, l);
    proof {
        let r = s0.insert(i as int, l);
        assert(out@ == r);
        assert forall|p: int, q: int| 0 <= p < q < r.len() implies char_seq_le(
            r[p].locked_at@,
            r[q].locked_at@,
        ) by {
            if p < i && q < i {
            } else if p < i && q == i {
                assert(r[p] == s0[p]);
            } else if p == i {
                assert(r[q] == s0[q - 1]);
                assert(q - 1 >= i);
                if q - 1 == i {
                    assert(char_seq_le(t, s0[i as int].locked_at@));
                } else {
                    lemma_char_seq_le_trans(
                        t,
                        s0[i as int].locked_at@,
                        s0[q - 1].locked_at@,
                    );
                }
            } else if p > i {
                assert(r[p] == s0[p - 1] && r[q] == s0[q - 1]);
            } else {
                assert(p < i && q > i);
                assert(r[p] == s0[p] && r[q] == s0[q - 1]);
                if q - 1 == p {
                } else {
                    assert(char_seq_le(s0[p].locked_at@, s0[q - 1].locked_at@));
                }
            }
        }
        assert forall|p: int, q: int| 0 <= p < q < r.len() implies r[p].id@ != r[q].id@ by {
            if q == i {
                assert(r[p] == s0[p]);
                assert(has_lock_id(s0, l.id@) <== s0[p].id@ == l.id@);
            } else if p == i {
                assert(r[q] == s0[q - 1]);
                assert(has_lock_id(s0, l.id@) <== s0[q - 1].id@ == l.id@);
            }
        }
        assert forall|p: int| 0 <= p < r.len() implies r[p].id@.len() > 0 by {
            if p < i {
                assert(r[p] == s0[p]);
            } else if p > i {
                assert(r[p] == s0[p - 1]);
            }
        }
    }    out
}

/// How the lock records change when one lock is added under a repository
/// scope: its record gains the lock at its timestamp position, or a fresh
/// one-lock record is appended.
pub open spec fn locks_after_add(
    pre: Seq<LockRecord>,
    post: Seq<LockRecord>,
    repo: Seq<char>,
    l: Lock,
) -> bool {
    if has_repo(pre, repo) {
        let i = repo_idx(pre, repo);
        &&& post.len() == pre.len()
        &&& (forall|k: int| 0 <= k < pre.len() && k != i ==> post[k] == pre[k])
        &&& post[i].id@ == repo
        &&& post[i].locks@ == insert_lock_sorted(pre[i].locks@, l)
    } else {
        &&& post.len() == pre.len() + 1
        &&& post.take(pre.len() as int) == pre
        &&& post.last().id@ == repo
        &&& post.last().locks@ == seq![l]
    }
}

/// Adds one lock under the repository scope, creating its record when it
/// has none.
pub fn lfs_add_lock(storage: &mut LfsStorage, repo: &String, lock: Lock)
    requires
        old(storage).wf(),
        !has_lock_id(repo_locks_of(old(storage).locks@, repo@), lock.id@),
        lock.id@.len() > 0,
        repo_locks_of(old(storage).locks@, repo@).len() < usize::MAX,
    ensures
        final(storage).wf(),
        final(storage).objects@ == old(storage).objects@,
        final(storage).relations@ == old(storage).relations@,
        locks_after_add(old(storage).locks@, final(storage).locks@, repo@, lock),
{
    match storage.find_repo(repo) {
        Some(i) => {
            proof {
                assert(lock_record_wf(storage.locks@[i as int]));
            }
            let rec_locks = clone_locks(&storage.locks[i].locks);
            let rec_locks = insert_lock_at_time(rec_locks, lock);
            storage.update_lock(LockRecord { id: repo.clone(), locks: rec_locks });
        },
        None => {
            let mut one: Vec<Lock> = Vec::new();
            one.push(lock);
            proof {
                assert(one@ =~= seq![lock]);
            }
            storage.new_lock(LockRecord { id: repo.clone(), locks: one });
            proof {
                assert(final(storage).locks@.take(old(storage).locks@.len() as int)
                    =~= old(storage).locks@);
            }
        },
    }
}

/// Creates a lock on the path from the id and timestamp handed in. Fails
/// `Conflict` exactly when an active lock already holds the path, and
/// `GeneralError` exactly when the id already names a lock of the scope.
pub fn create_lock_with(
    storage: &mut LfsStorage,
    req: &LockRequest,
    id: String,
    locked_at: String,
) -> (r: Result<Lock, LfsError>)
    requires
        old(storage).wf(),
        id@.len() > 0,
        repo_locks_of(old(storage).locks@, req.refspec@).len() < usize::MAX,
    ensures
        final(storage).wf(),
        final(storage).objects@ == old(storage).objects@,
        final(storage).relations@ == old(storage).relations@,
        ({
            let base = repo_locks_of(old(storage).locks@, req.refspec@);
            if has_lock_path(base, req.path@) {
                r matches Err(e) && e == LfsError::Conflict && final(storage).locks@ == old(storage).locks@
            } else if has_lock_id(base, id@) {
                r matches Err(e) && e == LfsError::GeneralError && final(storage).locks@ == old(storage).locks@
            } else {
                r matches Ok(l) && l.id@ == id@ && l.path@ == req.path@ && l.owner is None
                    && l.locked_at@ == locked_at@ && locks_after_add(
                    old(storage).locks@,
                    final(storage).locks@,
                    req.refspec@,
                    l,
                )
            }
        }),
{
    let ghost base = repo_locks_of(storage.locks@, req.refspec@);
    let held = match storage.find_repo(&req.refspec) {
        Some(i) => {
            proof {
                assert(lock_record_wf(storage.locks@[i as int]));
            }
            let rec = &storage.locks[i];
            let n = rec.locks.len();
            let mut held = false;
            let mut j: usize = 0;
            while j < n
                invariant
                    j <= n,
                    n == rec.locks@.len(),
                    held == has_lock_path(rec.locks@.take(j as int), req.path@),
                decreases n - j,
            {
                if str_eq(rec.locks[j].path.as_str(), req.path.as_str()) {
                    held = true;
                }
                proof {
                    assert(rec.locks@.take(j + 1).drop_last() =~= rec.locks@.take(j as int));
                    assert(forall|k: int| 0 <= k < j + 1 ==> rec.locks@.take(j + 1)[k]
                        == rec.locks@[k]);
                }
                j = j + 1;
            }
            proof {
                assert(rec.locks@.take(n as int) =~= rec.locks@);
            }
            held
        },
        None => false,
    };
    if held {
        return Err(LfsError::Conflict);
    }
    let id_taken = match storage.find_repo(&req.refspec) {
        Some(i) => {
            proof {
                assert(lock_record_wf(storage.locks@[i as int]));
            }
            match find_lock_index(&storage.locks[i].locks, &id) {
                Some(_) => true,
                None => false,
            }
        },
        None => false,
    };
    if id_taken {
        return Err(LfsError::GeneralError);
    }
    let lock = Lock { id, path: req.path.clone(), owner: None, locked_at };
    let result = lock.duplicate();
    lfs_add_lock(storage, &req.refspec, lock);
    Ok(result)
}

/// Creates a lock on the path with a fresh random eight-digit id stamped
/// with the current time. Fails `Conflict` exactly when an active lock
/// already holds the path; fails `GeneralError` only when the drawn id
/// collides with one of the scope's lock ids, which an empty scope rules
/// out.
pub fn lfs_create_lock(storage: &mut LfsStorage, req: &LockRequest) -> (r: Result<Lock, LfsError>)
    requires
        old(storage).wf(),
        repo_locks_of(old(storage).locks@, req.refspec@).len() < usize::MAX,
    ensures
        final(storage).wf(),
        final(storage).objects@ == old(storage).objects@,
        final(storage).relations@ == old(storage).relations@,
        ({
            let base = repo_locks_of(old(storage).locks@, req.refspec@);
            if has_lock_path(base, req.path@) {
                r matches Err(e) && e == LfsError::Conflict && final(storage).locks@ == old(storage).locks@
            } else {
                match r {
                    Ok(l) => l.path@ == req.path@ && l.owner is None && l.id@.len() == 8 && (
                    forall|i: int| 0 <= i < 8 ==> is_dec_digit(l.id@[i])) && !has_lock_id(
                        base,
                        l.id@,
                    ) && locks_after_add(
                        old(storage).locks@,
                        final(storage).locks@,
                        req.refspec@,
                        l,
                    ),
                    Err(e) => e == LfsError::GeneralError && base.len() > 0 && final(storage).locks@ == old(storage).locks@,
                }
            }
        }),
{
    let id = random_lock_id();
    let locked_at = now_rfc3339();
    create_lock_with(storage, req, id, locked_at)
}

/// Removes the lock the id names under the repository scope, returning
/// it. Fails `NotFound` when the scope has no record or the id names no
/// lock of it; fails `Forbidden` exactly when the lock is owned by
/// someone else and force is unset. Removing the last lock removes the
/// scope's record entirely.
pub fn delete_lock(storage: &mut LfsStorage, repo: &String, id: &String, force: bool) -> (r:
    Result<Lock, LfsError>)
    requires
        old(storage).wf(),
    ensures
        final(storage).wf(),
        final(storage).objects@ == old(storage).objects@,
        final(storage).relations@ == old(storage).relations@,
        ({
            let pre = old(storage).locks@;
            let post = final(storage).locks@;
            let base = repo_locks_of(pre, repo@);
            if !has_repo(pre, repo@) {
                r matches Err(e) && e == LfsError::NotFound && post == pre
            } else if !has_lock_id(base, id@) {
                r matches Err(e) && e == LfsError::NotFound && post == pre
            } else {
                let li = lock_idx(base, id@);
                let victim = base[li];
                if victim.owner is Some && !force {
                    r matches Err(e) && e == LfsError::Forbidden && post == pre
                } else {
                    r matches Ok(l) && l == victim && if base.len() == 1 {
                        post == pre.remove(repo_idx(pre, repo@))
                    } else {
                        post.len() == pre.len() && (forall|k: int|
                            0 <= k < pre.len() && k != repo_idx(pre, repo@) ==> post[k] == pre[k])
                            && post[repo_idx(pre, repo@)].id@ == repo@ && post[repo_idx(
                            pre,
                            repo@,
                        )].locks@ == base.remove(li)
                    }
                }
            }
        }),
{
    let rec_i = match storage.find_repo(repo) {
        Some(i) => i,
        None => {
            return Err(LfsError::NotFound);
        },
    };
    proof {
        assert(lock_record_wf(storage.locks@[rec_i as int]));
    }
    let ghost base = repo_locks_of(storage.locks@, repo@);
    let li = match find_lock_index(&storage.locks[rec_i].locks, id) {
        Some(j) => j,
        None => {
            return Err(LfsError::NotFound);
        },
    };
    proof {
        lemma_lock_idx_is(base, id@, li as int);
    }
    let victim = storage.locks[rec_i].locks[li].duplicate();
    if victim.owner.is_some() && !force {
        return Err(LfsError::Forbidden);
    }
    if storage.locks[rec_i].locks.len() == 1 {
        storage.delete_lock_by_id(repo.clone());
        return Ok(victim);
    }
    let mut trimmed = clone_locks(&storage.locks[rec_i].locks);
    trimmed.remove(li);
    proof {
        let r = base.remove(li as int);
        assert(trimmed@ == r);
        assert forall|p: int, q: int| 0 <= p < q < r.len() implies char_seq_le(
            r[p].locked_at@,
            r[q].locked_at@,
        ) by {
            if q < li {
            } else if p < li {
                assert(r[q] == base[q + 1]);
            } else {
                assert(r[p] == base[p + 1] && r[q] == base[q + 1]);
            }
        }
        assert forall|p: int, q: int| 0 <= p < q < r.len() implies r[p].id@ != r[q].id@ by {
            if q < li {
            } else if p < li {
                assert(r[q] == base[q + 1]);
            } else {
                assert(r[p] == base[p + 1] && r[q] == base[q + 1]);
            }
        }
        assert forall|p: int| 0 <= p < r.len() implies r[p].id@.len() > 0 by {
            if p >= li {
                assert(r[p] == base[p + 1]);
            }
        }
    }
    storage.update_lock(LockRecord { id: repo.clone(), locks: trimmed });
    Ok(victim)
}

/// Removes the lock the id names, under the scope and force flag of the
/// unlock request. An empty id fails `GeneralError` at once.
pub fn lfs_delete_lock(storage: &mut LfsStorage, id: &String, unlock_request: &UnlockRequest) -> (r:
    Result<Lock, LfsError>)
    requires
        old(storage).wf(),
    ensures
        final(storage).wf(),
        final(storage).objects@ == old(storage).objects@,
        final(storage).relations@ == old(storage).relations@,
        ({
            let pre = old(storage).locks@;
            let post = final(storage).locks@;
            let base = repo_locks_of(pre, unlock_request.refspec@);
            let force = unlock_request.force == Some(true);
            if id@.len() == 0 {
                r matches Err(e) && e == LfsError::GeneralError && post == pre
            } else if !has_repo(pre, unlock_request.refspec@) {
                r matches Err(e) && e == LfsError::NotFound && post == pre
            } else if !has_lock_id(base, id@) {
                r matches Err(e) && e == LfsError::NotFound && post == pre
            } else {
                let li = lock_idx(base, id@);
                let victim = base[li];
                if victim.owner is Some && !force {
                    r matches Err(e) && e == LfsError::Forbidden && post == pre
                } else {
                    r matches Ok(l) && l == victim && if base.len() == 1 {
                        post == pre.remove(repo_idx(pre, unlock_request.refspec@))
                    } else {
                        post.len() == pre.len() && (forall|k: int|
                            0 <= k < pre.len() && k != repo_idx(pre, unlock_request.refspec@)
                                ==> post[k] == pre[k]) && post[repo_idx(
                            pre,
                            unlock_request.refspec@,
                        )].id@ == unlock_request.refspec@ && post[repo_idx(
                            pre,
                            unlock_request.refspec@,
                        )].locks@ == base.remove(li)
                    }
                }
            }
        }),
{
    if id.as_str().is_empty() {
        return Err(LfsError::GeneralError);
    }
    let force = match unlock_request.force {
        Some(b) => b,
        None => false,
    };
    delete_lock(storage, &unlock_request.refspec, id, force)
}

} // verus!
