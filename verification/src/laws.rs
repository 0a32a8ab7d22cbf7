//! The engine's cross-cutting laws: listing is deterministic, pagination
//! by cursor visits every lock exactly once in stored order, ownership
//! partition is exact, and deleting a repository's last lock leaves a
//! scope that lists as empty.

use vstd::prelude::*;
use crate::locks::{
    cursor_view, effective_limit, filtered_cursor, filtered_page, lemma_lock_idx_is, ours_of,
    page_cursor, page_locks, path_filter, theirs_of,
};
use crate::store::{
    has_repo, nonempty_lock_ids, repo_idx, repo_locks_of, unique_lock_ids, unique_repo_ids,
    LockRecord,
};
use crate::types::Lock;

verus! {

/// Listing is deterministic: on equal stored records, a query returns
/// the same page and next cursor, so repeated listings with no write in
/// between agree.
pub proof fn lemma_list_deterministic(
    a: Seq<LockRecord>,
    b: Seq<LockRecord>,
    refspec: Seq<char>,
    path: Seq<char>,
    cursor: Seq<char>,
    limit: usize,
)
    requires
        a == b,
    ensures
        filtered_page(repo_locks_of(a, refspec), path, cursor, limit) == filtered_page(
            repo_locks_of(b, refspec),
            path,
            cursor,
            limit,
        ),
        filtered_cursor(repo_locks_of(a, refspec), path, cursor, limit) == filtered_cursor(
            repo_locks_of(b, refspec),
            path,
            cursor,
            limit,
        ),
{
}

/// One pagination step: asking with the id of the lock at an index as
/// cursor returns exactly the next window of the list, its first element
/// is the lock the cursor names, and the next cursor is the id of the
/// first lock past the window, or empty at the end.
pub proof fn lemma_pagination_step(s: Seq<Lock>, limit: usize, j: int)
    requires
        unique_lock_ids(s),
        nonempty_lock_ids(s),
        0 <= j < s.len(),
    ensures
        ({
            let eff = effective_limit(limit);
            let close = if j + eff <= s.len() {
                j + eff
            } else {
                s.len() as int
            };
            let page = filtered_page(s, Seq::<char>::empty(), s[j].id@, limit);
            let next = filtered_cursor(s, Seq::<char>::empty(), s[j].id@, limit);
            &&& page == s.subrange(j, close)
            &&& page.len() > 0
            &&& page[0].id@ == s[j].id@
            &&& next == (if j + eff < s.len() {
                s[j + eff].id@
            } else {
                Seq::<char>::empty()
            })
        }),
{
    let eff = effective_limit(limit);
    let cursor = s[j].id@;
    lemma_lock_idx_is(s, cursor, j);
    let v = cursor_view(s, cursor);
    assert(v == s.skip(j));
    assert(path_filter(v, Seq::<char>::empty()) == v);
    let close = if j + eff <= s.len() {
        j + eff
    } else {
        s.len() as int
    };
    if v.len() <= eff {
        assert(page_locks(v, eff) == v);
        assert(v =~= s.subrange(j, close));
    } else {
        assert(page_locks(v, eff) == v.take(eff));
        assert(v.take(eff) =~= s.subrange(j, close));
        assert(page_cursor(v, eff) == v[eff].id@);
        assert(v[eff] == s[j + eff]);
    }
}

/// The windows of a list taken limit by limit, from an index on.
pub open spec fn pages_from(s: Seq<Lock>, eff: int, i: int) -> Seq<Lock>
    decreases s.len() - i,
    when 0 <= i && eff >= 1
{
    if i >= s.len() {
        Seq::<Lock>::empty()
    } else if i + eff <= s.len() {
        s.subrange(i, i + eff) + pages_from(s, eff, i + eff)
    } else {
        s.subrange(i, s.len() as int) + pages_from(s, eff, s.len() as int)
    }
}

/// Following the windows from an index concatenates to the rest of the
/// list: paginating visits every lock exactly once, in stored order.
pub proof fn lemma_pages_cover(s: Seq<Lock>, eff: int, i: int)
    requires
        eff >= 1,
        0 <= i <= s.len(),
    ensures
        pages_from(s, eff, i) == s.skip(i),
    decreases s.len() - i,
{
    if i >= s.len() {
        assert(pages_from(s, eff, i) =~= s.skip(i));
    } else if i + eff <= s.len() {
        lemma_pages_cover(s, eff, i + eff);
        assert(s.subrange(i, i + eff) + s.skip(i + eff) =~= s.skip(i));
    } else {
        lemma_pages_cover(s, eff, s.len() as int);
        assert(s.subrange(i, s.len() as int) + s.skip(s.len() as int) =~= s.skip(i));
    }
}

/// The ownership partition is exact: locks with no owner and locks with
/// one together are the partitioned list, nothing is counted twice, and
/// each side holds only its kind.
pub proof fn lemma_verify_partition(s: Seq<Lock>)
    ensures
        ours_of(s).to_multiset().add(theirs_of(s).to_multiset()) == s.to_multiset(),
        ours_of(s).len() + theirs_of(s).len() == s.len(),
        forall|i: int| 0 <= i < ours_of(s).len() ==> ours_of(s)[i].owner is None,
        forall|i: int| 0 <= i < theirs_of(s).len() ==> theirs_of(s)[i].owner is Some,
    decreases s.len(),
{
    broadcast use vstd::seq_lib::group_to_multiset_ensures;

    if s.len() == 0 {
        assert(ours_of(s).to_multiset().add(theirs_of(s).to_multiset()) =~= s.to_multiset());
    } else {
        let d = s.drop_last();
        lemma_verify_partition(d);
        assert(d.push(s.last()) =~= s);
        assert(d.push(s.last()).to_multiset() == d.to_multiset().insert(s.last()));
        if s.last().owner is None {
            assert(ours_of(s) == ours_of(d).push(s.last()));
            assert(ours_of(s).to_multiset() == ours_of(d).to_multiset().insert(s.last()));
            assert(ours_of(s).to_multiset().add(theirs_of(s).to_multiset()) =~= s.to_multiset());
            assert forall|i: int| 0 <= i < ours_of(s).len() implies ours_of(s)[i].owner is None by {
                if i < ours_of(d).len() {
                    assert(ours_of(s)[i] == ours_of(d)[i]);
                }
            }
        } else {
            assert(theirs_of(s) == theirs_of(d).push(s.last()));
            assert(theirs_of(s).to_multiset() == theirs_of(d).to_multiset().insert(s.last()));
            assert(ours_of(s).to_multiset().add(theirs_of(s).to_multiset()) =~= s.to_multiset());
            assert forall|i: int| 0 <= i < theirs_of(s).len() implies theirs_of(
                s,
            )[i].owner is Some by {
                if i < theirs_of(d).len() {
                    assert(theirs_of(s)[i] == theirs_of(d)[i]);
                }
            }
        }
    }
}

/// After the record of a repository is removed, the scope has no record
/// left, and a listing of it returns the empty page with an empty next
/// cursor.
pub proof fn lemma_delete_last_empties(
    pre: Seq<LockRecord>,
    post: Seq<LockRecord>,
    repo: Seq<char>,
    path: Seq<char>,
    limit: usize,
)
    requires
        unique_repo_ids(pre),
        has_repo(pre, repo),
        post == pre.remove(repo_idx(pre, repo)),
    ensures
        !has_repo(post, repo),
        repo_locks_of(post, repo) == Seq::<Lock>::empty(),
        filtered_page(repo_locks_of(post, repo), path, Seq::<char>::empty(), limit)
            == Seq::<Lock>::empty(),
        filtered_cursor(repo_locks_of(post, repo), path, Seq::<char>::empty(), limit)
            == Seq::<char>::empty(),
{
    let ri = repo_idx(pre, repo);
    assert(0 <= ri < pre.len() && pre[ri].id@ == repo);
    assert forall|k: int| 0 <= k < post.len() implies post[k].id@ != repo by {
        if k < ri {
            assert(post[k] == pre[k]);
        } else {
            assert(post[k] == pre[k + 1]);
        }
    }
    let base = repo_locks_of(post, repo);
    assert(base == Seq::<Lock>::empty());
    assert(path_filter(base, path) =~= Seq::<Lock>::empty());
}

} // verus!
