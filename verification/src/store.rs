//! In-memory models of the two durable stores the engine talks to: the
//! metadata store (object rows, lock records, split relations) and the
//! content-addressable object store. Each is a plain structure with an
//! explicit well-formedness invariant, so every operation of the engine is
//! verified against the store's full state.

use vstd::prelude::*;
use vstd::slice::slice_to_vec;
use crate::text::{char_seq_le, str_eq};
use crate::types::{LfsError, Lock, MetaObject};

verus! {

/// All the locks of one repository scope, stored under the scope's id.
#[derive(Debug, Clone, PartialEq, Eq)]
pub struct LockRecord {
    pub id: String,
    pub locks: Vec<Lock>,
}

/// One declared chunk of a split object: the original content id, the
/// chunk's content id, and the chunk's place and size.
#[derive(Debug, Clone, PartialEq, Eq)]
pub struct SplitRelation {
    pub ori_oid: String,
    pub sub_oid: String,
    pub offset: i64,
    pub size: i64,
}

impl SplitRelation {
    /// A copy equal to the original, usable from verified code.
    pub fn duplicate(&self) -> (r: SplitRelation)
        ensures
            r == *self,
    {
        SplitRelation {
            ori_oid: self.ori_oid.clone(),
            sub_oid: self.sub_oid.clone(),
            offset: self.offset,
            size: self.size,
        }
    }
}

/// Lock ids are pairwise distinct within a sequence.
pub open spec fn unique_lock_ids(s: Seq<Lock>) -> bool {
    forall|i: int, j: int| 0 <= i < j < s.len() ==> s[i].id@ != s[j].id@
}

/// Every lock id in the sequence is nonempty.
pub open spec fn nonempty_lock_ids(s: Seq<Lock>) -> bool {
    forall|i: int| 0 <= i < s.len() ==> s[i].id@.len() > 0
}

/// The locks are ordered by their timestamps, ascending.
pub open spec fn sorted_by_time(s: Seq<Lock>) -> bool {
    forall|i: int, j: int| 0 <= i < j < s.len() ==> char_seq_le(s[i].locked_at@, s[j].locked_at@)
}

/// A stored lock record is nonempty, its ids are distinct and nonempty,
/// and its locks stand in timestamp order.
pub open spec fn lock_record_wf(r: LockRecord) -> bool {
    &&& r.locks@.len() > 0
    &&& unique_lock_ids(r.locks@)
    &&& nonempty_lock_ids(r.locks@)
    &&& sorted_by_time(r.locks@)
}

/// Repository ids are pairwise distinct.
pub open spec fn unique_repo_ids(s: Seq<LockRecord>) -> bool {
    forall|i: int, j: int| 0 <= i < j < s.len() ==> s[i].id@ != s[j].id@
}

/// Object ids are pairwise distinct.
pub open spec fn unique_oids(s: Seq<MetaObject>) -> bool {
    forall|i: int, j: int| 0 <= i < j < s.len() ==> s[i].oid@ != s[j].oid@
}

/// Whether some lock record carries the repository id.
pub open spec fn has_repo(s: Seq<LockRecord>, repo: Seq<char>) -> bool {
    exists|i: int| 0 <= i < s.len() && s[i].id@ == repo
}

/// The index of the lock record of the repository; meaningful only when
/// one exists, and unique when repository ids are distinct.
pub open spec fn repo_idx(s: Seq<LockRecord>, repo: Seq<char>) -> int {
    choose|i: int| 0 <= i < s.len() && s[i].id@ == repo
}

/// The locks of the repository, empty when it has no record.
pub open spec fn repo_locks_of(s: Seq<LockRecord>, repo: Seq<char>) -> Seq<Lock> {
    if has_repo(s, repo) {
        s[repo_idx(s, repo)].locks@
    } else {
        Seq::<Lock>::empty()
    }
}

/// Under distinct repository ids, a record holding the id is the record
/// the index function names.
pub proof fn lemma_repo_idx_is(s: Seq<LockRecord>, repo: Seq<char>, i: int)
    requires
        unique_repo_ids(s),
        0 <= i < s.len(),
        s[i].id@ == repo,
    ensures
        has_repo(s, repo),
        repo_idx(s, repo) == i,
{
    assert(has_repo(s, repo));
    let j = repo_idx(s, repo);
    assert(0 <= j < s.len() && s[j].id@ == repo);
    if i < j {
        assert(s[i].id@ != s[j].id@);
    } else if j < i {
        assert(s[j].id@ != s[i].id@);
    }
}

/// Whether some metadata row carries the object id.
pub open spec fn has_oid(s: Seq<MetaObject>, oid: Seq<char>) -> bool {
    exists|i: int| 0 <= i < s.len() && s[i].oid@ == oid
}

/// The index of the metadata row of the object id; meaningful only when
/// one exists, and unique when object ids are distinct.
pub open spec fn oid_idx(s: Seq<MetaObject>, oid: Seq<char>) -> int {
    choose|i: int| 0 <= i < s.len() && s[i].oid@ == oid
}

/// Under distinct object ids, a row holding the id is the row the index
/// function names.
pub proof fn lemma_oid_idx_is(s: Seq<MetaObject>, oid: Seq<char>, i: int)
    requires
        unique_oids(s),
        0 <= i < s.len(),
        s[i].oid@ == oid,
    ensures
        has_oid(s, oid),
        oid_idx(s, oid) == i,
{
    assert(has_oid(s, oid));
    let j = oid_idx(s, oid);
    assert(0 <= j < s.len() && s[j].oid@ == oid);
    if i < j {
        assert(s[i].oid@ != s[j].oid@);
    } else if j < i {
        assert(s[j].oid@ != s[i].oid@);
    }
}

/// The split relations whose original object id matches, in stored order.
pub open spec fn relations_of(s: Seq<SplitRelation>, oid: Seq<char>) -> Seq<SplitRelation>
    decreases s.len(),
{
    if s.len() == 0 {
        Seq::<SplitRelation>::empty()
    } else if s.last().ori_oid@ == oid {
        relations_of(s.drop_last(), oid).push(s.last())
    } else {
        relations_of(s.drop_last(), oid)
    }
}

/// The metadata store: object rows keyed by content id, one lock record
/// per repository scope, and the declared split relations.
#[derive(Debug, Clone, PartialEq, Eq)]
pub struct LfsStorage {
    pub objects: Vec<MetaObject>,
    pub locks: Vec<LockRecord>,
    pub relations: Vec<SplitRelation>,
}

impl LfsStorage {
    /// Object ids and repository ids are distinct, and every lock record
    /// is well formed; an empty lock set is no record at all.
    pub open spec fn wf(&self) -> bool {
        &&& unique_oids(self.objects@)
        &&& unique_repo_ids(self.locks@)
        &&& forall|i: int| 0 <= i < self.locks@.len() ==> lock_record_wf(self.locks@[i])
    }

    /// An empty store, for callers that start from nothing.
    pub fn mock() -> (r: Self)
        ensures
            r.objects@.len() == 0,
            r.locks@.len() == 0,
            r.relations@.len() == 0,
            r.wf(),
    {
        LfsStorage { objects: Vec::new(), locks: Vec::new(), relations: Vec::new() }
    }

    /// The index of the repository's lock record, if it has one.
    pub fn find_repo(&self, refspec: &String) -> (r: Option<usize>)
        requires
            self.wf(),
        ensures
            match r {
                Some(i) => i < self.locks@.len() && self.locks@[i as int].id@ == refspec@
                    && has_repo(self.locks@, refspec@) && repo_idx(self.locks@, refspec@) == i,
                None => !has_repo(self.locks@, refspec@),
            },
    {
        let n = self.locks.len();
        let mut i: usize = 0;
        while i < n
            invariant
                i <= n,
                n == self.locks@.len(),
                self.wf(),
                forall|k: int| 0 <= k < i ==> self.locks@[k].id@ != refspec@,
            decreases n - i,
        {
            if str_eq(self.locks[i].id.as_str(), refspec.as_str()) {
                proof {
                    lemma_repo_idx_is(self.locks@, refspec@, i as int);
                }
                return Some(i);
            }
            i = i + 1;
        }
        None
    }

    /// The lock record stored under the repository scope, if any.
    pub fn get_lock_by_id(&self, refspec: &String) -> (r: Option<&LockRecord>)
        requires
            self.wf(),
        ensures
            match r {
                Some(rec) => has_repo(self.locks@, refspec@)
                    && *rec == self.locks@[repo_idx(self.locks@, refspec@)],
                None => !has_repo(self.locks@, refspec@),
            },
    {
        match self.find_repo(refspec) {
            Some(i) => Some(&self.locks[i]),
            None => None,
        }
    }

    /// Stores a fresh lock record; the repository must not have one yet.
    pub fn new_lock(&mut self, lfs_lock: LockRecord)
        requires
            old(self).wf(),
            !has_repo(old(self).locks@, lfs_lock.id@),
            lock_record_wf(lfs_lock),
        ensures
            final(self).locks@ == old(self).locks@.push(lfs_lock),
            final(self).objects@ == old(self).objects@,
            final(self).relations@ == old(self).relations@,
            final(self).wf(),
    {
        self.locks.push(lfs_lock);
    }

    /// Replaces the lock record of the repository the record names.
    pub fn update_lock(&mut self, lfs_lock: LockRecord)
        requires
            old(self).wf(),
            has_repo(old(self).locks@, lfs_lock.id@),
            lock_record_wf(lfs_lock),
        ensures
            final(self).locks@ == old(self).locks@.update(
                repo_idx(old(self).locks@, lfs_lock.id@),
                lfs_lock,
            ),
            final(self).objects@ == old(self).objects@,
            final(self).relations@ == old(self).relations@,
            final(self).wf(),
    {
        let i = match self.find_repo(&lfs_lock.id) {
            Some(i) => i,
            None => {
                proof {
                    assert(false);
                }
                0
            },
        };
        self.locks.remove(i);
        self.locks.insert(i, lfs_lock);
        proof {
            assert(self.locks@ =~= old(self).locks@.update(
                repo_idx(old(self).locks@, lfs_lock.id@),
                lfs_lock,
            ));
        }
    }

    /// Removes the repository's lock record; absent records stay absent.
    pub fn delete_lock_by_id(&mut self, id: String)
        requires
            old(self).wf(),
        ensures
            if has_repo(old(self).locks@, id@) {
                final(self).locks@ == old(self).locks@.remove(repo_idx(old(self).locks@, id@))
            } else {
                final(self).locks@ == old(self).locks@
            },
            final(self).objects@ == old(self).objects@,
            final(self).relations@ == old(self).relations@,
            final(self).wf(),
    {
        match self.find_repo(&id) {
            Some(i) => {
                self.locks.remove(i);
            },
            None => {},
        }
    }

    /// The index of the object id's metadata row, if it has one.
    pub fn find_oid(&self, oid: &String) -> (r: Option<usize>)
        requires
            self.wf(),
        ensures
            match r {
                Some(i) => i < self.objects@.len() && self.objects@[i as int].oid@ == oid@
                    && has_oid(self.objects@, oid@) && oid_idx(self.objects@, oid@) == i,
                None => !has_oid(self.objects@, oid@),
            },
    {
        let n = self.objects.len();
        let mut i: usize = 0;
        while i < n
            invariant
                i <= n,
                n == self.objects@.len(),
                self.wf(),
                forall|k: int| 0 <= k < i ==> self.objects@[k].oid@ != oid@,
            decreases n - i,
        {
            if str_eq(self.objects[i].oid.as_str(), oid.as_str()) {
                proof {
                    lemma_oid_idx_is(self.objects@, oid@, i as int);
                }
                return Some(i);
            }
            i = i + 1;
        }
        None
    }

    /// Stores a fresh metadata row; the object id must not have one yet.
    pub fn new_lfs_object(&mut self, object: MetaObject)
        requires
            old(self).wf(),
            !has_oid(old(self).objects@, object.oid@),
        ensures
            final(self).objects@ == old(self).objects@.push(object),
            final(self).locks@ == old(self).locks@,
            final(self).relations@ == old(self).relations@,
            final(self).wf(),
    {
        self.objects.push(object);
    }

    /// The metadata row of the object id, if any.
    pub fn get_lfs_object(&self, oid: &String) -> (r: Option<&MetaObject>)
        requires
            self.wf(),
        ensures
            match r {
                Some(m) => has_oid(self.objects@, oid@)
                    && *m == self.objects@[oid_idx(self.objects@, oid@)],
                None => !has_oid(self.objects@, oid@),
            },
    {
        match self.find_oid(oid) {
            Some(i) => Some(&self.objects[i]),
            None => None,
        }
    }

    /// Removes the object id's metadata row; absent rows stay absent.
    pub fn delete_lfs_object(&mut self, oid: String)
        requires
            old(self).wf(),
        ensures
            if has_oid(old(self).objects@, oid@) {
                final(self).objects@ == old(self).objects@.remove(oid_idx(old(self).objects@, oid@))
            } else {
                final(self).objects@ == old(self).objects@
            },
            final(self).locks@ == old(self).locks@,
            final(self).relations@ == old(self).relations@,
            final(self).wf(),
    {
        match self.find_oid(&oid) {
            Some(i) => {
                self.objects.remove(i);
            },
            None => {},
        }
    }

    /// Records one declared chunk of a split object.
    pub fn new_lfs_relation(&mut self, relation: SplitRelation)
        requires
            old(self).wf(),
        ensures
            final(self).relations@ == old(self).relations@.push(relation),
            final(self).objects@ == old(self).objects@,
            final(self).locks@ == old(self).locks@,
            final(self).wf(),
    {
        self.relations.push(relation);
    }

    /// The declared chunks of the object, in stored order. Fails
    /// `NotFound` when the object has no metadata row or no chunk at all
    /// is declared for it.
    pub fn get_lfs_relations(&self, oid: &String) -> (r: Result<Vec<SplitRelation>, LfsError>)
        requires
            self.wf(),
        ensures
            match r {
                Ok(v) => has_oid(self.objects@, oid@)
                    && v@ == relations_of(self.relations@, oid@) && v@.len() > 0,
                Err(e) => e == LfsError::NotFound && (!has_oid(self.objects@, oid@)
                    || relations_of(self.relations@, oid@).len() == 0),
            },
    {
        if self.find_oid(oid).is_none() {
            return Err(LfsError::NotFound);
        }
        let n = self.relations.len();
        let mut out: Vec<SplitRelation> = Vec::new();
        let mut i: usize = 0;
        while i < n
            invariant
                i <= n,
                n == self.relations@.len(),
                out@ == relations_of(self.relations@.take(i as int), oid@),
            decreases n - i,
        {
            if str_eq(self.relations[i].ori_oid.as_str(), oid.as_str()) {
                out.push(self.relations[i].duplicate());
            }
            proof {
                assert(self.relations@.take(i + 1).drop_last() =~= self.relations@.take(i as int));
                assert(self.relations@.take(i + 1).last() == self.relations@[i as int]);
            }
            i = i + 1;
        }
        proof {
            assert(self.relations@.take(n as int) =~= self.relations@);
        }
        if out.len() == 0 {
            return Err(LfsError::NotFound);
        }
        Ok(out)
    }
}

/// Whether the object store holds bytes under the repository and object id.
pub open spec fn has_entry(s: Seq<StoredObject>, repo: Seq<char>, oid: Seq<char>) -> bool {
    exists|i: int| 0 <= i < s.len() && s[i].repo@ == repo && s[i].oid@ == oid
}

/// The index of the store entry under the repository and object id;
/// meaningful only when one exists, and unique when keys are distinct.
pub open spec fn entry_idx(s: Seq<StoredObject>, repo: Seq<char>, oid: Seq<char>) -> int {
    choose|i: int| 0 <= i < s.len() && s[i].repo@ == repo && s[i].oid@ == oid
}

/// One object's bytes, keyed by repository and content id.
#[derive(Debug, Clone, PartialEq, Eq)]
pub struct StoredObject {
    pub repo: String,
    pub oid: String,
    pub data: Vec<u8>,
}

/// Keys are pairwise distinct.
pub open spec fn unique_entries(s: Seq<StoredObject>) -> bool {
    forall|i: int, j: int| 0 <= i < j < s.len()
        ==> !(s[i].repo@ == s[j].repo@ && s[i].oid@ == s[j].oid@)
}

/// Under distinct keys, an entry holding the key is the entry the index
/// function names.
pub proof fn lemma_entry_idx_is(s: Seq<StoredObject>, repo: Seq<char>, oid: Seq<char>, i: int)
    requires
        unique_entries(s),
        0 <= i < s.len(),
        s[i].repo@ == repo,
        s[i].oid@ == oid,
    ensures
        has_entry(s, repo, oid),
        entry_idx(s, repo, oid) == i,
{
    assert(has_entry(s, repo, oid));
    let j = entry_idx(s, repo, oid);
    assert(0 <= j < s.len() && s[j].repo@ == repo && s[j].oid@ == oid);
    if i < j {
        assert(!(s[i].repo@ == s[j].repo@ && s[i].oid@ == s[j].oid@));
    } else if j < i {
        assert(!(s[j].repo@ == s[i].repo@ && s[j].oid@ == s[i].oid@));
    }
}

/// The content-addressable object store, modelled as the set of byte
/// records it holds.
#[derive(Debug, Clone, PartialEq, Eq)]
pub struct ObjectStorage {
    pub entries: Vec<StoredObject>,
}

impl ObjectStorage {
    /// Keys are pairwise distinct.
    pub open spec fn wf(&self) -> bool {
        unique_entries(self.entries@)
    }

    /// An empty object store.
    pub fn empty() -> (r: Self)
        ensures
            r.entries@.len() == 0,
            r.wf(),
    {
        ObjectStorage { entries: Vec::new() }
    }

    /// The index of the entry under the key, if one exists.
    fn find_entry(&self, repo: &String, oid: &String) -> (r: Option<usize>)
        requires
            self.wf(),
        ensures
            match r {
                Some(i) => i < self.entries@.len() && self.entries@[i as int].repo@ == repo@
                    && self.entries@[i as int].oid@ == oid@
                    && has_entry(self.entries@, repo@, oid@)
                    && entry_idx(self.entries@, repo@, oid@) == i,
                None => !has_entry(self.entries@, repo@, oid@),
            },
    {
        let n = self.entries.len();
        let mut i: usize = 0;
        while i < n
            invariant
                i <= n,
                n == self.entries@.len(),
                self.wf(),
                forall|k: int| 0 <= k < i
                    ==> !(self.entries@[k].repo@ == repo@ && self.entries@[k].oid@ == oid@),
            decreases n - i,
        {
            if str_eq(self.entries[i].repo.as_str(), repo.as_str()) && str_eq(
                self.entries[i].oid.as_str(),
                oid.as_str(),
            ) {
                proof {
                    lemma_entry_idx_is(self.entries@, repo@, oid@, i as int);
                }
                return Some(i);
            }
            i = i + 1;
        }
        None
    }

    /// Whether bytes are stored under the key.
    pub fn exist_object(&self, repo: &String, oid: &String) -> (r: bool)
        requires
            self.wf(),
        ensures
            r == has_entry(self.entries@, repo@, oid@),
    {
        self.find_entry(repo, oid).is_some()
    }

    /// Stores bytes under the key, replacing what the key held.
    pub fn put_object(&mut self, repo: &String, oid: &String, body: &[u8])
        requires
            old(self).wf(),
        ensures
            final(self).wf(),
            has_entry(final(self).entries@, repo@, oid@),
            ({
                let i = entry_idx(final(self).entries@, repo@, oid@);
                &&& final(self).entries@[i].repo@ == repo@
                &&& final(self).entries@[i].oid@ == oid@
                &&& final(self).entries@[i].data@ == body@
                &&& if has_entry(old(self).entries@, repo@, oid@) {
                    final(self).entries@ == old(self).entries@.update(
                        entry_idx(old(self).entries@, repo@, oid@),
                        final(self).entries@[i],
                    )
                } else {
                    final(self).entries@ == old(self).entries@.push(final(self).entries@[i])
                }
            }),
    {
        let entry = StoredObject {
            repo: repo.clone(),
            oid: oid.clone(),
            data: slice_to_vec(body),
        };
        match self.find_entry(repo, oid) {
            Some(i) => {
                self.entries.remove(i);
                self.entries.insert(i, entry);
                proof {
                    let gi = entry_idx(old(self).entries@, repo@, oid@);
                    assert(self.entries@ =~= old(self).entries@.update(gi, self.entries@[gi]));
                    lemma_entry_idx_is(self.entries@, repo@, oid@, gi);
                }
            },
            None => {
                self.entries.push(entry);
                proof {
                    let gi = (self.entries@.len() - 1) as int;
                    lemma_entry_idx_is(self.entries@, repo@, oid@, gi);
                    assert(self.entries@ =~= old(self).entries@.push(self.entries@[gi]));
                }
            },
        }
    }

    /// The bytes stored under the key, if any.
    pub fn get_object(&self, repo: &String, oid: &String) -> (r: Option<&Vec<u8>>)
        requires
            self.wf(),
        ensures
            match r {
                Some(v) => has_entry(self.entries@, repo@, oid@)
                    && v@ == self.entries@[entry_idx(self.entries@, repo@, oid@)].data@,
                None => !has_entry(self.entries@, repo@, oid@),
            },
    {
        match self.find_entry(repo, oid) {
            Some(i) => Some(&self.entries[i].data),
            None => None,
        }
    }
}

} // verus!
