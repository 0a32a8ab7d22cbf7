//! Data model of the LFS protocol engine: locks, object metadata, batch
//! requests and their response representations, and the failure kinds.

use vstd::prelude::*;
use vstd::string::*;

verus! {

/// The failure kinds every operation of the engine can report.
#[derive(Clone, Copy, Debug, PartialEq, Eq, Structural)]
pub enum LfsError {
    /// An active lock already holds the requested path.
    Conflict,
    /// The lock, id, or metadata asked for is absent.
    NotFound,
    /// A delete was attempted on an owned lock without force.
    Forbidden,
    /// The pagination cursor names no lock in the current list.
    InvalidCursor,
    /// A persistence or adapter failure, or malformed input.
    GeneralError,
}

impl LfsError {
    /// The numeric code of the structured failure.
    pub fn code(&self) -> (r: u64)
        ensures
            r == match *self {
                LfsError::Conflict => 409u64,
                LfsError::NotFound => 404u64,
                LfsError::Forbidden => 403u64,
                LfsError::InvalidCursor => 400u64,
                LfsError::GeneralError => 500u64,
            },
    {
        match self {
            LfsError::Conflict => 409,
            LfsError::NotFound => 404,
            LfsError::Forbidden => 403,
            LfsError::InvalidCursor => 400,
            LfsError::GeneralError => 500,
        }
    }

    /// The message of the structured failure.
    pub fn message(&self) -> (r: String)
        ensures
            r@ == match *self {
                LfsError::Conflict => "Lock already exist"@,
                LfsError::NotFound => "Not found"@,
                LfsError::Forbidden => "Forbidden"@,
                LfsError::InvalidCursor => "Invalid cursor"@,
                LfsError::GeneralError => "Operation failed"@,
            },
    {
        match self {
            LfsError::Conflict => String::from_str("Lock already exist"),
            LfsError::NotFound => String::from_str("Not found"),
            LfsError::Forbidden => String::from_str("Forbidden"),
            LfsError::InvalidCursor => String::from_str("Invalid cursor"),
            LfsError::GeneralError => String::from_str("Operation failed"),
        }
    }
}

/// An advisory, path-scoped mutual-exclusion marker. An absent owner means
/// the lock is held by the current request's own session.
#[derive(Debug, Clone, PartialEq, Eq)]
pub struct Lock {
    pub id: String,
    pub path: String,
    pub owner: Option<String>,
    pub locked_at: String,
}

impl Lock {
    /// A copy equal to the original, usable from verified code.
    pub fn duplicate(&self) -> (r: Lock)
        ensures
            r == *self,
    {
        let owner: Option<String> = match &self.owner {
            Some(s) => Some(s.clone()),
            None => None,
        };
        Lock {
            id: self.id.clone(),
            path: self.path.clone(),
            owner,
            locked_at: self.locked_at.clone(),
        }
    }
}

/// The page a listing returns: locks in stored order and the cursor of the
/// first element the limit dropped, or an empty cursor.
#[derive(Debug, Clone, PartialEq, Eq)]
pub struct LockList {
    pub locks: Vec<Lock>,
    pub next_cursor: String,
}

/// The page a verification returns, partitioned into the caller's own locks
/// and those held by others.
#[derive(Debug, Clone, PartialEq, Eq)]
pub struct VerifiableLockList {
    pub ours: Vec<Lock>,
    pub theirs: Vec<Lock>,
    pub next_cursor: String,
}

/// Query of a lock listing. A zero limit stands for the default of 100.
#[derive(Debug, Clone, PartialEq, Eq)]
pub struct LockListQuery {
    pub refspec: String,
    pub path: String,
    pub cursor: String,
    pub limit: usize,
}

/// A request to create a lock on a path under a repository scope.
#[derive(Debug, Clone, PartialEq, Eq)]
pub struct LockRequest {
    pub refspec: String,
    pub path: String,
}

/// A request to remove a lock, optionally overriding ownership.
#[derive(Debug, Clone, PartialEq, Eq)]
pub struct UnlockRequest {
    pub refspec: String,
    pub force: Option<bool>,
}

/// A request to partition a repository's locks by ownership.
/// A zero limit stands for the default of 100.
#[derive(Debug, Clone, PartialEq, Eq)]
pub struct VerifiableLockRequest {
    pub refspec: String,
    pub cursor: String,
    pub limit: usize,
}

/// One object a batch request declares: content id, expected size, and the
/// authorization token the transport carried.
#[derive(Debug, Clone, PartialEq, Eq)]
pub struct RequestVars {
    pub oid: String,
    pub size: i64,
    pub authorization: String,
}

impl RequestVars {
    /// The address at which the object's bytes are fetched.
    pub fn download_link(&self, server_url: String) -> (r: String)
        ensures
            r@ == server_url@ + "/objects/"@ + self.oid@,
    {
        server_url.concat("/objects/").concat(self.oid.as_str())
    }

    /// The address at which the object's bytes are put.
    pub fn upload_link(&self, server_url: String) -> (r: String)
        ensures
            r@ == server_url@ + "/objects/"@ + self.oid@,
    {
        server_url.concat("/objects/").concat(self.oid.as_str())
    }

    /// The address at which an upload is confirmed.
    pub fn verify_link(&self, server_url: String) -> (r: String)
        ensures
            r@ == server_url@ + "/objects/"@ + self.oid@ + "/verify"@,
    {
        server_url.concat("/objects/").concat(self.oid.as_str()).concat("/verify")
    }
}

/// A batch negotiation: the declared operation and the objects it concerns.
#[derive(Debug, Clone, PartialEq, Eq)]
pub struct BatchRequest {
    pub operation: String,
    pub objects: Vec<RequestVars>,
}

/// One metadata row: content id, size, existence flag, split flag.
#[derive(Debug, Clone, PartialEq, Eq)]
pub struct MetaObject {
    pub oid: String,
    pub size: i64,
    pub exist: bool,
    pub splited: bool,
}

impl MetaObject {
    /// A copy equal to the original, usable from verified code.
    pub fn duplicate(&self) -> (r: MetaObject)
        ensures
            r == *self,
    {
        MetaObject {
            oid: self.oid.clone(),
            size: self.size,
            exist: self.exist,
            splited: self.splited,
        }
    }
}

/// The mathematical value of a metadata row.
pub ghost struct MetaV {
    pub oid: Seq<char>,
    pub size: i64,
    pub exist: bool,
    pub splited: bool,
}

/// The mathematical value of a metadata row.
pub open spec fn meta_view(m: MetaObject) -> MetaV {
    MetaV { oid: m.oid@, size: m.size, exist: m.exist, splited: m.splited }
}

/// The mathematical value of a sequence of metadata rows.
pub open spec fn metas_view(s: Seq<MetaObject>) -> Seq<MetaV> {
    s.map_values(|m: MetaObject| meta_view(m))
}

/// The per-object error a batch response may carry.
#[derive(Debug, Clone, PartialEq, Eq)]
pub struct ObjectError {
    pub code: u64,
    pub message: String,
}

/// A time-limited transfer action: address, headers, absolute expiry.
#[derive(Debug, Clone, PartialEq, Eq)]
pub struct Link {
    pub href: String,
    pub header: Vec<(String, String)>,
    pub expires_at: String,
}

/// The actions a representation offers, by action name.
#[derive(Debug, Clone, PartialEq, Eq)]
pub struct BatchActions {
    pub download: Option<Link>,
    pub upload: Option<Link>,
    pub verify: Option<Link>,
}

/// One batch-response entry: either a set of actions or an error, or
/// neither when the object is already satisfied.
#[derive(Debug, Clone, PartialEq, Eq)]
pub struct Representation {
    pub oid: String,
    pub size: i64,
    pub authenticated: Option<bool>,
    pub actions: Option<BatchActions>,
    pub error: Option<ObjectError>,
}

/// The engine's configuration: where links point, which repository the
/// object store is keyed under, and whether split-aware verification is on.
#[derive(Debug, Clone, PartialEq, Eq)]
pub struct LfsConfig {
    pub host: String,
    pub port: u16,
    pub repo_name: String,
    pub enable_split: bool,
}

} // verus!
