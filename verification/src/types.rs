use vstd::prelude::*;
use crate::principal::{CanisterId, UserId};

verus! {

pub type BlobId = u128;

pub type FileId = u128;

pub type Milliseconds = u64;

pub type TimestampMillis = u64;

pub type TimestampNanos = u64;

pub type Cycles = u128;

/// A version of a canister's code.
#[derive(Clone, Copy, Debug, PartialEq, Eq, Structural)]
pub struct Version {
    pub major: u32,
    pub minor: u32,
    pub patch: u32,
}

impl Version {
    pub fn new(major: u32, minor: u32, patch: u32) -> (v: Version)
        ensures
            v == (Version { major, minor, patch }),
    {
        Version { major, minor, patch }
    }

    /// The lowest version, 0.0.0.
    pub fn min() -> (v: Version)
        ensures
            v == (Version { major: 0, minor: 0, patch: 0 }),
    {
        Version { major: 0, minor: 0, patch: 0 }
    }
}

/// A canister's code: its version and its module.
#[derive(Debug)]
pub struct CanisterWasm {
    pub version: Version,
    pub module: Vec<u8>,
}

impl View for CanisterWasm {
    type V = (Version, Seq<u8>);

    open spec fn view(&self) -> (Version, Seq<u8>) {
        (self.version, self.module@)
    }
}

impl CanisterWasm {
    /// A copy of this code.
    pub fn copy(&self) -> (w: CanisterWasm)
        ensures
            w@ == self@,
    {
        let module = self.module.clone();
        assert(module@ =~= self.module@);
        CanisterWasm { version: self.version, module }
    }
}

/// The canister that tops up the index's cycles, and the balance below which it is asked to.
#[derive(Clone, Copy, Debug)]
pub struct CyclesDispenserConfig {
    pub canister_id: CanisterId,
    pub min_cycles_balance: Cycles,
}

/// What a new bucket canister is installed with.
#[derive(Clone, Copy, Debug, PartialEq, Eq, Structural)]
pub struct BucketInitArgs {
    pub wasm_version: Version,
    pub test_mode: bool,
}

/// What a bucket canister is upgraded with.
#[derive(Clone, Copy, Debug, PartialEq, Eq, Structural)]
pub struct BucketUpgradeArgs {
    pub wasm_version: Version,
}

/// A bucket reports that a user uploaded a blob.
#[derive(Clone, Copy, Debug)]
pub struct BlobReferenceAdded {
    pub uploaded_by: UserId,
    pub blob_id: BlobId,
    pub blob_hash: crate::hash::Hash,
    pub blob_size: u64,
}

/// A bucket reports that a user's reference to a blob went away.
#[derive(Clone, Copy, Debug)]
pub struct BlobReferenceRemoved {
    pub uploaded_by: UserId,
    pub blob_hash: crate::hash::Hash,
    pub blob_deleted: bool,
}

/// The index refuses a blob reference.
#[derive(Clone, Copy, Debug)]
pub struct BlobReferenceRejected {
    pub blob_id: BlobId,
    pub reason: BlobReferenceRejectedReason,
}

#[derive(Clone, Copy, Debug, PartialEq, Eq, Structural)]
pub enum BlobReferenceRejectedReason {
    AllowanceReached,
    UserNotFound,
}

/// The state of a blob in a bucket.
#[derive(Clone, Debug)]
pub enum BlobStatus {
    Completed(BlobStatusCompleted),
    Uploading(BlobStatusUploading),
    Rejected(BlobStatusRejected),
}

/// Why a bucket rejected a blob.
#[derive(Clone, Copy, Debug, PartialEq, Eq, Structural)]
pub enum RejectedReason {
    UserNotFound,
    AllowanceReached,
    HashMismatch,
}

#[derive(Clone, Debug)]
pub struct BlobStatusCompleted {
    pub created: TimestampMillis,
    pub index_sync_complete: bool,
    pub mime_type: String,
    pub size: u64,
}

#[derive(Clone, Debug)]
pub struct BlobStatusUploading {
    pub created: TimestampMillis,
    pub index_sync_complete: bool,
    pub mime_type: String,
    pub size: u64,
    pub chunk_size: u32,
    pub chunks_remaining: Vec<u32>,
}

#[derive(Clone, Copy, Debug)]
pub struct BlobStatusRejected {
    pub reason: RejectedReason,
}

/// The rejection reason that a refused blob reference gives to the blob's status.
pub open spec fn rejected_reason_of(reason: BlobReferenceRejectedReason) -> RejectedReason {
    match reason {
        BlobReferenceRejectedReason::AllowanceReached => RejectedReason::AllowanceReached,
        BlobReferenceRejectedReason::UserNotFound => RejectedReason::UserNotFound,
    }
}

impl From<BlobReferenceRejectedReason> for RejectedReason {
    fn from(reason: BlobReferenceRejectedReason) -> (r: RejectedReason) {
        match reason {
            BlobReferenceRejectedReason::AllowanceReached => RejectedReason::AllowanceReached,
            BlobReferenceRejectedReason::UserNotFound => RejectedReason::UserNotFound,
        }
    }
}

impl vstd::std_specs::convert::FromSpecImpl<BlobReferenceRejectedReason> for RejectedReason {
    open spec fn obeys_from_spec() -> bool {
        true
    }

    open spec fn from_spec(reason: BlobReferenceRejectedReason) -> RejectedReason {
        rejected_reason_of(reason)
    }
}

/// A bucket reports that a file was added.
#[derive(Clone, Copy, Debug)]
pub struct FileAdded {
    pub file_id: FileId,
    pub owner: UserId,
    pub hash: crate::hash::Hash,
    pub size: u64,
    pub timestamp: TimestampMillis,
}

/// A bucket reports that a file was removed.
#[derive(Clone, Copy, Debug)]
pub struct FileRemoved {
    pub file_id: FileId,
    pub owner: UserId,
    pub hash: crate::hash::Hash,
    pub blob_deleted: bool,
}

/// The index refuses a file.
#[derive(Clone, Copy, Debug, PartialEq, Eq, Structural)]
pub struct FileRejected {
    pub file_id: FileId,
    pub reason: FileRejectedReason,
}

#[derive(Clone, Copy, Debug, PartialEq, Eq, Structural)]
pub enum FileRejectedReason {
    AllowanceExceeded,
    UserNotFound,
}

} // verus!
