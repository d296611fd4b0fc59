use vstd::prelude::*;
use crate::principal::CanisterId;

verus! {

/// Asks for the caller's references to a blob.
#[derive(Clone, Copy, Debug)]
pub struct Args {
    pub file_hash: crate::hash::Hash,
}

#[derive(Clone, Debug)]
pub enum Response {
    Success(SuccessResult),
    UserNotFound,
}

#[derive(Clone, Debug)]
pub struct SuccessResult {
    pub reference_counts: Vec<ReferenceCount>,
    pub byte_limit: u64,
    pub bytes_used: u64,
}

/// How many times the caller holds the blob in one bucket.
#[derive(Clone, Copy, Debug)]
pub struct ReferenceCount {
    pub bucket: CanisterId,
    pub count: u32,
}

impl From<crate::blobs::ReferenceCount> for ReferenceCount {
    fn from(rc: crate::blobs::ReferenceCount) -> (r: ReferenceCount) {
        ReferenceCount { bucket: rc.bucket, count: rc.count }
    }
}

impl vstd::std_specs::convert::FromSpecImpl<crate::blobs::ReferenceCount> for ReferenceCount {
    open spec fn obeys_from_spec() -> bool {
        true
    }

    open spec fn from_spec(rc: crate::blobs::ReferenceCount) -> ReferenceCount {
        ReferenceCount { bucket: rc.bucket, count: rc.count }
    }
}

} // verus!
