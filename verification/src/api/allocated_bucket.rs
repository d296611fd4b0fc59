use vstd::prelude::*;
use crate::principal::CanisterId;

verus! {

/// Asks where a file of the given hash and size should be uploaded.
#[derive(Clone, Copy, Debug)]
pub struct Args {
    pub file_hash: crate::hash::Hash,
    pub file_size: u64,
}

#[derive(Clone, Copy, Debug)]
pub enum Response {
    Success(SuccessResult),
    AllowanceReached,
    UserNotFound,
    BucketUnavailable,
}

/// The bucket to upload to, and the size of the chunks to upload in.
#[derive(Clone, Copy, Debug)]
pub struct SuccessResult {
    pub canister_id: CanisterId,
    pub chunk_size: u32,
}

} // verus!
