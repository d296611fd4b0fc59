use vstd::prelude::*;
use crate::types::{FileAdded, FileRejected, FileRemoved};

verus! {

/// A bucket reports the files added to it and removed from it since its last report, and
/// how many bytes it has left.
#[derive(Clone, Debug)]
pub struct Args {
    pub files_added: Vec<FileAdded>,
    pub files_removed: Vec<FileRemoved>,
    pub bytes_remaining: i64,
}

#[derive(Clone, Debug)]
pub enum Response {
    Success(SuccessResult),
}

/// The files that the index refused.
#[derive(Clone, Debug)]
pub struct SuccessResult {
    pub files_rejected: Vec<FileRejected>,
}

} // verus!
