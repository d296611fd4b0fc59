use vstd::prelude::*;
use crate::principal::CanisterId;

verus! {

/// Marks a bucket as full, or as accepting uploads again.
#[derive(Clone, Copy, Debug)]
pub struct Args {
    pub bucket: CanisterId,
    pub full: bool,
}

#[derive(Clone, Copy, Debug, PartialEq, Eq, Structural)]
pub enum Response {
    Success,
}

} // verus!
