use vstd::prelude::*;

verus! {

/// Asks for the caller's record.
#[derive(Clone, Copy, Debug)]
pub struct Args {}

#[derive(Clone, Copy, Debug, PartialEq, Eq, Structural)]
pub enum Response {
    Success(UserRecord),
    UserNotFound,
}

/// A user's allowance and how much of it is used.
#[derive(Clone, Copy, Debug, PartialEq, Eq, Structural)]
pub struct UserRecord {
    pub byte_limit: u64,
    pub bytes_used: u64,
}

} // verus!
