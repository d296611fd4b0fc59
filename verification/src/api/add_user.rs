use vstd::prelude::*;
use crate::principal::UserId;

verus! {

/// Adds a user with the given allowance.
#[derive(Clone, Copy, Debug)]
pub struct Args {
    pub user_id: UserId,
    pub byte_limit: u64,
}

#[derive(Clone, Copy, Debug, PartialEq, Eq, Structural)]
pub enum Response {
    Success,
    UserAlreadyExists,
}

} // verus!
