use vstd::prelude::*;
use crate::principal::UserId;

verus! {

/// Gives a user a new id, keeping its allowance and its blobs.
#[derive(Clone, Copy, Debug)]
pub struct Args {
    pub old_user_id: UserId,
    pub new_user_id: UserId,
}

#[derive(Clone, Copy, Debug, PartialEq, Eq, Structural)]
pub enum Response {
    Success,
    UserIdAlreadyExists,
    UserNotFound,
}

} // verus!
