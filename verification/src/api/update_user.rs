use vstd::prelude::*;
use crate::principal::UserId;

verus! {

/// Changes a user's allowance, when one is given.
#[derive(Clone, Copy, Debug)]
pub struct Args {
    pub user_id: UserId,
    pub byte_limit: Option<u64>,
}

#[derive(Clone, Copy, Debug, PartialEq, Eq, Structural)]
pub enum Response {
    Success,
    UserNotFound,
}

} // verus!
