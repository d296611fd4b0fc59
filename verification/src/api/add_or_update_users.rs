use vstd::prelude::*;
use crate::principal::UserId;

verus! {

/// Sets the allowance of each listed user, adding the users that are new.
#[derive(Clone, Debug)]
pub struct Args {
    pub users: Vec<UserConfig>,
}

#[derive(Clone, Copy, Debug)]
pub struct UserConfig {
    pub user_id: UserId,
    pub byte_limit: u64,
}

#[derive(Clone, Copy, Debug, PartialEq, Eq, Structural)]
pub enum Response {
    Success,
}

} // verus!
