use vstd::prelude::*;
use crate::principal::Principal;

verus! {

/// Allows a principal to manage the index.
#[derive(Clone, Copy, Debug)]
pub struct Args {
    pub principal: Principal,
}

#[derive(Clone, Copy, Debug, PartialEq, Eq, Structural)]
pub enum Response {
    Success,
}

} // verus!
