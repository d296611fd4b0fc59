use vstd::prelude::*;
use crate::principal::{CanisterId, Principal};
use crate::types::{Cycles, TimestampMillis};

verus! {

/// What a canister can learn of the world it runs in.
pub trait Environment {
    fn now(&self) -> TimestampMillis;

    fn caller(&self) -> Principal;

    fn canister_id(&self) -> CanisterId;

    fn cycles_balance(&self) -> Cycles;
}

/// A fixed environment for tests.
pub struct TestEnv {
    pub now: u64,
    pub caller: Principal,
    pub canister_id: Principal,
    pub cycles_balance: Cycles,
}

impl Environment for TestEnv {
    fn now(&self) -> (t: u64)
        ensures
            t == self.now,
    {
        self.now
    }

    fn caller(&self) -> (p: Principal)
        ensures
            p == self.caller,
    {
        self.caller
    }

    fn canister_id(&self) -> (p: CanisterId)
        ensures
            p == self.canister_id,
    {
        self.canister_id
    }

    fn cycles_balance(&self) -> (c: Cycles)
        ensures
            c == self.cycles_balance,
    {
        self.cycles_balance
    }
}

impl Default for TestEnv {
    fn default() -> (e: TestEnv)
        ensures
            e.now == 10000,
            e.caller.wf(),
            e.caller.spec_bytes() == seq![1u8],
            e.canister_id.wf(),
            e.canister_id.spec_bytes() == seq![1u8, 2u8, 3u8],
            e.cycles_balance == 1_000_000_000_000,
    {
        let caller_bytes: [u8; 1] = [1];
        let canister_bytes: [u8; 3] = [1, 2, 3];
        let caller = Principal::from_slice(caller_bytes.as_slice());
        let canister_id = Principal::from_slice(canister_bytes.as_slice());
        assert(caller_bytes@ =~= seq![1u8]);
        assert(canister_bytes@ =~= seq![1u8, 2u8, 3u8]);
        TestEnv { now: 10000, caller, canister_id, cycles_balance: 1_000_000_000_000 }
    }
}

} // verus!
