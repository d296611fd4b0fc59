use vstd::prelude::*;
use crate::principal::CanisterId;
use crate::types::{BucketUpgradeArgs, CanisterWasm, Version};

verus! {

/// The outcome of an upgrade, from the outcomes of installing the new code and of starting the
/// canister again (which is attempted whether or not the install succeeded): the install's
/// error if there is one, else the start's.
pub fn upgrade_outcome<E>(install: Result<(), E>, start: Result<(), E>) -> (r: Result<(), E>)
    ensures
        r == (match install {
            Err(e) => Err(e),
            Ok(()) => start,
        }),
{
    match install {
        Err(e) => Err(e),
        Ok(()) => start,
    }
}

/// The call of an upgrade whose outcome is awaited. An upgrade first stops the canister, then
/// installs the new code, then starts the canister again.
#[derive(Debug)]
pub enum UpgradeStage<E> {
    /// Stopping the canister.
    Stopping,
    /// Installing the new code.
    Installing,
    /// Starting the canister again, with the outcome of the install.
    Starting(Result<(), E>),
}

/// What an upgrade does once a call has come back: await another call, or end with a result.
#[derive(Debug)]
pub enum UpgradeNext<E> {
    Await(UpgradeStage<E>),
    Done(Result<(), E>),
}

/// The step of an upgrade once the call awaited at `stage` has come back with `outcome`.
pub open spec fn spec_upgrade_step<E>(stage: UpgradeStage<E>, outcome: Result<(), E>) -> UpgradeNext<E> {
    match stage {
        UpgradeStage::Stopping => match outcome {
            Err(e) => UpgradeNext::Done(Err(e)),
            Ok(()) => UpgradeNext::Await(UpgradeStage::Installing),
        },
        UpgradeStage::Installing => UpgradeNext::Await(UpgradeStage::Starting(outcome)),
        UpgradeStage::Starting(install) => UpgradeNext::Done(match install {
            Err(e) => Err(e),
            Ok(()) => outcome,
        }),
    }
}

/// The step of an upgrade once the awaited call has come back with `outcome`.
///
/// A canister that could not be stopped is left alone: the upgrade ends with that error and
/// makes no other call. Otherwise the code is installed, and the canister is started again
/// whether or not the install succeeded; the upgrade then ends with the install's error if
/// there is one, else with the start's outcome.
pub fn upgrade_step<E>(stage: UpgradeStage<E>, outcome: Result<(), E>) -> (r: UpgradeNext<E>)
    ensures
        r == spec_upgrade_step(stage, outcome),
{
    match stage {
        UpgradeStage::Stopping => match outcome {
            Err(e) => UpgradeNext::Done(Err(e)),
            Ok(()) => UpgradeNext::Await(UpgradeStage::Installing),
        },
        UpgradeStage::Installing => UpgradeNext::Await(UpgradeStage::Starting(outcome)),
        UpgradeStage::Starting(install) => UpgradeNext::Done(upgrade_outcome(install, outcome)),
    }
}

/// A whole upgrade, from the outcomes of its calls: a failed stop ends it at once with the
/// stop's error; otherwise the install and the start are both awaited, and the upgrade ends
/// with the install's error if there is one, else with the start's outcome.
pub proof fn lemma_upgrade_run<E>(stop: Result<(), E>, install: Result<(), E>, start: Result<(), E>)
    ensures
        stop is Err ==> spec_upgrade_step(UpgradeStage::Stopping, stop) == UpgradeNext::Done(stop),
        stop is Ok ==> {
            &&& spec_upgrade_step(UpgradeStage::Stopping, stop) == UpgradeNext::<E>::Await(UpgradeStage::Installing)
            &&& spec_upgrade_step(UpgradeStage::Installing, install) == UpgradeNext::Await(UpgradeStage::Starting(install))
            &&& spec_upgrade_step(UpgradeStage::Starting(install), start) == UpgradeNext::Done(
                if install is Err { install } else { start },
            )
        },
{
}

/// A bucket to upgrade: the code it runs and the code it is to run, with the arguments of the
/// upgrade.
#[derive(Debug)]
pub struct CanisterToUpgrade {
    pub canister_id: CanisterId,
    pub current_wasm_version: Version,
    pub new_wasm: CanisterWasm,
    pub args: BucketUpgradeArgs,
}

/// How code is installed on a canister.
#[derive(Clone, Copy, Debug, PartialEq, Eq, Structural)]
pub enum CanisterInstallMode {
    Install,
    Reinstall,
    Upgrade,
}

/// What the install call of an upgrade is given.
#[derive(Debug)]
pub struct InstallCodeArgument {
    pub mode: CanisterInstallMode,
    pub canister_id: CanisterId,
    pub wasm_module: Vec<u8>,
    pub arg: Vec<u8>,
}

/// The install call of an upgrade: in upgrade mode, on the canister to upgrade, with the new
/// code's module and `arg`, the encoded upgrade arguments.
pub fn install_code_argument(canister: CanisterToUpgrade, arg: Vec<u8>) -> (a: InstallCodeArgument)
    ensures
        a.mode == CanisterInstallMode::Upgrade,
        a.canister_id == canister.canister_id,
        a.wasm_module@ == canister.new_wasm.module@,
        a.arg@ == arg@,
{
    InstallCodeArgument {
        mode: CanisterInstallMode::Upgrade,
        canister_id: canister.canister_id,
        wasm_module: canister.new_wasm.module,
        arg,
    }
}

} // verus!
