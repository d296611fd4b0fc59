use storage_index::canister_client::CanisterName;
use storage_index::canisters_requiring_upgrade::{CanistersRequiringUpgrade, FailedUpgrade};
use storage_index::cycles::{can_spend_cycles, is_cycles_check_due, low_balance_notification_due, should_notify};
use storage_index::env::{Environment, TestEnv};
use storage_index::hash::hash_bytes;
use storage_index::principal::Principal;
use storage_index::types::{BlobReferenceRejectedReason, RejectedReason, Version};
use storage_index::upgrade::{upgrade_outcome, upgrade_step, UpgradeNext, UpgradeStage};

#[test]
fn upgrades_run_one_at_a_time_in_order() {
    let mut queue = CanistersRequiringUpgrade::default();
    let a = Principal::from_slice(&[1]);
    let b = Principal::from_slice(&[2]);
    assert_eq!(queue.try_take_next(), None);
    queue.enqueue(a);
    queue.enqueue(b);
    assert_eq!(queue.try_take_next(), Some(a));
    assert!(queue.upgrade_in_progress());
    assert_eq!(queue.try_take_next(), None);
    queue.mark_failure(FailedUpgrade { canister_id: a, from_version: Version::min(), to_version: Version::new(0, 0, 1) });
    let m = queue.metrics();
    assert_eq!((m.pending, m.upgrade_in_progress, m.failed), (1, false, 1));
    queue.enqueue(a);
    queue.remove(&a);
    let m = queue.metrics();
    assert_eq!((m.pending, m.upgrade_in_progress, m.failed), (1, false, 0));
    assert_eq!(queue.try_take_next(), Some(b));
    queue.mark_success();
    assert!(!queue.upgrade_in_progress());
}

#[test]
fn cycles_checks_are_spaced() {
    let mut last = 0;
    assert!(!is_cycles_check_due(&mut last, 600_000));
    assert_eq!(last, 0);
    assert!(is_cycles_check_due(&mut last, 600_001));
    assert_eq!(last, 600_001);
    assert!(!is_cycles_check_due(&mut last, 1_200_001));
    assert!(is_cycles_check_due(&mut last, 1_200_002));
    assert!(should_notify(1, 2));
    assert!(!should_notify(2, 2));
    let mut last = 0;
    assert!(!low_balance_notification_due(&mut last, 700_000, 5, 5));
    assert_eq!(last, 700_000);
    assert!(low_balance_notification_due(&mut last, 1_300_001, 4, 5));
}

#[test]
fn canister_names() {
    assert_eq!("index".parse::<CanisterName>(), Ok(CanisterName::Index));
    assert_eq!("bucket".parse::<CanisterName>(), Ok(CanisterName::Bucket));
    assert_eq!("Index".parse::<CanisterName>(), Err("Unrecognised canister name: Index".to_string()));
    assert_eq!(CanisterName::Index.name(), "index");
    assert_eq!(CanisterName::Bucket.name(), "bucket");
}

#[test]
fn rejected_reason_from_blob_reference() {
    assert_eq!(RejectedReason::from(BlobReferenceRejectedReason::AllowanceReached), RejectedReason::AllowanceReached);
    assert_eq!(RejectedReason::from(BlobReferenceRejectedReason::UserNotFound), RejectedReason::UserNotFound);
}

#[test]
fn hashes_are_sha256_and_print_as_hex() {
    let h = hash_bytes(b"abc");
    assert_eq!(h.to_hex(), "ba7816bf8f01cfea414140de5dae2223b00361a396177a9cb410ff61f20015ad");
    let mut bytes = [0u8; 32];
    bytes[0] = 0x0f;
    bytes[31] = 0xa0;
    let h = storage_index::hash::Hash::from(bytes);
    assert_eq!(&h.to_hex()[..2], "0f");
    assert_eq!(&h.to_hex()[62..], "a0");
    assert_eq!(h.to_hex().len(), 64);
}

#[test]
fn test_env_defaults() {
    let env = TestEnv::default();
    assert_eq!(env.now(), 10000);
    assert_eq!(env.caller(), Principal::from_slice(&[1]));
    assert_eq!(env.canister_id(), Principal::from_slice(&[1, 2, 3]));
    assert_eq!(env.cycles_balance(), 1_000_000_000_000);
}

#[test]
fn principals_compare_by_bytes() {
    let p = Principal::from_slice(&[1, 2, 3]);
    assert_eq!(p.len(), 3);
    assert_eq!(p.to_bytes(), vec![1, 2, 3]);
    assert_ne!(Principal::from_slice(&[1, 2]), p);
    assert_ne!(Principal::from_slice(&[]), Principal::from_slice(&[0]));
}

#[test]
fn upgrade_outcome_prefers_the_install_error() {
    assert_eq!(upgrade_outcome::<u8>(Ok(()), Ok(())), Ok(()));
    assert_eq!(upgrade_outcome(Err(1), Err(2)), Err(1));
    assert_eq!(upgrade_outcome(Ok(()), Err(2)), Err(2));
    assert_eq!(upgrade_outcome(Err(1), Ok(())), Err(1));
}

fn run_upgrade(stop: Result<(), u8>, install: Result<(), u8>, start: Result<(), u8>) -> (Vec<&'static str>, Result<(), u8>) {
    let mut calls = vec!["stop"];
    let mut stage = UpgradeStage::Stopping;
    let mut outcome = stop;
    loop {
        match upgrade_step(stage, outcome) {
            UpgradeNext::Done(r) => return (calls, r),
            UpgradeNext::Await(next) => {
                outcome = match &next {
                    UpgradeStage::Stopping => stop,
                    UpgradeStage::Installing => {
                        calls.push("install");
                        install
                    }
                    UpgradeStage::Starting(_) => {
                        calls.push("start");
                        start
                    }
                };
                stage = next;
            }
        }
    }
}

#[test]
fn a_failed_stop_ends_the_upgrade() {
    assert_eq!(run_upgrade(Err(3), Ok(()), Ok(())), (vec!["stop"], Err(3)));
}

#[test]
fn the_canister_is_started_whatever_the_install_gave() {
    assert_eq!(run_upgrade(Ok(()), Ok(()), Ok(())), (vec!["stop", "install", "start"], Ok(())));
    assert_eq!(run_upgrade(Ok(()), Err(1), Ok(())), (vec!["stop", "install", "start"], Err(1)));
    assert_eq!(run_upgrade(Ok(()), Err(1), Err(2)), (vec!["stop", "install", "start"], Err(1)));
    assert_eq!(run_upgrade(Ok(()), Ok(()), Err(2)), (vec!["stop", "install", "start"], Err(2)));
}

#[test]
fn cycles_can_be_spent_while_the_minimum_stays() {
    assert!(can_spend_cycles(100, 30, 70));
    assert!(!can_spend_cycles(100, 31, 70));
    assert!(!can_spend_cycles(10, 30, 0));
    assert!(can_spend_cycles(u128::MAX, u128::MAX, 0));
}
