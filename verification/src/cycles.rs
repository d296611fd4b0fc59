use vstd::prelude::*;
use crate::types::{Cycles, Milliseconds, TimestampMillis};

verus! {

/// One minute in milliseconds.
pub const MINUTE_IN_MS: Milliseconds = 60000;

/// How long to wait between two checks of the cycles balance: ten minutes.
pub const CYCLES_CHECK_INTERVAL: Milliseconds = 600000;

/// Whether a check is due at `now` when the last one was at `last_checked`, and the time of
/// the last check afterwards: a check is due once more than the interval has passed, and a
/// due check is recorded as made at `now`.
pub open spec fn spec_check_due(last_checked: TimestampMillis, now: TimestampMillis) -> (bool, TimestampMillis) {
    if now > last_checked + CYCLES_CHECK_INTERVAL {
        (true, now)
    } else {
        (false, last_checked)
    }
}

/// Whether the cycles balance should be checked at `now`; records the check when it is due.
pub fn is_cycles_check_due(last_checked: &mut TimestampMillis, now: TimestampMillis) -> (due: bool)
    requires
        *old(last_checked) + CYCLES_CHECK_INTERVAL <= u64::MAX,
    ensures
        (due, *final(last_checked)) == spec_check_due(*old(last_checked), now),
{
    if now > *last_checked + CYCLES_CHECK_INTERVAL {
        *last_checked = now;
        true
    } else {
        false
    }
}

/// Whether a balance of `cycles_balance` is low enough to ask for a top-up.
pub fn should_notify(cycles_balance: Cycles, min_cycles_balance: Cycles) -> (b: bool)
    ensures
        b == (cycles_balance < min_cycles_balance),
{
    cycles_balance < min_cycles_balance
}

/// Whether to ask for a top-up now: a check must be due (and is then recorded) and the
/// balance must be below the minimum.
pub fn low_balance_notification_due(
    last_checked: &mut TimestampMillis,
    now: TimestampMillis,
    cycles_balance: Cycles,
    min_cycles_balance: Cycles,
) -> (notify: bool)
    requires
        *old(last_checked) + CYCLES_CHECK_INTERVAL <= u64::MAX,
    ensures
        notify == (spec_check_due(*old(last_checked), now).0 && cycles_balance < min_cycles_balance),
        *final(last_checked) == spec_check_due(*old(last_checked), now).1,
{
    is_cycles_check_due(last_checked, now) && should_notify(cycles_balance, min_cycles_balance)
}

/// After a check is made, no other check is due until the interval has passed again.
pub proof fn lemma_checks_spaced(last_checked: TimestampMillis, now: TimestampMillis, later: TimestampMillis)
    requires
        spec_check_due(last_checked, now).0,
    ensures
        spec_check_due(spec_check_due(last_checked, now).1, later).0 <==> later > now + CYCLES_CHECK_INTERVAL,
{
}

/// Whether `cycles_required` can be spent from a balance of `cycles_balance` with at least
/// `min_cycles_balance` left.
pub fn can_spend_cycles(cycles_balance: Cycles, cycles_required: Cycles, min_cycles_balance: Cycles) -> (b: bool)
    ensures
        b == (cycles_balance >= cycles_required + min_cycles_balance),
{
    cycles_balance >= cycles_required && cycles_balance - cycles_required >= min_cycles_balance
}

} // verus!
