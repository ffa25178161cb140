//! Notification throttling policy for flapping containers.

use vstd::prelude::*;

verus! {

/// After a container restarted more than `NOTIFICATION_SKIP_THRESHOLD` times,
/// notifications are sent only every `NOTIFICATION_SKIP_INTERVAL` restarts,
/// i.e. on the 1st..=10th, 34th, 58th, 82nd, ... restart.
pub const NOTIFICATION_SKIP_THRESHOLD: i32 = 10;

/// See `NOTIFICATION_SKIP_THRESHOLD`. The orchestrator's restart back-off is
/// about 5 minutes, so the notification interval is approximately 2 hours.
pub const NOTIFICATION_SKIP_INTERVAL: i32 = 24;

/// A restart with this count is suppressed: it is past the threshold and not
/// on the skip interval.
pub open spec fn spec_is_skipped_interval(restart_count: int) -> bool {
    restart_count > NOTIFICATION_SKIP_THRESHOLD
        && (restart_count - NOTIFICATION_SKIP_THRESHOLD) % (
    NOTIFICATION_SKIP_INTERVAL as int) != 0
}

/// Decides whether an alert for the given restart count is suppressed.
pub fn is_skipped_interval(restart_count: i32) -> (skipped: bool)
    ensures
        skipped == spec_is_skipped_interval(restart_count as int),
{
    restart_count > NOTIFICATION_SKIP_THRESHOLD
        && (restart_count - NOTIFICATION_SKIP_THRESHOLD) % NOTIFICATION_SKIP_INTERVAL != 0
}

/// Every early restart (count at most the threshold) is notified; counts past
/// the threshold are suppressed except every `NOTIFICATION_SKIP_INTERVAL`-th
/// restart, the first notified one being threshold + interval.
pub proof fn lemma_throttle_schedule()
    ensures
        forall|c: int| c <= NOTIFICATION_SKIP_THRESHOLD ==> !spec_is_skipped_interval(c),
        forall|c: int|
            NOTIFICATION_SKIP_THRESHOLD < c < NOTIFICATION_SKIP_THRESHOLD
                + NOTIFICATION_SKIP_INTERVAL ==> spec_is_skipped_interval(c),
        !spec_is_skipped_interval(
            NOTIFICATION_SKIP_THRESHOLD + NOTIFICATION_SKIP_INTERVAL as int,
        ),
{
}

} // verus!
