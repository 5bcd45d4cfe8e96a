//! The statistics of both signals of one player, side by side.

use vstd::prelude::*;

use crate::stats::{Rate, Stats};

verus! {

/// The direction statistics and the hook statistics of one player.
#[derive(Clone, Copy, Debug, PartialEq, Eq, Structural)]
pub struct CombinedStats {
    pub direction_change_rate_average: Rate,
    pub direction_change_rate_median: Rate,
    pub direction_change_rate_max: Rate,
    pub hook_state_change_rate_average: Rate,
    pub hook_state_change_rate_median: Rate,
    pub hook_state_change_rate_max: Rate,
    pub direction_changes: usize,
    pub hook_changes: usize,
    /// The changes of both kinds together.
    pub overall_changes: usize,
}

/// Both statistics carried over unchanged, and the two counts added up.
pub open spec fn combined(direction: Stats, hook: Stats) -> CombinedStats {
    CombinedStats {
        direction_change_rate_average: direction.average,
        direction_change_rate_median: direction.median,
        direction_change_rate_max: direction.max,
        hook_state_change_rate_average: hook.average,
        hook_state_change_rate_median: hook.median,
        hook_state_change_rate_max: hook.max,
        direction_changes: direction.overall_changes,
        hook_changes: hook.overall_changes,
        overall_changes: (direction.overall_changes + hook.overall_changes) as usize,
    }
}

/// The overall count is the sum of the two counts.
pub open spec fn counts_add_up(both: CombinedStats) -> bool {
    both.overall_changes == both.direction_changes + both.hook_changes
}

/// Every record of `values` has counts that add up.
pub open spec fn all_counts_add_up(values: Seq<CombinedStats>) -> bool {
    forall|k: int| 0 <= k < values.len() ==> counts_add_up(#[trigger] values[k])
}

/// Puts the direction statistics and the hook statistics of one player
/// into one record.
pub fn combine(direction: Stats, hook: Stats) -> (both: CombinedStats)
    requires
        direction.overall_changes + hook.overall_changes <= usize::MAX,
    ensures
        both == combined(direction, hook),
        counts_add_up(both),
{
    CombinedStats {
        direction_change_rate_average: direction.average,
        direction_change_rate_median: direction.median,
        direction_change_rate_max: direction.max,
        hook_state_change_rate_average: hook.average,
        hook_state_change_rate_median: hook.median,
        hook_state_change_rate_max: hook.max,
        direction_changes: direction.overall_changes,
        hook_changes: hook.overall_changes,
        overall_changes: direction.overall_changes + hook.overall_changes,
    }
}

} // verus!
