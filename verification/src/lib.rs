//! Change detection and rate statistics over per-tick player input streams.
//!
//! A stream of snapshots is reduced, player by player, to the ticks at which
//! the movement direction or the hook engagement changed, and each such log
//! to the average, median and maximum rate of change.
//!
//! - [`data`] and [`signal`]: the player state and the two signals read
//!   from it.
//! - [`detect`]: the change detector, one tick of one player at a time.
//! - [`stats`] and [`combine`]: the statistics of a change-event log, and
//!   those of both signals of a player side by side.
//! - [`analysis`]: the whole way from snapshots to results, for one source
//!   and for many.
//! - [`filter`], [`players`], [`grouping`], [`sorting`], [`seq_facts`]:
//!   what the above rest on.
//! - [`laws`]: what holds of the statistics and of the merge for every
//!   input.
//!
//! Rates are fixed-point numbers, see [`stats::Rate`]; positions, velocities
//! and angles are carried as the raw bits of fixed-point numbers.

pub mod analysis;
pub mod combine;
pub mod data;
pub mod detect;
pub mod filter;
pub mod grouping;
pub mod laws;
pub mod players;
pub mod seq_facts;
pub mod signal;
pub mod sorting;
pub mod stats;

pub use analysis::{
    analyze, analyze_many, analyze_snapshots, extract_series, extract_snapshots, merge_results,
    AnalysisError, PlayerObservation, ResultMap, SeriesMap, Snapshot, Source,
};
pub use combine::{combine, CombinedStats};
pub use data::{ActiveWeapon, Direction, Emote, HookState, Inputs, Position, Velocity};
pub use detect::{ChangeDetector, ChangeEvent, SignalKind};
pub use filter::{folded_name_holds, name_matches, NameFilter};
pub use players::PlayerMap;
pub use signal::{hook_pressed, project, Signals};
pub use stats::{calculate_stats, Rate, Stats, RATE_SCALE, TICKS_PER_SECOND, UNIT_GAP_RATE};
