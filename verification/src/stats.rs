//! Rate statistics of a change-event log.
//!
//! A log holds the ticks at which one signal of one player changed. Two
//! neighbouring events that lie `d > 0` ticks apart give one rate sample,
//! the reciprocal of the time between them. Rates are fixed-point numbers:
//! an integer counts millionths of a change per second.

use vstd::prelude::*;

use crate::seq_facts::{lemma_filter_empty, lemma_filter_push, lemma_map_push, lemma_take_next};
use crate::sorting::{ascending, in_order, ints, lemma_in_order, sort};

verus! {

/// Ticks in one second.
pub const TICKS_PER_SECOND: i64 = 50;

/// Rate units in one change per second.
pub const RATE_SCALE: i64 = 1_000_000;

/// The rate, in rate units, of two changes that lie one tick apart:
/// `TICKS_PER_SECOND * RATE_SCALE`.
pub const UNIT_GAP_RATE: i64 = 50_000_000;

/// A rate of change, in millionths of a change per second.
#[derive(Clone, Copy, Debug, PartialEq, Eq, Structural)]
pub struct Rate {
    pub micros: u64,
}

/// Summary of one change-event log.
#[derive(Clone, Copy, Debug, PartialEq, Eq, Structural)]
pub struct Stats {
    pub average: Rate,
    pub median: Rate,
    pub max: Rate,
    /// The number of events in the log.
    pub overall_changes: usize,
}

/// The ticks of a log as mathematical integers.
pub open spec fn ticks_of(log: Seq<i32>) -> Seq<int> {
    log.map_values(|t: i32| t as int)
}

/// The distance from each element to its successor.
pub open spec fn gaps(times: Seq<int>) -> Seq<int> {
    if times.len() < 2 {
        Seq::empty()
    } else {
        Seq::new((times.len() - 1) as nat, |i: int| times[i + 1] - times[i])
    }
}

/// Selects the gaps over which a rate is defined.
pub open spec fn is_positive() -> spec_fn(int) -> bool {
    |d: int| d > 0
}

/// The rate of two events `gap` ticks apart: the reciprocal of the time
/// between them in seconds, in rate units, rounded down to a whole number.
pub open spec fn rate_of_gap(gap: int) -> int {
    (TICKS_PER_SECOND * RATE_SCALE) / gap
}

/// `rate_of_gap` as a function value.
pub open spec fn gap_rate() -> spec_fn(int) -> int {
    |d: int| rate_of_gap(d)
}

/// The rate samples of a log in the order of the events: one for each pair
/// of neighbours, in tick order, that do not coincide.
pub open spec fn rates_in_time_order(log: Seq<i32>) -> Seq<int> {
    gaps(in_order(ticks_of(log))).filter(is_positive()).map_values(gap_rate())
}

/// The rate samples of a log, ascending.
pub open spec fn rate_samples(log: Seq<i32>) -> Seq<int> {
    in_order(rates_in_time_order(log))
}

/// The sum of the elements.
pub open spec fn total(s: Seq<int>) -> int
    decreases s.len(),
{
    if s.len() == 0 {
        0
    } else {
        total(s.drop_last()) + s.last()
    }
}

/// The arithmetic mean, rounded down.
pub open spec fn mean(s: Seq<int>) -> int
    recommends
        s.len() > 0,
{
    total(s) / (s.len() as int)
}

/// The middle element of an ascending sequence, or the mean of the two
/// middle elements, rounded down, where the length is even.
pub open spec fn median(s: Seq<int>) -> int
    recommends
        s.len() > 0,
{
    let mid = (s.len() / 2) as int;
    if s.len() % 2 == 0 {
        (s[mid - 1] + s[mid]) / 2
    } else {
        s[mid]
    }
}

/// The statistics of a log without a rate sample.
pub open spec fn no_rate_stats(count: nat) -> Stats {
    Stats {
        average: Rate { micros: 0 },
        median: Rate { micros: 0 },
        max: Rate { micros: 0 },
        overall_changes: count as usize,
    }
}

/// The statistics of a log.
pub open spec fn stats_of(log: Seq<i32>) -> Stats {
    let rates = rate_samples(log);
    if rates.len() == 0 {
        no_rate_stats(log.len())
    } else {
        Stats {
            average: Rate { micros: mean(rates) as u64 },
            median: Rate { micros: median(rates) as u64 },
            max: Rate { micros: rates.last() as u64 },
            overall_changes: log.len() as usize,
        }
    }
}

impl Stats {
    /// The statistics of an empty log.
    pub fn zero() -> (stats: Stats)
        ensures
            stats == no_rate_stats(0),
    {
        Stats {
            average: Rate { micros: 0 },
            median: Rate { micros: 0 },
            max: Rate { micros: 0 },
            overall_changes: 0,
        }
    }
}

impl Default for Stats {
    fn default() -> (stats: Stats)
        ensures
            stats == no_rate_stats(0),
    {
        Stats::zero()
    }
}

/// Every rate of a positive gap lies between zero and the rate of a unit gap.
pub proof fn lemma_rate_of_gap_bounds(gap: int)
    requires
        gap > 0,
    ensures
        0 <= rate_of_gap(gap) <= UNIT_GAP_RATE,
{
    assert(0 <= 50_000_000int / gap <= 50_000_000) by (nonlinear_arith)
        requires
            gap > 0,
    ;
}

/// The sum of numbers that each lie between zero and `bound` lies between
/// zero and `bound` times their count.
pub proof fn lemma_total_bounds(s: Seq<int>, bound: int)
    requires
        forall|i: int| 0 <= i < s.len() ==> 0 <= #[trigger] s[i] <= bound,
    ensures
        0 <= total(s) <= s.len() * bound,
    decreases s.len(),
{
    if s.len() > 0 {
        lemma_total_bounds(s.drop_last(), bound);
        assert((s.len() - 1) * bound + bound == s.len() * bound) by (nonlinear_arith);
    }
}

/// Copies a log into the integer type that the sort works on.
fn widen(log: &Vec<i32>) -> (out: Vec<i64>)
    ensures
        ints(out@) == ticks_of(log@),
{
    let mut out: Vec<i64> = Vec::with_capacity(log.len());
    let mut i: usize = 0;
    while i < log.len()
        invariant
            i <= log.len(),
            out.len() == i,
            forall|k: int| 0 <= k < i ==> out[k] == log[k],
        decreases log.len() - i,
    {
        out.push(log[i] as i64);
        i = i + 1;
    }
    proof {
        assert(ints(out@) =~= ticks_of(log@));
    }
    out
}

/// Computes the rate of every pair of neighbours that do not coincide.
fn rates_between(times: &Vec<i64>) -> (rates: Vec<i64>)
    requires
        ascending(ints(times@)),
        forall|k: int| 0 <= k < times.len() ==> i32::MIN <= #[trigger] times[k] <= i32::MAX,
    ensures
        ints(rates@) == gaps(ints(times@)).filter(is_positive()).map_values(gap_rate()),
        forall|k: int| 0 <= k < rates.len() ==> 0 <= #[trigger] rates[k] <= UNIT_GAP_RATE,
{
    let mut rates: Vec<i64> = Vec::new();
    let ghost all = gaps(ints(times@));
    proof {
        lemma_filter_empty(is_positive());
        assert(all.take(0) =~= Seq::<int>::empty());
        assert(ints(rates@) =~= Seq::<int>::empty().map_values(gap_rate()));
    }
    if times.len() < 2 {
        proof {
            assert(all.take(0) =~= all);
        }
        return rates;
    }
    let mut i: usize = 0;
    while i + 1 < times.len()
        invariant
            2 <= times.len(),
            i + 1 <= times.len(),
            all == gaps(ints(times@)),
            ascending(ints(times@)),
            forall|k: int| 0 <= k < times.len() ==> i32::MIN <= #[trigger] times[k] <= i32::MAX,
            ints(rates@) == all.take(i as int).filter(is_positive()).map_values(gap_rate()),
            forall|k: int| 0 <= k < rates.len() ==> 0 <= #[trigger] rates[k] <= UNIT_GAP_RATE,
        decreases times.len() - i,
    {
        let gap = times[i + 1] - times[i];
        let ghost kept = all.take(i as int).filter(is_positive());
        let ghost before = rates@;
        proof {
            assert(ints(times@)[i as int] <= ints(times@)[i + 1]);
            assert(all[i as int] == gap);
            lemma_take_next(all, i as int);
            lemma_filter_push(all.take(i as int), gap as int, is_positive());
        }
        if gap > 0 {
            let rate = UNIT_GAP_RATE / gap;
            rates.push(rate);
            proof {
                lemma_rate_of_gap_bounds(gap as int);
                lemma_map_push(kept, gap as int, gap_rate());
                assert(ints(rates@) =~= ints(before).push(rate as int));
            }
        }
        i = i + 1;
    }
    proof {
        assert(all.take(i as int) =~= all);
    }
    rates
}

/// Adds up rates.
fn sum_rates(rates: &Vec<i64>) -> (sum: u128)
    requires
        forall|k: int| 0 <= k < rates.len() ==> 0 <= #[trigger] rates[k] <= UNIT_GAP_RATE,
    ensures
        sum == total(ints(rates@)),
{
    let mut sum: u128 = 0;
    let mut i: usize = 0;
    proof {
        assert(ints(rates@).take(0) =~= Seq::<int>::empty());
    }
    while i < rates.len()
        invariant
            i <= rates.len(),
            forall|k: int| 0 <= k < rates.len() ==> 0 <= #[trigger] rates[k] <= UNIT_GAP_RATE,
            sum == total(ints(rates@).take(i as int)),
            sum <= i * UNIT_GAP_RATE,
        decreases rates.len() - i,
    {
        proof {
            let next = ints(rates@).take(i + 1);
            lemma_take_next(ints(rates@), i as int);
            assert(next.drop_last() =~= ints(rates@).take(i as int));
            assert(next.last() == rates[i as int]);
            assert(i * UNIT_GAP_RATE + UNIT_GAP_RATE == (i + 1) * UNIT_GAP_RATE) by (nonlinear_arith);
            assert(rates.len() * UNIT_GAP_RATE <= usize::MAX * UNIT_GAP_RATE) by (nonlinear_arith)
                requires
                    rates.len() <= usize::MAX,
            ;
            assert((i + 1) * UNIT_GAP_RATE <= rates.len() * UNIT_GAP_RATE) by (nonlinear_arith)
                requires
                    i + 1 <= rates.len(),
            ;
        }
        sum = sum + rates[i] as u128;
        i = i + 1;
    }
    proof {
        assert(ints(rates@).take(i as int) =~= ints(rates@));
    }
    sum
}

/// Reduces a change-event log to its statistics.
///
/// The events may come in any order. A log with fewer than two events, or
/// with all its events at one tick, has no rate sample: its rates are zero.
pub fn calculate_stats(changes: Vec<i32>) -> (stats: Stats)
    ensures
        stats == stats_of(changes@),
        stats.overall_changes == changes.len(),
        changes.len() < 2 ==> stats == no_rate_stats(changes@.len()),
        rate_samples(changes@).len() == 0 ==> stats == no_rate_stats(changes@.len()),
        rate_samples(changes@).len() > 0 ==> {
            &&& stats.max.micros == rate_samples(changes@).last()
            &&& stats.average.micros == mean(rate_samples(changes@))
            &&& stats.median.micros == median(rate_samples(changes@))
        },
{
    let count = changes.len();
    let ghost ticks = ticks_of(changes@);
    proof {
        lemma_in_order(ticks);
        lemma_in_order(rates_in_time_order(changes@));
    }
    if count < 2 {
        proof {
            lemma_filter_empty(is_positive());
            assert(rates_in_time_order(changes@) =~= Seq::<int>::empty());
        }
        return Stats {
            average: Rate { micros: 0 },
            median: Rate { micros: 0 },
            max: Rate { micros: 0 },
            overall_changes: count,
        };
    }
    let times = sort(&widen(&changes));
    proof {
        assert forall|k: int| 0 <= k < times.len() implies i32::MIN <= #[trigger] times[k]
            <= i32::MAX by {
            assert(ticks.contains(in_order(ticks)[k]));
            assert(ints(times@)[k] == times[k]);
        }
    }
    let rates = rates_between(&times);
    if rates.len() == 0 {
        return Stats {
            average: Rate { micros: 0 },
            median: Rate { micros: 0 },
            max: Rate { micros: 0 },
            overall_changes: count,
        };
    }
    let samples = sort(&rates);
    let samples_len = samples.len();
    proof {
        let unsorted = ints(rates@);
        assert(ints(samples@) == rate_samples(changes@));
        assert forall|k: int| 0 <= k < samples.len() implies 0 <= #[trigger] samples[k]
            <= UNIT_GAP_RATE by {
            assert(unsorted.contains(in_order(unsorted)[k]));
            assert(ints(samples@)[k] == samples[k]);
            let j = choose|j: int| 0 <= j < unsorted.len() && unsorted[j] == in_order(unsorted)[k];
            assert(unsorted[j] == rates[j]);
        }
        lemma_total_bounds(ints(samples@), UNIT_GAP_RATE as int);
    }
    let sum = sum_rates(&samples);
    let average = (sum / (samples_len as u128)) as u64;
    let mid = samples_len / 2;
    let median = if samples_len % 2 == 0 {
        (samples[mid - 1] + samples[mid]) / 2
    } else {
        samples[mid]
    };
    let max = samples[samples_len - 1];
    proof {
        let s = ints(samples@);
        assert(s[mid as int] == samples[mid as int]);
        assert(s.last() == samples[samples_len - 1]);
        if samples_len % 2 == 0 {
            assert(s[mid - 1] == samples[mid - 1]);
        }
        assert(total(s) / (s.len() as int) <= UNIT_GAP_RATE) by (nonlinear_arith)
            requires
                0 <= total(s) <= s.len() * UNIT_GAP_RATE,
                s.len() > 0,
        ;
        assert(total(s) / (s.len() as int) >= 0) by (nonlinear_arith)
            requires
                0 <= total(s),
                s.len() > 0,
        ;
    }
    Stats {
        average: Rate { micros: average },
        median: Rate { micros: median as u64 },
        max: Rate { micros: max as u64 },
        overall_changes: count,
    }
}

} // verus!
