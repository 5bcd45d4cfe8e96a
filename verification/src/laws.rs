//! What holds of the statistics and of the merge for every input.

use vstd::prelude::*;

use vstd::seq_lib::lemma_flatten_concat;

use crate::analysis::{
    admitted, all_entries, entries_of_source, observations, player_stats, selected, source_entries,
    stats_by_player, stats_for, ResultMap, Snapshot, Source,
};
use crate::combine::CombinedStats;
use crate::data::Inputs;
use crate::grouping::{
    items_by_player, last_by_player, last_of, lemma_entries_of_distinct, lemma_first_seen,
    lemma_items_of_concat, lemma_items_of_player, name_of, players_of, Named,
};
use crate::seq_facts::{lemma_filter_all, lemma_filter_empty, lemma_map_keeps_multiset};
use crate::sorting::{ascending, in_order, lemma_in_order, lemma_in_order_unique};
use crate::stats::{
    gap_rate, gaps, is_positive, lemma_rate_of_gap_bounds, lemma_total_bounds, mean, median,
    no_rate_stats, rate_of_gap, rate_samples, rates_in_time_order, stats_of, ticks_of, total, Stats,
    UNIT_GAP_RATE,
};

verus! {

/// A log with fewer than two events has no rate: its statistics are zero
/// but for the count of its events.
pub proof fn lemma_short_log(log: Seq<i32>)
    requires
        log.len() < 2,
    ensures
        stats_of(log) == no_rate_stats(log.len()),
{
    lemma_in_order(ticks_of(log));
    lemma_filter_empty(is_positive());
    assert(rates_in_time_order(log) =~= Seq::<int>::empty());
    lemma_in_order(rates_in_time_order(log));
}

/// The count of changes is the length of the log, however many rate
/// samples the log gives.
pub proof fn lemma_overall_changes(log: Seq<i32>)
    requires
        log.len() <= usize::MAX,
    ensures
        stats_of(log).overall_changes == log.len(),
{
}

/// The rate of a gap is the quotient of the unit gap rate by the gap,
/// rounded down: it falls short of the quotient by less than one rate unit.
pub proof fn lemma_rate_rounds_down(gap: int)
    requires
        gap > 0,
    ensures
        rate_of_gap(gap) * gap <= UNIT_GAP_RATE < (rate_of_gap(gap) + 1) * gap,
{
    let rate = rate_of_gap(gap);
    assert(rate * gap <= 50_000_000 < (rate + 1) * gap) by (nonlinear_arith)
        requires
            gap > 0,
            rate == 50_000_000int / gap,
    ;
}

/// The mean is the quotient of the sum by the count, rounded down.
pub proof fn lemma_mean_rounds_down(s: Seq<int>)
    requires
        s.len() > 0,
    ensures
        mean(s) * s.len() <= total(s) < (mean(s) + 1) * s.len(),
{
    let count = s.len() as int;
    let sum = total(s);
    let quotient = mean(s);
    assert(quotient * count <= sum < (quotient + 1) * count) by (nonlinear_arith)
        requires
            count > 0,
            quotient == sum / count,
    ;
}

/// Every rate sample lies between zero and the rate of a unit gap, and the
/// samples ascend.
pub proof fn lemma_rate_samples(log: Seq<i32>)
    ensures
        ascending(rate_samples(log)),
        forall|i: int|
            0 <= i < rate_samples(log).len() ==> 0 <= #[trigger] rate_samples(log)[i]
                <= UNIT_GAP_RATE,
{
    broadcast use vstd::seq_lib::group_filter_ensures;

    let kept = gaps(in_order(ticks_of(log))).filter(is_positive());
    let unsorted = rates_in_time_order(log);
    lemma_in_order(unsorted);
    assert forall|i: int| 0 <= i < rate_samples(log).len() implies 0 <= #[trigger] rate_samples(
        log,
    )[i] <= UNIT_GAP_RATE by {
        assert(unsorted.contains(rate_samples(log)[i]));
        let j = choose|j: int| 0 <= j < unsorted.len() && unsorted[j] == rate_samples(log)[i];
        assert(unsorted[j] == gap_rate()(kept[j]));
        assert(is_positive()(kept[j]));
        lemma_rate_of_gap_bounds(kept[j]);
    }
}

/// Where a log gives rate samples, the maximum is the largest of them, the
/// average is their mean, and the median is the middle sample, or the mean
/// of the two middle samples where their count is even. Neither the average
/// nor the median exceeds the maximum.
pub proof fn lemma_stats_of_samples(log: Seq<i32>)
    requires
        rate_samples(log).len() > 0,
    ensures
        stats_of(log).max.micros == rate_samples(log).last(),
        forall|i: int|
            0 <= i < rate_samples(log).len() ==> #[trigger] rate_samples(log)[i] <= stats_of(
                log,
            ).max.micros,
        stats_of(log).average.micros == mean(rate_samples(log)),
        stats_of(log).median.micros == median(rate_samples(log)),
        stats_of(log).average.micros <= stats_of(log).max.micros,
        stats_of(log).median.micros <= stats_of(log).max.micros,
{
    let rates = rate_samples(log);
    let top = rates.last();
    lemma_rate_samples(log);
    assert forall|i: int| 0 <= i < rates.len() implies 0 <= #[trigger] rates[i] <= top by {}
    lemma_total_bounds(rates, top);
    assert(0 <= mean(rates) <= top) by (nonlinear_arith)
        requires
            0 <= total(rates) <= rates.len() * top,
            rates.len() > 0,
            mean(rates) == total(rates) / (rates.len() as int),
    ;
    let mid = (rates.len() / 2) as int;
    assert(0 <= rates[mid] <= top);
    if rates.len() % 2 == 0 {
        assert(0 <= rates[mid - 1] <= top);
    }
    assert(0 <= median(rates) <= top);
}

/// Two runs on the same log give the same statistics.
pub proof fn lemma_stats_are_determined(first: Stats, second: Stats, log: Seq<i32>)
    requires
        first == stats_of(log),
        second == stats_of(log),
    ensures
        first == second,
{
}

/// The statistics depend on the ticks of a log and not on their order:
/// logs with the same ticks, each as often, have the same statistics.
pub proof fn lemma_stats_ignore_order(first: Seq<i32>, second: Seq<i32>)
    requires
        first.to_multiset() == second.to_multiset(),
    ensures
        stats_of(first) == stats_of(second),
{
    lemma_map_keeps_multiset(first, second, |t: i32| t as int);
    first.to_multiset_ensures();
    second.to_multiset_ensures();
    ticks_of(first).to_multiset_ensures();
    ticks_of(second).to_multiset_ensures();
    lemma_in_order(ticks_of(first));
    lemma_in_order_unique(ticks_of(second), in_order(ticks_of(first)));
}

/// Computing the statistics again on the sorted log gives the same
/// statistics.
pub proof fn lemma_stats_of_sorted_log(log: Seq<i32>, sorted: Seq<i32>)
    requires
        ticks_of(sorted) == in_order(ticks_of(log)),
    ensures
        stats_of(sorted) == stats_of(log),
{
    lemma_in_order(ticks_of(log));
    ticks_of(log).to_multiset_ensures();
    ticks_of(sorted).to_multiset_ensures();
    lemma_in_order_unique(ticks_of(log), ticks_of(sorted));
    lemma_in_order_unique(ticks_of(sorted), ticks_of(sorted));
}

/// Two merged results of the same sources, in the same order, are the same:
/// the same names in the same order, each with the same statistics.
pub proof fn lemma_merge_is_determined(first: ResultMap, second: ResultMap, sources: Seq<Source>)
    requires
        first.names() == players_of(all_entries(sources)),
        first.values() == last_by_player(all_entries(sources)),
        second.names() == players_of(all_entries(sources)),
        second.values() == last_by_player(all_entries(sources)),
    ensures
        first.names() == second.names(),
        first.values() == second.values(),
{
}

/// The statistics of each player are those of the player's series: what
/// the analysis gives for a stream is what the extracted series give,
/// player by player.
pub proof fn lemma_stats_of_series(entries: Seq<Named<Inputs>>)
    ensures
        stats_by_player(entries).len() == items_by_player(entries).len(),
        forall|k: int|
            0 <= k < players_of(entries).len() ==> #[trigger] stats_by_player(entries)[k]
                == player_stats(items_by_player(entries)[k]),
{
}

/// An empty filter selects every observation of a stream.
pub proof fn lemma_empty_filter_selects_all(snapshots: Seq<Snapshot>)
    ensures
        selected(snapshots, Seq::empty()) == observations(snapshots),
{
    lemma_filter_all(observations(snapshots), admitted(Seq::empty()));
}

/// The entries that a decoded source adds are the results of analysing it
/// alone: its players in their order, each with the player's statistics.
pub proof fn lemma_entries_of_decoded(source: Source)
    requires
        source is Decoded,
    ensures
        players_of(source_entries(source)) == players_of(
            selected(source->Decoded_0@, Seq::empty()),
        ),
        last_by_player(source_entries(source)) == stats_by_player(
            selected(source->Decoded_0@, Seq::empty()),
        ),
{
    let entries = selected(source->Decoded_0@, Seq::empty());
    lemma_first_seen(entries.map_values(name_of()));
    lemma_entries_of_distinct(players_of(entries), stats_by_player(entries));
}

/// A source that failed adds nothing: the merged entries are those of the
/// other sources.
pub proof fn lemma_failed_source_adds_nothing(sources: Seq<Source>, i: int)
    requires
        0 <= i < sources.len(),
        sources[i] is Failed,
    ensures
        all_entries(sources.remove(i)) == all_entries(sources),
{
    let before = sources.take(i).map_values(entries_of_source());
    let after = sources.skip(i + 1).map_values(entries_of_source());
    let nothing = seq![Seq::<Named<CombinedStats>>::empty()];
    assert(sources.map_values(entries_of_source()) =~= before + nothing + after);
    assert(sources.remove(i).map_values(entries_of_source()) =~= before + after);
    lemma_flatten_concat(before, nothing);
    lemma_flatten_concat(before + nothing, after);
    lemma_flatten_concat(before, after);
    nothing.lemma_flatten_one_element();
    assert(before.flatten() + Seq::<Named<CombinedStats>>::empty() =~= before.flatten());
}

/// A player of the last source has, in the merged result, the statistics
/// that the last source gives: what earlier sources held for the name is
/// lost.
pub proof fn lemma_last_source_wins(sources: Seq<Source>, name: Seq<char>)
    requires
        sources.len() > 0,
        sources.last() is Decoded,
        players_of(selected(sources.last()->Decoded_0@, Seq::empty())).contains(name),
    ensures
        players_of(all_entries(sources)).contains(name),
        last_of(all_entries(sources))(name) == stats_for(
            selected(sources.last()->Decoded_0@, Seq::empty()),
        )(name),
{
    let last = sources.last();
    let observed = selected(last->Decoded_0@, Seq::empty());
    let mine = source_entries(last);
    let earlier = all_entries(sources.drop_last());
    let all = all_entries(sources);
    assert(sources.map_values(entries_of_source()) =~= sources.drop_last().map_values(
        entries_of_source(),
    ).push(mine));
    sources.drop_last().map_values(entries_of_source()).lemma_flatten_push(mine);
    assert(all == earlier + mine);
    lemma_entries_of_decoded(last);
    lemma_items_of_player(mine, name);
    lemma_items_of_concat(earlier, mine, name);
    lemma_items_of_player(all, name);
    let k = players_of(observed).index_of(name);
    assert(last_by_player(mine)[k] == last_of(mine)(name));
    assert(stats_by_player(observed)[k] == stats_for(observed)(name));
}

} // verus!
