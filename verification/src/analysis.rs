//! The analysis of a stream of snapshots, and of several streams at once.

use vstd::prelude::*;

use crate::combine::{all_counts_add_up, combined, CombinedStats};
use crate::data::Inputs;
use crate::detect::{
    changes, following, lemma_observed_follows, lemma_track_logs, track_of, ChangeDetector,
    SignalKind,
};
use crate::filter::{name_passes, NameFilter};
use crate::grouping::{
    entries_of, items_by_player, items_of, last_by_player, lemma_items_of_player,
    lemma_items_of_push, lemma_last_written, lemma_players_of_empty, lemma_players_of_push,
    players_of, Named,
};
use crate::players::{with_name, PlayerMap};
use crate::seq_facts::{
    lemma_filter_empty, lemma_filter_push, lemma_flatten_next, lemma_flatten_none,
};
use crate::signal::hook_pressed;
use crate::stats::stats_of;

verus! {

/// The state of one player in one snapshot.
#[derive(Debug)]
pub struct PlayerObservation {
    pub name: String,
    pub state: Inputs,
}

impl View for PlayerObservation {
    type V = Named<Inputs>;

    open spec fn view(&self) -> Named<Inputs> {
        Named { name: self.name@, item: self.state }
    }
}

/// The players that are visible at one tick, each with its state.
#[derive(Debug)]
pub struct Snapshot {
    pub players: Vec<PlayerObservation>,
}

impl View for Snapshot {
    type V = Seq<Named<Inputs>>;

    open spec fn view(&self) -> Seq<Named<Inputs>> {
        self.players@.map_values(|p: PlayerObservation| p@)
    }
}

/// What came of decoding one recording.
#[derive(Debug)]
pub enum Source {
    /// The snapshots of the recording, in the order of their ticks.
    Decoded(Vec<Snapshot>),
    /// The recording could not be decoded.
    Failed,
}

/// Why an analysis gave no result.
#[derive(Clone, Copy, Debug, PartialEq, Eq, Structural)]
pub enum AnalysisError {
    /// The source could not be decoded.
    SourceFailed,
}

/// The statistics of every player, by name.
pub type ResultMap = PlayerMap<CombinedStats>;

/// The states of every player, by name.
pub type SeriesMap = PlayerMap<Vec<Inputs>>;

/// The observations of a stream in the order in which the analysis reads
/// them: snapshot after snapshot, and within a snapshot player after player.
pub open spec fn observations(snapshots: Seq<Snapshot>) -> Seq<Named<Inputs>> {
    snapshots.map_values(view_of_snapshot()).flatten()
}

/// Selects the observations of the players that `filter` selects.
pub open spec fn admitted(filter: Seq<char>) -> spec_fn(Named<Inputs>) -> bool {
    |o: Named<Inputs>| name_passes(o.name, filter)
}

/// The observations of a stream that are analysed under `filter`.
pub open spec fn selected(snapshots: Seq<Snapshot>, filter: Seq<char>) -> Seq<Named<Inputs>> {
    observations(snapshots).filter(admitted(filter))
}

/// The combined statistics of a player with these states.
pub open spec fn player_stats(series: Seq<Inputs>) -> CombinedStats {
    combined(
        stats_of(changes(series, SignalKind::Direction)),
        stats_of(changes(series, SignalKind::Hook)),
    )
}

/// The statistics of the player of this name among `entries`.
pub open spec fn stats_for(entries: Seq<Named<Inputs>>) -> spec_fn(Seq<char>) -> CombinedStats {
    |name: Seq<char>| player_stats(items_of(entries, name))
}

/// For each player, in the order of `players_of`, the player's statistics.
pub open spec fn stats_by_player(entries: Seq<Named<Inputs>>) -> Seq<CombinedStats> {
    players_of(entries).map_values(stats_for(entries))
}

/// The contents of each series.
pub open spec fn series_views(series: Seq<Vec<Inputs>>) -> Seq<Seq<Inputs>> {
    series.map_values(|v: Vec<Inputs>| v@)
}

/// The entries that a source adds to a merged result: the statistics of its
/// players, and nothing where it failed.
pub open spec fn source_entries(source: Source) -> Seq<Named<CombinedStats>> {
    match source {
        Source::Decoded(snapshots) => {
            let entries = selected(snapshots@, Seq::empty());
            entries_of(players_of(entries), stats_by_player(entries))
        },
        Source::Failed => Seq::empty(),
    }
}

/// `source_entries` as a function value.
pub open spec fn entries_of_source() -> spec_fn(Source) -> Seq<Named<CombinedStats>> {
    |s: Source| source_entries(s)
}

/// The entries of all sources, in the order of the sources.
pub open spec fn all_entries(sources: Seq<Source>) -> Seq<Named<CombinedStats>> {
    sources.map_values(entries_of_source()).flatten()
}

/// The entries of a result, in the order of its names.
pub open spec fn entries_of_result() -> spec_fn(ResultMap) -> Seq<Named<CombinedStats>> {
    |p: ResultMap| entries_of(p.names(), p.values())
}

/// The entries of all results, in the order of the results.
pub open spec fn all_results(parts: Seq<ResultMap>) -> Seq<Named<CombinedStats>> {
    parts.map_values(entries_of_result()).flatten()
}

/// The snapshot as the sequence of its observations.
pub open spec fn view_of_snapshot() -> spec_fn(Snapshot) -> Seq<Named<Inputs>> {
    |s: Snapshot| s@
}

/// Feeds the players of one snapshot to the detector.
fn observe_snapshot(
    detector: &mut ChangeDetector,
    snapshot: &Snapshot,
    filter: &NameFilter,
    Ghost(before): Ghost<Seq<Named<Inputs>>>,
)
    requires
        old(detector).wf(),
        following(
            old(detector).names(),
            old(detector).tracks(),
            before.filter(admitted(filter.text())),
        ),
    ensures
        final(detector).wf(),
        following(
            final(detector).names(),
            final(detector).tracks(),
            (before + snapshot@).filter(admitted(filter.text())),
        ),
{
    let ghost keep = admitted(filter.text());
    let mut j: usize = 0;
    proof {
        assert(before + snapshot@.take(0) =~= before);
    }
    while j < snapshot.players.len()
        invariant
            j <= snapshot.players.len(),
            detector.wf(),
            keep == admitted(filter.text()),
            following(
                detector.names(),
                detector.tracks(),
                (before + snapshot@.take(j as int)).filter(keep),
            ),
        decreases snapshot.players.len() - j,
    {
        let player = &snapshot.players[j];
        let ghost read = before + snapshot@.take(j as int);
        proof {
            assert(snapshot@[j as int] == player@);
            assert(before + snapshot@.take(j + 1) =~= read.push(player@));
            lemma_filter_push(read, player@, keep);
        }
        if filter.admits(player.name.as_str()) {
            proof {
                lemma_observed_follows(
                    detector.names(),
                    detector.tracks(),
                    read.filter(keep),
                    player@,
                );
            }
            detector.observe(
                player.name.as_str(),
                player.state.tick,
                player.state.direction,
                hook_pressed(player.state.hook_state),
            );
        }
        j = j + 1;
    }
    proof {
        assert(snapshot@.take(j as int) =~= snapshot@);
    }
}

/// Runs the detection and the statistics on one stream of snapshots, for
/// the players that `filter` selects.
///
/// Every selected player that occurs in the stream has an entry, in the
/// order in which the players first occur.
pub fn analyze_snapshots(snapshots: &Vec<Snapshot>, filter: &str) -> (results: ResultMap)
    ensures
        results.wf(),
        results.names() == players_of(selected(snapshots@, filter@)),
        results.values() == stats_by_player(selected(snapshots@, filter@)),
        all_counts_add_up(results.values()),
{
    let filter = NameFilter::new(filter);
    let ghost keep = admitted(filter.text());
    let mut detector = ChangeDetector::new();
    let mut i: usize = 0;
    proof {
        lemma_flatten_none(snapshots@, view_of_snapshot());
        lemma_filter_empty(keep);
        lemma_players_of_empty::<Inputs>();
    }
    while i < snapshots.len()
        invariant
            i <= snapshots.len(),
            detector.wf(),
            keep == admitted(filter.text()),
            following(
                detector.names(),
                detector.tracks(),
                observations(snapshots@.take(i as int)).filter(keep),
            ),
        decreases snapshots.len() - i,
    {
        proof {
            lemma_flatten_next(snapshots@, view_of_snapshot(), i as int);
        }
        observe_snapshot(
            &mut detector,
            &snapshots[i],
            &filter,
            Ghost(observations(snapshots@.take(i as int))),
        );
        i = i + 1;
    }
    let results = detector.finish();
    proof {
        assert(snapshots@.take(i as int) =~= snapshots@);
        let entries = selected(snapshots@, filter.text());
        let names = players_of(entries);
        assert forall|k: int| 0 <= k < names.len() implies #[trigger] results.values()[k]
            == stats_for(entries)(names[k]) by {
            let series = items_of(entries, names[k]);
            lemma_track_logs(series, SignalKind::Direction);
            lemma_track_logs(series, SignalKind::Hook);
            assert(detector.tracks()[k] == track_of(series));
        }
        assert(results.values() =~= stats_by_player(entries));
    }
    results
}

/// Analyses one source. A source that failed gives no result.
pub fn analyze(source: &Source, filter: &str) -> (outcome: Result<ResultMap, AnalysisError>)
    ensures
        match *source {
            Source::Decoded(snapshots) => outcome is Ok && outcome->Ok_0.wf() && outcome->Ok_0.names()
                == players_of(selected(snapshots@, filter@)) && outcome->Ok_0.values()
                == stats_by_player(selected(snapshots@, filter@)) && all_counts_add_up(
                outcome->Ok_0.values(),
            ),
            Source::Failed => outcome == Err::<ResultMap, AnalysisError>(
                AnalysisError::SourceFailed,
            ),
        },
{
    match source {
        Source::Decoded(snapshots) => Ok(analyze_snapshots(snapshots, filter)),
        Source::Failed => Err(AnalysisError::SourceFailed),
    }
}

/// The map holds, for each player among `entries`, the states that
/// arrived under the player's name.
pub open spec fn collecting(
    names: Seq<Seq<char>>,
    series: Seq<Vec<Inputs>>,
    entries: Seq<Named<Inputs>>,
) -> bool {
    &&& names == players_of(entries)
    &&& series_views(series) == items_by_player(entries)
}

/// Adds the states of the players of one snapshot to their series.
fn collect_snapshot(
    collected: &mut SeriesMap,
    snapshot: &Snapshot,
    filter: &NameFilter,
    Ghost(before): Ghost<Seq<Named<Inputs>>>,
)
    requires
        old(collected).wf(),
        collecting(
            old(collected).names(),
            old(collected).values(),
            before.filter(admitted(filter.text())),
        ),
    ensures
        final(collected).wf(),
        collecting(
            final(collected).names(),
            final(collected).values(),
            (before + snapshot@).filter(admitted(filter.text())),
        ),
{
    let ghost keep = admitted(filter.text());
    let mut j: usize = 0;
    proof {
        assert(before + snapshot@.take(0) =~= before);
    }
    while j < snapshot.players.len()
        invariant
            j <= snapshot.players.len(),
            collected.wf(),
            keep == admitted(filter.text()),
            collecting(
                collected.names(),
                collected.values(),
                (before + snapshot@.take(j as int)).filter(keep),
            ),
        decreases snapshot.players.len() - j,
    {
        let player = &snapshot.players[j];
        let ghost read = before + snapshot@.take(j as int);
        let ghost entries = read.filter(keep);
        let ghost names = collected.names();
        let ghost series = collected.values();
        proof {
            assert(snapshot@[j as int] == player@);
            assert(before + snapshot@.take(j + 1) =~= read.push(player@));
            lemma_filter_push(read, player@, keep);
            collected.lemma_wf();
            lemma_players_of_push(entries, player@);
            lemma_items_of_player(entries, player.name@);
            assert(series_views(series).len() == names.len());
        }
        if filter.admits(player.name.as_str()) {
            match collected.find(player.name.as_str()) {
                Some(i) => {
                    collected.value_mut(i).push(player.state);
                },
                None => {
                    let mut states: Vec<Inputs> = Vec::new();
                    states.push(player.state);
                    collected.append(player.name.clone(), states);
                },
            }
            proof {
                let later = entries.push(player@);
                let names_after = collected.names();
                let series_after = collected.values();
                assert(names_after == with_name(names, player.name@));
                assert forall|k: int| 0 <= k < names_after.len() implies #[trigger] series_after[k]@
                    == items_of(later, names_after[k]) by {
                    lemma_items_of_push(entries, player@, names_after[k]);
                    if k < names.len() {
                        assert(series_views(series)[k] == items_of(entries, names[k]));
                        assert(names.contains(names[k]));
                    } else {
                        assert(items_of(entries, player.name@) =~= Seq::<Inputs>::empty());
                    }
                }
                assert(series_views(series_after) =~= items_by_player(later));
            }
        }
        j = j + 1;
    }
    proof {
        assert(snapshot@.take(j as int) =~= snapshot@);
    }
}

/// Collects, for the players that `filter` selects, the states of each
/// player in the order of the stream.
pub fn extract_snapshots(snapshots: &Vec<Snapshot>, filter: &str) -> (collected: SeriesMap)
    ensures
        collected.wf(),
        collected.names() == players_of(selected(snapshots@, filter@)),
        series_views(collected.values()) == items_by_player(selected(snapshots@, filter@)),
{
    let filter = NameFilter::new(filter);
    let ghost keep = admitted(filter.text());
    let mut collected: SeriesMap = PlayerMap::new();
    let mut i: usize = 0;
    proof {
        lemma_flatten_none(snapshots@, view_of_snapshot());
        lemma_filter_empty(keep);
        lemma_players_of_empty::<Inputs>();
        assert(series_views(collected.values()) =~= items_by_player(Seq::<Named<Inputs>>::empty()));
    }
    while i < snapshots.len()
        invariant
            i <= snapshots.len(),
            collected.wf(),
            keep == admitted(filter.text()),
            collecting(
                collected.names(),
                collected.values(),
                observations(snapshots@.take(i as int)).filter(keep),
            ),
        decreases snapshots.len() - i,
    {
        proof {
            lemma_flatten_next(snapshots@, view_of_snapshot(), i as int);
        }
        collect_snapshot(
            &mut collected,
            &snapshots[i],
            &filter,
            Ghost(observations(snapshots@.take(i as int))),
        );
        i = i + 1;
    }
    proof {
        assert(snapshots@.take(i as int) =~= snapshots@);
    }
    collected
}

/// Collects the series of one source. A source that failed gives no result.
pub fn extract_series(source: &Source, filter: &str) -> (outcome: Result<SeriesMap, AnalysisError>)
    ensures
        match *source {
            Source::Decoded(snapshots) => outcome is Ok && outcome->Ok_0.wf() && outcome->Ok_0.names()
                == players_of(selected(snapshots@, filter@)) && series_views(
                outcome->Ok_0.values(),
            ) == items_by_player(selected(snapshots@, filter@)),
            Source::Failed => outcome is Err && outcome->Err_0 == AnalysisError::SourceFailed,
        },
{
    match source {
        Source::Decoded(snapshots) => Ok(extract_snapshots(snapshots, filter)),
        Source::Failed => Err(AnalysisError::SourceFailed),
    }
}

/// Writes the entries of `part` over `merged`, in their order.
fn merge_into(
    merged: &mut ResultMap,
    part: &ResultMap,
    Ghost(before): Ghost<Seq<Named<CombinedStats>>>,
)
    requires
        old(merged).wf(),
        part.wf(),
        old(merged).names() == players_of(before),
        old(merged).values() == last_by_player(before),
    ensures
        final(merged).wf(),
        final(merged).names() == players_of(before + entries_of(part.names(), part.values())),
        final(merged).values() == last_by_player(
            before + entries_of(part.names(), part.values()),
        ),
        all_counts_add_up(old(merged).values()) && all_counts_add_up(part.values())
            ==> all_counts_add_up(final(merged).values()),
{
    let ghost added = entries_of(part.names(), part.values());
    let count = part.len();
    let mut j: usize = 0;
    proof {
        assert(before + added.take(0) =~= before);
    }
    while j < count
        invariant
            j <= count,
            count == part.names().len(),
            count == part.values().len(),
            part.wf(),
            merged.wf(),
            added == entries_of(part.names(), part.values()),
            merged.names() == players_of(before + added.take(j as int)),
            merged.values() == last_by_player(before + added.take(j as int)),
            all_counts_add_up(old(merged).values()) && all_counts_add_up(part.values())
                ==> all_counts_add_up(merged.values()),
        decreases count - j,
    {
        let name = part.name(j).clone();
        let value = *part.value(j);
        proof {
            let written = before + added.take(j as int);
            let entry = Named { name: name@, item: value };
            assert(added[j as int] == entry);
            assert(before + added.take(j + 1) =~= written.push(entry));
            lemma_last_written(merged.names(), merged.values(), written, entry);
        }
        merged.insert(name, value);
        j = j + 1;
    }
    proof {
        assert(added.take(j as int) =~= added);
    }
}

/// Merges results into one, in the order of `parts`. Where a player occurs
/// in more than one of them, the statistics of the last one stay.
pub fn merge_results(parts: &Vec<ResultMap>) -> (merged: ResultMap)
    requires
        forall|i: int| 0 <= i < parts.len() ==> (#[trigger] parts[i]).wf(),
    ensures
        merged.wf(),
        merged.names() == players_of(all_results(parts@)),
        merged.values() == last_by_player(all_results(parts@)),
        (forall|i: int| 0 <= i < parts.len() ==> all_counts_add_up((#[trigger] parts[i]).values()))
            ==> all_counts_add_up(merged.values()),
{
    let mut merged: ResultMap = PlayerMap::new();
    let mut i: usize = 0;
    proof {
        lemma_flatten_none(parts@, entries_of_result());
        lemma_players_of_empty::<CombinedStats>();
        assert(merged.values() =~= last_by_player(Seq::<Named<CombinedStats>>::empty()));
    }
    while i < parts.len()
        invariant
            i <= parts.len(),
            forall|i: int| 0 <= i < parts.len() ==> (#[trigger] parts[i]).wf(),
            merged.wf(),
            merged.names() == players_of(all_results(parts@.take(i as int))),
            merged.values() == last_by_player(all_results(parts@.take(i as int))),
            (forall|i: int|
                0 <= i < parts.len() ==> all_counts_add_up((#[trigger] parts[i]).values()))
                ==> all_counts_add_up(merged.values()),
        decreases parts.len() - i,
    {
        proof {
            lemma_flatten_next(parts@, entries_of_result(), i as int);
        }
        merge_into(&mut merged, &parts[i], Ghost(all_results(parts@.take(i as int))));
        i = i + 1;
    }
    proof {
        assert(parts@.take(i as int) =~= parts@);
    }
    merged
}

/// Analyses every source, all players included, and merges the results in
/// the order of `sources`.
///
/// A source that failed adds nothing. Where a player occurs in more than
/// one source, the statistics from the last of them stay.
pub fn analyze_many(sources: &Vec<Source>) -> (merged: ResultMap)
    ensures
        merged.wf(),
        merged.names() == players_of(all_entries(sources@)),
        merged.values() == last_by_player(all_entries(sources@)),
        all_counts_add_up(merged.values()),
{
    let mut merged: ResultMap = PlayerMap::new();
    let mut i: usize = 0;
    proof {
        lemma_flatten_none(sources@, entries_of_source());
        lemma_players_of_empty::<CombinedStats>();
        assert(merged.values() =~= last_by_player(Seq::<Named<CombinedStats>>::empty()));
    }
    while i < sources.len()
        invariant
            i <= sources.len(),
            merged.wf(),
            merged.names() == players_of(all_entries(sources@.take(i as int))),
            merged.values() == last_by_player(all_entries(sources@.take(i as int))),
            all_counts_add_up(merged.values()),
        decreases sources.len() - i,
    {
        let ghost before = all_entries(sources@.take(i as int));
        proof {
            lemma_flatten_next(sources@, entries_of_source(), i as int);
        }
        match &sources[i] {
            Source::Decoded(snapshots) => {
                proof {
                    reveal_strlit("");
                    assert(""@ =~= Seq::<char>::empty());
                }
                let part = analyze_snapshots(snapshots, "");
                merge_into(&mut merged, &part, Ghost(before));
            },
            Source::Failed => {
                proof {
                    assert(before + Seq::<Named<CombinedStats>>::empty() =~= before);
                }
            },
        }
        i = i + 1;
    }
    proof {
        assert(sources@.take(i as int) =~= sources@);
    }
    merged
}

} // verus!
