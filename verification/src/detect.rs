//! Detection of signal changes, player by player, as the ticks come in.

use vstd::prelude::*;

use crate::combine::{all_counts_add_up, combine, combined, CombinedStats};
use crate::data::{Direction, Inputs};
use crate::grouping::{
    items_of, lemma_first_seen, lemma_items_of_player, lemma_items_of_push, lemma_players_of_push,
    name_of, players_of, Named,
};
use crate::players::{with_name, PlayerMap};
use crate::seq_facts::{lemma_filter_empty, lemma_filter_push, lemma_map_push, lemma_take_next};
use crate::signal::{signals_of, Signals};
use crate::stats::{calculate_stats, stats_of};

verus! {

/// The two signals that are watched.
#[derive(Clone, Copy, Debug, PartialEq, Eq, Structural)]
pub enum SignalKind {
    Direction,
    Hook,
}

/// A signal of a player took another value than at the player's tick before.
#[derive(Clone, Copy, Debug, PartialEq, Eq, Structural)]
pub struct ChangeEvent {
    /// The tick at which the new value was seen.
    pub timestamp: i32,
    pub kind: SignalKind,
}

/// What the detector keeps of one player.
pub struct TrackState {
    /// The signals at the player's latest tick.
    pub last: Signals,
    /// The changes of both signals, in the order in which they were seen.
    pub events: Seq<ChangeEvent>,
}

/// Selects the events of one signal.
pub open spec fn of_kind(kind: SignalKind) -> spec_fn(ChangeEvent) -> bool {
    |e: ChangeEvent| e.kind == kind
}

/// The tick of an event.
pub open spec fn timestamp_of() -> spec_fn(ChangeEvent) -> i32 {
    |e: ChangeEvent| e.timestamp
}

/// The change-event log of one signal: the ticks of its events, in the
/// order in which they were seen.
pub open spec fn log_of(events: Seq<ChangeEvent>, kind: SignalKind) -> Seq<i32> {
    events.filter(of_kind(kind)).map_values(timestamp_of())
}

/// The state of a player after the first tick.
pub open spec fn seeded(signals: Signals) -> TrackState {
    TrackState { last: signals, events: Seq::empty() }
}

/// The state of a player after one more tick: each signal that differs
/// from the tick before adds an event, the direction first.
pub open spec fn advanced(track: TrackState, timestamp: i32, signals: Signals) -> TrackState {
    let with_direction = if signals.direction != track.last.direction {
        track.events.push(ChangeEvent { timestamp, kind: SignalKind::Direction })
    } else {
        track.events
    };
    let with_hook = if signals.hook != track.last.hook {
        with_direction.push(ChangeEvent { timestamp, kind: SignalKind::Hook })
    } else {
        with_direction
    };
    TrackState { last: signals, events: with_hook }
}

/// The tracks after `name` was seen with `signals` at `timestamp`: a known
/// player advances, a new one is seeded at the end.
pub open spec fn observed(
    names: Seq<Seq<char>>,
    tracks: Seq<TrackState>,
    name: Seq<char>,
    timestamp: i32,
    signals: Signals,
) -> Seq<TrackState> {
    if names.contains(name) {
        let i = names.index_of(name);
        tracks.update(i, advanced(tracks[i], timestamp, signals))
    } else {
        tracks.push(seeded(signals))
    }
}

/// The combined statistics of a player's events.
pub open spec fn summary_of(events: Seq<ChangeEvent>) -> CombinedStats {
    combined(
        stats_of(log_of(events, SignalKind::Direction)),
        stats_of(log_of(events, SignalKind::Hook)),
    )
}

/// `summary_of` on the events of a track, as a function value.
pub open spec fn summarized() -> spec_fn(TrackState) -> CombinedStats {
    |t: TrackState| summary_of(t.events)
}

/// Parts an event sequence into the logs of the two signals.
fn split_log(events: &Vec<ChangeEvent>) -> (logs: (Vec<i32>, Vec<i32>))
    ensures
        logs.0@ == log_of(events@, SignalKind::Direction),
        logs.1@ == log_of(events@, SignalKind::Hook),
        logs.0.len() + logs.1.len() == events.len(),
{
    let mut direction_log: Vec<i32> = Vec::new();
    let mut hook_log: Vec<i32> = Vec::new();
    let mut i: usize = 0;
    proof {
        lemma_filter_empty(of_kind(SignalKind::Direction));
        lemma_filter_empty(of_kind(SignalKind::Hook));
        assert(events@.take(0) =~= Seq::<ChangeEvent>::empty());
        assert(direction_log@ =~= log_of(events@.take(0), SignalKind::Direction));
        assert(hook_log@ =~= log_of(events@.take(0), SignalKind::Hook));
    }
    while i < events.len()
        invariant
            i <= events.len(),
            direction_log@ == log_of(events@.take(i as int), SignalKind::Direction),
            hook_log@ == log_of(events@.take(i as int), SignalKind::Hook),
            direction_log.len() + hook_log.len() == i,
        decreases events.len() - i,
    {
        let event = events[i];
        proof {
            let seen = events@.take(i as int);
            lemma_take_next(events@, i as int);
            lemma_filter_push(seen, event, of_kind(SignalKind::Direction));
            lemma_filter_push(seen, event, of_kind(SignalKind::Hook));
            lemma_map_push(seen.filter(of_kind(SignalKind::Direction)), event, timestamp_of());
            lemma_map_push(seen.filter(of_kind(SignalKind::Hook)), event, timestamp_of());
        }
        match event.kind {
            SignalKind::Direction => {
                direction_log.push(event.timestamp);
            },
            SignalKind::Hook => {
                hook_log.push(event.timestamp);
            },
        }
        i = i + 1;
    }
    proof {
        assert(events@.take(i as int) =~= events@);
    }
    (direction_log, hook_log)
}

/// The track of one player. The events of both signals share one vector, so
/// that their number is a length and the two counts can always be added.
struct Track {
    last: Signals,
    events: Vec<ChangeEvent>,
}

impl View for Track {
    type V = TrackState;

    closed spec fn view(&self) -> TrackState {
        TrackState { last: self.last, events: self.events@ }
    }
}

/// Follows the signals of every player and records each change.
pub struct ChangeDetector {
    tracks: PlayerMap<Track>,
}

impl ChangeDetector {
    /// The players seen so far, in the order of their first tick.
    pub closed spec fn names(&self) -> Seq<Seq<char>> {
        self.tracks.names()
    }

    /// The state kept of each player, at the index of the name.
    pub closed spec fn tracks(&self) -> Seq<TrackState> {
        self.tracks.values().map_values(|t: Track| t@)
    }

    /// Every player has one track and one name.
    pub closed spec fn wf(&self) -> bool {
        self.tracks.wf()
    }

    /// A detector that has seen no player.
    pub fn new() -> (detector: Self)
        ensures
            detector.wf(),
            detector.names() == Seq::<Seq<char>>::empty(),
            detector.tracks() == Seq::<TrackState>::empty(),
    {
        let detector = ChangeDetector { tracks: PlayerMap::new() };
        assert(detector.tracks() =~= Seq::<TrackState>::empty());
        detector
    }

    /// Takes in the signals of one player at one tick.
    ///
    /// The first tick of a player only sets what later ticks are compared
    /// with. Every later tick records an event for each signal whose value
    /// is not that of the player's tick before.
    pub fn observe(&mut self, name: &str, timestamp: i32, direction: Direction, hook_engaged: bool)
        requires
            old(self).wf(),
        ensures
            final(self).wf(),
            final(self).names() == with_name(old(self).names(), name@),
            final(self).tracks() == observed(
                old(self).names(),
                old(self).tracks(),
                name@,
                timestamp,
                Signals { direction, hook: hook_engaged },
            ),
    {
        let signals = Signals { direction, hook: hook_engaged };
        proof {
            self.tracks.lemma_wf();
        }
        match self.tracks.find(name) {
            Some(i) => {
                let ghost before = self.tracks.values()[i as int]@;
                let track = self.tracks.value_mut(i);
                if direction != track.last.direction {
                    track.events.push(ChangeEvent { timestamp, kind: SignalKind::Direction });
                }
                if hook_engaged != track.last.hook {
                    track.events.push(ChangeEvent { timestamp, kind: SignalKind::Hook });
                }
                track.last = signals;
                proof {
                    assert(self.tracks.values()[i as int]@ == advanced(before, timestamp, signals));
                    assert(self.tracks() =~= old(self).tracks().update(
                        i as int,
                        advanced(before, timestamp, signals),
                    ));
                }
            },
            None => {
                let track = Track { last: signals, events: Vec::new() };
                self.tracks.append(name.to_owned(), track);
                proof {
                    assert(self.tracks() =~= old(self).tracks().push(seeded(signals)));
                }
            },
        }
    }

    /// Reduces the events of every player to the player's statistics.
    pub fn finish(&self) -> (results: PlayerMap<CombinedStats>)
        requires
            self.wf(),
        ensures
            results.wf(),
            results.names() == self.names(),
            results.values() == self.tracks().map_values(summarized()),
            all_counts_add_up(results.values()),
    {
        let mut results: PlayerMap<CombinedStats> = PlayerMap::new();
        let count = self.tracks.len();
        let mut i: usize = 0;
        proof {
            self.tracks.lemma_wf();
            assert(self.names().take(0) =~= results.names());
            assert(self.tracks().take(0).map_values(summarized()) =~= results.values());
        }
        while i < count
            invariant
                self.wf(),
                count == self.names().len(),
                count == self.tracks().len(),
                self.names().no_duplicates(),
                i <= count,
                results.wf(),
                results.names() == self.names().take(i as int),
                results.values() == self.tracks().take(i as int).map_values(summarized()),
                all_counts_add_up(results.values()),
            decreases count - i,
        {
            let name = self.tracks.name(i).clone();
            let track = self.tracks.value(i);
            let logs = split_log(&track.events);
            let direction = calculate_stats(logs.0);
            let hook = calculate_stats(logs.1);
            let both = combine(direction, hook);
            proof {
                assert(track@ == self.tracks()[i as int]);
                assert(both == summary_of(self.tracks()[i as int].events));
                assert(!results.has(name@)) by {
                    if results.has(name@) {
                        let k = choose|k: int|
                            0 <= k < results.names().len() && results.names()[k] == name@;
                        assert(self.names()[k] == self.names()[i as int]);
                    }
                }
                lemma_take_next(self.names(), i as int);
                lemma_take_next(self.tracks(), i as int);
                lemma_map_push(self.tracks().take(i as int), self.tracks()[i as int], summarized());
            }
            results.append(name, both);
            i = i + 1;
        }
        proof {
            assert(self.names().take(i as int) =~= self.names());
            assert(self.tracks().take(i as int) =~= self.tracks());
        }
        results
    }
}

/// Whether the signal of this kind has another value in `later` than in
/// `earlier`.
pub open spec fn differs(kind: SignalKind, earlier: Inputs, later: Inputs) -> bool {
    match kind {
        SignalKind::Direction => signals_of(later).direction != signals_of(earlier).direction,
        SignalKind::Hook => signals_of(later).hook != signals_of(earlier).hook,
    }
}

/// The change-event log that the states of one player give for one signal:
/// the tick of every state, but the first, in which the signal differs from
/// the state before.
pub open spec fn changes(series: Seq<Inputs>, kind: SignalKind) -> Seq<i32>
    decreases series.len(),
{
    if series.len() < 2 {
        Seq::empty()
    } else {
        let earlier = changes(series.drop_last(), kind);
        if differs(kind, series[series.len() - 2], series.last()) {
            earlier.push(series.last().tick)
        } else {
            earlier
        }
    }
}

/// What the detector keeps of a player whose states, in the order of their
/// arrival, are `series`.
pub open spec fn track_of(series: Seq<Inputs>) -> TrackState
    recommends
        series.len() > 0,
    decreases series.len(),
{
    if series.len() <= 1 {
        seeded(signals_of(series.last()))
    } else {
        advanced(track_of(series.drop_last()), series.last().tick, signals_of(series.last()))
    }
}

/// The detector holds, for each of `names`, the track of the player's
/// states among `entries`.
pub open spec fn following(
    names: Seq<Seq<char>>,
    tracks: Seq<TrackState>,
    entries: Seq<Named<Inputs>>,
) -> bool {
    &&& names == players_of(entries)
    &&& tracks.len() == names.len()
    &&& forall|k: int|
        0 <= k < names.len() ==> #[trigger] tracks[k] == track_of(items_of(entries, names[k]))
}

/// The track of a series remembers the signals of the last state.
pub proof fn lemma_track_last(series: Seq<Inputs>)
    requires
        series.len() > 0,
    ensures
        track_of(series).last == signals_of(series.last()),
{
}

/// The events in the track of a series are, signal by signal, the changes
/// of the series.
pub proof fn lemma_track_logs(series: Seq<Inputs>, kind: SignalKind)
    ensures
        log_of(track_of(series).events, kind) == changes(series, kind),
    decreases series.len(),
{
    if series.len() <= 1 {
        lemma_filter_empty(of_kind(kind));
        assert(Seq::<ChangeEvent>::empty().map_values(timestamp_of()) =~= Seq::<i32>::empty());
    } else {
        let earlier = series.drop_last();
        let state = series.last();
        let track = track_of(earlier);
        lemma_track_logs(earlier, kind);
        lemma_track_last(earlier);
        assert(earlier.last() == series[series.len() - 2]);
        let direction = ChangeEvent { timestamp: state.tick, kind: SignalKind::Direction };
        let hook = ChangeEvent { timestamp: state.tick, kind: SignalKind::Hook };
        let with_direction = if signals_of(state).direction != track.last.direction {
            track.events.push(direction)
        } else {
            track.events
        };
        lemma_filter_push(track.events, direction, of_kind(kind));
        lemma_map_push(track.events.filter(of_kind(kind)), direction, timestamp_of());
        lemma_filter_push(with_direction, hook, of_kind(kind));
        lemma_map_push(with_direction.filter(of_kind(kind)), hook, timestamp_of());
    }
}

/// A detector that follows `entries` follows them still after it has
/// observed one more.
pub proof fn lemma_observed_follows(
    names: Seq<Seq<char>>,
    tracks: Seq<TrackState>,
    entries: Seq<Named<Inputs>>,
    entry: Named<Inputs>,
)
    requires
        following(names, tracks, entries),
    ensures
        following(
            with_name(names, entry.name),
            observed(names, tracks, entry.name, entry.item.tick, signals_of(entry.item)),
            entries.push(entry),
        ),
{
    let later = entries.push(entry);
    let names_after = with_name(names, entry.name);
    let tracks_after = observed(names, tracks, entry.name, entry.item.tick, signals_of(entry.item));
    lemma_players_of_push(entries, entry);
    lemma_first_seen(entries.map_values(name_of()));
    assert(names.no_duplicates());
    lemma_items_of_player(entries, entry.name);
    assert forall|k: int| 0 <= k < names_after.len() implies #[trigger] tracks_after[k] == track_of(
        items_of(later, names_after[k]),
    ) by {
        lemma_items_of_push(entries, entry, names_after[k]);
        let items = items_of(entries, names_after[k]);
        if names.contains(entry.name) {
            let i = names.index_of(entry.name);
            if k == i {
                assert(items.push(entry.item).drop_last() =~= items);
            } else {
                assert(tracks_after[k] == tracks[k]);
            }
        } else {
            if k < names.len() {
                assert(names.contains(names[k]));
                assert(tracks_after[k] == tracks[k]);
            } else {
                assert(items =~= Seq::<Inputs>::empty());
            }
        }
    }
}

} // verus!
