use demo_stats::{
    analyze, analyze_many, analyze_snapshots, extract_series, extract_snapshots, folded_name_holds,
    hook_pressed, merge_results, name_matches, project, ActiveWeapon, AnalysisError, ChangeDetector,
    CombinedStats, Direction, Emote, HookState, Inputs, NameFilter, PlayerMap, PlayerObservation,
    Position, Rate, ResultMap, Signals, Snapshot, Source, Velocity,
};

fn state(tick: i32, direction: Direction, hook_state: HookState) -> Inputs {
    Inputs {
        tick,
        pos: Position { x: 0, y: 0 },
        vel: Velocity { x: 0, y: 0 },
        angle: 0,
        direction,
        hook_state,
        hook_tick: 0,
        hook_pos: Position { x: 0, y: 0 },
        hook_direction: Velocity { x: 0, y: 0 },
        health: 10,
        armor: 0,
        ammo_count: 0,
        weapon: ActiveWeapon::Hammer,
        emote: Emote::Normal,
        attack_tick: 0,
        freeze_end: 0,
        jumps: 2,
        tele_checkpoint: 0,
        strong_weak_id: 0,
        jumped_total: 0,
        ninja_activation_tick: 0,
        target: Position { x: 0, y: 0 },
    }
}

fn seen(name: &str, tick: i32, direction: Direction, hook_state: HookState) -> PlayerObservation {
    PlayerObservation { name: name.to_string(), state: state(tick, direction, hook_state) }
}

fn snapshot(players: Vec<PlayerObservation>) -> Snapshot {
    Snapshot { players }
}

fn rates(
    direction: (u64, u64, u64, usize),
    hook: (u64, u64, u64, usize),
) -> CombinedStats {
    CombinedStats {
        direction_change_rate_average: Rate { micros: direction.0 },
        direction_change_rate_median: Rate { micros: direction.1 },
        direction_change_rate_max: Rate { micros: direction.2 },
        hook_state_change_rate_average: Rate { micros: hook.0 },
        hook_state_change_rate_median: Rate { micros: hook.1 },
        hook_state_change_rate_max: Rate { micros: hook.2 },
        direction_changes: direction.3,
        hook_changes: hook.3,
        overall_changes: direction.3 + hook.3,
    }
}

fn names_of(map: &ResultMap) -> Vec<String> {
    (0..map.len()).map(|i| map.name(i).clone()).collect()
}

/// One player whose direction changes at ticks 0, 10, 10 (a repeated tick)
/// and 35 relative to a first state at tick -5.
fn zigzag(name: &str) -> Vec<Snapshot> {
    vec![
        snapshot(vec![seen(name, -5, Direction::Neutral, HookState::Idle)]),
        snapshot(vec![seen(name, 0, Direction::Left, HookState::Idle)]),
        snapshot(vec![seen(name, 10, Direction::Right, HookState::Idle)]),
        snapshot(vec![seen(name, 10, Direction::Left, HookState::Idle)]),
        snapshot(vec![seen(name, 20, Direction::Left, HookState::Idle)]),
        snapshot(vec![seen(name, 35, Direction::Neutral, HookState::Idle)]),
    ]
}

#[test]
fn hook_is_pressed_only_when_flying_or_grabbed() {
    assert!(!hook_pressed(HookState::Retracted));
    assert!(!hook_pressed(HookState::Idle));
    assert!(!hook_pressed(HookState::RetractStart));
    assert!(!hook_pressed(HookState::Retracting));
    assert!(!hook_pressed(HookState::RetractEnd));
    assert!(hook_pressed(HookState::Flying));
    assert!(hook_pressed(HookState::Grabbed));
}

#[test]
fn projection_takes_direction_and_hook_engagement() {
    assert_eq!(
        project(&state(3, Direction::Left, HookState::Grabbed)),
        Signals { direction: Direction::Left, hook: true }
    );
    assert_eq!(
        project(&state(3, Direction::Right, HookState::Retracting)),
        Signals { direction: Direction::Right, hook: false }
    );
}

#[test]
fn first_observation_records_no_event() {
    let mut detector = ChangeDetector::new();
    detector.observe("ann", 5, Direction::Left, true);
    let results = detector.finish();
    assert_eq!(results.len(), 1);
    assert_eq!(results.get("ann"), Some(&rates((0, 0, 0, 0), (0, 0, 0, 0))));
}

#[test]
fn detector_records_each_signal_on_its_own() {
    let mut detector = ChangeDetector::new();
    detector.observe("ann", 0, Direction::Neutral, false);
    detector.observe("ann", 50, Direction::Left, false);
    detector.observe("ann", 60, Direction::Left, true);
    detector.observe("ann", 100, Direction::Right, false);
    detector.observe("ann", 110, Direction::Right, false);
    let results = detector.finish();
    // direction changes at 50 and 100: one gap of 50 ticks, rate 1.0
    // hook changes at 60 and 100: one gap of 40 ticks, rate 1.25
    assert_eq!(
        results.get("ann"),
        Some(&rates((1_000_000, 1_000_000, 1_000_000, 2), (1_250_000, 1_250_000, 1_250_000, 2)))
    );
}

#[test]
fn detector_keeps_players_apart() {
    let mut detector = ChangeDetector::new();
    detector.observe("ann", 0, Direction::Left, false);
    detector.observe("bob", 0, Direction::Right, false);
    detector.observe("ann", 1, Direction::Left, false);
    detector.observe("bob", 1, Direction::Left, false);
    let results = detector.finish();
    assert_eq!(results.len(), 2);
    assert_eq!(results.get("ann").unwrap().direction_changes, 0);
    assert_eq!(results.get("bob").unwrap().direction_changes, 1);
    assert_eq!(results.get("cid"), None);
}

#[test]
fn direction_events_with_a_repeated_tick() {
    let results = analyze_snapshots(&zigzag("ann"), "");
    assert_eq!(results.len(), 1);
    assert_eq!(
        results.get("ann"),
        Some(&rates((3_500_000, 3_500_000, 5_000_000, 4), (0, 0, 0, 0)))
    );
}

#[test]
fn one_direction_change_and_three_hook_changes() {
    let stream = vec![
        snapshot(vec![seen("ann", 0, Direction::Neutral, HookState::Idle)]),
        snapshot(vec![seen("ann", 10, Direction::Neutral, HookState::Flying)]),
        snapshot(vec![seen("ann", 20, Direction::Left, HookState::Grabbed)]),
        snapshot(vec![seen("ann", 30, Direction::Left, HookState::Retracted)]),
        snapshot(vec![seen("ann", 80, Direction::Left, HookState::Flying)]),
    ];
    let results = analyze_snapshots(&stream, "");
    let ann = results.get("ann").unwrap();
    assert_eq!(
        *ann,
        rates((0, 0, 0, 1), (1_750_000, 1_750_000, 2_500_000, 3))
    );
    assert_eq!(ann.overall_changes, 4);
}

#[test]
fn players_without_changes_are_kept() {
    let stream = vec![
        snapshot(vec![
            seen("ann", 0, Direction::Left, HookState::Idle),
            seen("bob", 0, Direction::Left, HookState::Idle),
        ]),
        snapshot(vec![
            seen("ann", 1, Direction::Left, HookState::Idle),
            seen("bob", 1, Direction::Left, HookState::Flying),
        ]),
    ];
    let results = analyze_snapshots(&stream, "");
    assert_eq!(names_of(&results), vec!["ann".to_string(), "bob".to_string()]);
    assert_eq!(results.get("ann"), Some(&rates((0, 0, 0, 0), (0, 0, 0, 0))));
    assert_eq!(results.get("bob"), Some(&rates((0, 0, 0, 0), (0, 0, 0, 1))));
}

#[test]
fn empty_stream_gives_empty_result() {
    assert_eq!(analyze_snapshots(&vec![], "").len(), 0);
    assert_eq!(analyze_snapshots(&vec![snapshot(vec![])], "x").len(), 0);
}

#[test]
fn filter_selects_by_case_insensitive_part_of_name() {
    let stream = vec![snapshot(vec![
        seen("Alice", 0, Direction::Left, HookState::Idle),
        seen("bob", 0, Direction::Left, HookState::Idle),
        seen("MALICE", 0, Direction::Left, HookState::Idle),
    ])];
    let results = analyze_snapshots(&stream, "aLiC");
    assert_eq!(names_of(&results), vec!["Alice".to_string(), "MALICE".to_string()]);
    let none = analyze_snapshots(&stream, "carol");
    assert_eq!(none.len(), 0);
}

#[test]
fn name_matching_folds_the_case_of_both_sides() {
    assert!(name_matches("alice", "ALI"));
    assert!(name_matches("ALICE", "ali"));
    assert!(name_matches("Alice", "lIc"));
    assert!(name_matches("alice", ""));
    assert!(name_matches("", ""));
    assert!(!name_matches("alice", "bob"));
    assert!(!name_matches("ali", "alice"));
    assert!(!name_matches("", "a"));
    assert!(name_matches("\u{c4}rger", "\u{e4}R"));
    assert!(name_matches("stra\u{df}e", "A\u{df}"));
}

#[test]
fn prepared_filter_decides_like_name_matches() {
    let filter = NameFilter::new("Tee");
    assert!(filter.admits("nameless tee"));
    assert!(filter.admits("TEE"));
    assert!(!filter.admits("te e"));
    let all = NameFilter::new("");
    assert!(all.admits("Anything"));
    assert!(all.admits(""));
}

#[test]
fn folded_name_holds_a_folded_filter_that_occurs_in_it() {
    assert!(folded_name_holds("a tee", "tee"));
    assert!(folded_name_holds("a tee", ""));
    assert!(folded_name_holds("tee", "tee"));
    assert!(!folded_name_holds("a tee", "TEE"));
    assert!(!folded_name_holds("te", "tee"));
    assert!(!folded_name_holds("t e e", "tee"));
}

#[test]
fn series_hold_the_states_of_each_player_in_stream_order() {
    let stream = vec![
        snapshot(vec![
            seen("ann", 0, Direction::Left, HookState::Idle),
            seen("bob", 0, Direction::Right, HookState::Idle),
        ]),
        snapshot(vec![seen("bob", 1, Direction::Left, HookState::Flying)]),
        snapshot(vec![
            seen("cid", 2, Direction::Neutral, HookState::Idle),
            seen("ann", 2, Direction::Right, HookState::Grabbed),
        ]),
    ];
    let series = extract_snapshots(&stream, "");
    assert_eq!(series.len(), 3);
    assert_eq!(series.name(0), "ann");
    assert_eq!(series.name(1), "bob");
    assert_eq!(series.name(2), "cid");
    assert_eq!(
        series.get("ann"),
        Some(&vec![
            state(0, Direction::Left, HookState::Idle),
            state(2, Direction::Right, HookState::Grabbed),
        ])
    );
    assert_eq!(
        series.get("bob"),
        Some(&vec![
            state(0, Direction::Right, HookState::Idle),
            state(1, Direction::Left, HookState::Flying),
        ])
    );
    assert_eq!(series.get("cid"), Some(&vec![state(2, Direction::Neutral, HookState::Idle)]));
    let only_b = extract_snapshots(&stream, "B");
    assert_eq!(only_b.len(), 1);
    assert_eq!(only_b.get("bob").map(|s| s.len()), Some(2));
    assert_eq!(only_b.get("ann"), None);
}

#[test]
fn failed_source_is_an_error_for_a_single_analysis() {
    assert_eq!(analyze(&Source::Failed, "").err(), Some(AnalysisError::SourceFailed));
    assert_eq!(extract_series(&Source::Failed, "").err(), Some(AnalysisError::SourceFailed));
}

#[test]
fn decoded_source_is_analysed() {
    let results = analyze(&Source::Decoded(zigzag("ann")), "").ok().unwrap();
    assert_eq!(
        results.get("ann"),
        Some(&rates((3_500_000, 3_500_000, 5_000_000, 4), (0, 0, 0, 0)))
    );
    let series = extract_series(&Source::Decoded(zigzag("ann")), "").ok().unwrap();
    assert_eq!(series.get("ann").map(|s| s.len()), Some(6));
}

#[test]
fn later_source_replaces_the_entry_of_an_earlier_one() {
    let first = zigzag("ann");
    let second = vec![
        snapshot(vec![seen("ann", 0, Direction::Left, HookState::Idle)]),
        snapshot(vec![seen("ann", 50, Direction::Right, HookState::Idle)]),
        snapshot(vec![seen("ann", 100, Direction::Left, HookState::Idle)]),
    ];
    let alone = analyze_snapshots(&second, "");
    let merged = analyze_many(&vec![Source::Decoded(first), Source::Decoded(second)]);
    assert_eq!(merged.len(), 1);
    assert_eq!(merged.get("ann"), alone.get("ann"));
    assert_eq!(
        merged.get("ann"),
        Some(&rates((1_000_000, 1_000_000, 1_000_000, 2), (0, 0, 0, 0)))
    );
}

#[test]
fn failed_source_adds_no_entries_and_leaves_the_others() {
    let merged = analyze_many(&vec![
        Source::Decoded(zigzag("ann")),
        Source::Failed,
        Source::Decoded(zigzag("bob")),
    ]);
    assert_eq!(names_of(&merged), vec!["ann".to_string(), "bob".to_string()]);
    let expected = rates((3_500_000, 3_500_000, 5_000_000, 4), (0, 0, 0, 0));
    assert_eq!(merged.get("ann"), Some(&expected));
    assert_eq!(merged.get("bob"), Some(&expected));
    assert_eq!(analyze_many(&vec![Source::Failed]).len(), 0);
    assert_eq!(analyze_many(&vec![]).len(), 0);
}

#[test]
fn merging_twice_gives_identical_results() {
    let sources = vec![
        Source::Decoded(zigzag("bob")),
        Source::Decoded(zigzag("ann")),
        Source::Failed,
        Source::Decoded(vec![snapshot(vec![
            seen("bob", 0, Direction::Left, HookState::Idle),
            seen("cid", 0, Direction::Left, HookState::Idle),
        ])]),
    ];
    let first = analyze_many(&sources);
    let second = analyze_many(&sources);
    assert_eq!(names_of(&first), vec!["bob".to_string(), "ann".to_string(), "cid".to_string()]);
    assert_eq!(names_of(&first), names_of(&second));
    for i in 0..first.len() {
        assert_eq!(first.value(i), second.value(i));
    }
    assert_eq!(first.get("bob"), Some(&rates((0, 0, 0, 0), (0, 0, 0, 0))));
}

#[test]
fn analyze_many_includes_every_player() {
    let merged = analyze_many(&vec![Source::Decoded(vec![snapshot(vec![
        seen("UPPER", 0, Direction::Left, HookState::Idle),
        seen("lower", 0, Direction::Left, HookState::Idle),
        seen("", 0, Direction::Left, HookState::Idle),
    ])])]);
    assert_eq!(merged.len(), 3);
}

#[test]
fn merge_results_keeps_first_place_and_last_value() {
    let mut first: ResultMap = PlayerMap::new();
    first.insert("ann".to_string(), rates((1, 1, 1, 2), (0, 0, 0, 0)));
    first.insert("bob".to_string(), rates((2, 2, 2, 2), (0, 0, 0, 0)));
    let mut second: ResultMap = PlayerMap::new();
    second.insert("cid".to_string(), rates((3, 3, 3, 2), (0, 0, 0, 0)));
    second.insert("ann".to_string(), rates((4, 4, 4, 2), (0, 0, 0, 0)));
    let merged = merge_results(&vec![first, second]);
    assert_eq!(
        names_of(&merged),
        vec!["ann".to_string(), "bob".to_string(), "cid".to_string()]
    );
    assert_eq!(merged.get("ann"), Some(&rates((4, 4, 4, 2), (0, 0, 0, 0))));
    assert_eq!(merged.get("bob"), Some(&rates((2, 2, 2, 2), (0, 0, 0, 0))));
    assert_eq!(merged.get("cid"), Some(&rates((3, 3, 3, 2), (0, 0, 0, 0))));
}

#[test]
fn player_map_insert_overwrites_and_find_locates() {
    let mut map: PlayerMap<u32> = PlayerMap::new();
    assert_eq!(map.len(), 0);
    map.insert("a".to_string(), 1);
    map.insert("b".to_string(), 2);
    map.insert("a".to_string(), 3);
    assert_eq!(map.len(), 2);
    assert_eq!(map.find("a"), Some(0));
    assert_eq!(map.find("b"), Some(1));
    assert_eq!(map.find("A"), None);
    assert_eq!(map.get("a"), Some(&3));
    assert_eq!(*map.value(1), 2);
    *map.value_mut(1) += 5;
    assert_eq!(map.get("b"), Some(&7));
    map.append("c".to_string(), 9);
    assert_eq!(map.name(2), "c");
}
