use creature_life_cycle::badges::crowded_cells;
use creature_life_cycle::chart::{history_peak, nice_axis, x_ticks, y_ticks};
use creature_life_cycle::session::{
    exclusive_play_and_edit, parse_seed, play_label, readout_text, seed_status, status_text,
    CellEdit, DEFAULT_SEED, EditAction, EditMode, EditTool, History, HistoryEvent,
    HistoryPoint, Simulation, Stats, EDIT_UNDO_LIMIT, HISTORY_LIMIT,
};
use creature_life_cycle::{
    build_board, Chance, Coordinates, CreatureSnapshot, CreatureSnapshotKind, Odds, Random,
};
use rand::Rng;

/// The default odds of a run, or none at all.
#[derive(Clone, Copy)]
struct TestOdds {
    probabilities: [f64; 9],
}

impl TestOdds {
    fn defaults() -> Self {
        TestOdds {
            probabilities: [0.7, 0.2, 0.1, 0.4, 0.7, 0.2, 0.4, 0.2, 0.1],
        }
    }

    fn never() -> Self {
        TestOdds {
            probabilities: [0.0; 9],
        }
    }
}

impl Odds for TestOdds {
    fn succeeds(&self, random: &mut Random, chance: Chance) -> bool {
        let p = &self.probabilities;
        let probability = match chance {
            Chance::AphidMove => p[0],
            Chance::AphidKill { accomplices } => (p[1] + accomplices as f64 * p[2]).min(1.0),
            Chance::AphidProcreate => p[3],
            Chance::LadybugMove => p[4],
            Chance::LadybugKill => p[5],
            Chance::LadybugDirection => p[6],
            Chance::LadybugProcreate => p[7],
            Chance::FoodRegeneration => p[8],
        };
        random.rng.random::<f64>() < probability
    }
}

type Run = Simulation<(f64, f64)>;

/// A 4 by 4 run with no creatures, twelve turns in.
fn world_mid_run() -> Run {
    let mut random = Random::with_seed(7);
    let board = build_board(4, 4, &[], &[], &mut random).unwrap().board;
    let mut history = History::new();
    for turn in 0..12 {
        history.record(turn, 5, 5);
    }
    Simulation {
        board,
        random,
        stats: Stats {
            turn: 12,
            births: 3,
            deaths: 2,
            ..Stats::default()
        },
        history,
        playing: true,
        edits: Vec::new(),
        revision: 0,
    }
}

fn edit(run: &mut Run, row: usize, col: usize, tool: EditTool, action: EditAction) -> bool {
    run.edit(CellEdit {
        row,
        col,
        tool,
        action,
    })
}

/// What a reset rebuilds: the starting board from `seed`.
fn reset(run: &mut Run, mode: &mut EditMode, seed: u64) {
    let mut random = Random::with_seed(seed);
    let board = build_board(4, 4, &[], &[], &mut random).unwrap().board;
    run.restart_with(board, random);
    mode.enabled = false;
}

fn food_layout(run: &Run) -> Vec<i32> {
    let mut food = Vec::new();
    for row in 0..run.board.rows() {
        for col in 0..run.board.cols() {
            food.push(run.board.cell_snapshot(row, col).unwrap().food);
        }
    }
    food
}

fn history_drops_the_oldest_turn_past_the_limit() {
    let mut history: History<(f64, f64)> = History::new();
    for turn in 0..HISTORY_LIMIT + 5 {
        history.record(turn, turn, 0);
    }
    assert_eq!(history.0.len(), HISTORY_LIMIT);
    assert_eq!(history.0.first().map(|point| point.turn), Some(5));
    assert_eq!(
        history.0.last().map(|point| point.turn),
        Some(HISTORY_LIMIT + 4)
    );
}

#[test]
fn gui_history_drops_the_oldest_turn_past_the_limit() {
    history_drops_the_oldest_turn_past_the_limit();
}

#[test]
fn tests_history_drops_the_oldest_turn_past_the_limit() {
    history_drops_the_oldest_turn_past_the_limit();
}

fn axis_uses_clean_steps_and_at_most_four_intervals() {
    for max in [0, 1, 4, 6, 9, 45, 100, 101, 999, 12_345] {
        let (top, step) = nice_axis(max);
        assert!(top >= max, "max {max}: top {top}");
        assert_eq!(top % step, 0, "max {max}: top {top} step {step}");
        assert!(top / step <= 4, "max {max}: top {top} step {step}");
        let magnitude = 10usize.pow(step.ilog10());
        assert!([1, 2, 5].contains(&(step / magnitude)), "step {step}");
    }
    assert_eq!(nice_axis(45), (60, 20));
    assert_eq!(nice_axis(0), (4, 1));
}

#[test]
fn gui_axis_uses_clean_steps_and_at_most_four_intervals() {
    axis_uses_clean_steps_and_at_most_four_intervals();
}

#[test]
fn tests_axis_uses_clean_steps_and_at_most_four_intervals() {
    axis_uses_clean_steps_and_at_most_four_intervals();
}

fn chart_events_follow_rolling_history_and_edit_undo() {
    let mut history: History<(f64, f64)> = History::new();
    for turn in 0..HISTORY_LIMIT + 5 {
        history.record(turn, 1, 1);
        if turn == 0 || turn == HISTORY_LIMIT {
            history.event(turn).extinctions[0] = true;
        }
    }
    assert_eq!(history.1.len(), 1);
    assert_eq!(history.1[0].turn, HISTORY_LIMIT);
    let mut run = world_mid_run();
    let mut mode = EditMode {
        enabled: false,
        tool: EditTool::Aphid,
    };
    run.history.event(11).changes[0] = Some((0.7, 0.8));
    edit(&mut run, 0, 0, EditTool::Aphid, EditAction::Add);
    assert!(run.history.1.is_empty());
    run.undo_edit(&mut mode);
    assert_eq!(run.history.1[0].turn, 11);
    assert_eq!(run.history.1[0].changes[0], Some((0.7, 0.8)));
}

#[test]
fn gui_chart_events_follow_rolling_history_and_edit_undo() {
    chart_events_follow_rolling_history_and_edit_undo();
}

#[test]
fn tests_chart_events_follow_rolling_history_and_edit_undo() {
    chart_events_follow_rolling_history_and_edit_undo();
}

fn chart_records_each_species_extinction_once() {
    let mut run = world_mid_run();
    edit(&mut run, 0, 0, EditTool::Aphid, EditAction::Add);
    edit(&mut run, 3, 3, EditTool::Ladybug, EditAction::Add);
    let odds = TestOdds::never();
    for _ in 0..40 {
        run.step(&odds);
    }
    for species in 0..2 {
        let events: Vec<&HistoryEvent<(f64, f64)>> = run
            .history
            .1
            .iter()
            .filter(|event| event.extinctions[species])
            .collect();
        assert_eq!(events.len(), 1);
        let point: &HistoryPoint = run
            .history
            .0
            .iter()
            .find(|point| point.turn == events[0].turn)
            .unwrap();
        assert_eq!(point.series(species), 0);
    }
}

#[test]
fn gui_chart_records_each_species_extinction_once() {
    chart_records_each_species_extinction_once();
}

#[test]
fn tests_chart_records_each_species_extinction_once() {
    chart_records_each_species_extinction_once();
}

fn an_edit_restarts_the_run_from_the_edited_board() {
    let mut run = world_mid_run();
    assert!(edit(&mut run, 1, 2, EditTool::Ladybug, EditAction::Add));
    assert!(edit(&mut run, 1, 2, EditTool::Aphid, EditAction::Add));

    let cell = run.board.cell_snapshot(1, 2).unwrap();
    assert_eq!((cell.aphids, cell.ladybugs), (1, 1));

    let stats = run.stats;
    assert_eq!((stats.turn, stats.births, stats.deaths), (0, 0, 0));
    assert_eq!((stats.aphids, stats.ladybugs), (1, 1));
    assert!(!stats.extinct);
    assert!(!run.playing, "editing pauses the run");

    let history = &run.history.0;
    assert_eq!(history.len(), 1, "history starts over");
    assert_eq!(
        history.first().map(|p| (p.turn, p.aphids, p.ladybugs)),
        Some((0, 1, 1))
    );
    assert_eq!(run.revision, 2, "renderers see each edit");
}

#[test]
fn gui_an_edit_restarts_the_run_from_the_edited_board() {
    an_edit_restarts_the_run_from_the_edited_board();
}

#[test]
fn tests_an_edit_restarts_the_run_from_the_edited_board() {
    an_edit_restarts_the_run_from_the_edited_board();
}

fn removing_takes_one_creature_of_the_selected_kind_only() {
    let mut run = world_mid_run();
    edit(&mut run, 0, 0, EditTool::Aphid, EditAction::Add);
    edit(&mut run, 0, 0, EditTool::Aphid, EditAction::Add);
    edit(&mut run, 0, 0, EditTool::Ladybug, EditAction::Add);

    assert!(edit(&mut run, 0, 0, EditTool::Aphid, EditAction::Remove));
    let cell = run.board.cell_snapshot(0, 0).unwrap();
    assert_eq!((cell.aphids, cell.ladybugs), (1, 1));
}

#[test]
fn gui_removing_takes_one_creature_of_the_selected_kind_only() {
    removing_takes_one_creature_of_the_selected_kind_only();
}

#[test]
fn tests_removing_takes_one_creature_of_the_selected_kind_only() {
    removing_takes_one_creature_of_the_selected_kind_only();
}

fn a_no_op_edit_leaves_the_run_alone() {
    let mut run = world_mid_run();
    assert!(!edit(&mut run, 3, 3, EditTool::Ladybug, EditAction::Remove));

    assert_eq!(run.stats.turn, 12);
    assert!(run.playing);
    assert_eq!(run.history.0.len(), 12);
    assert_eq!(run.revision, 0);
    assert!(run.edits.is_empty());
}

#[test]
fn gui_a_no_op_edit_leaves_the_run_alone() {
    a_no_op_edit_leaves_the_run_alone();
}

#[test]
fn tests_a_no_op_edit_leaves_the_run_alone() {
    a_no_op_edit_leaves_the_run_alone();
}

fn erase_and_undo_restore_creatures_food_and_history() {
    let mut run = world_mid_run();
    let mut mode = EditMode {
        enabled: false,
        tool: EditTool::Aphid,
    };
    edit(&mut run, 1, 2, EditTool::Aphid, EditAction::Add);
    edit(&mut run, 1, 2, EditTool::Aphid, EditAction::Add);
    edit(&mut run, 1, 2, EditTool::Ladybug, EditAction::Add);
    let before = run.board.cell_snapshot(1, 2).unwrap();
    let creatures = run.board.creature_snapshots();

    assert!(edit(&mut run, 1, 2, EditTool::Erase, EditAction::Add));
    let cleared = run.board.cell_snapshot(1, 2).unwrap();
    assert_eq!((cleared.aphids, cleared.ladybugs), (0, 0));
    assert_eq!(cleared.food, before.food);
    assert!(run.stats.extinct);

    run.undo_edit(&mut mode);
    assert_eq!(run.board.cell_snapshot(1, 2), Some(before));
    assert_eq!(run.board.creature_snapshots(), creatures);
    assert!(!run.playing);
    assert!(mode.enabled);

    for _ in 0..3 {
        run.undo_edit(&mut mode);
    }
    assert_eq!(run.stats.turn, 12);
    assert_eq!(run.history.0.len(), 12);
    assert!(run.edits.is_empty());
    let revision = run.revision;
    run.undo_edit(&mut mode);
    assert_eq!(run.revision, revision, "empty undo is a no-op");
}

#[test]
fn gui_erase_and_undo_restore_creatures_food_and_history() {
    erase_and_undo_restore_creatures_food_and_history();
}

#[test]
fn tests_erase_and_undo_restore_creatures_food_and_history() {
    erase_and_undo_restore_creatures_food_and_history();
}

fn undo_is_bounded_and_cleared_by_step_and_reset() {
    let mut run = world_mid_run();
    let mut mode = EditMode {
        enabled: false,
        tool: EditTool::Aphid,
    };
    let odds = TestOdds::defaults();
    for _ in 0..EDIT_UNDO_LIMIT + 3 {
        edit(&mut run, 1, 1, EditTool::Aphid, EditAction::Add);
    }
    assert_eq!(run.edits.len(), EDIT_UNDO_LIMIT);
    for _ in 0..EDIT_UNDO_LIMIT {
        run.undo_edit(&mut mode);
    }
    assert_eq!(run.board.summary().aphids, 3);
    edit(&mut run, 0, 0, EditTool::Aphid, EditAction::Add);
    run.step_once(&odds);
    assert!(run.edits.is_empty());
    edit(&mut run, 0, 0, EditTool::Aphid, EditAction::Add);
    reset(&mut run, &mut mode, DEFAULT_SEED);
    assert!(run.edits.is_empty());
}

#[test]
fn gui_undo_is_bounded_and_cleared_by_step_and_reset() {
    undo_is_bounded_and_cleared_by_step_and_reset();
}

#[test]
fn tests_undo_is_bounded_and_cleared_by_step_and_reset() {
    undo_is_bounded_and_cleared_by_step_and_reset();
}

fn population_deltas_match_the_last_turn_and_reset_after_edits() {
    let mut run = world_mid_run();
    let odds = TestOdds::defaults();
    edit(&mut run, 1, 1, EditTool::Aphid, EditAction::Add);
    let before = run.board.summary();
    run.step_once(&odds);
    let after = run.board.summary();
    assert_eq!(
        run.stats.deltas,
        [
            after.aphids as i64 - before.aphids as i64,
            after.ladybugs as i64 - before.ladybugs as i64,
            i64::from(after.food) - i64::from(before.food),
        ]
    );
    edit(&mut run, 2, 2, EditTool::Ladybug, EditAction::Add);
    assert_eq!(run.stats.deltas, [0; 3]);
}

#[test]
fn gui_population_deltas_match_the_last_turn_and_reset_after_edits() {
    population_deltas_match_the_last_turn_and_reset_after_edits();
}

#[test]
fn tests_population_deltas_match_the_last_turn_and_reset_after_edits() {
    population_deltas_match_the_last_turn_and_reset_after_edits();
}

fn a_typed_seed_is_normalised_and_restarts_the_run_from_itself() {
    let mut run = world_mid_run();
    let mut mode = EditMode {
        enabled: false,
        tool: EditTool::Aphid,
    };
    let seed = parse_seed(" 007 ");
    assert_eq!(seed, Some(7));
    assert_eq!(seed_status(seed), "Restarted from seed 7.");

    reset(&mut run, &mut mode, seed.unwrap());
    let from_seven = food_layout(&run);
    assert_eq!(run.stats.turn, 0);

    reset(&mut run, &mut mode, 7);
    assert_eq!(food_layout(&run), from_seven);
    let other = parse_seed("12345").unwrap();
    reset(&mut run, &mut mode, other);
    assert_ne!(food_layout(&run), from_seven);
}

#[test]
fn gui_a_typed_seed_is_normalised_and_restarts_the_run_from_itself() {
    a_typed_seed_is_normalised_and_restarts_the_run_from_itself();
}

#[test]
fn tests_a_typed_seed_is_normalised_and_restarts_the_run_from_itself() {
    a_typed_seed_is_normalised_and_restarts_the_run_from_itself();
}

fn an_unreadable_seed_is_reported_and_leaves_the_run_alone() {
    let seed = parse_seed("");
    assert_eq!(seed, None);
    assert_eq!(
        seed_status(seed),
        "Enter a whole seed from 0 to 18446744073709551615."
    );
}

#[test]
fn gui_an_unreadable_seed_is_reported_and_leaves_the_run_alone() {
    an_unreadable_seed_is_reported_and_leaves_the_run_alone();
}

#[test]
fn tests_an_unreadable_seed_is_reported_and_leaves_the_run_alone() {
    an_unreadable_seed_is_reported_and_leaves_the_run_alone();
}

#[test]
fn seeds_outside_the_range_or_with_signs_are_refused() {
    assert_eq!(parse_seed("18446744073709551615"), Some(u64::MAX));
    assert_eq!(parse_seed("18446744073709551616"), None);
    assert_eq!(parse_seed("-1"), None);
    assert_eq!(parse_seed("+12"), Some(12));
    assert_eq!(parse_seed("1 2"), None);
    assert_eq!(parse_seed("\t42\n"), Some(42));
}

#[test]
fn event_captions_count_rules_and_name_extinctions() {
    let mut event = HistoryEvent::<(f64, f64)> {
        turn: 4,
        changes: [None; 9],
        extinctions: [false; 2],
    };
    assert_eq!(event.caption(), "");
    assert!(!event.has_rules());
    event.changes[3] = Some((0.1, 0.2));
    assert!(event.has_rules());
    assert_eq!(event.caption(), "1 rule changed after this turn");
    event.changes[8] = Some((0.5, 0.6));
    event.extinctions = [true, true];
    assert_eq!(
        event.caption(),
        "2 rules changed after this turn\naphids became extinct\nladybugs became extinct"
    );
    event.changes = [None; 9];
    event.extinctions = [false, true];
    assert_eq!(event.caption(), "ladybugs became extinct");
}

#[test]
fn the_history_peak_is_the_highest_population() {
    let mut history: History<(f64, f64)> = History::new();
    assert_eq!(history_peak(&history), 0);
    history.record(0, 3, 8);
    history.record(1, 11, 2);
    history.record(2, 4, 4);
    assert_eq!(history_peak(&history), 11);
}

#[test]
fn playing_toggles_until_the_run_dies_out() {
    let mut run = world_mid_run();
    run.toggle_play();
    assert!(!run.playing);
    run.toggle_play();
    assert!(run.playing);
    run.stats.extinct = true;
    run.toggle_play();
    assert!(run.playing);

    let mut mode = EditMode {
        enabled: false,
        tool: EditTool::Ladybug,
    };
    mode.select(EditTool::Erase);
    assert_eq!(
        mode,
        EditMode {
            enabled: true,
            tool: EditTool::Erase
        }
    );
    run.finish_editing(&mut mode);
    assert!(!mode.enabled && !run.playing);
    assert_eq!(mode.tool, EditTool::Erase);
}

#[test]
fn undo_restores_the_generator_so_turns_repeat() {
    let mut run = world_mid_run();
    let mut mode = EditMode {
        enabled: false,
        tool: EditTool::Aphid,
    };
    let odds = TestOdds::defaults();
    edit(&mut run, 1, 1, EditTool::Ladybug, EditAction::Add);
    edit(&mut run, 1, 1, EditTool::Aphid, EditAction::Add);
    let mut expected_board = run.board.duplicate();
    let mut expected_random = run.random.duplicate();
    edit(&mut run, 2, 2, EditTool::Ladybug, EditAction::Add);
    assert!(run.undo_edit(&mut mode));
    for _ in 0..8 {
        let expected = expected_board.refresh(&mut expected_random, &odds);
        run.step(&odds);
        assert_eq!(run.board.summary(), expected.summary);
        assert_eq!(
            run.board.creature_snapshots(),
            expected_board.creature_snapshots()
        );
    }
}

fn snapshot(id: usize, row: usize, col: usize, kind: CreatureSnapshotKind) -> CreatureSnapshot {
    CreatureSnapshot {
        id,
        kind,
        location: Coordinates { x: row, y: col },
        cell_slot: 0,
    }
}

fn badges_mark_only_cells_holding_more_than_one_of_a_kind() {
    let snapshots = [
        snapshot(0, 1, 1, CreatureSnapshotKind::Aphid),
        snapshot(1, 1, 1, CreatureSnapshotKind::Aphid),
        snapshot(2, 1, 1, CreatureSnapshotKind::Aphid),
        snapshot(3, 1, 1, CreatureSnapshotKind::Ladybug),
        snapshot(4, 1, 1, CreatureSnapshotKind::Ladybug),
        snapshot(5, 2, 2, CreatureSnapshotKind::Aphid),
        snapshot(6, 2, 2, CreatureSnapshotKind::Ladybug),
        snapshot(7, 0, 3, CreatureSnapshotKind::Aphid),
    ];
    assert_eq!(
        crowded_cells(&snapshots),
        vec![
            (Coordinates { x: 1, y: 1 }, 0, 3),
            (Coordinates { x: 1, y: 1 }, 1, 2),
        ]
    );
    assert!(crowded_cells(&[]).is_empty());
}

#[test]
fn gui_badges_mark_only_cells_holding_more_than_one_of_a_kind() {
    badges_mark_only_cells_holding_more_than_one_of_a_kind();
}

#[test]
fn tests_badges_mark_only_cells_holding_more_than_one_of_a_kind() {
    badges_mark_only_cells_holding_more_than_one_of_a_kind();
}

#[test]
fn crowded_cells_come_in_row_column_kind_order() {
    let snapshots = [
        snapshot(0, 3, 0, CreatureSnapshotKind::Ladybug),
        snapshot(1, 0, 5, CreatureSnapshotKind::Aphid),
        snapshot(2, 3, 0, CreatureSnapshotKind::Ladybug),
        snapshot(3, 0, 5, CreatureSnapshotKind::Aphid),
        snapshot(4, 0, 2, CreatureSnapshotKind::Ladybug),
        snapshot(5, 0, 2, CreatureSnapshotKind::Ladybug),
        snapshot(6, 0, 2, CreatureSnapshotKind::Ladybug),
        snapshot(7, 3, 0, CreatureSnapshotKind::Aphid),
        snapshot(8, 3, 0, CreatureSnapshotKind::Aphid),
    ];
    assert_eq!(
        crowded_cells(&snapshots),
        vec![
            (Coordinates { x: 0, y: 2 }, 1, 3),
            (Coordinates { x: 0, y: 5 }, 0, 2),
            (Coordinates { x: 3, y: 0 }, 0, 2),
            (Coordinates { x: 3, y: 0 }, 1, 2),
        ]
    );
}

fn editing_and_playing_exclude_each_other() {
    let mut playing = true;
    let mut mode = EditMode {
        enabled: false,
        tool: EditTool::Aphid,
    };
    exclusive_play_and_edit(&mut playing, &mut mode, true, true);
    assert!(playing, "nothing to do at startup");

    // Starting to edit pauses the run...
    mode.select(EditTool::Ladybug);
    exclusive_play_and_edit(&mut playing, &mut mode, true, false);
    assert!(!playing);
    assert!(mode.enabled);

    // ...and pressing play ends editing, keeping the chosen tool.
    playing = true;
    exclusive_play_and_edit(&mut playing, &mut mode, false, true);
    assert!(playing);
    assert!(!mode.enabled);
    assert_eq!(mode.tool, EditTool::Ladybug);
}

#[test]
fn gui_editing_and_playing_exclude_each_other() {
    editing_and_playing_exclude_each_other();
}

#[test]
fn tests_editing_and_playing_exclude_each_other() {
    editing_and_playing_exclude_each_other();
}

#[test]
fn status_and_readouts_describe_the_run() {
    let mut stats = Stats {
        turn: 7,
        aphids: 12,
        ladybugs: 3,
        food: 410,
        births: 2,
        deaths: 5,
        extinct: false,
        deltas: [2, -1, 0],
    };
    assert_eq!(status_text(false, stats, true), "Running  \u{b7}  Turn 7");
    assert_eq!(status_text(false, stats, false), "Paused  \u{b7}  Turn 7");
    assert_eq!(status_text(true, stats, true), "Editing (paused)  \u{b7}  Turn 7");
    assert_eq!(play_label(stats, true), "Pause");
    assert_eq!(play_label(stats, false), "Play");
    let texts: Vec<String> = (0..9).map(|index| readout_text(index, stats, 99)).collect();
    assert_eq!(
        texts,
        [
            "12",
            "3",
            "410",
            "+2",
            "\u{2212}5",
            "99",
            "+2\nthis turn",
            "-1\nthis turn",
            "+0\nthis turn",
        ]
    );
    stats.extinct = true;
    assert_eq!(status_text(false, stats, true), "Extinct  \u{b7}  Turn 7");
    assert_eq!(play_label(stats, true), "Play");
}

#[test]
fn a_playing_run_steps_only_when_its_turn_is_due() {
    let mut run = world_mid_run();
    let odds = TestOdds::defaults();
    assert!(!run.step_when_due(false, &odds));
    assert_eq!(run.stats.turn, 12);
    assert!(run.step_when_due(true, &odds));
    assert_eq!(run.stats.turn, 13);
    run.playing = false;
    assert!(!run.step_when_due(true, &odds));
    assert_eq!(run.stats.turn, 13);
    run.playing = true;
    run.stats.extinct = true;
    assert!(!run.step_when_due(true, &odds));
    assert_eq!(run.stats.turn, 13);
}

#[test]
fn the_axis_step_is_the_finest_clean_step_that_covers_the_peak() {
    let clean: Vec<usize> = [1usize, 10, 100, 1000, 10000]
        .iter()
        .flat_map(|power| [power * 1, power * 2, power * 5])
        .collect();
    for max in 0..3000usize {
        let (_, step) = nice_axis(max);
        let bound = if max < 4 { 4 } else { max };
        for &candidate in &clean {
            if 4 * candidate >= bound {
                assert!(step <= candidate, "max {max}: step {step} against {candidate}");
            }
        }
    }
}

#[test]
fn chart_ticks_mark_each_step_and_the_first_middle_and_last_turn() {
    let (top, step) = nice_axis(45);
    assert_eq!(y_ticks(top, step), vec![0, 20, 40, 60]);
    assert_eq!(y_ticks(4, 1), vec![0, 1, 2, 3, 4]);
    assert_eq!(x_ticks(1), vec![0]);
    assert_eq!(x_ticks(2), vec![0, 1]);
    assert_eq!(x_ticks(3), vec![0, 1, 2]);
    assert_eq!(x_ticks(240), vec![0, 119, 239]);
}
