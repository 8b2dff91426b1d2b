use creature_life_cycle::{
    board_picture, build_board, turn_stats_line, Board, BoardSummary, Chance, Coordinates,
    CreatureKind, CreatureSnapshotKind, Direction, LayoutError, Odds, Random, TurnStats,
};
use rand::Rng;

/// The odds the simulation runs with by default, one probability per chance,
/// decided as the program decides them: a uniform draw below the probability.
#[derive(Clone, Copy, Debug)]
struct TestOdds {
    aphid_move: f64,
    aphid_kill: f64,
    aphid_accomplice: f64,
    aphid_procreate: f64,
    ladybug_move: f64,
    ladybug_kill: f64,
    ladybug_direction: f64,
    ladybug_procreate: f64,
    food_regenerate: f64,
}

impl Default for TestOdds {
    fn default() -> Self {
        TestOdds {
            aphid_move: 0.7,
            aphid_kill: 0.2,
            aphid_accomplice: 0.1,
            aphid_procreate: 0.4,
            ladybug_move: 0.7,
            ladybug_kill: 0.2,
            ladybug_direction: 0.4,
            ladybug_procreate: 0.2,
            food_regenerate: 0.1,
        }
    }
}

impl Odds for TestOdds {
    fn succeeds(&self, random: &mut Random, chance: Chance) -> bool {
        let probability = match chance {
            Chance::AphidMove => self.aphid_move,
            Chance::AphidKill { accomplices } => {
                (self.aphid_kill + accomplices as f64 * self.aphid_accomplice).min(1.0)
            }
            Chance::AphidProcreate => self.aphid_procreate,
            Chance::LadybugDirection => self.ladybug_direction,
            Chance::LadybugMove => self.ladybug_move,
            Chance::LadybugKill => self.ladybug_kill,
            Chance::LadybugProcreate => self.ladybug_procreate,
            Chance::FoodRegeneration => self.food_regenerate,
        };
        random.rng.random::<f64>() < probability
    }
}

fn board_with_field(rows: usize, cols: usize) -> Board {
    Board::with_field(rows, cols, &mut Random::with_seed(1))
}

fn food_at(board: &Board, x: usize, y: usize) -> i32 {
    board.cell_snapshot(x, y).unwrap().food
}

#[test]
fn seeded_random_is_reproducible() {
    let mut first = Random::with_seed(42);
    let mut second = Random::with_seed(42);

    for _ in 0..10 {
        assert_eq!(first.rng.random::<f64>(), second.rng.random::<f64>());
    }
}

#[test]
fn an_invalid_config_draws_nothing_from_the_generator() {
    let mut random = Random::with_seed(1);
    assert!(matches!(
        build_board(0, 2, &[], &[], &mut random),
        Err(LayoutError::EmptyBoard)
    ));

    let after_failure = Board::standard(&mut random);
    let mut reference = Random::with_seed(1);
    let fresh = Board::standard(&mut reference);
    assert_eq!(after_failure.summary(), fresh.summary());
    assert_eq!(random.rng.random::<f64>(), reference.rng.random::<f64>());
}

#[test]
fn creatures_outside_the_board_are_left_out_and_reported() {
    let mut random = Random::with_seed(1);
    let layout = build_board(
        2,
        2,
        &[Coordinates { x: 1, y: 1 }, Coordinates { x: 2, y: 0 }],
        &[Coordinates { x: 0, y: 5 }],
        &mut random,
    )
    .unwrap();

    assert_eq!(layout.board.summary().aphids, 1);
    assert_eq!(layout.board.summary().ladybugs, 0);
    let messages: Vec<String> = layout.skipped.iter().map(|notice| notice.message()).collect();
    assert_eq!(
        messages,
        [
            "Aphid position 2 0 is outside the board; skipping.",
            "Ladybug position 0 5 is outside the board; skipping.",
        ]
    );
}

#[test]
fn remove_creature_at_removes_one_matching_kind() {
    let mut random = Random::with_seed(1);
    let mut board = board_with_field(1, 1);
    board.add_aphid(0, 0, 10).unwrap();
    board.add_aphid(0, 0, 10).unwrap();
    board.add_ladybug(0, 0, 15, &mut random).unwrap();

    assert!(board.remove_aphid_at(0, 0));
    assert_eq!(board.cell_counts(0, 0), Some((1, 1)));
    assert!(board.remove_ladybug_at(0, 0));
    assert_eq!(board.cell_counts(0, 0), Some((1, 0)));
    assert!(!board.remove_ladybug_at(0, 0));
    assert_eq!(board.cell_counts(0, 0), Some((1, 0)));
}

#[test]
fn removed_creatures_are_not_active() {
    let mut random = Random::with_seed(1);
    let mut board = board_with_field(1, 1);
    let aphid = board.add_aphid(0, 0, 10).unwrap();
    let ladybug = board.add_ladybug(0, 0, 15, &mut random).unwrap();

    assert!(board.remove_aphid_at(0, 0));

    let snapshots = board.creature_snapshots();
    assert_eq!(board.active_creatures(), vec![ladybug]);
    assert_eq!(snapshots.len(), 1);
    assert_eq!(snapshots[0].id, ladybug);
    assert_eq!(board.summary().aphids, 0);
    assert_eq!(board.summary().ladybugs, 1);
    assert!(board.creature(aphid).is_none());
}

#[test]
fn cell_slots_follow_swap_removed_occupants() {
    let mut random = Random::with_seed(1);
    let mut board = board_with_field(1, 1);

    let first_aphid = board.add_aphid(0, 0, 10).unwrap();
    let middle_aphid = board.add_aphid(0, 0, 10).unwrap();
    let last_aphid = board.add_aphid(0, 0, 10).unwrap();
    let first_ladybug = board.add_ladybug(0, 0, 15, &mut random).unwrap();
    let middle_ladybug = board.add_ladybug(0, 0, 15, &mut random).unwrap();
    let last_ladybug = board.add_ladybug(0, 0, 15, &mut random).unwrap();

    board.remove_creature(first_aphid);
    board.remove_creature(first_ladybug);

    assert_eq!(
        board.occupants(0, 0, CreatureKind::Aphid).unwrap(),
        vec![last_aphid, middle_aphid]
    );
    assert_eq!(board.cell_slot(last_aphid), Some(0));
    assert_eq!(board.cell_slot(middle_aphid), Some(1));
    assert_eq!(
        board.occupants(0, 0, CreatureKind::Ladybug).unwrap(),
        vec![last_ladybug, middle_ladybug]
    );
    assert_eq!(board.cell_slot(last_ladybug), Some(0));
    assert_eq!(board.cell_slot(middle_ladybug), Some(1));

    board.remove_creature(last_aphid);
    board.remove_creature(last_ladybug);

    assert_eq!(board.occupants(0, 0, CreatureKind::Aphid).unwrap(), vec![middle_aphid]);
    assert_eq!(board.cell_slot(middle_aphid), Some(0));
    assert_eq!(board.occupants(0, 0, CreatureKind::Ladybug).unwrap(), vec![middle_ladybug]);
    assert_eq!(board.cell_slot(middle_ladybug), Some(0));
}

#[test]
fn edge_movement_bounces_back_into_board() {
    let board = board_with_field(3, 3);

    assert_eq!(
        board.direction_to_location(Direction::NorthWest, Coordinates { x: 0, y: 0 }),
        Coordinates { x: 1, y: 1 }
    );
    assert_eq!(
        board.direction_to_location(Direction::SouthEast, Coordinates { x: 2, y: 2 }),
        Coordinates { x: 1, y: 1 }
    );
}

#[test]
fn ladybug_combat_kills_aphid_when_probability_succeeds() {
    let mut board = board_with_field(1, 1);
    let aphid = board.add_aphid(0, 0, 10).unwrap();
    let mut random = Random::with_seed(2);
    let ladybug = board.add_ladybug(0, 0, 15, &mut random).unwrap();
    let odds = TestOdds { ladybug_kill: 1.0, ..TestOdds::default() };

    assert_eq!(board.creature_combat(ladybug, &mut random, &odds), Some(aphid));
    assert!(board.occupants(0, 0, CreatureKind::Aphid).unwrap().is_empty());
}

#[test]
fn lone_aphid_does_not_get_accomplice_bonus() {
    let mut board = board_with_field(1, 1);
    let aphid = board.add_aphid(0, 0, 10).unwrap();
    let mut random = Random::with_seed(2);
    let ladybug = board.add_ladybug(0, 0, 15, &mut random).unwrap();
    let odds = TestOdds { aphid_kill: 0.0, aphid_accomplice: 1.0, ..TestOdds::default() };

    assert_eq!(board.creature_combat(aphid, &mut random, &odds), None);
    assert_eq!(board.occupants(0, 0, CreatureKind::Ladybug).unwrap(), vec![ladybug]);
}

#[test]
fn refresh_resolves_combat_before_procreation() {
    let mut board = board_with_field(1, 1);
    let location = Coordinates { x: 0, y: 0 };
    board.set_cell_food(location, 100);

    board.add_aphid(0, 0, 10).unwrap();
    board.add_aphid(0, 0, 10).unwrap();
    let mut random = Random::with_seed(4);
    board.add_ladybug(0, 0, 15, &mut random).unwrap();

    let odds = TestOdds {
        aphid_move: 0.0,
        aphid_kill: 0.0,
        aphid_accomplice: 0.0,
        aphid_procreate: 1.0,
        ladybug_move: 0.0,
        ladybug_kill: 1.0,
        ladybug_direction: 0.0,
        ladybug_procreate: 0.0,
        ..TestOdds::default()
    };

    let stats = board.refresh(&mut random, &odds);

    assert_eq!(board.cell_counts(0, 0), Some((1, 1)));
    assert_eq!(board.active_creatures().len(), 2);
    assert_eq!(
        stats,
        TurnStats {
            births: 0,
            deaths: 1,
            summary: BoardSummary {
                aphids: 1,
                ladybugs: 1,
                food: 98
            }
        }
    );
}

#[test]
fn aphid_procreation_adds_child_when_probability_succeeds() {
    let mut board = board_with_field(1, 1);
    let mut random = Random::with_seed(3);
    let aphid = board.add_aphid(0, 0, 10).unwrap();
    board.add_aphid(0, 0, 10).unwrap();
    let odds = TestOdds { aphid_procreate: 1.0, ..TestOdds::default() };

    let births = board.creature_procreation(aphid, &mut random, &odds);

    assert_eq!(births, 1);
    assert_eq!(board.issued_ids(), 3);
    assert_eq!(board.occupants(0, 0, CreatureKind::Aphid).unwrap().len(), 3);
}

#[test]
fn starvation_removes_creature_from_location() {
    let mut board = board_with_field(1, 1);
    let location = Coordinates { x: 0, y: 0 };
    board.set_cell_food(location, 0);
    let aphid = board.add_aphid(0, 0, 1).unwrap();

    assert_eq!(board.creature_starvation(aphid), Some(aphid));
    assert!(board.occupants(0, 0, CreatureKind::Aphid).unwrap().is_empty());
}

#[test]
fn starvation_never_reduces_food_below_zero() {
    let mut board = board_with_field(1, 1);
    let location = Coordinates { x: 0, y: 0 };
    board.set_cell_food(location, 0);
    let aphid = board.add_aphid(0, 0, 2).unwrap();

    assert_eq!(board.creature_starvation(aphid), None);
    assert_eq!(food_at(&board, 0, 0), 0);
}

#[test]
fn starvation_consumes_last_food_without_life_loss() {
    let mut board = board_with_field(1, 1);
    let location = Coordinates { x: 0, y: 0 };
    board.set_cell_food(location, 1);
    let aphid = board.add_aphid(0, 0, 1).unwrap();

    assert_eq!(board.creature_starvation(aphid), None);
    assert_eq!(food_at(&board, 0, 0), 0);
}

#[test]
fn food_regeneration_restores_food_without_exceeding_cap() {
    let mut board = board_with_field(10, 10);
    for x in 0..board.rows() {
        for y in 0..board.cols() {
            board.set_cell_food(Coordinates { x, y }, 0);
        }
    }
    let odds = TestOdds { food_regenerate: 1.0, ..TestOdds::default() };
    let mut random = Random::with_seed(1);

    let regenerated = board.regenerate_food(&mut random, &odds);

    assert_eq!(regenerated, 100);
    assert_eq!(board.summary().food, 100);
    for x in 0..board.rows() {
        for y in 0..board.cols() {
            let food = food_at(&board, x, y);
            assert!(food == 1 && food <= 9);
        }
    }
}

const DEATH_SNAPSHOT: &str = r#"
 __ __ __ __ __ __ __ __ __ __
 __ _1 __ __ __ __ 1_ __ __ 1_
 __ __ __ __ __ __ __ __ __ 1_
 __ __ __ __ __ 1_ __ __ _1 __
 __ __ __ __ __ __ __ __ 1_ __
 __ __ __ __ __ __ __ __ __ _1
 __ __ __ __ __ __ __ __ __ __
 __ __ __ __ __ __ __ __ __ __
 __ __ __ __ __ __ __ __ __ __
 __ __ _1 __ __ __ __ __ __ __

 __ __ __ __ __ __ __ __ __ __
 __ _1 __ __ __ __ __ __ __ 1_
 __ __ __ __ __ 1_ __ __ __ 1_
 __ __ __ __ __ __ __ __ _1 __
 __ __ __ __ __ __ 1_ __ 1_ __
 __ __ __ __ __ __ __ __ __ __
 __ __ __ __ __ __ __ __ __ __
 __ __ __ __ __ __ __ __ __ __
 __ _1 __ __ __ __ __ __ __ __
 __ __ __ __ __ __ __ __ __ __
Turn: 1 | Aphids: 5 | Ladybugs: 3 | Births: 0 | Deaths: 1 | Food: 425
"#;

/// Runs the standard board the way the program does and collects what it
/// prints: the starting picture, then each turn's picture and summary line.
fn seeded_run(seed: u64, turns: usize) -> String {
    let mut random = Random::with_seed(seed);
    let mut board = Board::standard(&mut random);
    let odds = TestOdds::default();
    let mut output = board_picture(&board);
    let mut turn = 0;
    let mut extinct = false;
    while !extinct && turn < turns {
        let stats = board.refresh(&mut random, &odds);
        extinct = stats.summary.is_extinct();
        output.push_str(&board_picture(&board));
        turn += 1;
        output.push_str(&turn_stats_line(turn, stats));
        output.push('\n');
    }
    output
}

#[test]
fn seeded_run_matches_death_snapshot() {
    assert_eq!(seeded_run(1, 1), DEATH_SNAPSHOT);
}

#[test]
fn seeded_runs_repeat_exactly() {
    assert_eq!(seeded_run(2, 6), seeded_run(2, 6));
}

#[test]
fn starting_food_is_drawn_within_the_cap() {
    let board = board_with_field(10, 10);
    let mut seen = [false; 10];
    for x in 0..board.rows() {
        for y in 0..board.cols() {
            let food = food_at(&board, x, y);
            assert!((0..=9).contains(&food));
            seen[food as usize] = true;
        }
    }
    assert!(seen.iter().filter(|&&was| was).count() > 2);
}

#[test]
fn out_of_bounds_queries_answer_none() {
    let mut random = Random::with_seed(1);
    let mut board = board_with_field(2, 3);
    assert_eq!(board.cell_counts(2, 0), None);
    assert_eq!(board.cell_counts(0, 3), None);
    assert_eq!(board.cell_snapshot(5, 5), None);
    assert_eq!(board.add_aphid(2, 0, 10), None);
    assert_eq!(board.add_ladybug(0, 3, 15, &mut random), None);
    assert!(!board.remove_aphid_at(7, 7));
    assert_eq!(board.occupants(2, 2, CreatureKind::Aphid), None);
    assert_eq!(board.issued_ids(), 0);
}

#[test]
fn snapshots_list_living_creatures_in_id_order() {
    let mut random = Random::with_seed(5);
    let mut board = board_with_field(3, 3);
    let first = board.add_ladybug(1, 1, 15, &mut random).unwrap();
    let second = board.add_aphid(1, 1, 10).unwrap();
    let third = board.add_aphid(2, 0, 10).unwrap();
    board.remove_creature(second);

    let snapshots = board.creature_snapshots();
    assert_eq!(snapshots.len(), 2);
    assert_eq!(snapshots[0].id, first);
    assert_eq!(snapshots[0].kind, CreatureSnapshotKind::Ladybug);
    assert_eq!(snapshots[0].location, Coordinates { x: 1, y: 1 });
    assert_eq!(snapshots[0].cell_slot, 0);
    assert_eq!(snapshots[1].id, third);
    assert_eq!(snapshots[1].kind, CreatureSnapshotKind::Aphid);
    assert_eq!(snapshots[1].location, Coordinates { x: 2, y: 0 });
    assert_eq!(snapshots[1].cell_slot, 0);
}

#[test]
fn summary_counts_creatures_and_food_exactly() {
    let mut random = Random::with_seed(9);
    let mut board = board_with_field(2, 2);
    let mut food = 0;
    for x in 0..2 {
        for y in 0..2 {
            food += food_at(&board, x, y);
        }
    }
    board.add_aphid(0, 0, 10).unwrap();
    board.add_aphid(1, 1, 10).unwrap();
    board.add_ladybug(0, 1, 15, &mut random).unwrap();
    assert_eq!(
        board.summary(),
        BoardSummary {
            aphids: 2,
            ladybugs: 1,
            food
        }
    );
}

#[test]
fn a_starving_ladybug_loses_life_each_turn_without_food() {
    let mut random = Random::with_seed(1);
    let mut board = board_with_field(1, 1);
    board.set_cell_food(Coordinates { x: 0, y: 0 }, 0);
    let ladybug = board.add_ladybug(0, 0, 2, &mut random).unwrap();

    assert_eq!(board.creature_starvation(ladybug), None);
    assert_eq!(board.creature_starvation(ladybug), Some(ladybug));
    assert_eq!(board.cell_counts(0, 0), Some((0, 0)));
}

#[test]
fn extinction_is_final() {
    let mut random = Random::with_seed(3);
    let mut board = board_with_field(2, 2);
    let odds = TestOdds::default();
    let stats = board.refresh(&mut random, &odds);
    assert!(stats.summary.is_extinct());
    for _ in 0..5 {
        let stats = board.refresh(&mut random, &odds);
        assert!(stats.summary.is_extinct());
        assert_eq!((stats.births, stats.deaths), (0, 0));
    }
}

#[test]
fn removing_what_was_added_restores_the_board() {
    let mut random = Random::with_seed(1);
    let mut board = board_with_field(2, 2);
    let before_summary = board.summary();
    let before_picture = board_picture(&board);
    board.add_aphid(1, 0, 10).unwrap();
    assert!(board.remove_aphid_at(1, 0));
    assert_eq!(board.summary(), before_summary);
    assert_eq!(board_picture(&board), before_picture);
    board.add_ladybug(0, 1, 15, &mut random).unwrap();
    assert!(board.remove_ladybug_at(0, 1));
    assert_eq!(board.summary(), before_summary);
}

#[test]
fn newborns_sit_out_the_turn_they_are_born_in() {
    let mut board = board_with_field(1, 1);
    board.set_cell_food(Coordinates { x: 0, y: 0 }, 0);
    board.add_aphid(0, 0, 10).unwrap();
    board.add_aphid(0, 0, 10).unwrap();
    let mut random = Random::with_seed(11);
    let odds = TestOdds {
        aphid_move: 0.0,
        aphid_procreate: 1.0,
        food_regenerate: 0.0,
        ..TestOdds::default()
    };

    let stats = board.refresh(&mut random, &odds);

    assert_eq!(stats.births, 2);
    assert_eq!(board.issued_ids(), 4);
    for id in 2..4 {
        match board.creature(id) {
            Some(creature_life_cycle::creature::Creature::Aphid(aphid)) => assert_eq!(aphid.life, 2),
            other => panic!("creature {id} is {other:?}"),
        }
    }
    for id in 0..2 {
        match board.creature(id) {
            Some(creature_life_cycle::creature::Creature::Aphid(aphid)) => assert_eq!(aphid.life, 9),
            other => panic!("creature {id} is {other:?}"),
        }
    }
}

fn life_of(creature: creature_life_cycle::creature::Creature) -> i32 {
    match creature {
        creature_life_cycle::creature::Creature::Aphid(aphid) => aphid.life,
        creature_life_cycle::creature::Creature::Ladybug(ladybug) => ladybug.life,
    }
}

#[test]
fn a_turn_costs_a_survivor_at_most_one_life_and_a_cell_gains_at_most_one_food() {
    let mut random = Random::with_seed(3);
    let mut board = Board::standard(&mut random);
    let odds = TestOdds {
        food_regenerate: 0.9,
        ..TestOdds::default()
    };
    for _ in 0..25 {
        let ids = board.issued_ids();
        let lives: Vec<Option<i32>> = (0..ids).map(|id| board.creature(id).map(life_of)).collect();
        let food: Vec<i32> = (0..100).map(|cell| food_at(&board, cell / 10, cell % 10)).collect();
        board.refresh(&mut random, &odds);
        for id in 0..ids {
            if let (Some(before), Some(after)) = (lives[id], board.creature(id).map(life_of)) {
                assert!(after == before || after == before - 1, "creature {id}: {before} -> {after}");
            }
        }
        for cell in 0..100 {
            assert!(food_at(&board, cell / 10, cell % 10) <= food[cell] + 1);
        }
    }
}

#[test]
fn every_creature_left_after_a_turn_has_life() {
    let mut random = Random::with_seed(5);
    let mut board = board_with_field(2, 2);
    board.set_cell_food(Coordinates { x: 0, y: 0 }, 9);
    let weak = board.add_aphid(0, 0, 0).unwrap();
    let strong = board.add_aphid(1, 1, 4).unwrap();
    let odds = TestOdds {
        aphid_move: 0.0,
        aphid_procreate: 0.0,
        ..TestOdds::default()
    };

    let stats = board.refresh(&mut random, &odds);

    assert!(board.creature(weak).is_none());
    assert_eq!(stats.deaths, 1);
    assert!(board.creature(strong).map(life_of).unwrap() >= 1);
    for id in 0..board.issued_ids() {
        if let Some(creature) = board.creature(id) {
            assert!(life_of(creature) >= 1);
        }
    }
}

fn location_of(creature: creature_life_cycle::creature::Creature) -> Coordinates {
    match creature {
        creature_life_cycle::creature::Creature::Aphid(aphid) => aphid.location,
        creature_life_cycle::creature::Creature::Ladybug(ladybug) => ladybug.location,
    }
}

#[test]
fn survivors_move_at_most_one_cell_per_turn() {
    let mut random = Random::with_seed(8);
    let mut board = Board::standard(&mut random);
    let odds = TestOdds {
        aphid_move: 1.0,
        ladybug_move: 1.0,
        ..TestOdds::default()
    };
    for _ in 0..20 {
        let ids = board.issued_ids();
        let places: Vec<Option<Coordinates>> = (0..ids).map(|id| board.creature(id).map(location_of)).collect();
        board.refresh(&mut random, &odds);
        for id in 0..ids {
            if let (Some(before), Some(after)) = (places[id], board.creature(id).map(location_of)) {
                assert!(before.x.abs_diff(after.x) <= 1 && before.y.abs_diff(after.y) <= 1);
                assert!(after.x < board.rows() && after.y < board.cols());
            }
        }
    }
}

#[test]
fn settled_combat_kills_the_last_prey_only_when_the_attack_lands() {
    let mut board = board_with_field(1, 1);
    let first = board.add_aphid(0, 0, 10).unwrap();
    let second = board.add_aphid(0, 0, 10).unwrap();
    let mut random = Random::with_seed(2);
    let ladybug = board.add_ladybug(0, 0, 15, &mut random).unwrap();

    assert_eq!(board.settle_combat(ladybug, false), None);
    assert_eq!(board.occupants(0, 0, CreatureKind::Aphid).unwrap(), vec![first, second]);
    assert_eq!(board.settle_combat(ladybug, true), Some(second));
    assert_eq!(board.occupants(0, 0, CreatureKind::Aphid).unwrap(), vec![first]);
}

#[test]
fn settled_combat_without_prey_kills_nothing() {
    let mut board = board_with_field(2, 1);
    let aphid = board.add_aphid(0, 0, 10).unwrap();
    let mut random = Random::with_seed(2);
    board.add_ladybug(1, 0, 15, &mut random).unwrap();

    assert_eq!(board.settle_combat(aphid, true), None);
    assert_eq!(board.cell_counts(0, 0), Some((1, 0)));
    assert_eq!(board.cell_counts(1, 0), Some((0, 1)));
}

#[test]
fn settled_procreation_needs_a_partner_and_a_yes() {
    let mut board = board_with_field(1, 1);
    let mut random = Random::with_seed(3);
    let aphid = board.add_aphid(0, 0, 10).unwrap();

    assert_eq!(board.settle_procreation(aphid, true, &mut random), 0);
    board.add_aphid(0, 0, 10).unwrap();
    assert_eq!(board.settle_procreation(aphid, false, &mut random), 0);
    assert_eq!(board.issued_ids(), 2);
    assert_eq!(board.settle_procreation(aphid, true, &mut random), 1);
    assert_eq!(board.issued_ids(), 3);
    assert_eq!(board.cell_counts(0, 0), Some((3, 0)));
}

#[test]
fn settled_food_regeneration_grows_only_answered_cells_below_the_cap() {
    let mut board = board_with_field(1, 3);
    board.set_cell_food(Coordinates { x: 0, y: 0 }, 0);
    board.set_cell_food(Coordinates { x: 0, y: 1 }, 9);
    board.set_cell_food(Coordinates { x: 0, y: 2 }, 4);

    let regenerated = board.settle_food_regeneration(&[false, true, true]);

    assert_eq!(regenerated, 1);
    assert_eq!(food_at(&board, 0, 0), 0);
    assert_eq!(food_at(&board, 0, 1), 9);
    assert_eq!(food_at(&board, 0, 2), 5);
    assert_eq!(board.summary().food, 14);
}

#[test]
fn cell_counts_match_the_creature_snapshots_standing_there() {
    let mut random = Random::with_seed(7);
    let mut board = Board::standard(&mut random);
    let odds = TestOdds::default();
    for _ in 0..5 {
        for x in 0..board.rows() {
            for y in 0..board.cols() {
                let cell = board.cell_snapshot(x, y).unwrap();
                let here: Vec<_> = board
                    .creature_snapshots()
                    .into_iter()
                    .filter(|s| s.location == Coordinates { x, y })
                    .collect();
                let aphids = here.iter().filter(|s| s.kind == CreatureSnapshotKind::Aphid).count();
                let ladybugs = here.iter().filter(|s| s.kind == CreatureSnapshotKind::Ladybug).count();
                assert_eq!((cell.aphids, cell.ladybugs), (aphids, ladybugs));
            }
        }
        board.refresh(&mut random, &odds);
    }
}

#[test]
fn any_life_is_taken_when_adding() {
    let mut board = board_with_field(2, 2);
    let mut random = Random::with_seed(5);
    let aphid = board.add_aphid(1, 1, i32::MIN).unwrap();
    let ladybug = board.add_ladybug(1, 1, i32::MAX, &mut random).unwrap();
    assert_eq!((aphid, ladybug), (0, 1));
    assert_eq!(board.cell_counts(1, 1), Some((1, 1)));
    assert_eq!(board.add_ladybug(2, 0, 15, &mut random), None);
}

#[test]
fn an_operating_system_seed_gives_a_working_generator() {
    let mut random = Random::new().expect("the operating system provides entropy here");
    let mut board = Board::standard(&mut random);
    let stats = board.refresh(&mut random, &TestOdds::default());
    assert_eq!(stats.summary, board.summary());
}

#[test]
fn the_summary_is_the_sum_over_the_cells_and_the_snapshots() {
    let mut random = Random::with_seed(11);
    let mut board = Board::standard(&mut random);
    let odds = TestOdds::default();
    for _ in 0..6 {
        let (mut aphids, mut ladybugs, mut food) = (0usize, 0usize, 0i32);
        for x in 0..board.rows() {
            for y in 0..board.cols() {
                let cell = board.cell_snapshot(x, y).unwrap();
                aphids += cell.aphids;
                ladybugs += cell.ladybugs;
                food += cell.food;
            }
        }
        let summary = board.summary();
        assert_eq!((summary.aphids, summary.ladybugs, summary.food), (aphids, ladybugs, food));
        let snapshots = board.creature_snapshots();
        let snapshot_aphids = snapshots.iter().filter(|s| s.kind == CreatureSnapshotKind::Aphid).count();
        assert_eq!(snapshot_aphids, summary.aphids);
        assert_eq!(snapshots.len(), summary.aphids + summary.ladybugs);
        board.refresh(&mut random, &odds);
    }
}
