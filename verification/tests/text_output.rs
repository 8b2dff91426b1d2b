use creature_life_cycle::{
    board_picture, build_board, count_symbol, format_board_config, turn_stats_line,
    write_coordinate_array, Board, BoardSummary, Coordinates, Random, TurnStats,
};

const STANDARD_PICTURE: &str = r#"
 __ __ __ __ __ __ __ __ __ __
 __ _1 __ __ __ __ 1_ __ __ 1_
 __ __ __ __ __ __ __ __ __ 1_
 __ __ __ __ __ 1_ __ __ _1 __
 __ __ __ __ __ __ __ __ 1_ __
 __ __ __ __ __ __ __ __ __ _1
 __ __ __ __ __ __ __ __ __ __
 __ __ __ __ __ __ __ __ __ __
 __ __ __ __ __ __ __ __ __ __
 __ __ _1 __ __ __ __ __ __ __
"#;

#[test]
fn count_symbols_cover_none_digits_and_many() {
    assert_eq!(count_symbol(0), '_');
    assert_eq!(count_symbol(1), '1');
    assert_eq!(count_symbol(7), '7');
    assert_eq!(count_symbol(9), '9');
    assert_eq!(count_symbol(10), '~');
    assert_eq!(count_symbol(usize::MAX), '~');
}

#[test]
fn the_standard_board_is_drawn_row_by_row() {
    let board = Board::standard(&mut Random::with_seed(1));
    assert_eq!(board_picture(&board), STANDARD_PICTURE);
}

#[test]
fn crowded_cells_show_counts_and_a_tilde_beyond_nine() {
    let mut random = Random::with_seed(1);
    let mut board = Board::with_field(1, 2, &mut random);
    for _ in 0..12 {
        board.add_aphid(0, 1, 10).unwrap();
    }
    board.add_ladybug(0, 1, 15, &mut random).unwrap();
    board.add_ladybug(0, 0, 15, &mut random).unwrap();
    board.add_ladybug(0, 0, 15, &mut random).unwrap();
    assert_eq!(board_picture(&board), "\n _2 ~1\n");
}

#[test]
fn the_turn_line_names_every_total() {
    let stats = TurnStats {
        births: 2,
        deaths: 13,
        summary: BoardSummary {
            aphids: 5,
            ladybugs: 0,
            food: 425,
        },
    };
    assert_eq!(
        turn_stats_line(17, stats),
        "Turn: 17 | Aphids: 5 | Ladybugs: 0 | Births: 2 | Deaths: 13 | Food: 425"
    );
    assert_eq!(
        turn_stats_line(0, TurnStats::default()),
        "Turn: 0 | Aphids: 0 | Ladybugs: 0 | Births: 0 | Deaths: 0 | Food: 0"
    );
}

#[test]
fn empty_and_filled_coordinate_arrays() {
    let mut contents = String::from("# start\n");
    write_coordinate_array(&mut contents, "aphids", &[]);
    assert_eq!(contents, "# start\naphids = []\n");

    let mut contents = String::new();
    write_coordinate_array(
        &mut contents,
        "ladybugs",
        &[Coordinates { x: 0, y: 12 }, Coordinates { x: 3, y: 4 }],
    );
    assert_eq!(
        contents,
        "ladybugs = [\n  { x = 0, y = 12 },\n  { x = 3, y = 4 },\n]\n"
    );
}

#[test]
fn the_board_section_lists_size_and_creatures_in_order() {
    let mut random = Random::with_seed(1);
    let layout = build_board(
        2,
        3,
        &[Coordinates { x: 0, y: 1 }],
        &[Coordinates { x: 1, y: 2 }],
        &mut random,
    )
    .unwrap();
    assert_eq!(
        format_board_config(&layout.board),
        "[board]\nrows = 2\ncolumns = 3\n\naphids = [\n  { x = 0, y = 1 },\n]\n\nladybugs = [\n  { x = 1, y = 2 },\n]\n\n"
    );
}

#[test]
fn the_board_section_reads_back_as_the_same_layout() {
    let board = Board::standard(&mut Random::with_seed(1));
    let contents = format_board_config(&board);
    let table: toml::Table = toml::from_str(&contents).unwrap();
    let section = table["board"].as_table().unwrap();
    assert_eq!(section["rows"].as_integer(), Some(10));
    assert_eq!(section["columns"].as_integer(), Some(10));

    let coordinates = |label: &str| -> Vec<Coordinates> {
        section[label]
            .as_array()
            .unwrap()
            .iter()
            .map(|entry| Coordinates {
                x: entry["x"].as_integer().unwrap() as usize,
                y: entry["y"].as_integer().unwrap() as usize,
            })
            .collect()
    };
    let aphids = coordinates("aphids");
    let ladybugs = coordinates("ladybugs");
    assert_eq!(aphids.len(), 5);
    assert_eq!(ladybugs.len(), 4);

    let rebuilt = build_board(10, 10, &aphids, &ladybugs, &mut Random::with_seed(1)).unwrap();
    assert!(rebuilt.skipped.is_empty());
    assert_eq!(format_board_config(&rebuilt.board), contents);
    assert_eq!(board_picture(&rebuilt.board), board_picture(&board));
    assert_eq!(rebuilt.board.summary(), board.summary());
}

/// The board section of the example config, as the standard board documents
/// it: ten by ten, five aphids, then four ladybugs.
fn example_layout(random: &mut Random) -> creature_life_cycle::LoadedLayout {
    let aphids = [(3, 5), (4, 8), (2, 9), (1, 6), (1, 9)].map(|(x, y)| Coordinates { x, y });
    let ladybugs = [(5, 9), (1, 1), (3, 8), (9, 2)].map(|(x, y)| Coordinates { x, y });
    build_board(10, 10, &aphids, &ladybugs, random).unwrap()
}

#[test]
fn standard_board_matches_the_example_config() {
    let standard = Board::standard(&mut Random::with_seed(1));
    let example = example_layout(&mut Random::with_seed(1));

    assert!(example.skipped.is_empty());
    assert_eq!(format_board_config(&standard), format_board_config(&example.board));
    // Same seed, same draws: the food each cell starts with matches too.
    assert_eq!(standard.summary(), example.board.summary());
    assert_eq!(standard.creature_snapshots(), example.board.creature_snapshots());
}
