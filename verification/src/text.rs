//! The text the simulation writes: board pictures, turn lines, config sections
//! and notices.

use crate::board::Board;
use crate::creature::{kind_of, location_of};
use crate::model::BoardView;
use crate::types::{Coordinates, CreatureKind, CreatureSnapshotKind, TurnStats};
use vstd::prelude::*;

verus! {

/// The character of a decimal digit.
pub open spec fn digit_char(digit: nat) -> char {
    if digit == 0 {
        '0'
    } else if digit == 1 {
        '1'
    } else if digit == 2 {
        '2'
    } else if digit == 3 {
        '3'
    } else if digit == 4 {
        '4'
    } else if digit == 5 {
        '5'
    } else if digit == 6 {
        '6'
    } else if digit == 7 {
        '7'
    } else if digit == 8 {
        '8'
    } else {
        '9'
    }
}

/// Decimal digits of a natural number, most significant first.
pub open spec fn decimal(n: nat) -> Seq<char>
    decreases n,
{
    if n < 10 {
        seq![digit_char(n)]
    } else {
        decimal(n / 10).push(digit_char(n % 10))
    }
}

/// An integer in decimal, with a leading minus sign when negative.
pub open spec fn signed_decimal(n: int) -> Seq<char> {
    if n < 0 {
        seq!['-'] + decimal((-n) as nat)
    } else {
        decimal(n as nat)
    }
}

/// The one-character picture of a creature count: `_` for none, the digit up
/// to nine, `~` beyond.
pub open spec fn count_char(count: nat) -> char {
    if count == 0 {
        '_'
    } else if count <= 9 {
        digit_char(count)
    } else {
        '~'
    }
}

/// The one-character string of a digit.
fn digit_str(digit: u64) -> (text: &'static str)
    requires
        digit < 10,
    ensures
        text@ == seq![digit_char(digit as nat)],
{
    proof {
        reveal_strlit("0");
        reveal_strlit("1");
        reveal_strlit("2");
        reveal_strlit("3");
        reveal_strlit("4");
        reveal_strlit("5");
        reveal_strlit("6");
        reveal_strlit("7");
        reveal_strlit("8");
        reveal_strlit("9");
    }
    match digit {
        0 => "0",
        1 => "1",
        2 => "2",
        3 => "3",
        4 => "4",
        5 => "5",
        6 => "6",
        7 => "7",
        8 => "8",
        _ => "9",
    }
}

/// Appends `n` in decimal.
pub fn push_decimal(out: &mut String, n: u64)
    ensures
        final(out)@ == old(out)@ + decimal(n as nat),
    decreases n,
{
    if n >= 10 {
        push_decimal(out, n / 10);
    }
    out.append(digit_str(n % 10));
    proof {
        if n >= 10 {
            assert(decimal(n as nat) == decimal((n / 10) as nat).push(digit_char((n % 10) as nat)));
        }
    }
}

/// Appends `n` in decimal, with a leading minus sign when negative.
pub fn push_signed_decimal(out: &mut String, n: i64)
    ensures
        final(out)@ == old(out)@ + signed_decimal(n as int),
{
    if n < 0 {
        proof {
            reveal_strlit("-");
        }
        out.append("-");
        let magnitude: u64 = if n == i64::MIN {
            9_223_372_036_854_775_808u64
        } else {
            (-n) as u64
        };
        push_decimal(out, magnitude);
    } else {
        push_decimal(out, n as u64);
    }
}

/// Converts a creature count to the compact board display symbol.
pub fn count_symbol(count: usize) -> (symbol: char)
    ensures
        symbol == count_char(count as nat),
        count == 0 ==> symbol == '_',
        1 <= count <= 9 ==> symbol as u32 == '0' as u32 + count,
        count > 9 ==> symbol == '~',
{
    proof {
        crate::laws::law_count_symbols_are_digits(count as nat);
    }
    match count {
        0 => '_',
        1 => '1',
        2 => '2',
        3 => '3',
        4 => '4',
        5 => '5',
        6 => '6',
        7 => '7',
        8 => '8',
        9 => '9',
        _ => '~',
    }
}


/// One coordinate line of a config array.
pub open spec fn coordinate_line(coordinate: Coordinates) -> Seq<char> {
    "  { x = "@ + decimal(coordinate.x as nat) + ", y = "@ + decimal(coordinate.y as nat) + " },\n"@
}

/// The coordinate lines of a config array, in order.
pub open spec fn coordinate_lines(coordinates: Seq<Coordinates>) -> Seq<char>
    decreases coordinates.len(),
{
    if coordinates.len() == 0 {
        Seq::empty()
    } else {
        coordinate_lines(coordinates.drop_last()) + coordinate_line(coordinates.last())
    }
}

/// A TOML inline-table coordinate array.
pub open spec fn coordinate_array(label: Seq<char>, coordinates: Seq<Coordinates>) -> Seq<char> {
    if coordinates.len() == 0 {
        label + " = []\n"@
    } else {
        label + " = [\n"@ + coordinate_lines(coordinates) + "]\n"@
    }
}

/// Writes a TOML inline-table coordinate array.
pub fn write_coordinate_array(contents: &mut String, label: &str, coordinates: &[Coordinates])
    ensures
        final(contents)@ == old(contents)@ + coordinate_array(label@, coordinates@),
{
    let ghost start = contents@;
    if coordinates.len() == 0 {
        contents.append(label);
        contents.append(" = []\n");
        proof {
            assert(contents@ =~= start + coordinate_array(label@, coordinates@));
        }
        return;
    }

    contents.append(label);
    contents.append(" = [\n");
    let ghost head = contents@;
    for i in 0..coordinates.len()
        invariant
            contents@ == head + coordinate_lines(coordinates@.take(i as int)),
    {
        let coordinate = coordinates[i];
        let ghost before = contents@;
        contents.append("  { x = ");
        push_decimal(contents, coordinate.x as u64);
        contents.append(", y = ");
        push_decimal(contents, coordinate.y as u64);
        contents.append(" },\n");
        proof {
            assert(coordinates@.take(i + 1).drop_last() =~= coordinates@.take(i as int));
            assert(coordinates@.take(i + 1).last() == coordinate);
            assert(contents@ =~= before + coordinate_line(coordinate));
            assert(contents@ =~= head + coordinate_lines(coordinates@.take(i + 1)));
        }
    }
    contents.append("]\n");
    proof {
        assert(coordinates@.take(coordinates@.len() as int) =~= coordinates@);
        assert(contents@ =~= start + coordinate_array(label@, coordinates@));
    }
}

/// The picture of one cell: a space, then the aphid and ladybug symbols.
pub open spec fn cell_text(board: BoardView, x: int, y: int) -> Seq<char> {
    let cell = board.field[x * board.cols + y];
    seq![' ', count_char(cell.aphids.len()), count_char(cell.ladybugs.len())]
}

/// The pictures of the first `count` cells of row `x`.
pub open spec fn row_text(board: BoardView, x: int, count: nat) -> Seq<char>
    decreases count,
{
    if count == 0 {
        Seq::empty()
    } else {
        row_text(board, x, (count - 1) as nat) + cell_text(board, x, count - 1)
    }
}

/// The first `count` rows, each ended by a newline.
pub open spec fn rows_text(board: BoardView, count: nat) -> Seq<char>
    decreases count,
{
    if count == 0 {
        Seq::empty()
    } else {
        rows_text(board, (count - 1) as nat) + row_text(board, count - 1, board.cols as nat) + seq!['\n']
    }
}

/// The whole board picture: an empty line, then every row.
pub open spec fn board_text(board: BoardView) -> Seq<char> {
    seq!['\n'] + rows_text(board, board.rows as nat)
}

/// Draws the board as two count symbols per cell: aphids first, ladybugs
/// second, one line per row after an empty line.
pub fn board_picture(board: &Board) -> (text: String)
    requires
        board@.wf(),
    ensures
        text@ == board_text(board@),
{
    let mut text = String::new();
    proof {
        reveal_strlit("\n");
    }
    text.append("\n");
    let rows = board.rows();
    let cols = board.cols();
    for x in 0..rows
        invariant
            board@.wf(),
            rows == board@.rows,
            cols == board@.cols,
            text@ == seq!['\n'] + rows_text(board@, x as nat),
    {
        let ghost row_start = text@;
        for y in 0..cols
            invariant
                board@.wf(),
                x < rows,
                rows == board@.rows,
                cols == board@.cols,
                text@ == row_start + row_text(board@, x as int, y as nat),
        {
            let counts = board.cell_counts(x, y);
            let (aphids, ladybugs) = match counts {
                Some(counts) => counts,
                None => (0, 0),
            };
            let ghost before = text@;
            proof {
                reveal_strlit(" ");
            }
            text.append(" ");
            text.append(char_str(count_symbol(aphids)));
            text.append(char_str(count_symbol(ladybugs)));
            proof {
                assert(text@ =~= before + cell_text(board@, x as int, y as int));
            }
        }
        proof {
            reveal_strlit("\n");
        }
        text.append("\n");
        proof {
            assert(text@ =~= seq!['\n'] + rows_text(board@, (x + 1) as nat));
        }
    }
    text
}

/// The one-character string of a board symbol.
fn char_str(symbol: char) -> (text: &'static str)
    requires
        symbol == '_' || symbol == '~' || ('1' <= symbol <= '9'),
    ensures
        text@ == seq![symbol],
{
    proof {
        reveal_strlit("_");
        reveal_strlit("~");
        reveal_strlit("1");
        reveal_strlit("2");
        reveal_strlit("3");
        reveal_strlit("4");
        reveal_strlit("5");
        reveal_strlit("6");
        reveal_strlit("7");
        reveal_strlit("8");
        reveal_strlit("9");
    }
    match symbol {
        '_' => "_",
        '1' => "1",
        '2' => "2",
        '3' => "3",
        '4' => "4",
        '5' => "5",
        '6' => "6",
        '7' => "7",
        '8' => "8",
        '9' => "9",
        _ => "~",
    }
}

/// The summary line printed after a turn.
pub open spec fn turn_line(turn: nat, stats: TurnStats) -> Seq<char> {
    "Turn: "@ + decimal(turn) + " | Aphids: "@ + decimal(stats.summary.aphids as nat)
        + " | Ladybugs: "@ + decimal(stats.summary.ladybugs as nat) + " | Births: "@ + decimal(
        stats.births as nat,
    ) + " | Deaths: "@ + decimal(stats.deaths as nat) + " | Food: "@ + signed_decimal(
        stats.summary.food as int,
    )
}

/// Formats the numeric summary for a completed turn.
pub fn turn_stats_line(turn: usize, stats: TurnStats) -> (line: String)
    ensures
        line@ == turn_line(turn as nat, stats),
{
    let mut line = String::new();
    line.append("Turn: ");
    push_decimal(&mut line, turn as u64);
    line.append(" | Aphids: ");
    push_decimal(&mut line, stats.summary.aphids as u64);
    line.append(" | Ladybugs: ");
    push_decimal(&mut line, stats.summary.ladybugs as u64);
    line.append(" | Births: ");
    push_decimal(&mut line, stats.births as u64);
    line.append(" | Deaths: ");
    push_decimal(&mut line, stats.deaths as u64);
    line.append(" | Food: ");
    push_signed_decimal(&mut line, stats.summary.food as i64);
    proof {
        assert(line@ =~= turn_line(turn as nat, stats));
    }
    line
}


/// Where the living creatures of `kind` among `ids` stand, in the order of `ids`.
pub open spec fn kind_locations(board: BoardView, ids: Seq<usize>, kind: CreatureKind) -> Seq<Coordinates>
    decreases ids.len(),
{
    if ids.len() == 0 {
        Seq::empty()
    } else {
        let rest = kind_locations(board, ids.drop_last(), kind);
        let creature = board.creature(ids.last() as int);
        if kind_of(creature) == kind {
            rest.push(location_of(creature))
        } else {
            rest
        }
    }
}

/// The `[board]` section of `simulation.toml` for a board: its size, then
/// where its aphids and ladybugs stand, each kind in creation order.
pub open spec fn board_section(board: BoardView) -> Seq<char> {
    "[board]\n"@ + "rows = "@ + decimal(board.rows as nat) + "\n"@ + "columns = "@ + decimal(
        board.cols as nat,
    ) + "\n"@ + "\n"@ + coordinate_array(
        "aphids"@,
        kind_locations(board, board.active, CreatureKind::Aphid),
    ) + "\n"@ + coordinate_array("ladybugs"@, kind_locations(board, board.active, CreatureKind::Ladybug))
        + "\n"@
}

/// Formats the board's size and creatures as the `[board]` section of
/// `simulation.toml` content, followed by an empty line.
pub fn format_board_config(board: &Board) -> (contents: String)
    requires
        board@.wf(),
    ensures
        contents@ == board_section(board@),
{
    let mut aphids: Vec<Coordinates> = Vec::new();
    let mut ladybugs: Vec<Coordinates> = Vec::new();
    let snapshots = board.creature_snapshots();
    let ghost active = board@.active;

    for j in 0..snapshots.len()
        invariant
            board@.wf(),
            active == board@.active,
            snapshots@.len() == active.len(),
            forall|k: int| 0 <= k < snapshots@.len() ==> #[trigger] snapshots@[k] == board@.snapshot(active[k]),
            aphids@ == kind_locations(board@, active.take(j as int), CreatureKind::Aphid),
            ladybugs@ == kind_locations(board@, active.take(j as int), CreatureKind::Ladybug),
    {
        let creature = snapshots[j];
        proof {
            assert(active.take(j + 1).drop_last() =~= active.take(j as int));
            assert(active.take(j + 1).last() == active[j as int]);
            assert(board@.creatures[active[j as int] as int] is Some);
        }
        match creature.kind {
            CreatureSnapshotKind::Aphid => aphids.push(creature.location),
            CreatureSnapshotKind::Ladybug => ladybugs.push(creature.location),
        }
    }
    proof {
        assert(active.take(active.len() as int) =~= active);
    }

    let mut contents = String::new();
    contents.append("[board]\n");
    contents.append("rows = ");
    push_decimal(&mut contents, board.rows() as u64);
    contents.append("\n");
    contents.append("columns = ");
    push_decimal(&mut contents, board.cols() as u64);
    contents.append("\n");
    contents.append("\n");
    write_coordinate_array(&mut contents, "aphids", aphids.as_slice());
    contents.append("\n");
    write_coordinate_array(&mut contents, "ladybugs", ladybugs.as_slice());
    contents.append("\n");
    proof {
        assert(contents@ =~= board_section(board@));
    }
    contents
}

} // verus!
