//! Building the board a config file describes, once its contents are read.

use crate::board::{band_drawn, Board};
use crate::creature::{kind_of, life_of, location_of, Aphid, Creature};
use crate::model::{BoardView, MAX_CELLS, MAX_CELL_FOOD};
use crate::random::{drawn_since, extends, last_number, lemma_extends_itself, lemma_extends_push, lemma_extends_trans, Draw, Random};
use crate::text::{decimal, push_decimal};
use crate::types::{Coordinates, CreatureKind, CreatureSnapshotKind};
use vstd::prelude::*;

verus! {

/// Starting life of a creature placed from a config file.
pub const CONFIG_APHID_LIFE: i32 = 10;
pub const CONFIG_LADYBUG_LIFE: i32 = 15;

/// A starting creature that lies outside the board and was left out.
#[derive(Clone, Copy, Debug, PartialEq, Eq, Structural)]
pub struct OutsideBoard {
    pub kind: CreatureSnapshotKind,
    pub x: usize,
    pub y: usize,
}

/// The notice for a creature left out of the board.
pub open spec fn outside_message(notice: OutsideBoard) -> Seq<char> {
    (if notice.kind == CreatureSnapshotKind::Aphid {
        "Aphid"@
    } else {
        "Ladybug"@
    }) + " position "@ + decimal(notice.x as nat) + " "@ + decimal(notice.y as nat)
        + " is outside the board; skipping."@
}

impl OutsideBoard {
    /// The notice a front end shows for this creature.
    pub fn message(&self) -> (text: String)
        ensures
            text@ == outside_message(*self),
    {
        let mut text = String::new();
        match self.kind {
            CreatureSnapshotKind::Aphid => text.append("Aphid"),
            CreatureSnapshotKind::Ladybug => text.append("Ladybug"),
        }
        text.append(" position ");
        push_decimal(&mut text, self.x as u64);
        text.append(" ");
        push_decimal(&mut text, self.y as u64);
        text.append(" is outside the board; skipping.");
        proof {
            assert(text@ =~= outside_message(*self));
        }
        text
    }
}

/// Why a board layout does not describe a board.
#[derive(Clone, Copy, Debug, PartialEq, Eq, Structural)]
pub enum LayoutError {
    /// `rows` or `columns` is zero.
    EmptyBoard,
}

/// A board built from a layout, with the starting creatures that were left out,
/// in the order they were found.
pub struct LoadedLayout {
    pub board: Board,
    pub skipped: Vec<OutsideBoard>,
}

/// The coordinates of `coordinates` that lie on a `rows` by `cols` board, in
/// order.
pub open spec fn inside(rows: usize, cols: usize, coordinates: Seq<Coordinates>) -> Seq<Coordinates>
    decreases coordinates.len(),
{
    if coordinates.len() == 0 {
        Seq::empty()
    } else {
        let rest = inside(rows, cols, coordinates.drop_last());
        let last = coordinates.last();
        if last.x < rows && last.y < cols {
            rest.push(last)
        } else {
            rest
        }
    }
}

/// The notices for the coordinates of `coordinates` that lie off a `rows` by
/// `cols` board, in order.
pub open spec fn outside(
    rows: usize,
    cols: usize,
    kind: CreatureSnapshotKind,
    coordinates: Seq<Coordinates>,
) -> Seq<OutsideBoard>
    decreases coordinates.len(),
{
    if coordinates.len() == 0 {
        Seq::empty()
    } else {
        let rest = outside(rows, cols, kind, coordinates.drop_last());
        let last = coordinates.last();
        if last.x < rows && last.y < cols {
            rest
        } else {
            rest.push(OutsideBoard { kind, x: last.x, y: last.y })
        }
    }
}

/// Whether creature `id` of a board is one of `kind` standing at `location`
/// with `life` left.
pub open spec fn holds_creature(
    board: BoardView,
    id: int,
    kind: CreatureKind,
    location: Coordinates,
    life: i32,
) -> bool {
    &&& board.living(id)
    &&& kind_of(board.creature(id)) == kind
    &&& location_of(board.creature(id)) == location
    &&& life_of(board.creature(id)) == life
}

/// The draws building a layout takes, as `board` shows them: one food draw per
/// cell, in cell order, giving that cell's starting food; then one band draw
/// for each of the `ladybugs` ladybugs placed, which follow the `aphids`
/// aphids in the table, giving that ladybug its band of directions.
pub open spec fn layout_draws(board: BoardView, aphids: nat, ladybugs: nat, drawn: Seq<Draw>) -> bool {
    let cells = board.field.len();
    &&& drawn.len() == cells + ladybugs
    &&& forall|i: int| 0 <= i < cells ==> #[trigger] drawn[i] == (Draw::Number {
        min: 0,
        max: MAX_CELL_FOOD,
        value: board.field[i].food,
    })
    &&& forall|j: int| 0 <= j < ladybugs ==> #[trigger] band_drawn(board.creature(aphids + j), drawn[cells + j])
}

/// The aphids of the example config, which `Board::standard` places.
pub open spec fn example_aphids() -> Seq<Coordinates> {
    seq![
        Coordinates { x: 3, y: 5 },
        Coordinates { x: 4, y: 8 },
        Coordinates { x: 2, y: 9 },
        Coordinates { x: 1, y: 6 },
        Coordinates { x: 1, y: 9 },
    ]
}

/// The ladybugs of the example config, which `Board::standard` places.
pub open spec fn example_ladybugs() -> Seq<Coordinates> {
    seq![
        Coordinates { x: 5, y: 9 },
        Coordinates { x: 1, y: 1 },
        Coordinates { x: 3, y: 8 },
        Coordinates { x: 9, y: 2 },
    ]
}

/// What building a `rows` by `cols` layout with `aphids` and `ladybugs` gives,
/// for the draws `drawn` it took: a well-formed board of that size with food
/// within the cap; the aphids that lie on it, in order and with the config
/// aphid life, then the ladybugs that lie on it, in order and with the config
/// ladybug life; and the draws `layout_draws` describes.
pub open spec fn built_from_layout(
    rows: usize,
    cols: usize,
    aphids: Seq<Coordinates>,
    ladybugs: Seq<Coordinates>,
    board: BoardView,
    drawn: Seq<Draw>,
) -> bool {
    let placed_aphids = inside(rows, cols, aphids);
    let placed_ladybugs = inside(rows, cols, ladybugs);
    &&& board.wf()
    &&& board.food_capped()
    &&& board.rows == rows
    &&& board.cols == cols
    &&& board.creatures.len() == placed_aphids.len() + placed_ladybugs.len()
    &&& forall|j: int|
        0 <= j < placed_aphids.len() ==> holds_creature(
            board,
            j,
            CreatureKind::Aphid,
            #[trigger] placed_aphids[j],
            CONFIG_APHID_LIFE,
        )
    &&& forall|j: int|
        0 <= j < placed_ladybugs.len() ==> holds_creature(
            board,
            placed_aphids.len() + j,
            CreatureKind::Ladybug,
            #[trigger] placed_ladybugs[j],
            CONFIG_LADYBUG_LIFE,
        )
    &&& layout_draws(board, placed_aphids.len(), placed_ladybugs.len(), drawn)
}

/// Builds the board a config file describes: a `rows` by `columns` board with
/// random starting food, the aphids, then the ladybugs.
///
/// Starting creatures outside the board are left out rather than failing the
/// build, and are returned so the caller can report them. An empty board is
/// refused before anything is drawn from `random`.
pub fn build_board(
    rows: usize,
    columns: usize,
    aphids: &[Coordinates],
    ladybugs: &[Coordinates],
    random: &mut Random,
) -> (loaded: Result<LoadedLayout, LayoutError>)
    requires
        rows * columns <= MAX_CELLS,
    ensures
        loaded is Err <==> rows == 0 || columns == 0,
        loaded is Err ==> *final(random) == *old(random),
        loaded matches Ok(layout) ==> {
            let board = layout.board@;
            let placed_aphids = inside(rows, columns, aphids@);
            let placed_ladybugs = inside(rows, columns, ladybugs@);
            &&& board.wf()
            &&& board.food_capped()
            &&& board.rows == rows
            &&& board.cols == columns
            &&& board.creatures.len() == placed_aphids.len() + placed_ladybugs.len()
            &&& forall|j: int|
                0 <= j < placed_aphids.len() ==> holds_creature(
                    board,
                    j,
                    CreatureKind::Aphid,
                    #[trigger] placed_aphids[j],
                    CONFIG_APHID_LIFE,
                )
            &&& forall|j: int|
                0 <= j < placed_ladybugs.len() ==> holds_creature(
                    board,
                    placed_aphids.len() + j,
                    CreatureKind::Ladybug,
                    #[trigger] placed_ladybugs[j],
                    CONFIG_LADYBUG_LIFE,
                )
            &&& layout.skipped@ == outside(rows, columns, CreatureSnapshotKind::Aphid, aphids@)
                + outside(rows, columns, CreatureSnapshotKind::Ladybug, ladybugs@)
            &&& extends(*old(random), *final(random))
            &&& layout_draws(
                board,
                placed_aphids.len(),
                placed_ladybugs.len(),
                drawn_since(*old(random), *final(random)),
            )
            &&& built_from_layout(rows, columns, aphids@, ladybugs@, board, drawn_since(*old(random), *final(random)))
        },
{
    let ghost r0 = *random;
    if rows == 0 || columns == 0 {
        return Err(LayoutError::EmptyBoard);
    }

    let mut board = Board::with_field(rows, columns, random);
    let ghost r1 = *random;
    let ghost b1 = board@;
    let mut skipped: Vec<OutsideBoard> = Vec::new();
    proof {
        assert(aphids@.take(0) =~= Seq::<Coordinates>::empty());
        assert(ladybugs@.take(0) =~= Seq::<Coordinates>::empty());
    }

    let ghost aphid_seq = aphids@;
    let aphid_total = aphids.len();
    let mut i: usize = 0;
    while i < aphid_total
        invariant
            aphid_total == aphid_seq.len(),
            aphid_seq == aphids@,
            i <= aphid_total,
            board@.wf(),
            board@.food_capped(),
            board@.rows == rows,
            board@.cols == columns,
            board@.creatures.len() == inside(rows, columns, aphids@.take(i as int)).len(),
            forall|j: int|
                0 <= j < inside(rows, columns, aphids@.take(i as int)).len() ==> holds_creature(
                    board@,
                    j,
                    CreatureKind::Aphid,
                    #[trigger] inside(rows, columns, aphids@.take(i as int))[j],
                    CONFIG_APHID_LIFE,
                ),
            skipped@ == outside(rows, columns, CreatureSnapshotKind::Aphid, aphids@.take(i as int)),
            *random == r1,
            board@.field.len() == b1.field.len(),
            forall|c: int| 0 <= c < b1.field.len() ==> #[trigger] board@.field[c].food == b1.field[c].food,
        decreases aphid_total - i,
    {
        let coordinate = aphids[i];
        let ghost before = board@;
        proof {
            assert(aphids@.take(i + 1).drop_last() =~= aphids@.take(i as int));
            assert(aphids@.take(i + 1).last() == coordinate);
        }
        if board.add_aphid(coordinate.x, coordinate.y, CONFIG_APHID_LIFE).is_none() {
            skipped.push(OutsideBoard { kind: CreatureSnapshotKind::Aphid, x: coordinate.x, y: coordinate.y });
            proof {
                assert(inside(rows, columns, aphids@.take(i + 1)) == inside(rows, columns, aphids@.take(i as int)));
            }
        } else {
            proof {
                let placed = inside(rows, columns, aphids@.take(i as int));
                assert(inside(rows, columns, aphids@.take(i + 1)) == placed.push(coordinate));
                assert forall|j: int| 0 <= j < placed.len() + 1 implies holds_creature(
                    board@,
                    j,
                    CreatureKind::Aphid,
                    #[trigger] inside(rows, columns, aphids@.take(i + 1))[j],
                    CONFIG_APHID_LIFE,
                ) by {
                    if j < placed.len() {
                        assert(inside(rows, columns, aphids@.take(i + 1))[j] == placed[j]);
                        assert(board@.creatures[j] == before.creatures[j]);
                    } else {
                        assert(j == before.creatures.len());
                        assert(board@.creatures[j] == Some(Creature::Aphid(Aphid { location: Coordinates { x: coordinate.x, y: coordinate.y }, life: CONFIG_APHID_LIFE })));
                        assert(Coordinates { x: coordinate.x, y: coordinate.y } == coordinate);
                    }
                }
            }
        }
        i = i + 1;
    }
    proof {
        assert(aphids@.take(aphids@.len() as int) =~= aphids@);
        let all = inside(rows, columns, aphids@);
        assert forall|j: int| 0 <= j < all.len() implies holds_creature(
            board@,
            j,
            CreatureKind::Aphid,
            #[trigger] all[j],
            CONFIG_APHID_LIFE,
        ) by {
            assert(all[j] == inside(rows, columns, aphids@.take(aphids@.len() as int))[j]);
        }
    }
    let ghost aphid_count = board@.creatures.len();
    let ghost aphid_notices = skipped@;
    proof {
        lemma_extends_itself(r0);
        assert(ladybugs@.take(0) =~= Seq::<Coordinates>::empty());
        assert forall|c: int| 0 <= c < board@.field.len() implies #[trigger] drawn_since(r0, *random)[c] == (Draw::Number {
            min: 0,
            max: MAX_CELL_FOOD,
            value: board@.field[c].food,
        }) by {}
    }

    let ghost ladybug_seq = ladybugs@;
    let ladybug_total = ladybugs.len();
    let mut i: usize = 0;
    while i < ladybug_total
        invariant
            ladybug_total == ladybug_seq.len(),
            ladybug_seq == ladybugs@,
            i <= ladybug_total,
            board@.wf(),
            board@.food_capped(),
            board@.rows == rows,
            board@.cols == columns,
            aphid_count == inside(rows, columns, aphids@).len(),
            board@.creatures.len() == aphid_count + inside(rows, columns, ladybugs@.take(i as int)).len(),
            forall|j: int|
                0 <= j < aphid_count ==> holds_creature(
                    board@,
                    j,
                    CreatureKind::Aphid,
                    #[trigger] inside(rows, columns, aphids@)[j],
                    CONFIG_APHID_LIFE,
                ),
            forall|j: int|
                0 <= j < inside(rows, columns, ladybugs@.take(i as int)).len() ==> holds_creature(
                    board@,
                    aphid_count + j,
                    CreatureKind::Ladybug,
                    #[trigger] inside(rows, columns, ladybugs@.take(i as int))[j],
                    CONFIG_LADYBUG_LIFE,
                ),
            aphid_notices == outside(rows, columns, CreatureSnapshotKind::Aphid, aphids@),
            skipped@ == aphid_notices + outside(
                rows,
                columns,
                CreatureSnapshotKind::Ladybug,
                ladybugs@.take(i as int),
            ),
            extends(r0, *random),
            board@.field.len() == b1.field.len(),
            forall|c: int| 0 <= c < b1.field.len() ==> #[trigger] board@.field[c].food == b1.field[c].food,
            layout_draws(
                board@,
                aphid_count as nat,
                inside(rows, columns, ladybugs@.take(i as int)).len(),
                drawn_since(r0, *random),
            ),
        decreases ladybug_total - i,
    {
        let ghost r_before = *random;
        let coordinate = ladybugs[i];
        let ghost before = board@;
        proof {
            assert(ladybugs@.take(i + 1).drop_last() =~= ladybugs@.take(i as int));
            assert(ladybugs@.take(i + 1).last() == coordinate);
        }
        let added = board.add_ladybug(coordinate.x, coordinate.y, CONFIG_LADYBUG_LIFE, random);
        proof {
            let cells = b1.field.len();
            let placed = inside(rows, columns, ladybugs@.take(i as int)).len();
            assert forall|c: int| 0 <= c < b1.field.len() implies #[trigger] board@.field[c].food == b1.field[c].food by {
                assert(board@.field[c].food == before.field[c].food);
            }
            if added is Some {
                let d = Draw::Number { min: 0, max: 3, value: last_number(*random) };
                lemma_extends_push(r_before, *random, d);
                lemma_extends_trans(r0, r_before, *random);
                let old_drawn = drawn_since(r0, r_before);
                let new_drawn = drawn_since(r0, *random);
                assert(new_drawn =~= old_drawn.push(d));
                assert(inside(rows, columns, ladybugs@.take(i + 1)).len() == placed + 1);
                assert forall|j: int| 0 <= j < placed + 1 implies #[trigger] band_drawn(
                    board@.creature(aphid_count + j),
                    new_drawn[cells + j],
                ) by {
                    if j < placed {
                        assert(board@.creatures[aphid_count + j] == before.creatures[aphid_count + j]);
                        assert(band_drawn(before.creature(aphid_count + j), old_drawn[cells + j]));
                    } else {
                        assert(aphid_count + j == before.creatures.len());
                    }
                }
                assert forall|c: int| 0 <= c < cells implies #[trigger] new_drawn[c] == (Draw::Number {
                    min: 0,
                    max: MAX_CELL_FOOD,
                    value: board@.field[c].food,
                }) by {
                    assert(old_drawn[c] == (Draw::Number { min: 0, max: MAX_CELL_FOOD, value: before.field[c].food }));
                }
            } else {
                assert(inside(rows, columns, ladybugs@.take(i + 1)).len() == placed);
            }
        }
        if added.is_none() {
            let ghost notices = skipped@;
            skipped.push(
                OutsideBoard { kind: CreatureSnapshotKind::Ladybug, x: coordinate.x, y: coordinate.y },
            );
            proof {
                assert(inside(rows, columns, ladybugs@.take(i + 1)) == inside(rows, columns, ladybugs@.take(i as int)));
                assert(skipped@ =~= aphid_notices + outside(
                    rows,
                    columns,
                    CreatureSnapshotKind::Ladybug,
                    ladybugs@.take(i + 1),
                ));
            }
        } else {
            proof {
                let placed = inside(rows, columns, ladybugs@.take(i as int));
                assert(inside(rows, columns, ladybugs@.take(i + 1)) == placed.push(coordinate));
                assert forall|j: int| 0 <= j < aphid_count implies holds_creature(
                    board@,
                    j,
                    CreatureKind::Aphid,
                    #[trigger] inside(rows, columns, aphids@)[j],
                    CONFIG_APHID_LIFE,
                ) by {
                    assert(board@.creatures[j] == board@.creatures.drop_last()[j]);
                }
                assert forall|j: int| 0 <= j < placed.len() + 1 implies holds_creature(
                    board@,
                    aphid_count + j,
                    CreatureKind::Ladybug,
                    #[trigger] inside(rows, columns, ladybugs@.take(i + 1))[j],
                    CONFIG_LADYBUG_LIFE,
                ) by {
                    if j < placed.len() {
                        assert(inside(rows, columns, ladybugs@.take(i + 1))[j] == placed[j]);
                        assert(board@.creatures[aphid_count + j] == board@.creatures.drop_last()[aphid_count + j]);
                    }
                }
            }
        }
        i = i + 1;
    }
    proof {
        assert(ladybugs@.take(ladybugs@.len() as int) =~= ladybugs@);
        let all = inside(rows, columns, ladybugs@);
        assert forall|j: int| 0 <= j < all.len() implies holds_creature(
            board@,
            aphid_count + j,
            CreatureKind::Ladybug,
            #[trigger] all[j],
            CONFIG_LADYBUG_LIFE,
        ) by {
            assert(all[j] == inside(rows, columns, ladybugs@.take(ladybugs@.len() as int))[j]);
        }
    }

    Ok(LoadedLayout { board, skipped })
}

} // verus!
