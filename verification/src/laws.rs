//! What holds of every board and every turn, whatever the chances decide.

use crate::creature::{direction_band, kind_of, life_of, location_of, Creature};
use crate::model::{
    aphid_added, count_kind, is_kind, last_removed, lemma_index_in_field, offset, prey_of, reflect, total_food,
    turn_outcome, BoardView, CellView, MAX_CELL_FOOD,
};
use crate::config::{
    built_from_layout, example_aphids, example_ladybugs, holds_creature, inside, layout_draws, outside, OutsideBoard,
    CONFIG_APHID_LIFE, CONFIG_LADYBUG_LIFE,
};
use crate::options::{
    digits_value, first_equals, is_digit, is_escape, is_long, is_short, long_name, long_value, nothing_given,
    number_value, option_named, parse_command_line, parse_tokens, unsigned_digits, OptionsError, SimOptions,
    ValueOption, DEFAULT_DELAY_MS, DEFAULT_TURNS,
};
use crate::text::{board_text, cell_text, count_char, decimal, digit_char, kind_locations, row_text, rows_text};
use crate::chart::{x_tick_indices, axis_bound, axis_magnitude, axis_step, ceil_div, lemma_magnitude, nice_step, nice_top, points_peak};
use crate::session::{
    edit_outcome, kept_edits, recorded, undo_outcome, CellEdit, HistoryPoint, Simulation, EDIT_UNDO_LIMIT,
    HISTORY_LIMIT,
};
use crate::board::{
    aphid_step, band_drawn, bred_as_drawn, breeding_phase, combat_chance, standard_built, standard_creature, fed_as_served, feeding_phase, fighting_phase, fought_as_drawn,
    food_asks, meal_board, moved_as_drawn, movement_phase, played_as_drawn, played_through, procreation_chance,
};
use crate::random::Chance;
use crate::random::Draw;
use crate::types::{snapshot_kind, Coordinates, CreatureKind, CreatureSnapshotKind, Direction, TurnStats};
use vstd::prelude::*;

verus! {

/// Two spots on a board with the same cell index are the same spot.
proof fn lemma_index_is_unique(board: BoardView, a: Coordinates, b: Coordinates)
    requires
        board.in_bounds(a),
        board.in_bounds(b),
        board.index_of(a) == board.index_of(b),
    ensures
        a == b,
{
    let cols = board.cols as int;
    assert(a.x == b.x) by (nonlinear_arith)
        requires
            a.x * cols + a.y == b.x * cols + b.y,
            0 <= a.y < cols,
            0 <= b.y < cols,
            0 <= a.x,
            0 <= b.x,
    {
        if a.x < b.x {
            assert(a.x * cols + cols <= b.x * cols);
        } else if b.x < a.x {
            assert(b.x * cols + cols <= a.x * cols);
        }
    }
}

/// The IDs of the table's creatures of a kind, as a set.
pub open spec fn ids_of_kind(creatures: Seq<Option<Creature>>, kind: CreatureKind) -> Set<usize> {
    Set::new(|id: usize| (id as int) < creatures.len() && is_kind(creatures[id as int], kind))
}

/// Counting the creatures of a kind counts the set of their IDs.
proof fn lemma_count_is_set_size(creatures: Seq<Option<Creature>>, kind: CreatureKind)
    requires
        creatures.len() <= usize::MAX,
    ensures
        ids_of_kind(creatures, kind).finite(),
        ids_of_kind(creatures, kind).len() == count_kind(creatures, kind),
    decreases creatures.len(),
{
    if creatures.len() == 0 {
        assert(ids_of_kind(creatures, kind) =~= Set::<usize>::empty());
    } else {
        let rest = creatures.drop_last();
        lemma_count_is_set_size(rest, kind);
        let last = (creatures.len() - 1) as usize;
        assert forall|id: usize| (id as int) < rest.len() implies creatures[id as int] == rest[id as int] by {}
        if is_kind(creatures.last(), kind) {
            assert(ids_of_kind(creatures, kind) =~= ids_of_kind(rest, kind).insert(last));
            assert(!ids_of_kind(rest, kind).contains(last));
        } else {
            assert(ids_of_kind(creatures, kind) =~= ids_of_kind(rest, kind));
        }
    }
}

/// How many creatures of `kind` the first `n` cells of `board` list.
pub open spec fn cell_total(board: BoardView, kind: CreatureKind, n: int) -> nat
    decreases n,
{
    if n <= 0 {
        0
    } else {
        cell_total(board, kind, n - 1) + board.occupants(n - 1, kind).len()
    }
}

/// The living creatures of `kind` standing in the first `n` cells.
pub open spec fn standing_before(board: BoardView, kind: CreatureKind, n: int) -> Set<usize> {
    Set::new(
        |id: usize| ids_of_kind(board.creatures, kind).contains(id) && board.index_of(location_of(board.creature(id as int))) < n,
    )
}

proof fn lemma_cell_total_counts(board: BoardView, kind: CreatureKind, n: int)
    requires
        board.wf(),
        0 <= n <= board.field.len(),
    ensures
        standing_before(board, kind, n).finite(),
        standing_before(board, kind, n).len() == cell_total(board, kind, n),
    decreases n,
{
    if n == 0 {
        assert(standing_before(board, kind, n) =~= Set::<usize>::empty());
    } else {
        lemma_cell_total_counts(board, kind, n - 1);
        let i = n - 1;
        let list = board.occupants(i, kind);
        let earlier = standing_before(board, kind, n - 1);
        assert(list.no_duplicates()) by {
            assert forall|p: int, q: int| 0 <= p < list.len() && 0 <= q < list.len() && p != q implies list[p]
                != list[q] by {
                assert(board.sits_at(list[p], i, p, kind));
                assert(board.sits_at(list[q], i, q, kind));
            }
        }
        list.unique_seq_to_set();
        assert(standing_before(board, kind, n) =~= earlier + list.to_set()) by {
            assert forall|id: usize| standing_before(board, kind, n).contains(id) && !earlier.contains(id) implies list.to_set().contains(id) by {
                assert(board.creatures[id as int] is Some);
                assert(board.placed(id as int));
                assert(list[board.cell_slots[id as int] as int] == id);
            }
            assert forall|id: usize| list.to_set().contains(id) implies standing_before(board, kind, n).contains(id) by {
                let s = choose|s: int| 0 <= s < list.len() && list[s] == id;
                assert(board.sits_at(list[s], i, s, kind));
            }
        }
        assert(earlier.disjoint(list.to_set())) by {
            assert forall|id: usize| earlier.contains(id) implies !list.to_set().contains(id) by {
                if list.to_set().contains(id) {
                    let s = choose|s: int| 0 <= s < list.len() && list[s] == id;
                    assert(board.sits_at(list[s], i, s, kind));
                }
            }
        }
        vstd::set_lib::lemma_set_disjoint_lens(earlier, list.to_set());
    }
}

/// The totals are the sums over the cells: on a well-formed board the summary
/// counts as many aphids, and as many ladybugs, as the cells list.
pub proof fn law_summary_sums_the_cells(board: BoardView)
    requires
        board.wf(),
    ensures
        board.summary.aphids == cell_total(board, CreatureKind::Aphid, board.field.len() as int),
        board.summary.ladybugs == cell_total(board, CreatureKind::Ladybug, board.field.len() as int),
{
    assert forall|kind: CreatureKind| #![trigger ids_of_kind(board.creatures, kind)]
        standing_before(board, kind, board.field.len() as int) == ids_of_kind(board.creatures, kind) by {
        assert forall|id: usize| ids_of_kind(board.creatures, kind).contains(id) implies board.index_of(
            location_of(board.creature(id as int)),
        ) < board.field.len() by {
            let location = location_of(board.creature(id as int));
            assert(board.creatures_sound());
            lemma_index_in_field(board.rows as int, board.cols as int, location.x as int, location.y as int);
        }
        assert(standing_before(board, kind, board.field.len() as int) =~= ids_of_kind(board.creatures, kind));
    }
    lemma_cell_total_counts(board, CreatureKind::Aphid, board.field.len() as int);
    lemma_cell_total_counts(board, CreatureKind::Ladybug, board.field.len() as int);
    lemma_count_is_set_size(board.creatures, CreatureKind::Aphid);
    lemma_count_is_set_size(board.creatures, CreatureKind::Ladybug);
    assert(ids_of_kind(board.creatures, CreatureKind::Aphid) == standing_before(board, CreatureKind::Aphid, board.field.len() as int));
    assert(ids_of_kind(board.creatures, CreatureKind::Ladybug) == standing_before(board, CreatureKind::Ladybug, board.field.len() as int));
}

/// On a well-formed board the active list holds one entry per living creature:
/// its length is the summary's count of aphids and ladybugs.
pub proof fn lemma_active_counts_the_living(board: BoardView)
    requires
        board.wf(),
    ensures
        board.active.len() == board.summary.aphids + board.summary.ladybugs,
{
    lemma_count_is_set_size(board.creatures, CreatureKind::Aphid);
    lemma_count_is_set_size(board.creatures, CreatureKind::Ladybug);
    let aphids = ids_of_kind(board.creatures, CreatureKind::Aphid);
    let ladybugs = ids_of_kind(board.creatures, CreatureKind::Ladybug);
    assert(board.active.no_duplicates()) by {
        assert forall|a: int, b: int| 0 <= a < board.active.len() && 0 <= b < board.active.len() && a != b
            implies board.active[a] != board.active[b] by {
            if a < b {
                assert(board.active[a] < board.active[b]);
            } else {
                assert(board.active[b] < board.active[a]);
            }
        }
    }
    board.active.unique_seq_to_set();
    assert(board.active.to_set() =~= aphids + ladybugs) by {
        assert forall|id: usize| board.active.to_set().contains(id) implies (aphids + ladybugs).contains(id) by {
            let a = choose|a: int| 0 <= a < board.active.len() && board.active[a] == id;
            assert(board.creatures[board.active[a] as int] is Some);
        }
        assert forall|id: usize| (aphids + ladybugs).contains(id) implies board.active.to_set().contains(id) by {
            assert(board.creatures[id as int] is Some);
        }
    }
    assert(aphids.disjoint(ladybugs));
    vstd::set_lib::lemma_set_disjoint_lens(aphids, ladybugs);
}

/// The totals count the creature snapshots: on a well-formed board the summary
/// holds as many aphids, and as many ladybugs, as the snapshots list of that
/// kind, and the sum of the cells' food.
pub proof fn law_summary_counts_the_snapshots(board: BoardView)
    requires
        board.wf(),
    ensures
        board.summary.aphids == Set::new(
            |id: usize| board.active.contains(id) && board.snapshot(id).kind == CreatureSnapshotKind::Aphid,
        ).len(),
        board.summary.ladybugs == Set::new(
            |id: usize| board.active.contains(id) && board.snapshot(id).kind == CreatureSnapshotKind::Ladybug,
        ).len(),
        board.summary.food == total_food(board.field),
{
    lemma_count_is_set_size(board.creatures, CreatureKind::Aphid);
    lemma_count_is_set_size(board.creatures, CreatureKind::Ladybug);
    assert forall|kind: CreatureKind| #![trigger ids_of_kind(board.creatures, kind)]
        ids_of_kind(board.creatures, kind) =~= Set::new(
            |id: usize| board.active.contains(id) && board.snapshot(id).kind == snapshot_kind(kind),
        ) by {
        assert forall|id: usize| ids_of_kind(board.creatures, kind).contains(id) implies board.active.contains(id)
            by {
            assert(board.creatures[id as int] is Some);
        }
        assert forall|id: usize| board.active.contains(id) implies board.creatures[id as int] is Some by {
            let a = choose|a: int| 0 <= a < board.active.len() && board.active[a] == id;
            assert(board.creatures[board.active[a] as int] is Some);
        }
    }
    assert(ids_of_kind(board.creatures, CreatureKind::Aphid) == Set::new(
        |id: usize| board.active.contains(id) && board.snapshot(id).kind == snapshot_kind(CreatureKind::Aphid),
    ));
    assert(ids_of_kind(board.creatures, CreatureKind::Ladybug) == Set::new(
        |id: usize| board.active.contains(id) && board.snapshot(id).kind == snapshot_kind(CreatureKind::Ladybug),
    ));
    assert(Set::new(
        |id: usize| board.active.contains(id) && board.snapshot(id).kind == snapshot_kind(CreatureKind::Aphid),
    ) =~= Set::new(
        |id: usize| board.active.contains(id) && board.snapshot(id).kind == CreatureSnapshotKind::Aphid,
    ));
    assert(Set::new(
        |id: usize| board.active.contains(id) && board.snapshot(id).kind == snapshot_kind(CreatureKind::Ladybug),
    ) =~= Set::new(
        |id: usize| board.active.contains(id) && board.snapshot(id).kind == CreatureSnapshotKind::Ladybug,
    ));
}

/// The creatures of `kind` standing at `location`, as their snapshots show
/// them.
pub open spec fn standing_at(board: BoardView, kind: CreatureKind, location: Coordinates) -> Set<usize> {
    Set::new(
        |id: usize|
            board.active.contains(id) && board.snapshot(id).kind == snapshot_kind(kind)
                && board.snapshot(id).location == location,
    )
}

/// The chance a fight asks is set by who shares the cell: a living aphid
/// asks the aphid kill chance, with every other aphid standing in its cell
/// as an accomplice, when a ladybug stands there too; a living ladybug asks
/// the ladybug kill chance when an aphid stands there; with no prey in the
/// cell no chance is asked.
pub proof fn law_combat_chance_counts_the_accomplices(board: BoardView, id: usize)
    requires
        board.wf(),
        board.living(id as int),
    ensures
        kind_of(board.creature(id as int)) == CreatureKind::Aphid ==> combat_chance(board, id as int) == if standing_at(
            board,
            CreatureKind::Ladybug,
            location_of(board.creature(id as int)),
        ).len() == 0 {
            None
        } else {
            Some(
                Chance::AphidKill {
                    accomplices: standing_at(board, CreatureKind::Aphid, location_of(board.creature(id as int))).remove(
                        id,
                    ).len() as usize,
                },
            )
        },
        kind_of(board.creature(id as int)) == CreatureKind::Ladybug ==> combat_chance(board, id as int) == if standing_at(
            board,
            CreatureKind::Aphid,
            location_of(board.creature(id as int)),
        ).len() == 0 {
            None
        } else {
            Some(Chance::LadybugKill)
        },
{
    let creature = board.creature(id as int);
    let location = location_of(creature);
    assert(board.creatures_sound());
    assert(board.in_bounds(location));
    law_cell_counts_match_snapshots(board, location, CreatureKind::Aphid);
    law_cell_counts_match_snapshots(board, location, CreatureKind::Ladybug);
    let aphids = standing_at(board, CreatureKind::Aphid, location);
    assert(board.active.contains(id));
    if kind_of(creature) == CreatureKind::Aphid {
        assert(aphids.contains(id));
        assert(aphids.remove(id).len() == aphids.len() - 1);
    }
}

/// The slots in a cell number its creatures of each kind: the snapshots of
/// that kind standing there have slots `0..n`, one each, where `n` is the
/// cell's count of that kind, and slot `s` belongs to the creature the cell
/// lists at `s`.
pub proof fn law_cell_slots_number_the_cell(board: BoardView, location: Coordinates, kind: CreatureKind)
    requires
        board.wf(),
        board.in_bounds(location),
    ensures
        forall|id: usize|
            #![trigger board.snapshot(id)]
            board.active.contains(id) && board.snapshot(id).kind == snapshot_kind(kind) && board.snapshot(id).location
                == location ==> {
                &&& board.snapshot(id).cell_slot < board.occupants_at(location, kind).len()
                &&& board.occupants_at(location, kind)[board.snapshot(id).cell_slot as int] == id
            },
        forall|s: int|
            0 <= s < board.occupants_at(location, kind).len() ==> {
                let id = #[trigger] board.occupants_at(location, kind)[s];
                &&& board.active.contains(id)
                &&& board.snapshot(id).kind == snapshot_kind(kind)
                &&& board.snapshot(id).location == location
                &&& board.snapshot(id).cell_slot == s
            },
{
    let i = board.index_of(location);
    let list = board.occupants(i, kind);
    lemma_index_in_field(board.rows as int, board.cols as int, location.x as int, location.y as int);
    assert forall|id: usize|
        #![trigger board.snapshot(id)]
        board.active.contains(id) && board.snapshot(id).kind == snapshot_kind(kind) && board.snapshot(id).location
            == location implies {
            &&& board.snapshot(id).cell_slot < list.len()
            &&& list[board.snapshot(id).cell_slot as int] == id
        } by {
        let a = choose|a: int| 0 <= a < board.active.len() && board.active[a] == id;
        assert(board.creatures[board.active[a] as int] is Some);
        assert(board.placed(id as int));
        assert(kind_of(board.creature(id as int)) == kind);
    }
    assert forall|s: int| 0 <= s < list.len() implies {
        let id = #[trigger] list[s];
        &&& board.active.contains(id)
        &&& board.snapshot(id).kind == snapshot_kind(kind)
        &&& board.snapshot(id).location == location
        &&& board.snapshot(id).cell_slot == s
    } by {
        let id = list[s];
        assert(board.sits_at(id, i, s, kind));
        let creature = board.creature(id as int);
        assert(board.creatures_sound());
        lemma_index_is_unique(board, location_of(creature), location);
    }
}

/// A cell's count of each kind is the number of creature snapshots of that
/// kind standing on it: on a well-formed board, the creatures a cell lists are
/// exactly the living creatures of that kind there.
pub proof fn law_cell_counts_match_snapshots(board: BoardView, location: Coordinates, kind: CreatureKind)
    requires
        board.wf(),
        board.in_bounds(location),
    ensures
        board.occupants_at(location, kind).len() == Set::new(
            |id: usize|
                board.active.contains(id) && board.snapshot(id).kind == snapshot_kind(kind)
                    && board.snapshot(id).location == location,
        ).len(),
        Set::new(
            |id: usize|
                board.active.contains(id) && board.snapshot(id).kind == snapshot_kind(kind)
                    && board.snapshot(id).location == location,
        ).finite(),
{
    broadcast use vstd::seq_lib::seq_to_set_is_finite;

    let i = board.index_of(location);
    let list = board.occupants(i, kind);
    let standing = Set::new(
        |id: usize|
            board.active.contains(id) && board.snapshot(id).kind == snapshot_kind(kind)
                && board.snapshot(id).location == location,
    );
    lemma_index_in_field(board.rows as int, board.cols as int, location.x as int, location.y as int);
    assert(list.no_duplicates()) by {
        assert forall|p: int, q: int| 0 <= p < list.len() && 0 <= q < list.len() && p != q implies list[p]
            != list[q] by {
            assert(board.sits_at(list[p], i, p, kind));
            assert(board.sits_at(list[q], i, q, kind));
        }
    }
    assert(list.to_set() =~= standing) by {
        assert forall|id: usize| list.to_set().contains(id) implies standing.contains(id) by {
            let s = choose|s: int| 0 <= s < list.len() && list[s] == id;
            assert(board.sits_at(list[s], i, s, kind));
            let creature = board.creature(id as int);
            assert(board.creatures_sound());
            assert(board.in_bounds(location_of(creature)));
            lemma_index_is_unique(board, location_of(creature), location);
            assert(board.active.contains(id));
        }
        assert forall|id: usize| standing.contains(id) implies list.to_set().contains(id) by {
            let a = choose|a: int| 0 <= a < board.active.len() && board.active[a] == id;
            assert(board.creatures[board.active[a] as int] is Some);
            let creature = board.creature(id as int);
            assert(board.placed(id as int));
            assert(kind_of(creature) == kind);
            assert(list[board.cell_slots[id as int] as int] == id);
        }
    }
    list.unique_seq_to_set();
}

/// Two moves of one creature from one board whose draws both start `rest`
/// took the same draws and left the same board.
proof fn lemma_one_move_is_fixed(
    board: BoardView,
    id: usize,
    g1: Seq<Draw>,
    a1: BoardView,
    g2: Seq<Draw>,
    a2: BoardView,
    rest: Seq<Draw>,
)
    requires
        moved_as_drawn(board, id, g1, a1),
        moved_as_drawn(board, id, g2, a2),
        g1.is_prefix_of(rest),
        g2.is_prefix_of(rest),
    ensures
        g1 == g2,
        a1 == a2,
{
    if board.living(id as int) {
        let c = board.creature(id as int);
        assert(g1.len() > 0 && g2.len() > 0) by {
            match c {
                Creature::Aphid(_) => {},
                Creature::Ladybug(_) => {},
            }
        }
        assert(g1[0] == rest[0] && g2[0] == rest[0]);
        match c {
            Creature::Aphid(_) => {
                if g1.len() == 2 || g2.len() == 2 {
                    assert(g1.len() == 2 && g2.len() == 2);
                    assert(g1[1] == rest[1] && g2[1] == rest[1]);
                }
            },
            Creature::Ladybug(_) => {
                let turned = g1[0] == Draw::Asked { chance: Chance::LadybugDirection, answer: true };
                if turned {
                    assert(g1[1] == rest[1] && g2[1] == rest[1]);
                    assert(g1[2] == rest[2] && g2[2] == rest[2]);
                    if g1.len() == 4 || g2.len() == 4 {
                        assert(g1[3] == rest[3] && g2[3] == rest[3]);
                    }
                } else {
                    assert(g1[1] == rest[1] && g2[1] == rest[1]);
                    if g1.len() == 3 || g2.len() == 3 {
                        assert(g1[2] == rest[2] && g2[2] == rest[2]);
                    }
                }
            },
        }
        assert(g1.len() == g2.len());
        assert(g1 =~= g2);
        assert(a1.creature(id as int) == a2.creature(id as int));
    }
}

/// A prefix of a prefix, past a common first part, lines up with the rest.
proof fn lemma_prefix_after(first: Seq<Draw>, more: Seq<Draw>, rest: Seq<Draw>)
    requires
        (first + more).is_prefix_of(rest),
    ensures
        first.is_prefix_of(rest),
        more.is_prefix_of(rest.skip(first.len() as int)),
{
    assert forall|i: int| 0 <= i < first.len() implies first[i] == rest[i] by {
        assert((first + more)[i] == rest[i]);
    }
    assert forall|i: int| 0 <= i < more.len() implies more[i] == rest.skip(first.len() as int)[i] by {
        assert((first + more)[first.len() + i] == rest[first.len() + i]);
    }
    assert(first =~= rest.subrange(0, first.len() as int));
    assert(more =~= rest.skip(first.len() as int).subrange(0, more.len() as int));
}

/// Two movement phases from one board whose draws both start `rest` passed
/// through the same boards with the same draws.
proof fn lemma_moves_are_fixed(
    ids: Seq<usize>,
    b1: Seq<BoardView>,
    g1: Seq<Seq<Draw>>,
    b2: Seq<BoardView>,
    g2: Seq<Seq<Draw>>,
    rest: Seq<Draw>,
)
    requires
        movement_phase(ids, b1, g1),
        movement_phase(ids, b2, g2),
        b1[0] == b2[0],
        g1.flatten().is_prefix_of(rest),
        g2.flatten().is_prefix_of(rest),
    ensures
        b1 == b2,
        g1 == g2,
    decreases ids.len(),
{
    if ids.len() == 0 {
        assert(b1 =~= b2);
        assert(g1 =~= g2);
    } else {
        assert(g1.flatten() == g1[0] + g1.drop_first().flatten());
        assert(g2.flatten() == g2[0] + g2.drop_first().flatten());
        lemma_prefix_after(g1[0], g1.drop_first().flatten(), rest);
        lemma_prefix_after(g2[0], g2.drop_first().flatten(), rest);
        assert(moved_as_drawn(b1[0], ids[0], g1[0], b1[0int + 1]));
        assert(moved_as_drawn(b2[0], ids[0], g2[0], b2[0int + 1]));
        lemma_one_move_is_fixed(b1[0], ids[0], g1[0], b1[1], g2[0], b2[1], rest);
        let ids2 = ids.drop_first();
        assert forall|k: int| 0 <= k < ids2.len() implies #[trigger] moved_as_drawn(
            b1.drop_first()[k],
            ids2[k],
            g1.drop_first()[k],
            b1.drop_first()[k + 1],
        ) by {
            assert(moved_as_drawn(b1[k + 1], ids[k + 1], g1[k + 1], b1[(k + 1) + 1]));
        }
        assert forall|k: int| 0 <= k < ids2.len() implies #[trigger] moved_as_drawn(
            b2.drop_first()[k],
            ids2[k],
            g2.drop_first()[k],
            b2.drop_first()[k + 1],
        ) by {
            assert(moved_as_drawn(b2[k + 1], ids[k + 1], g2[k + 1], b2[(k + 1) + 1]));
        }
        lemma_moves_are_fixed(
            ids2,
            b1.drop_first(),
            g1.drop_first(),
            b2.drop_first(),
            g2.drop_first(),
            rest.skip(g1[0].len() as int),
        );
        assert(b1 =~= b2) by {
            assert forall|k: int| 0 <= k < b1.len() implies b1[k] == b2[k] by {
                if k > 0 {
                    assert(b1[k] == b1.drop_first()[k - 1]);
                    assert(b2[k] == b2.drop_first()[k - 1]);
                }
            }
        }
        assert(g1 =~= g2) by {
            assert forall|k: int| 0 <= k < g1.len() implies g1[k] == g2[k] by {
                if k > 0 {
                    assert(g1[k] == g1.drop_first()[k - 1]);
                    assert(g2[k] == g2.drop_first()[k - 1]);
                }
            }
        }
    }
}

/// Whether two boards differ at most in their death marks, their marking
/// round and their cached totals.
pub open spec fn same_but_marks(a: BoardView, b: BoardView) -> bool {
    BoardView { death_marks: b.death_marks, epoch: b.epoch, summary: b.summary, ..a } == b
}

/// Two fights of one creature, from boards that differ only in their death
/// marks but mark the same creatures, whose draws both start `rest`, took the
/// same draws and again leave such boards.
proof fn lemma_one_fight_is_fixed(
    x1: BoardView,
    x2: BoardView,
    id: usize,
    g1: Seq<Draw>,
    y1: BoardView,
    g2: Seq<Draw>,
    y2: BoardView,
    rest: Seq<Draw>,
)
    requires
        same_but_marks(x1, x2),
        x1.pending() == x2.pending(),
        x1.death_marks.len() == x1.creatures.len(),
        x2.death_marks.len() == x2.creatures.len(),
        fought_as_drawn(x1, id, g1, y1),
        fought_as_drawn(x2, id, g2, y2),
        g1.is_prefix_of(rest),
        g2.is_prefix_of(rest),
    ensures
        g1 == g2,
        same_but_marks(y1, y2),
        y1.pending() == y2.pending(),
        y1.death_marks.len() == y1.creatures.len(),
        y2.death_marks.len() == y2.creatures.len(),
{
    assert(x1.creatures == x2.creatures && x1.field == x2.field && x1.rows == x2.rows && x1.cols == x2.cols);
    assert(combat_chance(x1, id as int) == combat_chance(x2, id as int));
    if !x1.living(id as int) || x1.pending().contains(id) || combat_chance(x1, id as int) is None {
        assert(g1 =~= g2);
    } else {
        assert(g1[0] == rest[0] && g2[0] == rest[0]);
        assert(g1 =~= g2);
        if g1[0]->answer {
            let creature = x1.creature(id as int);
            let list = x1.occupants_at(location_of(creature), prey_of(kind_of(creature)));
            let killed = list.last();
            assert(y1.pending() =~= y2.pending()) by {
                assert forall|c: usize| #[trigger] y1.pending().contains(c) <==> y2.pending().contains(c) by {
                    assert(y1.pending().contains(c) == ((c as int) < y1.creatures.len() && y1.death_marks[c as int]
                        == y1.epoch && y1.creatures[c as int] is Some));
                    assert(y2.pending().contains(c) == ((c as int) < y2.creatures.len() && y2.death_marks[c as int]
                        == y2.epoch && y2.creatures[c as int] is Some));
                    assert(x1.pending().contains(c) == ((c as int) < x1.creatures.len() && x1.death_marks[c as int]
                        == x1.epoch && x1.creatures[c as int] is Some));
                    assert(x2.pending().contains(c) == ((c as int) < x2.creatures.len() && x2.death_marks[c as int]
                        == x2.epoch && x2.creatures[c as int] is Some));
                    if (c as int) < x1.creatures.len() {
                        if c != killed {
                            assert(y1.death_marks[c as int] == x1.death_marks[c as int]);
                            assert(y2.death_marks[c as int] == x2.death_marks[c as int]);
                        } else {
                            assert(y1.death_marks[c as int] == y1.epoch);
                            assert(y2.death_marks[c as int] == y2.epoch);
                        }
                    }
                }
            }
        }
    }
}

/// Two fighting phases from such boards whose draws both start `rest` took
/// the same draws and end on such boards.
proof fn lemma_fights_are_fixed(
    ids: Seq<usize>,
    b1: Seq<BoardView>,
    g1: Seq<Seq<Draw>>,
    b2: Seq<BoardView>,
    g2: Seq<Seq<Draw>>,
    rest: Seq<Draw>,
)
    requires
        fighting_phase(ids, b1, g1),
        fighting_phase(ids, b2, g2),
        same_but_marks(b1[0], b2[0]),
        b1[0].pending() == b2[0].pending(),
        b1[0].death_marks.len() == b1[0].creatures.len(),
        b2[0].death_marks.len() == b2[0].creatures.len(),
        g1.flatten().is_prefix_of(rest),
        g2.flatten().is_prefix_of(rest),
    ensures
        g1 == g2,
        same_but_marks(b1.last(), b2.last()),
        b1.last().pending() == b2.last().pending(),
        b1.last().death_marks.len() == b1.last().creatures.len(),
        b2.last().death_marks.len() == b2.last().creatures.len(),
    decreases ids.len(),
{
    if ids.len() == 0 {
        assert(g1 =~= g2);
    } else {
        assert(g1.flatten() == g1[0] + g1.drop_first().flatten());
        assert(g2.flatten() == g2[0] + g2.drop_first().flatten());
        lemma_prefix_after(g1[0], g1.drop_first().flatten(), rest);
        lemma_prefix_after(g2[0], g2.drop_first().flatten(), rest);
        assert(fought_as_drawn(b1[0], ids[0], g1[0], b1[0int + 1]));
        assert(fought_as_drawn(b2[0], ids[0], g2[0], b2[0int + 1]));
        lemma_one_fight_is_fixed(b1[0], b2[0], ids[0], g1[0], b1[1], g2[0], b2[1], rest);
        let ids2 = ids.drop_first();
        assert forall|k: int| 0 <= k < ids2.len() implies #[trigger] fought_as_drawn(
            b1.drop_first()[k],
            ids2[k],
            g1.drop_first()[k],
            b1.drop_first()[k + 1],
        ) by {
            assert(fought_as_drawn(b1[k + 1], ids[k + 1], g1[k + 1], b1[(k + 1) + 1]));
        }
        assert forall|k: int| 0 <= k < ids2.len() implies #[trigger] fought_as_drawn(
            b2.drop_first()[k],
            ids2[k],
            g2.drop_first()[k],
            b2.drop_first()[k + 1],
        ) by {
            assert(fought_as_drawn(b2[k + 1], ids[k + 1], g2[k + 1], b2[(k + 1) + 1]));
        }
        lemma_fights_are_fixed(
            ids2,
            b1.drop_first(),
            g1.drop_first(),
            b2.drop_first(),
            g2.drop_first(),
            rest.skip(g1[0].len() as int),
        );
        assert(g1 =~= g2) by {
            assert forall|k: int| 0 <= k < g1.len() implies g1[k] == g2[k] by {
                if k > 0 {
                    assert(g1[k] == g1.drop_first()[k - 1]);
                    assert(g2[k] == g2.drop_first()[k - 1]);
                }
            }
        }
    }
}

/// Two breedings of one creature, from boards that differ only in their death
/// marks, whose draws both start `rest`, took the same draws and again leave
/// such boards.
proof fn lemma_one_breeding_is_fixed(
    x1: BoardView,
    x2: BoardView,
    id: usize,
    g1: Seq<Draw>,
    y1: BoardView,
    g2: Seq<Draw>,
    y2: BoardView,
    rest: Seq<Draw>,
)
    requires
        same_but_marks(x1, x2),
        bred_as_drawn(x1, id, g1, y1),
        bred_as_drawn(x2, id, g2, y2),
        g1.is_prefix_of(rest),
        g2.is_prefix_of(rest),
    ensures
        g1 == g2,
        same_but_marks(y1, y2),
{
    assert(x1.creatures == x2.creatures && x1.field == x2.field && x1.rows == x2.rows && x1.cols == x2.cols);
    assert(procreation_chance(x1, id as int) == procreation_chance(x2, id as int));
    if procreation_chance(x1, id as int) is None {
        assert(g1 =~= g2);
    } else {
        assert(g1[0] == rest[0] && g2[0] == rest[0]);
        let parent = x1.creature(id as int);
        if g1[0]->answer && kind_of(parent) == CreatureKind::Ladybug {
            assert(g1[1] == rest[1] && g2[1] == rest[1]);
        }
        assert(g1 =~= g2);
        if g1[0]->answer {
            if kind_of(parent) == CreatureKind::Ladybug {
                let child = x1.creatures.len() as int;
                assert(y1.creatures[child] == y2.creatures[child]);
                assert(y1.creatures =~= y2.creatures) by {
                    assert forall|c: int| 0 <= c < y1.creatures.len() implies y1.creatures[c] == y2.creatures[c] by {
                        if c < child {
                            assert(y1.creatures.drop_last()[c] == y2.creatures.drop_last()[c]);
                        }
                    }
                }
            }
        }
    }
}

/// Two breeding phases from boards that differ only in their death marks,
/// whose draws both start `rest`, took the same draws and end on such boards.
proof fn lemma_breedings_are_fixed(
    ids: Seq<usize>,
    b1: Seq<BoardView>,
    g1: Seq<Seq<Draw>>,
    b2: Seq<BoardView>,
    g2: Seq<Seq<Draw>>,
    rest: Seq<Draw>,
)
    requires
        breeding_phase(ids, b1, g1),
        breeding_phase(ids, b2, g2),
        same_but_marks(b1[0], b2[0]),
        g1.flatten().is_prefix_of(rest),
        g2.flatten().is_prefix_of(rest),
    ensures
        g1 == g2,
        same_but_marks(b1.last(), b2.last()),
    decreases ids.len(),
{
    if ids.len() == 0 {
        assert(g1 =~= g2);
    } else {
        assert(g1.flatten() == g1[0] + g1.drop_first().flatten());
        assert(g2.flatten() == g2[0] + g2.drop_first().flatten());
        lemma_prefix_after(g1[0], g1.drop_first().flatten(), rest);
        lemma_prefix_after(g2[0], g2.drop_first().flatten(), rest);
        assert(bred_as_drawn(b1[0], ids[0], g1[0], b1[0int + 1]));
        assert(bred_as_drawn(b2[0], ids[0], g2[0], b2[0int + 1]));
        lemma_one_breeding_is_fixed(b1[0], b2[0], ids[0], g1[0], b1[1], g2[0], b2[1], rest);
        let ids2 = ids.drop_first();
        assert forall|k: int| 0 <= k < ids2.len() implies #[trigger] bred_as_drawn(
            b1.drop_first()[k],
            ids2[k],
            g1.drop_first()[k],
            b1.drop_first()[k + 1],
        ) by {
            assert(bred_as_drawn(b1[k + 1], ids[k + 1], g1[k + 1], b1[(k + 1) + 1]));
        }
        assert forall|k: int| 0 <= k < ids2.len() implies #[trigger] bred_as_drawn(
            b2.drop_first()[k],
            ids2[k],
            g2.drop_first()[k],
            b2.drop_first()[k + 1],
        ) by {
            assert(bred_as_drawn(b2[k + 1], ids[k + 1], g2[k + 1], b2[(k + 1) + 1]));
        }
        lemma_breedings_are_fixed(
            ids2,
            b1.drop_first(),
            g1.drop_first(),
            b2.drop_first(),
            g2.drop_first(),
            rest.skip(g1[0].len() as int),
        );
        assert(g1 =~= g2) by {
            assert forall|k: int| 0 <= k < g1.len() implies g1[k] == g2[k] by {
                if k > 0 {
                    assert(g1[k] == g1.drop_first()[k - 1]);
                    assert(g2[k] == g2.drop_first()[k - 1]);
                }
            }
        }
    }
}

/// Two feeding phases from boards that differ only in their death marks end
/// on such boards.
proof fn lemma_meals_are_fixed(ids: Seq<usize>, b1: Seq<BoardView>, b2: Seq<BoardView>)
    requires
        feeding_phase(ids, b1),
        feeding_phase(ids, b2),
        same_but_marks(b1[0], b2[0]),
    ensures
        same_but_marks(b1.last(), b2.last()),
    decreases ids.len(),
{
    if ids.len() > 0 {
        assert(fed_as_served(b1[0], ids[0], b1[0int + 1]));
        assert(fed_as_served(b2[0], ids[0], b2[0int + 1]));
        let x1 = b1[0];
        let x2 = b2[0];
        assert(x1.creatures == x2.creatures && x1.field == x2.field && x1.rows == x2.rows && x1.cols == x2.cols);
        assert(same_but_marks(meal_board(x1, ids[0] as int), meal_board(x2, ids[0] as int)));
        let ids2 = ids.drop_first();
        assert forall|k: int| 0 <= k < ids2.len() implies #[trigger] fed_as_served(
            b1.drop_first()[k],
            ids2[k],
            b1.drop_first()[k + 1],
        ) by {
            assert(fed_as_served(b1[k + 1], ids[k + 1], b1[(k + 1) + 1]));
        }
        assert forall|k: int| 0 <= k < ids2.len() implies #[trigger] fed_as_served(
            b2.drop_first()[k],
            ids2[k],
            b2.drop_first()[k + 1],
        ) by {
            assert(fed_as_served(b2[k + 1], ids[k + 1], b2[(k + 1) + 1]));
        }
        lemma_meals_are_fixed(ids2, b1.drop_first(), b2.drop_first());
    }
}

/// Only the answers for cells below the food cap shape the regrowth chances.
proof fn lemma_food_answers_are_fixed(field: Seq<CellView>, a: Seq<bool>, b: Seq<bool>, n: int)
    requires
        0 <= n <= field.len(),
        food_asks(field, a, n) == food_asks(field, b, n),
    ensures
        forall|i: int| 0 <= i < n && field[i].food < MAX_CELL_FOOD ==> #[trigger] a[i] == b[i],
    decreases n,
{
    if n > 0 {
        if field[n - 1].food < MAX_CELL_FOOD {
            let da = food_asks(field, a, n - 1);
            let db = food_asks(field, b, n - 1);
            assert(da.push(Draw::Asked { chance: Chance::FoodRegeneration, answer: a[n - 1] }).drop_last() == da);
            assert(db.push(Draw::Asked { chance: Chance::FoodRegeneration, answer: b[n - 1] }).drop_last() == db);
            assert(da == db);
            let pa = Draw::Asked { chance: Chance::FoodRegeneration, answer: a[n - 1] };
            let pb = Draw::Asked { chance: Chance::FoodRegeneration, answer: b[n - 1] };
            assert(food_asks(field, a, n) == da.push(pa));
            assert(food_asks(field, b, n) == db.push(pb));
            assert(da.push(pa).last() == pa);
            assert(db.push(pb).last() == pb);
            assert(pa == pb);
            assert(a[n - 1] == b[n - 1]);
        }
        lemma_food_answers_are_fixed(field, a, b, n - 1);
        assert forall|i: int| 0 <= i < n && field[i].food < MAX_CELL_FOOD implies #[trigger] a[i] == b[i] by {
            if i < n - 1 {
                assert(0 <= i < n - 1 && field[i].food < MAX_CELL_FOOD);
            }
        }
    }
}

/// A turn is fixed by its draws: two turns played from one board with the
/// same draws leave the same creatures, the same cells and the same slots.
pub proof fn law_a_turn_is_fixed_by_its_draws(before: BoardView, drawn: Seq<Draw>, a1: BoardView, a2: BoardView)
    requires
        played_as_drawn(before, drawn, a1),
        played_as_drawn(before, drawn, a2),
    ensures
        a1.creatures == a2.creatures,
        a1.field == a2.field,
        a1.cell_slots == a2.cell_slots,
        a1.rows == a2.rows,
        a1.cols == a2.cols,
{
    let (b1, m1, f1, fd1, br1, bd1, fe1, gr1) = choose|
        boards: Seq<BoardView>,
        groups: Seq<Seq<Draw>>,
        fights: Seq<BoardView>,
        fight_draws: Seq<Seq<Draw>>,
        breeds: Seq<BoardView>,
        breed_draws: Seq<Seq<Draw>>,
        fed: Seq<BoardView>,
        grows: Seq<bool>,
    | played_through(before, drawn, a1, boards, groups, fights, fight_draws, breeds, breed_draws, fed, grows);
    let (b2, m2, f2, fd2, br2, bd2, fe2, gr2) = choose|
        boards: Seq<BoardView>,
        groups: Seq<Seq<Draw>>,
        fights: Seq<BoardView>,
        fight_draws: Seq<Seq<Draw>>,
        breeds: Seq<BoardView>,
        breed_draws: Seq<Seq<Draw>>,
        fed: Seq<BoardView>,
        grows: Seq<bool>,
    | played_through(before, drawn, a2, boards, groups, fights, fight_draws, breeds, breed_draws, fed, grows);
    let ids = before.active;
    let food1 = food_asks(fe1.last().field, gr1, fe1.last().field.len() as int);
    let food2 = food_asks(fe2.last().field, gr2, fe2.last().field.len() as int);
    assert(drawn =~= m1.flatten() + (fd1.flatten() + (bd1.flatten() + food1)));
    assert(drawn =~= m2.flatten() + (fd2.flatten() + (bd2.flatten() + food2)));
    lemma_prefix_after(m1.flatten(), fd1.flatten() + (bd1.flatten() + food1), drawn);
    lemma_prefix_after(m2.flatten(), fd2.flatten() + (bd2.flatten() + food2), drawn);
    lemma_moves_are_fixed(ids, b1, m1, b2, m2, drawn);
    let rest = drawn.skip(m1.flatten().len() as int);
    lemma_prefix_after(fd1.flatten(), bd1.flatten() + food1, rest);
    lemma_prefix_after(fd2.flatten(), bd2.flatten() + food2, rest);
    assert(same_but_marks(f1[0], f2[0]));
    lemma_fights_are_fixed(ids, f1, fd1, f2, fd2, rest);
    let rest2 = rest.skip(fd1.flatten().len() as int);
    lemma_prefix_after(bd1.flatten(), food1, rest2);
    lemma_prefix_after(bd2.flatten(), food2, rest2);
    assert(br1[0].creatures =~= br2[0].creatures) by {
        assert forall|c: int| 0 <= c < br1[0].creatures.len() implies br1[0].creatures[c] == br2[0].creatures[c] by {
            assert(f1.last().pending().contains(c as usize) == f2.last().pending().contains(c as usize));
        }
    }
    assert(same_but_marks(br1[0], br2[0]));
    lemma_breedings_are_fixed(ids, br1, bd1, br2, bd2, rest2);
    lemma_meals_are_fixed(ids, fe1, fe2);
    let last1 = fe1.last();
    let last2 = fe2.last();
    assert(last1.field == last2.field && last1.creatures == last2.creatures);
    assert(food1 =~= food2) by {
        assert(food1 =~= rest2.skip(bd1.flatten().len() as int));
        assert(food2 =~= rest2.skip(bd2.flatten().len() as int));
    }
    lemma_food_answers_are_fixed(last1.field, gr1, gr2, last1.field.len() as int);
    assert(a1.field =~= a2.field) by {
        assert forall|i: int| 0 <= i < a1.field.len() implies a1.field[i] == a2.field[i] by {
            if last1.field[i].food < MAX_CELL_FOOD {
                assert(gr1[i] == gr2[i]);
            }
        }
    }
    assert(a1.creatures =~= a2.creatures) by {
        assert forall|c: int| 0 <= c < a1.creatures.len() implies a1.creatures[c] == a2.creatures[c] by {}
    }
}

/// Breeding never brings a creature that is not alive back.
proof fn lemma_breeding_keeps_the_dead_out(ids: Seq<usize>, boards: Seq<BoardView>, groups: Seq<Seq<Draw>>, c: int, k: int)
    requires
        breeding_phase(ids, boards, groups),
        0 <= k < boards.len(),
        0 <= c < boards[0].creatures.len(),
        !boards[0].living(c),
    ensures
        !boards[k].living(c),
        c < boards[k].creatures.len(),
    decreases k,
{
    if k > 0 {
        lemma_breeding_keeps_the_dead_out(ids, boards, groups, c, k - 1);
        let j = k - 1;
        assert(bred_as_drawn(boards[j], ids[j], groups[j], boards[j + 1]));
        let before = boards[k - 1];
        if procreation_chance(before, ids[k - 1] as int) is Some && groups[k - 1][0]->answer {
            assert(boards[k].creatures.drop_last() == before.creatures ==> boards[k].creatures[c] == before.creatures[c]);
            if kind_of(before.creature(ids[k - 1] as int)) == CreatureKind::Aphid {
                assert(boards[k].creatures[c] == before.creatures.push(boards[k].creatures.last())[c]);
            }
        }
    }
}

/// A meal never brings a creature that is not alive back.
proof fn lemma_feeding_keeps_the_dead_out(ids: Seq<usize>, boards: Seq<BoardView>, c: int, k: int)
    requires
        feeding_phase(ids, boards),
        0 <= k < boards.len(),
        !boards[0].living(c),
    ensures
        !boards[k].living(c),
    decreases k,
{
    if k > 0 {
        lemma_feeding_keeps_the_dead_out(ids, boards, c, k - 1);
        let j = k - 1;
        assert(fed_as_served(boards[j], ids[j], boards[j + 1]));
    }
}

/// The killed act no more: in a turn chained as `played_as_drawn` chains its
/// phases, a creature a fight killed is gone from the table when breeding
/// starts, so it neither breeds nor eats later in the turn, and it is not alive
/// when the turn ends.
pub proof fn law_the_killed_act_no_more(
    ids: Seq<usize>,
    fought: BoardView,
    breeds: Seq<BoardView>,
    breed_draws: Seq<Seq<Draw>>,
    fed: Seq<BoardView>,
    after: BoardView,
    killed: usize,
)
    requires
        breeds.len() > 0,
        breeds[0].creatures.len() == fought.creatures.len(),
        forall|c: int| 0 <= c < fought.creatures.len() ==> #[trigger] breeds[0].creatures[c]
            == if fought.pending().contains(c as usize) {
            None
        } else {
            fought.creatures[c]
        },
        breeding_phase(ids, breeds, breed_draws),
        fed[0] == breeds.last(),
        feeding_phase(ids, fed),
        after.creatures.len() == fed.last().creatures.len(),
        forall|c: int| 0 <= c < after.creatures.len() && (#[trigger] after.creatures[c]) is Some
            ==> after.creatures[c] == fed.last().creatures[c],
        fought.pending().contains(killed),
    ensures
        forall|k: int| 0 <= k < breeds.len() ==> !(#[trigger] breeds[k]).living(killed as int),
        forall|k: int| 0 <= k < fed.len() ==> !(#[trigger] fed[k]).living(killed as int),
        !after.living(killed as int),
{
    let c = killed as int;
    assert(breeds[0].creatures[c] == None::<Creature>);
    assert forall|k: int| 0 <= k < breeds.len() implies !(#[trigger] breeds[k]).living(c) by {
        lemma_breeding_keeps_the_dead_out(ids, breeds, breed_draws, c, k);
    }
    lemma_breeding_keeps_the_dead_out(ids, breeds, breed_draws, c, breeds.len() - 1);
    assert forall|k: int| 0 <= k < fed.len() implies !(#[trigger] fed[k]).living(c) by {
        lemma_feeding_keeps_the_dead_out(ids, fed, c, k);
    }
    lemma_feeding_keeps_the_dead_out(ids, fed, c, fed.len() - 1);
}

/// The board picture's count symbol: an empty cell shows `_`, a count from one
/// to nine shows that count's decimal digit, and only a count beyond nine
/// shows `~`. Different counts up to nine show different symbols.
pub proof fn law_count_symbols_are_digits(count: nat)
    ensures
        count == 0 ==> count_char(count) == '_',
        1 <= count <= 9 ==> count_char(count) as u32 == '0' as u32 + count,
        count > 9 ==> count_char(count) == '~',
        forall|other: nat| #![trigger count_char(other)] other <= 9 && count <= 9 && other != count
            ==> count_char(other) != count_char(count),
{
    assert(count_char(0) == '_');
    assert(count_char(1) as u32 == 49);
    assert(count_char(2) as u32 == 50);
    assert(count_char(3) as u32 == 51);
    assert(count_char(4) as u32 == 52);
    assert(count_char(5) as u32 == 53);
    assert(count_char(6) as u32 == 54);
    assert(count_char(7) as u32 == 55);
    assert(count_char(8) as u32 == 56);
    assert(count_char(9) as u32 == 57);
}

/// The chart's peak is the highest population of either species: no point's
/// aphids or ladybugs lie above it, and on a history with points it is one of
/// them; an empty history peaks at zero.
pub proof fn law_peak_is_the_highest_population(points: Seq<HistoryPoint>)
    ensures
        forall|k: int| 0 <= k < points.len() ==> points_peak(points) >= (#[trigger] points[k]).aphids
            && points_peak(points) >= points[k].ladybugs,
        points.len() == 0 ==> points_peak(points) == 0,
        points.len() > 0 ==> exists|k: int| 0 <= k < points.len() && (points_peak(points) == (#[trigger] points[k]).aphids
            || points_peak(points) == points[k].ladybugs),
    decreases points.len(),
{
    if points.len() > 0 {
        let rest = points.drop_last();
        law_peak_is_the_highest_population(rest);
        assert forall|k: int| 0 <= k < points.len() implies points_peak(points) >= (#[trigger] points[k]).aphids
            && points_peak(points) >= points[k].ladybugs by {
            if k < rest.len() {
                assert(points[k] == rest[k]);
            }
        }
        let last = points.len() - 1;
        if points_peak(points) == points[last].aphids || points_peak(points) == points[last].ladybugs {
        } else {
            let k = choose|k: int| 0 <= k < rest.len() && (points_peak(rest) == (#[trigger] rest[k]).aphids
                || points_peak(rest) == rest[k].ladybugs);
            assert(points[k] == rest[k]);
        }
    }
}

/// The standard board is the example config's layout: it holds the aphids and
/// the ladybugs the example lists, in that order, each with the life a config
/// gives its kind, and takes the draws building that layout takes.
pub proof fn law_standard_board_is_its_example_layout(board: BoardView, drawn: Seq<Draw>)
    requires
        standard_built(board, drawn),
    ensures
        built_from_layout(10, 10, example_aphids(), example_ladybugs(), board, drawn),
{
    reveal_with_fuel(inside, 6);
    let aphids = example_aphids();
    let ladybugs = example_ladybugs();
    assert(inside(10, 10, aphids) =~= aphids) by {
        assert(inside(10, 10, aphids.take(0)) =~= Seq::<Coordinates>::empty());
        assert(aphids.drop_last().drop_last().drop_last().drop_last().drop_last() =~= Seq::<Coordinates>::empty());
    }
    assert(inside(10, 10, ladybugs) =~= ladybugs) by {
        assert(ladybugs.drop_last().drop_last().drop_last().drop_last() =~= Seq::<Coordinates>::empty());
    }
    assert forall|j: int| 0 <= j < 5 implies holds_creature(
        board,
        j,
        CreatureKind::Aphid,
        #[trigger] inside(10, 10, aphids)[j],
        CONFIG_APHID_LIFE,
    ) by {
        assert(kind_of(board.creature(j)) == standard_creature(j).0);
    }
    assert forall|j: int| 0 <= j < 4 implies holds_creature(
        board,
        5 + j,
        CreatureKind::Ladybug,
        #[trigger] inside(10, 10, ladybugs)[j],
        CONFIG_LADYBUG_LIFE,
    ) by {
        assert(kind_of(board.creature(5 + j)) == standard_creature(5 + j).0);
    }
    assert(board.field.len() == 100);
    assert forall|j: int| 0 <= j < 4 implies #[trigger] band_drawn(board.creature(5 + j), drawn[100 + j]) by {
        assert(band_drawn(board.creature(5 + j), drawn[(5 + j) + 95]));
    }
    assert(layout_draws(board, 5, 4, drawn));
}

/// An aphid's movement draw reads the eight neighbouring cells in order, row by
/// row from the north-west, skipping its own cell: draw `v` steps to the
/// `k`-th cell of the three by three square around it, where `k` is `v` below
/// four and `v + 1` from four on.
pub proof fn law_aphid_steps_read_the_neighbourhood(v: int)
    requires
        0 <= v < 8,
    ensures
        offset(aphid_step(v)) == (
            (if v < 4 { v } else { v + 1 }) / 3 - 1,
            (if v < 4 { v } else { v + 1 }) % 3 - 1,
        ),
{
}

/// A ladybug's band is the three neighbouring cells along one side: band zero
/// lies to the north, one to the west, two to the east and three to the south;
/// its middle direction points straight to that side, and its three directions
/// differ.
pub proof fn law_bands_face_one_side(pick: int)
    requires
        0 <= pick < 4,
    ensures
        forall|k: int| 0 <= k < 3 ==> {
            let (dx, dy) = offset(#[trigger] direction_band(pick)@[k]);
            &&& pick == 0 ==> dx == -1
            &&& pick == 1 ==> dy == -1
            &&& pick == 2 ==> dy == 1
            &&& pick == 3 ==> dx == 1
        },
        (pick == 0 || pick == 3) ==> offset(direction_band(pick)@[1]).1 == 0,
        (pick == 1 || pick == 2) ==> offset(direction_band(pick)@[1]).0 == 0,
        direction_band(pick)@[0] != direction_band(pick)@[1],
        direction_band(pick)@[1] != direction_band(pick)@[2],
        direction_band(pick)@[0] != direction_band(pick)@[2],
{
    assert forall|k: int| 0 <= k < 3 implies {
        let (dx, dy) = offset(#[trigger] direction_band(pick)@[k]);
        &&& pick == 0 ==> dx == -1
        &&& pick == 1 ==> dy == -1
        &&& pick == 2 ==> dy == 1
        &&& pick == 3 ==> dx == 1
    } by {
        if k == 0 {
        } else if k == 1 {
        } else {
        }
    }
}

/// The chart's x-axis labels the first and the last turn, and the middle one
/// between them, in increasing order and each once.
pub proof fn law_x_ticks_mark_first_middle_and_last(len: nat)
    requires
        1 <= len <= usize::MAX,
    ensures
        x_tick_indices(len)[0] == 0,
        x_tick_indices(len).last() == len - 1,
        forall|a: int, b: int| 0 <= a < b < x_tick_indices(len).len() ==> #[trigger] x_tick_indices(len)[a]
            < #[trigger] x_tick_indices(len)[b],
        x_tick_indices(len).contains(((len - 1) / 2) as usize),
{
    if len > 2 {
        assert(x_tick_indices(len) == seq![0usize, ((len - 1) / 2) as usize, (len - 1) as usize]);
        assert(x_tick_indices(len)[1] == ((len - 1) / 2) as usize);
    } else {
        assert(x_tick_indices(len)[0] == ((len - 1) / 2) as usize);
    }
}

proof fn lemma_row_text_cells(board: BoardView, x: int, count: nat)
    ensures
        row_text(board, x, count).len() == 3 * count,
        forall|y: int, j: int| 0 <= y < count && 0 <= j < 3 ==> #[trigger] row_text(board, x, count)[3 * y + j]
            == cell_text(board, x, y)[j],
    decreases count,
{
    if count > 0 {
        let c1 = (count - 1) as nat;
        lemma_row_text_cells(board, x, c1);
        let rest = row_text(board, x, c1);
        let whole = row_text(board, x, count);
        assert(whole == rest + cell_text(board, x, count - 1));
        assert forall|y: int, j: int| 0 <= y < count && 0 <= j < 3 implies #[trigger] whole[3 * y + j]
            == cell_text(board, x, y)[j] by {
            if y < c1 {
                assert(3 * y + j < 3 * c1);
                assert(whole[3 * y + j] == rest[3 * y + j]);
            } else {
                assert(3 * y + j == 3 * c1 + j);
            }
        }
    }
}

proof fn lemma_rows_text_lines(board: BoardView, count: nat)
    ensures
        rows_text(board, count).len() == count * (3 * board.cols + 1),
        forall|x: int, q: int|
            0 <= x < count && 0 <= q < 3 * board.cols + 1 ==> #[trigger] rows_text(board, count)[x * (3 * board.cols
                + 1) + q] == (row_text(board, x, board.cols as nat) + seq!['\n'])[q],
    decreases count,
{
    let w = 3 * board.cols + 1;
    if count > 0 {
        let c1 = (count - 1) as nat;
        lemma_rows_text_lines(board, c1);
        lemma_row_text_cells(board, count - 1, board.cols as nat);
        let rest = rows_text(board, c1);
        let line = row_text(board, count - 1, board.cols as nat) + seq!['\n'];
        let whole = rows_text(board, count);
        assert(whole =~= rest + line);
        assert(c1 * w + w == count * w) by (nonlinear_arith)
            requires
                c1 + 1 == count,
        ;
        assert forall|x: int, q: int| 0 <= x < count && 0 <= q < w implies #[trigger] whole[x * w + q]
            == (row_text(board, x, board.cols as nat) + seq!['\n'])[q] by {
            if x < c1 {
                assert(x * w + q < c1 * w) by (nonlinear_arith)
                    requires
                        0 <= x < c1,
                        0 <= q < w,
                ;
                assert(x * w + q >= 0) by (nonlinear_arith)
                    requires
                        0 <= x,
                        0 <= q,
                        w >= 1,
                ;
                assert(whole[x * w + q] == rest[x * w + q]);
            } else {
                assert(x * w + q == c1 * w + q);
            }
        }
    }
}

/// The board picture shows each cell where it stands: after the opening empty
/// line, row `x` is the line starting at `1 + x * (3 * cols + 1)`; in it cell
/// `(x, y)` is a space, then the symbol of the count of aphids listed in the
/// cell, then that of its ladybugs; and each row ends with a newline.
pub proof fn law_picture_shows_each_cell(board: BoardView, x: int, y: int)
    requires
        0 <= x < board.rows,
        0 <= y < board.cols,
    ensures
        board_text(board).len() == 1 + board.rows * (3 * board.cols + 1),
        board_text(board)[0] == '\n',
        ({
            let at = 1 + x * (3 * board.cols + 1) + 3 * y;
            let cell = board.field[x * board.cols + y];
            &&& board_text(board)[at] == ' '
            &&& board_text(board)[at + 1] == count_char(cell.aphids.len())
            &&& board_text(board)[at + 2] == count_char(cell.ladybugs.len())
        }),
        board_text(board)[1 + x * (3 * board.cols + 1) + 3 * board.cols] == '\n',
{
    let w = 3 * board.cols + 1;
    lemma_rows_text_lines(board, board.rows as nat);
    lemma_row_text_cells(board, x, board.cols as nat);
    let rows = rows_text(board, board.rows as nat);
    let line = row_text(board, x, board.cols as nat) + seq!['\n'];
    assert(x * w + w <= board.rows * w) by (nonlinear_arith)
        requires
            0 <= x < board.rows,
            w >= 1,
    ;
    assert(x * w >= 0) by (nonlinear_arith)
        requires
            0 <= x,
            w >= 1,
    ;
    assert(board_text(board) =~= seq!['\n'] + rows);
    assert forall|j: int| 0 <= j < 3 implies board_text(board)[1 + x * w + 3 * y + j] == cell_text(board, x, y)[j] by {
        assert(rows[x * w + (3 * y + j)] == line[3 * y + j]);
        assert(row_text(board, x, board.cols as nat)[3 * y + j] == cell_text(board, x, y)[j]);
    }
    assert(rows[x * w + 3 * board.cols] == line[3 * board.cols]);
    assert(board_text(board)[1 + x * w + 3 * y] == cell_text(board, x, y)[0]);
    assert(board_text(board)[1 + x * w + 3 * y + 1] == cell_text(board, x, y)[1]);
    assert(board_text(board)[1 + x * w + 3 * y + 2] == cell_text(board, x, y)[2]);
}

/// A meal costs one: a living creature's meal takes exactly one from its
/// cell's food and its life together, never leaves the food negative, and
/// costs a life only in a cell with no food left.
pub proof fn law_a_meal_costs_one(board: BoardView, id: usize)
    requires
        board.living(id as int),
        board.food_in_range(),
        board.in_bounds(location_of(board.creature(id as int))),
        board.field.len() == board.rows * board.cols,
        life_of(board.creature(id as int)) > i32::MIN,
    ensures
        ({
            let i = board.index_of(location_of(board.creature(id as int)));
            let after = meal_board(board, id as int);
            let before_life = life_of(board.creature(id as int));
            let after_life = life_of(after.creatures[id as int]->Some_0);
            &&& after.field[i].food + after_life == board.field[i].food + before_life - 1
            &&& after.field[i].food >= 0
            &&& after_life < before_life ==> board.field[i].food == 0
            &&& after.creatures[id as int] is Some
        }),
{
    let location = location_of(board.creature(id as int));
    lemma_index_in_field(board.rows as int, board.cols as int, location.x as int, location.y as int);
}

/// Breeding needs a partner: a living creature asks its procreation chance
/// exactly when another creature of its kind stands in its cell.
pub proof fn law_breeding_needs_a_partner(board: BoardView, id: usize)
    requires
        board.wf(),
        board.living(id as int),
    ensures
        procreation_chance(board, id as int) is Some <==> standing_at(
            board,
            kind_of(board.creature(id as int)),
            location_of(board.creature(id as int)),
        ).remove(id).len() > 0,
{
    let creature = board.creature(id as int);
    let location = location_of(creature);
    let kind = kind_of(creature);
    assert(board.creatures_sound());
    law_cell_counts_match_snapshots(board, location, kind);
    let same = standing_at(board, kind, location);
    assert(board.active.contains(id));
    assert(same.contains(id));
    assert(same.remove(id).len() == same.len() - 1);
}

/// A kind that counts no creature has none in the table.
proof fn lemma_none_of_kind(creatures: Seq<Option<Creature>>, kind: CreatureKind)
    requires
        count_kind(creatures, kind) == 0,
    ensures
        forall|id: int| 0 <= id < creatures.len() ==> !is_kind(#[trigger] creatures[id], kind),
    decreases creatures.len(),
{
    if creatures.len() > 0 {
        let rest = creatures.drop_last();
        lemma_none_of_kind(rest, kind);
        assert forall|id: int| 0 <= id < creatures.len() implies !is_kind(#[trigger] creatures[id], kind) by {
            if id < rest.len() {
                assert(creatures[id] == rest[id]);
            }
        }
    }
}

/// The cached totals are the board's: on a well-formed board the summary counts
/// the living aphids and ladybugs and sums the food of every cell.
pub proof fn law_summary_is_exact(board: BoardView)
    requires
        board.wf(),
    ensures
        board.summary.aphids == count_kind(board.creatures, CreatureKind::Aphid),
        board.summary.ladybugs == count_kind(board.creatures, CreatureKind::Ladybug),
        board.summary.food == total_food(board.field),
        board.summary.food >= 0,
{
    crate::model::lemma_food_bounds(board.field);
}

/// Every living creature is listed in the cell it stands on, at its cached
/// slot, and every cell entry is a living creature of that kind standing there:
/// no creature is listed twice.
pub proof fn law_cells_and_creatures_agree(board: BoardView, id: int, i: int, kind: CreatureKind, s: int)
    requires
        board.wf(),
    ensures
        board.living(id) ==> {
            let creature = board.creature(id);
            let list = board.occupants_at(location_of(creature), kind_of(creature));
            &&& board.in_bounds(location_of(creature))
            &&& board.cell_slots[id] < list.len()
            &&& list[board.cell_slots[id] as int] == id
        },
        0 <= i < board.field.len() && 0 <= s < board.occupants(i, kind).len() ==> {
            let entry = board.occupants(i, kind)[s];
            &&& board.living(entry as int)
            &&& kind_of(board.creature(entry as int)) == kind
            &&& board.index_of(location_of(board.creature(entry as int))) == i
            &&& board.cell_slots[entry as int] == s
        },
{
    if board.living(id) {
        assert(board.creatures[id] is Some);
    }
    if 0 <= i < board.field.len() && 0 <= s < board.occupants(i, kind).len() {
        let entry = board.occupants(i, kind)[s];
        assert(board.sits_at(entry, i, s, kind));
    }
}

/// Snapshots come in stable ID order: the active list is increasing.
pub proof fn law_snapshots_in_id_order(board: BoardView, a: int, b: int)
    requires
        board.wf(),
        0 <= a < b < board.active.len(),
    ensures
        board.snapshot(board.active[a]).id < board.snapshot(board.active[b]).id,
{
}

/// Every move lands on the board, whatever the direction.
pub proof fn law_moves_stay_on_board(board: BoardView, direction: Direction, from: Coordinates)
    requires
        board.in_bounds(from),
    ensures
        board.in_bounds(board.destination(direction, from)),
{
}

/// A turn accounts for every creature: the living after it, and those that
/// died in it, are the living before it and those born in it.
pub proof fn law_turn_accounts_for_every_creature(before: BoardView, after: BoardView, stats: TurnStats)
    requires
        before.wf(),
        turn_outcome(before, after, stats),
    ensures
        after.population() + stats.deaths == before.population() + stats.births,
        stats.summary.aphids == count_kind(after.creatures, CreatureKind::Aphid),
        stats.summary.ladybugs == count_kind(after.creatures, CreatureKind::Ladybug),
{
}

/// A turn never revives a creature, never changes its kind, and never hands
/// out an ID twice: new creatures get the IDs after the old ones.
pub proof fn law_turn_keeps_ids(before: BoardView, after: BoardView, stats: TurnStats, id: int)
    requires
        turn_outcome(before, after, stats),
        0 <= id < before.creatures.len(),
    ensures
        before.creatures[id] is None ==> after.creatures[id] is None,
        after.creatures[id] is Some ==> kind_of(after.creature(id)) == kind_of(before.creature(id)),
        after.creatures.len() == before.creatures.len() + stats.births,
{
    if after.creatures[id] is Some {
        assert(before.creatures[id] is Some);
    }
}

/// On a board with no creatures left, a turn brings none: nothing is born,
/// nothing dies, and the board stays empty.
pub proof fn law_extinction_is_final(before: BoardView, after: BoardView, stats: TurnStats)
    requires
        before.wf(),
        before.summary.aphids == 0,
        before.summary.ladybugs == 0,
        turn_outcome(before, after, stats),
    ensures
        stats.births == 0,
        stats.deaths == 0,
        stats.summary.aphids == 0,
        stats.summary.ladybugs == 0,
{
    lemma_none_of_kind(before.creatures, CreatureKind::Aphid);
    lemma_none_of_kind(before.creatures, CreatureKind::Ladybug);
    if before.active.len() > 0 {
        let id = before.active[0] as int;
        assert(before.creatures[id] is Some);
        assert(!is_kind(before.creatures[id], CreatureKind::Aphid));
        assert(!is_kind(before.creatures[id], CreatureKind::Ladybug));
        assert(kind_of(before.creatures[id]->Some_0) == CreatureKind::Aphid || kind_of(
            before.creatures[id]->Some_0,
        ) == CreatureKind::Ladybug);
    }
}

/// No cell goes above the food cap: on a board within the cap, a turn keeps
/// every cell within it.
pub proof fn law_food_cap_is_kept(before: BoardView, after: BoardView, stats: TurnStats)
    requires
        before.food_capped(),
        turn_outcome(before, after, stats),
    ensures
        forall|i: int| 0 <= i < after.field.len() ==> 0 <= #[trigger] after.field[i].food <= MAX_CELL_FOOD,
{
}

/// Removing the last aphid of a cell right after adding one there gives back
/// the cells, the cached slots of every older creature and the totals; the new
/// ID stays used, as a dead one.
pub proof fn law_removing_undoes_adding(
    first: BoardView,
    second: BoardView,
    third: BoardView,
    location: Coordinates,
    life: i32,
    id: usize,
)
    requires
        first.wf(),
        second.wf(),
        first.in_bounds(location),
        aphid_added(first, second, location, life, id),
        last_removed(second, third, location, CreatureKind::Aphid),
    ensures
        third.field == first.field,
        third.summary == first.summary,
        third.creatures == first.creatures.push(None),
        third.cell_slots.subrange(0, first.cell_slots.len() as int) == first.cell_slots,
        forall|x: usize| #[trigger] third.active.contains(x) <==> first.active.contains(x),
{
    let i = first.index_of(location);
    crate::model::lemma_count_bound(first.creatures);
    lemma_index_in_field(first.rows as int, first.cols as int, location.x as int, location.y as int);
    let list = first.occupants_at(location, CreatureKind::Aphid);
    assert(second.occupants_at(location, CreatureKind::Aphid) == list.push(id));
    assert(list.push(id).drop_last() =~= list);
    assert(second.field[i].with_occupants(CreatureKind::Aphid, list) == first.field[i]);
    assert(third.field =~= first.field);
    assert(third.creatures =~= first.creatures.push(None));
    assert(third.cell_slots.subrange(0, first.cell_slots.len() as int) =~= first.cell_slots);
    assert forall|x: usize| #[trigger] third.active.contains(x) <==> first.active.contains(x) by {
        if first.active.contains(x) {
            let a = choose|a: int| 0 <= a < first.active.len() && first.active[a] == x;
            assert(second.active[a] == x);
            assert(x < first.creatures.len());
        }
        if second.active.contains(x) && x != id {
            let a = choose|a: int| 0 <= a < second.active.len() && second.active[a] == x;
            assert(a < first.active.len());
            assert(first.active[a] == x);
        }
    }
}


/// Undo is faithful: undoing an edit right after it gives back the board, the
/// generator, the totals and the history as they were before the edit, and
/// the undo stack as the edit found it (less its oldest entry when it was
/// full).
pub proof fn law_undo_reverts_an_edit<C>(
    before: Simulation<C>,
    edited_run: Simulation<C>,
    undone_run: Simulation<C>,
    edit: CellEdit,
)
    requires
        edit_outcome(before, edited_run, edit, true),
        undo_outcome(edited_run, undone_run, true),
    ensures
        undone_run.board@ == before.board@,
        undone_run.random == before.random,
        undone_run.stats == before.stats,
        undone_run.history.0@ == before.history.0@,
        undone_run.history.1@ == before.history.1@,
        undone_run.edits@ == kept_edits(before.edits@),
        !undone_run.playing,
{
}

/// The undo stack never grows past its limit.
pub proof fn law_undo_stack_is_bounded<C>(
    before: Simulation<C>,
    after: Simulation<C>,
    edit: CellEdit,
    changed: bool,
)
    requires
        edit_outcome(before, after, edit, changed),
        before.edits@.len() <= EDIT_UNDO_LIMIT,
    ensures
        after.edits@.len() <= EDIT_UNDO_LIMIT,
{
}

/// The population history never grows past its limit, and keeps the turn
/// just recorded last.
pub proof fn law_history_is_bounded(points: Seq<HistoryPoint>, turn: usize, aphids: usize, ladybugs: usize)
    requires
        points.len() <= HISTORY_LIMIT,
    ensures
        recorded(points, turn, aphids, ladybugs).len() <= HISTORY_LIMIT,
        recorded(points, turn, aphids, ladybugs).last() == (HistoryPoint { turn, aphids, ladybugs }),
{
}

/// Whether a number is a power of ten.
pub open spec fn is_power_of_ten(n: nat) -> bool
    decreases n,
{
    if n == 1 {
        true
    } else if n >= 10 && n % 10 == 0 {
        is_power_of_ten(n / 10)
    } else {
        false
    }
}

proof fn lemma_magnitude_is_power_of_ten(raw: nat, magnitude: nat)
    requires
        is_power_of_ten(magnitude),
    ensures
        is_power_of_ten(axis_magnitude(raw, magnitude)),
    decreases raw - magnitude,
{
    if magnitude > 0 && magnitude * 10 <= raw {
        assert((magnitude * 10) % 10 == 0 && (magnitude * 10) / 10 == magnitude) by (nonlinear_arith);
        lemma_magnitude_is_power_of_ten(raw, magnitude * 10);
    }
}

/// A power of ten is at least one.
proof fn lemma_power_of_ten_positive(n: nat)
    requires
        is_power_of_ten(n),
    ensures
        n >= 1,
    decreases n,
{
    if n != 1 {
        lemma_power_of_ten_positive(n / 10);
    }
}

/// Two different powers of ten lie at least a factor of ten apart.
proof fn lemma_powers_of_ten_apart(p: nat, q: nat)
    requires
        is_power_of_ten(p),
        is_power_of_ten(q),
    ensures
        p == q || 10 * p <= q || 10 * q <= p,
    decreases p + q,
{
    if p == 1 {
        if q != 1 {
            assert(q >= 10);
        }
    } else if q == 1 {
        assert(p >= 10);
    } else {
        let a = p / 10;
        let b = q / 10;
        assert(p == 10 * a && q == 10 * b) by (nonlinear_arith)
            requires
                p % 10 == 0,
                q % 10 == 0,
                a == p / 10,
                b == q / 10,
        ;
        lemma_powers_of_ten_apart(a, b);
    }
}

/// The chart's step is the finest clean one: no step of one, two or five times
/// a power of ten that covers the axis bound in four intervals is smaller.
pub proof fn law_axis_step_is_the_finest(max: nat, power: nat, m: nat)
    requires
        is_power_of_ten(power),
        m == 1 || m == 2 || m == 5,
        4 * (m * power) >= axis_bound(max),
    ensures
        nice_step(max) <= m * power,
{
    let bound = axis_bound(max);
    let raw = ceil_div(bound, 4);
    let d = m * power;
    assert(d >= raw) by {
        if d < raw {
            assert(4 * d <= 4 * raw - 4);
        }
    }
    lemma_magnitude(raw, 1);
    let magnitude = axis_magnitude(raw, 1);
    lemma_magnitude_is_power_of_ten(raw, 1);
    lemma_power_of_ten_positive(power);
    lemma_powers_of_ten_apart(power, magnitude);
    assert(nice_step(max) == axis_step(raw, magnitude));
    if power == magnitude {
    } else if 10 * power <= magnitude {
        assert(d <= 5 * power);
    } else {
        assert(d >= power);
    }
}

/// The chart's axis is clean: it reaches the highest population, is a whole
/// number of steps, at most four of them, and each step is one, two or five
/// times a power of ten.
pub proof fn law_axis_is_clean(max: nat)
    ensures
        nice_top(max) >= max,
        nice_top(max) % nice_step(max) == 0,
        nice_top(max) / nice_step(max) <= 4,
        exists|power: nat|
            #[trigger] is_power_of_ten(power) && (nice_step(max) == power || nice_step(max) == 2 * power
                || nice_step(max) == 5 * power),
{
    let bound = axis_bound(max);
    let raw = ceil_div(bound, 4);
    assert(raw >= 1);
    assert(4 * raw >= bound);
    lemma_magnitude(raw, 1);
    let magnitude = axis_magnitude(raw, 1);
    lemma_magnitude_is_power_of_ten(raw, 1);
    let step = nice_step(max);
    assert(step == axis_step(raw, magnitude));
    assert(step >= raw);
    assert(step >= 1);
    let count = ceil_div(bound, step);
    assert(count * step >= bound && count <= 4) by (nonlinear_arith)
        requires
            step >= 1,
            4 * step >= bound,
            count == (if bound % step == 0 {
                bound / step
            } else {
                bound / step + 1
            }),
    ;
    assert((count * step) % step == 0 && (count * step) / step == count) by (nonlinear_arith)
        requires
            step >= 1,
    ;
    if step == 10 * magnitude {
        assert((magnitude * 10) % 10 == 0 && (magnitude * 10) / 10 == magnitude) by (nonlinear_arith);
        assert(10 * magnitude == magnitude * 10);
        assert(is_power_of_ten(10 * magnitude));
    } else {
        assert(is_power_of_ten(magnitude));
    }
}

proof fn lemma_written_locations_on_board(board: BoardView, ids: Seq<usize>, kind: CreatureKind)
    requires
        board.wf(),
        forall|a: int| 0 <= a < ids.len() ==> board.living(#[trigger] ids[a] as int),
    ensures
        inside(board.rows, board.cols, kind_locations(board, ids, kind)) == kind_locations(board, ids, kind),
        outside(board.rows, board.cols, snapshot_kind(kind), kind_locations(board, ids, kind))
            == Seq::<OutsideBoard>::empty(),
    decreases ids.len(),
{
    if ids.len() > 0 {
        let rest_ids = ids.drop_last();
        assert forall|a: int| 0 <= a < rest_ids.len() implies board.living(#[trigger] rest_ids[a] as int) by {
            assert(rest_ids[a] == ids[a]);
        }
        lemma_written_locations_on_board(board, rest_ids, kind);
        let id = ids.last() as int;
        assert(board.living(ids[ids.len() - 1] as int));
        law_cells_and_creatures_agree(board, id, 0, kind, 0);
        let rest = kind_locations(board, rest_ids, kind);
        let all = kind_locations(board, ids, kind);
        if kind_of(board.creature(id)) == kind {
            let location = location_of(board.creature(id));
            assert(all == rest.push(location));
            assert(all.drop_last() =~= rest);
        } else {
            assert(all == rest);
        }
    }
}

/// What a board section lists is on the board: reading it back places every
/// creature it names and leaves none out.
pub proof fn law_written_layout_is_on_the_board(board: BoardView)
    requires
        board.wf(),
    ensures
        inside(board.rows, board.cols, kind_locations(board, board.active, CreatureKind::Aphid))
            == kind_locations(board, board.active, CreatureKind::Aphid),
        inside(board.rows, board.cols, kind_locations(board, board.active, CreatureKind::Ladybug))
            == kind_locations(board, board.active, CreatureKind::Ladybug),
        outside(board.rows, board.cols, CreatureSnapshotKind::Aphid, kind_locations(board, board.active, CreatureKind::Aphid))
            == Seq::<OutsideBoard>::empty(),
        outside(board.rows, board.cols, CreatureSnapshotKind::Ladybug, kind_locations(board, board.active, CreatureKind::Ladybug))
            == Seq::<OutsideBoard>::empty(),
{
    assert forall|a: int| 0 <= a < board.active.len() implies board.living(#[trigger] board.active[a] as int) by {
        assert(board.creatures[board.active[a] as int] is Some);
    }
    lemma_written_locations_on_board(board, board.active, CreatureKind::Aphid);
    lemma_written_locations_on_board(board, board.active, CreatureKind::Ladybug);
}

proof fn lemma_digit_value(d: nat)
    requires
        d < 10,
    ensures
        is_digit(digit_char(d)),
        digit_char(d) as int - '0' as int == d,
        digit_char(d) != '+' && digit_char(d) != '-',
{
}

proof fn lemma_decimal_reads_back(n: nat)
    ensures
        forall|k: int| 0 <= k < decimal(n).len() ==> is_digit(#[trigger] decimal(n)[k]),
        decimal(n).len() > 0,
        decimal(n)[0] != '+' && decimal(n)[0] != '-',
        digits_value(decimal(n)) == n,
    decreases n,
{
    lemma_digit_value(n % 10);
    if n < 10 {
        assert(n % 10 == n);
        let whole = decimal(n);
        assert(whole.drop_last() =~= Seq::<char>::empty());
        assert(whole.last() == digit_char(n));
        assert(digits_value(whole) == digits_value(whole.drop_last()) * 10 + (whole.last() as int - '0' as int) as nat);
    } else {
        lemma_decimal_reads_back(n / 10);
        let front = decimal(n / 10);
        let whole = decimal(n);
        assert(n == (n / 10) * 10 + n % 10);
        assert(whole.last() == digit_char(n % 10));
        assert(digits_value(whole) == digits_value(whole.drop_last()) * 10 + (whole.last() as int - '0' as int) as nat);
        assert(whole == front.push(digit_char(n % 10)));
        assert(whole.drop_last() =~= front);
        assert forall|k: int| 0 <= k < whole.len() implies is_digit(#[trigger] whole[k]) by {
            if k < front.len() {
                assert(whole[k] == front[k]);
            }
        }
        assert(whole[0] == front[0]);
    }
}

/// Any seed written in decimal is read back as that seed, with the other
/// options at their defaults.
pub proof fn law_seed_is_read_back(program: Seq<char>, seed: u64)
    ensures
        parse_command_line(seq![program, "--seed"@, decimal(seed as nat)]) == Ok::<SimOptions, OptionsError>(
            SimOptions { turns: DEFAULT_TURNS, delay_ms: DEFAULT_DELAY_MS, seed: Some(seed) },
        ),
{
    reveal_strlit("--seed");
    reveal_strlit("seed");
    reveal_strlit("turns");
    reveal_strlit("delay-ms");
    let args = seq![program, "--seed"@, decimal(seed as nat)];
    let flag = "--seed"@;
    lemma_decimal_reads_back(seed as nat);
    let text = decimal(seed as nat);
    assert(first_equals(flag, 6) == 6);
    assert(first_equals(flag, 5) == 6);
    assert(first_equals(flag, 4) == 6);
    assert(first_equals(flag, 3) == 6);
    assert(first_equals(flag, 2) == 6);
    assert(long_name(flag) =~= "seed"@);
    assert(long_value(flag) is None);
    assert(option_named("seed"@) == Some(ValueOption::Seed));
    assert(unsigned_digits(text) == text);
    assert(number_value(text) == Some(seed as nat));
    assert(args[1] == flag);
    assert(args[2] == text);
    assert(!is_escape(text) && !is_long(text) && !is_short(text));
    assert(is_long(flag));
    assert(!is_escape(flag));
    assert(parse_command_line(args) == parse_tokens(args, 2, nothing_given(), Some(ValueOption::Seed), None, false));
    assert(parse_tokens(args, 2, nothing_given(), Some(ValueOption::Seed), None, false) == parse_tokens(
        args,
        3,
        nothing_given(),
        Some(ValueOption::Seed),
        Some(text),
        false,
    ));
    assert(parse_tokens(args, 3, nothing_given(), Some(ValueOption::Seed), Some(text), false) == Ok::<
        SimOptions,
        OptionsError,
    >(SimOptions { turns: DEFAULT_TURNS, delay_ms: DEFAULT_DELAY_MS, seed: Some(seed) }));
}
} // verus!
