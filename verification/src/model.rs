//! The mathematical picture of a board: its cells, its creature table, and the
//! invariant that ties the two together.

use crate::creature::{is_direction_band, kind_of, life_of, location_of, Aphid, Creature};
use crate::types::{snapshot_kind, BoardSummary, Coordinates, CreatureKind, CreatureSnapshot, Direction, TurnStats};
use vstd::prelude::*;

verus! {

/// Food cap per cell.
pub const MAX_CELL_FOOD: i32 = 9;

/// Most cells a board may have: with the food cap on every cell, the food total
/// of a board this size still fits in an `i32`.
pub const MAX_CELLS: usize = 238_609_294;

/// One cell as the contracts see it.
pub struct CellView {
    /// Aphid IDs in the cell, in slot order.
    pub aphids: Seq<usize>,
    /// Ladybug IDs in the cell, in slot order.
    pub ladybugs: Seq<usize>,
    /// Food in the cell.
    pub food: i32,
}

/// A board as the contracts see it.
pub struct BoardView {
    pub rows: usize,
    pub cols: usize,
    /// Row-major cells.
    pub field: Seq<CellView>,
    /// Stable creature ID table; dead creatures are `None`.
    pub creatures: Seq<Option<Creature>>,
    /// Per ID, the creature's index in its cell's list of its kind.
    pub cell_slots: Seq<usize>,
    /// IDs that may still be living, in creation order.
    pub active: Seq<usize>,
    /// Per ID, the epoch in which it was last marked to die.
    pub death_marks: Seq<u32>,
    /// The current marking epoch.
    pub epoch: u32,
    /// Cached totals.
    pub summary: BoardSummary,
}

/// Whether a creature slot holds a living creature of `kind`.
pub open spec fn is_kind(slot: Option<Creature>, kind: CreatureKind) -> bool {
    slot matches Some(creature) && kind_of(creature) == kind
}

/// Number of living creatures of `kind` in a creature table.
pub open spec fn count_kind(creatures: Seq<Option<Creature>>, kind: CreatureKind) -> nat
    decreases creatures.len(),
{
    if creatures.len() == 0 {
        0
    } else {
        count_kind(creatures.drop_last(), kind) + if is_kind(creatures.last(), kind) {
            1nat
        } else {
            0nat
        }
    }
}

/// Sum of the food of a sequence of cells.
pub open spec fn total_food(cells: Seq<CellView>) -> int
    decreases cells.len(),
{
    if cells.len() == 0 {
        0
    } else {
        total_food(cells.drop_last()) + cells.last().food
    }
}

/// Food above the cap in one cell.
pub open spec fn over_cap(food: i32) -> int {
    if food > MAX_CELL_FOOD {
        food - MAX_CELL_FOOD
    } else {
        0
    }
}

/// Food above the cap, summed over a sequence of cells.
pub open spec fn excess(cells: Seq<CellView>) -> int
    decreases cells.len(),
{
    if cells.len() == 0 {
        0
    } else {
        excess(cells.drop_last()) + over_cap(cells.last().food)
    }
}

/// Every creature that was dead stays dead, and every creature that lives on
/// keeps its kind; the table only grows.
pub open spec fn evolves(before: Seq<Option<Creature>>, after: Seq<Option<Creature>>) -> bool {
    &&& before.len() <= after.len()
    &&& forall|id: int|
        0 <= id < before.len() && (#[trigger] after[id]) is Some ==> before[id] is Some
            && kind_of(after[id]->Some_0) == kind_of(before[id]->Some_0)
}

/// A list with the entry at `slot` replaced by its last entry, and the last
/// entry dropped: what `Vec::swap_remove` leaves.
pub open spec fn swap_removed(list: Seq<usize>, slot: int) -> Seq<usize> {
    list.update(slot, list.last()).drop_last()
}

/// Row and column change of one step in `direction`.
pub open spec fn offset(direction: Direction) -> (int, int) {
    match direction {
        Direction::Same => (0, 0),
        Direction::NorthWest => (-1, -1),
        Direction::North => (-1, 0),
        Direction::NorthEast => (-1, 1),
        Direction::West => (0, -1),
        Direction::East => (0, 1),
        Direction::SouthWest => (1, -1),
        Direction::South => (1, 0),
        Direction::SouthEast => (1, 1),
    }
}

/// A coordinate past an edge is reflected back by two, then clamped to
/// `0..=max`.
pub open spec fn reflect(value: int, max: int) -> int {
    let bounced = if value < 0 {
        value + 2
    } else if value > max {
        value - 2
    } else {
        value
    };
    if bounced < 0 {
        0
    } else if bounced > max {
        max
    } else {
        bounced
    }
}

/// Whether `x` is among `list[lo..hi]`.
pub open spec fn appears_in(list: Seq<usize>, lo: int, hi: int, x: usize) -> bool {
    exists|p: int| lo <= p < hi && #[trigger] list[p] == x
}

/// The opposite kind.
pub open spec fn prey_of(kind: CreatureKind) -> CreatureKind {
    match kind {
        CreatureKind::Aphid => CreatureKind::Ladybug,
        CreatureKind::Ladybug => CreatureKind::Aphid,
    }
}

impl CellView {
    /// The list of `kind`.
    pub open spec fn occupants(self, kind: CreatureKind) -> Seq<usize> {
        match kind {
            CreatureKind::Aphid => self.aphids,
            CreatureKind::Ladybug => self.ladybugs,
        }
    }

    /// This cell with the list of `kind` replaced.
    pub open spec fn with_occupants(self, kind: CreatureKind, list: Seq<usize>) -> CellView {
        match kind {
            CreatureKind::Aphid => CellView { aphids: list, ..self },
            CreatureKind::Ladybug => CellView { ladybugs: list, ..self },
        }
    }
}

impl BoardView {
    /// Whether a coordinate is inside the board.
    pub open spec fn in_bounds(self, location: Coordinates) -> bool {
        location.x < self.rows && location.y < self.cols
    }

    /// Row-major cell index of a coordinate.
    pub open spec fn index_of(self, location: Coordinates) -> int {
        location.x * self.cols + location.y
    }

    /// The list of `kind` in cell `i`.
    pub open spec fn occupants(self, i: int, kind: CreatureKind) -> Seq<usize> {
        self.field[i].occupants(kind)
    }

    /// The list of `kind` in the cell at `location`.
    pub open spec fn occupants_at(self, location: Coordinates, kind: CreatureKind) -> Seq<usize> {
        self.occupants(self.index_of(location), kind)
    }

    /// Whether ID `id` is a living creature.
    pub open spec fn living(self, id: int) -> bool {
        0 <= id < self.creatures.len() && self.creatures[id] is Some
    }

    /// The living creature with ID `id`.
    pub open spec fn creature(self, id: int) -> Creature {
        self.creatures[id]->Some_0
    }

    /// Number of living creatures.
    pub open spec fn population(self) -> nat {
        count_kind(self.creatures, CreatureKind::Aphid) + count_kind(
            self.creatures,
            CreatureKind::Ladybug,
        )
    }

    /// Whether `id` belongs in cell `i` of the list of `kind` at slot `s`.
    pub open spec fn sits_at(self, id: usize, i: int, s: int, kind: CreatureKind) -> bool {
        &&& id < self.creatures.len()
        &&& is_kind(self.creatures[id as int], kind)
        &&& self.index_of(location_of(self.creature(id as int))) == i
        &&& self.cell_slots[id as int] == s
    }

    /// Every cell list entry is a living creature of that kind, standing in that
    /// cell, whose cached slot is its position; none of them is in `dead`.
    pub open spec fn cells_hold(self, dead: Set<usize>) -> bool {
        forall|i: int, kind: CreatureKind, s: int|
            0 <= i < self.field.len() && 0 <= s < self.occupants(i, kind).len() ==> {
                let id = #[trigger] self.occupants(i, kind)[s];
                self.sits_at(id, i, s, kind) && !dead.contains(id)
            }
    }

    /// Whether living creature `id` is listed in its cell at its cached slot.
    pub open spec fn placed(self, id: int) -> bool {
        let creature = self.creature(id);
        let list = self.occupants_at(location_of(creature), kind_of(creature));
        &&& self.cell_slots[id] < list.len()
        &&& list[self.cell_slots[id] as int] == id
    }

    /// Every living creature outside `dead` is listed in its cell and has life
    /// that can still drop by one.
    pub open spec fn creatures_placed(self, dead: Set<usize>) -> bool {
        forall|id: int|
            0 <= id < self.creatures.len() && (#[trigger] self.creatures[id]) is Some
                && !dead.contains(id as usize) ==> self.placed(id) && life_of(self.creature(id))
                > i32::MIN
    }

    /// Every living creature stands on the board.
    pub open spec fn creatures_sound(self) -> bool {
        forall|id: int|
            0 <= id < self.creatures.len() && (#[trigger] self.creatures[id]) is Some ==> self.in_bounds(
                location_of(self.creature(id)),
            )
    }

    /// No cell's food is negative.
    pub open spec fn food_in_range(self) -> bool {
        forall|i: int| 0 <= i < self.field.len() ==> 0 <= #[trigger] self.field[i].food
    }

    /// Every cell's food lies between zero and the cap.
    pub open spec fn food_capped(self) -> bool {
        forall|i: int| 0 <= i < self.field.len() ==> 0 <= #[trigger] self.field[i].food <= MAX_CELL_FOOD
    }

    /// Active IDs are increasing, name creatures of the table, and include every
    /// living creature.
    pub open spec fn active_sound(self) -> bool {
        &&& forall|a: int, b: int|
            0 <= a < b < self.active.len() ==> #[trigger] self.active[a] < #[trigger] self.active[b]
        &&& forall|a: int| 0 <= a < self.active.len() ==> #[trigger] self.active[a] < self.creatures.len()
        &&& forall|id: int|
            0 <= id < self.creatures.len() && (#[trigger] self.creatures[id]) is Some
                ==> self.active.contains(id as usize)
    }

    /// Every active ID is a living creature.
    pub open spec fn active_living(self) -> bool {
        forall|a: int| 0 <= a < self.active.len() ==> #[trigger] self.creatures[self.active[a] as int] is Some
    }

    /// No death mark lies past the current epoch.
    pub open spec fn marks_bounded(self) -> bool {
        forall|id: int| 0 <= id < self.death_marks.len() ==> #[trigger] self.death_marks[id] <= self.epoch
    }

    /// The board invariant, with the creatures of `dead` already taken off the
    /// cells but still in the table.
    pub open spec fn inv(self, dead: Set<usize>) -> bool {
        &&& self.rows * self.cols == self.field.len()
        &&& self.field.len() <= MAX_CELLS
        &&& self.creatures.len() <= usize::MAX
        &&& self.creatures.len() == self.cell_slots.len()
        &&& self.creatures.len() == self.death_marks.len()
        &&& self.food_in_range()
        &&& MAX_CELL_FOOD * self.field.len() + excess(self.field) <= i32::MAX
        &&& self.summary.aphids == count_kind(self.creatures, CreatureKind::Aphid)
        &&& self.summary.ladybugs == count_kind(self.creatures, CreatureKind::Ladybug)
        &&& self.summary.food == total_food(self.field)
        &&& self.cells_hold(dead)
        &&& self.creatures_placed(dead)
        &&& self.creatures_sound()
        &&& self.active_sound()
        &&& self.marks_bounded()
    }

    /// A well-formed board between turns: every living creature is in its cell,
    /// the cached totals are exact, and the active list is the living IDs in
    /// creation order.
    pub open spec fn wf(self) -> bool {
        &&& self.inv(Set::empty())
        &&& self.active_living()
    }

    /// Where one step in `direction` from `from` lands on this board.
    pub open spec fn destination(self, direction: Direction, from: Coordinates) -> Coordinates {
        Coordinates {
            x: reflect(from.x + offset(direction).0, self.rows - 1) as usize,
            y: reflect(from.y + offset(direction).1, self.cols - 1) as usize,
        }
    }

    /// Living creatures marked to die in the current epoch.
    pub open spec fn pending(self) -> Set<usize> {
        Set::new(
            |id: usize|
                (id as int) < self.creatures.len() && self.death_marks[id as int] == self.epoch
                    && self.creatures[id as int] is Some,
        )
    }

    /// Whether `list` names the pending deaths, each once.
    pub open spec fn lists_pending(self, list: Seq<usize>) -> bool {
        &&& list.no_duplicates()
        &&& forall|x: usize| #[trigger] list.contains(x) <==> self.pending().contains(x)
    }

    /// Read-only data for the living creature `id`.
    pub open spec fn snapshot(self, id: usize) -> CreatureSnapshot {
        CreatureSnapshot {
            id,
            kind: snapshot_kind(kind_of(self.creature(id as int))),
            location: location_of(self.creature(id as int)),
            cell_slot: self.cell_slots[id as int],
        }
    }
}

/// A board that differs from a sound one only in its active list stays sound,
/// as long as that list is.
pub proof fn lemma_inv_active_frame(a: BoardView, b: BoardView, dead: Set<usize>)
    requires
        a.inv(dead),
        b == (BoardView { active: b.active, ..a }),
        b.active_sound(),
    ensures
        b.inv(dead),
{
    assert forall|i: int, kind: CreatureKind, s: int|
        0 <= i < b.field.len() && 0 <= s < b.occupants(i, kind).len() implies {
            let id = #[trigger] b.occupants(i, kind)[s];
            b.sits_at(id, i, s, kind) && !dead.contains(id)
        } by {
        assert(a.occupants(i, kind)[s] == b.occupants(i, kind)[s]);
    }
    assert forall|id: int|
        0 <= id < b.creatures.len() && (#[trigger] b.creatures[id]) is Some && !dead.contains(
            id as usize,
        ) implies b.placed(id) && life_of(b.creature(id)) > i32::MIN by {
        assert(a.creatures[id] is Some);
    }
    assert forall|id: int|
        0 <= id < b.creatures.len() && (#[trigger] b.creatures[id]) is Some implies b.in_bounds(
            location_of(b.creature(id)),
        ) by {
        assert(a.creatures[id] is Some);
    }
    assert forall|i: int| 0 <= i < b.field.len() implies 0 <= #[trigger] b.field[i].food by {
        assert(a.field[i].food == b.field[i].food);
    }
    assert forall|id: int| 0 <= id < b.death_marks.len() implies #[trigger] b.death_marks[id]
        <= b.epoch by {
        assert(a.death_marks[id] == b.death_marks[id]);
    }
}

/// Replacing a creature by one of the same kind, standing in the same place,
/// with life that can still drop, keeps the board sound.
pub proof fn lemma_inv_replace(a: BoardView, b: BoardView, dead: Set<usize>, id: int, creature: Creature)
    requires
        a.inv(dead),
        a.living(id),
        kind_of(creature) == kind_of(a.creature(id)),
        location_of(creature) == location_of(a.creature(id)),
        life_of(creature) > i32::MIN || dead.contains(id as usize),
        b == (BoardView { creatures: a.creatures.update(id, Some(creature)), ..a }),
    ensures
        b.inv(dead),
{
    lemma_count_same_kind(a.creatures, id, creature);
    assert forall|i: int, kind: CreatureKind, s: int|
        0 <= i < b.field.len() && 0 <= s < b.occupants(i, kind).len() implies {
            let e = #[trigger] b.occupants(i, kind)[s];
            b.sits_at(e, i, s, kind) && !dead.contains(e)
        } by {
        assert(a.occupants(i, kind)[s] == b.occupants(i, kind)[s]);
        let e = a.occupants(i, kind)[s];
        assert(a.sits_at(e, i, s, kind));
        if e != id {
            assert(b.creatures[e as int] == a.creatures[e as int]);
        }
    }
    assert forall|c: int|
        0 <= c < b.creatures.len() && (#[trigger] b.creatures[c]) is Some && !dead.contains(
            c as usize,
        ) implies b.placed(c) && life_of(b.creature(c)) > i32::MIN by {
        assert(a.creatures[c] is Some);
        assert(a.placed(c));
    }
    assert forall|c: int|
        0 <= c < b.creatures.len() && (#[trigger] b.creatures[c]) is Some implies b.in_bounds(
            location_of(b.creature(c)),
        ) by {
        assert(a.creatures[c] is Some);
    }
    assert forall|c: int|
        0 <= c < b.creatures.len() && (#[trigger] b.creatures[c]) is Some implies b.active.contains(
        c as usize) by {
        assert(a.creatures[c] is Some);
    }
}

/// Dropping the last entry of a cell list takes that creature off the board
/// while it stays in the table.
pub proof fn lemma_inv_pop(a: BoardView, b: BoardView, dead: Set<usize>, i: int, kind: CreatureKind)
    requires
        a.inv(dead),
        0 <= i < a.field.len(),
        a.occupants(i, kind).len() > 0,
        b == (BoardView {
            field: a.field.update(i, a.field[i].with_occupants(kind, a.occupants(i, kind).drop_last())),
            ..a
        }),
    ensures
        b.inv(dead.insert(a.occupants(i, kind).last())),
        a.sits_at(a.occupants(i, kind).last(), i, a.occupants(i, kind).len() - 1, kind),
        !dead.contains(a.occupants(i, kind).last()),
{
    let list = a.occupants(i, kind);
    let n = list.len();
    let last = list[n - 1];
    let d2 = dead.insert(last);
    let new_cell = a.field[i].with_occupants(kind, list.drop_last());
    assert(a.sits_at(last, i, n - 1, kind));
    lemma_food_update(a.field, i, new_cell);
    assert forall|j: int| 0 <= j < b.field.len() implies 0 <= #[trigger] b.field[j].food by {
        assert(a.food_in_range());
        if j != i {
            assert(b.field[j] == a.field[j]);
        }
    }
    assert forall|j: int, k: CreatureKind, s: int|
        0 <= j < b.field.len() && 0 <= s < b.occupants(j, k).len() implies {
            let e = #[trigger] b.occupants(j, k)[s];
            b.sits_at(e, j, s, k) && !d2.contains(e)
        } by {
        if j != i {
            assert(b.field[j] == a.field[j]);
        } else {
            assert(b.field[j] == new_cell);
        }
        let e = b.occupants(j, k)[s];
        assert(e == a.occupants(j, k)[s]);
        assert(a.sits_at(e, j, s, k));
        if e == last {
            assert(j == i && k == kind);
            assert(s == n - 1);
        }
    }
    assert forall|c: int|
        0 <= c < b.creatures.len() && (#[trigger] b.creatures[c]) is Some && !d2.contains(
            c as usize,
        ) implies b.placed(c) && life_of(b.creature(c)) > i32::MIN by {
        assert(a.placed(c));
        let cr = a.creature(c);
        let j = a.index_of(location_of(cr));
        let k = kind_of(cr);
        lemma_index_in_field(a.rows as int, a.cols as int, location_of(cr).x as int, location_of(cr).y as int);
        let cs = a.cell_slots[c];
        assert(a.sits_at(a.occupants(j, k)[cs as int], j, cs as int, k));
        if j == i && k == kind {
            assert(cs != n - 1);
            assert(b.occupants(j, k) == list.drop_last());
        } else if j == i {
            assert(b.field[j] == new_cell);
            assert(b.occupants(j, k) == a.occupants(j, k));
        } else {
            assert(b.field[j] == a.field[j]);
            assert(b.occupants(j, k) == a.occupants(j, k));
        }
    }
}

/// Death marks play no part in soundness beyond staying within the epoch.
pub proof fn lemma_inv_marks_frame(a: BoardView, b: BoardView, dead: Set<usize>)
    requires
        a.inv(dead),
        b == (BoardView { death_marks: b.death_marks, epoch: b.epoch, ..a }),
        b.death_marks.len() == a.death_marks.len(),
        b.marks_bounded(),
    ensures
        b.inv(dead),
{
    assert forall|i: int, kind: CreatureKind, s: int|
        0 <= i < b.field.len() && 0 <= s < b.occupants(i, kind).len() implies {
            let id = #[trigger] b.occupants(i, kind)[s];
            b.sits_at(id, i, s, kind) && !dead.contains(id)
        } by {
        assert(a.occupants(i, kind)[s] == b.occupants(i, kind)[s]);
    }
    assert forall|id: int|
        0 <= id < b.creatures.len() && (#[trigger] b.creatures[id]) is Some && !dead.contains(
            id as usize,
        ) implies b.placed(id) && life_of(b.creature(id)) > i32::MIN by {
        assert(a.creatures[id] is Some);
    }
    assert forall|id: int|
        0 <= id < b.creatures.len() && (#[trigger] b.creatures[id]) is Some implies b.in_bounds(
            location_of(b.creature(id)),
        ) by {
        assert(a.creatures[id] is Some);
    }
    assert forall|i: int| 0 <= i < b.field.len() implies 0 <= #[trigger] b.field[i].food by {
        assert(a.field[i].food == b.field[i].food);
    }
    assert forall|id: int|
        0 <= id < b.creatures.len() && (#[trigger] b.creatures[id]) is Some implies b.active.contains(
        id as usize) by {
        assert(a.creatures[id] is Some);
    }
}

/// What one turn does, as far as it can be told for every outcome of its
/// chances: the board stays sound and keeps its size, the totals it reports are
/// the board's, every creature is born, dies or lives on with its kind and ID,
/// and no cell goes above the cap if none was.
pub open spec fn turn_outcome(before: BoardView, after: BoardView, stats: TurnStats) -> bool {
    &&& after.wf()
    &&& stats.summary == after.summary
    &&& after.rows == before.rows
    &&& after.cols == before.cols
    &&& stats.summary.aphids + stats.summary.ladybugs + stats.deaths == before.summary.aphids
        + before.summary.ladybugs + stats.births
    &&& after.creatures.len() == before.creatures.len() + stats.births
    &&& stats.births <= before.active.len()
    &&& evolves(before.creatures, after.creatures)
    &&& before.food_capped() ==> after.food_capped()
}

/// Every creature of `before` alive in `after` was alive in `before` with the
/// same life.
pub open spec fn lives_kept(before: BoardView, after: BoardView) -> bool {
    forall|c: int|
        0 <= c < before.creatures.len() && (#[trigger] after.creatures[c]) is Some ==> {
            &&& before.creatures[c] is Some
            &&& life_of(after.creatures[c]->Some_0) == life_of(before.creatures[c]->Some_0)
        }
}

/// Every creature of `before` alive in `after` has the same life there, or one
/// less.
pub open spec fn lives_drop_at_most_one(before: BoardView, after: BoardView) -> bool {
    forall|c: int|
        0 <= c < before.creatures.len() && before.creatures[c] is Some && (#[trigger] after.creatures[c]) is Some
            ==> {
            let was = life_of(before.creatures[c]->Some_0);
            let now = life_of(after.creatures[c]->Some_0);
            now == was || now == was - 1
        }
}

/// No cell of `after` holds more than one food more than it held in `before`.
pub open spec fn food_grows_at_most_one(before: BoardView, after: BoardView) -> bool {
    &&& after.field.len() == before.field.len()
    &&& forall|i: int| 0 <= i < before.field.len() ==> #[trigger] after.field[i].food <= before.field[i].food + 1
}

/// Every living creature has at least one life left.
pub open spec fn all_alive_have_life(board: BoardView) -> bool {
    forall|c: int| #[trigger] board.living(c) ==> life_of(board.creature(c)) >= 1
}

/// Every creature of `before` alive in `after` stands one step, or no step,
/// from where it stood in `before`.
pub open spec fn moved_at_most_one_step(before: BoardView, after: BoardView) -> bool {
    forall|c: int|
        0 <= c < before.creatures.len() && before.creatures[c] is Some && (#[trigger] after.creatures[c]) is Some
            ==> exists|direction: Direction|
            location_of(after.creatures[c]->Some_0) == #[trigger] before.destination(
                direction,
                location_of(before.creatures[c]->Some_0),
            )
}

/// Every creature of `before` alive in `after` stands where it stood.
pub open spec fn stayed(before: BoardView, after: BoardView) -> bool {
    forall|c: int|
        0 <= c < before.creatures.len() && (#[trigger] after.creatures[c]) is Some ==> {
            &&& before.creatures[c] is Some
            &&& location_of(after.creatures[c]->Some_0) == location_of(before.creatures[c]->Some_0)
        }
}

/// The life a creature of `kind` is born with.
pub open spec fn newborn_life(kind: CreatureKind) -> i32 {
    match kind {
        CreatureKind::Aphid => 2,
        CreatureKind::Ladybug => 5,
    }
}

/// Every creature of `board` from ID `first` on is alive with the life it was
/// born with.
pub open spec fn newborns_untouched(first: nat, board: BoardView) -> bool {
    forall|c: int|
        first <= c < board.creatures.len() ==> {
            &&& (#[trigger] board.creatures[c]) is Some
            &&& life_of(board.creatures[c]->Some_0) == newborn_life(kind_of(board.creatures[c]->Some_0))
        }
}

/// `after` is `before` with a new aphid of `life` at `location`, given ID `id`
/// and listed last in its cell.
pub open spec fn aphid_added(
    before: BoardView,
    after: BoardView,
    location: Coordinates,
    life: i32,
    id: usize,
) -> bool {
    &&& id == before.creatures.len()
    &&& after.creatures == before.creatures.push(Some(Creature::Aphid(Aphid { location, life })))
    &&& after.field == before.field.update(
        before.index_of(location),
        CellView {
            aphids: before.occupants_at(location, CreatureKind::Aphid).push(id),
            ..before.field[before.index_of(location)]
        },
    )
    &&& after.cell_slots == before.cell_slots.push(
        before.occupants_at(location, CreatureKind::Aphid).len() as usize,
    )
    &&& after.active == before.active.push(id)
    &&& after.death_marks == before.death_marks.push(0)
    &&& after.summary == BoardSummary { aphids: (before.summary.aphids + 1) as usize, ..before.summary }
    &&& after.rows == before.rows
    &&& after.cols == before.cols
    &&& after.epoch == before.epoch
}

/// `after` is `before` with a new ladybug of `life` at `location`, given ID
/// `id`, listed last in its cell, and facing one band of directions.
pub open spec fn ladybug_added(
    before: BoardView,
    after: BoardView,
    location: Coordinates,
    life: i32,
    id: usize,
) -> bool {
    &&& id == before.creatures.len()
    &&& after.creatures.len() == id + 1
    &&& after.creatures.drop_last() == before.creatures
    &&& after.creatures[id as int] matches Some(Creature::Ladybug(ladybug))
    &&& ladybug.location == location
    &&& ladybug.life == life
    &&& is_direction_band(ladybug.preferred_directions)
    &&& after.field == before.field.update(
        before.index_of(location),
        CellView {
            ladybugs: before.occupants_at(location, CreatureKind::Ladybug).push(id),
            ..before.field[before.index_of(location)]
        },
    )
    &&& after.cell_slots == before.cell_slots.push(
        before.occupants_at(location, CreatureKind::Ladybug).len() as usize,
    )
    &&& after.active == before.active.push(id)
    &&& after.death_marks == before.death_marks.push(0)
    &&& after.summary == BoardSummary { ladybugs: (before.summary.ladybugs + 1) as usize, ..before.summary }
    &&& after.rows == before.rows
    &&& after.cols == before.cols
    &&& after.epoch == before.epoch
}

/// `after` is `before` without the creature listed last among the `kind` of the
/// cell at `location`: it leaves its cell, the table, the active list and the
/// totals.
pub open spec fn last_removed(before: BoardView, after: BoardView, location: Coordinates, kind: CreatureKind) -> bool {
    let list = before.occupants_at(location, kind);
    let id = list.last();
    &&& list.len() > 0
    &&& after.creatures == before.creatures.update(id as int, None)
    &&& after.field == before.field.update(
        before.index_of(location),
        before.field[before.index_of(location)].with_occupants(kind, list.drop_last()),
    )
    &&& after.cell_slots == before.cell_slots
    &&& forall|x: usize| #[trigger] after.active.contains(x) <==> before.active.contains(x) && x != id
    &&& after.summary == if kind == CreatureKind::Aphid {
        BoardSummary { aphids: (before.summary.aphids - 1) as usize, ..before.summary }
    } else {
        BoardSummary { ladybugs: (before.summary.ladybugs - 1) as usize, ..before.summary }
    }
    &&& after.rows == before.rows
    &&& after.cols == before.cols
}

// ----- movement lemmas -----

/// Staying put is a move: on a board, the destination of no step from a cell
/// is that cell.
pub proof fn lemma_staying_is_a_move(board: BoardView, from: Coordinates)
    requires
        board.in_bounds(from),
    ensures
        board.destination(Direction::Same, from) == from,
{
}

/// At the start of a turn every creature stands where it stands.
pub proof fn lemma_no_move_yet(board: BoardView)
    requires
        board.creatures_sound(),
    ensures
        moved_at_most_one_step(board, board),
{
    assert forall|c: int|
        0 <= c < board.creatures.len() && board.creatures[c] is Some && (#[trigger] board.creatures[c]) is Some
            implies exists|direction: Direction|
        location_of(board.creatures[c]->Some_0) == #[trigger] board.destination(
            direction,
            location_of(board.creatures[c]->Some_0),
        ) by {
        lemma_staying_is_a_move(board, location_of(board.creatures[c]->Some_0));
    }
}

/// Steps taken, then standing still, is steps taken.
pub proof fn lemma_moves_then_stay(start: BoardView, moved: BoardView, last: BoardView)
    requires
        moved_at_most_one_step(start, moved),
        stayed(moved, last),
        moved.creatures.len() == start.creatures.len(),
    ensures
        moved_at_most_one_step(start, last),
{
    assert forall|c: int|
        0 <= c < start.creatures.len() && start.creatures[c] is Some && (#[trigger] last.creatures[c]) is Some
            implies exists|direction: Direction|
        location_of(last.creatures[c]->Some_0) == #[trigger] start.destination(
            direction,
            location_of(start.creatures[c]->Some_0),
        ) by {
        assert(moved.creatures[c] is Some);
    }
}

// ----- counting lemmas -----

pub proof fn lemma_count_push(creatures: Seq<Option<Creature>>, slot: Option<Creature>, kind: CreatureKind)
    ensures
        count_kind(creatures.push(slot), kind) == count_kind(creatures, kind) + if is_kind(slot, kind) {
            1nat
        } else {
            0nat
        },
{
    assert(creatures.push(slot).drop_last() =~= creatures);
}

pub proof fn lemma_count_update(
    creatures: Seq<Option<Creature>>,
    id: int,
    slot: Option<Creature>,
    kind: CreatureKind,
)
    requires
        0 <= id < creatures.len(),
    ensures
        count_kind(creatures.update(id, slot), kind) + (if is_kind(creatures[id], kind) {
            1int
        } else {
            0int
        }) == count_kind(creatures, kind) + (if is_kind(slot, kind) {
            1int
        } else {
            0int
        }),
    decreases creatures.len(),
{
    let updated = creatures.update(id, slot);
    if id == creatures.len() - 1 {
        assert(updated.drop_last() =~= creatures.drop_last());
    } else {
        lemma_count_update(creatures.drop_last(), id, slot, kind);
        assert(updated.drop_last() =~= creatures.drop_last().update(id, slot));
    }
}

pub proof fn lemma_count_bound(creatures: Seq<Option<Creature>>)
    ensures
        count_kind(creatures, CreatureKind::Aphid) + count_kind(creatures, CreatureKind::Ladybug)
            <= creatures.len(),
    decreases creatures.len(),
{
    if creatures.len() > 0 {
        lemma_count_bound(creatures.drop_last());
    }
}

/// Changing a slot whose creature keeps its kind leaves every count alone.
pub proof fn lemma_count_same_kind(
    creatures: Seq<Option<Creature>>,
    id: int,
    creature: Creature,
)
    requires
        0 <= id < creatures.len(),
        creatures[id] is Some,
        kind_of(creatures[id]->Some_0) == kind_of(creature),
    ensures
        count_kind(creatures.update(id, Some(creature)), CreatureKind::Aphid) == count_kind(
            creatures,
            CreatureKind::Aphid,
        ),
        count_kind(creatures.update(id, Some(creature)), CreatureKind::Ladybug) == count_kind(
            creatures,
            CreatureKind::Ladybug,
        ),
{
    lemma_count_update(creatures, id, Some(creature), CreatureKind::Aphid);
    lemma_count_update(creatures, id, Some(creature), CreatureKind::Ladybug);
}

// ----- food lemmas -----

pub proof fn lemma_food_push(cells: Seq<CellView>, cell: CellView)
    ensures
        total_food(cells.push(cell)) == total_food(cells) + cell.food,
        excess(cells.push(cell)) == excess(cells) + over_cap(cell.food),
{
    assert(cells.push(cell).drop_last() =~= cells);
}

/// Boards whose cells hold the same food, cell by cell, hold the same food in
/// all.
pub proof fn lemma_total_food_same(a: Seq<CellView>, b: Seq<CellView>)
    requires
        a.len() == b.len(),
        forall|i: int| 0 <= i < a.len() ==> #[trigger] a[i].food == b[i].food,
    ensures
        total_food(a) == total_food(b),
    decreases a.len(),
{
    if a.len() > 0 {
        lemma_total_food_same(a.drop_last(), b.drop_last());
    }
}

pub proof fn lemma_food_update(cells: Seq<CellView>, i: int, cell: CellView)
    requires
        0 <= i < cells.len(),
    ensures
        total_food(cells.update(i, cell)) == total_food(cells) - cells[i].food + cell.food,
        excess(cells.update(i, cell)) == excess(cells) - over_cap(cells[i].food) + over_cap(cell.food),
    decreases cells.len(),
{
    let updated = cells.update(i, cell);
    if i == cells.len() - 1 {
        assert(updated.drop_last() =~= cells.drop_last());
    } else {
        lemma_food_update(cells.drop_last(), i, cell);
        assert(updated.drop_last() =~= cells.drop_last().update(i, cell));
    }
}

pub proof fn lemma_food_bounds(cells: Seq<CellView>)
    requires
        forall|i: int| 0 <= i < cells.len() ==> 0 <= #[trigger] cells[i].food,
    ensures
        0 <= excess(cells),
        0 <= total_food(cells) <= MAX_CELL_FOOD * cells.len() + excess(cells),
    decreases cells.len(),
{
    if cells.len() > 0 {
        let rest = cells.drop_last();
        assert forall|i: int| 0 <= i < rest.len() implies 0 <= #[trigger] rest[i].food by {
            assert(rest[i] == cells[i]);
        }
        lemma_food_bounds(rest);
        assert(0 <= cells[cells.len() - 1].food);
    }
}

/// Cells within the cap hold no excess.
pub proof fn lemma_no_excess(cells: Seq<CellView>)
    requires
        forall|i: int| 0 <= i < cells.len() ==> 0 <= #[trigger] cells[i].food <= MAX_CELL_FOOD,
    ensures
        excess(cells) == 0,
    decreases cells.len(),
{
    if cells.len() > 0 {
        let rest = cells.drop_last();
        assert forall|i: int| 0 <= i < rest.len() implies 0 <= #[trigger] rest[i].food <= MAX_CELL_FOOD by {
            assert(rest[i] == cells[i]);
        }
        lemma_no_excess(rest);
        assert(0 <= cells[cells.len() - 1].food <= MAX_CELL_FOOD);
    }
}

// ----- index arithmetic -----

pub proof fn lemma_index_in_field(rows: int, cols: int, x: int, y: int)
    requires
        0 <= x < rows,
        0 <= y < cols,
    ensures
        0 <= x * cols + y < rows * cols,
        x <= rows * cols,
        y <= rows * cols,
        rows <= rows * cols,
        cols <= rows * cols,
{
    assert(rows <= rows * cols) by (nonlinear_arith)
        requires
            0 <= x < rows,
            0 <= y < cols,
    ;
    assert(cols <= rows * cols) by (nonlinear_arith)
        requires
            0 <= x < rows,
            0 <= y < cols,
    ;
    assert(0 <= x * cols) by (nonlinear_arith)
        requires
            0 <= x,
            0 <= cols,
    ;
    assert(x * cols + y < rows * cols) by (nonlinear_arith)
        requires
            0 <= x < rows,
            0 <= y < cols,
    ;
    assert(x <= rows * cols) by (nonlinear_arith)
        requires
            0 <= x < rows,
            0 <= y < cols,
    ;
    assert(y <= rows * cols) by (nonlinear_arith)
        requires
            0 <= x < rows,
            0 <= y < cols,
    ;
}

} // verus!
