//! The board: cells, creatures, and the turn that moves them.

use crate::creature::{
    direction_band, is_direction_band, kind_of, life_of, location_of, moved_to, with_life, Aphid,
    Creature, Ladybug,
};
use crate::model::{
    count_kind, evolves, is_kind, lemma_count_bound, lemma_count_push, lemma_count_same_kind,
    lemma_count_update, lemma_food_bounds, lemma_food_push, lemma_food_update, lemma_total_food_same, lemma_no_excess, excess, over_cap,
    lemma_index_in_field, lemma_no_move_yet, lemma_moves_then_stay, lemma_inv_active_frame, lemma_inv_marks_frame, lemma_inv_pop, lemma_inv_replace, appears_in, offset, turn_outcome, aphid_added, ladybug_added, last_removed, newborns_untouched, newborn_life, lives_kept, lives_drop_at_most_one, food_grows_at_most_one, all_alive_have_life, moved_at_most_one_step, stayed, prey_of, reflect, swap_removed, total_food, BoardView, CellView, MAX_CELLS, MAX_CELL_FOOD,
};
use crate::config::{built_from_layout, example_aphids, example_ladybugs};
use crate::random::{drawn_since, extends, last_number, lemma_extends_append, lemma_extends_itself, lemma_extends_push, lemma_extends_trans, Chance, Draw, Odds, Random};
use crate::types::{
    snapshot_kind, BoardSummary, CellSnapshot, Coordinates, CreatureKind, CreatureSnapshot,
    CreatureSnapshotKind, Direction, TurnStats,
};
use vstd::prelude::*;

verus! {

/// One board cell.
///
/// Creature lists store IDs into `Board::creatures`, which keeps movement and
/// removal cheap without cloning whole creature values into every location.
#[derive(Clone, Debug)]
pub struct Location {
    /// Aphid IDs currently occupying this cell.
    pub aphids: Vec<usize>,
    /// Ladybug IDs currently occupying this cell.
    pub ladybugs: Vec<usize>,
    /// Food available in the cell.
    pub food: i32,
}

impl View for Location {
    type V = CellView;

    open spec fn view(&self) -> CellView {
        CellView { aphids: self.aphids@, ladybugs: self.ladybugs@, food: self.food }
    }
}

/// Complete simulation state.
#[derive(Clone)]
pub struct Board {
    /// Number of board rows.
    rows: usize,
    /// Number of board columns.
    cols: usize,
    /// Row-major board cells.
    field: Vec<Location>,
    /// Stable creature ID table. Dead creatures are stored as `None`.
    creatures: Vec<Option<Creature>>,
    /// Per-ID index inside the creature's current cell occupant list.
    cell_slots: Vec<usize>,
    /// IDs for currently living creatures, in creation order.
    active_creatures: Vec<usize>,
    /// Per-ID death marker epochs used while resolving one refresh.
    death_marks: Vec<u32>,
    /// Current marker epoch for scheduled deaths.
    death_mark_epoch: u32,
    /// Cached living creature counts and total board food.
    summary: BoardSummary,
}

impl View for Board {
    type V = BoardView;

    closed spec fn view(&self) -> BoardView {
        BoardView {
            rows: self.rows,
            cols: self.cols,
            field: self.field@.map_values(|location: Location| location@),
            creatures: self.creatures@,
            cell_slots: self.cell_slots@,
            active: self.active_creatures@,
            death_marks: self.death_marks@,
            epoch: self.death_mark_epoch,
            summary: self.summary,
        }
    }
}

impl Board {
    /// Creates a board of the given size with random starting food and no
    /// creatures.
    ///
    /// Every board comes into being here, so every board has its cells from the
    /// start. The public constructors build on it and then add creatures.
    pub fn with_field(rows: usize, cols: usize, random: &mut Random) -> (board: Self)
        requires
            rows * cols <= MAX_CELLS,
        ensures
            board@.wf(),
            board@.rows == rows,
            board@.cols == cols,
            board@.creatures.len() == 0,
            board@.active.len() == 0,
            board@.summary.aphids == 0,
            board@.summary.ladybugs == 0,
            board@.food_capped(),
            forall|i: int|
                0 <= i < board@.field.len() ==> (#[trigger] board@.field[i]).aphids.len() == 0
                    && board@.field[i].ladybugs.len() == 0,
            extends(*old(random), *final(random)),
            drawn_since(*old(random), *final(random)) == Seq::new(
                board@.field.len(),
                |i: int| Draw::Number { min: 0, max: MAX_CELL_FOOD, value: board@.field[i].food },
            ),
    {
        let ghost r0 = *random;
        proof {
            lemma_extends_itself(r0);
        }
        let cells = rows * cols;
        let mut board = Board {
            rows,
            cols,
            field: Vec::with_capacity(cells),
            creatures: Vec::new(),
            cell_slots: Vec::new(),
            active_creatures: Vec::new(),
            death_marks: Vec::new(),
            death_mark_epoch: 0,
            summary: BoardSummary::default(),
        };

        for n in 0..cells
            invariant
                board.rows == rows,
                board.cols == cols,
                rows * cols == cells,
                cells <= MAX_CELLS,
                board.field.len() == n,
                board.creatures@.len() == 0,
                board.cell_slots@.len() == 0,
                board.active_creatures@.len() == 0,
                board.death_marks@.len() == 0,
                board.death_mark_epoch == 0,
                board.summary.aphids == 0,
                board.summary.ladybugs == 0,
                board.summary.food == total_food(board@.field),
                forall|i: int|
                    0 <= i < n ==> {
                        &&& (#[trigger] board.field@[i]).aphids@.len() == 0
                        &&& board.field@[i].ladybugs@.len() == 0
                        &&& 0 <= board.field@[i].food <= MAX_CELL_FOOD
                    },
                extends(r0, *random),
                drawn_since(r0, *random) == Seq::new(
                    n as nat,
                    |i: int| Draw::Number { min: 0, max: MAX_CELL_FOOD, value: board.field@[i].food },
                ),
        {
            let ghost r_before = *random;
            let food = random.draw(0, MAX_CELL_FOOD);
            let ghost before = board@.field;
            proof {
                assert forall|i: int| 0 <= i < before.len() implies 0 <= #[trigger] before[i].food
                    <= MAX_CELL_FOOD by {
                    assert(before[i] == board.field@[i]@);
                }
                lemma_food_bounds(before);
                lemma_no_excess(before);
                assert(before.len() == n);
                assert(n < MAX_CELLS);
            }
            let location = Location { aphids: Vec::new(), ladybugs: Vec::new(), food };
            board.field.push(location);
            board.summary.food = board.summary.food + food;
            proof {
                assert(board@.field =~= before.push(location@));
                lemma_food_push(before, location@);
                lemma_extends_push(r_before, *random, Draw::Number { min: 0, max: MAX_CELL_FOOD, value: food });
                lemma_extends_trans(r0, r_before, *random);
                assert(drawn_since(r0, *random) =~= Seq::new(
                    (n + 1) as nat,
                    |i: int| Draw::Number { min: 0, max: MAX_CELL_FOOD, value: board.field@[i].food },
                ));
            }
        }
        proof {
            let v = board@;
            assert(v.field.len() == cells);
            assert forall|i: int| 0 <= i < v.field.len() implies 0 <= #[trigger] v.field[i].food
                <= MAX_CELL_FOOD by {
                assert(v.field[i] == board.field@[i]@);
            }
            lemma_no_excess(v.field);
            assert forall|i: int|
                0 <= i < v.field.len() implies (#[trigger] v.field[i]).aphids.len() == 0
                && v.field[i].ladybugs.len() == 0 by {
                assert(v.field[i] == board.field@[i]@);
            }
            assert(v.creatures =~= Seq::<Option<Creature>>::empty());
            assert(drawn_since(r0, *random) =~= Seq::new(
                v.field.len(),
                |i: int| Draw::Number { min: 0, max: MAX_CELL_FOOD, value: v.field[i].food },
            ));
            assert(count_kind(v.creatures, CreatureKind::Aphid) == 0);
            assert(count_kind(v.creatures, CreatureKind::Ladybug) == 0);
        }
        board
    }

    /// Returns the number of board rows.
    pub fn rows(&self) -> (rows: usize)
        ensures
            rows == self@.rows,
    {
        self.rows
    }

    /// Returns the number of board columns.
    pub fn cols(&self) -> (cols: usize)
        ensures
            cols == self@.cols,
    {
        self.cols
    }

    /// Returns current living creature counts and total board food.
    pub fn summary(&self) -> (summary: BoardSummary)
        requires
            self@.wf(),
        ensures
            summary == self@.summary,
            summary.aphids == count_kind(self@.creatures, CreatureKind::Aphid),
            summary.ladybugs == count_kind(self@.creatures, CreatureKind::Ladybug),
            summary.food == total_food(self@.field),
    {
        self.summary
    }

    /// Converts a two-dimensional coordinate into the row-major field index.
    pub fn index(&self, coordinates: Coordinates) -> (index: usize)
        requires
            self@.rows * self@.cols <= MAX_CELLS,
            self@.in_bounds(coordinates),
        ensures
            index == self@.index_of(coordinates),
            index < self@.rows * self@.cols,
    {
        proof {
            lemma_index_in_field(self.rows as int, self.cols as int, coordinates.x as int, coordinates.y as int);
        }
        coordinates.x * self.cols + coordinates.y
    }

    /// Returns whether a coordinate is inside the board.
    pub fn in_bounds(&self, coordinates: Coordinates) -> (inside: bool)
        ensures
            inside == self@.in_bounds(coordinates),
    {
        coordinates.x < self.rows && coordinates.y < self.cols
    }

    /// Returns the aphid and ladybug counts for a cell.
    pub fn cell_counts(&self, x: usize, y: usize) -> (counts: Option<(usize, usize)>)
        requires
            self@.wf(),
        ensures
            counts is None <==> !self@.in_bounds(Coordinates { x, y }),
            counts matches Some((aphids, ladybugs)) ==> {
                let cell = self@.field[self@.index_of(Coordinates { x, y })];
                aphids == cell.aphids.len() && ladybugs == cell.ladybugs.len()
            },
    {
        let coordinates = Coordinates { x, y };
        if self.in_bounds(coordinates) {
            let index = self.index(coordinates);
            let location = &self.field[index];
            proof {
                assert(self@.field[index as int] == location@);
            }
            Some((location.aphids.len(), location.ladybugs.len()))
        } else {
            None
        }
    }

    /// Returns read-only rendering data for a cell.
    pub fn cell_snapshot(&self, x: usize, y: usize) -> (snapshot: Option<CellSnapshot>)
        requires
            self@.wf(),
        ensures
            snapshot is None <==> !self@.in_bounds(Coordinates { x, y }),
            snapshot matches Some(cell) ==> {
                let view = self@.field[self@.index_of(Coordinates { x, y })];
                &&& cell.aphids == view.aphids.len()
                &&& cell.ladybugs == view.ladybugs.len()
                &&& cell.food == view.food
            },
    {
        let coordinates = Coordinates { x, y };
        if self.in_bounds(coordinates) {
            let index = self.index(coordinates);
            let location = &self.field[index];
            proof {
                assert(self@.field[index as int] == location@);
            }
            Some(
                CellSnapshot {
                    aphids: location.aphids.len(),
                    ladybugs: location.ladybugs.len(),
                    food: location.food,
                },
            )
        } else {
            None
        }
    }
}


impl Board {
    /// Enters a new creature at `location`, at the end of its cell's list of its
    /// kind, and returns its stable ID.
    fn insert_creature(&mut self, location: Coordinates, creature: Creature) -> (id: usize)
        requires
            old(self)@.inv(Set::empty()),
            old(self)@.in_bounds(location),
            location_of(creature) == location,
        ensures
            life_of(creature) > i32::MIN ==> final(self)@.inv(Set::empty()),
            old(self)@.active_living() ==> final(self)@.active_living(),
            id == old(self)@.creatures.len(),
            final(self)@.creatures == old(self)@.creatures.push(Some(creature)),
            final(self)@.field == old(self)@.field.update(
                old(self)@.index_of(location),
                old(self)@.field[old(self)@.index_of(location)].with_occupants(
                    kind_of(creature),
                    old(self)@.occupants_at(location, kind_of(creature)).push(id),
                ),
            ),
            final(self)@.cell_slots == old(self)@.cell_slots.push(
                old(self)@.occupants_at(location, kind_of(creature)).len() as usize,
            ),
            final(self)@.active == old(self)@.active.push(id),
            final(self)@.death_marks == old(self)@.death_marks.push(0),
            final(self)@.epoch == old(self)@.epoch,
            final(self)@.rows == old(self)@.rows,
            final(self)@.cols == old(self)@.cols,
            final(self)@.summary.food == old(self)@.summary.food,
            final(self)@.summary.aphids == old(self)@.summary.aphids + if kind_of(creature)
                == CreatureKind::Aphid {
                1int
            } else {
                0int
            },
            final(self)@.summary.ladybugs == old(self)@.summary.ladybugs + if kind_of(creature)
                == CreatureKind::Ladybug {
                1int
            } else {
                0int
            },
            evolves(old(self)@.creatures, final(self)@.creatures),
            final(self)@.field.len() == old(self)@.field.len(),
            forall|i: int| 0 <= i < old(self)@.field.len() ==> #[trigger] final(self)@.field[i].food
                == old(self)@.field[i].food,
    {
        let ghost v0 = self@;
        let id = self.creatures.len();
        let index = self.index(location);
        let kind = creature.kind();
        let cell_slot = match kind {
            CreatureKind::Aphid => {
                let cell_slot = self.field[index].aphids.len();
                self.field[index].aphids.push(id);
                cell_slot
            },
            CreatureKind::Ladybug => {
                let cell_slot = self.field[index].ladybugs.len();
                self.field[index].ladybugs.push(id);
                cell_slot
            },
        };
        self.creatures.push(Some(creature));
        self.cell_slots.push(cell_slot);
        self.active_creatures.push(id);
        self.death_marks.push(0);
        proof {
            assert(self.creatures@.len() == self.creatures.len());
            assert(self.creatures@.len() <= usize::MAX);
        }
        match kind {
            CreatureKind::Aphid => {
                proof {
                    lemma_count_push(v0.creatures, Some(creature), CreatureKind::Aphid);
                    lemma_count_bound(v0.creatures.push(Some(creature)));
                }
                self.summary.aphids = self.summary.aphids + 1;
            },
            CreatureKind::Ladybug => {
                proof {
                    lemma_count_push(v0.creatures, Some(creature), CreatureKind::Ladybug);
                    lemma_count_bound(v0.creatures.push(Some(creature)));
                }
                self.summary.ladybugs = self.summary.ladybugs + 1;
            },
        }
        proof {
            let v = self@;
            let i = index as int;
            lemma_count_push(v0.creatures, Some(creature), CreatureKind::Aphid);
            lemma_count_push(v0.creatures, Some(creature), CreatureKind::Ladybug);
            let new_cell = v0.field[i].with_occupants(kind, v0.occupants(i, kind).push(id));
            assert(v.field =~= v0.field.update(i, new_cell));
            lemma_food_update(v0.field, i, new_cell);
            assert forall|j: int| 0 <= j < v.field.len() implies 0 <= #[trigger] v.field[j].food by {
                assert(v0.food_in_range());
                if j != i {
                    assert(v.field[j] == v0.field[j]);
                }
            }
            assert forall|j: int| 0 <= j < v0.field.len() implies #[trigger] v.field[j].food == v0.field[j].food by {
                if j != i {
                    assert(v.field[j] == v0.field[j]);
                }
            }
            assert forall|j: int, k: CreatureKind, s: int|
                0 <= j < v.field.len() && 0 <= s < v.occupants(j, k).len() implies {
                    let e = #[trigger] v.occupants(j, k)[s];
                    v.sits_at(e, j, s, k) && !Set::<usize>::empty().contains(e)
                } by {
                let e = v.occupants(j, k)[s];
                if j == i && k == kind && s == cell_slot {
                    assert(e == id);
                } else {
                    if j != i {
                        assert(v.field[j] == v0.field[j]);
                    } else {
                        assert(v.field[j] == new_cell);
                    }
                    assert(e == v0.occupants(j, k)[s]);
                    assert(v0.sits_at(e, j, s, k));
                    assert(v.creatures[e as int] == v0.creatures[e as int]);
                    assert(v.cell_slots[e as int] == v0.cell_slots[e as int]);
                }
            }
            assert forall|c: int|
                0 <= c < v.creatures.len() && (#[trigger] v.creatures[c]) is Some
                    && !Set::<usize>::empty().contains(c as usize) && (c != id || life_of(creature) > i32::MIN)
                    implies v.placed(c) && life_of(v.creature(c)) > i32::MIN by {
                if c == id {
                    assert(v.occupants(i, kind)[cell_slot as int] == id);
                } else {
                    assert(v.creatures[c] == v0.creatures[c]);
                    assert(v0.placed(c));
                    let cr = v0.creature(c);
                    let j = v0.index_of(location_of(cr));
                    let k = kind_of(cr);
                    lemma_index_in_field(
                        v0.rows as int,
                        v0.cols as int,
                        location_of(cr).x as int,
                        location_of(cr).y as int,
                    );
                    if j == i && k == kind {
                        assert(v.occupants(j, k) == v0.occupants(j, k).push(id));
                    } else if j == i {
                        assert(v.field[j] == new_cell);
                        assert(v.occupants(j, k) == v0.occupants(j, k));
                    } else {
                        assert(v.field[j] == v0.field[j]);
                        assert(v.occupants(j, k) == v0.occupants(j, k));
                    }
                }
            }
            assert forall|c: int|
                0 <= c < v.creatures.len() && (#[trigger] v.creatures[c]) is Some implies v.in_bounds(
                    location_of(v.creature(c)),
                ) by {
                if c != id {
                    assert(v.creatures[c] == v0.creatures[c]);
                }
            }
            assert forall|a: int, b: int|
                0 <= a < b < v.active.len() implies #[trigger] v.active[a] < #[trigger] v.active[b] by {
                if b == v.active.len() - 1 {
                    assert(v.active[a] == v0.active[a]);
                }
            }
            assert forall|a: int| 0 <= a < v.active.len() implies #[trigger] v.active[a]
                < v.creatures.len() by {
                if a < v0.active.len() {
                    assert(v.active[a] == v0.active[a]);
                }
            }
            assert forall|c: int|
                0 <= c < v.creatures.len() && (#[trigger] v.creatures[c]) is Some implies v.active.contains(
                c as usize) by {
                if c == id {
                    assert(v.active[v.active.len() - 1] == id);
                } else {
                    assert(v.creatures[c] == v0.creatures[c]);
                    assert(v0.active.contains(c as usize));
                    let a = choose|a: int| 0 <= a < v0.active.len() && v0.active[a] == c as usize;
                    assert(v.active[a] == c as usize);
                }
            }
            assert forall|c: int| 0 <= c < v.death_marks.len() implies #[trigger] v.death_marks[c]
                <= v.epoch by {
                if c < v0.death_marks.len() {
                    assert(v.death_marks[c] == v0.death_marks[c]);
                }
            }
            if v0.active_living() {
                assert forall|a: int| 0 <= a < v.active.len() implies #[trigger] v.creatures[v.active[a] as int]
                    is Some by {
                    if a < v0.active.len() {
                        assert(v.active[a] == v0.active[a]);
                        assert(v0.creatures[v0.active[a] as int] is Some);
                    }
                }
            }
            assert forall|c: int|
                0 <= c < v0.creatures.len() && (#[trigger] v.creatures[c]) is Some implies v0.creatures[c] is Some
                && kind_of(v.creatures[c]->Some_0) == kind_of(v0.creatures[c]->Some_0) by {
                assert(v.creatures[c] == v0.creatures[c]);
            }
        }
        id
    }

    /// Adds an aphid if the coordinate is valid and returns its stable ID, or
    /// `None` when the coordinate is outside the board.
    /// Any life is taken. A board is only well formed, and can only play a
    /// turn, while every life on it lies above `i32::MIN`: a hungry creature
    /// loses one life, which that value cannot give.
    pub fn add_aphid(&mut self, x: usize, y: usize, life: i32) -> (id: Option<usize>)
        requires
            old(self)@.inv(Set::empty()),
        ensures
            life > i32::MIN ==> final(self)@.inv(Set::empty()),
            old(self)@.active_living() ==> final(self)@.active_living(),
            id is None <==> !old(self)@.in_bounds(Coordinates { x, y }),
            id is None ==> final(self)@ == old(self)@,
            id matches Some(id) ==> aphid_added(old(self)@, final(self)@, Coordinates { x, y }, life, id),
            final(self)@.rows == old(self)@.rows,
            final(self)@.cols == old(self)@.cols,
            final(self)@.epoch == old(self)@.epoch,
            evolves(old(self)@.creatures, final(self)@.creatures),
            final(self)@.field.len() == old(self)@.field.len(),
            forall|i: int| 0 <= i < old(self)@.field.len() ==> #[trigger] final(self)@.field[i].food
                == old(self)@.field[i].food,
    {
        let location = Coordinates { x, y };
        if !self.in_bounds(location) {
            return None;
        }
        let id = self.insert_creature(location, Creature::Aphid(Aphid { location, life }));
        Some(id)
    }

    /// Adds a ladybug if the coordinate is valid and returns its stable ID, or
    /// `None` when the coordinate is outside the board.
    /// Any life is taken. A board is only well formed, and can only play a
    /// turn, while every life on it lies above `i32::MIN`: a hungry creature
    /// loses one life, which that value cannot give.
    pub fn add_ladybug(&mut self, x: usize, y: usize, life: i32, random: &mut Random) -> (id:
        Option<usize>)
        requires
            old(self)@.inv(Set::empty()),
        ensures
            life > i32::MIN ==> final(self)@.inv(Set::empty()),
            old(self)@.active_living() ==> final(self)@.active_living(),
            id is None <==> !old(self)@.in_bounds(Coordinates { x, y }),
            id is None ==> final(self)@ == old(self)@ && *final(random) == *old(random),
            id matches Some(id) ==> ladybug_added(old(self)@, final(self)@, Coordinates { x, y }, life, id),
            id is Some ==> final(random).draws() == old(random).draws().push(
                Draw::Number { min: 0, max: 3, value: last_number(*final(random)) },
            ),
            id matches Some(id) ==> final(self)@.creatures[id as int] matches Some(Creature::Ladybug(ladybug))
                && ladybug.preferred_directions == direction_band(last_number(*final(random)) as int),
            final(self)@.rows == old(self)@.rows,
            final(self)@.cols == old(self)@.cols,
            final(self)@.epoch == old(self)@.epoch,
            evolves(old(self)@.creatures, final(self)@.creatures),
            final(self)@.field.len() == old(self)@.field.len(),
            forall|i: int| 0 <= i < old(self)@.field.len() ==> #[trigger] final(self)@.field[i].food
                == old(self)@.field[i].food,
    {
        let location = Coordinates { x, y };
        if !self.in_bounds(location) {
            return None;
        }
        let ladybug = Ladybug::new(location, life, random);
        let ghost before = self@.creatures;
        let id = self.insert_creature(location, Creature::Ladybug(ladybug));
        proof {
            assert(self@.creatures.drop_last() =~= before);
        }
        Some(id)
    }
}


/// `value` limited to `min..=max`, as `Ord::clamp` gives it.
pub fn clamp_isize(value: isize, min: isize, max: isize) -> (clamped: isize)
    requires
        min <= max,
    ensures
        clamped == if value < min {
            min
        } else if value > max {
            max
        } else {
            value
        },
{
    if value < min {
        min
    } else if value > max {
        max
    } else {
        value
    }
}

/// Removes an occupant by its cached slot and returns the ID moved into that
/// slot, if any.
pub fn swap_remove_occupant(occupants: &mut Vec<usize>, id: usize, cell_slot: usize) -> (moved:
    Option<(usize, usize)>)
    requires
        cell_slot < old(occupants)@.len(),
        old(occupants)@[cell_slot as int] == id,
    ensures
        final(occupants)@ == swap_removed(old(occupants)@, cell_slot as int),
        moved == if cell_slot < final(occupants)@.len() {
            Some((final(occupants)@[cell_slot as int], cell_slot))
        } else {
            None
        },
{
    let removed = occupants.swap_remove(cell_slot);
    if cell_slot < occupants.len() {
        Some((occupants[cell_slot], cell_slot))
    } else {
        None
    }
}

impl Board {
    /// Removes an existing creature ID from a location list for its kind.
    fn remove_from_location(
        &mut self,
        kind: CreatureKind,
        location: Coordinates,
        id: usize,
        cell_slot: usize,
        Ghost(dead): Ghost<Set<usize>>,
    )
        requires
            old(self)@.inv(dead),
            old(self)@.living(id as int),
            !dead.contains(id),
            kind == kind_of(old(self)@.creature(id as int)),
            location == location_of(old(self)@.creature(id as int)),
            cell_slot == old(self)@.cell_slots[id as int],
        ensures
            final(self)@.inv(dead.insert(id)),
            final(self)@.field == old(self)@.field.update(
                old(self)@.index_of(location),
                old(self)@.field[old(self)@.index_of(location)].with_occupants(
                    kind,
                    swap_removed(old(self)@.occupants_at(location, kind), cell_slot as int),
                ),
            ),
            final(self)@.cell_slots == if cell_slot + 1 < old(self)@.occupants_at(location, kind).len() {
                old(self)@.cell_slots.update(
                    old(self)@.occupants_at(location, kind).last() as int,
                    cell_slot,
                )
            } else {
                old(self)@.cell_slots
            },
            final(self)@.creatures == old(self)@.creatures,
            final(self)@.active == old(self)@.active,
            final(self)@.death_marks == old(self)@.death_marks,
            final(self)@.epoch == old(self)@.epoch,
            final(self)@.summary == old(self)@.summary,
            final(self)@.rows == old(self)@.rows,
            final(self)@.cols == old(self)@.cols,
    {
        let ghost v0 = self@;
        let index = self.index(location);
        proof {
            assert(v0.placed(id as int));
        }
        let moved = match kind {
            CreatureKind::Aphid => swap_remove_occupant(&mut self.field[index].aphids, id, cell_slot),
            CreatureKind::Ladybug => swap_remove_occupant(
                &mut self.field[index].ladybugs,
                id,
                cell_slot,
            ),
        };
        if let Some((moved_id, moved_slot)) = moved {
            proof {
                let list = v0.occupants(index as int, kind);
                assert(v0.sits_at(list.last(), index as int, list.len() - 1, kind));
            }
            self.cell_slots.set(moved_id, moved_slot);
        }
        proof {
            let v = self@;
            let i = index as int;
            let k = kind;
            let list = v0.occupants(i, k);
            let n = list.len();
            let last = list[n - 1];
            let new_list = swap_removed(list, cell_slot as int);
            let new_cell = v0.field[i].with_occupants(k, new_list);
            assert(v.field =~= v0.field.update(i, new_cell));
            assert(v0.sits_at(last, i, n - 1, k));
            lemma_food_update(v0.field, i, new_cell);
            let d2 = dead.insert(id);
            assert forall|j: int| 0 <= j < v.field.len() implies 0 <= #[trigger] v.field[j].food by {
                assert(v0.food_in_range());
                if j != i {
                    assert(v.field[j] == v0.field[j]);
                }
            }
            assert forall|j: int, k2: CreatureKind, s: int|
                0 <= j < v.field.len() && 0 <= s < v.occupants(j, k2).len() implies {
                    let e = #[trigger] v.occupants(j, k2)[s];
                    v.sits_at(e, j, s, k2) && !d2.contains(e)
                } by {
                let e = v.occupants(j, k2)[s];
                if j == i && k2 == k {
                    assert(v.occupants(j, k2) == new_list);
                    if s == cell_slot {
                        assert(e == last);
                        assert(v.cell_slots[last as int] == s);
                    } else {
                        assert(e == list[s]);
                        assert(v0.sits_at(e, j, s, k2));
                        assert(e != last);
                    }
                } else {
                    if j != i {
                        assert(v.field[j] == v0.field[j]);
                    } else {
                        assert(v.field[j] == new_cell);
                    }
                    assert(e == v0.occupants(j, k2)[s]);
                    assert(v0.sits_at(e, j, s, k2));
                }
            }
            assert forall|c: int|
                0 <= c < v.creatures.len() && (#[trigger] v.creatures[c]) is Some && !d2.contains(
                    c as usize,
                ) implies v.placed(c) && life_of(v.creature(c)) > i32::MIN by {
                assert(v0.placed(c));
                let cr = v0.creature(c);
                let j = v0.index_of(location_of(cr));
                let k2 = kind_of(cr);
                lemma_index_in_field(
                    v0.rows as int,
                    v0.cols as int,
                    location_of(cr).x as int,
                    location_of(cr).y as int,
                );
                let cs = v0.cell_slots[c];
                assert(v0.sits_at(v0.occupants(j, k2)[cs as int], j, cs as int, k2));
                if j == i && k2 == k {
                    assert(v.occupants(j, k2) == new_list);
                    if cs == n - 1 {
                        assert(c == last);
                    } else {
                        assert(cs != cell_slot);
                        assert(new_list[cs as int] == c);
                    }
                } else {
                    if j != i {
                        assert(v.field[j] == v0.field[j]);
                    } else {
                        assert(v.field[j] == new_cell);
                    }
                    assert(v.occupants(j, k2) == v0.occupants(j, k2));
                }
            }
        }
    }

    /// Marks a creature as removed in the stable ID table and cached totals.
    fn mark_creature_removed(&mut self, id: usize, kind: CreatureKind, Ghost(dead): Ghost<Set<usize>>)
        requires
            old(self)@.inv(dead),
            dead.contains(id),
            old(self)@.living(id as int),
            kind == kind_of(old(self)@.creature(id as int)),
        ensures
            final(self)@.inv(dead.remove(id)),
            final(self)@.creatures == old(self)@.creatures.update(id as int, None),
            final(self)@.field == old(self)@.field,
            final(self)@.cell_slots == old(self)@.cell_slots,
            final(self)@.active == old(self)@.active,
            final(self)@.death_marks == old(self)@.death_marks,
            final(self)@.epoch == old(self)@.epoch,
            final(self)@.rows == old(self)@.rows,
            final(self)@.cols == old(self)@.cols,
            final(self)@.summary.food == old(self)@.summary.food,
            final(self)@.population() + 1 == old(self)@.population(),
            final(self)@.summary.aphids + final(self)@.summary.ladybugs + 1 == old(self)@.summary.aphids
                + old(self)@.summary.ladybugs,
    {
        let ghost v0 = self@;
        self.creatures.set(id, None);
        proof {
            lemma_count_update(v0.creatures, id as int, None, CreatureKind::Aphid);
            lemma_count_update(v0.creatures, id as int, None, CreatureKind::Ladybug);
        }
        match kind {
            CreatureKind::Aphid => self.summary.aphids = self.summary.aphids - 1,
            CreatureKind::Ladybug => self.summary.ladybugs = self.summary.ladybugs - 1,
        }
        proof {
            let v = self@;
            let d2 = dead.remove(id);
            assert forall|j: int, k2: CreatureKind, s: int|
                0 <= j < v.field.len() && 0 <= s < v.occupants(j, k2).len() implies {
                    let e = #[trigger] v.occupants(j, k2)[s];
                    v.sits_at(e, j, s, k2) && !d2.contains(e)
                } by {
                let e = v.occupants(j, k2)[s];
                assert(v.occupants(j, k2) == v0.occupants(j, k2));
                assert(v0.occupants(j, k2)[s] == e);
                assert(v0.sits_at(e, j, s, k2) && !dead.contains(e));
                assert(e != id);
            }
            assert forall|c: int|
                0 <= c < v.creatures.len() && (#[trigger] v.creatures[c]) is Some && !d2.contains(
                    c as usize,
                ) implies v.placed(c) && life_of(v.creature(c)) > i32::MIN by {
                assert(c != id);
                assert(!dead.contains(c as usize));
                assert(v.creatures[c] == v0.creatures[c]);
                assert(v0.creatures[c] is Some);
                assert(v0.placed(c));
                assert(v.occupants_at(location_of(v.creature(c)), kind_of(v.creature(c)))
                    == v0.occupants_at(location_of(v0.creature(c)), kind_of(v0.creature(c))));
            }
            assert forall|c: int|
                0 <= c < v.creatures.len() && (#[trigger] v.creatures[c]) is Some implies v.in_bounds(
                    location_of(v.creature(c)),
                ) by {
                assert(v.creatures[c] == v0.creatures[c]);
            }
            assert forall|c: int|
                0 <= c < v.creatures.len() && (#[trigger] v.creatures[c]) is Some implies v.active.contains(
                c as usize) by {
                assert(v.creatures[c] == v0.creatures[c]);
            }
        }
    }

    /// Keeps only the active IDs other than `id`.
    fn drop_active(&mut self, id: usize)
        requires
            old(self)@.inv(Set::empty()),
            !old(self)@.living(id as int),
        ensures
            final(self)@.inv(Set::empty()),
            forall|x: usize| #[trigger] final(self)@.active.contains(x) <==> old(self)@.active.contains(x)
                && x != id,
            final(self)@.active.len() <= old(self)@.active.len(),
            (forall|a: int| 0 <= a < old(self)@.active.len() && old(self)@.active[a] != id
                ==> #[trigger] old(self)@.creatures[old(self)@.active[a] as int] is Some)
                ==> final(self)@.active_living(),
            final(self)@ == (BoardView { active: final(self)@.active, ..old(self)@ }),
    {
        let ghost v0 = self@;
        let mut kept: Vec<usize> = Vec::new();
        let count = self.active_creatures.len();
        for a in 0..count
            invariant
                self@ == v0,
                v0.inv(Set::empty()),
                count == v0.active.len(),
                kept@.len() <= a,
                forall|p: int, q: int| 0 <= p < q < kept@.len() ==> #[trigger] kept@[p] < #[trigger] kept@[q],
                forall|p: int| 0 <= p < kept@.len() ==> v0.active.contains(#[trigger] kept@[p]),
                forall|p: int| 0 <= p < kept@.len() ==> #[trigger] kept@[p] != id,
                forall|b: int| 0 <= b < a && v0.active[b] != id ==> kept@.contains(#[trigger] v0.active[b]),
                a > 0 && kept@.len() > 0 ==> kept@.last() <= v0.active[a - 1],
        {
            let x = self.active_creatures[a];
            if x != id {
                proof {
                    if kept@.len() > 0 {
                        assert(kept@.last() < x);
                    }
                }
                let ghost before = kept@;
                kept.push(x);
                proof {
                    assert(kept@[kept@.len() - 1] == x);
                    assert forall|p: int| 0 <= p < kept@.len() implies v0.active.contains(#[trigger] kept@[p]) by {
                        if p < before.len() {
                            assert(kept@[p] == before[p]);
                        } else {
                            assert(v0.active[a as int] == kept@[p]);
                        }
                    }
                    assert forall|b: int| 0 <= b < a + 1 && v0.active[b] != id implies kept@.contains(#[trigger] v0.active[b]) by {
                        if b < a {
                            let p = choose|p: int| 0 <= p < before.len() && before[p] == v0.active[b];
                            assert(kept@[p] == before[p]);
                        } else {
                            assert(kept@[kept@.len() - 1] == v0.active[b]);
                        }
                    }
                }
            }
        }
        self.active_creatures = kept;
        proof {
            let v = self@;
            assert forall|x: usize| #[trigger] v.active.contains(x) <==> v0.active.contains(x) && x != id by {
                if v.active.contains(x) {
                    let p = choose|p: int| 0 <= p < v.active.len() && v.active[p] == x;
                    assert(v0.active.contains(kept@[p]));
                }
                if v0.active.contains(x) && x != id {
                    let b = choose|b: int| 0 <= b < v0.active.len() && v0.active[b] == x;
                    assert(v.active.contains(v0.active[b]));
                }
            }
            assert forall|p: int| 0 <= p < v.active.len() implies #[trigger] v.active[p] < v.creatures.len() by {
                assert(v0.active.contains(kept@[p]));
                let b = choose|b: int| 0 <= b < v0.active.len() && v0.active[b] == kept@[p];
            }
            assert forall|c: int|
                0 <= c < v.creatures.len() && (#[trigger] v.creatures[c]) is Some implies v.active.contains(
                c as usize) by {
                assert(v0.active.contains(c as usize));
            }
            if forall|a: int| 0 <= a < v0.active.len() && v0.active[a] != id
                ==> #[trigger] v0.creatures[v0.active[a] as int] is Some {
                assert forall|p: int| 0 <= p < v.active.len() implies #[trigger] v.creatures[v.active[p] as int] is Some by {
                    assert(v0.active.contains(kept@[p]));
                    let b = choose|b: int| 0 <= b < v0.active.len() && v0.active[b] == kept@[p];
                    assert(v0.creatures[v0.active[b] as int] is Some);
                }
            }
            assert(v =~= BoardView { active: v.active, ..v0 });
            lemma_inv_active_frame(v0, v, Set::empty());
        }
    }

    /// Removes a creature from its current location and marks its stable ID as
    /// dead.
    pub fn remove_creature(&mut self, id: usize)
        requires
            old(self)@.wf(),
        ensures
            final(self)@.wf(),
            !old(self)@.living(id as int) ==> final(self)@ == old(self)@,
            old(self)@.living(id as int) ==> {
                let creature = old(self)@.creature(id as int);
                let location = location_of(creature);
                let kind = kind_of(creature);
                let list = old(self)@.occupants_at(location, kind);
                let slot = old(self)@.cell_slots[id as int];
                &&& final(self)@.creatures == old(self)@.creatures.update(id as int, None)
                &&& final(self)@.field == old(self)@.field.update(
                    old(self)@.index_of(location),
                    old(self)@.field[old(self)@.index_of(location)].with_occupants(
                        kind,
                        swap_removed(list, slot as int),
                    ),
                )
                &&& final(self)@.cell_slots == if slot + 1 < list.len() {
                    old(self)@.cell_slots.update(list.last() as int, slot)
                } else {
                    old(self)@.cell_slots
                }
                &&& forall|x: usize| #[trigger] final(self)@.active.contains(x)
                    <==> old(self)@.active.contains(x) && x != id
                &&& final(self)@.population() + 1 == old(self)@.population()
                &&& final(self)@.summary.food == old(self)@.summary.food
            },
            final(self)@.rows == old(self)@.rows,
            final(self)@.cols == old(self)@.cols,
            final(self)@.death_marks == old(self)@.death_marks,
            final(self)@.epoch == old(self)@.epoch,
            evolves(old(self)@.creatures, final(self)@.creatures),
    {
        let Some((kind, location)) = self.creature_kind_location(id) else {
            return;
        };
        let cell_slot = self.cell_slots[id];
        let ghost v0 = self@;

        self.remove_from_location(kind, location, id, cell_slot, Ghost(Set::empty()));
        proof {
            assert(Set::<usize>::empty().insert(id).contains(id));
        }
        self.mark_creature_removed(id, kind, Ghost(Set::empty().insert(id)));
        proof {
            assert(Set::<usize>::empty().insert(id).remove(id) =~= Set::<usize>::empty());
        }
        let ghost v1 = self@;
        self.drop_active(id);
        proof {
            let v = self@;
            assert forall|a: int| 0 <= a < v1.active.len() && v1.active[a] != id
                implies #[trigger] v1.creatures[v1.active[a] as int] is Some by {
                assert(v0.creatures[v0.active[a] as int] is Some);
            }
            assert forall|c: int|
                0 <= c < v0.creatures.len() && (#[trigger] v.creatures[c]) is Some implies v0.creatures[c] is Some
                && kind_of(v.creatures[c]->Some_0) == kind_of(v0.creatures[c]->Some_0) by {
                assert(v.creatures[c] == v0.creatures[c]);
            }
        }
    }

    /// Returns a live creature's kind and location by stable ID.
    fn creature_kind_location(&self, id: usize) -> (found: Option<(CreatureKind, Coordinates)>)
        ensures
            found is None <==> !self@.living(id as int),
            found matches Some((kind, location)) ==> kind == kind_of(self@.creature(id as int))
                && location == location_of(self@.creature(id as int)),
    {
        if id < self.creatures.len() {
            match &self.creatures[id] {
                Some(creature) => Some((creature.kind(), creature.location())),
                None => None,
            }
        } else {
            None
        }
    }

    /// Returns a live creature's kind by stable ID.
    fn creature_kind(&self, id: usize) -> (found: Option<CreatureKind>)
        ensures
            found is None <==> !self@.living(id as int),
            found matches Some(kind) ==> kind == kind_of(self@.creature(id as int)),
    {
        if id < self.creatures.len() {
            match &self.creatures[id] {
                Some(creature) => Some(creature.kind()),
                None => None,
            }
        } else {
            None
        }
    }

    /// Removes one aphid from a cell and returns whether a creature was removed.
    pub fn remove_aphid_at(&mut self, x: usize, y: usize) -> (removed: bool)
        requires
            old(self)@.wf(),
        ensures
            final(self)@.wf(),
            removed <==> old(self)@.in_bounds(Coordinates { x, y }) && old(self)@.occupants_at(
                Coordinates { x, y },
                CreatureKind::Aphid,
            ).len() > 0,
            !removed ==> final(self)@ == old(self)@,
            removed ==> last_removed(old(self)@, final(self)@, Coordinates { x, y }, CreatureKind::Aphid),
            evolves(old(self)@.creatures, final(self)@.creatures),
    {
        self.remove_last_at(x, y, CreatureKind::Aphid)
    }

    /// Removes one ladybug from a cell and returns whether a creature was removed.
    pub fn remove_ladybug_at(&mut self, x: usize, y: usize) -> (removed: bool)
        requires
            old(self)@.wf(),
        ensures
            final(self)@.wf(),
            removed <==> old(self)@.in_bounds(Coordinates { x, y }) && old(self)@.occupants_at(
                Coordinates { x, y },
                CreatureKind::Ladybug,
            ).len() > 0,
            !removed ==> final(self)@ == old(self)@,
            removed ==> last_removed(old(self)@, final(self)@, Coordinates { x, y }, CreatureKind::Ladybug),
            evolves(old(self)@.creatures, final(self)@.creatures),
    {
        self.remove_last_at(x, y, CreatureKind::Ladybug)
    }

    /// Removes the last creature of `kind` listed in a cell.
    fn remove_last_at(&mut self, x: usize, y: usize, kind: CreatureKind) -> (removed: bool)
        requires
            old(self)@.wf(),
        ensures
            final(self)@.wf(),
            removed <==> old(self)@.in_bounds(Coordinates { x, y }) && old(self)@.occupants_at(
                Coordinates { x, y },
                kind,
            ).len() > 0,
            !removed ==> final(self)@ == old(self)@,
            removed ==> last_removed(old(self)@, final(self)@, Coordinates { x, y }, kind),
            evolves(old(self)@.creatures, final(self)@.creatures),
    {
        let location = Coordinates { x, y };
        if !self.in_bounds(location) {
            return false;
        }
        let index = self.index(location);
        let count = match kind {
            CreatureKind::Aphid => self.field[index].aphids.len(),
            CreatureKind::Ladybug => self.field[index].ladybugs.len(),
        };
        if count == 0 {
            return false;
        }
        let id = match kind {
            CreatureKind::Aphid => self.field[index].aphids[count - 1],
            CreatureKind::Ladybug => self.field[index].ladybugs[count - 1],
        };
        let ghost v0 = self@;
        proof {
            let list = v0.occupants(index as int, kind);
            assert(list == v0.occupants_at(location, kind));
            assert(v0.sits_at(list[count - 1], index as int, count - 1, kind));
            lemma_count_update(v0.creatures, id as int, None, CreatureKind::Aphid);
            lemma_count_update(v0.creatures, id as int, None, CreatureKind::Ladybug);
            assert(swap_removed(list, count - 1) =~= list.drop_last());
        }
        self.remove_creature(id);
        true
    }
}


impl Board {
    /// Reflects out-of-bounds coordinates back onto the board and clamps edge
    /// cases.
    pub fn in_boundaries(&self, x: &mut isize, y: &mut isize)
        requires
            1 <= self@.rows <= MAX_CELLS,
            1 <= self@.cols <= MAX_CELLS,
            -1 <= *old(x) <= self@.rows,
            -1 <= *old(y) <= self@.cols,
        ensures
            *final(x) == reflect(*old(x) as int, self@.rows - 1),
            *final(y) == reflect(*old(y) as int, self@.cols - 1),
    {
        let max_x = self.rows.saturating_sub(1) as isize;
        let max_y = self.cols.saturating_sub(1) as isize;

        if *x < 0 {
            *x += 2;
        } else if *x > max_x {
            *x -= 2;
        }

        if *y < 0 {
            *y += 2;
        } else if *y > max_y {
            *y -= 2;
        }

        *x = clamp_isize(*x, 0, max_x);
        *y = clamp_isize(*y, 0, max_y);
    }

    /// Converts a movement direction into a valid destination coordinate.
    pub fn direction_to_location(&self, direction: Direction, coordinates: Coordinates) -> (destination:
        Coordinates)
        requires
            self@.rows * self@.cols <= MAX_CELLS,
            self@.in_bounds(coordinates),
        ensures
            destination == self@.destination(direction, coordinates),
            self@.in_bounds(destination),
    {
        proof {
            lemma_index_in_field(self.rows as int, self.cols as int, coordinates.x as int, coordinates.y as int);
        }
        let mut x = coordinates.x as isize;
        let mut y = coordinates.y as isize;

        match direction {
            Direction::NorthWest => {
                x -= 1;
                y -= 1;
            },
            Direction::North => x -= 1,
            Direction::NorthEast => {
                x -= 1;
                y += 1;
            },
            Direction::West => y -= 1,
            Direction::East => y += 1,
            Direction::SouthWest => {
                x += 1;
                y -= 1;
            },
            Direction::South => x += 1,
            Direction::SouthEast => {
                x += 1;
                y += 1;
            },
            Direction::Same => {},
        }

        self.in_boundaries(&mut x, &mut y);
        Coordinates { x: x as usize, y: y as usize }
    }

    /// Adds an existing creature ID to a location list for its kind and returns
    /// its cell slot.
    fn add_to_location(&mut self, kind: CreatureKind, location: Coordinates, id: usize) -> (cell_slot:
        usize)
        requires
            old(self)@.rows * old(self)@.cols <= MAX_CELLS,
            old(self)@.field.len() == old(self)@.rows * old(self)@.cols,
            old(self)@.in_bounds(location),
        ensures
            cell_slot == old(self)@.occupants_at(location, kind).len(),
            final(self)@ == (BoardView {
                field: old(self)@.field.update(
                    old(self)@.index_of(location),
                    old(self)@.field[old(self)@.index_of(location)].with_occupants(
                        kind,
                        old(self)@.occupants_at(location, kind).push(id),
                    ),
                ),
                ..old(self)@
            }),
    {
        let ghost v0 = self@;
        let index = self.index(location);
        let cell_slot = match kind {
            CreatureKind::Aphid => {
                let cell_slot = self.field[index].aphids.len();
                self.field[index].aphids.push(id);
                cell_slot
            },
            CreatureKind::Ladybug => {
                let cell_slot = self.field[index].ladybugs.len();
                self.field[index].ladybugs.push(id);
                cell_slot
            },
        };
        proof {
            let new_cell = v0.field[index as int].with_occupants(
                kind,
                v0.occupants(index as int, kind).push(id),
            );
            assert(self@.field =~= v0.field.update(index as int, new_cell));
        }
        cell_slot
    }

    /// Writes a new value for creature `id` that keeps its kind and place.
    fn replace_creature(&mut self, id: usize, creature: Creature, Ghost(dead): Ghost<Set<usize>>)
        requires
            old(self)@.inv(dead),
            old(self)@.living(id as int),
            kind_of(creature) == kind_of(old(self)@.creature(id as int)),
            location_of(creature) == location_of(old(self)@.creature(id as int)),
            life_of(creature) > i32::MIN || dead.contains(id),
        ensures
            final(self)@.inv(dead),
            final(self)@ == (BoardView {
                creatures: old(self)@.creatures.update(id as int, Some(creature)),
                ..old(self)@
            }),
    {
        let ghost v0 = self@;
        self.creatures.set(id, Some(creature));
        proof {
            lemma_inv_replace(v0, self@, dead, id as int, creature);
        }
    }

    /// Lists creature `id`, taken off its cell, in the cell at `location`, and
    /// records it as standing there.
    fn place_creature(
        &mut self,
        id: usize,
        creature: Creature,
        location: Coordinates,
        Ghost(dead): Ghost<Set<usize>>,
    )
        requires
            old(self)@.inv(dead.insert(id)),
            !dead.contains(id),
            old(self)@.living(id as int),
            kind_of(creature) == kind_of(old(self)@.creature(id as int)),
            location_of(creature) == location,
            old(self)@.in_bounds(location),
            life_of(creature) > i32::MIN,
        ensures
            final(self)@.inv(dead),
            final(self)@ == (BoardView {
                field: old(self)@.field.update(
                    old(self)@.index_of(location),
                    old(self)@.field[old(self)@.index_of(location)].with_occupants(
                        kind_of(creature),
                        old(self)@.occupants_at(location, kind_of(creature)).push(id),
                    ),
                ),
                creatures: old(self)@.creatures.update(id as int, Some(creature)),
                cell_slots: old(self)@.cell_slots.update(
                    id as int,
                    old(self)@.occupants_at(location, kind_of(creature)).len() as usize,
                ),
                ..old(self)@
            }),
    {
        let ghost v0 = self@;
        let kind = creature.kind();
        let cell_slot = self.add_to_location(kind, location, id);
        self.cell_slots.set(id, cell_slot);
        self.creatures.set(id, Some(creature));
        proof {
            let v = self@;
            let d1 = dead.insert(id);
            let i = v0.index_of(location);
            lemma_index_in_field(v0.rows as int, v0.cols as int, location.x as int, location.y as int);
            let new_cell = v0.field[i].with_occupants(kind, v0.occupants(i, kind).push(id));
            lemma_food_update(v0.field, i, new_cell);
            lemma_count_same_kind(v0.creatures, id as int, creature);
            assert forall|j: int| 0 <= j < v.field.len() implies 0 <= #[trigger] v.field[j].food by {
                assert(v0.food_in_range());
                if j != i {
                    assert(v.field[j] == v0.field[j]);
                }
            }
            assert forall|j: int, k: CreatureKind, s: int|
                0 <= j < v.field.len() && 0 <= s < v.occupants(j, k).len() implies {
                    let e = #[trigger] v.occupants(j, k)[s];
                    v.sits_at(e, j, s, k) && !dead.contains(e)
                } by {
                let e = v.occupants(j, k)[s];
                if j == i && k == kind && s == cell_slot {
                    assert(e == id);
                } else {
                    if j != i {
                        assert(v.field[j] == v0.field[j]);
                    } else {
                        assert(v.field[j] == new_cell);
                    }
                    assert(e == v0.occupants(j, k)[s]);
                    assert(v0.sits_at(e, j, s, k) && !d1.contains(e));
                    assert(e != id);
                    assert(v.creatures[e as int] == v0.creatures[e as int]);
                    assert(v.cell_slots[e as int] == v0.cell_slots[e as int]);
                }
            }
            assert forall|c: int|
                0 <= c < v.creatures.len() && (#[trigger] v.creatures[c]) is Some && !dead.contains(
                    c as usize,
                ) implies v.placed(c) && life_of(v.creature(c)) > i32::MIN by {
                if c == id {
                    assert(v.occupants(i, kind)[cell_slot as int] == id);
                } else {
                    assert(v.creatures[c] == v0.creatures[c]);
                    assert(!d1.contains(c as usize));
                    assert(v0.placed(c));
                    let cr = v0.creature(c);
                    let j = v0.index_of(location_of(cr));
                    let k = kind_of(cr);
                    lemma_index_in_field(
                        v0.rows as int,
                        v0.cols as int,
                        location_of(cr).x as int,
                        location_of(cr).y as int,
                    );
                    if j == i && k == kind {
                        assert(v.occupants(j, k) == v0.occupants(j, k).push(id));
                    } else if j == i {
                        assert(v.field[j] == new_cell);
                        assert(v.occupants(j, k) == v0.occupants(j, k));
                    } else {
                        assert(v.field[j] == v0.field[j]);
                        assert(v.occupants(j, k) == v0.occupants(j, k));
                    }
                }
            }
            assert forall|c: int|
                0 <= c < v.creatures.len() && (#[trigger] v.creatures[c]) is Some implies v.in_bounds(
                    location_of(v.creature(c)),
                ) by {
                if c != id {
                    assert(v.creatures[c] == v0.creatures[c]);
                }
            }
            assert forall|c: int|
                0 <= c < v.creatures.len() && (#[trigger] v.creatures[c]) is Some implies v.active.contains(
                c as usize) by {
                if c != id {
                    assert(v.creatures[c] == v0.creatures[c]);
                }
            }
            assert(v =~= BoardView {
                field: v0.field.update(i, new_cell),
                creatures: v0.creatures.update(id as int, Some(creature)),
                cell_slots: v0.cell_slots.update(id as int, cell_slot),
                ..v0
            });
        }
    }
}


impl Board {
    /// Runs one creature's movement action for the movement phase.
    pub fn creature_movement<O: Odds>(&mut self, id: usize, random: &mut Random, odds: &O)
        requires
            old(self)@.wf(),
        ensures
            final(self)@.wf(),
            !old(self)@.living(id as int) ==> final(self)@ == old(self)@ && *final(random) == *old(random),
            extends(*old(random), *final(random)),
            old(self)@.living(id as int) ==> movement_drawn(
                old(self)@,
                old(self)@.creature(id as int),
                drawn_since(*old(random), *final(random)),
                final(self)@.creature(id as int),
            ),
            old(self)@.living(id as int) ==> final(self)@ == moved_board(
                old(self)@,
                id as int,
                step_direction(old(self)@.creature(id as int), drawn_since(*old(random), *final(random))),
                final(self)@.creature(id as int),
            ),
            final(self)@ == (BoardView {
                field: final(self)@.field,
                creatures: final(self)@.creatures,
                cell_slots: final(self)@.cell_slots,
                ..old(self)@
            }),
            final(self)@.creatures.len() == old(self)@.creatures.len(),
            forall|c: int|
                0 <= c < old(self)@.creatures.len() && c != id ==> #[trigger] final(self)@.creatures[c]
                    == old(self)@.creatures[c],
            old(self)@.living(id as int) ==> {
                let before = old(self)@.creature(id as int);
                let after = final(self)@.creature(id as int);
                &&& final(self)@.living(id as int)
                &&& kind_of(after) == kind_of(before)
                &&& life_of(after) == life_of(before)
                &&& exists|direction: Direction| location_of(after)
                    == #[trigger] old(self)@.destination(direction, location_of(before))
            },
            forall|i: int| 0 <= i < old(self)@.field.len() ==> #[trigger] final(self)@.field[i].food
                == old(self)@.field[i].food,
            evolves(old(self)@.creatures, final(self)@.creatures),
    {
        let ghost v0 = self@;
        proof {
            lemma_extends_itself(*random);
        }
        if id >= self.creatures.len() {
            return;
        }
        let mut creature = match self.creatures[id] {
            Some(creature) => creature,
            None => {
                return;
            },
        };
        let kind = creature.kind();
        let old_location = creature.location();
        let old_cell_slot = self.cell_slots[id];
        let ghost r0 = *random;
        let ghost original = creature;
        let direction = match creature {
            Creature::Aphid(_) => {
                if random.ask(odds, Chance::AphidMove) {
                    let value = random.draw(0, 7);
                    proof {
                        assert(drawn_since(r0, *random) =~= seq![
                            Draw::Asked { chance: Chance::AphidMove, answer: true },
                            Draw::Number { min: 0, max: 7, value },
                        ]);
                        assert(random.draws().take(r0.draws().len() as int) =~= r0.draws());
                    }
                    let direction = aphid_direction(value);
                    proof {
                        assert(direction == step_direction(original, drawn_since(r0, *random)));
                    }
                    direction
                } else {
                    proof {
                        assert(drawn_since(r0, *random) =~= seq![
                            Draw::Asked { chance: Chance::AphidMove, answer: false },
                        ]);
                        assert(random.draws().take(r0.draws().len() as int) =~= r0.draws());
                        assert(step_direction(original, drawn_since(r0, *random)) == Direction::Same);
                    }
                    Direction::Same
                }
            },
            Creature::Ladybug(mut ladybug) => {
                let ghost start = ladybug;
                let turned = random.ask(odds, Chance::LadybugDirection);
                let ghost r1 = *random;
                if turned {
                    ladybug.change_direction(random);
                }
                let ghost r2 = *random;
                creature = Creature::Ladybug(ladybug);
                let moving = random.ask(odds, Chance::LadybugMove);
                let ghost r3 = *random;
                proof {
                    if turned {
                        assert(r3.draws() =~= r0.draws().push(
                            Draw::Asked { chance: Chance::LadybugDirection, answer: true },
                        ).push(Draw::Number { min: 0, max: 3, value: last_number(r2) }).push(
                            Draw::Asked { chance: Chance::LadybugMove, answer: moving },
                        ));
                        assert(ladybug.preferred_directions == direction_band(last_number(r2) as int));
                    } else {
                        assert(r2 == r1);
                        assert(ladybug == start);
                        assert(r3.draws() =~= r0.draws().push(
                            Draw::Asked { chance: Chance::LadybugDirection, answer: false },
                        ).push(Draw::Asked { chance: Chance::LadybugMove, answer: moving }));
                    }
                }
                if moving {
                    let pick = random.draw(0, 2);
                    proof {
                        assert(drawn_since(r0, *random) =~= drawn_since(r0, r3).push(
                            Draw::Number { min: 0, max: 2, value: pick },
                        ));
                        assert(random.draws().take(r0.draws().len() as int) =~= r0.draws());
                    }
                    let direction = ladybug.preferred_directions[pick as usize];
                    proof {
                        let drawn = drawn_since(r0, *random);
                        assert(original == Creature::Ladybug(start));
                        if turned {
                            assert(drawn[1] == Draw::Number { min: 0, max: 3, value: last_number(r2) });
                            assert(drawn.len() == 4);
                            assert(drawn[3] == Draw::Number { min: 0, max: 2, value: pick });
                        } else {
                            assert(drawn[0] == Draw::Asked { chance: Chance::LadybugDirection, answer: false });
                            assert(drawn.len() == 3);
                            assert(drawn[2] == Draw::Number { min: 0, max: 2, value: pick });
                        }
                        assert(direction == ladybug.preferred_directions@[pick as int]);
                        assert(direction == step_direction(original, drawn));
                    }
                    direction
                } else {
                    proof {
                        assert(random.draws().take(r0.draws().len() as int) =~= r0.draws());
                        let drawn = drawn_since(r0, *random);
                        assert(drawn =~= drawn_since(r0, r3));
                        assert(original == Creature::Ladybug(start));
                        assert(step_direction(original, drawn) == Direction::Same);
                    }
                    Direction::Same
                }
            },
        };
        proof {
            assert(v0.creatures_sound());
            assert(v0.creatures[id as int] is Some);
        }
        self.replace_creature(id, creature, Ghost(Set::empty()));
        let ghost v1 = self@;
        proof {
            assert forall|a: int| 0 <= a < v1.active.len() implies #[trigger] v1.creatures[v1.active[a] as int]
                is Some by {
                assert(v0.creatures[v0.active[a] as int] is Some);
            }
        }
        if direction == Direction::Same {
            proof {
                assert forall|i: int| 0 <= i < v0.field.len() implies #[trigger] v1.field[i].food
                    == v0.field[i].food by {}
                assert(location_of(v1.creature(id as int)) == v0.destination(Direction::Same, old_location));
                assert forall|c: int|
                    0 <= c < v0.creatures.len() && (#[trigger] v1.creatures[c]) is Some implies v0.creatures[c] is Some
                    && kind_of(v1.creatures[c]->Some_0) == kind_of(v0.creatures[c]->Some_0) by {
                    if c != id {
                        assert(v1.creatures[c] == v0.creatures[c]);
                    }
                }
                assert(v1 == moved_board(v0, id as int, direction, v1.creature(id as int)));
            }
            return;
        }
        let new_location = self.direction_to_location(direction, old_location);
        self.remove_from_location(kind, old_location, id, old_cell_slot, Ghost(Set::empty()));
        let ghost v2 = self@;
        creature.set_location(new_location);
        proof {
            assert(Set::<usize>::empty().insert(id) =~= Set::<usize>::empty().insert(id));
        }
        self.place_creature(id, creature, new_location, Ghost(Set::empty()));
        proof {
            let v = self@;
            let i0 = v0.index_of(old_location);
            let i1 = v0.index_of(new_location);
            lemma_index_in_field(v0.rows as int, v0.cols as int, old_location.x as int, old_location.y as int);
            lemma_index_in_field(v0.rows as int, v0.cols as int, new_location.x as int, new_location.y as int);
            assert forall|a: int| 0 <= a < v.active.len() implies #[trigger] v.creatures[v.active[a] as int]
                is Some by {
                assert(v1.creatures[v1.active[a] as int] is Some);
                if v.active[a] != id {
                    assert(v.creatures[v.active[a] as int] == v1.creatures[v1.active[a] as int]);
                }
            }
            assert forall|i: int| 0 <= i < v0.field.len() implies #[trigger] v.field[i].food
                == v0.field[i].food by {
                if i != i1 {
                    assert(v.field[i] == v2.field[i]);
                }
                if i != i0 {
                    assert(v2.field[i] == v1.field[i]);
                }
            }
            assert forall|c: int|
                0 <= c < v0.creatures.len() && (#[trigger] v.creatures[c]) is Some implies v0.creatures[c] is Some
                && kind_of(v.creatures[c]->Some_0) == kind_of(v0.creatures[c]->Some_0) by {
                if c != id {
                    assert(v.creatures[c] == v0.creatures[c]);
                }
            }
            assert(location_of(v.creature(id as int)) == v0.destination(direction, old_location));
            let lifted = lifted_out(v0, id as int);
            assert(v2.field == lifted.field);
            assert(v2.cell_slots == lifted.cell_slots);
            assert(lifted.occupants_at(new_location, kind) == v2.occupants_at(new_location, kind));
            let moved = v.creature(id as int);
            assert(v.creatures[id as int] == Some(creature));
            assert(location_of(moved) == new_location);
            assert(kind_of(moved) == kind);
            let target = moved_board(v0, id as int, direction, moved);
            assert(target == set_down(lifted, id as int, moved));
            assert(v.field =~= target.field);
            assert(v.creatures =~= target.creatures);
            assert(v.cell_slots =~= target.cell_slots);
            assert(v.active == target.active);
            assert(v.death_marks == target.death_marks);
            assert(v.summary == target.summary);
            assert(v =~= target);
        }
    }
}


/// The chances a food regeneration takes over the first `n` cells of `field`:
/// one for each cell below the food cap, in cell order, answered as `grows`
/// answers for that cell.
pub open spec fn food_asks(field: Seq<CellView>, grows: Seq<bool>, n: int) -> Seq<Draw>
    decreases n,
{
    if n <= 0 {
        Seq::empty()
    } else if field[n - 1].food < MAX_CELL_FOOD {
        food_asks(field, grows, n - 1).push(Draw::Asked { chance: Chance::FoodRegeneration, answer: grows[n - 1] })
    } else {
        food_asks(field, grows, n - 1)
    }
}

/// Only the answers for the first `n` cells shape the chances taken over them.
proof fn lemma_food_asks_prefix(field: Seq<CellView>, a: Seq<bool>, b: Seq<bool>, n: int)
    requires
        forall|j: int| 0 <= j < n ==> a[j] == b[j],
    ensures
        food_asks(field, a, n) == food_asks(field, b, n),
    decreases n,
{
    if n > 0 {
        lemma_food_asks_prefix(field, a, b, n - 1);
    }
}

/// A turn as `refresh` plays it, for the draws `drawn` it took: every creature
/// living at its start moves in order; then those still alive fight in order,
/// and the killed leave; then those still alive breed in order; then they eat
/// in order; then the starved leave; then food grows back in the cells below
/// the cap whose chance came up. The draws are the movement draws, then the
/// fighting draws, then the breeding draws, then one regrowth chance for each
/// cell below the cap, in cell order.
pub open spec fn played_as_drawn(before: BoardView, drawn: Seq<Draw>, after: BoardView) -> bool {
    exists|
        boards: Seq<BoardView>,
        groups: Seq<Seq<Draw>>,
        fights: Seq<BoardView>,
        fight_draws: Seq<Seq<Draw>>,
        breeds: Seq<BoardView>,
        breed_draws: Seq<Seq<Draw>>,
        fed: Seq<BoardView>,
        grows: Seq<bool>,
    |
        #[trigger] played_through(before, drawn, after, boards, groups, fights, fight_draws, breeds, breed_draws, fed, grows)
}

/// The turn `played_as_drawn` describes, with its boards between the steps of
/// each phase and the draws of each step named: `boards` and `groups` for the
/// moves, `fights` and `fight_draws` for the fights, `breeds` and
/// `breed_draws` for the breeding, `fed` for the meals, and `grows` for the
/// regrowth answers.
pub open spec fn played_through(
    before: BoardView,
    drawn: Seq<Draw>,
    after: BoardView,
    boards: Seq<BoardView>,
    groups: Seq<Seq<Draw>>,
    fights: Seq<BoardView>,
    fight_draws: Seq<Seq<Draw>>,
    breeds: Seq<BoardView>,
    breed_draws: Seq<Seq<Draw>>,
    fed: Seq<BoardView>,
    grows: Seq<bool>,
) -> bool {
    &&& movement_phase(before.active, boards, groups)
    &&& boards[0] == before
    &&& fights[0] == (BoardView {
        death_marks: fights[0].death_marks,
        epoch: fights[0].epoch,
        ..boards.last()
    })
    &&& fights[0].pending() == Set::<usize>::empty()
    &&& fights[0].death_marks.len() == fights[0].creatures.len()
    &&& fighting_phase(before.active, fights, fight_draws)
    &&& breeds[0] == (BoardView {
        creatures: breeds[0].creatures,
        summary: breeds[0].summary,
        ..fights.last()
    })
    &&& breeds[0].creatures.len() == fights.last().creatures.len()
    &&& forall|c: int| 0 <= c < fights.last().creatures.len() ==> #[trigger] breeds[0].creatures[c]
        == if fights.last().pending().contains(c as usize) {
        None
    } else {
        fights.last().creatures[c]
    }
    &&& breeding_phase(before.active, breeds, breed_draws)
    &&& fed[0] == breeds.last()
    &&& feeding_phase(before.active, fed)
    &&& after.creatures.len() == fed.last().creatures.len()
    &&& forall|c: int| 0 <= c < after.creatures.len() ==> #[trigger] after.creatures[c] == if fed.last().living(c)
        && life_of(fed.last().creature(c)) < 1 {
        None
    } else {
        fed.last().creatures[c]
    }
    &&& after.rows == fed.last().rows
    &&& after.cols == fed.last().cols
    &&& after.cell_slots == fed.last().cell_slots
    &&& grows.len() == fed.last().field.len()
    &&& after.field.len() == fed.last().field.len()
    &&& forall|i: int| 0 <= i < fed.last().field.len() ==> #[trigger] after.field[i] == CellView {
        food: (fed.last().field[i].food + if fed.last().field[i].food < MAX_CELL_FOOD && grows[i] {
            1int
        } else {
            0int
        }) as i32,
        ..fed.last().field[i]
    }
    &&& drawn == groups.flatten() + fight_draws.flatten()
        + breed_draws.flatten() + food_asks(fed.last().field, grows, fed.last().field.len() as int)
}

/// One creature's fight as a turn makes it. A creature that is not alive, or
/// was killed earlier in the fighting, or has no prey in its cell, takes no
/// draws and changes nothing. Any other asks its combat chance; when the attack
/// lands, the last prey in its cell leaves the cell and is marked dead.
pub open spec fn fought_as_drawn(before: BoardView, id: usize, drawn: Seq<Draw>, after: BoardView) -> bool {
    if !before.living(id as int) || before.pending().contains(id) || combat_chance(before, id as int) is None {
        drawn.len() == 0 && after == before
    } else {
        let creature = before.creature(id as int);
        let location = location_of(creature);
        let prey = prey_of(kind_of(creature));
        let list = before.occupants_at(location, prey);
        let i = before.index_of(location);
        &&& drawn.len() == 1
        &&& drawn[0] is Asked
        &&& drawn[0]->chance == combat_chance(before, id as int)->Some_0
        &&& if drawn[0]->answer {
            &&& list.last() < before.death_marks.len()
            &&& after == BoardView {
                field: before.field.update(i, before.field[i].with_occupants(prey, list.drop_last())),
                death_marks: before.death_marks.update(list.last() as int, before.epoch),
                ..before
            }
        } else {
            after == before
        }
    }
}

/// The fighting phase of a turn: the creatures `ids` fight one after another,
/// the `k`-th from `boards[k]` to `boards[k + 1]`, taking the draws `groups[k]`.
pub open spec fn fighting_phase(ids: Seq<usize>, boards: Seq<BoardView>, groups: Seq<Seq<Draw>>) -> bool {
    &&& boards.len() == ids.len() + 1
    &&& groups.len() == ids.len()
    &&& forall|k: int| 0 <= k < ids.len() ==> #[trigger] fought_as_drawn(boards[k], ids[k], groups[k], boards[k + 1])
}

/// One creature's breeding as a turn makes it. A creature that is not alive,
/// or is alone of its kind in its cell, takes no draws and changes nothing.
/// Any other asks its procreation chance; on a yes a child of its kind is born
/// in its cell with the next ID: an aphid with two lives, or a ladybug with
/// five that draws its band of directions.
pub open spec fn bred_as_drawn(before: BoardView, id: usize, drawn: Seq<Draw>, after: BoardView) -> bool {
    match procreation_chance(before, id as int) {
        None => drawn.len() == 0 && after == before,
        Some(chance) => {
            let parent = before.creature(id as int);
            let location = location_of(parent);
            let child = before.creatures.len() as usize;
            &&& drawn.len() >= 1
            &&& drawn[0] is Asked
            &&& drawn[0]->chance == chance
            &&& if !drawn[0]->answer {
                drawn.len() == 1 && after == before
            } else if kind_of(parent) == CreatureKind::Aphid {
                drawn.len() == 1 && aphid_added(before, after, location, 2, child)
            } else {
                &&& drawn.len() == 2
                &&& drawn[1] is Number
                &&& drawn[1]->min == 0
                &&& drawn[1]->max == 3
                &&& ladybug_added(before, after, location, 5, child)
                &&& after.creatures[child as int] matches Some(Creature::Ladybug(ladybug))
                &&& ladybug.preferred_directions == direction_band(drawn[1]->value as int)
            }
        },
    }
}

/// The breeding phase of a turn: the creatures `ids` breed one after another,
/// the `k`-th from `boards[k]` to `boards[k + 1]`, taking the draws `groups[k]`.
pub open spec fn breeding_phase(ids: Seq<usize>, boards: Seq<BoardView>, groups: Seq<Seq<Draw>>) -> bool {
    &&& boards.len() == ids.len() + 1
    &&& groups.len() == ids.len()
    &&& forall|k: int| 0 <= k < ids.len() ==> #[trigger] bred_as_drawn(boards[k], ids[k], groups[k], boards[k + 1])
}

/// One creature's meal as a turn serves it: a living creature eats one food
/// from its cell when there is any and keeps its life, and else goes hungry
/// and loses one life; one whose life falls below one leaves its cell and is
/// marked dead. Nothing else on the board changes.
pub open spec fn fed_as_served(before: BoardView, id: usize, after: BoardView) -> bool {
    if before.living(id as int) {
        let creature = before.creature(id as int);
        let i = before.index_of(location_of(creature));
        let food = before.field[i].food;
        let life = if food > 0 {
            life_of(creature)
        } else {
            (life_of(creature) - 1) as i32
        };
        &&& after.creatures == before.creatures.update(id as int, Some(with_life(creature, life)))
        &&& after.field.len() == before.field.len()
        &&& after.field[i].food == if food > 0 {
            food - 1
        } else {
            food as int
        }
        &&& forall|j: int| 0 <= j < before.field.len() && j != i ==> #[trigger] after.field[j].food
            == before.field[j].food
        &&& after == if life < 1 {
            BoardView {
                death_marks: before.death_marks.update(id as int, before.epoch),
                ..meal_board(before, id as int)
            }
        } else {
            meal_board(before, id as int)
        }
    } else {
        after == before
    }
}

/// The feeding phase of a turn: the creatures `ids` are served one after
/// another, the `k`-th from `boards[k]` to `boards[k + 1]`.
pub open spec fn feeding_phase(ids: Seq<usize>, boards: Seq<BoardView>) -> bool {
    &&& boards.len() == ids.len() + 1
    &&& forall|k: int| 0 <= k < ids.len() ==> #[trigger] fed_as_served(boards[k], ids[k], boards[k + 1])
}

/// One creature's move as a turn makes it: a creature that is not alive takes
/// no draws and leaves the board as it was; a living one moves as its draws
/// say, and the board changes only by that move.
pub open spec fn moved_as_drawn(before: BoardView, id: usize, drawn: Seq<Draw>, after: BoardView) -> bool {
    if before.living(id as int) {
        &&& after.living(id as int)
        &&& movement_drawn(before, before.creature(id as int), drawn, after.creature(id as int))
        &&& after == moved_board(before, id as int, step_direction(before.creature(id as int), drawn), after.creature(id as int))
    } else {
        drawn.len() == 0 && after == before
    }
}

/// The movement phase of a turn: the creatures `ids` move one after another,
/// the `k`-th from `boards[k]` to `boards[k + 1]`, taking the draws `groups[k]`.
pub open spec fn movement_phase(ids: Seq<usize>, boards: Seq<BoardView>, groups: Seq<Seq<Draw>>) -> bool {
    &&& boards.len() == ids.len() + 1
    &&& groups.len() == ids.len()
    &&& forall|k: int| 0 <= k < ids.len() ==> #[trigger] moved_as_drawn(boards[k], ids[k], groups[k], boards[k + 1])
}

/// The direction an aphid's movement draw from `0..=7` picks, as `aphid_step`
/// gives it.
fn aphid_direction(value: i32) -> (direction: Direction)
    ensures
        direction == aphid_step(value as int),
{
    match value {
        0 => Direction::NorthWest,
        1 => Direction::North,
        2 => Direction::NorthEast,
        3 => Direction::West,
        4 => Direction::East,
        5 => Direction::SouthWest,
        6 => Direction::South,
        _ => Direction::SouthEast,
    }
}

/// The board after creature `id` of `before` took its meal: it eats one food
/// from its cell when there is any and keeps its life, or else loses one life;
/// when its life falls below one it leaves its cell's list by swap-removal,
/// its table entry staying until the dead are removed.
pub open spec fn meal_board(before: BoardView, id: int) -> BoardView {
    let creature = before.creature(id);
    let i = before.index_of(location_of(creature));
    let food = before.field[i].food;
    let ate = food > 0;
    let life = if ate {
        life_of(creature)
    } else {
        (life_of(creature) - 1) as i32
    };
    let eaten = BoardView {
        field: if ate {
            before.field.update(i, CellView { food: (food - 1) as i32, ..before.field[i] })
        } else {
            before.field
        },
        summary: if ate {
            BoardSummary { food: (before.summary.food - 1) as i32, ..before.summary }
        } else {
            before.summary
        },
        ..before
    };
    let fed = BoardView { creatures: eaten.creatures.update(id, Some(with_life(creature, life))), ..eaten };
    if life < 1 {
        lifted_out(fed, id)
    } else {
        fed
    }
}

/// `board` with creature `id` taken out of the list of its kind in its cell by
/// swap-removal: the last of that list, if another, takes its slot.
pub open spec fn lifted_out(board: BoardView, id: int) -> BoardView {
    let creature = board.creature(id);
    let kind = kind_of(creature);
    let location = location_of(creature);
    let list = board.occupants_at(location, kind);
    let slot = board.cell_slots[id];
    let i = board.index_of(location);
    BoardView {
        field: board.field.update(i, board.field[i].with_occupants(kind, swap_removed(list, slot as int))),
        cell_slots: if slot + 1 < list.len() {
            board.cell_slots.update(list.last() as int, slot)
        } else {
            board.cell_slots
        },
        ..board
    }
}

/// `board` with creature `id`, now `creature`, listed last among its kind in
/// the cell where it stands.
pub open spec fn set_down(board: BoardView, id: int, creature: Creature) -> BoardView {
    let location = location_of(creature);
    let kind = kind_of(creature);
    let i = board.index_of(location);
    let list = board.occupants_at(location, kind);
    BoardView {
        field: board.field.update(i, board.field[i].with_occupants(kind, list.push(id as usize))),
        creatures: board.creatures.update(id, Some(creature)),
        cell_slots: board.cell_slots.update(id, list.len() as usize),
        ..board
    }
}

/// The direction a creature's movement draws `drawn` send it in; `Same` when
/// it does not move.
pub open spec fn step_direction(before: Creature, drawn: Seq<Draw>) -> Direction {
    match before {
        Creature::Aphid(_) => if drawn.len() == 2 {
            aphid_step(drawn[1]->value as int)
        } else {
            Direction::Same
        },
        Creature::Ladybug(ladybug) => {
            let turned = drawn.len() > 0 && drawn[0] == Draw::Asked {
                chance: Chance::LadybugDirection,
                answer: true,
            };
            let k: int = if turned {
                2
            } else {
                1
            };
            let band = if turned {
                direction_band(drawn[1]->value as int)
            } else {
                ladybug.preferred_directions
            };
            if drawn.len() == k + 2 {
                band@[drawn[k + 1]->value as int]
            } else {
                Direction::Same
            }
        },
    }
}

/// The board after creature `id` of `before` moved and became `after_creature`
/// in the move `direction`: a creature that stays keeps its place in its
/// cell's list; one that steps leaves its list by swap-removal and is listed
/// last in the cell it lands in, even when the step lands it where it was.
pub open spec fn moved_board(before: BoardView, id: int, direction: Direction, after_creature: Creature) -> BoardView {
    if direction != Direction::Same {
        set_down(lifted_out(before, id), id, after_creature)
    } else {
        BoardView { creatures: before.creatures.update(id, Some(after_creature)), ..before }
    }
}

/// The direction an aphid's movement draw from `0..=7` picks.
pub open spec fn aphid_step(value: int) -> Direction {
    if value == 0 {
        Direction::NorthWest
    } else if value == 1 {
        Direction::North
    } else if value == 2 {
        Direction::NorthEast
    } else if value == 3 {
        Direction::West
    } else if value == 4 {
        Direction::East
    } else if value == 5 {
        Direction::SouthWest
    } else if value == 6 {
        Direction::South
    } else {
        Direction::SouthEast
    }
}

/// How a creature's movement goes for the draws `drawn` it took, in order,
/// leaving it as `after`. An aphid asks whether it moves and, if so, draws one
/// of the eight directions. A ladybug asks whether it turns, and if so draws a
/// new band of three directions; then it asks whether it moves, and if so draws
/// one direction of its band. A step lands as `board` reflects it at the edges.
pub open spec fn movement_drawn(board: BoardView, before: Creature, drawn: Seq<Draw>, after: Creature) -> bool {
    match before {
        Creature::Aphid(aphid) => {
            ||| drawn == seq![Draw::Asked { chance: Chance::AphidMove, answer: false }] && after == before
            ||| {
                &&& drawn.len() == 2
                &&& drawn[0] == Draw::Asked { chance: Chance::AphidMove, answer: true }
                &&& drawn[1] is Number
                &&& drawn[1]->min == 0
                &&& drawn[1]->max == 7
                &&& after == moved_to(before, board.destination(aphid_step(drawn[1]->value as int), aphid.location))
            }
        },
        Creature::Ladybug(ladybug) => {
            let turned = drawn.len() > 0 && drawn[0] == Draw::Asked {
                chance: Chance::LadybugDirection,
                answer: true,
            };
            let k: int = if turned {
                2
            } else {
                1
            };
            let band = if turned {
                direction_band(drawn[1]->value as int)
            } else {
                ladybug.preferred_directions
            };
            let kept = Creature::Ladybug(Ladybug { preferred_directions: band, ..ladybug });
            &&& drawn.len() > k
            &&& drawn[0] == Draw::Asked { chance: Chance::LadybugDirection, answer: turned }
            &&& turned ==> drawn[1] is Number && drawn[1]->min == 0 && drawn[1]->max == 3
            &&& drawn[k] is Asked
            &&& drawn[k]->chance == Chance::LadybugMove
            &&& if drawn[k]->answer {
                &&& drawn.len() == k + 2
                &&& drawn[k + 1] is Number
                &&& drawn[k + 1]->min == 0
                &&& drawn[k + 1]->max == 2
                &&& after == moved_to(
                    kept,
                    board.destination(band@[drawn[k + 1]->value as int], ladybug.location),
                )
            } else {
                drawn.len() == k + 1 && after == kept
            }
        },
    }
}

/// The chance a creature's procreation takes: none when `id` is not alive or
/// is alone of its kind in its cell; else its kind's procreation.
pub open spec fn procreation_chance(board: BoardView, id: int) -> Option<Chance> {
    if !board.living(id) {
        None
    } else {
        let creature = board.creature(id);
        if board.occupants_at(location_of(creature), kind_of(creature)).len() <= 1 {
            None
        } else {
            match kind_of(creature) {
                CreatureKind::Aphid => Some(Chance::AphidProcreate),
                CreatureKind::Ladybug => Some(Chance::LadybugProcreate),
            }
        }
    }
}

/// The chance a creature's combat takes: none when `id` is not alive or has no
/// prey in its cell; else an aphid's kill, helped by the other aphids there, or
/// a ladybug's kill.
pub open spec fn combat_chance(board: BoardView, id: int) -> Option<Chance> {
    if !board.living(id) {
        None
    } else {
        let creature = board.creature(id);
        let location = location_of(creature);
        if board.occupants_at(location, prey_of(kind_of(creature))).len() == 0 {
            None
        } else {
            match kind_of(creature) {
                CreatureKind::Aphid => {
                    let aphids = board.occupants_at(location, CreatureKind::Aphid).len();
                    Some(Chance::AphidKill { accomplices: if aphids > 0 { (aphids - 1) as usize } else { 0 } })
                },
                CreatureKind::Ladybug => Some(Chance::LadybugKill),
            }
        }
    }
}

impl Board {
    /// The chance `id`'s combat takes on this board, as `combat_chance` gives it.
    fn chance_of_combat(&self, id: usize, Ghost(dead): Ghost<Set<usize>>) -> (chance: Option<Chance>)
        requires
            self@.inv(dead),
        ensures
            chance == combat_chance(self@, id as int),
    {
        let ghost v = self@;
        if id >= self.creatures.len() {
            return None;
        }
        let creature = match self.creatures[id] {
            Some(creature) => creature,
            None => {
                return None;
            },
        };
        let location = creature.location();
        proof {
            assert(v.creatures_sound());
            assert(v.creatures[id as int] is Some);
        }
        let index = self.index(location);
        match creature.kind() {
            CreatureKind::Aphid => {
                if self.field[index].ladybugs.is_empty() {
                    None
                } else {
                    Some(Chance::AphidKill { accomplices: self.field[index].aphids.len().saturating_sub(1) })
                }
            },
            CreatureKind::Ladybug => {
                if self.field[index].aphids.is_empty() {
                    None
                } else {
                    Some(Chance::LadybugKill)
                }
            },
        }
    }

    /// Runs one creature's combat action and returns the killed creature ID, if
    /// any. The killed creature leaves its cell at once and its table entry at
    /// the end of the combat phase.
    /// Settles one creature's combat once the odds have answered `lands`: the
    /// last prey in its cell falls when there is one and the attack lands.
    fn strike(&mut self, id: usize, lands: bool, Ghost(dead): Ghost<Set<usize>>) -> (killed: Option<usize>)
        requires
            old(self)@.inv(dead),
        ensures
            killed is Some <==> combat_chance(old(self)@, id as int) is Some && lands,
            killed is None ==> final(self)@ == old(self)@,
            killed matches Some(k) ==> {
                let creature = old(self)@.creature(id as int);
                let location = location_of(creature);
                let prey = prey_of(kind_of(creature));
                let list = old(self)@.occupants_at(location, prey);
                &&& old(self)@.living(id as int)
                &&& list.len() > 0
                &&& k == list.last()
                &&& final(self)@ == (BoardView {
                    field: old(self)@.field.update(
                        old(self)@.index_of(location),
                        old(self)@.field[old(self)@.index_of(location)].with_occupants(prey, list.drop_last()),
                    ),
                    ..old(self)@
                })
                &&& final(self)@.inv(dead.insert(k))
                &&& !dead.contains(k)
                &&& old(self)@.living(k as int)
                &&& kind_of(old(self)@.creature(k as int)) == prey
            },
            old(self)@.living(id as int) && old(self)@.occupants_at(
                location_of(old(self)@.creature(id as int)),
                prey_of(kind_of(old(self)@.creature(id as int))),
            ).len() == 0 ==> killed is None,
    {
        let ghost v0 = self@;
        if id >= self.creatures.len() {
            return None;
        }
        let creature = match self.creatures[id] {
            Some(creature) => creature,
            None => {
                return None;
            },
        };
        let location = creature.location();
        proof {
            assert(v0.creatures_sound());
            assert(v0.creatures[id as int] is Some);
        }
        let index = self.index(location);
        let killed = match creature.kind() {
            CreatureKind::Aphid => {
                if self.field[index].ladybugs.is_empty() {
                    return None;
                }
                if lands {
                    self.field[index].ladybugs.pop()
                } else {
                    None
                }
            },
            CreatureKind::Ladybug => {
                if self.field[index].aphids.is_empty() {
                    return None;
                }
                if lands {
                    self.field[index].aphids.pop()
                } else {
                    None
                }
            },
        };
        proof {
            if killed is Some {
                let prey = prey_of(kind_of(creature));
                let list = v0.occupants(index as int, prey);
                let new_cell = v0.field[index as int].with_occupants(prey, list.drop_last());
                assert(self@.field =~= v0.field.update(index as int, new_cell));
                assert(self@ =~= BoardView { field: v0.field.update(index as int, new_cell), ..v0 });
                lemma_inv_pop(v0, self@, dead, index as int, prey);
            } else {
                assert(self@.field =~= v0.field);
            }
        }
        killed
    }

    fn combat<O: Odds>(&mut self, id: usize, random: &mut Random, odds: &O, Ghost(dead): Ghost<
        Set<usize>,
    >) -> (killed: Option<usize>)
        requires
            old(self)@.inv(dead),
        ensures
            extends(*old(random), *final(random)),
            combat_chance(old(self)@, id as int) is None ==> *final(random) == *old(random),
            combat_chance(old(self)@, id as int) matches Some(chance) ==> final(random).draws()
                == old(random).draws().push(Draw::Asked { chance, answer: killed is Some }),
            killed is None ==> final(self)@ == old(self)@,
            killed matches Some(k) ==> {
                let creature = old(self)@.creature(id as int);
                let location = location_of(creature);
                let prey = prey_of(kind_of(creature));
                let list = old(self)@.occupants_at(location, prey);
                &&& old(self)@.living(id as int)
                &&& list.len() > 0
                &&& k == list.last()
                &&& final(self)@ == (BoardView {
                    field: old(self)@.field.update(
                        old(self)@.index_of(location),
                        old(self)@.field[old(self)@.index_of(location)].with_occupants(prey, list.drop_last()),
                    ),
                    ..old(self)@
                })
                &&& final(self)@.inv(dead.insert(k))
                &&& !dead.contains(k)
                &&& old(self)@.living(k as int)
                &&& kind_of(old(self)@.creature(k as int)) == prey
            },
            old(self)@.living(id as int) && old(self)@.occupants_at(
                location_of(old(self)@.creature(id as int)),
                prey_of(kind_of(old(self)@.creature(id as int))),
            ).len() == 0 ==> killed is None,
    {
        let ghost r0 = *random;
        proof {
            lemma_extends_itself(r0);
        }
        match self.chance_of_combat(id, Ghost(dead)) {
            None => None,
            Some(chance) => {
                let lands = random.ask(odds, chance);
                proof {
                    lemma_extends_push(r0, *random, Draw::Asked { chance, answer: lands });
                }
                self.strike(id, lands, Ghost(dead))
            },
        }
    }

    /// Runs one creature's combat action and returns the killed creature ID, if
    /// any. The killed creature leaves its cell; its table entry goes when the
    /// turn removes the dead.
    pub fn creature_combat<O: Odds>(&mut self, id: usize, random: &mut Random, odds: &O) -> (killed:
        Option<usize>)
        requires
            old(self)@.wf(),
        ensures
            extends(*old(random), *final(random)),
            combat_chance(old(self)@, id as int) is None ==> *final(random) == *old(random),
            combat_chance(old(self)@, id as int) matches Some(chance) ==> final(random).draws()
                == old(random).draws().push(Draw::Asked { chance, answer: killed is Some }),
            killed is None ==> final(self)@ == old(self)@,
            killed matches Some(k) ==> {
                let creature = old(self)@.creature(id as int);
                let location = location_of(creature);
                let prey = prey_of(kind_of(creature));
                let list = old(self)@.occupants_at(location, prey);
                &&& old(self)@.living(id as int)
                &&& list.len() > 0
                &&& k == list.last()
                &&& final(self)@ == (BoardView {
                    field: old(self)@.field.update(
                        old(self)@.index_of(location),
                        old(self)@.field[old(self)@.index_of(location)].with_occupants(prey, list.drop_last()),
                    ),
                    ..old(self)@
                })
                &&& final(self)@.inv(Set::empty().insert(k))
                &&& old(self)@.living(k as int)
                &&& kind_of(old(self)@.creature(k as int)) == prey
            },
            old(self)@.living(id as int) && old(self)@.occupants_at(
                location_of(old(self)@.creature(id as int)),
                prey_of(kind_of(old(self)@.creature(id as int))),
            ).len() == 0 ==> killed is None,
    {
        self.combat(id, random, odds, Ghost(Set::empty()))
    }

    /// Settles one creature's combat once the odds have answered `lands`, as a
    /// turn does: the last prey in its cell falls when there is one and the
    /// attack lands. Its table entry goes when the turn removes the dead.
    pub fn settle_combat(&mut self, id: usize, lands: bool) -> (killed: Option<usize>)
        requires
            old(self)@.wf(),
        ensures
            killed is Some <==> combat_chance(old(self)@, id as int) is Some && lands,
            killed is None ==> final(self)@ == old(self)@,
            killed matches Some(k) ==> {
                let creature = old(self)@.creature(id as int);
                let location = location_of(creature);
                let prey = prey_of(kind_of(creature));
                let list = old(self)@.occupants_at(location, prey);
                &&& old(self)@.living(id as int)
                &&& list.len() > 0
                &&& k == list.last()
                &&& final(self)@ == (BoardView {
                    field: old(self)@.field.update(
                        old(self)@.index_of(location),
                        old(self)@.field[old(self)@.index_of(location)].with_occupants(prey, list.drop_last()),
                    ),
                    ..old(self)@
                })
                &&& final(self)@.inv(Set::empty().insert(k))
                &&& old(self)@.living(k as int)
                &&& kind_of(old(self)@.creature(k as int)) == prey
            },
            old(self)@.living(id as int) && old(self)@.occupants_at(
                location_of(old(self)@.creature(id as int)),
                prey_of(kind_of(old(self)@.creature(id as int))),
            ).len() == 0 ==> killed is None,
    {
        self.strike(id, lands, Ghost(Set::empty()))
    }
}


impl Board {
    /// The chance `id`'s procreation takes on this board, as
    /// `procreation_chance` gives it.
    fn chance_of_procreation(&self, id: usize) -> (chance: Option<Chance>)
        requires
            self@.inv(Set::empty()),
        ensures
            chance == procreation_chance(self@, id as int),
    {
        let ghost v = self@;
        if id >= self.creatures.len() {
            return None;
        }
        let creature = match self.creatures[id] {
            Some(creature) => creature,
            None => {
                return None;
            },
        };
        let location = creature.location();
        proof {
            assert(v.creatures_sound());
            assert(v.creatures[id as int] is Some);
        }
        let index = self.index(location);
        match creature.kind() {
            CreatureKind::Aphid => {
                if self.field[index].aphids.len() > 1 {
                    Some(Chance::AphidProcreate)
                } else {
                    None
                }
            },
            CreatureKind::Ladybug => {
                if self.field[index].ladybugs.len() > 1 {
                    Some(Chance::LadybugProcreate)
                } else {
                    None
                }
            },
        }
    }

    /// Runs one creature's procreation action and returns the number of births.
    pub fn creature_procreation<O: Odds>(&mut self, id: usize, random: &mut Random, odds: &O) -> (births:
        usize)
        requires
            old(self)@.inv(Set::empty()),
        ensures
            births == 1 && kind_of(old(self)@.creature(id as int)) == CreatureKind::Aphid ==> aphid_added(
                old(self)@,
                final(self)@,
                location_of(old(self)@.creature(id as int)),
                2,
                old(self)@.creatures.len() as usize,
            ),
            births == 1 && kind_of(old(self)@.creature(id as int)) == CreatureKind::Ladybug ==> ladybug_added(
                old(self)@,
                final(self)@,
                location_of(old(self)@.creature(id as int)),
                5,
                old(self)@.creatures.len() as usize,
            ),
            extends(*old(random), *final(random)),
            procreation_chance(old(self)@, id as int) is None ==> *final(random) == *old(random),
            procreation_chance(old(self)@, id as int) is Some && !(births == 1 && kind_of(
                old(self)@.creature(id as int),
            ) == CreatureKind::Ladybug) ==> final(random).draws() == old(random).draws().push(
                Draw::Asked { chance: procreation_chance(old(self)@, id as int)->Some_0, answer: births == 1 },
            ),
            births == 1 && kind_of(old(self)@.creature(id as int)) == CreatureKind::Ladybug ==> {
                &&& final(random).draws() == old(random).draws().push(
                    Draw::Asked { chance: Chance::LadybugProcreate, answer: true },
                ).push(Draw::Number { min: 0, max: 3, value: last_number(*final(random)) })
                &&& final(self)@.creatures[old(self)@.creatures.len() as int] matches Some(Creature::Ladybug(child))
                &&& child.preferred_directions == direction_band(last_number(*final(random)) as int)
            },
            final(self)@.inv(Set::empty()),
            old(self)@.active_living() ==> final(self)@.active_living(),
            births <= 1,
            births == 0 ==> final(self)@ == old(self)@,
            births == 1 ==> {
                let parent = old(self)@.creature(id as int);
                let child = final(self)@.creature(old(self)@.creatures.len() as int);
                &&& old(self)@.living(id as int)
                &&& old(self)@.occupants_at(location_of(parent), kind_of(parent)).len() > 1
                &&& final(self)@.creatures.len() == old(self)@.creatures.len() + 1
                &&& final(self)@.creatures.drop_last() == old(self)@.creatures
                &&& final(self)@.living(old(self)@.creatures.len() as int)
                &&& kind_of(child) == kind_of(parent)
                &&& location_of(child) == location_of(parent)
                &&& life_of(child) == if kind_of(parent) == CreatureKind::Aphid {
                    2i32
                } else {
                    5i32
                }
                &&& final(self)@.population() == old(self)@.population() + 1
            },
            !old(self)@.living(id as int) ==> births == 0,
            old(self)@.living(id as int) && old(self)@.occupants_at(
                location_of(old(self)@.creature(id as int)),
                kind_of(old(self)@.creature(id as int)),
            ).len() <= 1 ==> births == 0,
            final(self)@.rows == old(self)@.rows,
            final(self)@.cols == old(self)@.cols,
            final(self)@.epoch == old(self)@.epoch,
            final(self)@.summary.food == old(self)@.summary.food,
            forall|i: int| 0 <= i < old(self)@.field.len() ==> #[trigger] final(self)@.field[i].food
                == old(self)@.field[i].food,
            final(self)@.field.len() == old(self)@.field.len(),
            evolves(old(self)@.creatures, final(self)@.creatures),
            forall|m: int| 0 <= m < old(self)@.death_marks.len() ==> #[trigger] final(self)@.death_marks[m]
                == old(self)@.death_marks[m],
            final(self)@.death_marks.len() == final(self)@.creatures.len(),
            final(self)@.active.len() == old(self)@.active.len() + births,
            forall|a: int| 0 <= a < old(self)@.active.len() ==> #[trigger] final(self)@.active[a]
                == old(self)@.active[a],
            births == 1 ==> final(self)@.death_marks == old(self)@.death_marks.push(0),
    {
        let ghost r0 = *random;
        proof {
            lemma_extends_itself(r0);
        }
        match self.chance_of_procreation(id) {
            None => 0,
            Some(chance) => {
                let yes = random.ask(odds, chance);
                let ghost r1 = *random;
                proof {
                    lemma_extends_push(r0, r1, Draw::Asked { chance, answer: yes });
                }
                let births = self.settle_procreation(id, yes, random);
                proof {
                    if *random == r1 {
                        lemma_extends_itself(r1);
                    } else {
                        lemma_extends_push(r1, *random, Draw::Number { min: 0, max: 3, value: last_number(*random) });
                    }
                    lemma_extends_trans(r0, r1, *random);
                }
                births
            },
        }
    }

    /// Settles one creature's procreation once the odds have answered `yes`, as
    /// a turn does, and returns the number of births: a living creature that
    /// shares its cell with another of its kind has a child there when the
    /// answer is yes.
    pub fn settle_procreation(&mut self, id: usize, yes: bool, random: &mut Random) -> (births: usize)
        requires
            old(self)@.inv(Set::empty()),
        ensures
            births == 1 && kind_of(old(self)@.creature(id as int)) == CreatureKind::Aphid ==> aphid_added(
                old(self)@,
                final(self)@,
                location_of(old(self)@.creature(id as int)),
                2,
                old(self)@.creatures.len() as usize,
            ),
            births == 1 && kind_of(old(self)@.creature(id as int)) == CreatureKind::Ladybug ==> ladybug_added(
                old(self)@,
                final(self)@,
                location_of(old(self)@.creature(id as int)),
                5,
                old(self)@.creatures.len() as usize,
            ),
            births == 1 <==> procreation_chance(old(self)@, id as int) is Some && yes,
            !(births == 1 && kind_of(old(self)@.creature(id as int)) == CreatureKind::Ladybug) ==> *final(random)
                == *old(random),
            births == 1 && kind_of(old(self)@.creature(id as int)) == CreatureKind::Ladybug ==> {
                &&& final(random).draws() == old(random).draws().push(
                    Draw::Number { min: 0, max: 3, value: last_number(*final(random)) },
                )
                &&& final(self)@.creatures[old(self)@.creatures.len() as int] matches Some(Creature::Ladybug(child))
                &&& child.preferred_directions == direction_band(last_number(*final(random)) as int)
            },
            final(self)@.inv(Set::empty()),
            old(self)@.active_living() ==> final(self)@.active_living(),
            births <= 1,
            births == 0 ==> final(self)@ == old(self)@,
            births == 1 ==> {
                let parent = old(self)@.creature(id as int);
                let child = final(self)@.creature(old(self)@.creatures.len() as int);
                &&& old(self)@.living(id as int)
                &&& old(self)@.occupants_at(location_of(parent), kind_of(parent)).len() > 1
                &&& final(self)@.creatures.len() == old(self)@.creatures.len() + 1
                &&& final(self)@.creatures.drop_last() == old(self)@.creatures
                &&& final(self)@.living(old(self)@.creatures.len() as int)
                &&& kind_of(child) == kind_of(parent)
                &&& location_of(child) == location_of(parent)
                &&& life_of(child) == if kind_of(parent) == CreatureKind::Aphid {
                    2i32
                } else {
                    5i32
                }
                &&& final(self)@.population() == old(self)@.population() + 1
            },
            !old(self)@.living(id as int) ==> births == 0,
            old(self)@.living(id as int) && old(self)@.occupants_at(
                location_of(old(self)@.creature(id as int)),
                kind_of(old(self)@.creature(id as int)),
            ).len() <= 1 ==> births == 0,
            final(self)@.rows == old(self)@.rows,
            final(self)@.cols == old(self)@.cols,
            final(self)@.epoch == old(self)@.epoch,
            final(self)@.summary.food == old(self)@.summary.food,
            forall|i: int| 0 <= i < old(self)@.field.len() ==> #[trigger] final(self)@.field[i].food
                == old(self)@.field[i].food,
            final(self)@.field.len() == old(self)@.field.len(),
            evolves(old(self)@.creatures, final(self)@.creatures),
            forall|m: int| 0 <= m < old(self)@.death_marks.len() ==> #[trigger] final(self)@.death_marks[m]
                == old(self)@.death_marks[m],
            final(self)@.death_marks.len() == final(self)@.creatures.len(),
            final(self)@.active.len() == old(self)@.active.len() + births,
            forall|a: int| 0 <= a < old(self)@.active.len() ==> #[trigger] final(self)@.active[a]
                == old(self)@.active[a],
            births == 1 ==> final(self)@.death_marks == old(self)@.death_marks.push(0),
    {
        let ghost v0 = self@;
        if id >= self.creatures.len() {
            return 0;
        }
        let creature = match self.creatures[id] {
            Some(creature) => creature,
            None => {
                return 0;
            },
        };
        let location = creature.location();
        proof {
            assert(v0.creatures_sound());
            assert(v0.creatures[id as int] is Some);
        }
        let index = self.index(location);
        let births = match creature.kind() {
            CreatureKind::Aphid => {
                if self.field[index].aphids.len() > 1 && yes {
                    match self.add_aphid(location.x, location.y, 2) {
                        Some(_) => 1,
                        None => 0,
                    }
                } else {
                    0
                }
            },
            CreatureKind::Ladybug => {
                if self.field[index].ladybugs.len() > 1 && yes {
                    match self.add_ladybug(location.x, location.y, 5, random) {
                        Some(_) => 1,
                        None => 0,
                    }
                } else {
                    0
                }
            },
        };
        proof {
            let v = self@;
            if births == 1 {
                let i = index as int;
                lemma_index_in_field(v0.rows as int, v0.cols as int, location.x as int, location.y as int);
                lemma_count_push(v0.creatures, v.creatures.last(), CreatureKind::Aphid);
                lemma_count_push(v0.creatures, v.creatures.last(), CreatureKind::Ladybug);
                assert(v.creatures =~= v0.creatures.push(v.creatures.last()));
                assert forall|j: int| 0 <= j < v0.field.len() implies #[trigger] v.field[j].food
                    == v0.field[j].food by {
                    if j != i {
                        assert(v.field[j] == v0.field[j]);
                    }
                }
                assert forall|m: int| 0 <= m < v0.death_marks.len() implies #[trigger] v.death_marks[m]
                    == v0.death_marks[m] by {
                    assert(v.death_marks == v0.death_marks.push(0));
                }
                assert forall|a: int| 0 <= a < v0.active.len() implies #[trigger] v.active[a]
                    == v0.active[a] by {
                    assert(v.active == v0.active.push(v0.creatures.len() as usize));
                }
            }
        }
        births
    }

    /// Runs one creature's starvation action and returns its ID if it dies.
    fn starvation(&mut self, id: usize, Ghost(dead): Ghost<Set<usize>>) -> (starved: Option<usize>)
        requires
            old(self)@.inv(dead),
            !dead.contains(id),
        ensures
            old(self)@.living(id as int) ==> final(self)@ == meal_board(old(self)@, id as int),
            !old(self)@.living(id as int) ==> starved is None && final(self)@ == old(self)@,
            old(self)@.living(id as int) ==> {
                let creature = old(self)@.creature(id as int);
                let location = location_of(creature);
                let i = old(self)@.index_of(location);
                let food = old(self)@.field[i].food;
                let ate = food > 0;
                let life = if ate {
                    life_of(creature)
                } else {
                    (life_of(creature) - 1) as i32
                };
                &&& final(self)@.creatures == old(self)@.creatures.update(
                    id as int,
                    Some(with_life(creature, life)),
                )
                &&& final(self)@.field[i].food == if ate {
                    food - 1
                } else {
                    food as int
                }
                &&& forall|j: int|
                    0 <= j < old(self)@.field.len() && j != i ==> #[trigger] final(self)@.field[j]
                        == old(self)@.field[j]
                &&& final(self)@.field[i].occupants(prey_of(kind_of(creature))) == old(self)@.field[i].occupants(
                    prey_of(kind_of(creature)),
                )
                &&& final(self)@.summary.food == old(self)@.summary.food - if ate {
                    1int
                } else {
                    0int
                }
                &&& starved == if life < 1 {
                    Some(id)
                } else {
                    None
                }
                &&& life < 1 ==> final(self)@.inv(dead.insert(id))
                &&& life < 1 ==> final(self)@.field[i].occupants(kind_of(creature)) == swap_removed(
                    old(self)@.field[i].occupants(kind_of(creature)),
                    old(self)@.cell_slots[id as int] as int,
                )
                &&& life >= 1 ==> final(self)@.inv(dead) && final(self)@.field[i].occupants(
                    kind_of(creature),
                ) == old(self)@.field[i].occupants(kind_of(creature))
            },
            final(self)@.field.len() == old(self)@.field.len(),
            final(self)@.creatures.len() == old(self)@.creatures.len(),
            final(self)@.active == old(self)@.active,
            final(self)@.death_marks == old(self)@.death_marks,
            final(self)@.epoch == old(self)@.epoch,
            final(self)@.rows == old(self)@.rows,
            final(self)@.cols == old(self)@.cols,
            final(self)@.summary.aphids == old(self)@.summary.aphids,
            final(self)@.summary.ladybugs == old(self)@.summary.ladybugs,
            evolves(old(self)@.creatures, final(self)@.creatures),
            forall|c: int| 0 <= c < old(self)@.creatures.len() && c != id ==> #[trigger] final(self)@.creatures[c]
                == old(self)@.creatures[c],
    {
        let ghost v0 = self@;
        if id >= self.creatures.len() {
            return None;
        }
        let creature = match self.creatures[id] {
            Some(creature) => creature,
            None => {
                return None;
            },
        };
        let kind = creature.kind();
        let location = creature.location();
        let cell_slot = self.cell_slots[id];
        proof {
            assert(v0.creatures_sound());
            assert(v0.creatures[id as int] is Some);
            assert(v0.placed(id as int));
        }
        let index = self.index(location);

        let ate = if self.field[index].food > 0 {
            proof {
                let i = index as int;
                assert(v0.field[i] == self.field@[i]@);
                let new_cell = CellView { food: (v0.field[i].food - 1) as i32, ..v0.field[i] };
                lemma_food_update(v0.field, i, new_cell);
                let updated = v0.field.update(i, new_cell);
                assert forall|j: int| 0 <= j < updated.len() implies 0 <= #[trigger] updated[j].food by {
                    assert(v0.food_in_range());
                }
                lemma_food_bounds(updated);
            }
            self.field[index].food = self.field[index].food - 1;
            self.summary.food = self.summary.food - 1;
            true
        } else {
            false
        };
        proof {
            let v = self@;
            let i = index as int;
            if ate {
                let new_cell = CellView { food: (v0.field[i].food - 1) as i32, ..v0.field[i] };
                assert(v.field =~= v0.field.update(i, new_cell));
                lemma_food_update(v0.field, i, new_cell);
                assert forall|j: int| 0 <= j < v.field.len() implies 0 <= #[trigger] v.field[j].food by {
                    assert(v0.food_in_range());
                    if j != i {
                        assert(v.field[j] == v0.field[j]);
                    }
                }
                assert forall|j: int, k: CreatureKind, s: int|
                    0 <= j < v.field.len() && 0 <= s < v.occupants(j, k).len() implies {
                        let e = #[trigger] v.occupants(j, k)[s];
                        v.sits_at(e, j, s, k) && !dead.contains(e)
                    } by {
                    if j != i {
                        assert(v.field[j] == v0.field[j]);
                    }
                    assert(v.occupants(j, k) == v0.occupants(j, k));
                    assert(v0.occupants(j, k)[s] == v.occupants(j, k)[s]);
                }
                assert forall|c: int|
                    0 <= c < v.creatures.len() && (#[trigger] v.creatures[c]) is Some && !dead.contains(
                        c as usize,
                    ) implies v.placed(c) && life_of(v.creature(c)) > i32::MIN by {
                    assert(v0.placed(c));
                    let cr = v0.creature(c);
                    lemma_index_in_field(
                        v0.rows as int,
                        v0.cols as int,
                        location_of(cr).x as int,
                        location_of(cr).y as int,
                    );
                    let j = v0.index_of(location_of(cr));
                    if j != i {
                        assert(v.field[j] == v0.field[j]);
                    }
                    assert(v.occupants(j, kind_of(cr)) == v0.occupants(j, kind_of(cr)));
                }
            } else {
                assert(v.field =~= v0.field);
            }
        }
        let ghost v1 = self@;
        proof {
            let i = index as int;
            let food = v0.field[i].food;
            assert(v1 =~= BoardView {
                field: if ate {
                    v0.field.update(i, CellView { food: (food - 1) as i32, ..v0.field[i] })
                } else {
                    v0.field
                },
                summary: if ate {
                    BoardSummary { food: (v0.summary.food - 1) as i32, ..v0.summary }
                } else {
                    v0.summary
                },
                ..v0
            });
        }

        let mut creature = creature;
        let starved = match &mut creature {
            Creature::Aphid(aphid) => {
                if !ate {
                    aphid.life = aphid.life - 1;
                }
                aphid.life < 1
            },
            Creature::Ladybug(ladybug) => {
                if !ate {
                    ladybug.life = ladybug.life - 1;
                }
                ladybug.life < 1
            },
        };

        if starved {
            self.remove_from_location(kind, location, id, cell_slot, Ghost(dead));
            self.replace_creature(id, creature, Ghost(dead.insert(id)));
            proof {
                let v = self@;
                let i = index as int;
                lemma_index_in_field(v0.rows as int, v0.cols as int, location.x as int, location.y as int);
                assert forall|j: int|
                    0 <= j < v0.field.len() && j != i implies #[trigger] v.field[j] == v0.field[j] by {
                    assert(v.field[j] == v1.field[j]);
                }
                assert(v.field[i].occupants(prey_of(kind)) == v1.field[i].occupants(prey_of(kind)));
                assert forall|c: int|
                    0 <= c < v0.creatures.len() && (#[trigger] v.creatures[c]) is Some implies v0.creatures[c] is Some
                    && kind_of(v.creatures[c]->Some_0) == kind_of(v0.creatures[c]->Some_0) by {
                    if c != id {
                        assert(v.creatures[c] == v0.creatures[c]);
                    }
                }
                assert(v =~= meal_board(v0, id as int));
            }
            Some(id)
        } else {
            self.replace_creature(id, creature, Ghost(dead));
            proof {
                let v = self@;
                assert forall|c: int|
                    0 <= c < v0.creatures.len() && (#[trigger] v.creatures[c]) is Some implies v0.creatures[c] is Some
                    && kind_of(v.creatures[c]->Some_0) == kind_of(v0.creatures[c]->Some_0) by {
                    if c != id {
                        assert(v.creatures[c] == v0.creatures[c]);
                    }
                }
                assert(v =~= meal_board(v0, id as int));
            }
            None
        }
    }

    /// Runs one creature's starvation action and returns its ID if it dies. A
    /// starved creature leaves its cell at once; its table entry goes when the
    /// turn removes the dead.
    pub fn creature_starvation(&mut self, id: usize) -> (starved: Option<usize>)
        requires
            old(self)@.wf(),
        ensures
            !old(self)@.living(id as int) ==> starved is None && final(self)@ == old(self)@,
            old(self)@.living(id as int) ==> {
                let creature = old(self)@.creature(id as int);
                let location = location_of(creature);
                let i = old(self)@.index_of(location);
                let food = old(self)@.field[i].food;
                let ate = food > 0;
                let life = if ate {
                    life_of(creature)
                } else {
                    (life_of(creature) - 1) as i32
                };
                &&& final(self)@.creatures == old(self)@.creatures.update(
                    id as int,
                    Some(with_life(creature, life)),
                )
                &&& final(self)@.field[i].food == if ate {
                    food - 1
                } else {
                    food as int
                }
                &&& forall|j: int|
                    0 <= j < old(self)@.field.len() && j != i ==> #[trigger] final(self)@.field[j]
                        == old(self)@.field[j]
                &&& final(self)@.summary.food == old(self)@.summary.food - if ate {
                    1int
                } else {
                    0int
                }
                &&& starved == if life < 1 {
                    Some(id)
                } else {
                    None
                }
                &&& life < 1 ==> final(self)@.inv(Set::empty().insert(id))
                    && !final(self)@.field[i].occupants(kind_of(creature)).contains(id)
                &&& life < 1 ==> final(self)@.field[i].occupants(kind_of(creature)) == swap_removed(
                    old(self)@.field[i].occupants(kind_of(creature)),
                    old(self)@.cell_slots[id as int] as int,
                )
                &&& final(self)@.field[i].occupants(prey_of(kind_of(creature))) == old(self)@.field[i].occupants(
                    prey_of(kind_of(creature)),
                )
                &&& life >= 1 ==> final(self)@.wf() && final(self)@.field[i].occupants(kind_of(creature))
                    == old(self)@.field[i].occupants(kind_of(creature))
            },
            final(self)@.field.len() == old(self)@.field.len(),
            final(self)@.active == old(self)@.active,
            final(self)@.rows == old(self)@.rows,
            final(self)@.cols == old(self)@.cols,
            final(self)@.summary.aphids == old(self)@.summary.aphids,
            final(self)@.summary.ladybugs == old(self)@.summary.ladybugs,
    {
        let ghost v0 = self@;
        let starved = self.starvation(id, Ghost(Set::empty()));
        proof {
            let v = self@;
            if v0.living(id as int) {
                let cr = v0.creature(id as int);
                let life = life_of(v.creature(id as int));
                let i = v0.index_of(location_of(cr));
                lemma_index_in_field(v0.rows as int, v0.cols as int, location_of(cr).x as int, location_of(cr).y as int);
                if life >= 1 {
                    assert forall|a: int| 0 <= a < v.active.len() implies #[trigger] v.creatures[v.active[a] as int]
                        is Some by {
                        assert(v0.creatures[v0.active[a] as int] is Some);
                    }
                } else {
                    let d = Set::<usize>::empty().insert(id);
                    if v.field[i].occupants(kind_of(cr)).contains(id) {
                        let s = choose|s: int| 0 <= s < v.field[i].occupants(kind_of(cr)).len() && v.field[i].occupants(kind_of(cr))[s] == id;
                        assert(v.occupants(i, kind_of(cr))[s] == id);
                        assert(!d.contains(id));
                    }
                }
            }
        }
        starved
    }

    /// Randomly restores one food to cells that are below the food cap, and
    /// returns how many did.
    pub fn regenerate_food<O: Odds>(&mut self, random: &mut Random, odds: &O) -> (regenerated: usize)
        requires
            old(self)@.inv(Set::empty()),
        ensures
            extends(*old(random), *final(random)),
            (forall|i: int| 0 <= i < old(self)@.field.len() ==> #[trigger] old(self)@.field[i].food
                >= MAX_CELL_FOOD) ==> *final(random) == *old(random),
            exists|grows: Seq<bool>| {
                &&& grows.len() == old(self)@.field.len()
                &&& final(random).draws() == old(random).draws() + food_asks(
                    old(self)@.field,
                    grows,
                    old(self)@.field.len() as int,
                )
                &&& forall|i: int| 0 <= i < old(self)@.field.len() ==> #[trigger] final(self)@.field[i].food
                    == old(self)@.field[i].food + if old(self)@.field[i].food < MAX_CELL_FOOD && grows[i] {
                    1int
                } else {
                    0int
                }
            },
            final(self)@.inv(Set::empty()),
            final(self)@ == (BoardView {
                field: final(self)@.field,
                summary: final(self)@.summary,
                ..old(self)@
            }),
            final(self)@.field.len() == old(self)@.field.len(),
            forall|i: int| 0 <= i < old(self)@.field.len() ==> {
                let before = old(self)@.field[i];
                let after = #[trigger] final(self)@.field[i];
                &&& after.aphids == before.aphids
                &&& after.ladybugs == before.ladybugs
                &&& (after.food == before.food || (after.food == before.food + 1 && before.food
                    < MAX_CELL_FOOD))
            },
            final(self)@.summary.aphids == old(self)@.summary.aphids,
            final(self)@.summary.ladybugs == old(self)@.summary.ladybugs,
            regenerated == final(self)@.summary.food - old(self)@.summary.food,
            regenerated <= old(self)@.field.len(),
    {
        let ghost v0 = self@;
        let ghost r0 = *random;
        let cells = self.field.len();
        let mut grows: Vec<bool> = Vec::new();
        for i in 0..cells
            invariant
                cells == v0.field.len(),
                self@ == v0,
                grows@.len() == i,
                (forall|j: int| 0 <= j < i ==> #[trigger] v0.field[j].food >= MAX_CELL_FOOD) ==> *random == r0,
                random.draws() == r0.draws() + food_asks(v0.field, grows@, i as int),
        {
            let ghost asked = grows@;
            proof {
                assert(self@.field[i as int] == self.field@[i as int]@);
            }
            let grows_here = if self.field[i].food < MAX_CELL_FOOD {
                random.ask(odds, Chance::FoodRegeneration)
            } else {
                false
            };
            grows.push(grows_here);
            proof {
                lemma_food_asks_prefix(v0.field, asked, grows@, i as int);
                assert(random.draws() =~= r0.draws() + food_asks(v0.field, grows@, i + 1));
                if forall|j: int| 0 <= j < i + 1 ==> #[trigger] v0.field[j].food >= MAX_CELL_FOOD {
                    assert(v0.field[i as int].food >= MAX_CELL_FOOD);
                    assert forall|j: int| 0 <= j < i implies #[trigger] v0.field[j].food >= MAX_CELL_FOOD by {
                        assert(0 <= j < i + 1);
                    }
                }
            }
        }
        let regenerated = self.settle_food_regeneration(grows.as_slice());
        proof {
            assert(grows@.len() == v0.field.len());
            lemma_extends_append(r0, *random, food_asks(v0.field, grows@, v0.field.len() as int));
        }
        regenerated
    }

    /// Restores one food to each cell below the food cap for which the odds
    /// answered yes, as a turn does, and returns how many did: `grows` holds one
    /// answer per cell, and an answer for a cell at the cap is not read.
    pub fn settle_food_regeneration(&mut self, grows: &[bool]) -> (regenerated: usize)
        requires
            old(self)@.inv(Set::empty()),
            grows@.len() == old(self)@.field.len(),
        ensures
            forall|i: int| 0 <= i < old(self)@.field.len() ==> #[trigger] final(self)@.field[i].food
                == old(self)@.field[i].food + if old(self)@.field[i].food < MAX_CELL_FOOD && grows@[i] {
                    1int
                } else {
                    0int
                },
            final(self)@.inv(Set::empty()),
            final(self)@ == (BoardView {
                field: final(self)@.field,
                summary: final(self)@.summary,
                ..old(self)@
            }),
            final(self)@.field.len() == old(self)@.field.len(),
            forall|i: int| 0 <= i < old(self)@.field.len() ==> {
                let before = old(self)@.field[i];
                let after = #[trigger] final(self)@.field[i];
                &&& after.aphids == before.aphids
                &&& after.ladybugs == before.ladybugs
                &&& (after.food == before.food || (after.food == before.food + 1 && before.food
                    < MAX_CELL_FOOD))
            },
            final(self)@.summary.aphids == old(self)@.summary.aphids,
            final(self)@.summary.ladybugs == old(self)@.summary.ladybugs,
            regenerated == final(self)@.summary.food - old(self)@.summary.food,
            regenerated <= old(self)@.field.len(),
    {
        let ghost v0 = self@;
        let mut regenerated: usize = 0;
        let cells = self.field.len();

        for i in 0..cells
            invariant
                cells == v0.field.len(),
                self@.inv(Set::empty()),
                self@ == (BoardView { field: self@.field, summary: self@.summary, ..v0 }),
                self@.field.len() == v0.field.len(),
                forall|j: int| 0 <= j < v0.field.len() ==> {
                    let before = v0.field[j];
                    let after = #[trigger] self@.field[j];
                    &&& after.aphids == before.aphids
                    &&& after.ladybugs == before.ladybugs
                    &&& (after.food == before.food || (after.food == before.food + 1 && before.food
                        < MAX_CELL_FOOD))
                    &&& j >= i ==> after.food == before.food
                },
                self@.summary.aphids == v0.summary.aphids,
                self@.summary.ladybugs == v0.summary.ladybugs,
                regenerated == self@.summary.food - v0.summary.food,
                regenerated <= i,
                grows@.len() == v0.field.len(),
                forall|j: int| 0 <= j < i ==> #[trigger] self@.field[j].food == v0.field[j].food + if v0.field[j].food
                    < MAX_CELL_FOOD && grows@[j] {
                    1int
                } else {
                    0int
                },
        {
            proof {
                assert(self@.field[i as int] == self.field@[i as int]@);
            }
            if self.field[i].food < MAX_CELL_FOOD && grows[i] {
                let ghost v1 = self@;
                proof {
                    assert(self@.field[i as int] == self.field@[i as int]@);
                    let new_cell = CellView { food: (v1.field[i as int].food + 1) as i32, ..v1.field[i as int] };
                    lemma_food_update(v1.field, i as int, new_cell);
                    let updated = v1.field.update(i as int, new_cell);
                    assert forall|j: int| 0 <= j < updated.len() implies 0 <= #[trigger] updated[j].food by {
                        assert(v1.food_in_range());
                    }
                    lemma_food_bounds(updated);
                    assert(v1.field.len() <= MAX_CELLS);
                }
                self.field[i].food = self.field[i].food + 1;
                self.summary.food = self.summary.food + 1;
                regenerated = regenerated + 1;
                proof {
                    let v = self@;
                    let new_cell = CellView { food: (v1.field[i as int].food + 1) as i32, ..v1.field[i as int] };
                    assert(v.field =~= v1.field.update(i as int, new_cell));
                    lemma_food_update(v1.field, i as int, new_cell);
                    assert forall|j: int| 0 <= j < v.field.len() implies 0 <= #[trigger] v.field[j].food by {
                        assert(v1.food_in_range());
                        if j != i {
                            assert(v.field[j] == v1.field[j]);
                        }
                    }
                    assert forall|j: int, k: CreatureKind, s: int|
                        0 <= j < v.field.len() && 0 <= s < v.occupants(j, k).len() implies {
                            let e = #[trigger] v.occupants(j, k)[s];
                            v.sits_at(e, j, s, k) && !Set::<usize>::empty().contains(e)
                        } by {
                        if j != i {
                            assert(v.field[j] == v1.field[j]);
                        }
                        assert(v.occupants(j, k) == v1.occupants(j, k));
                        assert(v1.occupants(j, k)[s] == v.occupants(j, k)[s]);
                    }
                    assert forall|c: int|
                        0 <= c < v.creatures.len() && (#[trigger] v.creatures[c]) is Some
                            && !Set::<usize>::empty().contains(c as usize) implies v.placed(c)
                        && life_of(v.creature(c)) > i32::MIN by {
                        assert(v1.placed(c));
                        let cr = v1.creature(c);
                        lemma_index_in_field(
                            v1.rows as int,
                            v1.cols as int,
                            location_of(cr).x as int,
                            location_of(cr).y as int,
                        );
                        let j = v1.index_of(location_of(cr));
                        if j != i {
                            assert(v.field[j] == v1.field[j]);
                        }
                        assert(v.occupants(j, kind_of(cr)) == v1.occupants(j, kind_of(cr)));
                    }
                    assert forall|j: int| 0 <= j < v0.field.len() implies {
                        let before = v0.field[j];
                        let after = #[trigger] v.field[j];
                        &&& after.aphids == before.aphids
                        &&& after.ladybugs == before.ladybugs
                        &&& (after.food == before.food || (after.food == before.food + 1 && before.food
                            < MAX_CELL_FOOD))
                        &&& j >= i + 1 ==> after.food == before.food
                    } by {
                        if j != i {
                            assert(v.field[j] == v1.field[j]);
                        }
                    }
                    assert forall|j: int| 0 <= j < i + 1 implies #[trigger] v.field[j].food == v0.field[j].food
                        + if v0.field[j].food < MAX_CELL_FOOD && grows@[j] {
                        1int
                    } else {
                        0int
                    } by {
                        if j != i {
                            assert(v.field[j] == v1.field[j]);
                        }
                    }
                    assert(v.rows * v.cols == v.field.len());
                    assert(v.food_in_range());
                    assert(v.summary.food == total_food(v.field));
                    assert(v.cells_hold(Set::empty()));
                    assert(v.creatures_placed(Set::empty()));
                    assert(v.creatures_sound());
                    assert(v.active == v1.active && v.creatures == v1.creatures);
                    assert forall|c: int|
                        0 <= c < v.creatures.len() && (#[trigger] v.creatures[c]) is Some implies v.active.contains(
                        c as usize) by {
                        assert(v1.creatures[c] is Some);
                    }
                    assert(v.active_sound());
                    assert(v.marks_bounded());
                }
            }
        }
        regenerated
    }
}


impl Board {
    /// Starts a new scheduled-death marking pass without clearing the full
    /// marker table.
    fn start_death_marking(&mut self)
        requires
            old(self)@.marks_bounded(),
        ensures
            final(self)@ == (BoardView {
                death_marks: final(self)@.death_marks,
                epoch: final(self)@.epoch,
                ..old(self)@
            }),
            final(self)@.death_marks.len() == old(self)@.death_marks.len(),
            final(self)@.epoch >= 1,
            forall|id: int| 0 <= id < final(self)@.death_marks.len() ==> #[trigger] final(self)@.death_marks[id]
                < final(self)@.epoch,
    {
        let ghost v0 = self@;
        self.death_mark_epoch = self.death_mark_epoch.wrapping_add(1);
        if self.death_mark_epoch == 0 {
            let count = self.death_marks.len();
            for i in 0..count
                invariant
                    count == self.death_marks@.len(),
                    count == v0.death_marks.len(),
                    self@ == (BoardView { death_marks: self@.death_marks, epoch: self@.epoch, ..v0 }),
                    forall|j: int| 0 <= j < i ==> #[trigger] self@.death_marks[j] == 0,
            {
                self.death_marks.set(i, 0);
            }
            self.death_mark_epoch = 1;
        }
    }

    /// Returns whether a creature is already scheduled to die in this refresh.
    fn is_marked_dead(&self, id: usize) -> (marked: bool)
        ensures
            marked == (id < self@.death_marks.len() && self@.death_marks[id as int] == self@.epoch),
    {
        id < self.death_marks.len() && self.death_marks[id] == self.death_mark_epoch
    }

    /// Returns whether `id` names a living creature.
    pub fn is_living(&self, id: usize) -> (living: bool)
        ensures
            living == self@.living(id as int),
    {
        id < self.creatures.len() && self.creatures[id].is_some()
    }

    /// Marks one creature ID as dead and records it once for phase-end removal.
    fn mark_dead(&mut self, dead_creatures: &mut Vec<usize>, id: usize)
        requires
            id < old(self)@.death_marks.len(),
        ensures
            final(self)@ == (BoardView {
                death_marks: old(self)@.death_marks.update(id as int, old(self)@.epoch),
                ..old(self)@
            }),
            final(dead_creatures)@ == if old(self)@.death_marks[id as int] != old(self)@.epoch {
                old(dead_creatures)@.push(id)
            } else {
                old(dead_creatures)@
            },
    {
        if id >= self.death_marks.len() {
            self.death_marks.resize(id + 1, 0);
        }

        if self.death_marks[id] != self.death_mark_epoch {
            self.death_marks.set(id, self.death_mark_epoch);
            dead_creatures.push(id);
        } else {
            proof {
                assert(self@.death_marks =~= old(self)@.death_marks.update(id as int, old(self)@.epoch));
            }
        }
    }

    /// Removes scheduled creatures without compacting active IDs.
    fn remove_dead_creatures(&mut self, dead_creatures: &Vec<usize>) -> (removed: bool)
        requires
            old(self)@.inv(old(self)@.pending()),
            old(self)@.lists_pending(dead_creatures@),
        ensures
            final(self)@.inv(Set::empty()),
            final(self)@.pending() =~= Set::<usize>::empty(),
            final(self)@ == (BoardView {
                creatures: final(self)@.creatures,
                summary: final(self)@.summary,
                ..old(self)@
            }),
            final(self)@.creatures.len() == old(self)@.creatures.len(),
            forall|id: int|
                0 <= id < old(self)@.creatures.len() ==> #[trigger] final(self)@.creatures[id] == if dead_creatures@.contains(
                    id as usize,
                ) {
                    None
                } else {
                    old(self)@.creatures[id]
                },
            final(self)@.population() + dead_creatures@.len() == old(self)@.population(),
            final(self)@.summary.food == old(self)@.summary.food,
            removed == (dead_creatures@.len() > 0),
            evolves(old(self)@.creatures, final(self)@.creatures),
    {
        let ghost v0 = self@;
        let ghost list = dead_creatures@;
        let mut removed = false;
        let count = dead_creatures.len();
        proof {
            assert forall|x: usize| #[trigger] self@.pending().contains(x) <==> appears_in(list, 0, count as int, x) by {
                if list.contains(x) {
                    let p = choose|p: int| 0 <= p < list.len() && list[p] == x;
                    assert(appears_in(list, 0, count as int, x));
                }
                if appears_in(list, 0, count as int, x) {
                    let p = choose|p: int| 0 <= p < count && #[trigger] list[p] == x;
                    assert(list.contains(x));
                }
            }
        }
        for j in 0..count
            invariant
                count == list.len(),
                list == dead_creatures@,
                v0.lists_pending(list),
                self@.inv(self@.pending()),
                self@ == (BoardView {
                    creatures: self@.creatures,
                    summary: self@.summary,
                    ..v0
                }),
                self@.creatures.len() == v0.creatures.len(),
                forall|id: int|
                    0 <= id < v0.creatures.len() ==> #[trigger] self@.creatures[id] == if appears_in(
                        list,
                        0,
                        j as int,
                        id as usize,
                    ) {
                        None
                    } else {
                        v0.creatures[id]
                    },
                forall|x: usize| #[trigger] self@.pending().contains(x) <==> appears_in(list, j as int, count as int, x),
                self@.population() + j == v0.population(),
                self@.summary.food == v0.summary.food,
                removed == (j > 0),
        {
            let id = dead_creatures[j];
            let ghost v1 = self@;
            proof {
                assert(list[j as int] == id);
                assert(appears_in(list, j as int, count as int, id));
                assert(v1.pending().contains(id));
            }
            if let Some(kind) = self.creature_kind(id) {
                self.mark_creature_removed(id, kind, Ghost(v1.pending()));
                removed = true;
                proof {
                    let v = self@;
                    assert(v.pending() =~= v1.pending().remove(id));
                    assert forall|x: usize| #[trigger] v.pending().contains(x) <==> appears_in(list, j + 1, count as int, x) by {
                        if appears_in(list, j + 1, count as int, x) {
                            let p = choose|p: int| j + 1 <= p < count && #[trigger] list[p] == x;
                            assert(appears_in(list, j as int, count as int, x));
                            assert(list[j as int] != list[p]);
                        }
                        if v1.pending().contains(x) && x != id {
                            let p = choose|p: int| j <= p < count && #[trigger] list[p] == x;
                            assert(p != j);
                        }
                    }
                    assert forall|c: int| 0 <= c < v0.creatures.len() implies #[trigger] v.creatures[c] == if appears_in(
                        list,
                        0,
                        j + 1,
                        c as usize,
                    ) {
                        None
                    } else {
                        v0.creatures[c]
                    } by {
                        if appears_in(list, 0, j + 1, c as usize) && c != id {
                            let p = choose|p: int| 0 <= p < j + 1 && #[trigger] list[p] == c as usize;
                            assert(p != j);
                            assert(appears_in(list, 0, j as int, c as usize));
                        }
                        if appears_in(list, 0, j as int, c as usize) {
                            let p = choose|p: int| 0 <= p < j && #[trigger] list[p] == c as usize;
                            assert(appears_in(list, 0, j + 1, c as usize));
                        }
                        if c == id {
                            assert(appears_in(list, 0, j + 1, c as usize));
                        }
                    }
                }
            }
        }
        proof {
            let v = self@;
            assert forall|x: usize| !v.pending().contains(x) by {}
            assert(v.pending() =~= Set::<usize>::empty());
            assert forall|c: int| 0 <= c < v0.creatures.len() implies #[trigger] v.creatures[c] == if list.contains(
                c as usize,
            ) {
                None
            } else {
                v0.creatures[c]
            } by {
                if list.contains(c as usize) {
                    let p = choose|p: int| 0 <= p < list.len() && list[p] == c as usize;
                    assert(appears_in(list, 0, count as int, c as usize));
                }
                if appears_in(list, 0, count as int, c as usize) {
                    let p = choose|p: int| 0 <= p < count && #[trigger] list[p] == c as usize;
                    assert(list.contains(c as usize));
                }
            }
            assert forall|c: int|
                0 <= c < v0.creatures.len() && (#[trigger] v.creatures[c]) is Some implies v0.creatures[c] is Some
                && kind_of(v.creatures[c]->Some_0) == kind_of(v0.creatures[c]->Some_0) by {}
        }
        removed
    }
}


impl Board {
    /// Removes dead IDs from the active list after all refresh phases finish.
    fn compact_active_creatures(&mut self)
        requires
            old(self)@.inv(Set::empty()),
        ensures
            final(self)@.wf(),
            final(self)@ == (BoardView { active: final(self)@.active, ..old(self)@ }),
            final(self)@.active.len() <= old(self)@.active.len(),
    {
        let ghost v0 = self@;
        let mut kept: Vec<usize> = Vec::new();
        let count = self.active_creatures.len();
        for a in 0..count
            invariant
                self@ == v0,
                v0.inv(Set::empty()),
                count == v0.active.len(),
                kept@.len() <= a,
                forall|p: int, q: int| 0 <= p < q < kept@.len() ==> #[trigger] kept@[p] < #[trigger] kept@[q],
                forall|p: int| 0 <= p < kept@.len() ==> v0.active.contains(#[trigger] kept@[p]),
                forall|p: int| 0 <= p < kept@.len() ==> v0.creatures[#[trigger] kept@[p] as int] is Some,
                forall|b: int| 0 <= b < a && v0.creatures[v0.active[b] as int] is Some ==> kept@.contains(#[trigger] v0.active[b]),
                a > 0 && kept@.len() > 0 ==> kept@.last() <= v0.active[a - 1],
        {
            let x = self.active_creatures[a];
            if self.creatures[x].is_some() {
                proof {
                    if kept@.len() > 0 {
                        assert(kept@.last() < x);
                    }
                }
                let ghost before = kept@;
                kept.push(x);
                proof {
                    assert(kept@[kept@.len() - 1] == x);
                    assert forall|p: int| 0 <= p < kept@.len() implies v0.active.contains(#[trigger] kept@[p]) by {
                        if p < before.len() {
                            assert(kept@[p] == before[p]);
                        } else {
                            assert(v0.active[a as int] == kept@[p]);
                        }
                    }
                    assert forall|p: int| 0 <= p < kept@.len() implies v0.creatures[#[trigger] kept@[p] as int] is Some by {
                        if p < before.len() {
                            assert(kept@[p] == before[p]);
                        }
                    }
                    assert forall|b: int| 0 <= b < a + 1 && v0.creatures[v0.active[b] as int] is Some implies kept@.contains(#[trigger] v0.active[b]) by {
                        if b < a {
                            let p = choose|p: int| 0 <= p < before.len() && before[p] == v0.active[b];
                            assert(kept@[p] == before[p]);
                        } else {
                            assert(kept@[kept@.len() - 1] == v0.active[b]);
                        }
                    }
                }
            }
        }
        self.active_creatures = kept;
        proof {
            let v = self@;
            assert forall|p: int| 0 <= p < v.active.len() implies #[trigger] v.active[p] < v.creatures.len() by {
                assert(v0.active.contains(kept@[p]));
                let b = choose|b: int| 0 <= b < v0.active.len() && v0.active[b] == kept@[p];
            }
            assert forall|c: int|
                0 <= c < v.creatures.len() && (#[trigger] v.creatures[c]) is Some implies v.active.contains(
                c as usize) by {
                assert(v0.active.contains(c as usize));
                let b = choose|b: int| 0 <= b < v0.active.len() && v0.active[b] == c as usize;
                assert(kept@.contains(v0.active[b]));
            }
            assert forall|p: int| 0 <= p < v.active.len() implies #[trigger] v.creatures[v.active[p] as int] is Some by {
                assert(v0.creatures[kept@[p] as int] is Some);
            }
            assert(v =~= BoardView { active: v.active, ..v0 });
            lemma_inv_active_frame(v0, v, Set::empty());
        }
    }

    /// The movement phase of a turn: every creature of `turn_creatures`, the
    /// living creatures at its start, moves in order. Returns the boards
    /// between the moves and the draws each move took.
    fn move_all<O: Odds>(&mut self, turn_creatures: &Vec<usize>, random: &mut Random, odds: &O) -> (trail: Ghost<
        (Seq<BoardView>, Seq<Seq<Draw>>),
    >)
        requires
            old(self)@.wf(),
            turn_creatures@ == old(self)@.active,
        ensures
            final(self)@.wf(),
            final(self)@.rows == old(self)@.rows,
            final(self)@.cols == old(self)@.cols,
            final(self)@.creatures.len() == old(self)@.creatures.len(),
            final(self)@.active == old(self)@.active,
            final(self)@.summary == old(self)@.summary,
            final(self)@.death_marks == old(self)@.death_marks,
            final(self)@.epoch == old(self)@.epoch,
            evolves(old(self)@.creatures, final(self)@.creatures),
            final(self)@.field.len() == old(self)@.field.len(),
            forall|i: int| 0 <= i < old(self)@.field.len() ==> #[trigger] final(self)@.field[i].food == old(self)@.field[i].food,
            lives_kept(old(self)@, final(self)@),
            moved_at_most_one_step(old(self)@, final(self)@),
            extends(*old(random), *final(random)),
            drawn_since(*old(random), *final(random)) == trail@.1.flatten(),
            movement_phase(old(self)@.active, trail@.0, trail@.1),
            trail@.0[0] == old(self)@,
            trail@.0.last() == final(self)@,
    {
        let ghost v0 = self@;
        let ghost r0 = *random;
        let ghost mut boards: Seq<BoardView> = seq![v0];
        let ghost mut groups: Seq<Seq<Draw>> = Seq::empty();
        proof {
            lemma_extends_itself(r0);
            assert(groups.flatten() =~= Seq::<Draw>::empty());
            lemma_no_move_yet(v0);
        }
        let n = turn_creatures.len();
        for k in 0..n
            invariant
                n == turn_creatures@.len(),
                turn_creatures@ == v0.active,
                self@.wf(),
                self@.rows == v0.rows,
                self@.cols == v0.cols,
                self@.creatures.len() == v0.creatures.len(),
                self@.active == v0.active,
                self@.summary == v0.summary,
                self@.death_marks == v0.death_marks,
                self@.epoch == v0.epoch,
                evolves(v0.creatures, self@.creatures),
                self@.field.len() == v0.field.len(),
                forall|i: int| 0 <= i < v0.field.len() ==> #[trigger] self@.field[i].food == v0.field[i].food,
                lives_kept(v0, self@),
                moved_at_most_one_step(v0, self@),
                forall|j: int| k <= j < n ==> #[trigger] self@.creatures[v0.active[j] as int] == v0.creatures[v0.active[j] as int],
                extends(r0, *random),
                drawn_since(r0, *random) == groups.flatten(),
                boards.len() == k + 1,
                groups.len() == k,
                boards[0] == v0,
                boards.last() == self@,
                forall|j: int| 0 <= j < k ==> #[trigger] moved_as_drawn(boards[j], v0.active[j], groups[j], boards[j + 1]),
        {
            let ghost before = self@.creatures;
            let ghost board_before = self@;
            let ghost r_before = *random;
            self.creature_movement(turn_creatures[k], random, odds);
            proof {
                let drawn = drawn_since(r_before, *random);
                lemma_extends_trans(r0, r_before, *random);
                groups.lemma_flatten_push(drawn);
                let old_boards = boards;
                let old_groups = groups;
                boards = boards.push(self@);
                groups = groups.push(drawn);
                assert forall|j: int| 0 <= j < k + 1 implies #[trigger] moved_as_drawn(
                    boards[j],
                    v0.active[j],
                    groups[j],
                    boards[j + 1],
                ) by {
                    if j < k {
                        assert(boards[j] == old_boards[j] && boards[j + 1] == old_boards[j + 1]);
                        assert(groups[j] == old_groups[j]);
                        assert(moved_as_drawn(old_boards[j], v0.active[j], old_groups[j], old_boards[j + 1]));
                    } else {
                        assert(boards[j] == board_before);
                        if !board_before.living(v0.active[j] as int) {
                            lemma_extends_itself(r_before);
                        }
                    }
                }
                assert forall|c: int| 0 <= c < v0.creatures.len() && (#[trigger] self@.creatures[c]) is Some implies {
                    &&& v0.creatures[c] is Some
                    &&& life_of(self@.creatures[c]->Some_0) == life_of(v0.creatures[c]->Some_0)
                } by {
                    assert(before[c] is Some);
                    if c == turn_creatures@[k as int] && board_before.living(c) {
                        assert(life_of(self@.creature(c)) == life_of(board_before.creature(c)));
                    }
                }
                let id = turn_creatures@[k as int];
                assert(board_before.creatures[v0.active[k as int] as int] == v0.creatures[v0.active[k as int] as int]);
                assert forall|c: int|
                    0 <= c < v0.creatures.len() && v0.creatures[c] is Some && (#[trigger] self@.creatures[c]) is Some implies exists|
                    direction: Direction,
                | location_of(self@.creatures[c]->Some_0) == #[trigger] v0.destination(
                    direction,
                    location_of(v0.creatures[c]->Some_0),
                ) by {
                    if c == id && board_before.living(c) {
                        let d = choose|d: Direction| location_of(self@.creature(c)) == #[trigger] board_before.destination(
                            d,
                            location_of(board_before.creature(c)),
                        );
                        assert(board_before.destination(d, location_of(board_before.creature(c))) == v0.destination(
                            d,
                            location_of(v0.creatures[c]->Some_0),
                        ));
                    } else {
                        assert(self@.creatures[c] == board_before.creatures[c]);
                    }
                }
                assert forall|j: int| k + 1 <= j < n implies #[trigger] self@.creatures[v0.active[j] as int]
                    == v0.creatures[v0.active[j] as int] by {
                    assert(v0.active[k as int] < v0.active[j]);
                    assert(self@.creatures[v0.active[j] as int] == board_before.creatures[v0.active[j] as int]);
                }
                assert forall|c: int|
                    0 <= c < v0.creatures.len() && (#[trigger] self@.creatures[c]) is Some implies v0.creatures[c] is Some
                    && kind_of(self@.creatures[c]->Some_0) == kind_of(v0.creatures[c]->Some_0) by {
                    assert(before[c] is Some);
                }
            }
        }

        Ghost((boards, groups))
    }

    /// Advances the board by one phased turn.
    ///
    /// The turn snapshot prevents newly born creatures from acting immediately.
    /// Combat deaths are applied before procreation and starvation so killed
    /// creatures do not continue acting later in the same turn.
    #[verifier::rlimit(100)]
    pub fn refresh<O: Odds>(&mut self, random: &mut Random, odds: &O) -> (stats: TurnStats)
        requires
            old(self)@.wf(),
        ensures
            turn_outcome(old(self)@, final(self)@, stats),
            newborns_untouched(old(self)@.creatures.len(), final(self)@),
            lives_drop_at_most_one(old(self)@, final(self)@),
            food_grows_at_most_one(old(self)@, final(self)@),
            all_alive_have_life(final(self)@),
            moved_at_most_one_step(old(self)@, final(self)@),
            extends(*old(random), *final(random)),
            played_as_drawn(old(self)@, drawn_since(*old(random), *final(random)), final(self)@),
            old(self)@.summary.food - (old(self)@.summary.aphids + old(self)@.summary.ladybugs)
                <= final(self)@.summary.food <= old(self)@.summary.food + old(self)@.rows * old(self)@.cols,
    {
        let ghost v0 = self@;
        let ghost r0 = *random;
        proof {
            crate::laws::lemma_active_counts_the_living(v0);
        }
        let turn_creatures = self.active_creatures.clone();
        let n = turn_creatures.len();
        proof {
            assert(turn_creatures@ =~= v0.active);
        }
        let mut stats = TurnStats::default();
        proof {
            lemma_no_move_yet(v0);
        }

        // Phase 1: every creature alive at the start moves before any combat or births happen.
        let trail = self.move_all(&turn_creatures, random, odds);
        let mut dead_creatures: Vec<usize> = Vec::new();
        let ghost v0_moved = self@;
        let ghost r_moved = *random;
        proof {
            lemma_extends_itself(r_moved);
        }
        self.start_death_marking();
        let ghost v1 = self@;
        proof {
            assert(v1.pending() =~= Set::<usize>::empty());
            assert forall|m: int| 0 <= m < v1.death_marks.len() implies #[trigger] v1.death_marks[m] <= v1.epoch by {}
            lemma_inv_marks_frame(v0_moved, v1, Set::empty());
            assert(v1.inv(v1.pending()));
            assert forall|x: usize| #[trigger] dead_creatures@.contains(x) <==> v1.pending().contains(x) by {}
        }

        // Phase 2: combat is resolved for survivors among the creatures of the turn.
        let ghost mut fights: Seq<BoardView> = seq![v1];
        let ghost mut fight_draws: Seq<Seq<Draw>> = Seq::empty();
        proof {
            assert(fight_draws.flatten() =~= Seq::<Draw>::empty());
        }
        for k in 0..n
            invariant
                fights.len() == k + 1,
                fight_draws.len() == k,
                fights[0] == v1,
                fights.last() == self@,
                forall|j: int| 0 <= j < k ==> #[trigger] fought_as_drawn(fights[j], v0.active[j], fight_draws[j], fights[j + 1]),
                drawn_since(r_moved, *random) == fight_draws.flatten(),
                n == turn_creatures@.len(),
                turn_creatures@ == v0.active,
                v0.wf(),
                self@.inv(self@.pending()),
                self@.lists_pending(dead_creatures@),
                self@ == (BoardView { field: self@.field, death_marks: self@.death_marks, ..v1 }),
                self@.death_marks.len() == v1.death_marks.len(),
                self@.epoch >= 1,
                self@.field.len() == v0.field.len(),
                forall|i: int| 0 <= i < v0.field.len() ==> #[trigger] self@.field[i].food == v0.field[i].food,
                extends(r_moved, *random),
        {
            let id = turn_creatures[k];
            let skip = self.is_marked_dead(id) || !self.is_living(id);
            let ghost before = self@;
            let ghost r_before = *random;
            if skip {
            } else if let Some(killed) = self.combat(id, random, odds, Ghost(before.pending())) {
                proof {
                    assert(!before.pending().contains(killed));
                    assert(before.death_marks[killed as int] != before.epoch);
                }
                let ghost list_before = dead_creatures@;
                let ghost after_combat = self@;
                self.mark_dead(&mut dead_creatures, killed);
                proof {
                    let v = self@;
                    assert(v.pending() =~= before.pending().insert(killed));
                    assert forall|m: int| 0 <= m < v.death_marks.len() implies #[trigger] v.death_marks[m] <= v.epoch by {
                        assert(after_combat.marks_bounded());
                    }
                    lemma_inv_marks_frame(after_combat, v, before.pending().insert(killed));
                    assert forall|i: int| 0 <= i < v0.field.len() implies #[trigger] v.field[i].food == v0.field[i].food by {
                        let cr = before.creature(id as int);
                        let idx = before.index_of(location_of(cr));
                        let prey = prey_of(kind_of(cr));
                        let list = before.occupants_at(location_of(cr), prey);
                        assert(before.creatures_sound());
                        lemma_index_in_field(before.rows as int, before.cols as int, location_of(cr).x as int, location_of(cr).y as int);
                        assert(after_combat.field == before.field.update(idx, before.field[idx].with_occupants(prey, list.drop_last())));
                        if i == idx {
                            assert(before.field[idx].with_occupants(prey, list.drop_last()).food == before.field[idx].food);
                        }
                        assert(v.field[i] == after_combat.field[i]);
                        assert(v.field[i].food == before.field[i].food);
                    }
                    assert forall|x: usize| #[trigger] dead_creatures@.contains(x) <==> v.pending().contains(x) by {
                        if x == killed {
                            assert(dead_creatures@[dead_creatures@.len() - 1] == killed);
                        } else if list_before.contains(x) {
                            let p = choose|p: int| 0 <= p < list_before.len() && list_before[p] == x;
                            assert(dead_creatures@[p] == x);
                        } else if dead_creatures@.contains(x) {
                            let p = choose|p: int| 0 <= p < dead_creatures@.len() && dead_creatures@[p] == x;
                            assert(p < list_before.len());
                            assert(list_before[p] == x);
                        }
                    }
                    assert(!list_before.contains(killed));
                    assert forall|p: int, q: int| 0 <= p < dead_creatures@.len() && 0 <= q < dead_creatures@.len() && p != q implies dead_creatures@[p] != dead_creatures@[q] by {
                        if q == dead_creatures@.len() - 1 && p < list_before.len() {
                            assert(list_before.contains(dead_creatures@[p]));
                        }
                        if p == dead_creatures@.len() - 1 && q < list_before.len() {
                            assert(list_before.contains(dead_creatures@[q]));
                        }
                    }
                    assert(v =~= BoardView { field: v.field, death_marks: v.death_marks, ..v1 });
                }
            }
            proof {
                if !skip {
                    lemma_extends_trans(r_moved, r_before, *random);
                } else {
                    lemma_extends_itself(r_before);
                }
                let drawn = drawn_since(r_before, *random);
                fight_draws.lemma_flatten_push(drawn);
                let old_fights = fights;
                let old_draws = fight_draws;
                fights = fights.push(self@);
                fight_draws = fight_draws.push(drawn);
                assert forall|j: int| 0 <= j < k + 1 implies #[trigger] fought_as_drawn(
                    fights[j],
                    v0.active[j],
                    fight_draws[j],
                    fights[j + 1],
                ) by {
                    if j < k {
                        assert(fights[j] == old_fights[j] && fights[j + 1] == old_fights[j + 1]);
                        assert(fight_draws[j] == old_draws[j]);
                    } else {
                        assert(fights[j] == before);
                        assert(v0.active[j] == id);
                    }
                }
            }
        }

        // Phase 3: combat deaths are applied before procreation and starvation.
        let ghost v2 = self@;
        let ghost dead_at_fight_end = dead_creatures@;
        stats.deaths = stats.deaths + dead_creatures.len();
        let mut removed_creatures = self.remove_dead_creatures(&dead_creatures);
        let ghost v3 = self@;
        proof {
            assert(v3.creatures.len() == v0.creatures.len());
            assert(v2.creatures == v1.creatures);
            assert forall|c: int| 0 <= c < v0.creatures.len() && (#[trigger] v3.creatures[c]) is Some implies {
                &&& v0.creatures[c] is Some
                &&& life_of(v3.creatures[c]->Some_0) == life_of(v0.creatures[c]->Some_0)
            } by {
                assert(v3.creatures[c] == v2.creatures[c]);
                assert(v0_moved.creatures[c] is Some);
            }
            assert forall|c: int| 0 <= c < v0_moved.creatures.len() && (#[trigger] v3.creatures[c]) is Some implies {
                &&& v0_moved.creatures[c] is Some
                &&& location_of(v3.creatures[c]->Some_0) == location_of(v0_moved.creatures[c]->Some_0)
            } by {
                assert(v3.creatures[c] == v2.creatures[c]);
            }
            assert(stayed(v0_moved, v3));
            if !removed_creatures {
                assert forall|a: int| 0 <= a < v3.active.len() implies #[trigger] v3.creatures[v3.active[a] as int] is Some by {
                    assert(v0_moved.creatures[v0_moved.active[a] as int] is Some);
                    assert(v3.creatures[v3.active[a] as int] == v2.creatures[v3.active[a] as int]);
                }
            }
        }
        dead_creatures.clear();

        // Phase 4: survivors among the creatures of the turn may procreate.
        let ghost mut breeds: Seq<BoardView> = seq![v3];
        let ghost mut breed_draws: Seq<Seq<Draw>> = Seq::empty();
        let ghost r_fought = *random;
        proof {
            lemma_extends_itself(r_fought);
            assert(breed_draws.flatten() =~= Seq::<Draw>::empty());
        }
        for k in 0..n
            invariant
                breeds.len() == k + 1,
                breed_draws.len() == k,
                breeds[0] == v3,
                breeds.last() == self@,
                forall|j: int| 0 <= j < k ==> #[trigger] bred_as_drawn(breeds[j], v0.active[j], breed_draws[j], breeds[j + 1]),
                extends(r_fought, *random),
                drawn_since(r_fought, *random) == breed_draws.flatten(),
                n == turn_creatures@.len(),
                turn_creatures@ == v0.active,
                self@.inv(Set::empty()),
                self@.epoch == v3.epoch,
                self@.epoch >= 1,
                self@.rows == v0.rows,
                self@.cols == v0.cols,
                self@.field.len() == v0.field.len(),
                self@.death_marks.len() == self@.creatures.len(),
                forall|id: int| 0 <= id < self@.creatures.len() && (#[trigger] self@.creatures[id]) is Some
                    ==> self@.death_marks[id] != self@.epoch,
                self@.creatures.len() == v3.creatures.len() + stats.births,
                self@.population() == v3.population() + stats.births,
                stats.births <= k,
                stats.deaths + v3.population() == v0.population(),
                evolves(v3.creatures, self@.creatures),
                dead_creatures@.len() == 0,
                v3.active_living() ==> self@.active_living(),
                forall|i: int| 0 <= i < v0.field.len() ==> #[trigger] self@.field[i].food == v0.field[i].food,
                newborns_untouched(v3.creatures.len(), self@),
                v3.creatures.len() == v0.creatures.len(),
                lives_kept(v0, self@),
                v0_moved.creatures.len() == v0.creatures.len(),
                stayed(v0_moved, self@),
                extends(r_moved, *random),
        {
            let id = turn_creatures[k];
            let ghost before = self@;
            let ghost r_before = *random;
            let births = if self.is_living(id) {
                self.creature_procreation(id, random, odds)
            } else {
                0
            };
            proof {
                lemma_extends_itself(r_before);
                lemma_extends_trans(r_moved, r_before, *random);
                lemma_extends_trans(r_fought, r_before, *random);
                let drawn = drawn_since(r_before, *random);
                breed_draws.lemma_flatten_push(drawn);
                let old_breeds = breeds;
                let old_draws = breed_draws;
                breeds = breeds.push(self@);
                breed_draws = breed_draws.push(drawn);
                assert forall|j: int| 0 <= j < k + 1 implies #[trigger] bred_as_drawn(
                    breeds[j],
                    v0.active[j],
                    breed_draws[j],
                    breeds[j + 1],
                ) by {
                    if j < k {
                        assert(breeds[j] == old_breeds[j] && breeds[j + 1] == old_breeds[j + 1]);
                        assert(breed_draws[j] == old_draws[j]);
                    } else {
                        assert(breeds[j] == before);
                        assert(v0.active[j] == id);
                        if procreation_chance(before, id as int) is Some {
                            if births == 1 && kind_of(before.creature(id as int)) == CreatureKind::Ladybug {
                                assert(drawn =~= seq![
                                    Draw::Asked { chance: Chance::LadybugProcreate, answer: true },
                                    Draw::Number { min: 0, max: 3, value: last_number(*random) },
                                ]);
                            } else {
                                assert(drawn =~= seq![Draw::Asked {
                                    chance: procreation_chance(before, id as int)->Some_0,
                                    answer: births == 1,
                                }]);
                            }
                        }
                    }
                }
            }
            proof {
                let v = self@;
                assert forall|c: int| 0 <= c < v.creatures.len() && (#[trigger] v.creatures[c]) is Some
                    implies v.death_marks[c] != v.epoch by {
                    if c < before.creatures.len() {
                        if births == 1 {
                            assert(v.creatures[c] == v.creatures.drop_last()[c]);
                        }
                    }
                }
                assert forall|c: int|
                    0 <= c < v3.creatures.len() && (#[trigger] v.creatures[c]) is Some implies v3.creatures[c] is Some
                    && kind_of(v.creatures[c]->Some_0) == kind_of(v3.creatures[c]->Some_0) by {
                    assert(before.creatures[c] is Some);
                }
                assert forall|c: int| 0 <= c < v0.creatures.len() && (#[trigger] v.creatures[c]) is Some implies {
                    &&& v0.creatures[c] is Some
                    &&& life_of(v.creatures[c]->Some_0) == life_of(v0.creatures[c]->Some_0)
                } by {
                    if births == 1 {
                        assert(v.creatures[c] == v.creatures.drop_last()[c]);
                    }
                    assert(before.creatures[c] is Some);
                }
                assert forall|c: int| 0 <= c < v0_moved.creatures.len() && (#[trigger] v.creatures[c]) is Some implies {
                    &&& v0_moved.creatures[c] is Some
                    &&& location_of(v.creatures[c]->Some_0) == location_of(v0_moved.creatures[c]->Some_0)
                } by {
                    if births == 1 {
                        assert(v.creatures[c] == v.creatures.drop_last()[c]);
                    }
                    assert(before.creatures[c] is Some);
                }
                assert forall|c: int| v3.creatures.len() <= c < v.creatures.len() implies {
                    &&& (#[trigger] v.creatures[c]) is Some
                    &&& life_of(v.creatures[c]->Some_0) == newborn_life(kind_of(v.creatures[c]->Some_0))
                } by {
                    if births == 1 {
                        if c < before.creatures.len() {
                            assert(v.creatures[c] == v.creatures.drop_last()[c]);
                            assert(before.creatures[c] is Some);
                        } else {
                            assert(c == before.creatures.len());
                            assert(v.living(c));
                        }
                    } else {
                        assert(before.creatures[c] is Some);
                    }
                }
            }
            stats.births = stats.births + births;
        }
        let ghost v4 = self@;
        proof {
            assert(v4.pending() =~= Set::<usize>::empty());
            assert forall|x: usize| #[trigger] dead_creatures@.contains(x) <==> v4.pending().contains(x) by {}
        }

        // Phase 5: survivors among the creatures of the turn consume food and may
        // starve.
        let ghost mut fed: Seq<BoardView> = seq![v4];
        proof {
            lemma_total_food_same(v4.field, v0.field);
        }
        for k in 0..n
            invariant
                forall|x: usize| #[trigger] self@.pending().contains(x) ==> life_of(self@.creature(x as int)) < 1,
                v4.summary.food == v0.summary.food,
                v0.summary.food - k <= self@.summary.food <= v0.summary.food,
                fed.len() == k + 1,
                fed[0] == v4,
                fed.last() == self@,
                forall|j: int| 0 <= j < k ==> #[trigger] fed_as_served(fed[j], v0.active[j], fed[j + 1]),
                n == turn_creatures@.len(),
                turn_creatures@ == v0.active,
                v0.wf(),
                self@.inv(self@.pending()),
                self@.lists_pending(dead_creatures@),
                self@.rows == v0.rows,
                self@.cols == v0.cols,
                self@.field.len() == v0.field.len(),
                self@.epoch == v4.epoch,
                self@.epoch >= 1,
                self@.creatures.len() == v4.creatures.len(),
                self@.summary.aphids == v4.summary.aphids,
                self@.summary.ladybugs == v4.summary.ladybugs,
                self@.active == v4.active,
                forall|x: usize| #[trigger] self@.pending().contains(x) ==> k > 0 && x <= v0.active[k - 1],
                evolves(v4.creatures, self@.creatures),
                v4.active_living() ==> self@.active_living(),
                forall|i: int| 0 <= i < v0.field.len() ==> 0 <= #[trigger] self@.field[i].food <= v0.field[i].food,
                forall|c: int| v0.creatures.len() <= c < self@.creatures.len() ==> #[trigger] self@.creatures[c]
                    == v4.creatures[c],
                v4.creatures.len() >= v0.creatures.len(),
                forall|c: int|
                    0 <= c < v0.creatures.len() && (#[trigger] self@.creatures[c]) is Some ==> {
                        let was = life_of(v4.creatures[c]->Some_0);
                        let now = life_of(self@.creatures[c]->Some_0);
                        &&& v4.creatures[c] is Some
                        &&& now == was || now == was - 1
                        &&& (k == 0 || c > v0.active[k - 1]) ==> now == was
                    },
                forall|j: int|
                    0 <= j < k && (#[trigger] self@.creatures[v0.active[j] as int]) is Some && !self@.pending().contains(
                        v0.active[j],
                    ) ==> life_of(self@.creatures[v0.active[j] as int]->Some_0) >= 1,
                v0_moved.creatures.len() == v0.creatures.len(),
                stayed(v0_moved, self@),
        {
            let id = turn_creatures[k];
            let living = self.is_living(id);
            let ghost before = self@;
            let ghost fed_before = fed;
            proof {
                assert(v0.active[k as int] < v0.creatures.len());
                if before.pending().contains(id) {
                    assert(v0.active[k - 1] < v0.active[k as int]);
                }
            }
            if !living {
                proof {
                    assert forall|x: usize| #[trigger] before.pending().contains(x) implies k + 1 > 0 && x <= v0.active[k as int] by {
                        assert(v0.active[k - 1] < v0.active[k as int]);
                    }
                }
            } else if let Some(starved) = self.starvation(id, Ghost(before.pending())) {
                let ghost list_before = dead_creatures@;
                let ghost after_starving = self@;
                proof {
                    assert(!before.pending().contains(id));
                    assert(before.death_marks[id as int] != before.epoch);
                }
                self.mark_dead(&mut dead_creatures, starved);
                proof {
                    let v = self@;
                    assert forall|m: int| 0 <= m < v.death_marks.len() implies #[trigger] v.death_marks[m] <= v.epoch by {
                        assert(after_starving.marks_bounded());
                    }
                    lemma_inv_marks_frame(after_starving, v, before.pending().insert(id));
                    assert(v.pending() =~= before.pending().insert(id)) by {
                        assert forall|x: usize| #[trigger] v.pending().contains(x) <==> before.pending().insert(id).contains(x) by {
                            if x != id && (x as int) < v.creatures.len() {
                                assert(v.creatures[x as int] == before.creatures[x as int]);
                            }
                        }
                    }
                    assert forall|x: usize| #[trigger] dead_creatures@.contains(x) <==> v.pending().contains(x) by {
                        if x == id {
                            assert(dead_creatures@[dead_creatures@.len() - 1] == id);
                        } else if list_before.contains(x) {
                            let p = choose|p: int| 0 <= p < list_before.len() && list_before[p] == x;
                            assert(dead_creatures@[p] == x);
                        } else if dead_creatures@.contains(x) {
                            let p = choose|p: int| 0 <= p < dead_creatures@.len() && dead_creatures@[p] == x;
                            assert(p < list_before.len());
                            assert(list_before[p] == x);
                        }
                    }
                    assert(!list_before.contains(id));
                    assert forall|p: int, q: int| 0 <= p < dead_creatures@.len() && 0 <= q < dead_creatures@.len() && p != q implies dead_creatures@[p] != dead_creatures@[q] by {
                        if q == dead_creatures@.len() - 1 && p < list_before.len() {
                            assert(list_before.contains(dead_creatures@[p]));
                        }
                        if p == dead_creatures@.len() - 1 && q < list_before.len() {
                            assert(list_before.contains(dead_creatures@[q]));
                        }
                    }
                    assert forall|x: usize| #[trigger] v.pending().contains(x) implies k + 1 > 0 && x <= v0.active[k as int] by {
                        if x != id {
                            assert(before.pending().contains(x));
                            assert(v0.active[k - 1] < v0.active[k as int]);
                        }
                    }
                    assert forall|c: int|
                        0 <= c < v4.creatures.len() && (#[trigger] v.creatures[c]) is Some implies v4.creatures[c] is Some
                        && kind_of(v.creatures[c]->Some_0) == kind_of(v4.creatures[c]->Some_0) by {
                        assert(before.creatures[c] is Some);
                    }
                    if v4.active_living() {
                        assert forall|a: int| 0 <= a < v.active.len() implies #[trigger] v.creatures[v.active[a] as int] is Some by {
                            assert(before.creatures[before.active[a] as int] is Some);
                        }
                    }
                }
            } else {
                proof {
                    let v = self@;
                    assert(v.pending() =~= before.pending()) by {
                        assert forall|x: usize| #[trigger] v.pending().contains(x) <==> before.pending().contains(x) by {
                            if x != id && (x as int) < v.creatures.len() {
                                assert(v.creatures[x as int] == before.creatures[x as int]);
                            }
                        }
                    }
                    assert forall|x: usize| #[trigger] v.pending().contains(x) implies k + 1 > 0 && x <= v0.active[k as int] by {
                        assert(before.pending().contains(x));
                        assert(v0.active[k - 1] < v0.active[k as int]);
                    }
                    assert forall|c: int|
                        0 <= c < v4.creatures.len() && (#[trigger] v.creatures[c]) is Some implies v4.creatures[c] is Some
                        && kind_of(v.creatures[c]->Some_0) == kind_of(v4.creatures[c]->Some_0) by {
                        assert(before.creatures[c] is Some);
                    }
                    if v4.active_living() {
                        assert forall|a: int| 0 <= a < v.active.len() implies #[trigger] v.creatures[v.active[a] as int] is Some by {
                            assert(before.creatures[before.active[a] as int] is Some);
                        }
                    }
                }
            }
            proof {
                fed = fed.push(self@);
                assert forall|j: int| 0 <= j < k + 1 implies #[trigger] fed_as_served(fed[j], v0.active[j], fed[j + 1]) by {
                    if j < k {
                        assert(fed[j] == fed_before[j] && fed[j + 1] == fed_before[j + 1]);
                    } else {
                        assert(fed[j] == before);
                        if before.living(id as int) {
                            let creature = before.creature(id as int);
                            let i = before.index_of(location_of(creature));
                            assert(self@.creatures =~= before.creatures.update(id as int, self@.creatures[id as int]));
                            assert forall|j2: int| 0 <= j2 < before.field.len() && j2 != i implies #[trigger] self@.field[j2].food
                                == before.field[j2].food by {}
                        }
                    }
                }
            }
        }

        // Phase 6: starvation deaths are applied after every survivor had a
        // starvation turn.
        let ghost v5 = self@;
        proof {
            lemma_count_bound(v5.creatures);
            lemma_count_bound(v0.creatures);
            assert(v5.population() == v4.population());
        }
        let ghost deaths_before = stats.deaths;
        let ghost dead_now = dead_creatures@;
        removed_creatures = self.remove_dead_creatures(&dead_creatures) || removed_creatures;
        proof {
            assert(dead_now.len() <= v5.population());
        }
        stats.deaths = stats.deaths + dead_creatures.len();
        dead_creatures.clear();
        let ghost v6 = self@;
        if removed_creatures {
            self.compact_active_creatures();
        } else {
            proof {
                assert forall|a: int| 0 <= a < v6.active.len() implies #[trigger] v6.creatures[v6.active[a] as int] is Some by {
                    assert(v5.creatures[v5.active[a] as int] is Some);
                    assert(v6.creatures[v6.active[a] as int] == v5.creatures[v6.active[a] as int]);
                }
            }
        }

        // Phase 7: cells randomly regain food after creatures finish acting.
        let ghost v7 = self@;
        let ghost r_fed = *random;
        self.regenerate_food(random, odds);
        proof {
            lemma_extends_trans(r_moved, r_fed, *random);
            lemma_extends_trans(r0, r_moved, *random);
            let grows = choose|grows: Seq<bool>| {
                &&& grows.len() == v7.field.len()
                &&& random.draws() == r_fed.draws() + food_asks(v7.field, grows, v7.field.len() as int)
                &&& forall|i: int| 0 <= i < v7.field.len() ==> #[trigger] self@.field[i].food
                    == v7.field[i].food + if v7.field[i].food < MAX_CELL_FOOD && grows[i] {
                    1int
                } else {
                    0int
                }
            };
            lemma_extends_append(r_fed, *random, food_asks(v7.field, grows, v7.field.len() as int));
            assert(v7.field == fed.last().field);
            assert(v7.creatures.len() == fed.last().creatures.len());
            lemma_extends_trans(r_moved, r_fought, r_fed);
            assert(drawn_since(r0, *random) =~= trail@.1.flatten() + fight_draws.flatten() + breed_draws.flatten()
                + food_asks(fed.last().field, grows, fed.last().field.len() as int));
            assert(movement_phase(v0.active, trail@.0, trail@.1));
            assert(fighting_phase(v0.active, fights, fight_draws));
            assert(breeding_phase(v0.active, breeds, breed_draws));
            assert(feeding_phase(v0.active, fed));
            assert forall|c: int| 0 <= c < v2.creatures.len() implies #[trigger] v3.creatures[c]
                == if v2.pending().contains(c as usize) {
                None
            } else {
                v2.creatures[c]
            } by {
                assert(dead_at_fight_end.contains(c as usize) <==> v2.pending().contains(c as usize));
            }
            assert forall|c: int| 0 <= c < self@.creatures.len() implies #[trigger] self@.creatures[c]
                == if v5.living(c) && life_of(v5.creature(c)) < 1 {
                None
            } else {
                v5.creatures[c]
            } by {
                assert(self@.creatures[c] == v7.creatures[c]);
                assert(v7.creatures[c] == v6.creatures[c]);
                if v5.living(c) && life_of(v5.creature(c)) < 1 {
                    if c < v0.creatures.len() {
                        assert(v4.creatures[c] is Some);
                        assert(v0.creatures[c] is Some);
                        assert(v0.active.contains(c as usize));
                        let j = choose|j: int| 0 <= j < v0.active.len() && v0.active[j] == c as usize;
                        assert(v5.creatures[v0.active[j] as int] is Some);
                        assert(v5.pending().contains(c as usize));
                    } else {
                        assert(v5.creatures[c] == v4.creatures[c]);
                        assert(life_of(v4.creatures[c]->Some_0) == newborn_life(kind_of(v4.creatures[c]->Some_0)));
                    }
                    assert(dead_now.contains(c as usize));
                } else if dead_now.contains(c as usize) {
                    assert(v5.pending().contains(c as usize));
                }
            }
            assert forall|i: int| 0 <= i < fed.last().field.len() implies #[trigger] self@.field[i] == CellView {
                food: (fed.last().field[i].food + if fed.last().field[i].food < MAX_CELL_FOOD && grows[i] {
                    1int
                } else {
                    0int
                }) as i32,
                ..fed.last().field[i]
            } by {}
            assert(played_through(
                v0,
                drawn_since(r0, *random),
                self@,
                trail@.0,
                trail@.1,
                fights,
                fight_draws,
                breeds,
                breed_draws,
                fed,
                grows,
            ));
            let v = self@;
            assert forall|a: int| 0 <= a < v.active.len() implies #[trigger] v.creatures[v.active[a] as int] is Some by {
                assert(v7.creatures[v7.active[a] as int] is Some);
            }
            assert forall|c: int|
                0 <= c < v0.creatures.len() && (#[trigger] v.creatures[c]) is Some implies v0.creatures[c] is Some
                && kind_of(v.creatures[c]->Some_0) == kind_of(v0.creatures[c]->Some_0) by {
                assert(v5.creatures[c] is Some);
                assert(v4.creatures[c] is Some);
                assert(v3.creatures[c] is Some);
            }
        }

        proof {
            let v = self@;
            assert forall|c: int| v0.creatures.len() <= c < v.creatures.len() implies {
                &&& (#[trigger] v.creatures[c]) is Some
                &&& life_of(v.creatures[c]->Some_0) == newborn_life(kind_of(v.creatures[c]->Some_0))
            } by {
                if dead_now.contains(c as usize) {
                    assert(v5.pending().contains(c as usize));
                    assert(v0.active[n - 1] < v0.creatures.len());
                }
                assert(v6.creatures[c] == v5.creatures[c]);
                assert(v5.creatures[c] == v4.creatures[c]);
            }
            assert forall|c: int| 0 <= c < v0_moved.creatures.len() && (#[trigger] v.creatures[c]) is Some implies {
                &&& v0_moved.creatures[c] is Some
                &&& location_of(v.creatures[c]->Some_0) == location_of(v0_moved.creatures[c]->Some_0)
            } by {
                assert(v5.creatures[c] is Some);
            }
            lemma_moves_then_stay(v0, v0_moved, v);
        }
        stats.summary = self.summary();
        stats
    }
}


/// Whether `drawn` picked one of the four bands and `creature` is a ladybug
/// facing that band.
pub open spec fn band_drawn(creature: Creature, drawn: Draw) -> bool {
    &&& drawn is Number
    &&& drawn->min == 0
    &&& drawn->max == 3
    &&& creature matches Creature::Ladybug(ladybug)
    &&& ladybug.preferred_directions == direction_band(drawn->value as int)
}

/// What `Board::standard` builds, for the draws `drawn` it took: a
/// well-formed ten by ten board with food within the cap, holding the
/// creatures `standard_creature` lists, in that order; its food is the first
/// hundred draws, and each ladybug's band of directions the draw after them in
/// turn.
pub open spec fn standard_built(board: BoardView, drawn: Seq<Draw>) -> bool {
    &&& board.wf()
    &&& board.rows == 10
    &&& board.cols == 10
    &&& board.creatures.len() == 9
    &&& board.summary.aphids == 5
    &&& board.summary.ladybugs == 4
    &&& board.food_capped()
    &&& forall|id: int| 0 <= id < 9 ==> {
        let (kind, x, y, life) = standard_creature(id);
        &&& board.living(id)
        &&& kind_of(#[trigger] board.creature(id)) == kind
        &&& location_of(board.creature(id)) == (Coordinates { x, y })
        &&& life_of(board.creature(id)) == life
    }
    &&& drawn.len() == 104
    &&& forall|i: int| 0 <= i < 100 ==> #[trigger] drawn[i] == (Draw::Number {
        min: 0,
        max: MAX_CELL_FOOD,
        value: board.field[i].food,
    })
    &&& forall|id: int| 5 <= id < 9 ==> #[trigger] band_drawn(board.creature(id), drawn[id + 95])
}

/// The creatures of the standard board, in the order they are added: kind,
/// row, column and starting life.
pub open spec fn standard_creature(id: int) -> (CreatureKind, usize, usize, i32) {
    if id == 0 {
        (CreatureKind::Aphid, 3, 5, 10)
    } else if id == 1 {
        (CreatureKind::Aphid, 4, 8, 10)
    } else if id == 2 {
        (CreatureKind::Aphid, 2, 9, 10)
    } else if id == 3 {
        (CreatureKind::Aphid, 1, 6, 10)
    } else if id == 4 {
        (CreatureKind::Aphid, 1, 9, 10)
    } else if id == 5 {
        (CreatureKind::Ladybug, 5, 9, 15)
    } else if id == 6 {
        (CreatureKind::Ladybug, 1, 1, 15)
    } else if id == 7 {
        (CreatureKind::Ladybug, 3, 8, 15)
    } else {
        (CreatureKind::Ladybug, 9, 2, 15)
    }
}

impl Board {
    /// Creates the built-in standard board: ten by ten, five aphids and four
    /// ladybugs.
    #[verifier::rlimit(50)]
    pub fn standard(random: &mut Random) -> (board: Self)
        ensures
            standard_built(board@, drawn_since(*old(random), *final(random))),
            extends(*old(random), *final(random)),
            built_from_layout(
                10,
                10,
                example_aphids(),
                example_ladybugs(),
                board@,
                drawn_since(*old(random), *final(random)),
            ),
    {
        let ghost r0 = *random;
        let mut board = Self::with_field(10, 10, random);
        let ghost r1 = *random;
        let ghost b1 = board@;

        board.add_aphid(3, 5, 10);
        board.add_aphid(4, 8, 10);
        board.add_aphid(2, 9, 10);
        board.add_aphid(1, 6, 10);
        board.add_aphid(1, 9, 10);

        let ghost b2 = board@;
        board.add_ladybug(5, 9, 15, random);
        let ghost r3 = *random;
        let ghost b3 = board@;
        board.add_ladybug(1, 1, 15, random);
        let ghost r4 = *random;
        let ghost b4 = board@;
        board.add_ladybug(3, 8, 15, random);
        let ghost r5 = *random;
        let ghost b5 = board@;
        board.add_ladybug(9, 2, 15, random);
        proof {
            let r6 = *random;
            let v = board@;
            lemma_extends_push(r1, r3, Draw::Number { min: 0, max: 3, value: last_number(r3) });
            lemma_extends_push(r3, r4, Draw::Number { min: 0, max: 3, value: last_number(r4) });
            lemma_extends_push(r4, r5, Draw::Number { min: 0, max: 3, value: last_number(r5) });
            lemma_extends_push(r5, r6, Draw::Number { min: 0, max: 3, value: last_number(r6) });
            lemma_extends_trans(r0, r1, r3);
            lemma_extends_trans(r0, r3, r4);
            lemma_extends_trans(r0, r4, r5);
            lemma_extends_trans(r0, r5, r6);
            let drawn = drawn_since(r0, r6);
            assert(drawn =~= drawn_since(r0, r1).push(Draw::Number { min: 0, max: 3, value: last_number(r3) }).push(
                Draw::Number { min: 0, max: 3, value: last_number(r4) },
            ).push(Draw::Number { min: 0, max: 3, value: last_number(r5) }).push(
                Draw::Number { min: 0, max: 3, value: last_number(r6) },
            ));
            assert forall|i: int| 0 <= i < 100 implies #[trigger] drawn[i] == Draw::Number {
                min: 0,
                max: MAX_CELL_FOOD,
                value: v.field[i].food,
            } by {
                assert(drawn_since(r0, r1)[i] == Draw::Number { min: 0, max: MAX_CELL_FOOD, value: b1.field[i].food });
            }
            assert(v.creatures[5] == b3.creatures[5]);
            assert(v.creatures[6] == b4.creatures[6]);
            assert(v.creatures[7] == b5.creatures[7]);
        }

        proof {
            let v = board@;
            assert forall|id: int| 0 <= id < 9 implies {
                let (kind, x, y, life) = standard_creature(id);
                &&& v.living(id)
                &&& kind_of(#[trigger] v.creature(id)) == kind
                &&& location_of(v.creature(id)) == (Coordinates { x, y })
                &&& life_of(v.creature(id)) == life
            } by {
                assert(v.creatures.drop_last().drop_last().drop_last().drop_last().len() == 5);
            }
        }
        proof {
            crate::laws::law_standard_board_is_its_example_layout(board@, drawn_since(r0, *random));
        }
        board
    }

    /// Returns read-only data for every living creature in stable ID order.
    pub fn creature_snapshots(&self) -> (snapshots: Vec<CreatureSnapshot>)
        requires
            self@.wf(),
        ensures
            snapshots@.len() == self@.active.len(),
            forall|j: int| 0 <= j < snapshots@.len() ==> #[trigger] snapshots@[j] == self@.snapshot(self@.active[j]),
    {
        let mut snapshots = Vec::with_capacity(self.active_creatures.len());
        self.write_creature_snapshots(&mut snapshots);
        snapshots
    }

    /// Writes read-only data for every living creature into a reusable buffer.
    pub fn write_creature_snapshots(&self, snapshots: &mut Vec<CreatureSnapshot>)
        requires
            self@.wf(),
        ensures
            final(snapshots)@.len() == self@.active.len(),
            forall|j: int| 0 <= j < final(snapshots)@.len() ==> #[trigger] final(snapshots)@[j] == self@.snapshot(self@.active[j]),
    {
        snapshots.clear();
        snapshots.reserve(self.active_creatures.len());

        let count = self.active_creatures.len();
        for a in 0..count
            invariant
                self@.wf(),
                count == self@.active.len(),
                snapshots@.len() == a,
                forall|j: int| 0 <= j < a ==> #[trigger] snapshots@[j] == self@.snapshot(self@.active[j]),
        {
            let id = self.active_creatures[a];
            proof {
                assert(self@.creatures[self@.active[a as int] as int] is Some);
            }
            match &self.creatures[id] {
                Some(creature) => {
                    let kind = match creature.kind() {
                        CreatureKind::Aphid => CreatureSnapshotKind::Aphid,
                        CreatureKind::Ladybug => CreatureSnapshotKind::Ladybug,
                    };
                    snapshots.push(
                        CreatureSnapshot {
                            id,
                            kind,
                            location: creature.location(),
                            cell_slot: self.cell_slots[id],
                        },
                    );
                },
                None => {},
            }
        }
    }

    /// Sets one cell's food while preserving the cached food total.
    ///
    /// This is a way to set up a board by hand, as tests do: it takes any food
    /// that the total can hold, above the cap too, which no turn or
    /// constructor ever gives a cell.
    pub fn set_cell_food(&mut self, coordinates: Coordinates, food: i32)
        requires
            old(self)@.wf(),
            old(self)@.in_bounds(coordinates),
            0 <= food,
            MAX_CELL_FOOD * old(self)@.field.len() + excess(old(self)@.field) - over_cap(
                old(self)@.field[old(self)@.index_of(coordinates)].food,
            ) + over_cap(food) <= i32::MAX,
        ensures
            final(self)@.wf(),
            final(self)@ == (BoardView {
                field: old(self)@.field.update(
                    old(self)@.index_of(coordinates),
                    CellView { food, ..old(self)@.field[old(self)@.index_of(coordinates)] },
                ),
                summary: BoardSummary { food: final(self)@.summary.food, ..old(self)@.summary },
                ..old(self)@
            }),
    {
        let ghost v0 = self@;
        let index = self.index(coordinates);
        proof {
            let i = index as int;
            assert(v0.field[i] == self.field@[i]@);
            let new_cell = CellView { food, ..v0.field[i] };
            lemma_food_update(v0.field, i, new_cell);
            let updated = v0.field.update(i, new_cell);
            assert forall|j: int| 0 <= j < updated.len() implies 0 <= #[trigger] updated[j].food by {
                assert(v0.food_in_range());
            }
            lemma_food_bounds(updated);
        }
        self.summary.food = self.summary.food + (food - self.field[index].food);
        self.field[index].food = food;
        proof {
            let v = self@;
            let i = index as int;
            let new_cell = CellView { food, ..v0.field[i] };
            assert(v.field =~= v0.field.update(i, new_cell));
            assert forall|j: int| 0 <= j < v.field.len() implies 0 <= #[trigger] v.field[j].food by {
                assert(v0.food_in_range());
                if j != i {
                    assert(v.field[j] == v0.field[j]);
                }
            }
            assert forall|j: int, k: CreatureKind, s: int|
                0 <= j < v.field.len() && 0 <= s < v.occupants(j, k).len() implies {
                    let e = #[trigger] v.occupants(j, k)[s];
                    v.sits_at(e, j, s, k) && !Set::<usize>::empty().contains(e)
                } by {
                if j != i {
                    assert(v.field[j] == v0.field[j]);
                }
                assert(v.occupants(j, k) == v0.occupants(j, k));
                assert(v0.occupants(j, k)[s] == v.occupants(j, k)[s]);
            }
            assert forall|c: int|
                0 <= c < v.creatures.len() && (#[trigger] v.creatures[c]) is Some
                    && !Set::<usize>::empty().contains(c as usize) implies v.placed(c)
                && life_of(v.creature(c)) > i32::MIN by {
                assert(v0.placed(c));
                let cr = v0.creature(c);
                lemma_index_in_field(v0.rows as int, v0.cols as int, location_of(cr).x as int, location_of(cr).y as int);
                let j = v0.index_of(location_of(cr));
                if j != i {
                    assert(v.field[j] == v0.field[j]);
                }
                assert(v.occupants(j, kind_of(cr)) == v0.occupants(j, kind_of(cr)));
            }
            assert forall|c: int|
                0 <= c < v.creatures.len() && (#[trigger] v.creatures[c]) is Some implies v.active.contains(
                c as usize) by {
                assert(v0.creatures[c] is Some);
            }
            assert forall|a: int| 0 <= a < v.active.len() implies #[trigger] v.creatures[v.active[a] as int] is Some by {
                assert(v0.creatures[v0.active[a] as int] is Some);
            }
        }
    }

    /// Returns how many creature IDs have been handed out, living or dead.
    pub fn issued_ids(&self) -> (count: usize)
        ensures
            count == self@.creatures.len(),
    {
        self.creatures.len()
    }

    /// Returns the IDs of the living creatures in creation order.
    pub fn active_creatures(&self) -> (ids: Vec<usize>)
        ensures
            ids@ == self@.active,
    {
        let ids = self.active_creatures.clone();
        proof {
            assert(ids@ =~= self@.active);
        }
        ids
    }

    /// Returns a creature's index in its cell's list of its kind, for any ID
    /// that has been handed out.
    pub fn cell_slot(&self, id: usize) -> (slot: Option<usize>)
        requires
            self@.wf(),
        ensures
            slot == if id < self@.creatures.len() {
                Some(self@.cell_slots[id as int])
            } else {
                None
            },
    {
        if id < self.cell_slots.len() {
            Some(self.cell_slots[id])
        } else {
            None
        }
    }

    /// Returns the IDs of the creatures of `kind` in a cell, in slot order.
    pub fn occupants(&self, x: usize, y: usize, kind: CreatureKind) -> (ids: Option<Vec<usize>>)
        requires
            self@.wf(),
        ensures
            ids is None <==> !self@.in_bounds(Coordinates { x, y }),
            ids matches Some(ids) ==> ids@ == self@.occupants_at(Coordinates { x, y }, kind),
    {
        let coordinates = Coordinates { x, y };
        if !self.in_bounds(coordinates) {
            return None;
        }
        let index = self.index(coordinates);
        let ids = match kind {
            CreatureKind::Aphid => self.field[index].aphids.clone(),
            CreatureKind::Ladybug => self.field[index].ladybugs.clone(),
        };
        proof {
            assert(self@.field[index as int] == self.field@[index as int]@);
            assert(ids@ =~= self@.occupants(index as int, kind));
        }
        Some(ids)
    }

    /// Returns the living creature with ID `id`, if there is one.
    pub fn creature(&self, id: usize) -> (creature: Option<Creature>)
        ensures
            creature == if self@.living(id as int) {
                Some(self@.creature(id as int))
            } else {
                None
            },
    {
        if id < self.creatures.len() {
            self.creatures[id]
        } else {
            None
        }
    }
}


/// A copy of a vector of plain values.
fn copy_vec<T: Copy>(items: &Vec<T>) -> (copy: Vec<T>)
    ensures
        copy@ == items@,
{
    let mut copy: Vec<T> = Vec::new();
    let mut k: usize = 0;
    while k < items.len()
        invariant
            k <= items@.len(),
            copy@ == items@.subrange(0, k as int),
        decreases items@.len() - k,
    {
        copy.push(items[k]);
        k = k + 1;
        proof {
            assert(copy@ =~= items@.subrange(0, k as int));
        }
    }
    proof {
        assert(items@.subrange(0, items@.len() as int) =~= items@);
    }
    copy
}

impl Location {
    /// A copy of this cell.
    pub fn duplicate(&self) -> (copy: Location)
        ensures
            copy@ == self@,
    {
        Location { aphids: copy_vec(&self.aphids), ladybugs: copy_vec(&self.ladybugs), food: self.food }
    }
}

impl Board {
    /// An exact copy of the board: cells, creatures, slots, marks and totals.
    pub fn duplicate(&self) -> (copy: Board)
        ensures
            copy@ == self@,
    {
        let mut field: Vec<Location> = Vec::new();
        let mut k: usize = 0;
        while k < self.field.len()
            invariant
                k <= self.field@.len(),
                field@.len() == k,
                forall|j: int| 0 <= j < k ==> (#[trigger] field@[j])@ == self.field@[j]@,
            decreases self.field@.len() - k,
        {
            field.push(self.field[k].duplicate());
            k = k + 1;
        }
        let copy = Board {
            rows: self.rows,
            cols: self.cols,
            field,
            creatures: copy_vec(&self.creatures),
            cell_slots: copy_vec(&self.cell_slots),
            active_creatures: copy_vec(&self.active_creatures),
            death_marks: copy_vec(&self.death_marks),
            death_mark_epoch: self.death_mark_epoch,
            summary: self.summary,
        };
        proof {
            assert(copy.field@.map_values(|location: Location| location@) =~= self.field@.map_values(
                |location: Location| location@,
            ));
        }
        copy
    }
}

} // verus!
