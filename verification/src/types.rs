//! Plain values shared by the board, its snapshots and its reports.

use vstd::prelude::*;

verus! {

/// Zero-based board coordinate: `x` is the row and `y` is the column.
#[derive(Clone, Copy, Debug, PartialEq, Eq, Hash, Structural)]
pub struct Coordinates {
    pub x: usize,
    pub y: usize,
}

/// One-step movement direction.
#[derive(Clone, Copy, Debug, PartialEq, Eq, Structural)]
pub enum Direction {
    /// No movement this turn.
    Same,
    NorthWest,
    North,
    NorthEast,
    West,
    East,
    SouthWest,
    South,
    SouthEast,
}

/// Creature discriminator used when a full creature value is not needed.
#[derive(Clone, Copy, Debug, PartialEq, Eq, Structural)]
pub enum CreatureKind {
    Aphid,
    Ladybug,
}

/// Current board totals for human-readable summaries.
#[derive(Clone, Copy, Debug, PartialEq, Eq, Structural)]
pub struct BoardSummary {
    /// Number of living aphids.
    pub aphids: usize,
    /// Number of living ladybugs.
    pub ladybugs: usize,
    /// Sum of food across all cells.
    pub food: i32,
}

impl Default for BoardSummary {
    fn default() -> (summary: Self)
        ensures
            summary == (BoardSummary { aphids: 0, ladybugs: 0, food: 0 }),
    {
        BoardSummary { aphids: 0, ladybugs: 0, food: 0 }
    }
}

impl BoardSummary {
    /// Returns whether no living creatures remain.
    pub fn is_extinct(&self) -> (extinct: bool)
        ensures
            extinct == (self.aphids == 0 && self.ladybugs == 0),
    {
        self.aphids == 0 && self.ladybugs == 0
    }
}

/// Read-only cell data for rendering or reporting board state.
#[derive(Clone, Copy, Debug, PartialEq, Eq, Structural)]
pub struct CellSnapshot {
    /// Aphids currently occupying this cell.
    pub aphids: usize,
    /// Ladybugs currently occupying this cell.
    pub ladybugs: usize,
    /// Food available in this cell.
    pub food: i32,
}

/// Public creature discriminator for read-only board snapshots.
#[derive(Clone, Copy, Debug, PartialEq, Eq, Structural)]
pub enum CreatureSnapshotKind {
    /// Aphid creature.
    Aphid,
    /// Ladybug creature.
    Ladybug,
}

/// Read-only living creature data for renderers.
#[derive(Clone, Copy, Debug, PartialEq, Eq, Structural)]
pub struct CreatureSnapshot {
    /// Stable creature ID.
    pub id: usize,
    /// Creature kind.
    pub kind: CreatureSnapshotKind,
    /// Current board coordinate.
    pub location: Coordinates,
    /// Index inside the creature's same-kind occupant list for its current cell.
    pub cell_slot: usize,
}

/// Changes and totals produced by one completed turn.
#[derive(Clone, Copy, Debug, PartialEq, Eq, Structural)]
pub struct TurnStats {
    /// Creatures born during this turn.
    pub births: usize,
    /// Creatures killed by combat or starvation during this turn.
    pub deaths: usize,
    /// Board totals after all turn phases finish.
    pub summary: BoardSummary,
}

impl Default for TurnStats {
    fn default() -> (stats: Self)
        ensures
            stats == (TurnStats {
                births: 0,
                deaths: 0,
                summary: BoardSummary { aphids: 0, ladybugs: 0, food: 0 },
            }),
    {
        TurnStats { births: 0, deaths: 0, summary: BoardSummary::default() }
    }
}

/// The snapshot kind that stands for a creature kind.
pub open spec fn snapshot_kind(kind: CreatureKind) -> CreatureSnapshotKind {
    match kind {
        CreatureKind::Aphid => CreatureSnapshotKind::Aphid,
        CreatureKind::Ladybug => CreatureSnapshotKind::Ladybug,
    }
}

} // verus!
