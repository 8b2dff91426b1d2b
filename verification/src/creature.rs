//! Creature values: what each aphid and ladybug carries from turn to turn.

use crate::random::{last_number, Draw, Random};
use crate::types::{Coordinates, CreatureKind, Direction};
use vstd::prelude::*;

verus! {

/// Aphid state.
#[derive(Clone, Copy, Debug)]
pub struct Aphid {
    /// Current board coordinate.
    pub location: Coordinates,
    /// Remaining life. The aphid dies when this drops below one.
    pub life: i32,
}

/// Ladybug state.
#[derive(Clone, Copy, Debug)]
pub struct Ladybug {
    /// Current board coordinate.
    pub location: Coordinates,
    /// Remaining life. The ladybug dies when this drops below one.
    pub life: i32,
    /// Three directions currently favored by movement.
    pub preferred_directions: [Direction; 3],
}

/// The four direction bands a ladybug can favor, by the number that picks them.
pub open spec fn direction_band(pick: int) -> [Direction; 3] {
    if pick == 0 {
        [Direction::NorthWest, Direction::North, Direction::NorthEast]
    } else if pick == 1 {
        [Direction::SouthWest, Direction::West, Direction::NorthWest]
    } else if pick == 2 {
        [Direction::NorthEast, Direction::East, Direction::SouthEast]
    } else {
        [Direction::SouthEast, Direction::South, Direction::SouthWest]
    }
}

/// Whether a direction set is one of the four bands.
pub open spec fn is_direction_band(directions: [Direction; 3]) -> bool {
    exists|pick: int| 0 <= pick <= 3 && directions == #[trigger] direction_band(pick)
}

impl Ladybug {
    /// Creates a ladybug with a random initial preferred direction set.
    pub fn new(location: Coordinates, life: i32, random: &mut Random) -> (ladybug: Self)
        ensures
            ladybug.location == location,
            ladybug.life == life,
            is_direction_band(ladybug.preferred_directions),
            final(random).draws() == old(random).draws().push(
                Draw::Number { min: 0, max: 3, value: last_number(*final(random)) },
            ),
            ladybug.preferred_directions == direction_band(last_number(*final(random)) as int),
    {
        let mut ladybug = Ladybug {
            location,
            life,
            preferred_directions: [Direction::North, Direction::East, Direction::South],
        };
        ladybug.change_direction(random);
        ladybug
    }

    /// Picks one of the four cardinal direction bands used for ladybug movement.
    pub fn change_direction(&mut self, random: &mut Random)
        ensures
            final(self).location == old(self).location,
            final(self).life == old(self).life,
            is_direction_band(final(self).preferred_directions),
            final(random).draws() == old(random).draws().push(
                Draw::Number { min: 0, max: 3, value: last_number(*final(random)) },
            ),
            final(self).preferred_directions == direction_band(last_number(*final(random)) as int),
    {
        let pick = random.draw(0, 3);
        self.preferred_directions = match pick {
            0 => [Direction::NorthWest, Direction::North, Direction::NorthEast],
            1 => [Direction::SouthWest, Direction::West, Direction::NorthWest],
            2 => [Direction::NorthEast, Direction::East, Direction::SouthEast],
            _ => [Direction::SouthEast, Direction::South, Direction::SouthWest],
        };
        assert(self.preferred_directions == direction_band(pick as int));
    }
}

/// Stored creature value.
///
/// The board stores `Option<Creature>` so IDs stay stable after deaths. A dead
/// creature becomes `None` instead of shifting every later ID.
#[derive(Clone, Copy, Debug)]
pub enum Creature {
    Aphid(Aphid),
    Ladybug(Ladybug),
}

/// The kind of a creature.
pub open spec fn kind_of(creature: Creature) -> CreatureKind {
    match creature {
        Creature::Aphid(_) => CreatureKind::Aphid,
        Creature::Ladybug(_) => CreatureKind::Ladybug,
    }
}

/// Where a creature stands.
pub open spec fn location_of(creature: Creature) -> Coordinates {
    match creature {
        Creature::Aphid(aphid) => aphid.location,
        Creature::Ladybug(ladybug) => ladybug.location,
    }
}

/// How much life a creature has left.
pub open spec fn life_of(creature: Creature) -> i32 {
    match creature {
        Creature::Aphid(aphid) => aphid.life,
        Creature::Ladybug(ladybug) => ladybug.life,
    }
}

/// A creature moved to `location`, all else kept.
pub open spec fn moved_to(creature: Creature, location: Coordinates) -> Creature {
    match creature {
        Creature::Aphid(aphid) => Creature::Aphid(Aphid { location, ..aphid }),
        Creature::Ladybug(ladybug) => Creature::Ladybug(Ladybug { location, ..ladybug }),
    }
}

/// A creature with `life` left, all else kept.
pub open spec fn with_life(creature: Creature, life: i32) -> Creature {
    match creature {
        Creature::Aphid(aphid) => Creature::Aphid(Aphid { life, ..aphid }),
        Creature::Ladybug(ladybug) => Creature::Ladybug(Ladybug { life, ..ladybug }),
    }
}

impl Creature {
    /// Returns the creature kind without exposing variant internals.
    pub fn kind(&self) -> (kind: CreatureKind)
        ensures
            kind == kind_of(*self),
    {
        match self {
            Creature::Aphid(_) => CreatureKind::Aphid,
            Creature::Ladybug(_) => CreatureKind::Ladybug,
        }
    }

    /// Returns the current board coordinate.
    pub fn location(&self) -> (location: Coordinates)
        ensures
            location == location_of(*self),
    {
        match self {
            Creature::Aphid(aphid) => aphid.location,
            Creature::Ladybug(ladybug) => ladybug.location,
        }
    }

    /// Updates the creature coordinate after movement.
    pub fn set_location(&mut self, location: Coordinates)
        ensures
            *final(self) == moved_to(*old(self), location),
    {
        match self {
            Creature::Aphid(aphid) => aphid.location = location,
            Creature::Ladybug(ladybug) => ladybug.location = location,
        }
    }
}

} // verus!
