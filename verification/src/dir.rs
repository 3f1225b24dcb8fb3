//! The eight-way compass direction model.
//!
//! Directions carry a bit encoding: north = 1, south = 2, east = 4, west = 8,
//! and each diagonal is the bitwise OR of its two cardinals. All geometric
//! transforms are total over the eight values.

use vstd::prelude::*;

verus! {

/// The two-dimensional facing subset of the engine's direction type.
#[derive(Debug, Clone, Copy, Eq, PartialEq, Hash, Default, Structural)]
pub enum Dir {
    North,
    #[default]
    South,
    East,
    West,
    Northeast,
    Northwest,
    Southeast,
    Southwest,
}

/// The bit encoding of a direction.
pub open spec fn spec_to_int(d: Dir) -> i32 {
    match d {
        Dir::North => 1,
        Dir::South => 2,
        Dir::East => 4,
        Dir::West => 8,
        Dir::Northeast => 5,
        Dir::Northwest => 9,
        Dir::Southeast => 6,
        Dir::Southwest => 10,
    }
}

/// The direction a bit encoding stands for, if any.
pub open spec fn spec_from_int(value: i32) -> Option<Dir> {
    match value {
        1 => Some(Dir::North),
        2 => Some(Dir::South),
        4 => Some(Dir::East),
        8 => Some(Dir::West),
        5 => Some(Dir::Northeast),
        9 => Some(Dir::Northwest),
        6 => Some(Dir::Southeast),
        10 => Some(Dir::Southwest),
        _ => None,
    }
}

/// The opposite direction: both axes reversed.
pub open spec fn spec_flip(d: Dir) -> Dir {
    match d {
        Dir::North => Dir::South,
        Dir::South => Dir::North,
        Dir::East => Dir::West,
        Dir::West => Dir::East,
        Dir::Northeast => Dir::Southwest,
        Dir::Northwest => Dir::Southeast,
        Dir::Southeast => Dir::Northwest,
        Dir::Southwest => Dir::Northeast,
    }
}

/// North and south reversed, east and west kept.
pub open spec fn spec_flip_ns(d: Dir) -> Dir {
    match d {
        Dir::North => Dir::South,
        Dir::South => Dir::North,
        Dir::East => Dir::East,
        Dir::West => Dir::West,
        Dir::Northeast => Dir::Southeast,
        Dir::Northwest => Dir::Southwest,
        Dir::Southeast => Dir::Northeast,
        Dir::Southwest => Dir::Northwest,
    }
}

/// East and west reversed, north and south kept.
pub open spec fn spec_flip_ew(d: Dir) -> Dir {
    match d {
        Dir::North => Dir::North,
        Dir::South => Dir::South,
        Dir::East => Dir::West,
        Dir::West => Dir::East,
        Dir::Northeast => Dir::Northwest,
        Dir::Northwest => Dir::Northeast,
        Dir::Southeast => Dir::Southwest,
        Dir::Southwest => Dir::Southeast,
    }
}

/// One eighth of a turn clockwise.
pub open spec fn spec_clockwise_45(d: Dir) -> Dir {
    match d {
        Dir::North => Dir::Northeast,
        Dir::Northeast => Dir::East,
        Dir::East => Dir::Southeast,
        Dir::Southeast => Dir::South,
        Dir::South => Dir::Southwest,
        Dir::Southwest => Dir::West,
        Dir::West => Dir::Northwest,
        Dir::Northwest => Dir::North,
    }
}

/// One eighth of a turn counterclockwise.
pub open spec fn spec_counterclockwise_45(d: Dir) -> Dir {
    match d {
        Dir::North => Dir::Northwest,
        Dir::Northeast => Dir::North,
        Dir::East => Dir::Northeast,
        Dir::Southeast => Dir::East,
        Dir::South => Dir::Southeast,
        Dir::Southwest => Dir::South,
        Dir::West => Dir::Southwest,
        Dir::Northwest => Dir::West,
    }
}

/// A quarter turn clockwise.
pub open spec fn spec_clockwise_90(d: Dir) -> Dir {
    match d {
        Dir::North => Dir::East,
        Dir::South => Dir::West,
        Dir::East => Dir::South,
        Dir::West => Dir::North,
        Dir::Northeast => Dir::Southeast,
        Dir::Northwest => Dir::Northeast,
        Dir::Southeast => Dir::Southwest,
        Dir::Southwest => Dir::Northwest,
    }
}

/// A quarter turn counterclockwise.
pub open spec fn spec_counterclockwise_90(d: Dir) -> Dir {
    match d {
        Dir::North => Dir::West,
        Dir::South => Dir::East,
        Dir::East => Dir::North,
        Dir::West => Dir::South,
        Dir::Southeast => Dir::Northeast,
        Dir::Northeast => Dir::Northwest,
        Dir::Southwest => Dir::Southeast,
        Dir::Northwest => Dir::Southwest,
    }
}

/// The unit step a direction takes in the engine's coordinate system,
/// where y grows northward.
pub open spec fn spec_offset(d: Dir) -> (i32, i32) {
    match d {
        Dir::North => (0i32, 1i32),
        Dir::South => (0i32, -1i32),
        Dir::East => (1i32, 0i32),
        Dir::West => (-1i32, 0i32),
        Dir::Northeast => (1i32, 1i32),
        Dir::Northwest => (-1i32, 1i32),
        Dir::Southeast => (1i32, -1i32),
        Dir::Southwest => (-1i32, -1i32),
    }
}

impl Dir {
    /// Attempt to build a direction from its integer representation.
    pub fn from_int(value: i32) -> (r: Option<Dir>)
        ensures
            r == spec_from_int(value),
    {
        match value {
            1 => Some(Dir::North),
            2 => Some(Dir::South),
            4 => Some(Dir::East),
            8 => Some(Dir::West),
            5 => Some(Dir::Northeast),
            9 => Some(Dir::Northwest),
            6 => Some(Dir::Southeast),
            10 => Some(Dir::Southwest),
            _ => None,
        }
    }

    /// Get this direction's integer representation.
    pub fn to_int(self) -> (r: i32)
        ensures
            r == spec_to_int(self),
    {
        match self {
            Dir::North => 1,
            Dir::South => 2,
            Dir::East => 4,
            Dir::West => 8,
            Dir::Northeast => 5,
            Dir::Northwest => 9,
            Dir::Southeast => 6,
            Dir::Southwest => 10,
        }
    }

    /// Whether the bit encodings overlap: true exactly when the two
    /// directions share a cardinal component.
    pub fn contains(self, other: Dir) -> (r: bool)
        ensures
            r == (spec_to_int(self) & spec_to_int(other) != 0),
    {
        self.to_int() & other.to_int() != 0
    }

    /// Whether this direction is one of the four diagonals.
    pub fn is_diagonal(self) -> (r: bool)
        ensures
            r == !matches!(self, Dir::North | Dir::South | Dir::East | Dir::West),
    {
        !matches!(self, Dir::North | Dir::South | Dir::East | Dir::West)
    }

    pub fn flip(self) -> (r: Dir)
        ensures
            r == spec_flip(self),
    {
        match self {
            Dir::North => Dir::South,
            Dir::South => Dir::North,
            Dir::East => Dir::West,
            Dir::West => Dir::East,
            Dir::Northeast => Dir::Southwest,
            Dir::Northwest => Dir::Southeast,
            Dir::Southeast => Dir::Northwest,
            Dir::Southwest => Dir::Northeast,
        }
    }

    pub fn flip_ns(self) -> (r: Dir)
        ensures
            r == spec_flip_ns(self),
    {
        match self {
            Dir::North => Dir::South,
            Dir::South => Dir::North,
            Dir::East => Dir::East,
            Dir::West => Dir::West,
            Dir::Northeast => Dir::Southeast,
            Dir::Northwest => Dir::Southwest,
            Dir::Southeast => Dir::Northeast,
            Dir::Southwest => Dir::Northwest,
        }
    }

    pub fn flip_ew(self) -> (r: Dir)
        ensures
            r == spec_flip_ew(self),
    {
        match self {
            Dir::North => Dir::North,
            Dir::South => Dir::South,
            Dir::East => Dir::West,
            Dir::West => Dir::East,
            Dir::Northeast => Dir::Northwest,
            Dir::Northwest => Dir::Northeast,
            Dir::Southeast => Dir::Southwest,
            Dir::Southwest => Dir::Southeast,
        }
    }

    pub fn clockwise_45(self) -> (r: Dir)
        ensures
            r == spec_clockwise_45(self),
    {
        match self {
            Dir::North => Dir::Northeast,
            Dir::Northeast => Dir::East,
            Dir::East => Dir::Southeast,
            Dir::Southeast => Dir::South,
            Dir::South => Dir::Southwest,
            Dir::Southwest => Dir::West,
            Dir::West => Dir::Northwest,
            Dir::Northwest => Dir::North,
        }
    }

    pub fn counterclockwise_45(self) -> (r: Dir)
        ensures
            r == spec_counterclockwise_45(self),
    {
        match self {
            Dir::North => Dir::Northwest,
            Dir::Northeast => Dir::North,
            Dir::East => Dir::Northeast,
            Dir::Southeast => Dir::East,
            Dir::South => Dir::Southeast,
            Dir::Southwest => Dir::South,
            Dir::West => Dir::Southwest,
            Dir::Northwest => Dir::West,
        }
    }

    pub fn clockwise_90(self) -> (r: Dir)
        ensures
            r == spec_clockwise_90(self),
    {
        match self {
            Dir::North => Dir::East,
            Dir::South => Dir::West,
            Dir::East => Dir::South,
            Dir::West => Dir::North,
            Dir::Northeast => Dir::Southeast,
            Dir::Northwest => Dir::Northeast,
            Dir::Southeast => Dir::Southwest,
            Dir::Southwest => Dir::Northwest,
        }
    }

    pub fn counterclockwise_90(self) -> (r: Dir)
        ensures
            r == spec_counterclockwise_90(self),
    {
        match self {
            Dir::North => Dir::West,
            Dir::South => Dir::East,
            Dir::East => Dir::North,
            Dir::West => Dir::South,
            Dir::Southeast => Dir::Northeast,
            Dir::Northeast => Dir::Northwest,
            Dir::Southwest => Dir::Southeast,
            Dir::Northwest => Dir::Southwest,
        }
    }

    /// Get this direction's offset in the engine's coordinate system.
    pub fn offset(self) -> (r: (i32, i32))
        ensures
            r == spec_offset(self),
    {
        match self {
            Dir::North => (0, 1),
            Dir::South => (0, -1),
            Dir::East => (1, 0),
            Dir::West => (-1, 0),
            Dir::Northeast => (1, 1),
            Dir::Northwest => (-1, 1),
            Dir::Southeast => (1, -1),
            Dir::Southwest => (-1, -1),
        }
    }
}

/// Flipping a direction twice returns the original direction.
pub proof fn lemma_flip_involution(d: Dir)
    ensures
        spec_flip(spec_flip(d)) == d,
{
}

/// The quarter turns are inverses: either one undone by the other returns
/// the original direction.
pub proof fn lemma_quarter_turn_round_trip(d: Dir)
    ensures
        spec_clockwise_90(spec_counterclockwise_90(d)) == d,
        spec_counterclockwise_90(spec_clockwise_90(d)) == d,
{
}

/// Eight eighth turns in the same sense return the original direction.
pub proof fn lemma_full_turn_by_eighths(d: Dir)
    ensures
        spec_clockwise_45(spec_clockwise_45(spec_clockwise_45(spec_clockwise_45(
            spec_clockwise_45(spec_clockwise_45(spec_clockwise_45(spec_clockwise_45(d)))),
        )))) == d,
{
}

} // verus!
