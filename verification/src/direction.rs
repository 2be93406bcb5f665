use vstd::prelude::*;

verus! {

/// One of the eight compass directions used by slide and wipe animations.
#[derive(Debug, Clone, Copy, PartialEq, Eq, Structural)]
pub enum Direction {
    Left,
    Right,
    Top,
    Bottom,
    TopLeft,
    TopRight,
    BottomLeft,
    BottomRight,
}

/// The direction pointing the other way.
pub open spec fn opposite_of(d: Direction) -> Direction {
    match d {
        Direction::Left => Direction::Right,
        Direction::Right => Direction::Left,
        Direction::Top => Direction::Bottom,
        Direction::Bottom => Direction::Top,
        Direction::TopLeft => Direction::BottomRight,
        Direction::TopRight => Direction::BottomLeft,
        Direction::BottomLeft => Direction::TopRight,
        Direction::BottomRight => Direction::TopLeft,
    }
}

impl Direction {
    /// Returns the direction pointing the other way.
    pub fn opposite(&self) -> (res: Self)
        ensures
            res == opposite_of(*self),
    {
        match self {
            Self::Left => Self::Right,
            Self::Right => Self::Left,
            Self::Top => Self::Bottom,
            Self::Bottom => Self::Top,
            Self::TopLeft => Self::BottomRight,
            Self::TopRight => Self::BottomLeft,
            Self::BottomLeft => Self::TopRight,
            Self::BottomRight => Self::TopLeft,
        }
    }
}

/// Turning around twice faces the original way again, and no direction is
/// its own opposite.
pub proof fn lemma_opposite_involution(d: Direction)
    ensures
        opposite_of(opposite_of(d)) == d,
        opposite_of(d) != d,
{
}

} // verus!
