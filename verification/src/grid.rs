//! Grid cells, headings and the arena they live in.

use vstd::prelude::*;

verus! {

/// Number of columns of the arena.
pub const ARENA_WIDTH: u32 = 100;

/// Number of rows of the arena.
pub const ARENA_HEIGHT: u32 = 100;

/// A heading on the grid.
#[derive(Clone, Copy, Debug, PartialEq, Eq, Hash, Structural)]
pub enum Direction {
    Left,
    Up,
    Right,
    Down,
}

impl Direction {
    /// The heading that points the other way.
    pub open spec fn spec_opposite(self) -> Direction {
        match self {
            Direction::Left => Direction::Right,
            Direction::Right => Direction::Left,
            Direction::Up => Direction::Down,
            Direction::Down => Direction::Up,
        }
    }

    /// Change of the column when taking one step along this heading.
    pub open spec fn dx(self) -> int {
        match self {
            Direction::Left => -1,
            Direction::Right => 1,
            Direction::Up => 0,
            Direction::Down => 0,
        }
    }

    /// Change of the row when taking one step along this heading.
    pub open spec fn dy(self) -> int {
        match self {
            Direction::Left => 0,
            Direction::Right => 0,
            Direction::Up => 1,
            Direction::Down => -1,
        }
    }

    /// Returns the heading that points the other way.
    #[verifier::when_used_as_spec(spec_opposite)]
    pub fn opposite(self) -> (res: Direction)
        ensures
            res == self.spec_opposite(),
    {
        match self {
            Direction::Left => Direction::Right,
            Direction::Right => Direction::Left,
            Direction::Up => Direction::Down,
            Direction::Down => Direction::Up,
        }
    }
}

/// Turning round twice gives the heading one started with, and no heading is
/// its own opposite.
pub proof fn lemma_opposite_involution(d: Direction)
    ensures
        d.spec_opposite().spec_opposite() == d,
        d.spec_opposite() != d,
{
}

/// A cell of the grid. Cells outside the arena can be represented; the arena
/// test tells them apart.
#[derive(Clone, Copy, Debug, PartialEq, Eq, Hash, Structural)]
pub struct Position {
    pub x: i32,
    pub y: i32,
}

impl Default for Position {
    fn default() -> (res: Position)
        ensures
            res.x == 0,
            res.y == 0,
    {
        Position { x: 0, y: 0 }
    }
}

impl Position {
    /// Whether the cell lies inside the arena.
    pub open spec fn spec_in_arena(self) -> bool {
        0 <= self.x < ARENA_WIDTH && 0 <= self.y < ARENA_HEIGHT
    }

    /// Whether one step along `d` stays within what the coordinates can hold.
    pub open spec fn can_step(self, d: Direction) -> bool {
        &&& i32::MIN <= self.x + d.dx() <= i32::MAX
        &&& i32::MIN <= self.y + d.dy() <= i32::MAX
    }

    /// The neighbouring cell along `d`.
    pub open spec fn stepped(self, d: Direction) -> Position {
        Position { x: (self.x + d.dx()) as i32, y: (self.y + d.dy()) as i32 }
    }

    /// Tells whether the cell lies inside the arena.
    #[verifier::when_used_as_spec(spec_in_arena)]
    pub fn in_arena(self) -> (res: bool)
        ensures
            res == self.spec_in_arena(),
    {
        self.x >= 0 && self.y >= 0 && (self.x as u32) < ARENA_WIDTH && (self.y as u32) < ARENA_HEIGHT
    }

    /// Tells whether `step` may be called with `d`.
    pub fn steppable(self, d: Direction) -> (res: bool)
        ensures
            res == self.can_step(d),
    {
        match d {
            Direction::Left => self.x > i32::MIN,
            Direction::Right => self.x < i32::MAX,
            Direction::Up => self.y < i32::MAX,
            Direction::Down => self.y > i32::MIN,
        }
    }

    /// Moves one cell along `d`: left and right change the column, up raises
    /// the row and down lowers it.
    pub fn step(self, d: Direction) -> (res: Position)
        requires
            self.can_step(d),
        ensures
            res == self.stepped(d),
            res.x == self.x + d.dx(),
            res.y == self.y + d.dy(),
    {
        match d {
            Direction::Left => Position { x: self.x - 1, y: self.y },
            Direction::Right => Position { x: self.x + 1, y: self.y },
            Direction::Up => Position { x: self.x, y: self.y + 1 },
            Direction::Down => Position { x: self.x, y: self.y - 1 },
        }
    }
}

/// A step forward followed by a step along the opposite heading leads back.
pub proof fn lemma_step_back(p: Position, d: Direction)
    requires
        p.can_step(d),
    ensures
        p.stepped(d).can_step(d.spec_opposite()),
        p.stepped(d).stepped(d.spec_opposite()) == p,
        p.stepped(d) != p,
{
}

} // verus!
