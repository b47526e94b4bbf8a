//! The snake: a head with a heading and the chain of segments that trails it.

use vstd::prelude::*;
use crate::events::Events;
use crate::grid::{Direction, Position};

verus! {

/// What marks the head of the snake: the heading it moves along.
#[derive(Clone, Copy, Debug, PartialEq, Eq, Structural)]
pub struct PlayerHead {
    pub direction: Direction,
}

/// Tag of a cell that belongs to the snake's body.
#[derive(Clone, Copy, Debug, PartialEq, Eq, Structural)]
pub struct PlayerSegment;

/// Raised when the snake is to grow.
#[derive(Clone, Copy, Debug, PartialEq, Eq, Structural)]
pub struct GrowthEvent;

/// Raised when the head runs into the body or leaves the arena.
#[derive(Clone, Copy, Debug, PartialEq, Eq, Structural)]
pub struct GameOverEvent;

/// The cell that the tail left on its last move, if any was recorded.
#[derive(Clone, Copy, Debug, PartialEq, Eq, Structural)]
pub struct LastTailPosition(pub Option<Position>);

/// The arrow keys that are held down.
#[derive(Clone, Copy, Debug, PartialEq, Eq, Structural)]
pub struct ArrowKeys {
    pub left: bool,
    pub down: bool,
    pub up: bool,
    pub right: bool,
}

/// A snake on the grid. `segments` lists the body from the cell right behind
/// the head to the tail.
#[derive(Clone, Debug)]
pub struct Snake {
    pub head: Position,
    pub heading: PlayerHead,
    pub segments: Vec<Position>,
}

/// The cell where a fresh head is placed.
pub open spec fn spawn_head() -> Position {
    Position { x: 3, y: 3 }
}

/// The cell where the one segment of a fresh snake is placed.
pub open spec fn spawn_tail() -> Position {
    Position { x: 3, y: 2 }
}

/// The heading that the held keys ask for: the first held one of left, down,
/// up, right, or the current heading when none is held.
pub open spec fn wanted(current: Direction, keys: ArrowKeys) -> Direction {
    if keys.left {
        Direction::Left
    } else if keys.down {
        Direction::Down
    } else if keys.up {
        Direction::Up
    } else if keys.right {
        Direction::Right
    } else {
        current
    }
}

/// The heading after the keys were looked at: the wanted one, unless it is
/// the exact reverse of the current heading.
pub open spec fn steered(current: Direction, keys: ArrowKeys) -> Direction {
    if wanted(current, keys) != current.spec_opposite() {
        wanted(current, keys)
    } else {
        current
    }
}

/// The body after one move: every segment takes the cell that the one before
/// it held, and the first takes the cell that the head held.
pub open spec fn followed(head: Position, segments: Seq<Position>) -> Seq<Position> {
    Seq::new(
        segments.len(),
        |i: int|
            if i == 0 {
                head
            } else {
                segments[i - 1]
            },
    )
}

/// `n` game-over events.
pub open spec fn alarms(n: nat) -> Seq<GameOverEvent> {
    Seq::new(n, |i: int| GameOverEvent)
}

impl Snake {
    /// The cell that the head moves to next.
    pub open spec fn target(&self) -> Position {
        self.head.stepped(self.heading.direction)
    }

    /// Whether the next move takes the head onto a cell that a segment holds
    /// before the move.
    pub open spec fn hits_body(&self) -> bool {
        self.segments@.contains(self.target())
    }

    /// Whether the next move takes the head out of the arena.
    pub open spec fn leaves_arena(&self) -> bool {
        !self.target().spec_in_arena()
    }

    /// Whether the next move ends the game: the head runs into the body or
    /// leaves the arena.
    pub open spec fn is_fatal(&self) -> bool {
        self.hits_body() || self.leaves_arena()
    }

    /// Number of game-over events that the next move raises: one if the move
    /// ends the game, for whichever reason or both, and none otherwise.
    pub open spec fn alarm_count(&self) -> nat {
        if self.is_fatal() {
            1
        } else {
            0
        }
    }

    /// Number of cells of the snake, head included.
    pub open spec fn population(&self) -> nat {
        1 + self.segments@.len()
    }

    /// Whether this is the snake as it is first placed: the head on its
    /// starting cell heading up, and one segment below it.
    pub open spec fn is_fresh(&self) -> bool {
        &&& self.head == spawn_head()
        &&& self.heading.direction == Direction::Up
        &&& self.segments@ == seq![spawn_tail()]
    }
}

/// Tells whether `cell` occurs among `cells`.
pub fn occupies(cells: &Vec<Position>, cell: Position) -> (res: bool)
    ensures
        res == cells@.contains(cell),
{
    let mut i: usize = 0;
    while i < cells.len()
        invariant
            i <= cells.len(),
            forall|k: int| 0 <= k < i ==> cells@[k] != cell,
        decreases cells.len() - i,
    {
        if cells[i] == cell {
            return true;
        }
        i += 1;
    }
    false
}

/// Places a fresh snake: the head at (3, 3) heading up, and one segment
/// at (3, 2).
pub fn spawn_player() -> (snake: Snake)
    ensures
        snake.is_fresh(),
        snake.population() == 2,
{
    let mut segments: Vec<Position> = Vec::new();
    segments.push(Position { x: 3, y: 2 });
    let snake = Snake {
        head: Position { x: 3, y: 3 },
        heading: PlayerHead { direction: Direction::Up },
        segments,
    };
    assert(snake.segments@ =~= seq![spawn_tail()]);
    snake
}

/// Turns the head as the held keys ask, but never straight back onto the
/// body.
pub fn steer(head: &mut PlayerHead, keys: ArrowKeys)
    ensures
        final(head).direction == steered(old(head).direction, keys),
{
    let dir = if keys.left {
        Direction::Left
    } else if keys.down {
        Direction::Down
    } else if keys.up {
        Direction::Up
    } else if keys.right {
        Direction::Right
    } else {
        head.direction
    };
    if dir != head.direction.opposite() {
        head.direction = dir;
    }
}

/// Moves the snake by one cell. The head advances along its heading; one
/// game-over event is raised if the new cell is held by a segment before the
/// move or lies outside the arena, and never more than one; then every
/// segment takes the cell of the one before it, the first taking the cell
/// the head left.
pub fn player_movement(snake: &mut Snake, writer: &mut Events<GameOverEvent>)
    requires
        old(snake).head.can_step(old(snake).heading.direction),
    ensures
        final(snake).heading == old(snake).heading,
        final(snake).head == old(snake).target(),
        final(snake).segments@ == followed(old(snake).head, old(snake).segments@),
        final(writer)@ == old(writer)@ + alarms(old(snake).alarm_count()),
{
    let before = snake.head;
    let next = before.step(snake.heading.direction);
    if occupies(&snake.segments, next) || !next.in_arena() {
        writer.send(GameOverEvent);
    }
    assert(writer@ =~= old(writer)@ + alarms(old(snake).alarm_count()));
    let n = snake.segments.len();
    let mut moved: Vec<Position> = Vec::new();
    let mut i: usize = 0;
    while i < n
        invariant
            n == snake.segments.len(),
            i <= n,
            moved@.len() == i,
            forall|k: int|
                0 <= k < i ==> moved@[k] == (if k == 0 {
                    before
                } else {
                    snake.segments@[k - 1]
                }),
        decreases n - i,
    {
        if i == 0 {
            moved.push(before);
        } else {
            moved.push(snake.segments[i - 1]);
        }
        i += 1;
    }
    assert(moved@ =~= followed(old(snake).head, old(snake).segments@));
    snake.segments = moved;
    snake.head = next;
}

/// Grows the snake by one segment, placed on the head's cell at the end of
/// the chain.
pub fn player_growth(snake: &mut Snake)
    ensures
        final(snake).head == old(snake).head,
        final(snake).heading == old(snake).heading,
        final(snake).segments@ == old(snake).segments@.push(old(snake).head),
{
    let head = snake.head;
    snake.segments.push(head);
}

/// Takes every pending game-over event and tells whether there was one.
pub fn reset_due(reader: &mut Events<GameOverEvent>) -> (due: bool)
    ensures
        final(reader)@.len() == 0,
        due == (old(reader)@.len() > 0),
{
    let seen = reader.drain();
    seen.len() > 0
}

/// Takes every pending game-over event. If there was one, the whole snake is
/// removed and a fresh one placed; otherwise the snake stays as it is.
pub fn game_over(snake: &mut Snake, reader: &mut Events<GameOverEvent>)
    ensures
        final(reader)@.len() == 0,
        old(reader)@.len() > 0 ==> final(snake).is_fresh(),
        old(reader)@.len() == 0 ==> *final(snake) == *old(snake),
{
    if reset_due(reader) {
        *snake = spawn_player();
    }
}

/// After a move every segment sits where its predecessor sat before, the
/// first where the head sat, and the chain keeps its length.
pub proof fn lemma_one_step_behind(head: Position, segments: Seq<Position>)
    ensures
        followed(head, segments).len() == segments.len(),
        segments.len() > 0 ==> followed(head, segments)[0] == head,
        forall|i: int| 0 < i < segments.len() ==> followed(head, segments)[i] == segments[i - 1],
{
}

/// A move raises at most one game-over event: exactly one if the head runs
/// into the body or leaves the arena, whether one of the two holds or both
/// and however many segments hold the cell, and none otherwise.
pub proof fn lemma_alarm_count(snake: Snake)
    ensures
        snake.alarm_count() <= 1,
        snake.hits_body() || snake.leaves_arena() <==> snake.alarm_count() == 1,
        !snake.hits_body() && !snake.leaves_arena() <==> snake.alarm_count() == 0,
        alarms(snake.alarm_count()).len() == snake.alarm_count(),
{
}

/// The body of a snake after it has moved along the given headings, one
/// move for each, starting with the given head and body. A turn of the head
/// between two moves is a change of heading from one entry to the next.
pub open spec fn trail(head: Position, segments: Seq<Position>, headings: Seq<Direction>) -> Seq<
    Position,
>
    decreases headings.len(),
{
    if headings.len() == 0 {
        segments
    } else {
        followed(
            course(head, headings.drop_last()),
            trail(head, segments, headings.drop_last()),
        )
    }
}

/// The cell of the head after it has moved along the given headings.
pub open spec fn course(head: Position, headings: Seq<Direction>) -> Position
    decreases headings.len(),
{
    if headings.len() == 0 {
        head
    } else {
        course(head, headings.drop_last()).stepped(headings.last())
    }
}

/// A body of one segment trails the head by exactly one move. After every
/// move the segment sits on the cell that the head held before that move,
/// wherever the segment was at the start and whichever way the head turned:
/// after `k` moves it is where the head was after `k - 1`.
pub proof fn lemma_single_segment_trails(head: Position, start: Position, headings: Seq<Direction>)
    requires
        headings.len() > 0,
    ensures
        trail(head, seq![start], headings) == seq![course(head, headings.drop_last())],
    decreases headings.len(),
{
    let before = headings.drop_last();
    if before.len() > 0 {
        lemma_single_segment_trails(head, start, before);
    }
    let body = trail(head, seq![start], before);
    assert(body.len() == 1);
    assert(followed(course(head, before), body) =~= seq![course(head, before)]);
}

/// The body keeps its length over any number of moves.
pub proof fn lemma_trail_keeps_length(head: Position, segments: Seq<Position>, headings: Seq<Direction>)
    ensures
        trail(head, segments, headings).len() == segments.len(),
    decreases headings.len(),
{
    if headings.len() > 0 {
        lemma_trail_keeps_length(head, segments, headings.drop_last());
    }
}

/// A head that steps over the left or the lower edge, or onto column or row
/// 100, leaves the arena.
pub proof fn lemma_edges(snake: Snake)
    ensures
        snake.target().x < 0 || snake.target().y < 0 || snake.target().x >= 100
            || snake.target().y >= 100 <==> snake.leaves_arena(),
{
}

/// A fresh snake has two cells, whatever stood there before.
pub proof fn lemma_fresh_population(snake: Snake)
    requires
        snake.is_fresh(),
    ensures
        snake.population() == 2,
        snake.head == (Position { x: 3, y: 3 }),
        snake.segments@.len() == 1,
        snake.segments@[0] == (Position { x: 3, y: 2 }),
{
}

} // verus!
