use vstd::prelude::*;

verus! {

/// One of the four grid-aligned facings, in clockwise order starting
/// from Right. Right/Left lie on the horizontal axis, Up/Down on the
/// vertical one.
#[derive(Debug, Clone, Copy, PartialEq, Eq, Structural)]
pub enum Direction {
    Right,
    Down,
    Left,
    Up,
}

impl Direction {
    /// Ordinal of the facing in clockwise order: Right 0, Down 1, Left 2, Up 3.
    pub open spec fn ord(self) -> int {
        match self {
            Direction::Right => 0,
            Direction::Down => 1,
            Direction::Left => 2,
            Direction::Up => 3,
        }
    }

    pub open spec fn from_ord(n: int) -> Direction {
        if n == 0 {
            Direction::Right
        } else if n == 1 {
            Direction::Down
        } else if n == 2 {
            Direction::Left
        } else {
            Direction::Up
        }
    }

    /// The opposite facing.
    pub open spec fn flip_spec(self) -> Direction {
        match self {
            Direction::Right => Direction::Left,
            Direction::Down => Direction::Up,
            Direction::Left => Direction::Right,
            Direction::Up => Direction::Down,
        }
    }

    /// Unit displacement of the facing: Right (1,0), Left (-1,0),
    /// Up (0,1), Down (0,-1); (0,0) is the bottom-left cell and y grows
    /// upward.
    pub open spec fn vector_spec(self) -> (int, int) {
        match self {
            Direction::Right => (1int, 0int),
            Direction::Down => (0int, -1int),
            Direction::Left => (-1int, 0int),
            Direction::Up => (0int, 1int),
        }
    }

    /// Quarter-turn addition: the facing turned clockwise by as many
    /// quarter turns as `turn`'s ordinal.
    pub open spec fn rotated_spec(self, turn: Direction) -> Direction {
        Direction::from_ord((self.ord() + turn.ord()) % 4)
    }

    /// Whether the two facings lie on the same axis (ordinals share parity).
    pub open spec fn same_axis_spec(self, other: Direction) -> bool {
        self.ord() % 2 == other.ord() % 2
    }

    pub fn ordinal(self) -> (r: u8)
        ensures
            r as int == self.ord(),
    {
        match self {
            Direction::Right => 0,
            Direction::Down => 1,
            Direction::Left => 2,
            Direction::Up => 3,
        }
    }

    pub fn of_ordinal(n: u8) -> (r: Direction)
        requires
            n < 4,
        ensures
            r == Direction::from_ord(n as int),
    {
        if n == 0 {
            Direction::Right
        } else if n == 1 {
            Direction::Down
        } else if n == 2 {
            Direction::Left
        } else {
            Direction::Up
        }
    }

    /// The opposite facing.
    pub fn flip(self) -> (r: Direction)
        ensures
            r == self.flip_spec(),
    {
        match self {
            Direction::Right => Direction::Left,
            Direction::Down => Direction::Up,
            Direction::Left => Direction::Right,
            Direction::Up => Direction::Down,
        }
    }

    /// Unit displacement of the facing as (dx, dy).
    pub fn to_vector(self) -> (r: (isize, isize))
        ensures
            r.0 as int == self.vector_spec().0,
            r.1 as int == self.vector_spec().1,
    {
        match self {
            Direction::Right => (1, 0),
            Direction::Down => (0, -1),
            Direction::Left => (-1, 0),
            Direction::Up => (0, 1),
        }
    }

    /// Quarter-turn addition, used to compute a new facing after a rotate
    /// event.
    pub fn rotated_by(self, turn: Direction) -> (r: Direction)
        ensures
            r == self.rotated_spec(turn),
    {
        let n = (self.ordinal() + turn.ordinal()) % 4;
        Direction::of_ordinal(n)
    }

    /// Whether the two facings lie on the same axis.
    pub fn same_axis(self, other: Direction) -> (r: bool)
        ensures
            r == self.same_axis_spec(other),
    {
        self.ordinal() % 2 == other.ordinal() % 2
    }
}

} // verus!
