use vstd::prelude::*;
use crate::text::format_i32;

verus! {

/// A position on the two dimensional tile grid.
#[derive(Clone, Copy, Debug, PartialEq, Eq, Structural, Hash)]
pub struct Position {
    pub x: i32,
    pub y: i32,
}

/// The decimal digits of a natural number, most significant first.
pub open spec fn nat_text(n: nat) -> Seq<char>
    decreases n,
{
    let d = (n % 10) as int;
    let c: char = if d == 0 { '0' } else if d == 1 { '1' } else if d == 2 { '2' } else if d == 3 {
        '3'
    } else if d == 4 { '4' } else if d == 5 { '5' } else if d == 6 { '6' } else if d == 7 {
        '7'
    } else if d == 8 { '8' } else { '9' };
    if n < 10 {
        seq![c]
    } else {
        nat_text(n / 10) + seq![c]
    }
}

/// The decimal text of an integer, with a leading minus sign when it is negative.
pub open spec fn int_text(i: int) -> Seq<char> {
    if i < 0 {
        seq!['-'] + nat_text((-i) as nat)
    } else {
        nat_text(i as nat)
    }
}

/// The text `(x, y)` of a pair of coordinates.
pub open spec fn pair_text(x: int, y: int) -> Seq<char> {
    seq!['('] + int_text(x) + seq![',', ' '] + int_text(y) + seq![')']
}

impl Position {
    /// Creates a new position with the given x and y coordinates.
    pub fn new(x: i32, y: i32) -> (p: Position)
        ensures
            p.x == x,
            p.y == y,
    {
        Position { x, y }
    }

    /// Returns the x-coordinate of the position.
    pub fn get_x(&self) -> (x: i32)
        ensures
            x == self.x,
    {
        self.x
    }

    /// Returns the y-coordinate of the position.
    pub fn get_y(&self) -> (y: i32)
        ensures
            y == self.y,
    {
        self.y
    }

    /// The position written as `(x, y)`.
    pub fn to_string(&self) -> (s: String)
        ensures
            s@ == pair_text(self.x as int, self.y as int),
    {
        let mut s = "(".to_owned();
        let x = format_i32(self.x);
        s.append(x.as_str());
        s.append(", ");
        let y = format_i32(self.y);
        s.append(y.as_str());
        s.append(")");
        proof {
            reveal_strlit("(");
            reveal_strlit(", ");
            reveal_strlit(")");
        }
        assert(s@ =~= pair_text(self.x as int, self.y as int));
        s
    }
}

/// Absolute difference of two coordinates.
pub open spec fn abs_diff(a: int, b: int) -> int {
    if a >= b {
        a - b
    } else {
        b - a
    }
}

/// Manhattan distance between two positions.
pub open spec fn manhattan(a: Position, b: Position) -> int {
    abs_diff(a.x as int, b.x as int) + abs_diff(a.y as int, b.y as int)
}

/// Computes the Manhattan distance between two positions without overflow.
pub fn manhattan_distance(a: Position, b: Position) -> (d: i64)
    ensures
        d == manhattan(a, b),
{
    let dx: i64 = if a.x >= b.x {
        a.x as i64 - b.x as i64
    } else {
        b.x as i64 - a.x as i64
    };
    let dy: i64 = if a.y >= b.y {
        a.y as i64 - b.y as i64
    } else {
        b.y as i64 - a.y as i64
    };
    dx + dy
}

} // verus!
