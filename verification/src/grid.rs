//! Grid geometry: cells, the four orthogonal directions, and the
//! pixel-to-cell mapping used by click handling.

use vstd::prelude::*;

verus! {

/// One of the four orthogonal movement directions.
#[derive(Clone, Copy, PartialEq, Eq, Structural, Debug)]
pub enum Direction {
    Up,
    Down,
    Left,
    Right,
}

/// A grid cell address: `x` is the column, `y` is the row, both
/// zero-based at the top-left corner of the board.
#[derive(Clone, Copy, PartialEq, Eq, Structural, Debug)]
pub struct Location {
    pub x: i32,
    pub y: i32,
}

impl Direction {
    /// The unit displacement `(dx, dy)` of this direction.
    pub open spec fn diff_spec(self) -> (i32, i32) {
        match self {
            Direction::Up => (0i32, -1i32),
            Direction::Down => (0i32, 1i32),
            Direction::Left => (-1i32, 0i32),
            Direction::Right => (1i32, 0i32),
        }
    }

    /// The unit displacement `(dx, dy)` of this direction.
    pub fn as_diff(&self) -> (r: (i32, i32))
        ensures
            r == self.diff_spec(),
    {
        match self {
            Direction::Up => (0, -1),
            Direction::Down => (0, 1),
            Direction::Left => (-1, 0),
            Direction::Right => (1, 0),
        }
    }
}

impl Location {
    /// The cell one step from `self` in direction `dir`. Coordinates
    /// wrap around at the ends of the `i32` range.
    pub open spec fn move_spec(self, dir: Direction) -> Location {
        Location {
            x: self.x.wrapping_add(dir.diff_spec().0),
            y: self.y.wrapping_add(dir.diff_spec().1),
        }
    }

    /// The cell one step from `self` in direction `dir`.
    pub fn move_to(&self, dir: Direction) -> (r: Location)
        ensures
            r == self.move_spec(dir),
    {
        let (dx, dy) = dir.as_diff();
        Location { x: self.x.wrapping_add(dx), y: self.y.wrapping_add(dy) }
    }

    /// The direction whose displacement carries `self` exactly onto
    /// `other`, when the two cells are one orthogonal step apart;
    /// `None` for the same cell, a diagonal, or any longer delta.
    pub open spec fn direction_to_spec(self, other: Location) -> Option<Direction> {
        if other.x == self.x && other.y == self.y - 1 {
            Some(Direction::Up)
        } else if other.x == self.x && other.y == self.y + 1 {
            Some(Direction::Down)
        } else if other.y == self.y && other.x == self.x - 1 {
            Some(Direction::Left)
        } else if other.y == self.y && other.x == self.x + 1 {
            Some(Direction::Right)
        } else {
            None
        }
    }

    /// See [`Location::direction_to_spec`].
    pub fn direction_to(&self, other: &Location) -> (r: Option<Direction>)
        ensures
            r == self.direction_to_spec(*other),
    {
        if other.x == self.x && self.y > i32::MIN && other.y == self.y - 1 {
            Some(Direction::Up)
        } else if other.x == self.x && self.y < i32::MAX && other.y == self.y + 1 {
            Some(Direction::Down)
        } else if other.y == self.y && self.x > i32::MIN && other.x == self.x - 1 {
            Some(Direction::Left)
        } else if other.y == self.y && self.x < i32::MAX && other.x == self.x + 1 {
            Some(Direction::Right)
        } else {
            None
        }
    }

    /// A step and its reverse never land on the starting coordinate:
    /// the two cells of a push (the player's target and the cell
    /// beyond it) are always distinct.
    pub proof fn lemma_move_changes_cell(self, dir: Direction)
        ensures
            self.move_spec(dir) != self,
            self.move_spec(dir).move_spec(dir) != self.move_spec(dir),
    {
    }
}

/// Euclidean floor division: the result is the largest integer at or
/// below the exact quotient, as `floor(a / b)` computes it.
pub fn floor_div(a: i32, b: i32) -> (q: i32)
    requires
        b > 0,
    ensures
        q as int == a as int / b as int,
{
    if a >= 0 {
        let qu: u32 = (a as u32) / (b as u32);
        let ru: u32 = (a as u32) % (b as u32);
        proof {
            vstd::arithmetic::div_mod::lemma_fundamental_div_mod(a as int, b as int);
            vstd::arithmetic::div_mod::lemma_fundamental_div_mod_converse(
                a as int,
                b as int,
                qu as int,
                ru as int,
            );
        }
        qu as i32
    } else {
        let na: u32 = if a == i32::MIN {
            0x8000_0000u32
        } else {
            (-a) as u32
        };
        let nb: u32 = b as u32;
        let q0: u32 = na / nb;
        let r0: u32 = na % nb;
        proof {
            vstd::arithmetic::div_mod::lemma_fundamental_div_mod(na as int, nb as int);
        }
        if r0 == 0 {
            proof {
                assert(a as int == (-(q0 as int)) * (b as int) + 0) by (nonlinear_arith)
                    requires
                        na as int == (nb as int) * (q0 as int) + (r0 as int),
                        r0 == 0,
                        a as int == -(na as int),
                        b == nb,
                ;
                vstd::arithmetic::div_mod::lemma_fundamental_div_mod_converse(
                    a as int,
                    b as int,
                    -(q0 as int),
                    0,
                );
            }
            if q0 == 0x8000_0000u32 {
                i32::MIN
            } else {
                -(q0 as i32)
            }
        } else {
            proof {
                assert(q0 as int <= 0x4000_0000) by (nonlinear_arith)
                    requires
                        na as int == (nb as int) * (q0 as int) + (r0 as int),
                        0 < r0 < nb,
                        2 <= nb,
                        na <= 0x8000_0000u32,
                ;
                assert(a as int == (-(q0 as int) - 1) * (b as int) + ((b as int) - (r0 as int)))
                    by (nonlinear_arith)
                    requires
                        na as int == (nb as int) * (q0 as int) + (r0 as int),
                        a as int == -(na as int),
                        b == nb,
                ;
                vstd::arithmetic::div_mod::lemma_fundamental_div_mod_converse(
                    a as int,
                    b as int,
                    -(q0 as int) - 1,
                    (b as int) - (r0 as int),
                );
            }
            -(q0 as i32) - 1
        }
    }
}

} // verus!
