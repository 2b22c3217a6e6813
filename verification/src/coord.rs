//! Unnormalized grid coordinates. A `Coord` may lie outside the grid; the
//! space normalizes it on demand.

use vstd::prelude::*;
use crate::dir::Dir;

verus! {

#[derive(Clone, Copy, Debug, PartialEq, Eq, Hash, Structural)]
pub struct Coord {
    pub x: i16,
    pub y: i16,
}

/// The coordinate one step from `c` in direction `d`, without wraparound.
pub open spec fn neighbor_spec(c: Coord, d: Dir) -> (int, int) {
    match d {
        Dir::North => (c.x as int, c.y - 1),
        Dir::East => (c.x + 1, c.y as int),
        Dir::South => (c.x as int, c.y + 1),
        Dir::West => (c.x - 1, c.y as int),
    }
}

impl Coord {
    /// True when all four neighbours of the coordinate stay within the `i16`
    /// range.
    pub open spec fn neighbors_in_range(&self) -> bool {
        i16::MIN < self.x < i16::MAX && i16::MIN < self.y < i16::MAX
    }

    pub fn neighbor(&self, dir: Dir) -> (r: Coord)
        requires
            self.neighbors_in_range(),
        ensures
            (r.x as int, r.y as int) == neighbor_spec(*self, dir),
    {
        match dir {
            Dir::North => Coord { x: self.x, y: self.y - 1 },
            Dir::East => Coord { x: self.x + 1, y: self.y },
            Dir::South => Coord { x: self.x, y: self.y + 1 },
            Dir::West => Coord { x: self.x - 1, y: self.y },
        }
    }

    pub fn neighbors(&self) -> (r: Neighbors)
        requires
            self.neighbors_in_range(),
        ensures
            r.p == *self,
            r.pos == 0,
    {
        Neighbors { p: self.clone(), pos: 0 }
    }
}

/// Yields the four neighbours of a coordinate, in the fixed direction order.
#[derive(Clone, Debug)]
pub struct Neighbors {
    pub p: Coord,
    pub pos: u8,
}

impl Neighbors {
    pub open spec fn dir_at(i: int) -> Dir {
        seq![Dir::North, Dir::East, Dir::South, Dir::West][i]
    }

    pub fn next(&mut self) -> (r: Option<Coord>)
        requires
            old(self).p.neighbors_in_range(),
        ensures
            final(self).p == old(self).p,
            old(self).pos >= 4 ==> r is None && final(self).pos == old(self).pos,
            old(self).pos < 4 ==> {
                &&& final(self).pos == old(self).pos + 1
                &&& r matches Some(c) && (c.x as int, c.y as int) == neighbor_spec(
                    old(self).p,
                    Neighbors::dir_at(old(self).pos as int),
                )
            },
    {
        let d = match self.pos {
            0 => Dir::North,
            1 => Dir::East,
            2 => Dir::South,
            3 => Dir::West,
            _ => {
                return None;
            },
        };
        self.pos = self.pos + 1;
        Some(self.p.neighbor(d))
    }
}

} // verus!
