//! A lightweight handle on one cell of a space, used by the search
//! structures and the utility models.

use vstd::prelude::*;
use crate::coord::Coord;
use crate::dir::Dir;
use crate::gridmap::{GridMap, MutMap, RefMap};
use crate::space::Space;

verus! {

#[derive(Clone, Copy, Debug, PartialEq, Eq, Structural)]
pub struct Point {
    pub space: Space,
    pub ix: u16,
}

impl Point {
    pub open spec fn wf(&self) -> bool {
        self.space.wf() && self.ix < self.space.sz
    }

    pub fn new(space: &Space, ix: usize) -> (r: Point)
        requires
            space.wf(),
            ix < space.spec_len(),
        ensures
            r.wf(),
            r.space == *space,
            r.ix == ix,
    {
        Point { space: *space, ix: ix as u16 }
    }

    /// Rebinds the point to another space of the same dimensions, for use
    /// where the handle must outlive the structure it came from.
    pub fn hack(&self, space: &Space) -> (r: Point)
        requires
            space.wf(),
            self.ix < space.sz,
        ensures
            r.wf(),
            r.space == *space,
            r.ix == self.ix,
    {
        Point { space: *space, ix: self.ix }
    }

    pub fn space(&self) -> (r: &Space)
        ensures
            *r == self.space,
    {
        &self.space
    }

    pub fn ix(&self) -> (r: usize)
        ensures
            r == self.ix,
    {
        self.ix as usize
    }

    /// The wraparound neighbour of this cell in direction `dir`.
    pub fn adjacent_in(&self, dir: &Dir) -> (r: Point)
        requires
            self.wf(),
        ensures
            r.wf(),
            r.space == self.space,
            r.ix == self.space.adjacent_spec(self.ix as int, *dir),
    {
        Point { space: self.space, ix: self.space.adjacent_ix(self.ix, dir) }
    }

    pub fn coord(&self) -> (r: Coord)
        requires
            self.wf(),
        ensures
            r.x == self.space.spec_x(self.ix as int),
            r.y == self.space.spec_y(self.ix as int),
    {
        self.space.coord_of(self.ix as usize)
    }

    /// Toroidal Manhattan distance to another cell of the same space.
    pub fn l1_norm(&self, other: &Point) -> (r: i16)
        requires
            self.wf(),
            other.ix < self.space.sz,
        ensures
            r == self.space.l1_spec(self.ix as int, other.ix as int),
            0 <= r,
    {
        self.space.l1_norm(self.ix, other.ix)
    }

    /// The value stored for this cell in a dense per-cell container.
    pub fn on<T: Copy, M: GridMap<T>>(&self, map: &M) -> (r: T)
        requires
            self.ix < map.contents().len(),
        ensures
            r == map.contents()[self.ix as int],
    {
        map.at(self.ix as usize)
    }

    /// A reference to the value stored for this cell.
    pub fn ref_on<'a, T, M: RefMap<T>>(&self, map: &'a M) -> (r: &'a T)
        requires
            self.ix < map.ref_contents().len(),
        ensures
            *r == map.ref_contents()[self.ix as int],
    {
        map.ref_at(self.ix as usize)
    }

    /// A mutable reference to the value stored for this cell.
    pub fn mut_on<'a, T, M: MutMap<T>>(&self, map: &'a mut M) -> (r: &'a mut T)
        requires
            self.ix < old(map).mut_contents().len(),
        ensures
            *r == old(map).mut_contents()[self.ix as int],
            final(map).mut_contents() == old(map).mut_contents().update(
                self.ix as int,
                *final(r),
            ),
    {
        map.mut_at(self.ix as usize)
    }
}

/// Yields a point for every cell of a space, in linear-index order.
#[derive(Clone, Debug)]
pub struct Points {
    pub space: Space,
    pub start: u16,
    pub stop: u16,
}

impl Points {
    pub open spec fn wf(&self) -> bool {
        self.space.wf() && self.stop <= self.space.sz
    }

    pub fn next(&mut self) -> (r: Option<Point>)
        requires
            old(self).wf(),
        ensures
            final(self).wf(),
            final(self).space == old(self).space,
            final(self).stop == old(self).stop,
            old(self).start >= old(self).stop ==> {
                r is None && final(self).start == old(self).start
            },
            old(self).start < old(self).stop ==> {
                &&& final(self).start == old(self).start + 1
                &&& r == Some(Point { space: old(self).space, ix: old(self).start })
            },
    {
        if self.start < self.stop {
            let f = Point { space: self.space, ix: self.start };
            self.start = self.start + 1;
            Some(f)
        } else {
            None
        }
    }
}

impl Space {
    /// A handle on the cell with linear index `ix`.
    pub fn point(&self, ix: usize) -> (r: Point)
        requires
            self.wf(),
            ix < self.spec_len(),
        ensures
            r.wf(),
            r.space == *self,
            r.ix == ix,
    {
        Point { space: *self, ix: ix as u16 }
    }

    /// All cells of the space, in linear-index order.
    pub fn points(&self) -> (r: Points)
        requires
            self.wf(),
        ensures
            r.wf(),
            r.space == *self,
            r.start == 0,
            r.stop == self.sz,
    {
        Points { space: *self, start: 0, stop: self.sz }
    }
}

} // verus!
