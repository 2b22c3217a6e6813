//! The toroidal grid: dimensions, linear-index/coordinate mapping, wraparound
//! neighbours and toroidal Manhattan distance.

use vstd::prelude::*;
use vstd::arithmetic::div_mod::{
    lemma_fundamental_div_mod, lemma_fundamental_div_mod_converse,
};
use crate::coord::Coord;
use crate::dir::Dir;
use crate::gridmap::{GridMap, MutMap, RefMap};
use crate::modular;

pub mod dijkstra;
pub mod mask;
pub mod point;
pub mod wave;

verus! {

/// A rectangular grid whose edges wrap around: positions are taken modulo the
/// width and the height.
#[derive(Clone, Copy, Debug, PartialEq, Eq, Structural)]
pub struct Space {
    pub sz: u16,
    pub w: u16,
    pub h: u16,
}

impl Space {
    pub open spec fn wf(&self) -> bool {
        &&& 0 < self.w <= 0x7fff
        &&& 0 < self.h <= 0x7fff
        &&& self.sz == self.w * self.h
    }

    pub open spec fn spec_len(&self) -> int {
        self.sz as int
    }

    /// Column of the cell with linear index `z`.
    pub open spec fn spec_x(&self, z: int) -> int {
        z % (self.w as int)
    }

    /// Row of the cell with linear index `z`.
    pub open spec fn spec_y(&self, z: int) -> int {
        z / (self.w as int)
    }

    /// Linear index of the cell in column `x` of row `y`.
    pub open spec fn spec_ix(&self, x: int, y: int) -> int {
        x + y * (self.w as int)
    }

    /// Linear index of the wraparound neighbour of `z` in direction `d`.
    pub open spec fn adjacent_spec(&self, z: int, d: Dir) -> int {
        let x = self.spec_x(z);
        let y = self.spec_y(z);
        match d {
            Dir::North => self.spec_ix(x, (y + self.h - 1) % (self.h as int)),
            Dir::East => self.spec_ix((x + 1) % (self.w as int), y),
            Dir::South => self.spec_ix(x, (y + 1) % (self.h as int)),
            Dir::West => self.spec_ix((x + self.w - 1) % (self.w as int), y),
        }
    }

    /// Toroidal Manhattan distance between the cells with linear indices `a`
    /// and `b`: the sum of the per-axis ring distances.
    pub open spec fn l1_spec(&self, a: int, b: int) -> int {
        modular::ring_dist(self.spec_x(a), self.spec_x(b), self.w as int)
            + modular::ring_dist(self.spec_y(a), self.spec_y(b), self.h as int)
    }

    pub fn with_dims(width: i16, height: i16) -> (r: Space)
        requires
            0 < width,
            0 < height,
            width * height <= 0xffff,
        ensures
            r.wf(),
            r.w == width as u16,
            r.h == height as u16,
    {
        Space { sz: (width as u16) * (height as u16), w: width as u16, h: height as u16 }
    }

    /// The number of cells of the grid.
    pub fn len(&self) -> (r: usize)
        requires
            self.wf(),
        ensures
            r == self.spec_len(),
    {
        self.w as usize * self.h as usize
    }

    pub fn width(&self) -> (r: i16)
        requires
            self.wf(),
        ensures
            r == self.w,
    {
        self.w as i16
    }

    pub fn height(&self) -> (r: i16)
        requires
            self.wf(),
        ensures
            r == self.h,
    {
        self.h as i16
    }

    /// Coordinates of the cell with linear index `ix`.
    pub fn coord_of(&self, ix: usize) -> (r: Coord)
        requires
            self.wf(),
            ix < self.spec_len(),
        ensures
            r.x == self.spec_x(ix as int),
            r.y == self.spec_y(ix as int),
    {
        proof {
            lemma_index_decompose(*self, ix as int);
        }
        let y = ix / (self.w as usize);
        let x = ix - y * (self.w as usize);
        Coord { x: x as i16, y: y as i16 }
    }

    /// Linear index of the wraparound neighbour of `z` in direction `dir`.
    pub fn adjacent_ix(&self, z: u16, dir: &Dir) -> (r: u16)
        requires
            self.wf(),
            z < self.sz,
        ensures
            r < self.sz,
            r == self.adjacent_spec(z as int, *dir),
    {
        proof {
            lemma_index_decompose(*self, z as int);
        }
        let w = self.w;
        let h = self.h;
        let sz = self.sz;
        let y = z / w;
        let x = z % w;
        match dir {
            Dir::North => {
                if y == 0 {
                    proof {
                        lemma_fundamental_div_mod_converse(h - 1, h as int, 0, h - 1);
                        lemma_coord_compose(*self, x as int, h - 1);
                        assert((y as int) * (w as int) == 0) by (nonlinear_arith)
                            requires
                                y == 0,
                        ;
                        assert(w <= sz && (h - 1) * (w as int) == sz - w) by (nonlinear_arith)
                            requires
                                sz == w * h,
                                h >= 1,
                        ;
                    }
                    z + (sz - w)
                } else {
                    proof {
                        lemma_fundamental_div_mod_converse(y + h - 1, h as int, 1, y - 1);
                        lemma_coord_compose(*self, x as int, y - 1);
                        assert((y - 1) * (w as int) == y * (w as int) - w && y * (w as int) >= w)
                            by (nonlinear_arith)
                            requires
                                y >= 1,
                                w >= 0,
                        ;
                    }
                    z - w
                }
            },
            Dir::East => {
                if x + 1 < w {
                    proof {
                        lemma_fundamental_div_mod_converse(x + 1, w as int, 0, x + 1);
                        lemma_coord_compose(*self, x + 1, y as int);
                    }
                    z + 1
                } else {
                    proof {
                        lemma_fundamental_div_mod_converse(x + 1, w as int, 1, 0);
                        lemma_coord_compose(*self, 0, y as int);
                        assert((y as int) * (w as int) >= 0) by (nonlinear_arith)
                            requires
                                y >= 0,
                                w >= 0,
                        ;
                    }
                    z - x
                }
            },
            Dir::South => {
                if y + 1 < h {
                    proof {
                        lemma_fundamental_div_mod_converse(y + 1, h as int, 0, y + 1);
                        lemma_coord_compose(*self, x as int, y + 1);
                        assert(x + (y + 1) * (w as int) == z + w) by (nonlinear_arith)
                            requires
                                z == x + y * w,
                        ;
                    }
                    z + w
                } else {
                    proof {
                        lemma_fundamental_div_mod_converse(y + 1, h as int, 1, 0);
                        lemma_coord_compose(*self, x as int, 0);
                    }
                    x
                }
            },
            Dir::West => {
                if x > 0 {
                    proof {
                        lemma_fundamental_div_mod_converse(x + w - 1, w as int, 1, x - 1);
                        lemma_coord_compose(*self, x - 1, y as int);
                        assert((y as int) * (w as int) >= 0) by (nonlinear_arith)
                            requires
                                y >= 0,
                                w >= 0,
                        ;
                    }
                    z - 1
                } else {
                    proof {
                        lemma_fundamental_div_mod_converse(x + w - 1, w as int, 0, w - 1);
                        lemma_coord_compose(*self, w - 1, y as int);
                    }
                    z + (w - 1)
                }
            },
        }
    }

    /// Toroidal Manhattan distance between the cells with linear indices `a`
    /// and `b`.
    pub fn l1_norm(&self, a: u16, b: u16) -> (r: i16)
        requires
            self.wf(),
            a < self.sz,
            b < self.sz,
        ensures
            r == self.l1_spec(a as int, b as int),
            0 <= r,
    {
        proof {
            lemma_index_decompose(*self, a as int);
            lemma_index_decompose(*self, b as int);
        }
        let w = self.w;
        let h = self.h;
        let y1 = a / w;
        let x1 = a % w;
        let y2 = b / w;
        let x2 = b % w;
        let dx = modular::dist(x1, x2, w);
        let dy = modular::dist(y1, y2, h);
        (dx + dy) as i16
    }

    pub fn frames(&self) -> (r: Frames)
        requires
            self.wf(),
        ensures
            r.space == *self,
            r.start == 0,
            r.stop == self.sz,
    {
        Frames { space: *self, start: 0, stop: self.sz }
    }
}

/// The cell with linear index `z` is decomposed by the column `z % w` and the
/// row `z / w`.
pub proof fn lemma_index_decompose(s: Space, z: int)
    requires
        s.wf(),
        0 <= z < s.sz,
    ensures
        0 <= s.spec_x(z) < s.w,
        0 <= s.spec_y(z) < s.h,
        z == s.spec_x(z) + s.spec_y(z) * s.w,
{
    lemma_fundamental_div_mod(z, s.w as int);
    assert((s.w as int) * (z / (s.w as int)) == (z / (s.w as int)) * (s.w as int))
        by (nonlinear_arith);
    assert(z / (s.w as int) < s.h) by (nonlinear_arith)
        requires
            0 < s.w,
            0 < s.h,
            z < s.w * s.h,
            0 <= z,
    ;
}

/// A column `x` and a row `y` in range compose to the linear index
/// `x + y * w`, which is in range and decomposes back to `x` and `y`.
pub proof fn lemma_coord_compose(s: Space, x: int, y: int)
    requires
        s.wf(),
        0 <= x < s.w,
        0 <= y < s.h,
    ensures
        0 <= s.spec_ix(x, y) < s.sz,
        s.spec_x(s.spec_ix(x, y)) == x,
        s.spec_y(s.spec_ix(x, y)) == y,
{
    lemma_fundamental_div_mod_converse(x + y * s.w, s.w as int, y, x);
    assert((s.w as int) * y == y * (s.w as int)) by (nonlinear_arith);
    assert(x + y * (s.w as int) < s.w * s.h) by (nonlinear_arith)
        requires
            0 <= x < s.w,
            0 <= y < s.h,
    ;
}

/// The wraparound neighbour of an in-range cell is in range.
pub proof fn lemma_adjacent_in_range(s: Space, z: int, d: Dir)
    requires
        s.wf(),
        0 <= z < s.sz,
    ensures
        0 <= s.adjacent_spec(z, d) < s.sz,
{
    let w = s.w as int;
    let h = s.h as int;
    let x = s.spec_x(z);
    let y = s.spec_y(z);
    lemma_index_decompose(s, z);
    match d {
        Dir::North => lemma_coord_compose(s, x, (y + h - 1) % h),
        Dir::East => lemma_coord_compose(s, (x + 1) % w, y),
        Dir::South => lemma_coord_compose(s, x, (y + 1) % h),
        Dir::West => lemma_coord_compose(s, (x + w - 1) % w, y),
    }
}

/// Stepping to a neighbour and back returns to the starting cell, for both
/// axes and in both orders.
pub proof fn lemma_adjacent_involution(s: Space, z: int)
    requires
        s.wf(),
        0 <= z < s.sz,
    ensures
        s.adjacent_spec(s.adjacent_spec(z, Dir::North), Dir::South) == z,
        s.adjacent_spec(s.adjacent_spec(z, Dir::South), Dir::North) == z,
        s.adjacent_spec(s.adjacent_spec(z, Dir::East), Dir::West) == z,
        s.adjacent_spec(s.adjacent_spec(z, Dir::West), Dir::East) == z,
{
    let w = s.w as int;
    let h = s.h as int;
    let x = s.spec_x(z);
    let y = s.spec_y(z);
    lemma_index_decompose(s, z);
    lemma_ring_steps(y, h);
    lemma_ring_steps(x, w);
    lemma_coord_compose(s, x, (y + h - 1) % h);
    lemma_coord_compose(s, x, (y + 1) % h);
    lemma_coord_compose(s, (x + 1) % w, y);
    lemma_coord_compose(s, (x + w - 1) % w, y);
    lemma_coord_compose(s, x, y);
}

/// On a ring of size `m`, a step forward undoes a step backward and the other
/// way round.
proof fn lemma_ring_steps(v: int, m: int)
    requires
        0 < m,
        0 <= v < m,
    ensures
        ((v + m - 1) % m + 1) % m == v,
        ((v + 1) % m + m - 1) % m == v,
{
    if v == 0 {
        lemma_fundamental_div_mod_converse(m - 1, m, 0, m - 1);
        lemma_fundamental_div_mod_converse(m - 1 + 1, m, 1, 0);
        lemma_fundamental_div_mod_converse(1, m, if m == 1 { 1 } else { 0 }, if m == 1 { 0 } else { 1 });
        if m == 1 {
            lemma_fundamental_div_mod_converse(0 + m - 1, m, 0, 0);
        } else {
            lemma_fundamental_div_mod_converse(1 + m - 1, m, 1, 0);
        }
    } else {
        lemma_fundamental_div_mod_converse(v + m - 1, m, 1, v - 1);
        lemma_fundamental_div_mod_converse(v - 1 + 1, m, 0, v);
        if v + 1 == m {
            lemma_fundamental_div_mod_converse(v + 1, m, 1, 0);
            lemma_fundamental_div_mod_converse(0 + m - 1, m, 0, m - 1);
        } else {
            lemma_fundamental_div_mod_converse(v + 1, m, 0, v + 1);
            lemma_fundamental_div_mod_converse(v + 1 + m - 1, m, 1, v);
        }
    }
}

/// The toroidal Manhattan distance does not depend on the order of its two
/// arguments.
pub proof fn lemma_l1_symmetric(s: Space, a: int, b: int)
    ensures
        s.l1_spec(a, b) == s.l1_spec(b, a),
{
    modular::lemma_dist_symmetric(s.spec_x(a), s.spec_x(b), s.w as int);
    modular::lemma_dist_symmetric(s.spec_y(a), s.spec_y(b), s.h as int);
}

/// A handle on one cell of a space: the space together with the cell's linear
/// index.
#[derive(Clone, Copy, Debug, PartialEq, Eq, Structural)]
pub struct Frame {
    pub space: Space,
    pub origin: u16,
}

impl Frame {
    pub open spec fn wf(&self) -> bool {
        self.space.wf() && self.origin < self.space.sz
    }

    pub fn new(space: &Space, ix: usize) -> (r: Frame)
        requires
            space.wf(),
            ix < space.spec_len(),
        ensures
            r.wf(),
            r.space == *space,
            r.origin == ix,
    {
        Frame { space: *space, origin: ix as u16 }
    }

    /// Rebinds the frame to another space of the same dimensions, for use
    /// where the handle must outlive the structure it came from.
    pub fn hack(&self, space: &Space) -> (r: Frame)
        requires
            space.wf(),
            self.origin < space.sz,
        ensures
            r.wf(),
            r.space == *space,
            r.origin == self.origin,
    {
        Frame { space: *space, origin: self.origin }
    }

    pub fn space(&self) -> (r: &Space)
        ensures
            *r == self.space,
    {
        &self.space
    }

    pub fn ix(&self) -> (r: usize)
        ensures
            r == self.origin,
    {
        self.origin as usize
    }

    /// The value stored for this cell in a dense per-cell container.
    pub fn on<T: Copy, M: GridMap<T>>(&self, map: &M) -> (r: T)
        requires
            self.origin < map.contents().len(),
        ensures
            r == map.contents()[self.origin as int],
    {
        map.at(self.origin as usize)
    }

    /// A reference to the value stored for this cell.
    pub fn ref_on<'a, T, M: RefMap<T>>(&self, map: &'a M) -> (r: &'a T)
        requires
            self.origin < map.ref_contents().len(),
        ensures
            *r == map.ref_contents()[self.origin as int],
    {
        map.ref_at(self.origin as usize)
    }

    /// A mutable reference to the value stored for this cell.
    pub fn mut_on<'a, T, M: MutMap<T>>(&self, map: &'a mut M) -> (r: &'a mut T)
        requires
            self.origin < old(map).mut_contents().len(),
        ensures
            *r == old(map).mut_contents()[self.origin as int],
            final(map).mut_contents() == old(map).mut_contents().update(
                self.origin as int,
                *final(r),
            ),
    {
        map.mut_at(self.origin as usize)
    }

    /// A mutable reference to the value stored for this cell.
    pub fn on_mut<'a, T, M: MutMap<T>>(&self, map: &'a mut M) -> (r: &'a mut T)
        requires
            self.origin < old(map).mut_contents().len(),
        ensures
            *r == old(map).mut_contents()[self.origin as int],
            final(map).mut_contents() == old(map).mut_contents().update(
                self.origin as int,
                *final(r),
            ),
    {
        map.mut_at(self.origin as usize)
    }

    pub fn coord(&self) -> (r: Coord)
        requires
            self.wf(),
        ensures
            r.x == self.space.spec_x(self.origin as int),
            r.y == self.space.spec_y(self.origin as int),
    {
        self.space.coord_of(self.origin as usize)
    }

    /// The wraparound neighbour of this cell in direction `dir`.
    pub fn adjacent_in(&self, dir: &Dir) -> (r: Frame)
        requires
            self.wf(),
        ensures
            r.wf(),
            r.space == self.space,
            r.origin == self.space.adjacent_spec(self.origin as int, *dir),
    {
        Frame { space: self.space, origin: self.space.adjacent_ix(self.origin, dir) }
    }

    /// Toroidal Manhattan distance to another cell of the same space.
    pub fn l1_norm(&self, other: &Frame) -> (r: i16)
        requires
            self.wf(),
            other.origin < self.space.sz,
        ensures
            r == self.space.l1_spec(self.origin as int, other.origin as int),
            0 <= r,
    {
        self.space.l1_norm(self.origin, other.origin)
    }

    /// The square block of cells with side `2 * radius - 1` centred on this
    /// cell, row by row.
    pub fn l0_neighbors(&self, radius: usize) -> (r: L0_Neighbors)
        requires
            self.wf(),
            2 * radius <= self.space.w + 1,
            2 * radius <= self.space.h + 1,
        ensures
            r.wf(),
            r.space == self.space,
            radius == 0 ==> r.sz == 0,
            radius > 0 ==> {
                &&& r.sz == 2 * radius - 1
                &&& r.x0 == (self.space.spec_x(self.origin as int) + self.space.w - (radius - 1))
                    % (self.space.w as int)
                &&& r.y0 == (self.space.spec_y(self.origin as int) + self.space.h - (radius - 1))
                    % (self.space.h as int)
            },
            r.dx == 0 && r.dy == 0,
    {
        proof {
            lemma_index_decompose(self.space, self.origin as int);
        }
        let y = self.origin / self.space.w;
        let x = self.origin % self.space.w;
        if radius > 0 {
            let r = radius as u16;
            L0_Neighbors {
                space: self.space,
                sz: 2 * r - 1,
                x0: modular::sub(x, r - 1, self.space.w),
                y0: modular::sub(y, r - 1, self.space.h),
                dx: 0,
                dy: 0,
            }
        } else {
            L0_Neighbors { space: self.space, sz: 0, x0: x, y0: y, dx: 0, dy: 0 }
        }
    }
}

/// Yields a frame for every cell of a space, in linear-index order.
#[derive(Clone, Debug)]
pub struct Frames {
    pub space: Space,
    pub start: u16,
    pub stop: u16,
}

impl Frames {
    pub open spec fn wf(&self) -> bool {
        self.space.wf() && self.stop <= self.space.sz
    }

    pub fn next(&mut self) -> (r: Option<Frame>)
        requires
            old(self).wf(),
        ensures
            final(self).wf(),
            final(self).space == old(self).space,
            final(self).stop == old(self).stop,
            old(self).start >= old(self).stop ==> {
                r is None && final(self).start == old(self).start
            },
            old(self).start < old(self).stop ==> {
                &&& final(self).start == old(self).start + 1
                &&& r == Some(Frame { space: old(self).space, origin: old(self).start })
            },
    {
        if self.start < self.stop {
            let f = Frame { space: self.space, origin: self.start };
            self.start = self.start + 1;
            Some(f)
        } else {
            None
        }
    }
}

/// Yields the cells of a square block around a centre cell, wrapping at the
/// edges, row by row.
#[allow(non_camel_case_types)]
pub struct L0_Neighbors {
    pub space: Space,
    pub sz: u16,
    pub x0: u16,
    pub y0: u16,
    pub dx: u16,
    pub dy: u16,
}

impl L0_Neighbors {
    pub open spec fn wf(&self) -> bool {
        &&& self.space.wf()
        &&& self.sz <= self.space.w
        &&& self.sz <= self.space.h
        &&& self.x0 < self.space.w
        &&& self.y0 < self.space.h
        &&& if self.sz == 0 {
            self.dx == 0
        } else {
            self.dx < self.sz
        }
        &&& self.dy <= self.sz
    }

    pub fn next(&mut self) -> (r: Option<Frame>)
        requires
            old(self).wf(),
        ensures
            final(self).wf(),
            final(self).space == old(self).space,
            (old(self).sz == 0 || old(self).dy >= old(self).sz) ==> {
                r is None && *final(self) == *old(self)
            },
            (old(self).sz > 0 && old(self).dy < old(self).sz && old(self).dx < old(self).sz)
                ==> {
                &&& r matches Some(f) && f.wf() && f.space == old(self).space
                    && f.origin == old(self).space.spec_ix(
                    (old(self).x0 + old(self).dx) % (old(self).space.w as int),
                    (old(self).y0 + old(self).dy) % (old(self).space.h as int),
                )
                &&& old(self).dx + 1 < old(self).sz ==> final(self).dx == old(self).dx + 1
                    && final(self).dy == old(self).dy
                &&& old(self).dx + 1 == old(self).sz ==> final(self).dx == 0
                    && final(self).dy == old(self).dy + 1
            },
    {
        if self.sz == 0 {
            None
        } else if self.dy >= self.sz {
            None
        } else {
            let x = modular::add(self.x0, self.dx, self.space.w);
            let y = modular::add(self.y0, self.dy, self.space.h);
            proof {
                lemma_coord_compose(self.space, x as int, y as int);
            }
            self.dx = self.dx + 1;
            if self.dx == self.sz {
                self.dx = 0;
                self.dy = self.dy + 1;
            }
            Some(Frame { space: self.space, origin: x + y * self.space.w })
        }
    }
}

} // verus!
