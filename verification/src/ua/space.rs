//! The early toroidal grid: signed coordinates normalized on demand, and
//! the shortest-way direction between two positions.

use vstd::prelude::*;
use vstd::arithmetic::div_mod::lemma_fundamental_div_mod_converse;

verus! {

#[derive(Clone, Copy, Debug, PartialEq, Eq, Hash, Structural)]
pub struct Pos {
    pub x: i16,
    pub y: i16,
}

#[derive(Clone, Copy, Debug, PartialEq, Eq, Structural)]
pub enum Dir {
    North,
    East,
    South,
    West,
}

impl Dir {
    /// The protocol code of a move in this direction.
    pub fn to_code(&self) -> (r: u8)
        ensures
            r == match *self {
                Dir::North => 1u8,
                Dir::East => 2u8,
                Dir::South => 3u8,
                Dir::West => 4u8,
            },
    {
        match *self {
            Dir::North => 1,
            Dir::East => 2,
            Dir::South => 3,
            Dir::West => 4,
        }
    }
}

/// The unnormalized coordinates one step from `p` in direction `d`.
pub open spec fn pos_neighbor_spec(p: Pos, d: Dir) -> (int, int) {
    match d {
        Dir::North => (p.x as int, p.y - 1),
        Dir::East => (p.x + 1, p.y as int),
        Dir::South => (p.x as int, p.y + 1),
        Dir::West => (p.x - 1, p.y as int),
    }
}

impl Pos {
    pub open spec fn neighbors_in_range(&self) -> bool {
        i16::MIN < self.x < i16::MAX && i16::MIN < self.y < i16::MAX
    }

    pub fn neighbor(&self, dir: Dir) -> (r: Pos)
        requires
            self.neighbors_in_range(),
        ensures
            (r.x as int, r.y as int) == pos_neighbor_spec(*self, dir),
    {
        match dir {
            Dir::North => Pos { x: self.x, y: self.y - 1 },
            Dir::East => Pos { x: self.x + 1, y: self.y },
            Dir::South => Pos { x: self.x, y: self.y + 1 },
            Dir::West => Pos { x: self.x - 1, y: self.y },
        }
    }

    pub fn neighbors(&self) -> (r: Neighbors)
        requires
            self.neighbors_in_range(),
        ensures
            r.pos == *self,
            r.dir == Some(Dir::North),
    {
        Neighbors { pos: *self, dir: Some(Dir::North) }
    }
}

/// Yields the four neighbours of a position, in the fixed direction order.
#[derive(Clone, Debug)]
pub struct Neighbors {
    pub pos: Pos,
    pub dir: Option<Dir>,
}

impl Neighbors {
    pub fn next(&mut self) -> (r: Option<Pos>)
        requires
            old(self).pos.neighbors_in_range(),
        ensures
            final(self).pos == old(self).pos,
            match old(self).dir {
                Some(d) => {
                    &&& r matches Some(p) && (p.x as int, p.y as int) == pos_neighbor_spec(
                        old(self).pos,
                        d,
                    )
                    &&& final(self).dir == match d {
                        Dir::North => Some(Dir::East),
                        Dir::East => Some(Dir::South),
                        Dir::South => Some(Dir::West),
                        Dir::West => None::<Dir>,
                    }
                },
                None => r is None && final(self).dir is None,
            },
    {
        match self.dir {
            Some(Dir::North) => {
                self.dir = Some(Dir::East);
                Some(self.pos.neighbor(Dir::North))
            },
            Some(Dir::East) => {
                self.dir = Some(Dir::South);
                Some(self.pos.neighbor(Dir::East))
            },
            Some(Dir::South) => {
                self.dir = Some(Dir::West);
                Some(self.pos.neighbor(Dir::South))
            },
            Some(Dir::West) => {
                self.dir = None;
                Some(self.pos.neighbor(Dir::West))
            },
            None => None,
        }
    }
}

#[derive(Clone, Copy, Debug, PartialEq, Eq, Structural)]
pub struct Space {
    pub w: i16,
    pub h: i16,
}

/// `n` wrapped into `[0, m)`: the representative of `n` modulo `m`.
pub open spec fn modulo_spec(n: int, m: int) -> int {
    n % m
}

/// `n` wrapped into `[0, m)`, for negative `n` too.
pub fn modulo(n: i16, m: i16) -> (r: i16)
    requires
        m > 0,
    ensures
        0 <= r < m,
        r == modulo_spec(n as int, m as int),
{
    if n >= 0 {
        if n < m {
            proof {
                lemma_fundamental_div_mod_converse(n as int, m as int, 0, n as int);
            }
            n
        } else {
            let r = ((n as u32) % (m as u32)) as i16;
            r
        }
    } else {
        let q = (-(n as i32)) as u32 % (m as u32);
        proof {
            let nn = -(n as int);
            let mm = m as int;
            let k = nn / mm;
            vstd::arithmetic::div_mod::lemma_fundamental_div_mod(nn, mm);
            if q == 0 {
                assert((-k) * mm == -(mm * k)) by (nonlinear_arith);
                lemma_fundamental_div_mod_converse(n as int, mm, -k, 0);
            } else {
                assert((-k - 1) * mm == -(mm * k) - mm) by (nonlinear_arith);
                lemma_fundamental_div_mod_converse(n as int, mm, -k - 1, mm - q);
            }
        }
        if q == 0 {
            0
        } else {
            m - (q as i16)
        }
    }
}

/// The signed difference from `a` to `b` along a ring of size `m`, taken the
/// shorter way round.
pub open spec fn shortest_diff_spec(a: int, b: int, m: int) -> int {
    let d = modulo_spec(b, m) - modulo_spec(a, m);
    if d < -(m / 2) {
        d + m
    } else if d > m / 2 {
        d - m
    } else {
        d
    }
}

pub fn shortest_diff(a: i16, b: i16, m: i16) -> (r: i16)
    requires
        m > 0,
    ensures
        r == shortest_diff_spec(a as int, b as int, m as int),
{
    let d = modulo(b, m) - modulo(a, m);
    let half = m / 2;
    if d < -half {
        d + m
    } else if d > half {
        d - m
    } else {
        d
    }
}

/// The direction of the shorter-way step from `source` toward `target`: the
/// axis with the strictly larger displacement wins, vertical on ties.
pub open spec fn direction_spec(space: Space, source: Pos, target: Pos) -> Dir {
    let dx = shortest_diff_spec(source.x as int, target.x as int, space.w as int);
    let dy = shortest_diff_spec(source.y as int, target.y as int, space.h as int);
    let ax = if dx >= 0 {
        dx
    } else {
        -dx
    };
    let ay = if dy >= 0 {
        dy
    } else {
        -dy
    };
    if ax > ay {
        if dx < 0 {
            Dir::West
        } else {
            Dir::East
        }
    } else {
        if dy < 0 {
            Dir::North
        } else {
            Dir::South
        }
    }
}

impl Space {
    pub open spec fn wf(&self) -> bool {
        0 < self.w && 0 < self.h
    }

    pub open spec fn spec_size(&self) -> int {
        (self.w as int) * (self.h as int)
    }

    /// Linear index of a (possibly unnormalized) position.
    pub open spec fn ix_spec(&self, p: Pos) -> int {
        modulo_spec(p.x as int, self.w as int) + modulo_spec(p.y as int, self.h as int) * (
        self.w as int)
    }

    pub fn with_dims(w: i16, h: i16) -> (r: Space)
        requires
            w > 0,
            h > 0,
        ensures
            r.wf(),
            r.w == w,
            r.h == h,
    {
        Space { w, h }
    }

    pub fn ix(&self, p: &Pos) -> (r: usize)
        requires
            self.wf(),
        ensures
            r == self.ix_spec(*p),
            r < self.spec_size(),
    {
        let x = modulo(p.x, self.w);
        let y = modulo(p.y, self.h);
        proof {
            assert((y as int) * (self.w as int) <= (self.h - 1) * (self.w as int) && (self.h - 1)
                * (self.w as int) + self.w == self.spec_size() && 0 <= (y as int) * (
            self.w as int) && self.spec_size() <= 0x40000000) by (nonlinear_arith)
                requires
                    0 <= y < self.h,
                    0 < self.w <= 0x7fff,
                    self.h <= 0x7fff,
            ;
        }
        x as usize + (y as usize) * (self.w as usize)
    }

    /// The number of cells of the grid.
    pub fn len(&self) -> (r: usize)
        requires
            self.wf(),
        ensures
            r == self.spec_size(),
    {
        proof {
            assert((self.w as int) * (self.h as int) <= 0x40000000) by (nonlinear_arith)
                requires
                    0 < self.w <= 0x7fff,
                    0 < self.h <= 0x7fff,
            ;
        }
        self.w as usize * self.h as usize
    }

    /// The same position with both coordinates wrapped into the grid.
    pub fn normalize(&self, p: &Pos) -> (r: Pos)
        requires
            self.wf(),
        ensures
            r.x == modulo_spec(p.x as int, self.w as int),
            r.y == modulo_spec(p.y as int, self.h as int),
    {
        Pos { x: modulo(p.x, self.w), y: modulo(p.y, self.h) }
    }

    /// All positions of the grid, row by row.
    pub fn sweep(&self) -> (r: Sweep)
        requires
            self.wf(),
        ensures
            r.w == self.w,
            r.h == self.h,
            r.x == 0,
            r.y == 0,
    {
        Sweep { x: 0, y: 0, w: self.w, h: self.h }
    }

    /// The direction of the shorter-way step from `source` toward `target`.
    pub fn direction(&self, source: &Pos, target: &Pos) -> (r: Dir)
        requires
            self.wf(),
        ensures
            r == direction_spec(*self, *source, *target),
    {
        let dx = shortest_diff(source.x, target.x, self.w);
        let dy = shortest_diff(source.y, target.y, self.h);
        let ax = if dx >= 0 {
            dx
        } else {
            -dx
        };
        let ay = if dy >= 0 {
            dy
        } else {
            -dy
        };
        if ax > ay {
            if dx < 0 {
                Dir::West
            } else {
                Dir::East
            }
        } else {
            if dy < 0 {
                Dir::North
            } else {
                Dir::South
            }
        }
    }
}

/// Yields every position of the grid, row by row.
pub struct Sweep {
    pub w: i16,
    pub h: i16,
    pub x: i16,
    pub y: i16,
}

impl Sweep {
    pub open spec fn wf(&self) -> bool {
        &&& 0 < self.w
        &&& 0 < self.h
        &&& 0 <= self.x < self.w
        &&& 0 <= self.y
    }

    pub fn next(&mut self) -> (r: Option<Pos>)
        requires
            old(self).wf(),
        ensures
            final(self).wf(),
            final(self).w == old(self).w,
            final(self).h == old(self).h,
            old(self).y >= old(self).h ==> r is None && *final(self) == *old(self),
            old(self).y < old(self).h ==> {
                &&& r == Some(Pos { x: old(self).x, y: old(self).y })
                &&& (old(self).x + 1 < old(self).w ==> final(self).x == old(self).x + 1
                    && final(self).y == old(self).y)
                &&& (old(self).x + 1 == old(self).w ==> final(self).x == 0 && final(self).y
                    == old(self).y + 1)
            },
    {
        if self.y < self.h {
            let p = Pos { x: self.x, y: self.y };
            self.x = self.x + 1;
            if self.x == self.w {
                self.y = self.y + 1;
                self.x = 0;
            }
            Some(p)
        } else {
            None
        }
    }
}

/// Wraparound round-trip: for any integer coordinates, wrapping them into
/// the grid, composing the linear index and decomposing it again gives back
/// the wrapped coordinates; wrapping twice changes nothing.
pub proof fn lemma_wrap_round_trip(space: Space, x: int, y: int)
    requires
        space.wf(),
    ensures
        0 <= modulo_spec(x, space.w as int) < space.w,
        0 <= modulo_spec(y, space.h as int) < space.h,
        (modulo_spec(x, space.w as int) + modulo_spec(y, space.h as int) * (space.w as int)) % (
        space.w as int) == modulo_spec(x, space.w as int),
        (modulo_spec(x, space.w as int) + modulo_spec(y, space.h as int) * (space.w as int)) / (
        space.w as int) == modulo_spec(y, space.h as int),
        modulo_spec(modulo_spec(x, space.w as int), space.w as int) == modulo_spec(
            x,
            space.w as int,
        ),
        modulo_spec(modulo_spec(y, space.h as int), space.h as int) == modulo_spec(
            y,
            space.h as int,
        ),
{
    let w = space.w as int;
    let h = space.h as int;
    let nx = modulo_spec(x, w);
    let ny = modulo_spec(y, h);
    lemma_fundamental_div_mod_converse(nx + ny * w, w, ny, nx);
    lemma_fundamental_div_mod_converse(nx, w, 0, nx);
    lemma_fundamental_div_mod_converse(ny, h, 0, ny);
}

} // verus!
