//! The data shapes exchanged with the game engine, in the early layout.

use vstd::prelude::*;

verus! {

pub type Production = i16;

pub type Tag = u8;

pub type Strength = i16;

/// A position on the wire: an x and a y coordinate.
pub type Pos = (i16, i16);

/// A move on the wire: stay still or step in a cardinal direction.
#[derive(Clone, Copy, Debug, PartialEq, Eq, Structural)]
pub enum Dir {
    Still,
    North,
    East,
    South,
    West,
}

/// A move of one cell.
pub type Move = (Pos, Dir);

#[derive(Clone, Copy, Debug, PartialEq, Eq, Structural)]
pub struct Space {
    pub width: i16,
    pub height: i16,
}

impl Space {
    pub open spec fn wf(&self) -> bool {
        0 < self.width && 0 < self.height
    }

    pub open spec fn spec_size(&self) -> int {
        (self.width as int) * (self.height as int)
    }

    pub fn with_dims(width: i16, height: i16) -> (r: Space)
        ensures
            r.width == width,
            r.height == height,
    {
        Space { width, height }
    }

    /// The number of cells of the grid.
    pub fn size(&self) -> (r: usize)
        requires
            self.wf(),
        ensures
            r == self.spec_size(),
    {
        proof {
            assert((self.width as int) * (self.height as int) <= 0x40000000) by (nonlinear_arith)
                requires
                    0 < self.width <= 0x7fff,
                    0 < self.height <= 0x7fff,
            ;
        }
        (self.width as usize) * (self.height as usize)
    }
}

/// The static data of a match.
#[derive(Clone, Debug)]
pub struct Environment {
    pub my_tag: Tag,
    pub space: Space,
    pub production_map: Vec<Production>,
}

impl Environment {
    /// An environment with the grid dimensions set and an empty production
    /// map, to be filled by the caller.
    pub fn create(my_tag: Tag, width: i16, height: i16) -> (r: Environment)
        ensures
            r.my_tag == my_tag,
            r.space.width == width,
            r.space.height == height,
            r.production_map.len() == 0,
    {
        let space = Space::with_dims(width, height);
        let production_map: Vec<Production> = Vec::new();
        Environment { my_tag, space, production_map }
    }
}

/// One cell's owner and strength.
#[derive(Clone, Copy, Debug, PartialEq, Eq, Structural)]
pub struct Occupation {
    pub tag: Tag,
    pub strength: Strength,
}

/// The per-turn game state.
#[derive(Clone, Debug)]
pub struct State {
    pub occupation_map: Vec<Occupation>,
}

impl State {
    /// A neutral, zero-strength state sized to the environment's grid.
    pub fn for_environment(environment: &Environment) -> (r: State)
        requires
            environment.space.wf(),
        ensures
            r.occupation_map.len() == environment.space.spec_size(),
            forall|z: int|
                0 <= z < r.occupation_map.len() ==> #[trigger] r.occupation_map[z] == (Occupation {
                    tag: 0u8,
                    strength: 0i16,
                }),
    {
        let n = environment.space.size();
        let mut occupation_map: Vec<Occupation> = Vec::new();
        let mut i: usize = 0;
        while i < n
            invariant
                i <= n,
                occupation_map.len() == i,
                forall|z: int|
                    0 <= z < i ==> #[trigger] occupation_map[z] == (Occupation {
                        tag: 0u8,
                        strength: 0i16,
                    }),
            decreases n - i,
        {
            occupation_map.push(Occupation { tag: 0, strength: 0 });
            i = i + 1;
        }
        State { occupation_map }
    }
}

} // verus!
