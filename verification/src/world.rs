//! The data shared with the game engine: the static environment of a match
//! and the per-turn occupation state.

use vstd::prelude::*;
use crate::space::Space;

verus! {

/// A cell owner: 0 is neutral, positive values are player identifiers.
pub type Tag = u8;

/// A cell's fixed production rate.
pub type Production = i16;

/// A cell's current strength.
pub type Strength = i16;

/// The static data of a match: who we are, the grid, and the production of
/// each cell, loaded once at initialization.
#[derive(Clone, Debug)]
pub struct Environment {
    pub my_tag: Tag,
    pub space: Space,
    pub production_map: Vec<Production>,
}

impl Environment {
    /// A fully loaded environment: one production value per cell.
    pub open spec fn wf(&self) -> bool {
        &&& self.space.wf()
        &&& self.production_map.len() == self.space.sz
    }

    /// An environment with the grid dimensions set and an empty production
    /// map, to be filled by the caller.
    pub fn create(my_tag: Tag, width: i16, height: i16) -> (r: Environment)
        requires
            0 < width,
            0 < height,
            width * height <= 0xffff,
        ensures
            r.my_tag == my_tag,
            r.space.wf(),
            r.space.w == width as u16,
            r.space.h == height as u16,
            r.production_map.len() == 0,
    {
        let space = Space::with_dims(width, height);
        let production_map: Vec<Production> = Vec::new();
        Environment { my_tag, space, production_map }
    }
}

/// One cell's owner and strength.
#[derive(Clone, Copy, Debug, PartialEq, Eq, Structural)]
pub struct Occupation {
    pub tag: Tag,
    pub strength: Strength,
}

/// The per-turn game state: one occupation per cell, rebuilt wholesale every
/// turn.
#[derive(Clone, Debug)]
pub struct State {
    pub occupation_map: Vec<Occupation>,
}

impl State {
    /// The strengths a well-formed turn state can hold.
    pub open spec fn wf_for(&self, environment: &Environment) -> bool {
        &&& self.occupation_map.len() == environment.space.sz
        &&& forall|z: int|
            0 <= z < self.occupation_map.len() ==> 0 <= (#[trigger] self.occupation_map[z]).strength
                <= 255
    }

    /// A neutral, zero-strength state sized to the environment's grid.
    pub fn for_environment(environment: &Environment) -> (r: State)
        requires
            environment.space.wf(),
        ensures
            r.wf_for(environment),
            forall|z: int|
                0 <= z < r.occupation_map.len() ==> #[trigger] r.occupation_map[z] == (Occupation {
                    tag: 0u8,
                    strength: 0i16,
                }),
    {
        let n = environment.space.len();
        let mut occupation_map: Vec<Occupation> = Vec::new();
        let mut i: usize = 0;
        while i < n
            invariant
                i <= n,
                occupation_map.len() == i,
                forall|z: int|
                    0 <= z < i ==> #[trigger] occupation_map[z] == (Occupation {
                        tag: 0u8,
                        strength: 0i16,
                    }),
            decreases n - i,
        {
            occupation_map.push(Occupation { tag: 0, strength: 0 });
            i = i + 1;
        }
        State { occupation_map }
    }
}

} // verus!
