//! Conversions between the grid types and the wire-level data shapes.

use vstd::prelude::*;
use crate::ua::map::{Site, SiteMap};
use crate::ua::space::{Dir, Pos, Space};
use crate::ua::world;

verus! {

impl Dir {
    /// The wire-level form of this direction.
    pub fn to_world(&self) -> (r: world::Dir)
        ensures
            r == match *self {
                Dir::North => world::Dir::North,
                Dir::East => world::Dir::East,
                Dir::South => world::Dir::South,
                Dir::West => world::Dir::West,
            },
    {
        match *self {
            Dir::North => world::Dir::North,
            Dir::East => world::Dir::East,
            Dir::South => world::Dir::South,
            Dir::West => world::Dir::West,
        }
    }
}

impl Pos {
    /// The wire-level form of this position.
    pub fn to_world(&self) -> (r: world::Pos)
        ensures
            r == (self.x, self.y),
    {
        (self.x, self.y)
    }
}

impl SiteMap {
    /// A site map built from the wire-level environment and state: each
    /// cell's owner and strength come from the turn state, its production
    /// from the environment.
    pub fn from_world(environment: &world::Environment, state: &world::State) -> (r: SiteMap)
        requires
            environment.space.wf(),
            environment.production_map.len() == environment.space.spec_size(),
            state.occupation_map.len() == environment.space.spec_size(),
            forall|z: int|
                0 <= z < state.occupation_map.len() ==> 0 <= (#[trigger] state.occupation_map[z]).strength
                    <= 255,
            forall|z: int|
                0 <= z < environment.production_map.len() ==> 0
                    <= #[trigger] environment.production_map[z] <= 255,
        ensures
            r.wf(),
            r.space.w == environment.space.width,
            r.space.h == environment.space.height,
            forall|z: int|
                0 <= z < r.sites.len() ==> #[trigger] r.sites[z] == (Site {
                    owner: state.occupation_map[z].tag,
                    strength: state.occupation_map[z].strength as u8,
                    production: environment.production_map[z] as u8,
                }),
    {
        let w = environment.space.width;
        let h = environment.space.height;
        let space = Space::with_dims(w, h);
        let mut map = SiteMap::from_space(space);
        let n = map.sites.len();
        let mut i: usize = 0;
        while i < n
            invariant
                map.space == space,
                space.wf(),
                map.sites.len() == n,
                n == environment.space.spec_size(),
                n == space.spec_size(),
                environment.production_map.len() == n,
                state.occupation_map.len() == n,
                forall|z: int|
                    0 <= z < state.occupation_map.len() ==> 0 <= (#[trigger] state.occupation_map[z]).strength
                        <= 255,
                forall|z: int|
                    0 <= z < environment.production_map.len() ==> 0
                        <= #[trigger] environment.production_map[z] <= 255,
                i <= n,
                forall|z: int|
                    0 <= z < i ==> #[trigger] map.sites[z] == (Site {
                        owner: state.occupation_map[z].tag,
                        strength: state.occupation_map[z].strength as u8,
                        production: environment.production_map[z] as u8,
                    }),
            decreases n - i,
        {
            let site = Site {
                owner: state.occupation_map[i].tag,
                strength: state.occupation_map[i].strength as u8,
                production: environment.production_map[i] as u8,
            };
            map.sites.set(i, site);
            i = i + 1;
        }
        map
    }
}

} // verus!
