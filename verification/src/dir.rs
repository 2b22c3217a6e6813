//! The four cardinal directions of the grid. Iteration order is fixed
//! (north, east, south, west): the neighbour-expansion order of the search
//! structures depends on it.

use vstd::prelude::*;

verus! {

#[derive(Clone, Copy, Debug, PartialEq, Eq, Structural)]
pub enum Dir {
    North,
    East,
    South,
    West,
}

impl Dir {
    /// All four directions, in the fixed iteration order.
    pub fn dirs() -> (r: Vec<Dir>)
        ensures
            r@ == seq![Dir::North, Dir::East, Dir::South, Dir::West],
    {
        let r = vec![Dir::North, Dir::East, Dir::South, Dir::West];
        proof {
            assert(r@ =~= seq![Dir::North, Dir::East, Dir::South, Dir::West]);
        }
        r
    }
}

} // verus!
