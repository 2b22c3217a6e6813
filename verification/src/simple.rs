//! The simplest utility model: a cell attacks the first weaker foreign
//! neighbour, else reinforces the first friendly neighbour with less than
//! half its strength, else stays.

use vstd::prelude::*;
use crate::action::Action;
use crate::dir::Dir;
use crate::space::Space;
use crate::space::point::Point;
use crate::space::wave::dir_seq;
use crate::world::{Environment, Occupation, State};

verus! {

/// The first direction, in the fixed order, whose target is foreign and
/// strictly weaker than the source; the search starts at direction `d`.
pub open spec fn first_attack(
    space: Space,
    occ: Seq<Occupation>,
    z: int,
    me: u8,
    d: int,
) -> Option<Dir>
    decreases 4 - d,
{
    if d < 0 || d >= 4 {
        None
    } else {
        let tgt = occ[space.adjacent_spec(z, dir_seq()[d])];
        if tgt.tag != me && tgt.strength < occ[z].strength {
            Some(dir_seq()[d])
        } else {
            first_attack(space, occ, z, me, d + 1)
        }
    }
}

/// The first direction, in the fixed order, whose target is friendly with
/// less than half the source's strength; the search starts at direction `d`.
pub open spec fn first_reinforce(
    space: Space,
    occ: Seq<Occupation>,
    z: int,
    me: u8,
    d: int,
) -> Option<Dir>
    decreases 4 - d,
{
    if d < 0 || d >= 4 {
        None
    } else {
        let tgt = occ[space.adjacent_spec(z, dir_seq()[d])];
        if tgt.tag == me && 2 * tgt.strength < occ[z].strength {
            Some(dir_seq()[d])
        } else {
            first_reinforce(space, occ, z, me, d + 1)
        }
    }
}

/// What a cell of the simple model does: attack if it can, else reinforce,
/// else stay.
pub open spec fn tick_site_spec(space: Space, occ: Seq<Occupation>, z: int, me: u8) -> Option<
    Dir,
> {
    match first_attack(space, occ, z, me, 0) {
        Some(d) => Some(d),
        None => first_reinforce(space, occ, z, me, 0),
    }
}

/// The actions of all owned cells that want to move, in cell order.
pub open spec fn tick_spec(env: Environment, occ: Seq<Occupation>, z: int) -> Seq<Action>
    decreases z,
{
    if z <= 0 {
        Seq::empty()
    } else {
        let pre = tick_spec(env, occ, z - 1);
        if occ[z - 1].tag == env.my_tag {
            match tick_site_spec(env.space, occ, z - 1, env.my_tag) {
                Some(d) => pre.push(
                    (
                        crate::coord::Coord {
                            x: env.space.spec_x(z - 1) as i16,
                            y: env.space.spec_y(z - 1) as i16,
                        },
                        Some(d),
                    ),
                ),
                None => pre,
            }
        } else {
            pre
        }
    }
}

/// The move of one owned cell: the first weaker foreign neighbour wins, then
/// the first under-strength friendly neighbour, then staying.
pub fn tick_site(origin: &Point, src: &Occupation, occupations: &Vec<Occupation>, me: u8) -> (r:
    Option<Dir>)
    requires
        origin.wf(),
        occupations.len() == origin.space.sz,
        *src == occupations[origin.ix as int],
    ensures
        r == tick_site_spec(origin.space, occupations@, origin.ix as int, me),
{
    let ds = Dir::dirs();
    let mut d: usize = 0;
    while d < 4
        invariant
            origin.wf(),
            occupations.len() == origin.space.sz,
            *src == occupations[origin.ix as int],
            ds@ == dir_seq(),
            d <= 4,
            first_attack(origin.space, occupations@, origin.ix as int, me, 0) == first_attack(
                origin.space,
                occupations@,
                origin.ix as int,
                me,
                d as int,
            ),
        decreases 4 - d,
    {
        let f = origin.adjacent_in(&ds[d]);
        let tgt = &occupations[f.ix as usize];
        if tgt.tag != me && tgt.strength < src.strength {
            return Some(ds[d]);
        }
        d = d + 1;
    }
    let mut d2: usize = 0;
    while d2 < 4
        invariant
            origin.wf(),
            occupations.len() == origin.space.sz,
            *src == occupations[origin.ix as int],
            ds@ == dir_seq(),
            d2 <= 4,
            first_attack(origin.space, occupations@, origin.ix as int, me, 0) is None,
            first_reinforce(origin.space, occupations@, origin.ix as int, me, 0)
                == first_reinforce(origin.space, occupations@, origin.ix as int, me, d2 as int),
        decreases 4 - d2,
    {
        let f = origin.adjacent_in(&ds[d2]);
        let tgt = &occupations[f.ix as usize];
        if tgt.tag == me && 2 * (tgt.strength as i32) < src.strength as i32 {
            return Some(ds[d2]);
        }
        d2 = d2 + 1;
    }
    None
}

/// The simple model: only its static environment.
pub struct SimpleBrain {
    pub environment: Environment,
}

impl SimpleBrain {
    /// One turn: every owned cell picks its move by `tick_site`; cells that
    /// stay are omitted.
    pub fn tick(&mut self, state: &State) -> (r: Vec<Action>)
        requires
            old(self).environment.wf(),
            state.wf_for(&old(self).environment),
        ensures
            *final(self) == *old(self),
            r@ == tick_spec(
                old(self).environment,
                state.occupation_map@,
                old(self).environment.space.sz as int,
            ),
    {
        let me = self.environment.my_tag;
        let mut actions: Vec<Action> = Vec::new();
        let n = self.environment.space.len();
        let mut z: usize = 0;
        while z < n
            invariant
                self == old(self),
                self.environment.wf(),
                state.wf_for(&self.environment),
                n == self.environment.space.spec_len(),
                me == self.environment.my_tag,
                z <= n,
                actions@ == tick_spec(self.environment, state.occupation_map@, z as int),
            decreases n - z,
        {
            let f = self.environment.space.point(z);
            let source = &state.occupation_map[z];
            if source.tag == me {
                if let Some(dir) = tick_site(&f, source, &state.occupation_map, me) {
                    actions.push((f.coord(), Some(dir)));
                }
            }
            z = z + 1;
        }
        actions
    }
}

} // verus!
