//! A per-cell choice among the five possible actions: stay still, or move
//! into one of the four cardinal neighbours.

use vstd::prelude::*;
use vstd::std_specs::cmp::PartialOrdSpec;
use std::cmp::Ordering;
use crate::coord::Coord;
use crate::dir::Dir;

verus! {

/// A cell's selected move: its coordinates and the chosen direction, `None`
/// to stay still.
pub type Action = (Coord, Option<Dir>);

/// One value per possible action of a cell.
#[derive(Clone, Copy, Debug)]
pub struct Choice<T> {
    pub still: T,
    pub north: T,
    pub east: T,
    pub south: T,
    pub west: T,
}

/// The first value strictly exceeds the second, with an absent value below
/// every present one.
pub open spec fn gt_spec<T: PartialOrd>(a: Option<T>, b: Option<T>) -> bool {
    match a {
        Some(x) => match b {
            Some(y) => x.partial_cmp_spec(&y) == Some(Ordering::Greater),
            None => true,
        },
        None => false,
    }
}

impl<T> Choice<T> {
    /// The value stored for the given action.
    pub open spec fn spec_get(&self, key: Option<Dir>) -> T {
        match key {
            None => self.still,
            Some(Dir::North) => self.north,
            Some(Dir::East) => self.east,
            Some(Dir::South) => self.south,
            Some(Dir::West) => self.west,
        }
    }

    /// This choice with the value for the given action replaced.
    pub open spec fn spec_set(&self, key: Option<Dir>, v: T) -> Choice<T> {
        match key {
            None => Choice { still: v, ..*self },
            Some(Dir::North) => Choice { north: v, ..*self },
            Some(Dir::East) => Choice { east: v, ..*self },
            Some(Dir::South) => Choice { south: v, ..*self },
            Some(Dir::West) => Choice { west: v, ..*self },
        }
    }

    /// All five actions valued `init`.
    pub fn with_init(init: T) -> (r: Choice<T>) where T: Copy
        ensures
            r.still == init,
            r.north == init,
            r.east == init,
            r.south == init,
            r.west == init,
    {
        Choice { still: init, north: init, east: init, south: init, west: init }
    }

    /// Resets all five actions to `value`.
    pub fn reset(&mut self, value: T) where T: Copy
        ensures
            final(self).still == value,
            final(self).north == value,
            final(self).east == value,
            final(self).south == value,
            final(self).west == value,
    {
        self.still = value;
        self.north = value;
        self.east = value;
        self.south = value;
        self.west = value;
    }

    pub fn get(&self, key: &Option<Dir>) -> (r: &T)
        ensures
            *r == self.spec_get(*key),
    {
        match *key {
            None => &self.still,
            Some(Dir::North) => &self.north,
            Some(Dir::East) => &self.east,
            Some(Dir::South) => &self.south,
            Some(Dir::West) => &self.west,
        }
    }

    pub fn get_mut(&mut self, key: &Option<Dir>) -> (r: &mut T)
        ensures
            *r == old(self).spec_get(*key),
            *final(self) == old(self).spec_set(*key, *final(r)),
    {
        match *key {
            None => &mut self.still,
            Some(Dir::North) => &mut self.north,
            Some(Dir::East) => &mut self.east,
            Some(Dir::South) => &mut self.south,
            Some(Dir::West) => &mut self.west,
        }
    }
}

impl<T: PartialOrd> Choice<Option<T>> {
    /// The first value strictly exceeds the second, with an absent value
    /// below every present one.
    pub fn gt(a: &Option<T>, b: &Option<T>) -> (r: bool)
        ensures
            T::obeys_partial_cmp_spec() ==> r == gt_spec(*a, *b),
    {
        if let Some(a_inner) = a {
            if let Some(b_inner) = b {
                a_inner.gt(b_inner)
            } else {
                true
            }
        } else {
            false
        }
    }
}

impl<T: PartialOrd> Choice<T> {
    /// The direction whose value strictly exceeds every value before it in
    /// the fixed priority order (stay, north, east, south, west); `None`
    /// when staying wins.
    pub open spec fn find_max_spec(&self) -> Option<Dir> {
        let gt = |x: T, y: T| x.partial_cmp_spec(&y) == Some(Ordering::Greater);
        let (a1, m1): (Option<Dir>, T) = if gt(self.north, self.still) {
            (Some(Dir::North), self.north)
        } else {
            (None, self.still)
        };
        let (a2, m2): (Option<Dir>, T) = if gt(self.east, m1) {
            (Some(Dir::East), self.east)
        } else {
            (a1, m1)
        };
        let (a3, m3): (Option<Dir>, T) = if gt(self.south, m2) {
            (Some(Dir::South), self.south)
        } else {
            (a2, m2)
        };
        if gt(self.west, m3) {
            Some(Dir::West)
        } else {
            a3
        }
    }

    /// The action with the maximum value; ties are broken by the fixed
    /// priority order stay, north, east, south, west.
    pub fn find_max_action(&self) -> (r: Option<Dir>)
        ensures
            T::obeys_partial_cmp_spec() ==> r == self.find_max_spec(),
    {
        let mut action: Option<Dir> = None;
        let mut max = &self.still;
        if self.north.gt(max) {
            action = Some(Dir::North);
            max = &self.north;
        }
        if self.east.gt(max) {
            action = Some(Dir::East);
            max = &self.east;
        }
        if self.south.gt(max) {
            action = Some(Dir::South);
            max = &self.south;
        }
        if self.west.gt(max) {
            action = Some(Dir::West);
        }
        action
    }
}

} // verus!
