//! The per-cell site map of the early layout: owner, strength and
//! production of every cell, indexed by normalized position.

use vstd::prelude::*;
use crate::ua::space::{Pos, Space};

verus! {

/// One cell: its owner, strength and production.
#[derive(Clone, Copy, Debug, PartialEq, Eq, Structural)]
pub struct Site {
    pub owner: u8,
    pub strength: u8,
    pub production: u8,
}

impl Site {
    /// An unowned site with no strength and no production.
    pub fn blank() -> (r: Site)
        ensures
            r == (Site { owner: 0u8, strength: 0u8, production: 0u8 }),
    {
        Site { owner: 0, strength: 0, production: 0 }
    }
}

/// The whole grid of sites.
#[derive(Clone, Debug)]
pub struct SiteMap {
    pub space: Space,
    pub sites: Vec<Site>,
}

impl SiteMap {
    pub open spec fn wf(&self) -> bool {
        self.space.wf() && self.sites.len() == self.space.spec_size()
    }

    /// A map of blank sites sized to `space`.
    pub fn from_space(space: Space) -> (r: SiteMap)
        requires
            space.wf(),
        ensures
            r.wf(),
            r.space == space,
            forall|z: int|
                0 <= z < r.sites.len() ==> #[trigger] r.sites[z] == (Site {
                    owner: 0u8,
                    strength: 0u8,
                    production: 0u8,
                }),
    {
        let n = space.len();
        let mut sites: Vec<Site> = Vec::new();
        let mut i: usize = 0;
        while i < n
            invariant
                i <= n,
                sites.len() == i,
                forall|z: int|
                    0 <= z < i ==> #[trigger] sites[z] == (Site {
                        owner: 0u8,
                        strength: 0u8,
                        production: 0u8,
                    }),
            decreases n - i,
        {
            sites.push(Site::blank());
            i = i + 1;
        }
        SiteMap { space, sites }
    }

    /// The site at a (possibly unnormalized) position.
    pub fn site(&self, pos: &Pos) -> (r: &Site)
        requires
            self.wf(),
        ensures
            *r == self.sites[self.space.ix_spec(*pos)],
    {
        &self.sites[self.space.ix(pos)]
    }
}

} // verus!
