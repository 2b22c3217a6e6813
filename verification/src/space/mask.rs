//! A boolean membership field over all cells of a space, built from a
//! predicate or from a single cell.

use vstd::prelude::*;
use crate::gridmap::{GridMap, MutMap, RefMap};
use crate::space::Space;
use crate::space::point::Point;

verus! {

pub struct Mask {
    pub space: Space,
    pub mask: Vec<bool>,
}

impl Mask {
    pub open spec fn wf(&self) -> bool {
        self.space.wf() && self.mask.len() == self.space.sz
    }

    /// The set of member cells, as linear indices.
    pub open spec fn set(&self) -> Set<int> {
        Set::new(|z: int| 0 <= z < self.mask.len() && self.mask[z])
    }

    /// The empty mask over `space`.
    pub fn new(space: &Space) -> (r: Mask)
        requires
            space.wf(),
        ensures
            r.wf(),
            r.space == *space,
            forall|z: int| 0 <= z < r.mask.len() ==> !r.mask[z],
    {
        let n = space.len();
        let mut mask: Vec<bool> = Vec::new();
        let mut i: usize = 0;
        while i < n
            invariant
                i <= n,
                mask.len() == i,
                forall|z: int| 0 <= z < i ==> !mask[z],
            decreases n - i,
        {
            mask.push(false);
            i = i + 1;
        }
        Mask { space: *space, mask }
    }

    /// The mask over the point's space that holds that point alone.
    pub fn singleton(point: &Point) -> (r: Mask)
        requires
            point.wf(),
        ensures
            r.wf(),
            r.space == point.space,
            forall|z: int| 0 <= z < r.mask.len() ==> (r.mask[z] <==> z == point.ix),
    {
        let mut r = Mask::new(&point.space);
        let ghost m0 = r.mask@;
        let p = r.mask.mut_at(point.ix as usize);
        *p = true;
        r
    }

    /// The mask over `space` that holds exactly the cells accepted by the
    /// predicate `f`.
    pub fn create<F: Fn(&Point) -> bool>(space: &Space, f: F) -> (r: Mask)
        requires
            space.wf(),
            forall|p: Point| p.wf() && p.space == *space ==> call_requires(f, (&p,)),
        ensures
            r.wf(),
            r.space == *space,
            forall|z: int|
                0 <= z < r.mask.len() ==> call_ensures(
                    f,
                    (&Point { space: *space, ix: z as u16 },),
                    r.mask[z],
                ),
    {
        let n = space.len();
        let mut mask: Vec<bool> = Vec::new();
        let mut i: usize = 0;
        while i < n
            invariant
                i <= n,
                n == space.spec_len(),
                space.wf(),
                mask.len() == i,
                forall|p: Point| p.wf() && p.space == *space ==> call_requires(f, (&p,)),
                forall|z: int|
                    0 <= z < i ==> call_ensures(
                        f,
                        (&Point { space: *space, ix: z as u16 },),
                        mask[z],
                    ),
            decreases n - i,
        {
            let p = Point { space: *space, ix: i as u16 };
            proof {
                assert(p.wf());
                assert(call_requires(f, (&p,)));
            }
            let b = f(&p);
            mask.push(b);
            i = i + 1;
        }
        Mask { space: *space, mask }
    }
}

impl GridMap<bool> for Mask {
    open spec fn contents(&self) -> Seq<bool> {
        self.mask@
    }

    fn at(&self, ix: usize) -> (r: bool) {
        self.mask[ix]
    }
}

impl RefMap<bool> for Mask {
    open spec fn ref_contents(&self) -> Seq<bool> {
        self.mask@
    }

    fn ref_at(&self, ix: usize) -> (r: &bool) {
        &self.mask[ix]
    }
}

impl MutMap<bool> for Mask {
    open spec fn mut_contents(&self) -> Seq<bool> {
        self.mask@
    }

    fn mut_at(&mut self, ix: usize) -> (r: &mut bool) {
        &mut self.mask[ix]
    }
}

} // verus!
