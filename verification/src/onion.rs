//! A region grown layer by layer: a body of cells plus its current edge,
//! each edge cell remembering which cells it grew from.

use vstd::prelude::*;
use crate::space::Space;
use crate::space::mask::Mask;
use crate::space::wave::dir_seq;

verus! {

/// A growing region: the cells absorbed so far, the newest layer with each
/// cell's contributors, and how many times the region has grown.
pub struct Onion {
    pub space: Space,
    pub body: Vec<bool>,
    pub edge: Vec<(u16, Vec<u16>)>,
    pub generation: i32,
}

/// The cell has a neighbour on the current edge.
pub open spec fn has_edge_neighbor(space: Space, edge_mask: Seq<bool>, z: int) -> bool {
    ||| edge_mask[space.adjacent_spec(z, dir_seq()[0])]
    ||| edge_mask[space.adjacent_spec(z, dir_seq()[1])]
    ||| edge_mask[space.adjacent_spec(z, dir_seq()[2])]
    ||| edge_mask[space.adjacent_spec(z, dir_seq()[3])]
}

/// The edge cells adjacent to `z`, probed in the first `d` directions.
pub open spec fn parents_spec(space: Space, edge_mask: Seq<bool>, z: int, d: int) -> Seq<u16>
    decreases d,
{
    if d <= 0 {
        Seq::empty()
    } else {
        let pre = parents_spec(space, edge_mask, z, d - 1);
        let nb = space.adjacent_spec(z, dir_seq()[d - 1]);
        if edge_mask[nb] {
            pre.push(nb as u16)
        } else {
            pre
        }
    }
}

impl Onion {
    pub open spec fn wf(&self) -> bool {
        &&& self.space.wf()
        &&& self.body.len() == self.space.sz
        &&& forall|i: int| 0 <= i < self.edge.len() ==> (#[trigger] self.edge[i]).0 < self.space.sz
    }

    /// The membership mask of the current edge.
    pub open spec fn edge_mask_spec(&self) -> Seq<bool> {
        Seq::new(
            self.space.sz as nat,
            |z: int| exists|i: int| 0 <= i < self.edge.len() && (#[trigger] self.edge[i]).0 == z,
        )
    }

    /// A first-generation region: body and edge both equal to the seed.
    pub fn from_set(space: &Space, seed: &Mask) -> (r: Onion)
        requires
            space.wf(),
            seed.wf(),
            seed.space == *space,
        ensures
            r.wf(),
            r.space == *space,
            r.generation == 0,
            r.body@ == seed.mask@,
            r.edge.len() <= space.sz,
            forall|i: int| 0 <= i < r.edge.len() ==> (#[trigger] r.edge[i]).1.len() == 0,
            forall|z: int|
                0 <= z < space.sz ==> (seed.mask[z] <==> exists|i: int|
                    0 <= i < r.edge.len() && (#[trigger] r.edge[i]).0 == z),
    {
        let n = space.len();
        let mut edge: Vec<(u16, Vec<u16>)> = Vec::new();
        let mut z: usize = 0;
        while z < n
            invariant
                space.wf(),
                seed.wf(),
                seed.space == *space,
                n == space.spec_len(),
                z <= n,
                edge.len() <= z,
                forall|i: int| 0 <= i < edge.len() ==> (#[trigger] edge[i]).0 < z,
                forall|i: int| 0 <= i < edge.len() ==> (#[trigger] edge[i]).1.len() == 0,
                forall|i: int|
                    0 <= i < edge.len() ==> seed.mask[(#[trigger] edge[i]).0 as int],
                forall|zz: int|
                    0 <= zz < z && seed.mask[zz] ==> exists|i: int|
                        0 <= i < edge.len() && (#[trigger] edge[i]).0 == zz,
            decreases n - z,
        {
            if seed.mask[z] {
                let ghost edge_pre = edge@;
                edge.push((z as u16, Vec::new()));
                proof {
                    assert forall|zz: int|
                        0 <= zz < z + 1 && seed.mask[zz] implies exists|i: int|
                        0 <= i < edge.len() && (#[trigger] edge[i]).0 == zz by {
                        if zz == z {
                            assert(edge[edge.len() - 1].0 == zz);
                        } else {
                            let i = choose|i: int|
                                0 <= i < edge_pre.len() && (#[trigger] edge_pre[i]).0 == zz;
                            assert(edge[i].0 == zz);
                        }
                    }
                }
            }
            z = z + 1;
        }
        Onion { space: *space, body: seed.mask.clone(), edge, generation: 0 }
    }

    /// The next layer: every cell outside the body adjacent to the current
    /// edge joins, remembering which edge cells it touches; the body absorbs
    /// the new layer.
    pub fn expand(&self) -> (r: Onion)
        requires
            self.wf(),
            self.generation < i32::MAX,
        ensures
            r.wf(),
            r.space == self.space,
            r.generation == self.generation + 1,
            r.body@.len() == self.space.sz,
            forall|z: int|
                0 <= z < self.space.sz ==> #[trigger] r.body@[z] == (self.body@[z]
                    || (!self.body@[z] && has_edge_neighbor(
                    self.space,
                    self.edge_mask_spec(),
                    z,
                ))),
            forall|i: int|
                0 <= i < r.edge.len() ==> !self.body@[(#[trigger] r.edge[i]).0 as int]
                    && has_edge_neighbor(
                    self.space,
                    self.edge_mask_spec(),
                    r.edge[i].0 as int,
                ) && r.edge[i].1@ == parents_spec(
                    self.space,
                    self.edge_mask_spec(),
                    r.edge[i].0 as int,
                    4,
                ),
            forall|i1: int, i2: int| 0 <= i1 < i2 < r.edge.len() ==> r.edge[i1].0 < r.edge[i2].0,
            forall|z: int|
                0 <= z < self.space.sz && !self.body@[z] && has_edge_neighbor(
                    self.space,
                    self.edge_mask_spec(),
                    z,
                ) ==> exists|i: int| 0 <= i < r.edge.len() && (#[trigger] r.edge[i]).0 == z,
    {
        let n = self.space.len();
        // The current edge as a mask.
        let mut edge_mask: Vec<bool> = Vec::new();
        let mut z: usize = 0;
        while z < n
            invariant
                z <= n,
                edge_mask.len() == z,
                forall|zz: int| 0 <= zz < z ==> !edge_mask[zz],
            decreases n - z,
        {
            edge_mask.push(false);
            z = z + 1;
        }
        let mut i: usize = 0;
        while i < self.edge.len()
            invariant
                self.wf(),
                n == self.space.spec_len(),
                edge_mask.len() == n,
                i <= self.edge.len(),
                forall|zz: int|
                    0 <= zz < n ==> (#[trigger] edge_mask[zz] <==> exists|j: int|
                        0 <= j < i && (#[trigger] self.edge[j]).0 == zz),
            decreases self.edge.len() - i,
        {
            let ghost mask_pre = edge_mask@;
            let c = self.edge[i].0;
            edge_mask.set(c as usize, true);
            proof {
                assert forall|zz: int|
                    0 <= zz < n implies (#[trigger] edge_mask[zz] <==> exists|j: int|
                    0 <= j < i + 1 && (#[trigger] self.edge[j]).0 == zz) by {
                    if zz == c {
                        assert(self.edge[i as int].0 == zz);
                    } else {
                        if edge_mask[zz] {
                            assert(mask_pre[zz]);
                            let j = choose|j: int|
                                0 <= j < i && (#[trigger] self.edge[j]).0 == zz;
                            assert(self.edge[j].0 == zz);
                        } else {
                            if exists|j: int| 0 <= j < i + 1 && (#[trigger] self.edge[j]).0
                                == zz {
                                let j = choose|j: int|
                                    0 <= j < i + 1 && (#[trigger] self.edge[j]).0 == zz;
                                assert(j < i);
                                assert(mask_pre[zz]);
                            }
                        }
                    }
                }
            }
            i = i + 1;
        }
        proof {
            assert(edge_mask@ =~= self.edge_mask_spec());
        }
        // The next edge: cells outside the body that touch the current edge.
        let ds = crate::dir::Dir::dirs();
        let mut next_edge: Vec<(u16, Vec<u16>)> = Vec::new();
        let mut next_body: Vec<bool> = Vec::new();
        let mut z: usize = 0;
        while z < n
            invariant
                self.wf(),
                n == self.space.spec_len(),
                edge_mask.len() == n,
                edge_mask@ == self.edge_mask_spec(),
                ds@ == crate::space::wave::dir_seq(),
                z <= n,
                next_body.len() == z,
                forall|zz: int|
                    0 <= zz < z ==> #[trigger] next_body[zz] == (self.body@[zz]
                        || (!self.body@[zz] && has_edge_neighbor(
                        self.space,
                        self.edge_mask_spec(),
                        zz,
                    ))),
                forall|i2: int|
                    0 <= i2 < next_edge.len() ==> (#[trigger] next_edge[i2]).0 < z
                        && !self.body@[next_edge[i2].0 as int] && has_edge_neighbor(
                        self.space,
                        self.edge_mask_spec(),
                        next_edge[i2].0 as int,
                    ) && next_edge[i2].1@ == parents_spec(
                        self.space,
                        self.edge_mask_spec(),
                        next_edge[i2].0 as int,
                        4,
                    ),
                forall|i1: int, i2: int|
                    0 <= i1 < i2 < next_edge.len() ==> next_edge[i1].0 < next_edge[i2].0,
                forall|zz: int|
                    0 <= zz < z && !self.body@[zz] && has_edge_neighbor(
                        self.space,
                        self.edge_mask_spec(),
                        zz,
                    ) ==> exists|i2: int|
                        0 <= i2 < next_edge.len() && (#[trigger] next_edge[i2]).0 == zz,
            decreases n - z,
        {
            let mut parents: Vec<u16> = Vec::new();
            let mut d: usize = 0;
            while d < 4
                invariant
                    self.wf(),
                    n == self.space.spec_len(),
                    edge_mask.len() == n,
                    edge_mask@ == self.edge_mask_spec(),
                    ds@ == crate::space::wave::dir_seq(),
                    z < n,
                    d <= 4,
                    parents@ == parents_spec(
                        self.space,
                        self.edge_mask_spec(),
                        z as int,
                        d as int,
                    ),
                decreases 4 - d,
            {
                let nb = self.space.adjacent_ix(z as u16, &ds[d]);
                if edge_mask[nb as usize] {
                    parents.push(nb);
                }
                d = d + 1;
            }
            let touches = parents.len() > 0;
            proof {
                lemma_parents_nonempty(self.space, self.edge_mask_spec(), z as int);
            }
            if !self.body[z] && touches {
                let ghost ne_pre = next_edge@;
                next_edge.push((z as u16, parents));
                next_body.push(true);
                proof {
                    assert forall|zz: int|
                        0 <= zz < z + 1 && !self.body@[zz] && has_edge_neighbor(
                            self.space,
                            self.edge_mask_spec(),
                            zz,
                        ) implies exists|i2: int|
                        0 <= i2 < next_edge.len() && (#[trigger] next_edge[i2]).0 == zz by {
                        if zz == z {
                            assert(next_edge[next_edge.len() - 1].0 == zz);
                        } else {
                            let i2 = choose|i2: int|
                                0 <= i2 < ne_pre.len() && (#[trigger] ne_pre[i2]).0 == zz;
                            assert(next_edge[i2].0 == zz);
                        }
                    }
                }
            } else {
                next_body.push(self.body[z]);
            }
            z = z + 1;
        }
        Onion {
            space: self.space,
            body: next_body,
            edge: next_edge,
            generation: self.generation + 1,
        }
    }
}

/// A cell has a parent among the first four directions exactly when it has
/// an edge neighbour.
proof fn lemma_parents_nonempty(space: Space, edge_mask: Seq<bool>, z: int)
    ensures
        parents_spec(space, edge_mask, z, 4).len() > 0 <==> has_edge_neighbor(
            space,
            edge_mask,
            z,
        ),
{
    let p0 = parents_spec(space, edge_mask, z, 0);
    let p1 = parents_spec(space, edge_mask, z, 1);
    let p2 = parents_spec(space, edge_mask, z, 2);
    let p3 = parents_spec(space, edge_mask, z, 3);
    let p4 = parents_spec(space, edge_mask, z, 4);
    assert(p0.len() == 0);
    assert(p1.len() == p0.len() + (if edge_mask[space.adjacent_spec(z, dir_seq()[0])] {
        1int
    } else {
        0int
    }));
    assert(p2.len() == p1.len() + (if edge_mask[space.adjacent_spec(z, dir_seq()[1])] {
        1int
    } else {
        0int
    }));
    assert(p3.len() == p2.len() + (if edge_mask[space.adjacent_spec(z, dir_seq()[2])] {
        1int
    } else {
        0int
    }));
    assert(p4.len() == p3.len() + (if edge_mask[space.adjacent_spec(z, dir_seq()[3])] {
        1int
    } else {
        0int
    }));
}

} // verus!
