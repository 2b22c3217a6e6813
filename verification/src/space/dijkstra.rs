//! Uniform-cost scan (Dijkstra scan) over the space: a single-source
//! expansion with a caller-supplied edge-cost function, yielding cells in
//! non-decreasing order of cumulative cost. A cost of `None` marks a cell as
//! impassable: the scan neither visits nor yields it.

use vstd::prelude::*;
use vstd::seq_lib::*;
use vstd::set_lib::*;
use crate::dir::Dir;
use crate::space::Space;
use crate::space::point::Point;

verus! {

/// The largest cost a single step can contribute.
pub const MAX_STEP: i64 = 0x7fff;

/// A duplicate-free list of cells of a grid with `n` cells has at most `n`
/// entries.
pub proof fn lemma_history_capacity(h: Seq<(int, int)>, n: int)
    requires
        n >= 0,
        forall|j: int| 0 <= j < h.len() ==> 0 <= (#[trigger] h[j]).1 < n,
        forall|j1: int, j2: int| 0 <= j1 < j2 < h.len() ==> h[j1].1 != h[j2].1,
    ensures
        h.len() <= n,
{
    let f = |p: (int, int)| p.1;
    let cells = h.map_values(f);
    assert(cells.no_duplicates()) by {
        assert forall|j1: int, j2: int|
            0 <= j1 < cells.len() && 0 <= j2 < cells.len() && j1 != j2 implies cells[j1]
            != cells[j2] by {
            if j1 < j2 {
                assert(h[j1].1 != h[j2].1);
            } else {
                assert(h[j2].1 != h[j1].1);
            }
        }
    }
    cells.unique_seq_to_set();
    assert forall|z: int| cells.to_set().contains(z) implies set_int_range(0, n).contains(z) by {
        let j = choose|j: int| 0 <= j < cells.len() && cells[j] == z;
        assert(0 <= h[j].1 < n);
    }
    lemma_int_range(0, n);
    lemma_len_subset(cells.to_set(), set_int_range(0, n));
}

/// The pair `(c, z)` occurs in the queue sequence `q`.
pub open spec fn queue_has(q: Seq<(i64, u16)>, c: int, z: int) -> bool {
    exists|j: int| 0 <= j < q.len() && (#[trigger] q[j]).0 as int == c && q[j].1 as int == z
}

/// The scan's mutable state: the visited image, the pending entries, and a
/// ghost log of what has been yielded so far.
pub struct DijsktraScan<C> {
    pub space: Space,
    pub cost_fn: C,
    pub visited: Vec<bool>,
    pub queue: Vec<(i64, u16)>,
    pub yielded: Ghost<Seq<(int, int)>>,
}

impl<C: Fn(&Point) -> Option<i16>> DijsktraScan<C> {
    /// The cost function accepts every cell of the space and never returns a
    /// negative step cost.
    pub open spec fn cost_fn_wf(space: Space, cost_fn: C) -> bool {
        &&& forall|p: Point|
            p.wf() && p.space == space ==> #[trigger] call_requires(cost_fn, (&p,))
        &&& forall|p: Point, ret: Option<i16>|
            #[trigger] call_ensures(cost_fn, (&p,), ret) ==> (ret matches Some(c) ==> c >= 0)
    }

    /// The cost of the most recently yielded entry, 0 before the first.
    pub open spec fn last_cost(&self) -> int {
        if self.yielded@.len() > 0 {
            self.yielded@.last().0
        } else {
            0
        }
    }

    /// Queue entry `j` names a cell that has not been yielded yet.
    pub open spec fn entry_pending(&self, j: int) -> bool {
        0 <= j < self.queue@.len() && !self.visited@[self.queue@[j].1 as int]
    }

    /// Some entry of the queue names an unyielded cell: the scan has more to
    /// yield.
    pub open spec fn has_pending(&self) -> bool {
        exists|j: int| self.entry_pending(j)
    }

    /// Queue entry `j` of the sequence `q` is a push of a neighbour of cell
    /// `z`: its cost is the popped cost `c` plus a step cost the cost
    /// function admits for that neighbour.
    pub open spec fn pushed_entry(
        space: Space,
        cost_fn: C,
        q: Seq<(i64, u16)>,
        c: int,
        z: int,
        j: int,
    ) -> bool {
        exists|dd: Dir, step: i16|
            #![trigger space.adjacent_spec(z, dd), call_ensures(cost_fn, (&(Point { space: space, ix: q[j].1 }),), Some(step))]
            {
                &&& q[j].1 as int == space.adjacent_spec(z, dd)
                &&& q[j].0 as int == c + step
                &&& call_ensures(cost_fn, (&(Point { space: space, ix: q[j].1 }),), Some(step))
            }
    }

    /// The neighbour of cell `z` in direction `dd` is either already yielded
    /// (per the image `visited`) or accounted for: some outcome the cost
    /// function admits either rejects it or has put it in the queue `q` on
    /// top of the popped cost `c`.
    pub open spec fn nbr_covered(
        space: Space,
        cost_fn: C,
        q: Seq<(i64, u16)>,
        visited: Seq<bool>,
        c: int,
        z: int,
        dd: Dir,
    ) -> bool {
        visited[space.adjacent_spec(z, dd)] || exists|ret: Option<i16>|
            {
                &&& #[trigger] call_ensures(
                    cost_fn,
                    (&(Point { space: space, ix: space.adjacent_spec(z, dd) as u16 }),),
                    ret,
                )
                &&& (ret matches Some(step) ==> queue_has(q, c + step, space.adjacent_spec(z, dd)))
            }
    }

    pub open spec fn wf(&self) -> bool {
        &&& self.space.wf()
        &&& Self::cost_fn_wf(self.space, self.cost_fn)
        &&& self.visited.len() == self.space.sz
        &&& forall|j: int|
            0 <= j < self.queue.len() ==> (#[trigger] self.queue@[j]).1 < self.space.sz
        &&& forall|j: int|
            0 <= j < self.queue.len() ==> self.last_cost() <= (#[trigger] self.queue@[j]).0
                && 0 <= self.queue@[j].0 && self.queue@[j].0 <= MAX_STEP * (self.yielded@.len()
                + 1)
        &&& forall|j: int|
            0 <= j < self.yielded@.len() ==> 0 <= (#[trigger] self.yielded@[j]).1
                < self.space.sz && 0 <= self.yielded@[j].0
        &&& forall|j1: int, j2: int|
            0 <= j1 < j2 < self.yielded@.len() ==> self.yielded@[j1].0 <= self.yielded@[j2].0
        &&& forall|j1: int, j2: int|
            0 <= j1 < j2 < self.yielded@.len() ==> self.yielded@[j1].1 != self.yielded@[j2].1
        &&& forall|j: int|
            0 <= j < self.yielded@.len() ==> self.visited@[(#[trigger] self.yielded@[j]).1]
    }

    /// A fresh scan from `pnt`. The origin is pending exactly when the cost
    /// function accepted it.
    pub fn new(pnt: Point, cost_fn: C) -> (r: DijsktraScan<C>)
        requires
            pnt.wf(),
            Self::cost_fn_wf(pnt.space, cost_fn),
        ensures
            r.wf(),
            r.space == pnt.space,
            r.cost_fn == cost_fn,
            r.yielded@.len() == 0,
            r.visited@.len() == pnt.space.sz,
            forall|z: int| 0 <= z < r.visited@.len() ==> !r.visited@[z],
            exists|ret: Option<i16>|
                {
                    &&& #[trigger] call_ensures(cost_fn, (&pnt,), ret)
                    &&& (ret is None ==> r.queue@.len() == 0)
                    &&& (ret matches Some(c) ==> r.queue@ =~= seq![(c as i64, pnt.ix)])
                },
    {
        let s = pnt.space().len();
        let mut queue: Vec<(i64, u16)> = Vec::new();
        let init = cost_fn(&pnt);
        if let Some(init_cost) = init {
            queue.push((init_cost as i64, pnt.ix));
        }
        let mut visited: Vec<bool> = Vec::new();
        let mut i: usize = 0;
        while i < s
            invariant
                i <= s,
                visited.len() == i,
                forall|z: int| 0 <= z < i ==> !visited[z],
            decreases s - i,
        {
            visited.push(false);
            i = i + 1;
        }
        let r = DijsktraScan {
            space: pnt.space,
            cost_fn,
            visited,
            queue,
            yielded: Ghost(Seq::empty()),
        };
        proof {
            assert(call_ensures(r.cost_fn, (&pnt,), init));
        }
        r
    }

    /// Pushing entries on the queue keeps a neighbour-coverage fact, since
    /// the witnesses keep their places.
    proof fn lemma_nbr_covered_push(
        space: Space,
        cost_fn: C,
        q1: Seq<(i64, u16)>,
        q2: Seq<(i64, u16)>,
        visited: Seq<bool>,
        c: int,
        z: int,
        dd: Dir,
    )
        requires
            Self::nbr_covered(space, cost_fn, q1, visited, c, z, dd),
            q1.len() <= q2.len(),
            forall|j: int| 0 <= j < q1.len() ==> q2[j] == q1[j],
        ensures
            Self::nbr_covered(space, cost_fn, q2, visited, c, z, dd),
    {
        let nz = space.adjacent_spec(z, dd);
        if visited[nz] {
        } else {
            let ret = choose|ret: Option<i16>|
                {
                    &&& #[trigger] call_ensures(
                        cost_fn,
                        (&(Point { space: space, ix: nz as u16 }),),
                        ret,
                    )
                    &&& (ret matches Some(step) ==> queue_has(q1, c + step, nz))
                };
            match ret {
                Some(step) => {
                    let k = choose|k: int|
                        0 <= k < q1.len() && (#[trigger] q1[k]).0 as int == c + step
                            && q1[k].1 as int == nz;
                    assert(q2[k].0 as int == c + step && q2[k].1 as int == nz);
                    assert(queue_has(q2, c + step, nz));
                },
                None => {
                },
            }
        }
    }

    /// Pops the pending entry of least cumulative cost that is still
    /// unvisited, marks it visited, queues its passable unvisited
    /// neighbours, and yields it. An entry is yielded exactly when some
    /// pending entry named an unyielded cell; the yielded entry is a
    /// minimum-cost one among those, the costs yielded over the scan's
    /// lifetime are non-decreasing, no cell is yielded twice, and the final
    /// queue holds only surviving old entries and the admitted neighbour
    /// pushes of the yielded cell.
    pub fn next(&mut self) -> (r: Option<(i64, Point)>)
        requires
            old(self).wf(),
        ensures
            final(self).wf(),
            final(self).space == old(self).space,
            final(self).cost_fn == old(self).cost_fn,
            (r is Some) <==> old(self).has_pending(),
            old(self).queue@.len() == 0 ==> r is None,
            match r {
                None => {
                    &&& final(self).yielded == old(self).yielded
                    &&& final(self).visited == old(self).visited
                    &&& final(self).queue@.len() == 0
                },
                Some((c, p)) => {
                    &&& p.wf()
                    &&& p.space == old(self).space
                    &&& 0 <= c
                    &&& old(self).last_cost() <= c
                    &&& final(self).yielded@ == old(self).yielded@.push((c as int, p.ix as int))
                    &&& forall|j: int|
                        0 <= j < old(self).yielded@.len() ==> (#[trigger] old(
                            self,
                        ).yielded@[j]).1 != p.ix as int
                    &&& !old(self).visited@[p.ix as int]
                    &&& queue_has(old(self).queue@, c as int, p.ix as int)
                    &&& forall|j: int|
                        old(self).entry_pending(j) ==> c as int <= (#[trigger] old(
                            self,
                        ).queue@[j]).0 as int
                    &&& final(self).visited@ == old(self).visited@.update(p.ix as int, true)
                    &&& forall|j: int|
                        0 <= j < final(self).queue@.len() ==> queue_has(
                            old(self).queue@,
                            (#[trigger] final(self).queue@[j]).0 as int,
                            final(self).queue@[j].1 as int,
                        ) || Self::pushed_entry(
                            old(self).space,
                            old(self).cost_fn,
                            final(self).queue@,
                            c as int,
                            p.ix as int,
                            j,
                        )
                    &&& forall|j: int|
                        old(self).entry_pending(j) && (#[trigger] old(self).queue@[j]).1
                            != p.ix ==> queue_has(
                            final(self).queue@,
                            old(self).queue@[j].0 as int,
                            old(self).queue@[j].1 as int,
                        )
                    &&& forall|dd: Dir| #[trigger] Self::nbr_covered(
                        old(self).space,
                        old(self).cost_fn,
                        final(self).queue@,
                        final(self).visited@,
                        c as int,
                        p.ix as int,
                        dd,
                    )
                },
            },
    {
        let mut res: Option<(i64, Point)> = None;
        loop
            invariant_except_break
                self.wf(),
                self.space == old(self).space,
                self.cost_fn == old(self).cost_fn,
                self.yielded == old(self).yielded,
                self.visited == old(self).visited,
                old(self).last_cost() == self.last_cost(),
                res is None,
                forall|j: int|
                    0 <= j < self.queue@.len() ==> queue_has(
                        old(self).queue@,
                        (#[trigger] self.queue@[j]).0 as int,
                        self.queue@[j].1 as int,
                    ),
                forall|j: int|
                    old(self).entry_pending(j) ==> queue_has(
                        self.queue@,
                        (#[trigger] old(self).queue@[j]).0 as int,
                        old(self).queue@[j].1 as int,
                    ),
            ensures
                self.wf(),
                self.space == old(self).space,
                self.cost_fn == old(self).cost_fn,
                (res is Some) <==> old(self).has_pending(),
                match res {
                    None => {
                        &&& self.yielded == old(self).yielded
                        &&& self.visited == old(self).visited
                        &&& self.queue@.len() == 0
                    },
                    Some((c, p)) => {
                        &&& p.wf()
                        &&& p.space == old(self).space
                        &&& 0 <= c
                        &&& old(self).last_cost() <= c
                        &&& self.yielded@ == old(self).yielded@.push((c as int, p.ix as int))
                        &&& forall|j: int|
                            0 <= j < old(self).yielded@.len() ==> (#[trigger] old(
                                self,
                            ).yielded@[j]).1 != p.ix as int
                        &&& !old(self).visited@[p.ix as int]
                        &&& queue_has(old(self).queue@, c as int, p.ix as int)
                        &&& forall|j: int|
                            old(self).entry_pending(j) ==> c as int <= (#[trigger] old(
                                self,
                            ).queue@[j]).0 as int
                        &&& self.visited@ == old(self).visited@.update(p.ix as int, true)
                        &&& forall|j: int|
                            0 <= j < self.queue@.len() ==> queue_has(
                                old(self).queue@,
                                (#[trigger] self.queue@[j]).0 as int,
                                self.queue@[j].1 as int,
                            ) || Self::pushed_entry(
                                old(self).space,
                                old(self).cost_fn,
                                self.queue@,
                                c as int,
                                p.ix as int,
                                j,
                            )
                        &&& forall|j: int|
                            old(self).entry_pending(j) && (#[trigger] old(self).queue@[j]).1
                                != p.ix ==> queue_has(
                                self.queue@,
                                old(self).queue@[j].0 as int,
                                old(self).queue@[j].1 as int,
                            )
                        &&& forall|dd: Dir| #[trigger] Self::nbr_covered(
                            old(self).space,
                            old(self).cost_fn,
                            self.queue@,
                            self.visited@,
                            c as int,
                            p.ix as int,
                            dd,
                        )
                    },
                },
            decreases self.queue.len(),
        {
            if self.queue.len() == 0 {
                proof {
                    assert forall|j: int| !old(self).entry_pending(j) by {
                        if old(self).entry_pending(j) {
                            assert(queue_has(
                                self.queue@,
                                old(self).queue@[j].0 as int,
                                old(self).queue@[j].1 as int,
                            ));
                        }
                    }
                }
                break ;
            }
            // Find the entry with the least cost.
            let mut m: usize = 0;
            let mut j: usize = 1;
            while j < self.queue.len()
                invariant
                    self.queue.len() > 0,
                    m < self.queue.len(),
                    1 <= j <= self.queue.len(),
                    forall|jj: int|
                        0 <= jj < j ==> self.queue@[m as int].0 <= (#[trigger] self.queue@[jj]).0,
                decreases self.queue.len() - j,
            {
                if self.queue[j].0 < self.queue[m].0 {
                    m = j;
                }
                j = j + 1;
            }
            let ghost q_pre = self.queue@;
            let (cost, z) = self.queue.remove(m);
            proof {
                q_pre.remove_ensures(m as int);
                // Every surviving entry keeps its pair, so it is still an
                // entry of the queue the call started with.
                assert forall|jj: int|
                    0 <= jj < self.queue@.len() implies queue_has(
                    old(self).queue@,
                    (#[trigger] self.queue@[jj]).0 as int,
                    self.queue@[jj].1 as int,
                ) by {
                    if jj < m {
                        assert(self.queue@[jj] == q_pre[jj]);
                        assert(queue_has(
                            old(self).queue@,
                            q_pre[jj].0 as int,
                            q_pre[jj].1 as int,
                        ));
                    } else {
                        assert(self.queue@[jj] == q_pre[jj + 1]);
                        assert(queue_has(
                            old(self).queue@,
                            q_pre[jj + 1].0 as int,
                            q_pre[jj + 1].1 as int,
                        ));
                    }
                }
            }
            if self.visited[z as usize] {
                // Stale entry: the cell was already yielded. Every pending
                // entry names an unyielded cell, so none is lost here.
                proof {
                    assert forall|jj: int| old(self).entry_pending(jj) implies queue_has(
                        self.queue@,
                        (#[trigger] old(self).queue@[jj]).0 as int,
                        old(self).queue@[jj].1 as int,
                    ) by {
                        let c0 = old(self).queue@[jj].0 as int;
                        let z0 = old(self).queue@[jj].1 as int;
                        assert(queue_has(q_pre, c0, z0));
                        let k = choose|k: int|
                            0 <= k < q_pre.len() && (#[trigger] q_pre[k]).0 as int == c0
                                && q_pre[k].1 as int == z0;
                        assert(k != m) by {
                            assert(q_pre[m as int].1 == z);
                            assert(!old(self).visited@[z0]);
                        }
                        if k < m {
                            assert(self.queue@[k] == q_pre[k]);
                            assert(queue_has(self.queue@, c0, z0));
                        } else {
                            assert(self.queue@[k - 1] == q_pre[k]);
                            assert(queue_has(self.queue@, c0, z0));
                        }
                    }
                }
                continue ;
            }
            proof {
                lemma_history_capacity(self.yielded@, self.space.sz as int);
                assert forall|jj: int|
                    0 <= jj < self.yielded@.len() implies (#[trigger] self.yielded@[jj]).1
                    != z as int by {
                    if self.yielded@[jj].1 == z as int {
                        assert(self.visited@[z as int]);
                    }
                }
                // The popped pair stood in the old queue, pending; and it is
                // a minimum among all pending old entries.
                assert(q_pre[m as int].0 == cost && q_pre[m as int].1 == z);
                assert(queue_has(old(self).queue@, cost as int, z as int)) by {
                    assert(queue_has(old(self).queue@, q_pre[m as int].0 as int, q_pre[m as int].1 as int));
                }
                assert(old(self).has_pending()) by {
                    let k = choose|k: int|
                        0 <= k < old(self).queue@.len() && (#[trigger] old(
                            self,
                        ).queue@[k]).0 as int == cost as int && old(self).queue@[k].1 as int
                            == z as int;
                    assert(old(self).entry_pending(k));
                }
                assert forall|jj: int| old(self).entry_pending(jj) implies cost as int
                    <= (#[trigger] old(self).queue@[jj]).0 as int by {
                    let c0 = old(self).queue@[jj].0 as int;
                    let z0 = old(self).queue@[jj].1 as int;
                    assert(queue_has(q_pre, c0, z0));
                    let k = choose|k: int|
                        0 <= k < q_pre.len() && (#[trigger] q_pre[k]).0 as int == c0
                            && q_pre[k].1 as int == z0;
                    assert(q_pre[m as int].0 <= q_pre[k].0);
                }
                // Pending old entries of other cells survive the removal.
                assert forall|jj: int|
                    old(self).entry_pending(jj) && (#[trigger] old(self).queue@[jj]).1
                        != z implies queue_has(
                    self.queue@,
                    old(self).queue@[jj].0 as int,
                    old(self).queue@[jj].1 as int,
                ) by {
                    let c0 = old(self).queue@[jj].0 as int;
                    let z0 = old(self).queue@[jj].1 as int;
                    assert(queue_has(q_pre, c0, z0));
                    let k = choose|k: int|
                        0 <= k < q_pre.len() && (#[trigger] q_pre[k]).0 as int == c0
                            && q_pre[k].1 as int == z0;
                    assert(k != m) by {
                        assert(q_pre[m as int].1 == z);
                    }
                    if k < m {
                        assert(self.queue@[k] == q_pre[k]);
                        assert(queue_has(self.queue@, c0, z0));
                    } else {
                        assert(self.queue@[k - 1] == q_pre[k]);
                        assert(queue_has(self.queue@, c0, z0));
                    }
                }
            }
            self.visited.set(z as usize, true);
            let p = Point { space: self.space, ix: z };
            // Queue the passable unvisited neighbours.
            let ds = Dir::dirs();
            let mut d: usize = 0;
            while d < 4
                invariant
                    self.space == old(self).space,
                    self.cost_fn == old(self).cost_fn,
                    self.yielded == old(self).yielded,
                    old(self).last_cost() == self.last_cost(),
                    self.space.wf(),
                    Self::cost_fn_wf(self.space, self.cost_fn),
                    self.visited.len() == self.space.sz,
                    p.wf(),
                    p.space == self.space,
                    p.ix == z,
                    z < self.space.sz,
                    d <= 4,
                    ds@ == seq![Dir::North, Dir::East, Dir::South, Dir::West],
                    self.visited@[z as int],
                    self.visited@ == old(self).visited@.update(z as int, true),
                    0 <= cost,
                    self.last_cost() <= cost,
                    cost <= MAX_STEP * (self.yielded@.len() + 1),
                    self.yielded@.len() <= self.space.sz,
                    forall|j: int|
                        0 <= j < self.queue.len() ==> (#[trigger] self.queue@[j]).1
                            < self.space.sz,
                    forall|j: int|
                        0 <= j < self.queue.len() ==> cost <= (#[trigger] self.queue@[j]).0
                            && 0 <= self.queue@[j].0 && self.queue@[j].0 <= MAX_STEP * (
                        self.yielded@.len() + 2),
                    forall|j: int|
                        0 <= j < self.yielded@.len() ==> 0 <= (#[trigger] self.yielded@[j]).1
                            < self.space.sz && 0 <= self.yielded@[j].0,
                    forall|j1: int, j2: int|
                        0 <= j1 < j2 < self.yielded@.len() ==> self.yielded@[j1].0
                            <= self.yielded@[j2].0,
                    forall|j1: int, j2: int|
                        0 <= j1 < j2 < self.yielded@.len() ==> self.yielded@[j1].1
                            != self.yielded@[j2].1,
                    forall|j: int|
                        0 <= j < self.yielded@.len() ==> self.visited@[(#[trigger] self
                            .yielded@[j]).1],
                    forall|j: int|
                        0 <= j < self.yielded@.len() ==> (#[trigger] self.yielded@[j]).1
                            != z as int,
                    forall|j: int|
                        0 <= j < self.queue@.len() ==> queue_has(
                            old(self).queue@,
                            (#[trigger] self.queue@[j]).0 as int,
                            self.queue@[j].1 as int,
                        ) || Self::pushed_entry(
                            self.space,
                            self.cost_fn,
                            self.queue@,
                            cost as int,
                            z as int,
                            j,
                        ),
                    forall|j: int|
                        old(self).entry_pending(j) && (#[trigger] old(self).queue@[j]).1
                            != z ==> queue_has(
                            self.queue@,
                            old(self).queue@[j].0 as int,
                            old(self).queue@[j].1 as int,
                        ),
                    forall|di: int|
                        0 <= di < d ==> #[trigger] Self::nbr_covered(
                            self.space,
                            self.cost_fn,
                            self.queue@,
                            self.visited@,
                            cost as int,
                            z as int,
                            ds@[di],
                        ),
                decreases 4 - d,
            {
                let np = p.adjacent_in(&ds[d]);
                let ghost self_nb = *self;
                if !self.visited[np.ix as usize] {
                    proof {
                        assert(call_requires(self.cost_fn, (&np,)));
                    }
                    let step = (self.cost_fn)(&np);
                    if let Some(step_cost) = step {
                        self.queue.push((cost + step_cost as i64, np.ix));
                        proof {
                            let last = self.queue@.len() - 1;
                            assert(np == (Point { space: self.space, ix: np.ix }));
                            assert(Self::pushed_entry(
                                self.space,
                                self.cost_fn,
                                self.queue@,
                                cost as int,
                                z as int,
                                last,
                            )) by {
                                assert(self.queue@[last].1 as int == self.space.adjacent_spec(
                                    z as int,
                                    ds@[d as int],
                                ) && self.queue@[last].0 as int == cost as int + step_cost
                                    && call_ensures(
                                    self.cost_fn,
                                    (&(Point { space: self.space, ix: self.queue@[last].1 }),),
                                    Some(step_cost),
                                ));
                            }
                            assert forall|j: int|
                                0 <= j < self.queue@.len() implies queue_has(
                                old(self).queue@,
                                (#[trigger] self.queue@[j]).0 as int,
                                self.queue@[j].1 as int,
                            ) || Self::pushed_entry(
                                self.space,
                                self.cost_fn,
                                self.queue@,
                                cost as int,
                                z as int,
                                j,
                            ) by {
                                if j < last {
                                    assert(self.queue@[j] == self_nb.queue@[j]);
                                    if !queue_has(
                                        old(self).queue@,
                                        self.queue@[j].0 as int,
                                        self.queue@[j].1 as int,
                                    ) {
                                        assert(Self::pushed_entry(
                                            self_nb.space,
                                            self_nb.cost_fn,
                                            self_nb.queue@,
                                            cost as int,
                                            z as int,
                                            j,
                                        ));
                                        let (dd, st) = choose|dd: Dir, st: i16|
                                            #![trigger self_nb.space.adjacent_spec(z as int, dd), call_ensures(self_nb.cost_fn, (&(Point { space: self_nb.space, ix: self_nb.queue@[j].1 }),), Some(st))]
                                            {
                                                &&& self_nb.queue@[j].1 as int
                                                    == self_nb.space.adjacent_spec(z as int, dd)
                                                &&& self_nb.queue@[j].0 as int == cost as int + st
                                                &&& call_ensures(
                                                    self_nb.cost_fn,
                                                    (&(Point {
                                                        space: self_nb.space,
                                                        ix: self_nb.queue@[j].1,
                                                    }),),
                                                    Some(st),
                                                )
                                            };
                                        assert(self.queue@[j].1 as int == self.space.adjacent_spec(
                                            z as int,
                                            dd,
                                        ) && self.queue@[j].0 as int == cost as int + st
                                            && call_ensures(
                                            self.cost_fn,
                                            (&(Point { space: self.space, ix: self.queue@[j].1 }),),
                                            Some(st),
                                        ));
                                        assert(Self::pushed_entry(
                                            self.space,
                                            self.cost_fn,
                                            self.queue@,
                                            cost as int,
                                            z as int,
                                            j,
                                        ));
                                    }
                                }
                            }
                            assert forall|j: int|
                                old(self).entry_pending(j) && (#[trigger] old(
                                self,
                            ).queue@[j]).1 != z implies queue_has(
                                self.queue@,
                                old(self).queue@[j].0 as int,
                                old(self).queue@[j].1 as int,
                            ) by {
                                let c0 = old(self).queue@[j].0 as int;
                                let z0 = old(self).queue@[j].1 as int;
                                let k = choose|k: int|
                                    0 <= k < self_nb.queue@.len() && (#[trigger] self_nb
                                        .queue@[k]).0 as int == c0 && self_nb.queue@[k].1 as int
                                        == z0;
                                assert(self.queue@[k] == self_nb.queue@[k]);
                                assert(queue_has(self.queue@, c0, z0));
                            }
                            assert forall|di: int|
                                0 <= di < d implies #[trigger] Self::nbr_covered(
                                self.space,
                                self.cost_fn,
                                self.queue@,
                                self.visited@,
                                cost as int,
                                z as int,
                                ds@[di],
                            ) by {
                                Self::lemma_nbr_covered_push(
                                    self.space,
                                    self.cost_fn,
                                    self_nb.queue@,
                                    self.queue@,
                                    self.visited@,
                                    cost as int,
                                    z as int,
                                    ds@[di],
                                );
                            }
                            assert(Self::nbr_covered(
                                self.space,
                                self.cost_fn,
                                self.queue@,
                                self.visited@,
                                cost as int,
                                z as int,
                                ds@[d as int],
                            )) by {
                                assert(queue_has(
                                    self.queue@,
                                    cost as int + step_cost,
                                    self.space.adjacent_spec(z as int, ds@[d as int]),
                                )) by {
                                    assert(self.queue@[last].0 as int == cost as int + step_cost
                                        && self.queue@[last].1 as int == self.space.adjacent_spec(
                                        z as int,
                                        ds@[d as int],
                                    ));
                                }
                                assert(call_ensures(
                                    self.cost_fn,
                                    (&(Point {
                                        space: self.space,
                                        ix: self.space.adjacent_spec(z as int, ds@[d as int]) as u16,
                                    }),),
                                    Some(step_cost),
                                ));
                            }
                        }
                    } else {
                        proof {
                            assert(np == (Point { space: self.space, ix: np.ix }));
                            assert(Self::nbr_covered(
                                self.space,
                                self.cost_fn,
                                self.queue@,
                                self.visited@,
                                cost as int,
                                z as int,
                                ds@[d as int],
                            )) by {
                                assert(call_ensures(
                                    self.cost_fn,
                                    (&(Point {
                                        space: self.space,
                                        ix: self.space.adjacent_spec(z as int, ds@[d as int]) as u16,
                                    }),),
                                    None::<i16>,
                                ));
                            }
                        }
                    }
                } else {
                    proof {
                        assert(Self::nbr_covered(
                            self.space,
                            self.cost_fn,
                            self.queue@,
                            self.visited@,
                            cost as int,
                            z as int,
                            ds@[d as int],
                        )) by {
                            assert(self.visited@[self.space.adjacent_spec(z as int, ds@[d as int])]);
                        }
                    }
                }
                proof {
                    assert forall|di: int|
                        0 <= di < d + 1 implies #[trigger] Self::nbr_covered(
                        self.space,
                        self.cost_fn,
                        self.queue@,
                        self.visited@,
                        cost as int,
                        z as int,
                        ds@[di],
                    ) by {
                    }
                }
                d = d + 1;
            }
            proof {
                // Every direction is one of the four expanded.
                assert forall|dd: Dir| #[trigger] Self::nbr_covered(
                    self.space,
                    self.cost_fn,
                    self.queue@,
                    self.visited@,
                    cost as int,
                    z as int,
                    dd,
                ) by {
                    match dd {
                        Dir::North => {
                            assert(Self::nbr_covered(
                                self.space,
                                self.cost_fn,
                                self.queue@,
                                self.visited@,
                                cost as int,
                                z as int,
                                ds@[0],
                            ));
                        },
                        Dir::East => {
                            assert(Self::nbr_covered(
                                self.space,
                                self.cost_fn,
                                self.queue@,
                                self.visited@,
                                cost as int,
                                z as int,
                                ds@[1],
                            ));
                        },
                        Dir::South => {
                            assert(Self::nbr_covered(
                                self.space,
                                self.cost_fn,
                                self.queue@,
                                self.visited@,
                                cost as int,
                                z as int,
                                ds@[2],
                            ));
                        },
                        Dir::West => {
                            assert(Self::nbr_covered(
                                self.space,
                                self.cost_fn,
                                self.queue@,
                                self.visited@,
                                cost as int,
                                z as int,
                                ds@[3],
                            ));
                        },
                    }
                }
            }
            proof {
                let h = self.yielded@.push((cost as int, z as int));
                assert forall|j1: int, j2: int|
                    0 <= j1 < j2 < h.len() implies h[j1].1 != h[j2].1 by {
                    if j2 == h.len() - 1 {
                        assert(self.yielded@[j1].1 != z as int);
                    }
                }
                assert forall|j1: int, j2: int|
                    0 <= j1 < j2 < h.len() implies h[j1].0 <= h[j2].0 by {
                    if j2 == h.len() - 1 && j1 < h.len() - 1 {
                        if self.yielded@.len() > 0 && j1 < self.yielded@.len() {
                            assert(self.yielded@[j1].0 <= self.yielded@[self.yielded@.len()
                                - 1].0);
                        }
                    }
                }
                self.yielded@ = h;
            }
            res = Some((cost, p));
            break ;
        }
        res
    }
}

impl Point {
    /// A uniform-cost scan of the space starting at this cell: the same
    /// structure `DijsktraScan::new` builds, with the origin seeded exactly
    /// when the cost function accepted it.
    pub fn dijkstra_scan<C: Fn(&Point) -> Option<i16>>(&self, cost_fn: C) -> (r: DijsktraScan<C>)
        requires
            self.wf(),
            DijsktraScan::<C>::cost_fn_wf(self.space, cost_fn),
        ensures
            r.wf(),
            r.space == self.space,
            r.cost_fn == cost_fn,
            r.yielded@.len() == 0,
            r.visited@.len() == self.space.sz,
            forall|z: int| 0 <= z < r.visited@.len() ==> !r.visited@[z],
            exists|ret: Option<i16>|
                {
                    &&& #[trigger] call_ensures(cost_fn, (self,), ret)
                    &&& (ret is None ==> r.queue@.len() == 0)
                    &&& (ret matches Some(c) ==> r.queue@ =~= seq![(c as i64, self.ix)])
                },
    {
        DijsktraScan::new(*self, cost_fn)
    }
}

} // verus!
