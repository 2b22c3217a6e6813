//! Multi-source simultaneous breadth-first flood fill producing discrete
//! wavefronts: rings of equal topological distance from a seed mask,
//! optionally bounded by a sink mask whose cells absorb the wave.

use vstd::prelude::*;
use vstd::seq_lib::*;
use vstd::set_lib::*;
use crate::dir::Dir;
use crate::gridmap::GridMap;
use crate::space::Space;
use crate::space::mask::Mask;

verus! {

/// Image value of a barrier cell: a sink cell that is not also a source.
pub const BARRIER: u32 = 0xffff_ffff;

/// The fixed expansion order of the four directions.
pub open spec fn dir_seq() -> Seq<Dir> {
    seq![Dir::North, Dir::East, Dir::South, Dir::West]
}

/// `b` is one of the four wraparound neighbours of `a`.
pub open spec fn adj(s: Space, a: int, b: int) -> bool {
    ||| b == s.adjacent_spec(a, Dir::North)
    ||| b == s.adjacent_spec(a, Dir::East)
    ||| b == s.adjacent_spec(a, Dir::South)
    ||| b == s.adjacent_spec(a, Dir::West)
}

/// The neighbours of `y` reached by the first `d` directions of the fixed
/// expansion order.
pub open spec fn nbrs_upto(s: Space, y: int, d: int) -> Set<int> {
    Set::new(|z: int| exists|j: int| 0 <= j < d && z == s.adjacent_spec(y, dir_seq()[j]))
}

/// The `k`-th wavefront and the set of all cells reached by front `k`, for a
/// wave from source set `src` absorbed by barrier set `bar`. Front 1 is the
/// source itself; front `k + 1` holds the cells, neither barrier nor already
/// reached, adjacent to a cell of front `k`.
pub open spec fn wavefronts(s: Space, src: Set<int>, bar: Set<int>, k: nat) -> (Set<int>, Set<
    int,
>)
    decreases k,
{
    if k == 0 {
        (Set::empty(), Set::empty())
    } else if k == 1 {
        (src, src)
    } else {
        let prev = wavefronts(s, src, bar, (k - 1) as nat);
        let lv = Set::new(
            |z: int|
                0 <= z < s.sz && !bar.contains(z) && !prev.1.contains(z) && exists|y: int|
                    #[trigger] prev.0.contains(y) && adj(s, y, z),
        );
        (lv, prev.1.union(lv))
    }
}

/// The `k`-th wavefront.
pub open spec fn level(s: Space, src: Set<int>, bar: Set<int>, k: nat) -> Set<int> {
    wavefronts(s, src, bar, k).0
}

/// All cells reached by front `k`.
pub open spec fn reached(s: Space, src: Set<int>, bar: Set<int>, k: nat) -> Set<int> {
    wavefronts(s, src, bar, k).1
}

/// The cells, neither barrier nor reached before front `k`, adjacent to a
/// cell of `parents`.
pub open spec fn partial_level(
    s: Space,
    src: Set<int>,
    bar: Set<int>,
    k: nat,
    parents: Set<int>,
) -> Set<int> {
    Set::new(
        |z: int|
            0 <= z < s.sz && !bar.contains(z) && !reached(s, src, bar, (k - 1) as nat).contains(z)
                && exists|y: int| #[trigger] parents.contains(y) && adj(s, y, z),
    )
}

/// As `partial_level`, but restricted to the first `d` directions out of the
/// single parent `y`.
pub open spec fn good_nbrs(s: Space, src: Set<int>, bar: Set<int>, k: nat, y: int, d: int) -> Set<
    int,
> {
    Set::new(
        |z: int|
            0 <= z < s.sz && !bar.contains(z) && !reached(s, src, bar, (k - 1) as nat).contains(z)
                && nbrs_upto(s, y, d).contains(z),
    )
}

/// The set of values of a sequence of cell indices.
pub open spec fn seq_set(q: Seq<u16>) -> Set<int> {
    Set::new(|z: int| exists|i: int| 0 <= i < q.len() && q[i] == z)
}

/// The barrier cells of a wave: the sink cells that are not also sources.
pub open spec fn barrier_of(source: &Mask, sink: Option<&Mask>) -> Set<int> {
    match sink {
        Some(k) => k.set().difference(source.set()),
        None => Set::empty(),
    }
}

/// A cell is adjacent to `y` exactly when all four directions are allowed.
pub proof fn lemma_adj_nbrs(s: Space, y: int, z: int)
    ensures
        adj(s, y, z) <==> nbrs_upto(s, y, 4).contains(z),
{
    if adj(s, y, z) {
        if z == s.adjacent_spec(y, Dir::North) {
            assert(z == s.adjacent_spec(y, dir_seq()[0]));
        } else if z == s.adjacent_spec(y, Dir::East) {
            assert(z == s.adjacent_spec(y, dir_seq()[1]));
        } else if z == s.adjacent_spec(y, Dir::South) {
            assert(z == s.adjacent_spec(y, dir_seq()[2]));
        } else {
            assert(z == s.adjacent_spec(y, dir_seq()[3]));
        }
    }
    if nbrs_upto(s, y, 4).contains(z) {
        let j = choose|j: int| 0 <= j < 4 && z == s.adjacent_spec(y, dir_seq()[j]);
        assert(j == 0 || j == 1 || j == 2 || j == 3);
    }
}

/// A cell is reached by front `k` exactly when it lies on some front up to
/// `k`.
pub proof fn lemma_reached_iff(s: Space, src: Set<int>, bar: Set<int>, k: nat, z: int)
    ensures
        reached(s, src, bar, k).contains(z) <==> exists|j: nat|
            1 <= j <= k && #[trigger] level(s, src, bar, j).contains(z),
    decreases k,
{
    if k == 0 {
    } else if k == 1 {
        assert(level(s, src, bar, 1) == src);
        if reached(s, src, bar, 1).contains(z) {
            assert(level(s, src, bar, 1nat).contains(z));
        }
    } else {
        lemma_reached_iff(s, src, bar, (k - 1) as nat, z);
        if reached(s, src, bar, k).contains(z) {
            if level(s, src, bar, k).contains(z) {
            } else {
                assert(reached(s, src, bar, (k - 1) as nat).contains(z));
            }
        }
        if exists|j: nat| 1 <= j <= k && #[trigger] level(s, src, bar, j).contains(z) {
            let j = choose|j: nat| 1 <= j <= k && #[trigger] level(s, src, bar, j).contains(z);
            if j <= k - 1 {
                assert(reached(s, src, bar, (k - 1) as nat).contains(z));
            }
        }
    }
}

/// Distinct wavefronts are disjoint: no cell lies on two of them.
pub proof fn lemma_levels_disjoint(s: Space, src: Set<int>, bar: Set<int>, j1: nat, j2: nat, z: int)
    requires
        1 <= j1 < j2,
        level(s, src, bar, j2).contains(z),
    ensures
        !level(s, src, bar, j1).contains(z),
{
    if level(s, src, bar, j1).contains(z) {
        lemma_reached_iff(s, src, bar, (j2 - 1) as nat, z);
        assert(reached(s, src, bar, (j2 - 1) as nat).contains(z));
    }
}

/// Once a wavefront is empty, all later fronts are empty too.
pub proof fn lemma_level_empty_stable(s: Space, src: Set<int>, bar: Set<int>, k0: nat, k: nat)
    requires
        1 <= k0 <= k,
        level(s, src, bar, k0) =~= Set::empty(),
    ensures
        level(s, src, bar, k) =~= Set::empty(),
    decreases k - k0,
{
    if k > k0 {
        lemma_level_empty_stable(s, src, bar, k0, (k - 1) as nat);
        assert forall|z: int| !level(s, src, bar, k).contains(z) by {
            if level(s, src, bar, k).contains(z) {
                let y = choose|y: int|
                    #[trigger] level(s, src, bar, (k - 1) as nat).contains(y) && adj(s, y, z);
            }
        }
    }
}

/// A duplicate-free sequence of cell indices that avoids one in-range cell
/// cannot fill the whole grid.
proof fn lemma_prefix_capacity(pre: Seq<u16>, n: int, nb: u16)
    requires
        pre.no_duplicates(),
        forall|i: int| 0 <= i < pre.len() ==> #[trigger] pre[i] < n,
        !pre.contains(nb),
        nb < n,
    ensures
        pre.len() < n,
{
    let f = |x: u16| x as int;
    let pi = pre.map_values(f);
    pre.lemma_no_duplicates_injective(f);
    pi.unique_seq_to_set();
    let big = set_int_range(0, n).remove(nb as int);
    assert forall|z: int| pi.to_set().contains(z) implies big.contains(z) by {
        let i = choose|i: int| 0 <= i < pi.len() && pi[i] == z;
        assert(pre[i] < n);
        assert(pre[i] != nb);
    }
    lemma_int_range(0, n);
    lemma_len_subset(pi.to_set(), big);
}

/// Adding a fully expanded parent to the parent set grows the partial front
/// by the parent's allowed neighbours.
proof fn lemma_partial_split(
    s: Space,
    src: Set<int>,
    bar: Set<int>,
    k: nat,
    parents: Set<int>,
    y: int,
)
    ensures
        partial_level(s, src, bar, k, parents.insert(y)) =~= partial_level(
            s,
            src,
            bar,
            k,
            parents,
        ).union(good_nbrs(s, src, bar, k, y, 4)),
{
    assert forall|z: int|
        partial_level(s, src, bar, k, parents.insert(y)).contains(z) implies partial_level(
        s,
        src,
        bar,
        k,
        parents,
    ).union(good_nbrs(s, src, bar, k, y, 4)).contains(z) by {
        let yy = choose|yy: int| #[trigger] parents.insert(y).contains(yy) && adj(s, yy, z);
        if yy == y {
            lemma_adj_nbrs(s, y, z);
        } else {
            assert(parents.contains(yy) && adj(s, yy, z));
        }
    }
    assert forall|z: int|
        partial_level(s, src, bar, k, parents).union(good_nbrs(s, src, bar, k, y, 4)).contains(
        z,
    ) implies partial_level(s, src, bar, k, parents.insert(y)).contains(z) by {
        if partial_level(s, src, bar, k, parents).contains(z) {
            let yy = choose|yy: int| #[trigger] parents.contains(yy) && adj(s, yy, z);
            assert(parents.insert(y).contains(yy) && adj(s, yy, z));
        } else {
            lemma_adj_nbrs(s, y, z);
            assert(parents.insert(y).contains(y) && adj(s, y, z));
        }
    }
}

/// A cell can be reached from the source set without crossing the barrier:
/// it lies on some wavefront.
pub open spec fn reachable(s: Space, src: Set<int>, bar: Set<int>, z: int) -> bool {
    exists|k: nat| 1 <= k && #[trigger] level(s, src, bar, k).contains(z)
}

/// A non-barrier cell adjacent to a reachable cell is reachable itself: it
/// lies on the next front, unless an earlier one already took it.
pub proof fn lemma_reachable_step(s: Space, src: Set<int>, bar: Set<int>, y: int, z: int)
    requires
        reachable(s, src, bar, y),
        adj(s, y, z),
        0 <= z < s.sz,
        !bar.contains(z),
    ensures
        reachable(s, src, bar, z),
{
    let k = choose|k: nat| 1 <= k && #[trigger] level(s, src, bar, k).contains(y);
    if reached(s, src, bar, k).contains(z) {
        lemma_reached_iff(s, src, bar, k, z);
        let j = choose|j: nat| 1 <= j <= k && #[trigger] level(s, src, bar, j).contains(z);
        assert(level(s, src, bar, j).contains(z));
    } else {
        assert(level(s, src, bar, (k + 1) as nat).contains(z)) by {
            assert(wavefronts(s, src, bar, k).0.contains(y) && adj(s, y, z));
        }
    }
}

/// `p` walks the wave graph: it starts on a source cell, every further cell
/// is a wraparound neighbour of the one before, in range and off the
/// barrier.
pub open spec fn wave_path(s: Space, src: Set<int>, bar: Set<int>, p: Seq<int>) -> bool {
    &&& p.len() >= 1
    &&& src.contains(p[0])
    &&& forall|i: int| 0 <= i < p.len() - 1 ==> adj(s, #[trigger] p[i], p[i + 1])
    &&& forall|i: int| 1 <= i < p.len() ==> 0 <= #[trigger] p[i] < s.sz && !bar.contains(p[i])
}

/// Some wave path of `n` cells ends at `z`.
pub open spec fn path_to(s: Space, src: Set<int>, bar: Set<int>, z: int, n: int) -> bool {
    exists|p: Seq<int>| wave_path(s, src, bar, p) && p.len() == n && p.last() == z
}

/// What front `k` reaches, later fronts reach too.
pub proof fn lemma_reached_monotone(s: Space, src: Set<int>, bar: Set<int>, a: nat, b: nat, z: int)
    requires
        a <= b,
        reached(s, src, bar, a).contains(z),
    ensures
        reached(s, src, bar, b).contains(z),
    decreases b,
{
    if a < b {
        lemma_reached_monotone(s, src, bar, a, (b - 1) as nat, z);
        assert(wavefronts(s, src, bar, b).1 == wavefronts(s, src, bar, (b - 1) as nat).1.union(
            wavefronts(s, src, bar, b).0,
        ));
    }
}

/// A non-barrier cell adjacent to a cell reached by front `k` is reached by
/// front `k + 1`.
proof fn lemma_reached_step(s: Space, src: Set<int>, bar: Set<int>, k: nat, y: int, z: int)
    requires
        reached(s, src, bar, k).contains(y),
        adj(s, y, z),
        0 <= z < s.sz,
        !bar.contains(z),
    ensures
        reached(s, src, bar, (k + 1) as nat).contains(z),
{
    lemma_reached_iff(s, src, bar, k, y);
    let j = choose|j: nat| 1 <= j <= k && #[trigger] level(s, src, bar, j).contains(y);
    if reached(s, src, bar, j).contains(z) {
        lemma_reached_monotone(s, src, bar, j, (k + 1) as nat, z);
    } else {
        assert(level(s, src, bar, (j + 1) as nat).contains(z)) by {
            assert(wavefronts(s, src, bar, j).0.contains(y) && adj(s, y, z));
        }
        assert(reached(s, src, bar, (j + 1) as nat).contains(z)) by {
            assert(wavefronts(s, src, bar, (j + 1) as nat).1 == wavefronts(
                s,
                src,
                bar,
                j,
            ).1.union(wavefronts(s, src, bar, (j + 1) as nat).0));
        }
        lemma_reached_monotone(s, src, bar, (j + 1) as nat, (k + 1) as nat, z);
    }
}

/// A wave path extends by one step onto a neighbouring non-barrier cell.
pub proof fn lemma_wave_path_push(s: Space, src: Set<int>, bar: Set<int>, p: Seq<int>, z: int)
    requires
        wave_path(s, src, bar, p),
        adj(s, p.last(), z),
        0 <= z < s.sz,
        !bar.contains(z),
    ensures
        wave_path(s, src, bar, p.push(z)),
{
    let q = p.push(z);
    assert(q[0] == p[0]);
    assert forall|i: int| 0 <= i < q.len() - 1 implies adj(s, #[trigger] q[i], q[i + 1]) by {
        if i < p.len() - 1 {
            assert(q[i] == p[i] && q[i + 1] == p[i + 1]);
        } else {
            assert(q[i] == p.last() && q[i + 1] == z);
        }
    }
    assert forall|i: int| 1 <= i < q.len() implies 0 <= #[trigger] q[i] < s.sz && !bar.contains(
        q[i],
    ) by {
        if i < p.len() {
            assert(q[i] == p[i]);
        }
    }
}

/// A cell of front `k` has a wave path of `k` cells.
proof fn lemma_level_has_path(s: Space, src: Set<int>, bar: Set<int>, k: nat, z: int)
    requires
        1 <= k,
        level(s, src, bar, k).contains(z),
    ensures
        path_to(s, src, bar, z, k as int),
    decreases k,
{
    if k == 1 {
        let p = seq![z];
        assert(wave_path(s, src, bar, p) && p.len() == 1 && p.last() == z);
    } else {
        let y = choose|y: int|
            #[trigger] wavefronts(s, src, bar, (k - 1) as nat).0.contains(y) && adj(s, y, z);
        assert(level(s, src, bar, (k - 1) as nat).contains(y));
        lemma_level_has_path(s, src, bar, (k - 1) as nat, y);
        let q = choose|q: Seq<int>|
            wave_path(s, src, bar, q) && q.len() == k - 1 && q.last() == y;
        let p = q.push(z);
        lemma_wave_path_push(s, src, bar, q, z);
        assert(p.len() == k && p.last() == z);
    }
}

/// The last cell of a wave path of `n` cells is reached by front `n`.
proof fn lemma_path_reached(s: Space, src: Set<int>, bar: Set<int>, p: Seq<int>)
    requires
        wave_path(s, src, bar, p),
    ensures
        reached(s, src, bar, p.len() as nat).contains(p.last()),
    decreases p.len(),
{
    if p.len() == 1 {
        assert(reached(s, src, bar, 1nat) == src);
    } else {
        let q = p.drop_last();
        assert(wave_path(s, src, bar, q)) by {
            assert(q[0] == p[0]);
            assert forall|i: int| 0 <= i < q.len() - 1 implies adj(s, #[trigger] q[i], q[i + 1]) by {
                assert(q[i] == p[i] && q[i + 1] == p[i + 1]);
            }
            assert forall|i: int| 1 <= i < q.len() implies 0 <= #[trigger] q[i] < s.sz
                && !bar.contains(q[i]) by {
                assert(q[i] == p[i]);
            }
        }
        lemma_path_reached(s, src, bar, q);
        assert(adj(s, p[p.len() - 2], p.last())) by {
            assert(adj(s, p[p.len() - 2], p[p.len() - 1]));
        }
        assert(q.last() == p[p.len() - 2]);
        lemma_reached_step(s, src, bar, q.len() as nat, q.last(), p.last());
    }
}

/// Wave fronts measure graph distance: front `k` holds exactly the cells
/// whose shortest wave path from the source set has `k` cells — that is,
/// the cells at `k - 1` wraparound steps from the nearest source cell,
/// barrier cells and cells beyond the barrier excluded.
pub proof fn lemma_front_is_distance(s: Space, src: Set<int>, bar: Set<int>, k: nat, z: int)
    requires
        1 <= k,
    ensures
        level(s, src, bar, k).contains(z) <==> (path_to(s, src, bar, z, k as int) && forall|m: int|
            1 <= m < k ==> !path_to(s, src, bar, z, m)),
{
    if level(s, src, bar, k).contains(z) {
        lemma_level_has_path(s, src, bar, k, z);
        assert forall|m: int| 1 <= m < k implies !path_to(s, src, bar, z, m) by {
            if path_to(s, src, bar, z, m) {
                let p = choose|p: Seq<int>|
                    wave_path(s, src, bar, p) && p.len() == m && p.last() == z;
                lemma_path_reached(s, src, bar, p);
                lemma_reached_monotone(s, src, bar, m as nat, (k - 1) as nat, z);
                assert(reached(s, src, bar, (k - 1) as nat).contains(z));
                lemma_reached_iff(s, src, bar, (k - 1) as nat, z);
                let j = choose|j: nat|
                    1 <= j <= k - 1 && #[trigger] level(s, src, bar, j).contains(z);
                lemma_levels_disjoint(s, src, bar, j, k, z);
            }
        }
    }
    if path_to(s, src, bar, z, k as int) && (forall|m: int| 1 <= m < k ==> !path_to(
        s,
        src,
        bar,
        z,
        m,
    )) {
        let p = choose|p: Seq<int>| wave_path(s, src, bar, p) && p.len() == k && p.last() == z;
        lemma_path_reached(s, src, bar, p);
        lemma_reached_iff(s, src, bar, k, z);
        let j = choose|j: nat| 1 <= j <= k && #[trigger] level(s, src, bar, j).contains(z);
        if j < k {
            lemma_level_has_path(s, src, bar, j, z);
            assert(!path_to(s, src, bar, z, j as int));
        }
    }
}

/// A reusable flood-fill structure: an image of front indices over the grid,
/// a flat array of cell indices grouped by front, and the offsets at which
/// each front's group ends.
pub struct Wave {
    pub space: Space,
    pub wave: Vec<u32>,
    pub ixs: Vec<u16>,
    pub stops: Vec<u16>,
}

impl Wave {
    pub open spec fn wf(&self) -> bool {
        &&& self.space.wf()
        &&& self.wave.len() == self.space.sz
        &&& self.ixs.len() == self.space.sz
    }

    /// The offsets are monotone and within the grid size, so that each front
    /// names a slice of the index array.
    pub open spec fn fronts_wf(&self) -> bool {
        &&& self.stops@.len() <= self.space.sz + 1
        &&& forall|j: int| 0 <= j < self.stops@.len() ==> #[trigger] self.stops@[j] <= self.space.sz
        &&& forall|j1: int, j2: int|
            0 <= j1 <= j2 < self.stops@.len() ==> self.stops@[j1] <= self.stops@[j2]
    }

    /// Where front `f`'s slice of the index array begins.
    pub open spec fn front_start(&self, f: int) -> int {
        if f == 0 {
            0
        } else {
            self.stops@[f - 1] as int
        }
    }

    /// The cells of front `f`, in discovery order.
    pub open spec fn front_seq(&self, f: int) -> Seq<u16> {
        self.ixs@.subrange(self.front_start(f), self.stops@[f] as int)
    }

    /// The cells of front `f`, as a set.
    pub open spec fn front_set(&self, f: int) -> Set<int> {
        seq_set(self.front_seq(f))
    }

    /// The number of fronts computed.
    pub open spec fn front_count(&self) -> int {
        self.stops@.len() as int
    }

    /// The wave describes exactly the flood fill from source set `src`
    /// absorbed by barrier set `bar`: the image holds each cell's front
    /// index (`BARRIER` for barrier cells, 0 for unreached cells), front `f`
    /// of the index array enumerates the `f + 1`-th wavefront without
    /// repetition, and no front beyond the computed ones is inhabited.
    pub open spec fn rippled(&self, src: Set<int>, bar: Set<int>) -> bool {
        let fc = self.front_count();
        &&& self.wf()
        &&& self.fronts_wf()
        &&& self.stops@.len() >= 1
        &&& forall|z: int|
            0 <= z < self.space.sz ==> ((#[trigger] self.wave@[z] == BARRIER) <==> bar.contains(
                z,
            ))
        &&& forall|z: int, k: int|
            0 <= z < self.space.sz && 1 <= k <= fc ==> ((self.wave@[z] == k)
                <==> #[trigger] level(self.space, src, bar, k as nat).contains(z))
        &&& forall|z: int|
            0 <= z < self.space.sz ==> (#[trigger] self.wave@[z] == BARRIER || self.wave@[z] <= fc)
        &&& forall|k: int|
            k > fc ==> #[trigger] level(self.space, src, bar, k as nat) =~= Set::<int>::empty()
        &&& forall|j: int| 1 <= j < fc ==> #[trigger] self.stops@[j - 1] < self.stops@[j]
        &&& self.ixs@.subrange(0, self.stops@[fc - 1] as int).no_duplicates()
        &&& forall|i: int|
            0 <= i < self.stops@[fc - 1] ==> #[trigger] self.ixs@[i] < self.space.sz
        &&& forall|f: int|
            0 <= f < fc ==> self.front_set(f) =~= level(self.space, src, bar, (f + 1) as nat)
    }

    /// An idle wave structure for `space`, ready to be rippled: its image is
    /// all zeros and no front has been computed yet, so `front` answers
    /// `None` for every index.
    pub fn new(space: &Space) -> (r: Wave)
        requires
            space.wf(),
        ensures
            r.wf(),
            r.fronts_wf(),
            r.space == *space,
            r.stops@.len() == 0,
            forall|z: int| 0 <= z < r.wave@.len() ==> r.wave@[z] == 0,
    {
        let n = space.len();
        let mut wave: Vec<u32> = Vec::new();
        let mut ixs: Vec<u16> = Vec::new();
        let mut i: usize = 0;
        while i < n
            invariant
                i <= n,
                wave.len() == i,
                ixs.len() == i,
                forall|z: int| 0 <= z < i ==> wave[z] == 0,
            decreases n - i,
        {
            wave.push(0);
            ixs.push(0);
            i = i + 1;
        }
        Wave { space: *space, wave, ixs, stops: Vec::new() }
    }

    /// The wave rippled from `source` alone.
    pub fn from(source: &Mask) -> (r: Wave)
        requires
            source.wf(),
        ensures
            r.space == source.space,
            r.rippled(source.set(), Set::<int>::empty()),
    {
        let mut wave = Wave::new(&source.space);
        wave.ripple(source, None);
        wave
    }

    /// The wave rippled from `source`, absorbed by the cells of `sink`.
    pub fn between(source: &Mask, sink: &Mask) -> (r: Wave)
        requires
            source.wf(),
            sink.wf(),
            sink.space == source.space,
        ensures
            r.space == source.space,
            r.rippled(source.set(), sink.set().difference(source.set())),
    {
        let mut wave = Wave::new(&source.space);
        wave.ripple(source, Some(sink));
        wave
    }

    /// Floods the grid from the cells of `source`. Cells of `sink` that are
    /// not sources absorb the wave: they are marked `BARRIER` and never
    /// expanded. On return the structure satisfies `rippled` for the source
    /// set and that barrier set.
    pub fn ripple(&mut self, source: &Mask, sink: Option<&Mask>)
        requires
            old(self).wf(),
            source.wf(),
            source.space == old(self).space,
            match sink {
                Some(k) => k.wf() && k.space == old(self).space,
                None => true,
            },
        ensures
            final(self).wf(),
            final(self).space == old(self).space,
            final(self).rippled(source.set(), barrier_of(source, sink)),
    {
        let ghost src = source.set();
        let ghost bar = barrier_of(source, sink);
        let space = self.space;
        let n = space.len();
        proof {
            assert(space.sz >= 1) by (nonlinear_arith)
                requires
                    space.sz == space.w * space.h,
                    space.w >= 1,
                    space.h >= 1,
            ;
        }
        let mut s: usize = 0;
        self.stops.clear();
        // Seed the image: front 1 for sources, BARRIER for sinks.
        let mut z: usize = 0;
        while z < n
            invariant
                space == self.space,
                space.wf(),
                n == space.spec_len(),
                self.wf(),
                source.wf(),
                source.space == space,
                match sink {
                    Some(k) => k.wf() && k.space == space,
                    None => true,
                },
                src == source.set(),
                bar == barrier_of(source, sink),
                self.stops@.len() == 0,
                z <= n,
                s <= z,
                forall|zz: int|
                    0 <= zz < z ==> #[trigger] self.wave@[zz] == (if src.contains(zz) {
                        1u32
                    } else if bar.contains(zz) {
                        BARRIER
                    } else {
                        0u32
                    }),
                forall|i: int| 0 <= i < s ==> #[trigger] self.ixs@[i] < z,
                forall|i: int| 0 <= i < s ==> src.contains(#[trigger] self.ixs@[i] as int),
                forall|i1: int, i2: int|
                    0 <= i1 < i2 < s ==> self.ixs@[i1] < self.ixs@[i2],
                forall|zz: int|
                    0 <= zz < z && src.contains(zz) ==> exists|i: int|
                        0 <= i < s && #[trigger] self.ixs@[i] == zz,
            decreases n - z,
        {
            if source.mask[z] {
                let ghost ixs_pre = self.ixs@;
                self.wave.set(z, 1);
                self.ixs.set(s, z as u16);
                proof {
                    assert forall|zz: int|
                        0 <= zz < z + 1 && src.contains(zz) implies exists|i: int|
                        0 <= i < s + 1 && #[trigger] self.ixs@[i] == zz by {
                        if zz == z {
                            assert(self.ixs@[s as int] == zz);
                        } else {
                            assert(exists|i: int| 0 <= i < s && #[trigger] ixs_pre[i] == zz);
                            let i = choose|i: int| 0 <= i < s && #[trigger] ixs_pre[i] == zz;
                            assert(self.ixs@[i] == zz);
                        }
                    }
                }
                s = s + 1;
            } else {
                let ghost ixs_pre = self.ixs@;
                let is_bar = match sink {
                    Some(k) => k.mask[z],
                    None => false,
                };
                if is_bar {
                    self.wave.set(z, BARRIER);
                } else {
                    self.wave.set(z, 0);
                }
                proof {
                    assert(!src.contains(z as int));
                    assert forall|zz: int|
                        0 <= zz < z + 1 && src.contains(zz) implies exists|i: int|
                        0 <= i < s && #[trigger] self.ixs@[i] == zz by {
                        assert(zz < z);
                        assert(exists|i: int| 0 <= i < s && #[trigger] ixs_pre[i] == zz);
                        let i = choose|i: int| 0 <= i < s && #[trigger] ixs_pre[i] == zz;
                        assert(self.ixs@[i] == zz);
                    }
                }
            }
            z = z + 1;
        }
        self.stops.push(s as u16);
        proof {
            assert(self.front_set(0) =~= level(space, src, bar, 1nat)) by {
                assert forall|zz: int| self.front_set(0).contains(zz) implies src.contains(
                    zz,
                ) by {
                    let i = choose|i: int|
                        0 <= i < self.front_seq(0).len() && #[trigger] self.front_seq(0)[i] == zz;
                    assert(self.ixs@[i] == zz);
                }
                assert forall|zz: int| src.contains(zz) implies self.front_set(0).contains(
                    zz,
                ) by {
                    assert(0 <= zz < space.sz);
                    let i = choose|i: int| 0 <= i < s && #[trigger] self.ixs@[i] == zz;
                    assert(self.front_seq(0)[i] == zz);
                }
            }
            assert(self.ixs@.subrange(0, s as int).no_duplicates());
            assert forall|zz: int| 0 <= zz < n implies ((#[trigger] self.wave@[zz] == 0) <==> (
            !bar.contains(zz) && !reached(space, src, bar, 1nat).contains(zz))) by {
                assert(reached(space, src, bar, 1nat) == src);
            }
        }
        // Expand the wave front by front.
        let mut a: usize = 0;
        let mut t: u32 = 2;
        let ds = Dir::dirs();
        loop
            invariant_except_break
                space == self.space,
                space.wf(),
                n == space.spec_len(),
                self.wf(),
                ds@ == dir_seq(),
                2 <= t,
                t - 1 == self.stops@.len(),
                t - 2 <= s,
                s <= n,
                s == self.stops@[t - 2] as int,
                a == (if t == 2 {
                    0int
                } else {
                    self.stops@[t - 3] as int
                }),
                forall|j: int| 0 <= j < self.stops@.len() ==> #[trigger] self.stops@[j] <= s,
                forall|j1: int, j2: int|
                    0 <= j1 <= j2 < self.stops@.len() ==> self.stops@[j1] <= self.stops@[j2],
                forall|j: int|
                    1 <= j < self.stops@.len() ==> #[trigger] self.stops@[j - 1]
                        < self.stops@[j],
                forall|zz: int|
                    0 <= zz < n ==> ((#[trigger] self.wave@[zz] == BARRIER) <==> bar.contains(
                        zz,
                    )),
                forall|zz: int, k: int|
                    0 <= zz < n && 1 <= k <= t - 1 ==> ((self.wave@[zz] == k)
                        <==> #[trigger] level(space, src, bar, k as nat).contains(zz)),
                forall|zz: int|
                    0 <= zz < n ==> (#[trigger] self.wave@[zz] == BARRIER || self.wave@[zz] <= t
                        - 1),
                forall|zz: int|
                    0 <= zz < n ==> ((#[trigger] self.wave@[zz] == 0) <==> (!bar.contains(zz)
                        && !reached(space, src, bar, (t - 1) as nat).contains(zz))),
                self.ixs@.subrange(0, s as int).no_duplicates(),
                forall|i: int| 0 <= i < s ==> #[trigger] self.ixs@[i] < n,
                forall|i: int|
                    0 <= i < s ==> #[trigger] self.wave@[self.ixs@[i] as int] != 0
                        && self.wave@[self.ixs@[i] as int] != BARRIER,
                forall|f: int|
                    0 <= f < t - 1 ==> self.front_set(f) =~= level(space, src, bar, (f + 1) as nat),
            ensures
                space == self.space,
                self.wf(),
                2 <= t,
                t - 1 == self.stops@.len(),
                t - 2 <= s,
                s <= n,
                s == self.stops@[t - 2] as int,
                forall|j: int| 0 <= j < self.stops@.len() ==> #[trigger] self.stops@[j] <= s,
                forall|j1: int, j2: int|
                    0 <= j1 <= j2 < self.stops@.len() ==> self.stops@[j1] <= self.stops@[j2],
                forall|j: int|
                    1 <= j < self.stops@.len() ==> #[trigger] self.stops@[j - 1]
                        < self.stops@[j],
                forall|zz: int|
                    0 <= zz < n ==> ((#[trigger] self.wave@[zz] == BARRIER) <==> bar.contains(
                        zz,
                    )),
                forall|zz: int, k: int|
                    0 <= zz < n && 1 <= k <= t - 1 ==> ((self.wave@[zz] == k)
                        <==> #[trigger] level(space, src, bar, k as nat).contains(zz)),
                forall|zz: int|
                    0 <= zz < n ==> (#[trigger] self.wave@[zz] == BARRIER || self.wave@[zz] <= t
                        - 1),
                forall|zz: int|
                    0 <= zz < n ==> ((#[trigger] self.wave@[zz] == 0) <==> (!bar.contains(zz)
                        && !reached(space, src, bar, (t - 1) as nat).contains(zz))),
                self.ixs@.subrange(0, s as int).no_duplicates(),
                forall|i: int| 0 <= i < s ==> #[trigger] self.ixs@[i] < n,
                forall|f: int|
                    0 <= f < t - 1 ==> self.front_set(f) =~= level(space, src, bar, (f + 1) as nat),
                level(space, src, bar, t as nat) =~= Set::<int>::empty(),
            decreases n - s,
        {
            let s0 = s;
            let ghost s_entry = s;
            let mut i = a;
            let ghost mut partial: Set<int> = Set::empty();
            proof {
                assert(partial =~= partial_level(
                    space,
                    src,
                    bar,
                    t as nat,
                    seq_set(self.ixs@.subrange(a as int, i as int)),
                )) by {
                    assert(self.ixs@.subrange(a as int, i as int).len() == 0);
                }
            }
            while i < s0
                invariant
                    space == self.space,
                    space.wf(),
                    n == space.spec_len(),
                    self.wf(),
                    ds@ == dir_seq(),
                    2 <= t,
                    t - 1 == self.stops@.len(),
                    t - 2 <= s0,
                    a <= i <= s0 <= s <= n,
                    s0 == s_entry,
                    s0 == self.stops@[t - 2] as int,
                    a == (if t == 2 {
                        0int
                    } else {
                        self.stops@[t - 3] as int
                    }),
                    forall|j: int| 0 <= j < self.stops@.len() ==> #[trigger] self.stops@[j] <= s0,
                    forall|j1: int, j2: int|
                        0 <= j1 <= j2 < self.stops@.len() ==> self.stops@[j1] <= self.stops@[j2],
                    forall|j: int|
                        1 <= j < self.stops@.len() ==> #[trigger] self.stops@[j - 1]
                            < self.stops@[j],
                    forall|zz: int|
                        0 <= zz < n ==> ((#[trigger] self.wave@[zz] == BARRIER) <==> bar.contains(
                            zz,
                        )),
                    forall|zz: int, k: int|
                        0 <= zz < n && 1 <= k <= t - 1 ==> ((self.wave@[zz] == k)
                            <==> #[trigger] level(space, src, bar, k as nat).contains(zz)),
                    forall|zz: int|
                        0 <= zz < n ==> ((#[trigger] self.wave@[zz] == t) <==> partial.contains(
                            zz,
                        )),
                    forall|zz: int|
                        0 <= zz < n ==> (#[trigger] self.wave@[zz] == BARRIER || self.wave@[zz]
                            <= t - 1 || self.wave@[zz] == t),
                    forall|zz: int|
                        0 <= zz < n ==> ((#[trigger] self.wave@[zz] == 0) <==> (!bar.contains(zz)
                            && !reached(space, src, bar, (t - 1) as nat).contains(zz)
                            && !partial.contains(zz))),
                    partial == partial_level(
                        space,
                        src,
                        bar,
                        t as nat,
                        seq_set(self.ixs@.subrange(a as int, i as int)),
                    ),
                    seq_set(self.ixs@.subrange(s0 as int, s as int)) =~= partial,
                    self.ixs@.subrange(0, s as int).no_duplicates(),
                    forall|ii: int| 0 <= ii < s ==> #[trigger] self.ixs@[ii] < n,
                    forall|ii: int|
                        0 <= ii < s ==> #[trigger] self.wave@[self.ixs@[ii] as int] != 0
                            && self.wave@[self.ixs@[ii] as int] != BARRIER,
                    forall|f: int|
                        0 <= f < t - 1 ==> self.front_set(f) =~= level(
                            space,
                            src,
                            bar,
                            (f + 1) as nat,
                        ),
                decreases s0 - i,
            {
                let y: u16 = self.ixs[i];
                let ghost parents_pre = seq_set(self.ixs@.subrange(a as int, i as int));
                let mut d: usize = 0;
                while d < 4
                    invariant
                        space == self.space,
                        space.wf(),
                        n == space.spec_len(),
                        self.wf(),
                        ds@ == dir_seq(),
                        2 <= t,
                        t - 1 == self.stops@.len(),
                        t - 2 <= s0,
                        a <= i < s0 <= s <= n,
                        s0 == s_entry,
                        d <= 4,
                        y == self.ixs@[i as int],
                        y < n,
                        parents_pre == seq_set(self.ixs@.subrange(a as int, i as int)),
                        forall|zz: int|
                            0 <= zz < n ==> ((#[trigger] self.wave@[zz] == BARRIER)
                                <==> bar.contains(zz)),
                        forall|zz: int, k: int|
                            0 <= zz < n && 1 <= k <= t - 1 ==> ((self.wave@[zz] == k)
                                <==> #[trigger] level(space, src, bar, k as nat).contains(zz)),
                        forall|zz: int|
                            0 <= zz < n ==> ((#[trigger] self.wave@[zz] == t)
                                <==> partial.contains(zz)),
                        forall|zz: int|
                            0 <= zz < n ==> (#[trigger] self.wave@[zz] == BARRIER || self.wave@[zz]
                                <= t - 1 || self.wave@[zz] == t),
                        forall|zz: int|
                            0 <= zz < n ==> ((#[trigger] self.wave@[zz] == 0) <==> (!bar.contains(
                                zz,
                            ) && !reached(space, src, bar, (t - 1) as nat).contains(zz)
                                && !partial.contains(zz))),
                        partial =~= partial_level(space, src, bar, t as nat, parents_pre).union(
                            good_nbrs(space, src, bar, t as nat, y as int, d as int),
                        ),
                        seq_set(self.ixs@.subrange(s0 as int, s as int)) =~= partial,
                        self.ixs@.subrange(0, s as int).no_duplicates(),
                        forall|ii: int| 0 <= ii < s ==> #[trigger] self.ixs@[ii] < n,
                        forall|ii: int|
                            0 <= ii < s ==> #[trigger] self.wave@[self.ixs@[ii] as int] != 0
                                && self.wave@[self.ixs@[ii] as int] != BARRIER,
                        forall|f: int|
                            0 <= f < t - 1 ==> self.front_set(f) =~= level(
                                space,
                                src,
                                bar,
                                (f + 1) as nat,
                            ),
                        s0 == self.stops@[t - 2] as int,
                        a == (if t == 2 {
                            0int
                        } else {
                            self.stops@[t - 3] as int
                        }),
                        forall|j: int|
                            0 <= j < self.stops@.len() ==> #[trigger] self.stops@[j] <= s0,
                        forall|j1: int, j2: int|
                            0 <= j1 <= j2 < self.stops@.len() ==> self.stops@[j1]
                                <= self.stops@[j2],
                        forall|j: int|
                            1 <= j < self.stops@.len() ==> #[trigger] self.stops@[j - 1]
                                < self.stops@[j],
                    decreases 4 - d,
                {
                    let nb: u16 = space.adjacent_ix(y, &ds[d]);
                    let ghost gn_pre = good_nbrs(space, src, bar, t as nat, y as int, d as int);
                    let ghost gn_post = good_nbrs(
                        space,
                        src,
                        bar,
                        t as nat,
                        y as int,
                        d + 1 as int,
                    );
                    proof {
                        assert forall|zz: int| #[trigger]
                            gn_post.contains(zz) implies gn_pre.contains(zz) || zz == nb as int by {
                            let j = choose|j: int|
                                0 <= j < d + 1 && zz == space.adjacent_spec(y as int, dir_seq()[j]);
                            if j < d {
                                assert(nbrs_upto(space, y as int, d as int).contains(zz));
                            }
                        }
                        assert(nbrs_upto(space, y as int, (d + 1) as int).contains(nb as int)) by {
                            assert(nb as int == space.adjacent_spec(y as int, dir_seq()[d as int]));
                        }
                        assert forall|zz: int| #[trigger]
                            gn_pre.contains(zz) implies gn_post.contains(zz) by {
                            let j = choose|j: int|
                                0 <= j < d && zz == space.adjacent_spec(y as int, dir_seq()[j]);
                            assert(nbrs_upto(space, y as int, (d + 1) as int).contains(zz));
                        }
                    }
                    if self.wave[nb as usize] == 0 {
                        proof {
                            assert(!self.ixs@.subrange(0, s as int).contains(nb)) by {
                                if self.ixs@.subrange(0, s as int).contains(nb) {
                                    let ii = choose|ii: int|
                                        0 <= ii < s && #[trigger] self.ixs@.subrange(
                                            0,
                                            s as int,
                                        )[ii] == nb;
                                    assert(self.wave@[self.ixs@[ii] as int] != 0);
                                }
                            }
                            lemma_prefix_capacity(
                                self.ixs@.subrange(0, s as int),
                                n as int,
                                nb,
                            );
                            assert(t < BARRIER);
                            assert(!reached(space, src, bar, (t - 1) as nat).contains(
                                nb as int,
                            ));
                        }
                        let ghost self_pre = *self;
                        let ghost ixs_pre = self.ixs@;
                        let ghost wave_pre = self.wave@;
                        let ghost partial_pre = partial;
                        self.wave.set(nb as usize, t);
                        self.ixs.set(s, nb);
                        proof {
                            partial = partial.insert(nb as int);
                            // the already filled prefix is untouched
                            assert(self.ixs@.subrange(a as int, i as int) =~= ixs_pre.subrange(
                                a as int,
                                i as int,
                            ));
                            assert(self.ixs@.subrange(0, s as int) =~= ixs_pre.subrange(
                                0,
                                s as int,
                            ));
                            assert(self.ixs@.subrange(s0 as int, s as int) =~= ixs_pre.subrange(
                                s0 as int,
                                s as int,
                            ));
                            assert forall|f: int| 0 <= f < t - 1 implies self.front_set(f)
                                =~= level(space, src, bar, (f + 1) as nat) by {
                                let fs = self.front_start(f);
                                let fe = self.stops@[f] as int;
                                assert(fe <= s0);
                                assert(self_pre.front_set(f) =~= level(
                                    space,
                                    src,
                                    bar,
                                    (f + 1) as nat,
                                ));
                                assert(self.front_seq(f) =~= self_pre.front_seq(f));
                                assert(self.front_set(f) =~= self_pre.front_set(f)) by {
                                    assert(self.front_seq(f) == self_pre.front_seq(f));
                                }
                            }
                            assert(seq_set(self.ixs@.subrange(s0 as int, s + 1 as int))
                                =~= partial) by {
                                assert forall|zz: int|
                                    seq_set(
                                        self.ixs@.subrange(s0 as int, s + 1 as int),
                                    ).contains(zz) implies partial.contains(zz) by {
                                    let ii = choose|ii: int|
                                        0 <= ii < s + 1 - s0 && #[trigger] self.ixs@.subrange(
                                            s0 as int,
                                            s + 1 as int,
                                        )[ii] == zz;
                                    if ii < s - s0 {
                                        assert(ixs_pre.subrange(s0 as int, s as int)[ii]
                                            == zz);
                                        assert(seq_set(
                                            ixs_pre.subrange(s0 as int, s as int),
                                        ).contains(zz));
                                        assert(partial_pre.contains(zz));
                                    }
                                }
                                assert forall|zz: int| partial.contains(zz) implies seq_set(
                                    self.ixs@.subrange(s0 as int, s + 1 as int),
                                ).contains(zz) by {
                                    if partial_pre.contains(zz) {
                                        let ii = choose|ii: int|
                                            0 <= ii < s - s0 && #[trigger] ixs_pre.subrange(
                                                s0 as int,
                                                s as int,
                                            )[ii] == zz;
                                        assert(self.ixs@.subrange(
                                            s0 as int,
                                            s + 1 as int,
                                        )[ii] == zz);
                                    } else {
                                        assert(self.ixs@.subrange(
                                            s0 as int,
                                            s + 1 as int,
                                        )[s - s0] == nb);
                                    }
                                }
                            }
                            assert(self.ixs@.subrange(0, s + 1 as int).no_duplicates()) by {
                                let pre = ixs_pre.subrange(0, s as int);
                                let post = self.ixs@.subrange(0, s + 1 as int);
                                assert(!pre.contains(nb));
                                assert forall|i1: int, i2: int|
                                    0 <= i1 < post.len() && 0 <= i2 < post.len() && i1
                                        != i2 implies post[i1] != post[i2] by {
                                    if i1 < s && i2 < s {
                                        assert(pre[i1] == post[i1] && pre[i2] == post[i2]);
                                    } else if i1 < s {
                                        assert(post[i2] == nb && pre[i1] == post[i1]);
                                        if post[i1] == nb {
                                            assert(pre.contains(nb));
                                        }
                                    } else if i2 < s {
                                        assert(post[i1] == nb && pre[i2] == post[i2]);
                                        if post[i2] == nb {
                                            assert(pre.contains(nb));
                                        }
                                    }
                                }
                            }
                            assert forall|ii: int|
                                0 <= ii < s + 1 implies #[trigger] self.wave@[self.ixs@[ii] as int]
                                != 0 && self.wave@[self.ixs@[ii] as int] != BARRIER by {
                                if ii < s {
                                    assert(self.ixs@[ii] == ixs_pre[ii]);
                                    assert(ixs_pre.subrange(0, s as int)[ii] == ixs_pre[ii]);
                                    assert(ixs_pre[ii] != nb);
                                    assert(self.wave@[self.ixs@[ii] as int]
                                        == wave_pre[self.ixs@[ii] as int]);
                                } else {
                                    assert(self.ixs@[ii] == nb);
                                }
                            }
                            assert(gn_post.contains(nb as int));
                            assert(partial =~= partial_level(
                                space,
                                src,
                                bar,
                                t as nat,
                                parents_pre,
                            ).union(gn_post));
                        }
                        s = s + 1;
                    } else {
                        proof {
                            if !bar.contains(nb as int) && !reached(
                                space,
                                src,
                                bar,
                                (t - 1) as nat,
                            ).contains(nb as int) {
                                assert(partial.contains(nb as int));
                            }
                        }
                    }
                    d = d + 1;
                }
                proof {
                    assert(seq_set(self.ixs@.subrange(a as int, i + 1 as int)) =~= parents_pre
                        .insert(y as int)) by {
                        assert forall|zz: int|
                            seq_set(self.ixs@.subrange(a as int, i + 1 as int)).contains(
                            zz,
                        ) implies parents_pre.insert(y as int).contains(zz) by {
                            let ii = choose|ii: int|
                                0 <= ii < i + 1 - a && #[trigger] self.ixs@.subrange(
                                    a as int,
                                    i + 1 as int,
                                )[ii] == zz;
                            if ii < i - a {
                                assert(self.ixs@.subrange(a as int, i as int)[ii] == zz);
                            }
                        }
                        assert forall|zz: int|
                            parents_pre.insert(y as int).contains(zz) implies seq_set(
                            self.ixs@.subrange(a as int, i + 1 as int),
                        ).contains(zz) by {
                            if parents_pre.contains(zz) {
                                let ii = choose|ii: int|
                                    0 <= ii < i - a && #[trigger] self.ixs@.subrange(
                                        a as int,
                                        i as int,
                                    )[ii] == zz;
                                assert(self.ixs@.subrange(a as int, i + 1 as int)[ii] == zz);
                            } else {
                                assert(self.ixs@.subrange(a as int, i + 1 as int)[i - a]
                                    == y);
                            }
                        }
                    }
                    lemma_partial_split(space, src, bar, t as nat, parents_pre, y as int);
                }
                i = i + 1;
            }
            // The fully expanded parents are the whole previous front, so the
            // cells assigned in this pass are exactly the next wavefront.
            proof {
                assert(seq_set(self.ixs@.subrange(a as int, s0 as int)) =~= level(
                    space,
                    src,
                    bar,
                    (t - 1) as nat,
                )) by {
                    assert(self.front_set(t - 2) =~= level(space, src, bar, (t - 1) as nat));
                    assert(self.front_seq(t - 2) == self.ixs@.subrange(a as int, s0 as int));
                }
                assert(partial =~= level(space, src, bar, t as nat)) by {
                    let lv = level(space, src, bar, t as nat);
                    let pl = partial_level(
                        space,
                        src,
                        bar,
                        t as nat,
                        level(space, src, bar, (t - 1) as nat),
                    );
                    assert forall|zz: int| #[trigger] partial.contains(zz) implies lv.contains(
                        zz,
                    ) by {
                        assert(pl.contains(zz));
                        let yy = choose|yy: int|
                            #[trigger] level(space, src, bar, (t - 1) as nat).contains(yy) && adj(
                                space,
                                yy,
                                zz,
                            );
                        assert(wavefronts(space, src, bar, (t - 1) as nat).0.contains(yy));
                    }
                    assert forall|zz: int| #[trigger] lv.contains(zz) implies partial.contains(
                        zz,
                    ) by {
                        let yy = choose|yy: int|
                            #[trigger] wavefronts(space, src, bar, (t - 1) as nat).0.contains(yy)
                                && adj(space, yy, zz);
                        assert(level(space, src, bar, (t - 1) as nat).contains(yy));
                        assert(pl.contains(zz));
                    }
                }
            }
            proof {
                assert forall|zz: int| 0 <= zz < n implies (#[trigger] reached(
                    space,
                    src,
                    bar,
                    t as nat,
                ).contains(zz) <==> (reached(space, src, bar, (t - 1) as nat).contains(zz)
                    || level(space, src, bar, t as nat).contains(zz))) by {
                    assert(wavefronts(space, src, bar, t as nat).1 == wavefronts(
                        space,
                        src,
                        bar,
                        (t - 1) as nat,
                    ).1.union(wavefronts(space, src, bar, t as nat).0));
                }
            }
            if s > s0 {
                let ghost self_pre = *self;
                let ghost old_stops = self.stops@;
                self.stops.push(s as u16);
                proof {
                    assert(self.front_seq(t - 1) == self.ixs@.subrange(s0 as int, s as int));
                    assert(self.front_set(t - 1) =~= level(space, src, bar, t as nat));
                    assert forall|f: int| 0 <= f < t - 1 implies self.front_set(f) =~= level(
                        space,
                        src,
                        bar,
                        (f + 1) as nat,
                    ) by {
                        assert(self.stops@[f] == old_stops[f]);
                        if f > 0 {
                            assert(self.stops@[f - 1] == old_stops[f - 1]);
                        }
                        assert(self_pre.front_set(f) =~= level(space, src, bar, (f + 1) as nat));
                        assert(self.front_seq(f) == self_pre.front_seq(f));
                    }
                }
                a = s0;
                t = t + 1;
            } else {
                break ;
            }
        }
        proof {
            assert forall|k: int| k > t - 1 implies #[trigger] level(space, src, bar, k as nat)
                =~= Set::<int>::empty() by {
                lemma_level_empty_stable(space, src, bar, t as nat, k as nat);
            }
            assert(self.rippled(src, bar)) by {
                let fc = self.front_count();
                assert(fc == t - 1);
                assert(self.stops@[fc - 1] as int == s);
                assert(self.stops@.len() <= self.space.sz + 1);
            }
        }
    }

    /// The image value of cell `z`: its front index, `BARRIER`, or 0 when
    /// unreached.
    pub fn at(&self, z: usize) -> (r: u32)
        requires
            self.wf(),
            z < self.space.sz,
        ensures
            r == self.wave@[z as int],
    {
        self.wave[z]
    }

    /// The cells discovered during expansion step `ix` (step 0 being the
    /// seed), in discovery order; `None` when the wave saturated before
    /// computing that front.
    pub fn front(&self, ix: usize) -> (r: Option<Vec<u16>>)
        requires
            self.wf(),
            self.fronts_wf(),
        ensures
            match r {
                None => ix >= self.stops@.len(),
                Some(v) => ix < self.stops@.len() && v@ == self.front_seq(ix as int),
            },
    {
        if ix < self.stops.len() {
            let start: usize = if ix == 0 {
                0
            } else {
                self.stops[ix - 1] as usize
            };
            let stop: usize = self.stops[ix] as usize;
            let mut v: Vec<u16> = Vec::new();
            let mut i = start;
            while i < stop
                invariant
                    self.wf(),
                    self.fronts_wf(),
                    ix < self.stops@.len(),
                    start == self.front_start(ix as int),
                    stop == self.stops@[ix as int] as int,
                    start <= i <= stop,
                    stop <= self.space.sz,
                    v@ == self.ixs@.subrange(start as int, i as int),
                decreases stop - i,
            {
                v.push(self.ixs[i]);
                proof {
                    assert(v@ =~= self.ixs@.subrange(start as int, i + 1 as int));
                }
                i = i + 1;
            }
            proof {
                assert(v@ =~= self.front_seq(ix as int));
            }
            Some(v)
        } else {
            None
        }
    }
}

/// Wave front containment: for a rippled wave, the first front is exactly
/// the source set, every cell lies on at most one front, and the union of
/// all fronts is exactly the set of cells reachable from the source without
/// crossing the barrier.
pub proof fn lemma_front_partition(w: &Wave, src: Set<int>, bar: Set<int>)
    requires
        w.rippled(src, bar),
    ensures
        w.front_set(0) =~= src,
        forall|f1: int, f2: int, z: int|
            0 <= f1 < f2 < w.front_count() && #[trigger] w.front_set(f1).contains(z)
                ==> !#[trigger] w.front_set(f2).contains(z),
        forall|z: int|
            (exists|f: int| 0 <= f < w.front_count() && #[trigger] w.front_set(f).contains(z))
                <==> reachable(w.space, src, bar, z),
{
    assert(w.front_set(0) =~= level(w.space, src, bar, 1nat));
    assert(level(w.space, src, bar, 1nat) == src);
    assert forall|f1: int, f2: int, z: int|
        0 <= f1 < f2 < w.front_count() && #[trigger] w.front_set(f1).contains(z) implies !#[trigger] w.front_set(
        f2,
    ).contains(z) by {
        if w.front_set(f2).contains(z) {
            assert(level(w.space, src, bar, (f1 + 1) as nat).contains(z));
            assert(level(w.space, src, bar, (f2 + 1) as nat).contains(z));
            lemma_levels_disjoint(w.space, src, bar, (f1 + 1) as nat, (f2 + 1) as nat, z);
        }
    }
    assert forall|z: int|
        (exists|f: int| 0 <= f < w.front_count() && #[trigger] w.front_set(f).contains(z))
            <==> reachable(w.space, src, bar, z) by {
        if exists|f: int| 0 <= f < w.front_count() && #[trigger] w.front_set(f).contains(z) {
            let f = choose|f: int|
                0 <= f < w.front_count() && #[trigger] w.front_set(f).contains(z);
            assert(level(w.space, src, bar, (f + 1) as nat).contains(z));
        }
        if reachable(w.space, src, bar, z) {
            let k = choose|k: nat| 1 <= k && #[trigger] level(w.space, src, bar, k).contains(z);
            if k > w.front_count() {
                let ki = k as int;
                assert(level(w.space, src, bar, ki as nat) =~= Set::<int>::empty());
            } else {
                assert(w.front_set(k - 1) =~= level(w.space, src, bar, ((k - 1) + 1) as nat));
                assert(w.front_set(k - 1).contains(z));
            }
        }
    }
}

impl GridMap<u32> for Wave {
    open spec fn contents(&self) -> Seq<u32> {
        self.wave@
    }

    fn at(&self, ix: usize) -> (r: u32) {
        self.wave[ix]
    }
}

} // verus!
