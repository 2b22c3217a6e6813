//! A wave-based conquest planner: it values each rim cell by a uniform-cost
//! scan of the territory beyond it, then ripples a wave back from the rim
//! cell through the grid to find the turn by which enough strength
//! accumulates to capture it, and credits the cells of the intermediate
//! fronts with the discounted value of that capture.

use vstd::prelude::*;
use crate::action::{Action, Choice};
use crate::dir::Dir;
use crate::math::{
    add_spec, annuity, annuity_spec, discount, discount_spec, fx_add, fx_mul, mul_spec, ONE,
};
use crate::space::{lemma_adjacent_in_range, Space};
use crate::space::mask::Mask;
use crate::space::point::Point;
use crate::space::dijkstra::{lemma_history_capacity, queue_has, DijsktraScan};
use crate::space::wave::{
    adj, lemma_reachable_step, lemma_wave_path_push, level, reachable, seq_set, wave_path,
    wavefronts, Wave,
};
use crate::world::{Environment, Occupation, Production, State, Tag};

verus! {

/// The planner's tuning: the per-turn decay factor, its per-strength-point
/// form (a fixed approximation of the decay factor's root by the strength
/// produced per turn), and that production assumption.
#[derive(Clone, Copy, Debug)]
pub struct Par {
    pub gamma: i64,
    pub gamma_dist: i64,
    pub prod_per_turn: i64,
}

impl Par {
    pub open spec fn wf(&self) -> bool {
        &&& 0 <= self.gamma < ONE
        &&& 0 <= self.gamma_dist < ONE
        &&& 0 < self.prod_per_turn <= 0x10000
    }
}

/// The default tuning, as a value: a decay factor of one half, sixteen
/// strength points of conquering production per turn, and the matching
/// per-point decay.
pub open spec fn par_default_spec() -> Par {
    Par { gamma: 0x8000, gamma_dist: 62758, prod_per_turn: 16 }
}

/// The default tuning; see `par_default_spec`.
pub fn par_default() -> (r: Par)
    ensures
        r.wf(),
        r == par_default_spec(),
        r.gamma == 0x8000,
        r.prod_per_turn == 16,
{
    Par { gamma: 0x8000, gamma_dist: 62758, prod_per_turn: 16 }
}

/// Turns needed to produce `dist` strength points at `ppt` points per turn,
/// rounded up, clamped into the `i32` range.
pub open spec fn turns_till_capture_spec(dist: int, ppt: int) -> int {
    let t = (dist + ppt - 1) / ppt;
    if t > i32::MAX {
        i32::MAX as int
    } else {
        t
    }
}

/// The value contributed by one scanned cell: its production as an annuity
/// over the turns left after its capture, discounted by its distance in
/// strength points (clamped into the `i32` range).
pub open spec fn outward_term(
    prods: Seq<Production>,
    par: Par,
    turns_left: int,
    dist: int,
    z: int,
) -> int {
    let ttc = turns_till_capture_spec(dist, par.prod_per_turn as int);
    let n = if turns_left - ttc < i32::MIN {
        i32::MIN as int
    } else {
        turns_left - ttc
    };
    let d32 = if dist > i32::MAX {
        i32::MAX as int
    } else {
        dist
    };
    mul_spec(
        discount_spec(par.gamma_dist as int, d32),
        mul_spec(annuity_spec(par.gamma as int, n), (prods[z] as int) * (ONE as int)),
    )
}

/// Appending to a scan log leaves the sums over its prefixes unchanged.
proof fn lemma_outward_sum_push(
    prods: Seq<Production>,
    par: Par,
    turns_left: int,
    log: Seq<(int, int)>,
    x: (int, int),
    k: int,
)
    requires
        k <= log.len(),
    ensures
        outward_sum(prods, par, turns_left, log.push(x), k) == outward_sum(
            prods,
            par,
            turns_left,
            log,
            k,
        ),
    decreases k,
{
    if k > 0 {
        lemma_outward_sum_push(prods, par, turns_left, log, x, k - 1);
    }
}

/// The saturating sum of the outward terms over the first `k` entries of a
/// scan log.
pub open spec fn outward_sum(
    prods: Seq<Production>,
    par: Par,
    turns_left: int,
    log: Seq<(int, int)>,
    k: int,
) -> int
    decreases k,
{
    if k <= 0 {
        0
    } else {
        add_spec(
            outward_sum(prods, par, turns_left, log, k - 1),
            outward_term(prods, par, turns_left, log[k - 1].0, log[k - 1].1),
        )
    }
}

/// The strength on front `k`, summed over the first `z` cells of the grid.
pub open spec fn level_str_sum(
    space: Space,
    src: Set<int>,
    bar: Set<int>,
    occ: Seq<Occupation>,
    k: nat,
    z: int,
) -> int
    decreases z,
{
    if z <= 0 {
        0
    } else {
        let pre = level_str_sum(space, src, bar, occ, k, z - 1);
        if level(space, src, bar, k).contains(z - 1) {
            add_spec(pre, occ[z - 1].strength as int)
        } else {
            pre
        }
    }
}

/// The production on front `k`, summed over the first `z` cells of the grid.
pub open spec fn level_prod_sum(
    space: Space,
    src: Set<int>,
    bar: Set<int>,
    prods: Seq<Production>,
    k: nat,
    z: int,
) -> int
    decreases z,
{
    if z <= 0 {
        0
    } else {
        let pre = level_prod_sum(space, src, bar, prods, k, z - 1);
        if level(space, src, bar, k).contains(z - 1) {
            add_spec(pre, prods[z - 1] as int)
        } else {
            pre
        }
    }
}

/// The first expansion step `t` (searching from the given `t` on) at which
/// the strength channelled to the target exceeds the resistance `resist`:
/// each step first banks the accumulated production, then adds the strength
/// and production of front `t + 1`. The search gives up where the wave has
/// saturated.
pub open spec fn capture_search(
    space: Space,
    src: Set<int>,
    bar: Set<int>,
    occ: Seq<Occupation>,
    prods: Seq<Production>,
    resist: int,
    t: int,
    s: int,
    p: int,
) -> Option<int>
    decreases space.sz + 2 - t,
{
    if t > space.sz + 1 || level(space, src, bar, (t + 1) as nat) =~= Set::<int>::empty() {
        None
    } else {
        let s2 = add_spec(add_spec(s, p), level_str_sum(space, src, bar, occ, (t + 1) as nat, space.sz as int));
        let p2 = add_spec(p, level_prod_sum(space, src, bar, prods, (t + 1) as nat, space.sz as int));
        if s2 > resist {
            Some(t)
        } else {
            capture_search(space, src, bar, occ, prods, resist, t + 1, s2, p2)
        }
    }
}

/// The cell lies on one of the fronts credited by a capture at step
/// `t_star`: image values 3 through `t_star`.
pub open spec fn in_spread(space: Space, src: Set<int>, bar: Set<int>, t_star: int, z: int) -> bool {
    exists|k2: int| 3 <= k2 <= t_star && #[trigger] level(space, src, bar, k2 as nat).contains(z)
}

/// The source set of the backward wave of one rim target: that cell alone.
pub open spec fn target_src(target: int) -> Set<int> {
    Set::new(|z: int| z == target)
}

/// One target's effect on the per-cell choices: where a capture step is
/// found, the still-score of every credited cell is overwritten with the
/// discounted forward utility.
pub open spec fn apply_target(
    space: Space,
    body: Set<int>,
    occ: Seq<Occupation>,
    prods: Seq<Production>,
    gamma: int,
    choices: Seq<Choice<Option<i64>>>,
    target: int,
    fwd: int,
) -> Seq<Choice<Option<i64>>> {
    let src = target_src(target);
    let bar = body.difference(src);
    match capture_search(space, src, bar, occ, prods, occ[target].strength as int, 2, 0, 0) {
        Some(t_star) => {
            let u = mul_spec(fwd, discount_spec(gamma, t_star)) as i64;
            Seq::new(
                choices.len(),
                |z: int|
                    if in_spread(space, src, bar, t_star, z) {
                        choices[z].spec_set(None, Some(u))
                    } else {
                        choices[z]
                    },
            )
        },
        None => choices,
    }
}

/// The choices after the effects of the first `k` rim targets.
pub open spec fn apply_targets(
    space: Space,
    body: Set<int>,
    occ: Seq<Occupation>,
    prods: Seq<Production>,
    gamma: int,
    choices0: Seq<Choice<Option<i64>>>,
    targets: Seq<(Point, i64)>,
    k: int,
) -> Seq<Choice<Option<i64>>>
    decreases k,
{
    if k <= 0 {
        choices0
    } else {
        apply_target(
            space,
            body,
            occ,
            prods,
            gamma,
            apply_targets(space, body, occ, prods, gamma, choices0, targets, k - 1),
            targets[k - 1].0.ix as int,
            targets[k - 1].1 as int,
        )
    }
}

/// The actions of all owned cells among the first `z`: each takes the
/// highest-scoring entry of its choice record.
pub open spec fn select_actions_spec(
    space: Space,
    occ: Seq<Occupation>,
    who: Tag,
    utils: Seq<Choice<Option<i64>>>,
    z: int,
) -> Seq<Action>
    decreases z,
{
    if z <= 0 {
        Seq::empty()
    } else {
        let pre = select_actions_spec(space, occ, who, utils, z - 1);
        if occ[z - 1].tag == who {
            pre.push(
                (
                    crate::coord::Coord {
                        x: space.spec_x(z - 1) as i16,
                        y: space.spec_y(z - 1) as i16,
                    },
                    utils[z - 1].find_max_spec(),
                ),
            )
        } else {
            pre
        }
    }
}

/// The scan log holds an entry for cell `z`.
pub open spec fn log_has(log: Seq<(int, int)>, z: int) -> bool {
    exists|j: int| 0 <= j < log.len() && (#[trigger] log[j]).1 == z
}

/// The queue sequence names cell `z`.
pub open spec fn queue_names(q: Seq<(i64, u16)>, z: int) -> bool {
    exists|j: int| 0 <= j < q.len() && (#[trigger] q[j]).1 as int == z
}

/// The cells the player `me` occupies: the outward scan may not enter them.
pub open spec fn blocked_of(occ: Seq<Occupation>, me: Tag, sz: int) -> Set<int> {
    Set::new(|z: int| 0 <= z < sz && occ[z].tag == me)
}

/// Cell `z` is the scan's origin or borders a logged cell.
pub open spec fn scan_frontier(space: Space, log: Seq<(int, int)>, origin: int, z: int) -> bool {
    z == origin || exists|j: int| 0 <= j < log.len() && adj(space, (#[trigger] log[j]).1, z)
}

/// The strength of the cells of a path, summed: the cumulative cost the
/// outward scan charges along it, the origin's own strength included.
pub open spec fn strength_sum(occ: Seq<Occupation>, p: Seq<int>) -> int
    decreases p.len(),
{
    if p.len() == 0 {
        0
    } else {
        strength_sum(occ, p.drop_last()) + occ[p.last()].strength
    }
}

/// Cost `c` is charged by some actual wave path from the origin to `z`
/// through cells not owned by `me`: the sum of their strengths.
pub open spec fn charged_path(
    space: Space,
    occ: Seq<Occupation>,
    me: Tag,
    origin: int,
    z: int,
    c: int,
) -> bool {
    exists|p: Seq<int>|
        {
            &&& #[trigger] wave_path(
                space,
                target_src(origin),
                blocked_of(occ, me, space.sz as int),
                p,
            )
            &&& p.last() == z
            &&& c == strength_sum(occ, p)
        }
}

/// Some queue entry names `z` at a cost of at most `bound`.
pub open spec fn queued_below(q: Seq<(i64, u16)>, z: int, bound: int) -> bool {
    exists|j: int| 0 <= j < q.len() && (#[trigger] q[j]).1 as int == z && q[j].0 as int <= bound
}

/// Any wave path ending off the visited region is undercut by a pending
/// queue entry: the scan keeps, on the path's first step out of the logged
/// region, an entry at most as expensive as the whole path. The hypotheses
/// are the scan's running invariants.
proof fn lemma_scan_path_bound(
    space: Space,
    occ: Seq<Occupation>,
    me: Tag,
    origin: int,
    log: Seq<(int, int)>,
    q: Seq<(i64, u16)>,
    visited: Seq<bool>,
    pth: Seq<int>,
)
    requires
        space.wf(),
        occ.len() == space.sz,
        0 <= origin < space.sz,
        occ[origin].tag != me,
        visited.len() == space.sz,
        forall|z: int| 0 <= z < occ.len() ==> (#[trigger] occ[z]).strength >= 0,
        wave_path(space, target_src(origin), blocked_of(occ, me, space.sz as int), pth),
        !visited[pth.last()],
        forall|z: int| 0 <= z < space.sz ==> ((#[trigger] visited[z]) <==> log_has(log, z)),
        forall|j: int| 0 <= j < log.len() ==> 0 <= (#[trigger] log[j]).1 < space.sz,
        forall|j: int, p2: Seq<int>|
            #![trigger log[j], wave_path(space, target_src(origin), blocked_of(occ, me, space.sz as int), p2)]
            0 <= j < log.len() && wave_path(
                space,
                target_src(origin),
                blocked_of(occ, me, space.sz as int),
                p2,
            ) && p2.last() == (log[j]).1 ==> strength_sum(occ, p2) >= (log[j]).0,
        !visited[origin] ==> queue_has(q, occ[origin].strength as int, origin),
        forall|j: int, z: int|
            #![trigger log[j], occ[z]]
            0 <= j < log.len() && 0 <= z < space.sz && adj(space, (log[j]).1, z) && !visited[z]
                && occ[z].tag != me ==> queued_below(q, z, (log[j]).0 + occ[z].strength),
    ensures
        exists|k: int|
            0 <= k < q.len() && !visited[(#[trigger] q[k]).1 as int] && q[k].0 as int
                <= strength_sum(occ, pth),
    decreases pth.len(),
{
    let src = target_src(origin);
    let bar = blocked_of(occ, me, space.sz as int);
    if pth.len() == 1 {
        assert(pth[0] == origin);
        assert(strength_sum(occ, pth) == occ[origin].strength) by {
            assert(pth.drop_last() =~= Seq::<int>::empty());
            assert(strength_sum(occ, Seq::<int>::empty()) == 0);
        }
        let k = choose|k: int|
            0 <= k < q.len() && (#[trigger] q[k]).0 as int == occ[origin].strength as int
                && q[k].1 as int == origin;
        assert(!visited[q[k].1 as int] && q[k].0 as int <= strength_sum(occ, pth));
    } else {
        let rest = pth.drop_last();
        let last = pth.last();
        let v = rest.last();
        assert(wave_path(space, src, bar, rest)) by {
            assert(rest[0] == pth[0]);
            assert forall|i: int| 0 <= i < rest.len() - 1 implies adj(
                space,
                #[trigger] rest[i],
                rest[i + 1],
            ) by {
                assert(rest[i] == pth[i] && rest[i + 1] == pth[i + 1]);
            }
            assert forall|i: int| 1 <= i < rest.len() implies 0 <= #[trigger] rest[i] < space.sz
                && !bar.contains(rest[i]) by {
                assert(rest[i] == pth[i]);
            }
        }
        assert(adj(space, v, last)) by {
            assert(adj(space, pth[pth.len() - 2], pth[pth.len() - 1]));
        }
        assert(0 <= last < space.sz && !bar.contains(last));
        assert(occ[last].tag != me);
        assert(strength_sum(occ, pth) == strength_sum(occ, rest) + occ[last].strength);
        if visited[v] {
            assert(0 <= v < space.sz) by {
                if pth.len() == 2 {
                    assert(v == pth[0] == origin);
                }
            }
            assert(log_has(log, v));
            let jv = choose|jv: int| 0 <= jv < log.len() && (#[trigger] log[jv]).1 == v;
            assert(strength_sum(occ, rest) >= (log[jv]).0);
            assert(queued_below(q, last, (log[jv]).0 + occ[last].strength));
            let k = choose|k: int|
                0 <= k < q.len() && (#[trigger] q[k]).1 as int == last && q[k].0 as int <= (
                log[jv]).0 + occ[last].strength;
            assert(!visited[q[k].1 as int] && q[k].0 as int <= strength_sum(occ, pth));
        } else {
            lemma_scan_path_bound(space, occ, me, origin, log, q, visited, rest);
            let k = choose|k: int|
                0 <= k < q.len() && !visited[(#[trigger] q[k]).1 as int] && q[k].0 as int
                    <= strength_sum(occ, rest);
            assert(q[k].0 as int <= strength_sum(occ, pth));
        }
    }
}

/// Every cell of wavefront `k` of the region not occupied by `me` is logged,
/// provided the log holds the origin and is closed under adjacency within
/// that region.
proof fn lemma_levels_yielded(
    space: Space,
    occ: Seq<Occupation>,
    me: Tag,
    origin: int,
    log: Seq<(int, int)>,
    k: nat,
)
    requires
        space.wf(),
        0 <= origin < space.sz,
        occ.len() == space.sz,
        occ[origin].tag != me,
        log_has(log, origin),
        forall|z: int|
            #![trigger log_has(log, z)]
            0 <= z < space.sz && occ[z].tag != me && (exists|j: int|
                0 <= j < log.len() && adj(space, (#[trigger] log[j]).1, z)) ==> log_has(log, z),
    ensures
        forall|z: int|
            level(space, target_src(origin), blocked_of(occ, me, space.sz as int), k).contains(z)
                ==> #[trigger] log_has(log, z),
    decreases k,
{
    let src = target_src(origin);
    let bar = blocked_of(occ, me, space.sz as int);
    if k <= 1 {
        assert forall|z: int| level(space, src, bar, k).contains(z) implies #[trigger] log_has(
            log,
            z,
        ) by {
            assert(k == 1 && z == origin);
        }
    } else {
        lemma_levels_yielded(space, occ, me, origin, log, (k - 1) as nat);
        assert forall|z: int| level(space, src, bar, k).contains(z) implies #[trigger] log_has(
            log,
            z,
        ) by {
            let y = choose|y: int|
                #[trigger] wavefronts(space, src, bar, (k - 1) as nat).0.contains(y) && adj(
                    space,
                    y,
                    z,
                );
            assert(level(space, src, bar, (k - 1) as nat).contains(y));
            assert(log_has(log, y));
            let j = choose|j: int| 0 <= j < log.len() && (#[trigger] log[j]).1 == y;
            assert(!bar.contains(z));
            assert(occ[z].tag != me);
            assert(exists|jj: int| 0 <= jj < log.len() && adj(space, (#[trigger] log[jj]).1, z));
        }
    }
}

/// Computes the expected outward (explorative) utility of a rim cell: the
/// sum, over the cells the uniform-cost scan reaches (measuring distance in
/// strength points of non-owned cells), of their discounted production
/// annuities. The scan's cost-ordered log is returned as ghost evidence: it
/// holds exactly the cells that can be reached from the source without
/// entering a cell owned by `me` (none, where the source itself is owned).
#[verifier::rlimit(40)]
pub fn compute_outward_utility(
    source: &Point,
    me: Tag,
    productions: &Vec<Production>,
    occupations: &Vec<Occupation>,
    par: Par,
    turns_left: i32,
) -> (r: (i64, Ghost<Seq<(int, int)>>))
    requires
        source.wf(),
        par.wf(),
        productions.len() == source.space.sz,
        occupations.len() == source.space.sz,
        forall|z: int|
            0 <= z < occupations.len() ==> 0 <= (#[trigger] occupations[z]).strength,
    ensures
        r.0 == outward_sum(productions@, par, turns_left as int, r.1@, r.1@.len() as int),
        forall|j1: int, j2: int| 0 <= j1 < j2 < r.1@.len() ==> (r.1@[j1]).0 <= (r.1@[j2]).0,
        forall|j1: int, j2: int| 0 <= j1 < j2 < r.1@.len() ==> (r.1@[j1]).1 != (r.1@[j2]).1,
        forall|j: int| 0 <= j < r.1@.len() ==> 0 <= (#[trigger] r.1@[j]).1 < source.space.sz,
        forall|z: int|
            0 <= z < source.space.sz ==> (#[trigger] log_has(r.1@, z) <==> (
            occupations@[source.ix as int].tag != me && reachable(
                source.space,
                target_src(source.ix as int),
                blocked_of(occupations@, me, source.space.sz as int),
                z,
            ))),
        forall|j: int|
            0 <= j < r.1@.len() ==> charged_path(
                source.space,
                occupations@,
                me,
                source.ix as int,
                (#[trigger] r.1@[j]).1,
                (r.1@[j]).0,
            ),
        forall|j: int, p2: Seq<int>|
            #![trigger r.1@[j], wave_path(source.space, target_src(source.ix as int), blocked_of(occupations@, me, source.space.sz as int), p2)]
            0 <= j < r.1@.len() && wave_path(
                source.space,
                target_src(source.ix as int),
                blocked_of(occupations@, me, source.space.sz as int),
                p2,
            ) && p2.last() == (r.1@[j]).1 ==> strength_sum(occupations@, p2) >= (r.1@[j]).0,
{
    let space = *source.space();
    let cost_fn = |z: &Point| -> (c: Option<i16>)
        requires
            z.wf(),
            z.space == space,
            occupations.len() == space.sz,
            forall|zz: int|
                0 <= zz < occupations.len() ==> 0 <= (#[trigger] occupations[zz]).strength,
        ensures
            c matches Some(v) ==> v >= 0,
            c matches Some(v) ==> v == occupations@[z.ix as int].strength,
            c is None <==> occupations@[z.ix as int].tag == me,
        {
            let occupation = &occupations[z.ix as usize];
            if occupation.tag == me {
                None
            } else {
                Some(occupation.strength)
            }
        };
    let ghost src = target_src(source.ix as int);
    let ghost bar = blocked_of(occupations@, me, space.sz as int);
    let mut scan = source.dijkstra_scan(cost_fn);
    proof {
        let ret = choose|ret: Option<i16>|
            {
                &&& #[trigger] call_ensures(cost_fn, (source,), ret)
                &&& (ret is None ==> scan.queue@.len() == 0)
                &&& (ret matches Some(c) ==> scan.queue@ =~= seq![(c as i64, source.ix)])
            };
        if occupations@[source.ix as int].tag == me {
            assert(ret is None);
        } else {
            assert(reachable(space, src, bar, source.ix as int)) by {
                assert(level(space, src, bar, 1nat).contains(source.ix as int));
            }
            assert(scan.queue@[0].1 as int == source.ix as int && scan.queue@[0].0 as int
                == occupations@[source.ix as int].strength as int);
            assert(queue_has(
                scan.queue@,
                occupations@[source.ix as int].strength as int,
                source.ix as int,
            ));
        }
        assert forall|j: int| 0 <= j < scan.queue@.len() implies occupations@[(
        #[trigger] scan.queue@[j]).1 as int].tag != me && reachable(
            space,
            src,
            bar,
            scan.queue@[j].1 as int,
        ) && charged_path(
            space,
            occupations@,
            me,
            source.ix as int,
            scan.queue@[j].1 as int,
            scan.queue@[j].0 as int,
        ) by {
            assert(scan.queue@[j].1 == source.ix);
            let p = seq![source.ix as int];
            assert(wave_path(space, src, bar, p) && p.last() == source.ix as int);
            assert(strength_sum(occupations@, p) == occupations@[source.ix as int].strength) by {
                assert(p.drop_last() =~= Seq::<int>::empty());
                assert(strength_sum(occupations@, Seq::<int>::empty()) == 0);
            }
            assert(scan.queue@[j].0 as int == occupations@[source.ix as int].strength);
        }
        assert forall|zz: int|
            0 <= zz < space.sz && occupations@[zz].tag != me && #[trigger] scan_frontier(
                space,
                scan.yielded@,
                source.ix as int,
                zz,
            ) implies scan.visited@[zz] || queue_names(scan.queue@, zz) by {
            assert(zz == source.ix as int);
            assert(ret is Some);
            assert(scan.queue@[0].1 as int == zz);
            assert(queue_names(scan.queue@, zz));
        }
    }
    let mut total: i64 = 0;
    loop
        invariant
            scan.wf(),
            scan.space == space,
            scan.cost_fn == cost_fn,
            source.wf(),
            source.space == space,
            occupations.len() == space.sz,
            src == target_src(source.ix as int),
            bar == blocked_of(occupations@, me, space.sz as int),
            forall|z: int|
                0 <= z < occupations.len() ==> 0 <= (#[trigger] occupations[z]).strength,
            forall|pt: Point, ret: Option<i16>|
                #[trigger] call_ensures(cost_fn, (&pt,), ret) ==> ((ret is None
                    <==> occupations@[pt.ix as int].tag == me) && (ret matches Some(v) ==> v
                    == occupations@[pt.ix as int].strength)),
            par.wf(),
            productions.len() == space.sz,
            total == outward_sum(
                productions@,
                par,
                turns_left as int,
                scan.yielded@,
                scan.yielded@.len() as int,
            ),
            forall|j1: int, j2: int|
                0 <= j1 < j2 < scan.yielded@.len() ==> (scan.yielded@[j1]).0
                    <= (scan.yielded@[j2]).0,
            forall|j1: int, j2: int|
                0 <= j1 < j2 < scan.yielded@.len() ==> (scan.yielded@[j1]).1
                    != (scan.yielded@[j2]).1,
            forall|j: int|
                0 <= j < scan.yielded@.len() ==> 0 <= (#[trigger] scan.yielded@[j]).1
                    < space.sz,
            forall|zz: int|
                0 <= zz < space.sz ==> ((#[trigger] scan.visited@[zz]) <==> log_has(
                    scan.yielded@,
                    zz,
                )),
            forall|j: int|
                0 <= j < scan.yielded@.len() ==> occupations@[(
                #[trigger] scan.yielded@[j]).1].tag != me && reachable(
                    space,
                    src,
                    bar,
                    scan.yielded@[j].1,
                ) && charged_path(
                    space,
                    occupations@,
                    me,
                    source.ix as int,
                    scan.yielded@[j].1,
                    (scan.yielded@[j]).0,
                ),
            forall|j: int|
                0 <= j < scan.queue@.len() ==> occupations@[(
                #[trigger] scan.queue@[j]).1 as int].tag != me && reachable(
                    space,
                    src,
                    bar,
                    scan.queue@[j].1 as int,
                ) && charged_path(
                    space,
                    occupations@,
                    me,
                    source.ix as int,
                    scan.queue@[j].1 as int,
                    scan.queue@[j].0 as int,
                ),
            forall|zz: int|
                #![trigger scan_frontier(space, scan.yielded@, source.ix as int, zz)]
                0 <= zz < space.sz && occupations@[zz].tag != me && scan_frontier(
                    space,
                    scan.yielded@,
                    source.ix as int,
                    zz,
                ) ==> scan.visited@[zz] || queue_names(scan.queue@, zz),
            occupations@[source.ix as int].tag == me ==> scan.yielded@.len() == 0
                && scan.queue@.len() == 0,
            forall|j: int, p2: Seq<int>|
                #![trigger scan.yielded@[j], wave_path(space, src, bar, p2)]
                0 <= j < scan.yielded@.len() && wave_path(space, src, bar, p2) && p2.last() == (
                scan.yielded@[j]).1 ==> strength_sum(occupations@, p2) >= (scan.yielded@[j]).0,
            (occupations@[source.ix as int].tag != me && !scan.visited@[source.ix as int])
                ==> queue_has(
                scan.queue@,
                occupations@[source.ix as int].strength as int,
                source.ix as int,
            ),
            forall|j: int, z2: int|
                #![trigger scan.yielded@[j], occupations@[z2]]
                0 <= j < scan.yielded@.len() && 0 <= z2 < space.sz && adj(
                    space,
                    (scan.yielded@[j]).1,
                    z2,
                ) && !scan.visited@[z2] && occupations@[z2].tag != me ==> queued_below(
                    scan.queue@,
                    z2,
                    (scan.yielded@[j]).0 + occupations@[z2].strength,
                ),
        ensures
            scan.wf(),
            total == outward_sum(
                productions@,
                par,
                turns_left as int,
                scan.yielded@,
                scan.yielded@.len() as int,
            ),
            forall|j1: int, j2: int|
                0 <= j1 < j2 < scan.yielded@.len() ==> (scan.yielded@[j1]).0
                    <= (scan.yielded@[j2]).0,
            forall|j1: int, j2: int|
                0 <= j1 < j2 < scan.yielded@.len() ==> (scan.yielded@[j1]).1
                    != (scan.yielded@[j2]).1,
            forall|j: int|
                0 <= j < scan.yielded@.len() ==> 0 <= (#[trigger] scan.yielded@[j]).1
                    < space.sz,
            forall|zz: int|
                0 <= zz < space.sz ==> ((#[trigger] scan.visited@[zz]) <==> log_has(
                    scan.yielded@,
                    zz,
                )),
            forall|j: int|
                0 <= j < scan.yielded@.len() ==> occupations@[(
                #[trigger] scan.yielded@[j]).1].tag != me && reachable(
                    space,
                    src,
                    bar,
                    scan.yielded@[j].1,
                ) && charged_path(
                    space,
                    occupations@,
                    me,
                    source.ix as int,
                    scan.yielded@[j].1,
                    (scan.yielded@[j]).0,
                ),
            forall|zz: int|
                #![trigger scan_frontier(space, scan.yielded@, source.ix as int, zz)]
                0 <= zz < space.sz && occupations@[zz].tag != me && scan_frontier(
                    space,
                    scan.yielded@,
                    source.ix as int,
                    zz,
                ) ==> scan.visited@[zz],
            occupations@[source.ix as int].tag == me ==> scan.yielded@.len() == 0,
            scan.queue@.len() == 0,
            forall|j: int, p2: Seq<int>|
                #![trigger scan.yielded@[j], wave_path(space, src, bar, p2)]
                0 <= j < scan.yielded@.len() && wave_path(space, src, bar, p2) && p2.last() == (
                scan.yielded@[j]).1 ==> strength_sum(occupations@, p2) >= (scan.yielded@[j]).0,
        decreases space.sz - scan.yielded@.len(),
    {
        proof {
            lemma_history_capacity(scan.yielded@, space.sz as int);
        }
        let ghost log_pre = scan.yielded@;
        let ghost scan_pre = scan;
        let step = scan.next();
        match step {
            None => {
                proof {
                    // Exhaustion: an uncovered frontier cell would be a
                    // pending entry, and then something would have been
                    // yielded.
                    assert forall|zz: int|
                        0 <= zz < space.sz && occupations@[zz].tag != me
                            && #[trigger] scan_frontier(
                            space,
                            scan.yielded@,
                            source.ix as int,
                            zz,
                        ) implies scan.visited@[zz] by {
                        if !scan.visited@[zz] {
                            assert(queue_names(scan_pre.queue@, zz));
                            let k = choose|k: int|
                                0 <= k < scan_pre.queue@.len() && (
                                #[trigger] scan_pre.queue@[k]).1 as int == zz;
                            assert(scan_pre.entry_pending(k));
                            assert(scan_pre.has_pending());
                        }
                    }
                    // With everything on the frontier visited, no logged
                    // cell has an unvisited passable neighbour left.
                    assert forall|j: int, z2: int|
                        #![trigger scan.yielded@[j], occupations@[z2]]
                        0 <= j < scan.yielded@.len() && 0 <= z2 < space.sz && adj(
                            space,
                            (scan.yielded@[j]).1,
                            z2,
                        ) && !scan.visited@[z2] && occupations@[z2].tag != me implies queued_below(
                        scan.queue@,
                        z2,
                        (scan.yielded@[j]).0 + occupations@[z2].strength,
                    ) by {
                        assert(scan_frontier(space, scan.yielded@, source.ix as int, z2));
                        assert(scan.visited@[z2]);
                    }
                    if occupations@[source.ix as int].tag != me && !scan.visited@[source.ix as int] {
                        assert(scan_frontier(
                            space,
                            scan.yielded@,
                            source.ix as int,
                            source.ix as int,
                        ));
                        assert(scan.visited@[source.ix as int]);
                    }
                }
                break ;
            },
            Some((dist, z)) => {
                proof {
                    let zi = z.ix as int;
                    let log_new = scan.yielded@;
                    // The yielded entry came out of the pending queue.
                    assert(queue_has(scan_pre.queue@, dist as int, zi));
                    let kq = choose|kq: int|
                        0 <= kq < scan_pre.queue@.len() && (#[trigger] scan_pre.queue@[kq]).0 as int
                            == dist as int && scan_pre.queue@[kq].1 as int == zi;
                    assert(occupations@[zi].tag != me && reachable(space, src, bar, zi)
                        && charged_path(space, occupations@, me, source.ix as int, zi, dist as int));
                    // The visited image stays in step with the log.
                    assert forall|zz: int| 0 <= zz < space.sz implies ((
                    #[trigger] scan.visited@[zz]) <==> log_has(log_new, zz)) by {
                        if zz == zi {
                            assert(log_new[log_new.len() - 1].1 == zi);
                            assert(log_has(log_new, zz));
                        } else {
                            assert(scan.visited@[zz] == scan_pre.visited@[zz]);
                            if log_has(log_new, zz) {
                                let j = choose|j: int|
                                    0 <= j < log_new.len() && (#[trigger] log_new[j]).1 == zz;
                                assert(j < log_pre.len() && log_pre[j].1 == zz);
                                assert(log_has(log_pre, zz));
                            }
                            if log_has(log_pre, zz) {
                                let j = choose|j: int|
                                    0 <= j < log_pre.len() && (#[trigger] log_pre[j]).1 == zz;
                                assert(log_new[j].1 == zz);
                                assert(log_has(log_new, zz));
                            }
                        }
                    }
                    // Queue entries stay passable and reachable, their
                    // costs charged by actual paths.
                    assert forall|j: int| 0 <= j < scan.queue@.len() implies occupations@[(
                    #[trigger] scan.queue@[j]).1 as int].tag != me && reachable(
                        space,
                        src,
                        bar,
                        scan.queue@[j].1 as int,
                    ) && charged_path(
                        space,
                        occupations@,
                        me,
                        source.ix as int,
                        scan.queue@[j].1 as int,
                        scan.queue@[j].0 as int,
                    ) by {
                        if queue_has(
                            scan_pre.queue@,
                            scan.queue@[j].0 as int,
                            scan.queue@[j].1 as int,
                        ) {
                            let k = choose|k: int|
                                0 <= k < scan_pre.queue@.len() && (
                                #[trigger] scan_pre.queue@[k]).0 as int == scan.queue@[j].0 as int
                                    && scan_pre.queue@[k].1 as int == scan.queue@[j].1 as int;
                            assert(occupations@[scan_pre.queue@[k].1 as int].tag != me);
                        } else {
                            assert(DijsktraScan::<_>::pushed_entry(
                                scan_pre.space,
                                scan_pre.cost_fn,
                                scan.queue@,
                                dist as int,
                                zi,
                                j,
                            ));
                            let (dd, st) = choose|dd: Dir, st: i16|
                                #![trigger scan_pre.space.adjacent_spec(zi, dd), call_ensures(scan_pre.cost_fn, (&(Point { space: scan_pre.space, ix: scan.queue@[j].1 }),), Some(st))]
                                {
                                    &&& scan.queue@[j].1 as int == scan_pre.space.adjacent_spec(
                                        zi,
                                        dd,
                                    )
                                    &&& scan.queue@[j].0 as int == dist as int + st
                                    &&& call_ensures(
                                        scan_pre.cost_fn,
                                        (&(Point {
                                            space: scan_pre.space,
                                            ix: scan.queue@[j].1,
                                        }),),
                                        Some(st),
                                    )
                                };
                            let nz = scan.queue@[j].1 as int;
                            assert(occupations@[nz].tag != me);
                            lemma_adjacent_in_range(space, zi, dd);
                            assert(adj(space, zi, nz)) by {
                                match dd {
                                    Dir::North => {
                                        assert(nz == space.adjacent_spec(zi, Dir::North));
                                    },
                                    Dir::East => {
                                        assert(nz == space.adjacent_spec(zi, Dir::East));
                                    },
                                    Dir::South => {
                                        assert(nz == space.adjacent_spec(zi, Dir::South));
                                    },
                                    Dir::West => {
                                        assert(nz == space.adjacent_spec(zi, Dir::West));
                                    },
                                }
                            }
                            assert(!bar.contains(nz));
                            lemma_reachable_step(space, src, bar, zi, nz);
                            // The pushed cost extends the popped cell's
                            // charged path by one step.
                            let pp = choose|pp: Seq<int>|
                                {
                                    &&& #[trigger] wave_path(space, src, bar, pp)
                                    &&& pp.last() == zi
                                    &&& dist as int == strength_sum(occupations@, pp)
                                };
                            lemma_wave_path_push(space, src, bar, pp, nz);
                            let p2 = pp.push(nz);
                            assert(p2.drop_last() =~= pp);
                            assert(st == occupations@[nz].strength);
                            assert(wave_path(space, src, bar, p2) && p2.last() == nz
                                && scan.queue@[j].0 as int == strength_sum(occupations@, p2));
                        }
                    }
                    // The frontier stays covered.
                    assert forall|zz: int|
                        0 <= zz < space.sz && occupations@[zz].tag != me
                            && #[trigger] scan_frontier(
                            space,
                            log_new,
                            source.ix as int,
                            zz,
                        ) implies scan.visited@[zz] || queue_names(scan.queue@, zz) by {
                        if zz == zi {
                            assert(scan.visited@[zz]);
                        } else {
                            if zz == source.ix as int || (exists|j: int|
                                0 <= j < log_pre.len() && adj(
                                    space,
                                    (#[trigger] log_pre[j]).1,
                                    zz,
                                )) {
                                // Covered before the call: visited then, or
                                // pending; pending entries of other cells
                                // survive.
                                if exists|j: int|
                                    0 <= j < log_pre.len() && adj(
                                        space,
                                        (#[trigger] log_pre[j]).1,
                                        zz,
                                    ) {
                                    let j = choose|j: int|
                                        0 <= j < log_pre.len() && adj(
                                            space,
                                            (#[trigger] log_pre[j]).1,
                                            zz,
                                        );
                                    assert(scan_frontier(space, log_pre, source.ix as int, zz));
                                } else {
                                    assert(scan_frontier(space, log_pre, source.ix as int, zz));
                                }
                                if scan_pre.visited@[zz] {
                                    assert(scan.visited@[zz]);
                                } else {
                                    let k = choose|k: int|
                                        0 <= k < scan_pre.queue@.len() && (
                                        #[trigger] scan_pre.queue@[k]).1 as int == zz;
                                    assert(scan_pre.entry_pending(k));
                                    assert(queue_has(
                                        scan.queue@,
                                        scan_pre.queue@[k].0 as int,
                                        zz,
                                    ));
                                    let k2 = choose|k2: int|
                                        0 <= k2 < scan.queue@.len() && (
                                        #[trigger] scan.queue@[k2]).0 as int
                                            == scan_pre.queue@[k].0 as int
                                            && scan.queue@[k2].1 as int == zz;
                                    assert(queue_names(scan.queue@, zz));
                                }
                            } else {
                                // Newly adjacent: `zz` borders the popped
                                // cell, whose neighbours the call covered.
                                let j = choose|j: int|
                                    0 <= j < log_new.len() && adj(
                                        space,
                                        (#[trigger] log_new[j]).1,
                                        zz,
                                    );
                                assert(j == log_new.len() - 1);
                                assert(adj(space, zi, zz));
                                let dd = choose|dd: Dir|
                                    zz == #[trigger] space.adjacent_spec(zi, dd);
                                lemma_adjacent_in_range(space, zi, dd);
                                assert(DijsktraScan::<_>::nbr_covered(
                                    scan_pre.space,
                                    scan_pre.cost_fn,
                                    scan.queue@,
                                    scan.visited@,
                                    dist as int,
                                    zi,
                                    dd,
                                ));
                                if !scan.visited@[zz] {
                                    let ret = choose|ret: Option<i16>|
                                        {
                                            &&& #[trigger] call_ensures(
                                                scan_pre.cost_fn,
                                                (&(Point {
                                                    space: scan_pre.space,
                                                    ix: space.adjacent_spec(zi, dd) as u16,
                                                }),),
                                                ret,
                                            )
                                            &&& (ret matches Some(st) ==> queue_has(
                                                scan.queue@,
                                                dist as int + st,
                                                space.adjacent_spec(zi, dd),
                                            ))
                                        };
                                    assert(ret is Some) by {
                                        if ret is None {
                                            assert(occupations@[zz].tag == me);
                                        }
                                    }
                                    let st = ret.unwrap();
                                    let k2 = choose|k2: int|
                                        0 <= k2 < scan.queue@.len() && (
                                        #[trigger] scan.queue@[k2]).0 as int == dist as int + st
                                            && scan.queue@[k2].1 as int == zz;
                                    assert(queue_names(scan.queue@, zz));
                                }
                            }
                        }
                    }
                    // Minimality: the new entry undercuts every path to its
                    // cell, since the pending entry the path crosses cost at
                    // least as much as the popped minimum.
                    assert(occupations@[source.ix as int].tag != me) by {
                        assert(scan_pre.queue@.len() > 0);
                    }
                    assert forall|j: int, p2: Seq<int>|
                        #![trigger log_new[j], wave_path(space, src, bar, p2)]
                        0 <= j < log_new.len() && wave_path(space, src, bar, p2) && p2.last() == (
                        log_new[j]).1 implies strength_sum(occupations@, p2) >= (log_new[j]).0 by {
                        if j < log_pre.len() {
                            assert(log_new[j] == log_pre[j]);
                        } else {
                            lemma_scan_path_bound(
                                space,
                                occupations@,
                                me,
                                source.ix as int,
                                log_pre,
                                scan_pre.queue@,
                                scan_pre.visited@,
                                p2,
                            );
                            let k = choose|k: int|
                                0 <= k < scan_pre.queue@.len() && !scan_pre.visited@[(
                                #[trigger] scan_pre.queue@[k]).1 as int] && scan_pre.queue@[k].0 as int
                                    <= strength_sum(occupations@, p2);
                            assert(scan_pre.entry_pending(k));
                            assert(dist as int <= scan_pre.queue@[k].0 as int);
                        }
                    }
                    // The untouched origin keeps its seed entry.
                    if occupations@[source.ix as int].tag != me && !scan.visited@[source.ix as int] {
                        assert(source.ix as int != zi);
                        assert(!scan_pre.visited@[source.ix as int]);
                        let k = choose|k: int|
                            0 <= k < scan_pre.queue@.len() && (
                            #[trigger] scan_pre.queue@[k]).0 as int == occupations@[source.ix as int].strength as int
                                && scan_pre.queue@[k].1 as int == source.ix as int;
                        assert(scan_pre.entry_pending(k));
                        assert(queue_has(
                            scan.queue@,
                            scan_pre.queue@[k].0 as int,
                            scan_pre.queue@[k].1 as int,
                        ));
                    }
                    // Each unvisited passable neighbour of a logged cell
                    // keeps an entry at most one step dearer than the log
                    // entry: old pairs survive, and the popped cell's
                    // neighbours were pushed at exactly that cost.
                    assert forall|j: int, z2: int|
                        #![trigger log_new[j], occupations@[z2]]
                        0 <= j < log_new.len() && 0 <= z2 < space.sz && adj(
                            space,
                            (log_new[j]).1,
                            z2,
                        ) && !scan.visited@[z2] && occupations@[z2].tag != me implies queued_below(
                        scan.queue@,
                        z2,
                        (log_new[j]).0 + occupations@[z2].strength,
                    ) by {
                        assert(z2 != zi);
                        if j < log_pre.len() {
                            assert(log_new[j] == log_pre[j]);
                            assert(!scan_pre.visited@[z2]);
                            assert(queued_below(
                                scan_pre.queue@,
                                z2,
                                (log_pre[j]).0 + occupations@[z2].strength,
                            ));
                            let k = choose|k: int|
                                0 <= k < scan_pre.queue@.len() && (
                                #[trigger] scan_pre.queue@[k]).1 as int == z2
                                    && scan_pre.queue@[k].0 as int <= (log_pre[j]).0
                                    + occupations@[z2].strength;
                            assert(scan_pre.entry_pending(k));
                            assert(queue_has(
                                scan.queue@,
                                scan_pre.queue@[k].0 as int,
                                scan_pre.queue@[k].1 as int,
                            ));
                            let k2 = choose|k2: int|
                                0 <= k2 < scan.queue@.len() && (#[trigger] scan.queue@[k2]).0 as int
                                    == scan_pre.queue@[k].0 as int && scan.queue@[k2].1 as int
                                    == z2;
                            assert(queued_below(
                                scan.queue@,
                                z2,
                                (log_new[j]).0 + occupations@[z2].strength,
                            ));
                        } else {
                            assert(adj(space, zi, z2));
                            let dd = choose|dd: Dir|
                                z2 == #[trigger] space.adjacent_spec(zi, dd);
                            lemma_adjacent_in_range(space, zi, dd);
                            assert(DijsktraScan::<_>::nbr_covered(
                                scan_pre.space,
                                scan_pre.cost_fn,
                                scan.queue@,
                                scan.visited@,
                                dist as int,
                                zi,
                                dd,
                            ));
                            let ret = choose|ret: Option<i16>|
                                {
                                    &&& #[trigger] call_ensures(
                                        scan_pre.cost_fn,
                                        (&(Point {
                                            space: scan_pre.space,
                                            ix: space.adjacent_spec(zi, dd) as u16,
                                        }),),
                                        ret,
                                    )
                                    &&& (ret matches Some(st) ==> queue_has(
                                        scan.queue@,
                                        dist as int + st,
                                        space.adjacent_spec(zi, dd),
                                    ))
                                };
                            assert(ret is Some) by {
                                if ret is None {
                                    assert(occupations@[z2].tag == me);
                                }
                            }
                            let st = ret.unwrap();
                            assert(st == occupations@[z2].strength);
                            let k2 = choose|k2: int|
                                0 <= k2 < scan.queue@.len() && (#[trigger] scan.queue@[k2]).0 as int
                                    == dist as int + st && scan.queue@[k2].1 as int == z2;
                            assert(queued_below(
                                scan.queue@,
                                z2,
                                (log_new[j]).0 + occupations@[z2].strength,
                            ));
                        }
                    }
                }
                let ttc64: i64 = {
                    let t = (dist as u64 + (par.prod_per_turn as u64) - 1) / (
                    par.prod_per_turn as u64);
                    if t > i32::MAX as u64 {
                        i32::MAX as i64
                    } else {
                        t as i64
                    }
                };
                let n: i32 = if (turns_left as i64) - ttc64 < i32::MIN as i64 {
                    i32::MIN
                } else {
                    ((turns_left as i64) - ttc64) as i32
                };
                let capacity = (productions[z.ix as usize] as i64) * ONE;
                let output = fx_mul(annuity(par.gamma, n), capacity);
                let dist32: i32 = if dist > i32::MAX as i64 {
                    i32::MAX
                } else {
                    dist as i32
                };
                proof {
                    lemma_outward_sum_push(
                        productions@,
                        par,
                        turns_left as int,
                        log_pre,
                        (dist as int, z.ix as int),
                        log_pre.len() as int,
                    );
                    lemma_history_capacity(scan.yielded@, space.sz as int);
                }
                total = fx_add(total, fx_mul(discount(par.gamma_dist, dist32), output));
            },
        }
    }
    proof {
        let log = scan.yielded@;
        assert forall|zz: int| 0 <= zz < space.sz implies (#[trigger] log_has(log, zz) <==> (
        occupations@[source.ix as int].tag != me && reachable(space, src, bar, zz))) by {
            if log_has(log, zz) {
                let j = choose|j: int| 0 <= j < log.len() && (#[trigger] log[j]).1 == zz;
                assert(reachable(space, src, bar, zz));
                assert(log.len() > 0);
                assert(occupations@[source.ix as int].tag != me);
            }
            if occupations@[source.ix as int].tag != me && reachable(space, src, bar, zz) {
                // The origin was yielded: it is on the frontier by itself,
                // and the exhausted queue holds nothing.
                assert(scan_frontier(space, log, source.ix as int, source.ix as int));
                assert(scan.visited@[source.ix as int]);
                assert(log_has(log, source.ix as int));
                // Adjacency closure of the log, from the covered frontier.
                assert forall|z2: int|
                    #![trigger log_has(log, z2)]
                    0 <= z2 < space.sz && occupations@[z2].tag != me && (exists|j: int|
                        0 <= j < log.len() && adj(space, (#[trigger] log[j]).1, z2)) implies log_has(
                    log,
                    z2,
                ) by {
                    let j = choose|j: int|
                        0 <= j < log.len() && adj(space, (#[trigger] log[j]).1, z2);
                    assert(scan_frontier(space, log, source.ix as int, z2));
                    assert(scan.visited@[z2]);
                }
                let k = choose|k: nat| 1 <= k && #[trigger] level(space, src, bar, k).contains(zz);
                lemma_levels_yielded(space, occupations@, me, source.ix as int, log, k);
            }
        }
    }
    (total, Ghost(scan.yielded@))
}

/// `u` is an outward utility of cell `target`: the saturated sum of the
/// discounted production annuities over a cost-ordered, duplicate-free scan
/// log that covers exactly the cells reachable from the target without
/// entering a cell of `me`.
pub open spec fn outward_evidence(
    space: Space,
    occ: Seq<Occupation>,
    prods: Seq<Production>,
    me: Tag,
    par: Par,
    turns_left: int,
    target: int,
    u: int,
) -> bool {
    exists|log: Seq<(int, int)>|
        {
            &&& u == #[trigger] outward_sum(prods, par, turns_left, log, log.len() as int)
            &&& (forall|j1: int, j2: int|
                0 <= j1 < j2 < log.len() ==> (log[j1]).0 <= (log[j2]).0)
            &&& (forall|j1: int, j2: int|
                0 <= j1 < j2 < log.len() ==> (log[j1]).1 != (log[j2]).1)
            &&& (forall|j: int| 0 <= j < log.len() ==> 0 <= (#[trigger] log[j]).1 < space.sz)
            &&& (forall|z: int|
                0 <= z < space.sz ==> (#[trigger] log_has(log, z) <==> (occ[target].tag != me
                    && reachable(
                    space,
                    target_src(target),
                    blocked_of(occ, me, space.sz as int),
                    z,
                ))))
            &&& (forall|j: int|
                0 <= j < log.len() ==> charged_path(
                    space,
                    occ,
                    me,
                    target,
                    (#[trigger] log[j]).1,
                    (log[j]).0,
                ))
            &&& (forall|j: int, p2: Seq<int>|
                #![trigger log[j], wave_path(space, target_src(target), blocked_of(occ, me, space.sz as int), p2)]
                0 <= j < log.len() && wave_path(
                    space,
                    target_src(target),
                    blocked_of(occ, me, space.sz as int),
                    p2,
                ) && p2.last() == (log[j]).1 ==> strength_sum(occ, p2) >= (log[j]).0)
        }
}

/// `rim` is a rim valuation of the body of `me`: its points are exactly the
/// first ring of cells not owned by `me` around the body, each once, and
/// each utility carries outward-scan evidence for its point.
pub open spec fn rim_valuation(
    space: Space,
    occ: Seq<Occupation>,
    prods: Seq<Production>,
    me: Tag,
    par: Par,
    turns_left: int,
    rim: Seq<(Point, i64)>,
) -> bool {
    let body = body_set_spec(space, occ, me);
    &&& (forall|j: int|
        0 <= j < rim.len() ==> (#[trigger] rim[j]).0.wf() && rim[j].0.space == space && level(
            space,
            body,
            Set::<int>::empty(),
            2nat,
        ).contains(rim[j].0.ix as int))
    &&& (forall|j1: int, j2: int| 0 <= j1 < j2 < rim.len() ==> rim[j1].0.ix != rim[j2].0.ix)
    &&& (forall|z: int|
        level(space, body, Set::<int>::empty(), 2nat).contains(z) ==> exists|j: int|
            0 <= j < rim.len() && (#[trigger] rim[j]).0.ix == z)
    &&& (forall|j: int|
        0 <= j < rim.len() ==> outward_evidence(
            space,
            occ,
            prods,
            me,
            par,
            turns_left,
            (#[trigger] rim[j]).0.ix as int,
            rim[j].1 as int,
        ))
}

/// Computes the expected utilities of conquering each cell of the rim: the
/// first ring of foreign or unoccupied cells immediately surrounding the
/// body of the bot. The returned points are exactly the rim cells, each
/// once; each utility is the outward value its scan produced.
pub fn compute_rim_utility(
    who: Tag,
    body: &Mask,
    productions: &Vec<Production>,
    occupations: &Vec<Occupation>,
    par: Par,
    turns_left: i32,
) -> (r: Vec<(Point, i64)>)
    requires
        body.wf(),
        par.wf(),
        productions.len() == body.space.sz,
        occupations.len() == body.space.sz,
        forall|z: int|
            0 <= z < occupations.len() ==> 0 <= (#[trigger] occupations[z]).strength,
    ensures
        forall|j: int|
            0 <= j < r.len() ==> (#[trigger] r[j]).0.wf() && r[j].0.space == body.space && level(
                body.space,
                body.set(),
                Set::<int>::empty(),
                2nat,
            ).contains(r[j].0.ix as int),
        forall|j1: int, j2: int| 0 <= j1 < j2 < r.len() ==> r[j1].0.ix != r[j2].0.ix,
        forall|z: int|
            level(body.space, body.set(), Set::<int>::empty(), 2nat).contains(z) ==> exists|j: int|
                0 <= j < r.len() && (#[trigger] r[j]).0.ix == z,
        forall|j: int|
            0 <= j < r.len() ==> outward_evidence(
                body.space,
                occupations@,
                productions@,
                who,
                par,
                turns_left as int,
                (#[trigger] r[j]).0.ix as int,
                r[j].1 as int,
            ),
{
    let space = body.space;
    let wave = Wave::from(body);
    let mut out: Vec<(Point, i64)> = Vec::new();
    let rim_opt = wave.front(1);
    if let Some(rim) = rim_opt {
        proof {
            assert(wave.front_set(1) =~= level(space, body.set(), Set::<int>::empty(), 2nat));
            assert(rim@ == wave.front_seq(1));
            assert(wave.front_seq(1) == wave.ixs@.subrange(
                wave.stops@[0] as int,
                wave.stops@[1] as int,
            ));
            assert forall|i1: int, i2: int|
                0 <= i1 < i2 < rim@.len() implies rim@[i1] != rim@[i2] by {
                let pre = wave.ixs@.subrange(0, wave.stops@[wave.front_count() - 1] as int);
                let off = wave.stops@[0] as int;
                assert(wave.stops@[1] <= wave.stops@[wave.front_count() - 1]);
                assert(pre[off + i1] == rim@[i1] && pre[off + i2] == rim@[i2]);
            }
            assert forall|i: int| 0 <= i < rim@.len() implies #[trigger] rim@[i]
                < space.sz by {
                assert(wave.stops@[1] <= wave.stops@[wave.front_count() - 1]);
                assert(wave.ixs@[wave.stops@[0] + i] == rim@[i]);
            }
        }
        let mut i: usize = 0;
        while i < rim.len()
            invariant
                body.wf(),
                par.wf(),
                space == body.space,
                productions.len() == space.sz,
                occupations.len() == space.sz,
                forall|z: int|
                    0 <= z < occupations.len() ==> 0 <= (#[trigger] occupations[z]).strength,
                i <= rim.len(),
                out.len() == i,
                forall|i2: int| 0 <= i2 < rim@.len() ==> #[trigger] rim@[i2] < space.sz,
                forall|i1: int, i2: int| 0 <= i1 < i2 < rim@.len() ==> rim@[i1] != rim@[i2],
                seq_set(rim@) =~= level(space, body.set(), Set::<int>::empty(), 2nat),
                forall|j: int| 0 <= j < i ==> (#[trigger] out[j]).0.ix == rim@[j],
                forall|j: int|
                    0 <= j < i ==> (#[trigger] out[j]).0.wf() && out[j].0.space == space,
                forall|j: int|
                    0 <= j < i ==> outward_evidence(
                        space,
                        occupations@,
                        productions@,
                        who,
                        par,
                        turns_left as int,
                        (#[trigger] out[j]).0.ix as int,
                        out[j].1 as int,
                    ),
            decreases rim.len() - i,
        {
            let z = rim[i];
            let pnt = Point { space, ix: z };
            let (u, scan_log) = compute_outward_utility(
                &pnt,
                who,
                productions,
                occupations,
                par,
                turns_left,
            );
            proof {
                let log = scan_log@;
                assert(u as int == outward_sum(
                    productions@,
                    par,
                    turns_left as int,
                    log,
                    log.len() as int,
                ));
                assert(outward_evidence(
                    space,
                    occupations@,
                    productions@,
                    who,
                    par,
                    turns_left as int,
                    pnt.ix as int,
                    u as int,
                ));
            }
            out.push((pnt, u));
            i = i + 1;
        }
        proof {
            assert forall|j: int|
                0 <= j < out.len() implies (#[trigger] out[j]).0.wf() && out[j].0.space
                == body.space && level(body.space, body.set(), Set::<int>::empty(), 2nat).contains(
                out[j].0.ix as int,
            ) by {
                assert(seq_set(rim@).contains(out[j].0.ix as int));
            }
            assert forall|z: int|
                level(body.space, body.set(), Set::<int>::empty(), 2nat).contains(
                z,
            ) implies exists|j: int| 0 <= j < out.len() && (#[trigger] out[j]).0.ix == z by {
                assert(seq_set(rim@).contains(z));
                let i2 = choose|i2: int| 0 <= i2 < rim@.len() && rim@[i2] == z;
                assert(out[i2].0.ix == z);
            }
        }
        out
    } else {
        proof {
            assert(wave.front_count() == 1);
            let k: int = 2;
            assert(level(body.space, body.set(), Set::<int>::empty(), k as nat) =~= Set::<
                int,
            >::empty());
            assert forall|z: int|
                !level(body.space, body.set(), Set::<int>::empty(), 2nat).contains(z) by {
                assert(!level(body.space, body.set(), Set::<int>::empty(), k as nat).contains(
                    z,
                ));
            }
        }
        out
    }
}

/// For each rim target, ripples a wave back from the target with the body
/// as the absorbing sink, walks its fronts until the accumulated strength
/// and banked production exceed the target's resistance, and overwrites the
/// still-score of the cells on the intermediate fronts with the discounted
/// forward utility of the capture.
pub fn compute_action_utilities(
    choices: &mut Vec<Choice<Option<i64>>>,
    who: Tag,
    body: &Mask,
    productions: &Vec<Production>,
    occupations: &Vec<Occupation>,
    rim_utilities: &Vec<(Point, i64)>,
    par: Par,
)
    requires
        body.wf(),
        par.wf(),
        productions.len() == body.space.sz,
        occupations.len() == body.space.sz,
        old(choices).len() == body.space.sz,
        forall|j: int|
            0 <= j < rim_utilities.len() ==> (#[trigger] rim_utilities[j]).0.wf()
                && rim_utilities[j].0.space == body.space,
    ensures
        final(choices).len() == old(choices).len(),
        final(choices)@ == apply_targets(
            body.space,
            body.set(),
            occupations@,
            productions@,
            par.gamma as int,
            old(choices)@,
            rim_utilities@,
            rim_utilities@.len() as int,
        ),
{
    let space = body.space;
    let n = space.len();
    let mut j: usize = 0;
    while j < rim_utilities.len()
        invariant
            body.wf(),
            par.wf(),
            space == body.space,
            n == space.spec_len(),
            productions.len() == space.sz,
            occupations.len() == space.sz,
            choices.len() == space.sz,
            forall|jj: int|
                0 <= jj < rim_utilities.len() ==> (#[trigger] rim_utilities[jj]).0.wf()
                    && rim_utilities[jj].0.space == body.space,
            j <= rim_utilities.len(),
            choices@ == apply_targets(
                space,
                body.set(),
                occupations@,
                productions@,
                par.gamma as int,
                old(choices)@,
                rim_utilities@,
                j as int,
            ),
        decreases rim_utilities.len() - j,
    {
        let target = rim_utilities[j].0;
        let fwd = rim_utilities[j].1;
        let source = Mask::singleton(&target);
        let wave = Wave::between(&source, body);
        let ghost src = target_src(target.ix as int);
        let ghost bar = body.set().difference(src);
        proof {
            assert(source.set() =~= src);
            assert(sink_bar(&source, body) =~= bar);
        }
        let resist = occupations[target.ix as usize].strength;
        let mut t: usize = 2;
        let mut s: i64 = 0;
        let mut p: i64 = 0;
        let mut found: Option<usize> = None;
        while found.is_none() && t < wave.stops.len()
            invariant
                body.wf(),
                space == body.space,
                n == space.spec_len(),
                occupations.len() == space.sz,
                productions.len() == space.sz,
                wave.rippled(src, bar),
                wave.space == space,
                2 <= t <= space.sz + 2,
                t <= wave.stops@.len() || (t == 2 && wave.stops@.len() <= 2),
                match found {
                    None => capture_search(
                        space,
                        src,
                        bar,
                        occupations@,
                        productions@,
                        resist as int,
                        2,
                        0,
                        0,
                    ) == capture_search(
                        space,
                        src,
                        bar,
                        occupations@,
                        productions@,
                        resist as int,
                        t as int,
                        s as int,
                        p as int,
                    ),
                    Some(ts) => 2 <= ts < wave.stops@.len() && capture_search(
                        space,
                        src,
                        bar,
                        occupations@,
                        productions@,
                        resist as int,
                        2,
                        0,
                        0,
                    ) == Some(ts as int),
                },
            decreases space.sz + 2 - t + (if found is None { 1int } else { 0int }),
        {
            proof {
                lemma_front_inhabited(&wave, src, bar, t as int);
            }
            let mut s_add: i64 = 0;
            let mut p_add: i64 = 0;
            let mut z: usize = 0;
            while z < n
                invariant
                    wave.rippled(src, bar),
                    wave.space == space,
                    space.wf(),
                    n == space.spec_len(),
                    occupations.len() == space.sz,
                    productions.len() == space.sz,
                    2 <= t < wave.stops@.len(),
                    z <= n,
                    s_add as int == level_str_sum(
                        space,
                        src,
                        bar,
                        occupations@,
                        (t + 1) as nat,
                        z as int,
                    ),
                    p_add as int == level_prod_sum(
                        space,
                        src,
                        bar,
                        productions@,
                        (t + 1) as nat,
                        z as int,
                    ),
                decreases n - z,
            {
                let v = wave.at(z);
                if v == (t + 1) as u32 {
                    proof {
                        assert(level(space, src, bar, (t + 1) as nat).contains(z as int));
                    }
                    s_add = fx_add(s_add, occupations[z].strength as i64);
                    p_add = fx_add(p_add, productions[z] as i64);
                } else {
                    proof {
                        if level(space, src, bar, (t + 1) as nat).contains(z as int) {
                            assert(wave.wave@[z as int] == t + 1);
                        }
                    }
                }
                z = z + 1;
            }
            let s2 = fx_add(fx_add(s, p), s_add);
            let p2 = fx_add(p, p_add);
            if s2 > resist as i64 {
                found = Some(t);
            } else {
                s = s2;
                p = p2;
                t = t + 1;
            }
        }
        proof {
            if found is None {
                assert(t >= wave.stops@.len());
                if t <= space.sz + 1 {
                    lemma_front_empty(&wave, src, bar, t as int);
                }
            }
        }
        if let Some(ts) = found {
            let u = fx_mul(fwd, discount(par.gamma, ts as i32));
            let ghost choices_mid = choices@;
            let mut z: usize = 0;
            while z < n
                invariant
                    wave.rippled(src, bar),
                    wave.space == space,
                    space.wf(),
                    n == space.spec_len(),
                    choices.len() == space.sz,
                    2 <= ts < wave.stops@.len(),
                    z <= n,
                    choices_mid.len() == space.sz,
                    forall|zz: int|
                        0 <= zz < z ==> #[trigger] choices@[zz] == (if in_spread(
                            space,
                            src,
                            bar,
                            ts as int,
                            zz,
                        ) {
                            choices_mid[zz].spec_set(None, Some(u))
                        } else {
                            choices_mid[zz]
                        }),
                    forall|zz: int| z <= zz < n ==> #[trigger] choices@[zz] == choices_mid[zz],
                decreases n - z,
            {
                let v = wave.at(z);
                if v >= 3 && v <= ts as u32 {
                    proof {
                        let k2 = v as int;
                        assert(level(space, src, bar, k2 as nat).contains(z as int));
                        assert(in_spread(space, src, bar, ts as int, z as int));
                    }
                    let c = choices[z];
                    choices.set(z, Choice { still: Some(u), ..c });
                } else {
                    proof {
                        if in_spread(space, src, bar, ts as int, z as int) {
                            let k2 = choose|k2: int|
                                3 <= k2 <= ts && #[trigger] level(
                                    space,
                                    src,
                                    bar,
                                    k2 as nat,
                                ).contains(z as int);
                            assert(wave.wave@[z as int] == k2);
                        }
                    }
                }
                z = z + 1;
            }
            proof {
                assert(choices@ =~= apply_target(
                    space,
                    body.set(),
                    occupations@,
                    productions@,
                    par.gamma as int,
                    choices_mid,
                    target.ix as int,
                    fwd as int,
                ));
            }
        }
        j = j + 1;
    }
}

/// The barrier set a wave between `source` and `sink` is rippled with.
pub open spec fn sink_bar(source: &Mask, sink: &Mask) -> Set<int> {
    sink.set().difference(source.set())
}

/// For `2 <= t < stops.len()`, front `t` of a rippled wave is inhabited.
proof fn lemma_front_inhabited(w: &Wave, src: Set<int>, bar: Set<int>, t: int)
    requires
        w.rippled(src, bar),
        2 <= t < w.stops@.len(),
    ensures
        !(level(w.space, src, bar, (t + 1) as nat) =~= Set::<int>::empty()),
{
    assert(w.stops@[t - 1] < w.stops@[t]);
    assert(w.front_set(t) =~= level(w.space, src, bar, (t + 1) as nat));
    let i = w.front_start(t);
    assert(w.front_seq(t)[0] == w.ixs@[i]);
    assert(w.front_set(t).contains(w.ixs@[i] as int));
}

/// At or beyond `stops.len()`, the fronts of a rippled wave are empty.
proof fn lemma_front_empty(w: &Wave, src: Set<int>, bar: Set<int>, t: int)
    requires
        w.rippled(src, bar),
        t >= w.stops@.len(),
        t >= 0,
    ensures
        level(w.space, src, bar, (t + 1) as nat) =~= Set::<int>::empty(),
{
    assert(t + 1 > w.front_count());
}

/// The planner's brain: only its static environment.
pub struct TeddyBrain {
    pub environment: Environment,
}

impl TeddyBrain {
    /// One turn of the planner: value the rim by outward scans, spread the
    /// discounted capture values over the backward-wave fronts, and let each
    /// owned cell take its best-scoring action. The returned actions are the
    /// per-cell maxima of the choices produced by a rim valuation: its
    /// points are exactly the rim of the body, each once, and each utility
    /// carries the evidence of its outward scan.
    pub fn tick(&mut self, state: &State, turns_left: i32) -> (r: Vec<Action>)
        requires
            old(self).environment.wf(),
            state.wf_for(&old(self).environment),
        ensures
            *final(self) == *old(self),
            exists|rim: Seq<(Point, i64)>|
                {
                    &&& rim_valuation(
                        old(self).environment.space,
                        state.occupation_map@,
                        old(self).environment.production_map@,
                        old(self).environment.my_tag,
                        par_default_spec(),
                        turns_left as int,
                        rim,
                    )
                    &&& r@ == select_actions_spec(
                        old(self).environment.space,
                        state.occupation_map@,
                        old(self).environment.my_tag,
                        apply_targets(
                            old(self).environment.space,
                            body_set_spec(
                                old(self).environment.space,
                                state.occupation_map@,
                                old(self).environment.my_tag,
                            ),
                            state.occupation_map@,
                            old(self).environment.production_map@,
                            par_default_spec().gamma as int,
                            Seq::new(
                                old(self).environment.space.sz as nat,
                                |z: int| Choice::<Option<i64>> {
                                    still: None,
                                    north: None,
                                    east: None,
                                    south: None,
                                    west: None,
                                },
                            ),
                            rim,
                            rim.len() as int,
                        ),
                        old(self).environment.space.sz as int,
                    )
                },
    {
        let par = par_default();
        let me = self.environment.my_tag;
        let space = self.environment.space;
        let owned_here = |z: &Point| -> (b: bool)
            requires
                z.wf(),
                z.space == space,
                state.occupation_map.len() == space.sz,
            ensures
                b == (state.occupation_map@[z.ix as int].tag == me),
            {
                state.occupation_map[z.ix as usize].tag == me
            };
        let my_body = Mask::create(&space, owned_here);
        proof {
            assert(my_body.set() =~= body_set_spec(space, state.occupation_map@, me));
        }
        let rim_utilities = compute_rim_utility(
            me,
            &my_body,
            &self.environment.production_map,
            &state.occupation_map,
            par,
            turns_left,
        );
        let n = space.len();
        let mut utilities: Vec<Choice<Option<i64>>> = Vec::new();
        let mut i: usize = 0;
        while i < n
            invariant
                i <= n,
                utilities.len() == i,
                forall|z: int|
                    0 <= z < i ==> #[trigger] utilities[z] == (Choice::<Option<i64>> {
                        still: None,
                        north: None,
                        east: None,
                        south: None,
                        west: None,
                    }),
            decreases n - i,
        {
            utilities.push(Choice::<Option<i64>>::with_init(None));
            i = i + 1;
        }
        proof {
            assert(utilities@ =~= Seq::new(
                space.sz as nat,
                |z: int| Choice::<Option<i64>> {
                    still: None,
                    north: None,
                    east: None,
                    south: None,
                    west: None,
                },
            ));
        }
        compute_action_utilities(
            &mut utilities,
            me,
            &my_body,
            &self.environment.production_map,
            &state.occupation_map,
            &rim_utilities,
            par,
        );
        let acts = select_actions(&space, &state.occupation_map, me, &utilities);
        proof {
            assert(rim_valuation(
                space,
                state.occupation_map@,
                self.environment.production_map@,
                me,
                par_default_spec(),
                turns_left as int,
                rim_utilities@,
            ));
        }
        acts
    }
}

/// The cells the player owns, as a set of linear indices.
pub open spec fn body_set_spec(space: Space, occ: Seq<Occupation>, me: Tag) -> Set<int> {
    Set::new(|z: int| 0 <= z < space.sz && occ[z].tag == me)
}

/// Selects, for each owned cell, the action with the maximal utility in its
/// choice record.
pub fn select_actions(
    space: &Space,
    occupations: &Vec<Occupation>,
    who: Tag,
    utilities: &Vec<Choice<Option<i64>>>,
) -> (r: Vec<Action>)
    requires
        space.wf(),
        occupations.len() == space.sz,
        utilities.len() == space.sz,
    ensures
        r@ == select_actions_spec(*space, occupations@, who, utilities@, space.sz as int),
{
    let mut actions: Vec<Action> = Vec::new();
    let n = space.len();
    let mut z: usize = 0;
    while z < n
        invariant
            space.wf(),
            occupations.len() == space.sz,
            utilities.len() == space.sz,
            n == space.spec_len(),
            z <= n,
            actions@ == select_actions_spec(*space, occupations@, who, utilities@, z as int),
        decreases n - z,
    {
        if occupations[z].tag == who {
            let pt = space.point(z);
            let act = utilities[z].find_max_action();
            proof {
                assert(<Option<i64> as vstd::std_specs::cmp::PartialOrdSpec>::obeys_partial_cmp_spec());
            }
            actions.push((pt.coord(), act));
        }
        z = z + 1;
    }
    actions
}

} // verus!
