//! The first bot built on the early grid layout: each owned cell attacks
//! the first weaker foreign neighbour, else reinforces the first friendly
//! neighbour with less than half its strength.

use vstd::prelude::*;
use vstd::arithmetic::div_mod::lemma_fundamental_div_mod_converse;
use crate::ua::map::SiteMap;
use crate::ua::space::{direction_spec, modulo_spec, pos_neighbor_spec, Dir, Pos, Space};

verus! {

/// The neighbour of `p` probed at step `d` of the fixed order.
pub open spec fn nbr_at(p: Pos, d: int) -> Pos {
    let dir = seq![Dir::North, Dir::East, Dir::South, Dir::West][d];
    let c = pos_neighbor_spec(p, dir);
    Pos { x: c.0 as i16, y: c.1 as i16 }
}

/// The first neighbour, in the fixed order starting at step `d`, that is
/// foreign and strictly weaker than the source.
pub open spec fn first_weaker_foreign(map: &SiteMap, pos: Pos, me: u8, d: int) -> Option<Pos>
    decreases 4 - d,
{
    if d < 0 || d >= 4 {
        None
    } else {
        let n = nbr_at(pos, d);
        let tgt = map.sites[map.space.ix_spec(n)];
        if tgt.owner != me && tgt.strength < map.sites[map.space.ix_spec(pos)].strength {
            Some(n)
        } else {
            first_weaker_foreign(map, pos, me, d + 1)
        }
    }
}

/// The first neighbour, in the fixed order starting at step `d`, that is
/// friendly with less than half the source's strength.
pub open spec fn first_weak_friend(map: &SiteMap, pos: Pos, me: u8, d: int) -> Option<Pos>
    decreases 4 - d,
{
    if d < 0 || d >= 4 {
        None
    } else {
        let n = nbr_at(pos, d);
        let tgt = map.sites[map.space.ix_spec(n)];
        if tgt.owner == me && 2 * (tgt.strength as int) < map.sites[map.space.ix_spec(
            pos,
        )].strength as int {
            Some(n)
        } else {
            first_weak_friend(map, pos, me, d + 1)
        }
    }
}

/// What one owned cell does: step toward the first weaker foreign
/// neighbour, else toward the first under-strength friendly neighbour, else
/// stay.
pub open spec fn tick_site_spec(map: &SiteMap, pos: Pos, me: u8) -> Option<Dir> {
    match first_weaker_foreign(map, pos, me, 0) {
        Some(n) => Some(direction_spec(map.space, pos, n)),
        None => match first_weak_friend(map, pos, me, 0) {
            Some(n) => Some(direction_spec(map.space, pos, n)),
            None => None,
        },
    }
}

/// The move of one owned cell.
pub fn tick_site(pos: &Pos, map: &SiteMap, me: u8) -> (r: Option<Dir>)
    requires
        map.wf(),
        pos.neighbors_in_range(),
    ensures
        r == tick_site_spec(map, *pos, me),
{
    let src = *map.site(pos);
    let mut ns = pos.neighbors();
    let mut d: usize = 0;
    while d < 4
        invariant
            map.wf(),
            pos.neighbors_in_range(),
            d <= 4,
            ns.pos == *pos,
            ns.dir == (if d == 0 {
                Some(Dir::North)
            } else if d == 1 {
                Some(Dir::East)
            } else if d == 2 {
                Some(Dir::South)
            } else if d == 3 {
                Some(Dir::West)
            } else {
                None::<Dir>
            }),
            src == map.sites[map.space.ix_spec(*pos)],
            first_weaker_foreign(map, *pos, me, 0) == first_weaker_foreign(
                map,
                *pos,
                me,
                d as int,
            ),
        decreases 4 - d,
    {
        let n_opt = ns.next();
        let n = n_opt.unwrap();
        let tgt = map.site(&n);
        if tgt.owner != me && tgt.strength < src.strength {
            return Some(map.space.direction(pos, &n));
        }
        d = d + 1;
    }
    let mut ns2 = pos.neighbors();
    let mut d2: usize = 0;
    while d2 < 4
        invariant
            map.wf(),
            pos.neighbors_in_range(),
            d2 <= 4,
            ns2.pos == *pos,
            ns2.dir == (if d2 == 0 {
                Some(Dir::North)
            } else if d2 == 1 {
                Some(Dir::East)
            } else if d2 == 2 {
                Some(Dir::South)
            } else if d2 == 3 {
                Some(Dir::West)
            } else {
                None::<Dir>
            }),
            src == map.sites[map.space.ix_spec(*pos)],
            first_weaker_foreign(map, *pos, me, 0) is None,
            first_weak_friend(map, *pos, me, 0) == first_weak_friend(map, *pos, me, d2 as int),
        decreases 4 - d2,
    {
        let n_opt = ns2.next();
        let n = n_opt.unwrap();
        let tgt = map.site(&n);
        if tgt.owner == me && 2 * (tgt.strength as i16) < src.strength as i16 {
            return Some(map.space.direction(pos, &n));
        }
        d2 = d2 + 1;
    }
    None
}

/// The normalized positions the player occupies, in row-major order up to
/// cell `k`.
pub open spec fn occupations_spec(map: &SiteMap, who: u8, k: int) -> Seq<Pos>
    decreases k,
{
    if k <= 0 {
        Seq::empty()
    } else {
        let pre = occupations_spec(map, who, k - 1);
        if map.sites[k - 1].owner == who {
            pre.push(
                Pos {
                    x: ((k - 1) % (map.space.w as int)) as i16,
                    y: ((k - 1) / (map.space.w as int)) as i16,
                },
            )
        } else {
            pre
        }
    }
}

/// The moves of all owned cells that want to move, in row-major order up to
/// cell `k`.
pub open spec fn tick_spec(map: &SiteMap, me: u8, k: int) -> Seq<(Pos, Dir)>
    decreases k,
{
    if k <= 0 {
        Seq::empty()
    } else {
        let pre = tick_spec(map, me, k - 1);
        let p = Pos {
            x: ((k - 1) % (map.space.w as int)) as i16,
            y: ((k - 1) / (map.space.w as int)) as i16,
        };
        if map.sites[k - 1].owner == me {
            match tick_site_spec(map, p, me) {
                Some(d) => pre.push((p, d)),
                None => pre,
            }
        } else {
            pre
        }
    }
}

/// The set of positions the player occupies, normalized, in row-major
/// order.
pub fn calc_occupations(map: &SiteMap, who: u8) -> (r: Vec<Pos>)
    requires
        map.wf(),
        map.space.w <= 0x7ffe,
        map.space.h <= 0x7ffe,
    ensures
        r@ == occupations_spec(map, who, map.space.spec_size()),
{
    let mut out: Vec<Pos> = Vec::new();
    let mut sweep = map.space.sweep();
    let ghost mut k: int = 0;
    loop
        invariant_except_break
            map.wf(),
            map.space.w <= 0x7ffe,
            map.space.h <= 0x7ffe,
            sweep.w == map.space.w,
            sweep.h == map.space.h,
            sweep.wf(),
            0 <= k <= map.space.spec_size(),
            k == sweep.x + sweep.y * map.space.w,
            out@ == occupations_spec(map, who, k),
        ensures
            out@ == occupations_spec(map, who, map.space.spec_size()),
        decreases map.space.spec_size() - k,
    {
        proof {
            lemma_sweep_index(map.space, sweep.x as int, sweep.y as int);
        }
        let p_opt = sweep.next();
        match p_opt {
            None => {
                break ;
            },
            Some(p) => {
                let site = map.site(&p);
                if site.owner == who {
                    out.push(p);
                }
                proof {
                    k = k + 1;
                }
            },
        }
    }
    out
}

/// The moves of all owned cells of the early bot, in row-major order.
pub fn tick(map: &SiteMap, me: u8) -> (r: Vec<(Pos, Dir)>)
    requires
        map.wf(),
        map.space.w <= 0x7ffe,
        map.space.h <= 0x7ffe,
    ensures
        r@ == tick_spec(map, me, map.space.spec_size()),
{
    let mut moves: Vec<(Pos, Dir)> = Vec::new();
    let mut sweep = map.space.sweep();
    let ghost mut k: int = 0;
    loop
        invariant_except_break
            map.wf(),
            map.space.w <= 0x7ffe,
            map.space.h <= 0x7ffe,
            sweep.w == map.space.w,
            sweep.h == map.space.h,
            sweep.wf(),
            0 <= k <= map.space.spec_size(),
            k == sweep.x + sweep.y * map.space.w,
            moves@ == tick_spec(map, me, k),
        ensures
            moves@ == tick_spec(map, me, map.space.spec_size()),
        decreases map.space.spec_size() - k,
    {
        proof {
            lemma_sweep_index(map.space, sweep.x as int, sweep.y as int);
        }
        let p_opt = sweep.next();
        match p_opt {
            None => {
                break ;
            },
            Some(p) => {
                let source = map.site(&p);
                if source.owner == me {
                    if let Some(dir) = tick_site(&p, map, me) {
                        moves.push((p, dir));
                    }
                }
                proof {
                    k = k + 1;
                }
            },
        }
    }
    moves
}

/// Relates a sweep position to its row-major index: in-range coordinates
/// decompose their index, and the index grows by one per step.
proof fn lemma_sweep_index(space: Space, x: int, y: int)
    requires
        space.wf(),
        0 <= x < space.w,
        0 <= y,
    ensures
        y < space.h ==> {
            let k = x + y * space.w;
            &&& 0 <= k < space.spec_size()
            &&& k % (space.w as int) == x
            &&& k / (space.w as int) == y
            &&& modulo_spec(x, space.w as int) == x
            &&& modulo_spec(y, space.h as int) == y
        },
        y >= space.h ==> x + y * space.w >= space.spec_size(),
        (y + 1) * space.w == y * space.w + space.w,
{
    assert((y + 1) * (space.w as int) == y * (space.w as int) + space.w) by (nonlinear_arith);
    if y < space.h {
        lemma_fundamental_div_mod_converse(x + y * space.w, space.w as int, y, x);
        lemma_fundamental_div_mod_converse(x, space.w as int, 0, x);
        lemma_fundamental_div_mod_converse(y, space.h as int, 0, y);
        assert(x + y * (space.w as int) < (space.w as int) * (space.h as int))
            by (nonlinear_arith)
            requires
                0 <= x < space.w,
                0 <= y < space.h,
        ;
    } else {
        assert(x + y * (space.w as int) >= (space.w as int) * (space.h as int))
            by (nonlinear_arith)
            requires
                0 <= x,
                y >= space.h,
                space.w > 0,
        ;
    }
}

} // verus!
