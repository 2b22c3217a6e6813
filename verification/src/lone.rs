//! The full utility model: for each owned cell it scores the five possible
//! actions from density, territory and aggression potential fields and
//! discounted production value, and picks the best. All arithmetic is exact
//! fixed-point; infeasible moves carry the lowest possible score, and
//! sums saturate rather than overflow.

use vstd::prelude::*;
use crate::action::Action;
use crate::coord::Coord;
use crate::dir::Dir;
use crate::math::{
    add_spec, discount, div_spec, fx_add, fx_div, fx_mul, fx_sub, mul_spec, pow_spec, sub_spec,
    ONE,
};
use crate::space::Space;
use crate::space::point::Point;
use crate::space::wave::dir_seq;
use crate::world::{Environment, Occupation, State, Tag};

verus! {

/// Default per-turn decay factor, about 0.55.
pub const DEFAULT_DISCOUNT_FACTOR: i64 = 36045;

pub const DEFAULT_EXPANSION_WEIGHT: i64 = 80 * 0x10000;

pub const DEFAULT_AGGRESSION_WEIGHT: i64 = 50 * 0x10000;

pub const DEFAULT_DENSITY_WEIGHT: i64 = 70 * 0x10000;

pub const DEFAULT_MINIMUM_MOVABLE_STRENGTH: i64 = 40 * 0x10000;

/// The strength cap of a cell.
pub const MAX_STR: i64 = 255 * 0x10000;

/// One half, for the acquisition-cost term.
pub const HALF: i64 = 0x8000;

/// The score of an action that cannot be taken this turn.
pub const INFEASIBLE: i64 = i64::MIN;

/// The perpetuity form this model was tuned with: `1 / (1 - g)` rather
/// than `g / (1 - g)`. The weights assume it, so it is kept deliberately.
pub open spec fn perpetuity_spec(g: int) -> int {
    div_spec(ONE as int, sub_spec(ONE as int, g))
}

/// See `perpetuity_spec`: deliberately `1 / (1 - g)`, as the weights assume.
pub fn perpetuity(discount_factor: i64) -> (r: i64)
    requires
        discount_factor < ONE,
    ensures
        r == perpetuity_spec(discount_factor as int),
{
    fx_div(ONE, fx_sub(ONE, discount_factor))
}

/// A strength or production level as a fixed-point value.
pub open spec fn fxs(v: int) -> int {
    v * (ONE as int)
}

/// The fourth power, as computed by squaring twice.
pub open spec fn pow4_spec(x: int) -> int {
    mul_spec(mul_spec(x, x), mul_spec(x, x))
}

/// `v` where positive, else 0.
pub open spec fn max0(v: int) -> int {
    if v > 0 {
        v
    } else {
        0
    }
}

/// The utility model and its tuning parameters.
pub struct LoneBrain {
    pub environment: Environment,
    pub aggression_weight: i64,
    pub density_weight: i64,
    pub discount_factor: i64,
    pub expansion_weight: i64,
    pub minimum_movable_strength: i64,
}

/// The denominator mass and own-population mass around cell `f`, summed over
/// the first `g` cells: each cell contributes its distance discount, and an
/// owned cell also its discounted normalized strength.
pub open spec fn density_masses(
    space: Space,
    gamma: int,
    who: Tag,
    occ: Seq<Occupation>,
    f: int,
    g: int,
) -> (int, int)
    decreases g,
{
    if g <= 0 {
        (0, 0)
    } else {
        let pre = density_masses(space, gamma, who, occ, f, g - 1);
        let df = pow_spec(gamma, space.l1_spec(f, g - 1) as nat);
        let dfm = add_spec(pre.0, df);
        let pm = if occ[g - 1].tag == who {
            add_spec(pre.1, mul_spec(df, div_spec(fxs(occ[g - 1].strength as int), MAX_STR as int)))
        } else {
            pre.1
        };
        (dfm, pm)
    }
}

/// How saturated the player's territory is at cell `f`: discounted own
/// population mass normalized by the total discount mass.
pub open spec fn density_at(
    space: Space,
    gamma: int,
    who: Tag,
    occ: Seq<Occupation>,
    f: int,
) -> int {
    let m = density_masses(space, gamma, who, occ, f, space.sz as int);
    if m.0 == 0 {
        0
    } else {
        div_spec(m.1, m.0)
    }
}

/// The territory potential at cell `f`, summed over the first `g` cells:
/// every other cell not owned by the player contributes its production,
/// discounted by distance and extended into a perpetuity; the cell's own
/// term is excluded.
pub open spec fn ownership_mass(
    space: Space,
    prods: Seq<i16>,
    gamma: int,
    who: Tag,
    occ: Seq<Occupation>,
    f: int,
    g: int,
) -> int
    decreases g,
{
    if g <= 0 {
        0
    } else {
        let pre = ownership_mass(space, prods, gamma, who, occ, f, g - 1);
        if occ[g - 1].tag != who && g - 1 != f {
            add_spec(
                pre,
                mul_spec(
                    mul_spec(fxs(prods[g - 1] as int), pow_spec(gamma, space.l1_spec(f, g - 1) as nat)),
                    perpetuity_spec(gamma),
                ),
            )
        } else {
            pre
        }
    }
}

/// The aggression potential at cell `f`, summed over the first `g` cells:
/// every enemy-owned cell contributes its distance discount.
pub open spec fn blood_mass(
    space: Space,
    gamma: int,
    who: Tag,
    occ: Seq<Occupation>,
    f: int,
    g: int,
) -> int
    decreases g,
{
    if g <= 0 {
        0
    } else {
        let pre = blood_mass(space, gamma, who, occ, f, g - 1);
        if occ[g - 1].tag != who && occ[g - 1].tag != 0 {
            add_spec(pre, pow_spec(gamma, space.l1_spec(f, g - 1) as nat))
        } else {
            pre
        }
    }
}

/// The utility of staying put: proportional to local production and to the
/// fourth power of the remaining room below the strength cap.
pub open spec fn stay_utility_spec(prod: int, strength: int) -> int {
    mul_spec(
        mul_spec(fxs(10), fxs(prod)),
        pow4_spec(div_spec(sub_spec(MAX_STR as int, fxs(strength)), MAX_STR as int)),
    )
}

impl LoneBrain {
    pub open spec fn wf(&self) -> bool {
        &&& self.environment.wf()
        &&& 0 <= self.discount_factor < ONE
        &&& 0 <= self.aggression_weight
        &&& 0 <= self.density_weight
        &&& 0 <= self.expansion_weight
        &&& 0 <= self.minimum_movable_strength
    }

    /// The utility of moving from `src` onto `tgt`: infeasible moves score
    /// `INFEASIBLE`; a friendly merge is scored by the change of the three
    /// potentials less an overflow penalty; a capture adds the discounted
    /// production value of the target, less the acquisition cost, plus the
    /// expansion and aggression rewards.
    pub open spec fn move_utility_spec(
        &self,
        who: Tag,
        src: Occupation,
        tgt: Occupation,
        tgt_prod: int,
        d_src: int,
        d_tgt: int,
        e_src: int,
        e_tgt: int,
        b_src: int,
        b_tgt: int,
    ) -> int {
        let density_value = mul_spec(
            -self.density_weight,
            sub_spec(pow4_spec(d_tgt), pow4_spec(d_src)),
        );
        let prospect_value = mul_spec(self.expansion_weight as int, sub_spec(e_tgt, e_src));
        let aggression_change = mul_spec(self.aggression_weight as int, sub_spec(b_tgt, b_src));
        if tgt.tag == who {
            if fxs(src.strength as int) < self.minimum_movable_strength {
                INFEASIBLE as int
            } else {
                sub_spec(
                    add_spec(add_spec(prospect_value, density_value), aggression_change),
                    max0(
                        sub_spec(
                            add_spec(fxs(tgt.strength as int), fxs(src.strength as int)),
                            MAX_STR as int,
                        ),
                    ),
                )
            }
        } else {
            if tgt.strength < src.strength {
                let acquisition_value = mul_spec(
                    mul_spec(fxs(tgt_prod), self.discount_factor as int),
                    perpetuity_spec(self.discount_factor as int),
                );
                let acquisition_cost = mul_spec(
                    HALF as int,
                    sub_spec(fxs(src.strength as int), fxs(tgt.strength as int)),
                );
                let aggression_reward = if tgt.tag != 0 {
                    self.aggression_weight as int
                } else {
                    0
                };
                add_spec(
                    add_spec(
                        add_spec(
                            add_spec(
                                add_spec(
                                    sub_spec(acquisition_value, acquisition_cost),
                                    self.expansion_weight as int,
                                ),
                                prospect_value,
                            ),
                            density_value,
                        ),
                        aggression_change,
                    ),
                    aggression_reward,
                )
            } else {
                INFEASIBLE as int
            }
        }
    }

    /// The five per-action utilities of cell `z`, in the order stay, north,
    /// east, south, west.
    pub open spec fn utilities_spec(
        &self,
        who: Tag,
        z: int,
        occ: Seq<Occupation>,
        densities: Seq<i64>,
        ownerships: Seq<i64>,
        blood: Seq<i64>,
    ) -> Seq<int> {
        let space = self.environment.space;
        let stay = stay_utility_spec(
            self.environment.production_map[z] as int,
            occ[z].strength as int,
        );
        let mv = |d: int|
            {
                let nb = space.adjacent_spec(z, dir_seq()[d]);
                self.move_utility_spec(
                    who,
                    occ[z],
                    occ[nb],
                    self.environment.production_map[nb] as int,
                    densities[z] as int,
                    densities[nb] as int,
                    ownerships[z] as int,
                    ownerships[nb] as int,
                    blood[z] as int,
                    blood[nb] as int,
                )
            };
        seq![stay, mv(0), mv(1), mv(2), mv(3)]
    }

    /// The running maximum after considering the stay score and the first
    /// `i` directions, with strict improvement required to take the lead.
    pub open spec fn pick_upto(us: Seq<int>, i: int) -> (Option<Dir>, int)
        decreases i,
    {
        if i <= 0 {
            (None, us[0])
        } else {
            let pre = Self::pick_upto(us, i - 1);
            if us[i] > pre.1 {
                (Some(dir_seq()[i - 1]), us[i])
            } else {
                pre
            }
        }
    }

    /// The action chosen for cell `z`: the highest of the five utilities,
    /// ties broken in the order stay, north, east, south, west.
    pub open spec fn cell_action_spec(
        &self,
        who: Tag,
        z: int,
        occ: Seq<Occupation>,
        densities: Seq<i64>,
        ownerships: Seq<i64>,
        blood: Seq<i64>,
    ) -> Action {
        let space = self.environment.space;
        let us = self.utilities_spec(who, z, occ, densities, ownerships, blood);
        (
            Coord { x: space.spec_x(z) as i16, y: space.spec_y(z) as i16 },
            Self::pick_upto(us, 4).0,
        )
    }
}

/// The per-cell density field of the whole grid.
pub open spec fn density_map_spec(space: Space, gamma: int, who: Tag, occ: Seq<Occupation>) -> Seq<
    i64,
> {
    Seq::new(space.sz as nat, |f: int| density_at(space, gamma, who, occ, f) as i64)
}

/// The per-cell territory potential field of the whole grid.
pub open spec fn ownership_map_spec(
    space: Space,
    prods: Seq<i16>,
    gamma: int,
    who: Tag,
    occ: Seq<Occupation>,
) -> Seq<i64> {
    Seq::new(
        space.sz as nat,
        |f: int| ownership_mass(space, prods, gamma, who, occ, f, space.sz as int) as i64,
    )
}

/// The per-cell aggression potential field of the whole grid.
pub open spec fn blood_map_spec(space: Space, gamma: int, who: Tag, occ: Seq<Occupation>) -> Seq<
    i64,
> {
    Seq::new(
        space.sz as nat,
        |f: int| blood_mass(space, gamma, who, occ, f, space.sz as int) as i64,
    )
}

impl LoneBrain {
    /// The actions of all owned cells among the first `z`, in cell order.
    pub open spec fn tick_spec(
        &self,
        occ: Seq<Occupation>,
        densities: Seq<i64>,
        ownerships: Seq<i64>,
        blood: Seq<i64>,
        z: int,
    ) -> Seq<Action>
        decreases z,
    {
        if z <= 0 {
            Seq::empty()
        } else {
            let pre = self.tick_spec(occ, densities, ownerships, blood, z - 1);
            if occ[z - 1].tag == self.environment.my_tag {
                pre.push(
                    self.cell_action_spec(
                        self.environment.my_tag,
                        z - 1,
                        occ,
                        densities,
                        ownerships,
                        blood,
                    ),
                )
            } else {
                pre
            }
        }
    }

    /// The density field: at each cell, the discounted own population mass
    /// within the grid, normalized by the total discount mass.
    pub fn calc_density_map(&self, who: Tag, occupations: &Vec<Occupation>) -> (r: Vec<i64>)
        requires
            self.wf(),
            occupations.len() == self.environment.space.sz,
        ensures
            r@ == density_map_spec(
                self.environment.space,
                self.discount_factor as int,
                who,
                occupations@,
            ),
    {
        let space = self.environment.space;
        let n = space.len();
        let mut densities: Vec<i64> = Vec::new();
        let mut f: usize = 0;
        while f < n
            invariant
                self.wf(),
                occupations.len() == self.environment.space.sz,
                space == self.environment.space,
                n == space.spec_len(),
                f <= n,
                densities.len() == f,
                forall|ff: int|
                    0 <= ff < f ==> #[trigger] densities[ff] == density_at(
                        space,
                        self.discount_factor as int,
                        who,
                        occupations@,
                        ff,
                    ) as i64,
            decreases n - f,
        {
            let mut df_mass: i64 = 0;
            let mut pop_mass: i64 = 0;
            let mut g: usize = 0;
            while g < n
                invariant
                    self.wf(),
                    occupations.len() == self.environment.space.sz,
                    space == self.environment.space,
                    n == space.spec_len(),
                    f < n,
                    g <= n,
                    (df_mass as int, pop_mass as int) == density_masses(
                        space,
                        self.discount_factor as int,
                        who,
                        occupations@,
                        f as int,
                        g as int,
                    ),
                decreases n - g,
            {
                let d = space.l1_norm(f as u16, g as u16);
                let df = discount(self.discount_factor, d as i32);
                df_mass = fx_add(df_mass, df);
                let o = &occupations[g];
                if o.tag == who {
                    pop_mass = fx_add(
                        pop_mass,
                        fx_mul(df, fx_div((o.strength as i64) * ONE, MAX_STR)),
                    );
                }
                g = g + 1;
            }
            let dens = if df_mass == 0 {
                0
            } else {
                fx_div(pop_mass, df_mass)
            };
            densities.push(dens);
            f = f + 1;
        }
        proof {
            assert(densities@ =~= density_map_spec(
                space,
                self.discount_factor as int,
                who,
                occupations@,
            ));
        }
        densities
    }

    /// The territory potential field: at each cell, the distance-discounted
    /// perpetuity value of all production not owned by the player.
    pub fn calc_ownership_map(
        &self,
        who: Tag,
        discount_factor: i64,
        occupations: &Vec<Occupation>,
    ) -> (r: Vec<i64>)
        requires
            self.wf(),
            0 <= discount_factor < ONE,
            occupations.len() == self.environment.space.sz,
        ensures
            r@ == ownership_map_spec(
                self.environment.space,
                self.environment.production_map@,
                discount_factor as int,
                who,
                occupations@,
            ),
    {
        let space = self.environment.space;
        let n = space.len();
        let perp = perpetuity(discount_factor);
        let mut ownerships: Vec<i64> = Vec::new();
        let mut f: usize = 0;
        while f < n
            invariant
                self.wf(),
                0 <= discount_factor < ONE,
                occupations.len() == self.environment.space.sz,
                space == self.environment.space,
                n == space.spec_len(),
                perp == perpetuity_spec(discount_factor as int),
                f <= n,
                ownerships.len() == f,
                forall|ff: int|
                    0 <= ff < f ==> #[trigger] ownerships[ff] == ownership_mass(
                        space,
                        self.environment.production_map@,
                        discount_factor as int,
                        who,
                        occupations@,
                        ff,
                        n as int,
                    ) as i64,
            decreases n - f,
        {
            let mut mass: i64 = 0;
            let mut g: usize = 0;
            while g < n
                invariant
                    self.wf(),
                    0 <= discount_factor < ONE,
                    occupations.len() == self.environment.space.sz,
                    space == self.environment.space,
                    n == space.spec_len(),
                    perp == perpetuity_spec(discount_factor as int),
                    f < n,
                    g <= n,
                    mass as int == ownership_mass(
                        space,
                        self.environment.production_map@,
                        discount_factor as int,
                        who,
                        occupations@,
                        f as int,
                        g as int,
                    ),
                decreases n - g,
            {
                let o = &occupations[g];
                if o.tag != who && g != f {
                    let d = space.l1_norm(f as u16, g as u16);
                    let df = discount(discount_factor, d as i32);
                    let prod = self.environment.production_map[g];
                    mass = fx_add(mass, fx_mul(fx_mul((prod as i64) * ONE, df), perp));
                }
                g = g + 1;
            }
            ownerships.push(mass);
            f = f + 1;
        }
        proof {
            assert(ownerships@ =~= ownership_map_spec(
                space,
                self.environment.production_map@,
                discount_factor as int,
                who,
                occupations@,
            ));
        }
        ownerships
    }

    /// The aggression potential field: at each cell, the distance-discounted
    /// mass of enemy-owned cells.
    pub fn calc_blood_map(
        &self,
        who: Tag,
        discount_factor: i64,
        occupations: &Vec<Occupation>,
    ) -> (r: Vec<i64>)
        requires
            self.wf(),
            0 <= discount_factor < ONE,
            occupations.len() == self.environment.space.sz,
        ensures
            r@ == blood_map_spec(
                self.environment.space,
                discount_factor as int,
                who,
                occupations@,
            ),
    {
        let space = self.environment.space;
        let n = space.len();
        let mut blood: Vec<i64> = Vec::new();
        let mut f: usize = 0;
        while f < n
            invariant
                self.wf(),
                0 <= discount_factor < ONE,
                occupations.len() == self.environment.space.sz,
                space == self.environment.space,
                n == space.spec_len(),
                f <= n,
                blood.len() == f,
                forall|ff: int|
                    0 <= ff < f ==> #[trigger] blood[ff] == blood_mass(
                        space,
                        discount_factor as int,
                        who,
                        occupations@,
                        ff,
                        n as int,
                    ) as i64,
            decreases n - f,
        {
            let mut mass: i64 = 0;
            let mut g: usize = 0;
            while g < n
                invariant
                    self.wf(),
                    0 <= discount_factor < ONE,
                    occupations.len() == self.environment.space.sz,
                    space == self.environment.space,
                    n == space.spec_len(),
                    f < n,
                    g <= n,
                    mass as int == blood_mass(
                        space,
                        discount_factor as int,
                        who,
                        occupations@,
                        f as int,
                        g as int,
                    ),
                decreases n - g,
            {
                let o = &occupations[g];
                if o.tag != who && o.tag != 0 {
                    let d = space.l1_norm(f as u16, g as u16);
                    let df = discount(discount_factor, d as i32);
                    mass = fx_add(mass, df);
                }
                g = g + 1;
            }
            blood.push(mass);
            f = f + 1;
        }
        proof {
            assert(blood@ =~= blood_map_spec(space, discount_factor as int, who, occupations@));
        }
        blood
    }

    /// The utility of moving from `src` onto `tgt`; see `move_utility_spec`.
    pub fn move_utility(
        &self,
        who: Tag,
        src: &Occupation,
        tgt: &Occupation,
        tgt_prod: i16,
        d_src: i64,
        d_tgt: i64,
        e_src: i64,
        e_tgt: i64,
        b_src: i64,
        b_tgt: i64,
    ) -> (r: i64)
        requires
            self.wf(),
        ensures
            r as int == self.move_utility_spec(
                who,
                *src,
                *tgt,
                tgt_prod as int,
                d_src as int,
                d_tgt as int,
                e_src as int,
                e_tgt as int,
                b_src as int,
                b_tgt as int,
            ),
    {
        let p4_src = {
            let p2 = fx_mul(d_src, d_src);
            fx_mul(p2, p2)
        };
        let p4_tgt = {
            let p2 = fx_mul(d_tgt, d_tgt);
            fx_mul(p2, p2)
        };
        let density_value = fx_mul(-self.density_weight, fx_sub(p4_tgt, p4_src));
        let prospect_value = fx_mul(self.expansion_weight, fx_sub(e_tgt, e_src));
        let aggression_change = fx_mul(self.aggression_weight, fx_sub(b_tgt, b_src));
        if tgt.tag == who {
            if (src.strength as i64) * ONE < self.minimum_movable_strength {
                INFEASIBLE
            } else {
                let overflow = {
                    let v = fx_sub(
                        fx_add((tgt.strength as i64) * ONE, (src.strength as i64) * ONE),
                        MAX_STR,
                    );
                    if v > 0 {
                        v
                    } else {
                        0
                    }
                };
                fx_sub(fx_add(fx_add(prospect_value, density_value), aggression_change), overflow)
            }
        } else {
            if tgt.strength < src.strength {
                let acquisition_value = fx_mul(
                    fx_mul((tgt_prod as i64) * ONE, self.discount_factor),
                    perpetuity(self.discount_factor),
                );
                let acquisition_cost = fx_mul(
                    HALF,
                    fx_sub((src.strength as i64) * ONE, (tgt.strength as i64) * ONE),
                );
                let aggression_reward = if tgt.tag != 0 {
                    self.aggression_weight
                } else {
                    0
                };
                fx_add(
                    fx_add(
                        fx_add(
                            fx_add(
                                fx_add(
                                    fx_sub(acquisition_value, acquisition_cost),
                                    self.expansion_weight,
                                ),
                                prospect_value,
                            ),
                            density_value,
                        ),
                        aggression_change,
                    ),
                    aggression_reward,
                )
            } else {
                INFEASIBLE
            }
        }
    }

    /// Scores the five actions of the owned cell `loc` and picks the best;
    /// ties are broken in the order stay, north, east, south, west.
    pub fn select_cell_action(
        &self,
        who: Tag,
        loc: Point,
        state: &State,
        densities: &Vec<i64>,
        ownerships: &Vec<i64>,
        blood: &Vec<i64>,
    ) -> (r: Action)
        requires
            self.wf(),
            loc.wf(),
            loc.space == self.environment.space,
            state.occupation_map.len() == self.environment.space.sz,
            densities.len() == self.environment.space.sz,
            ownerships.len() == self.environment.space.sz,
            blood.len() == self.environment.space.sz,
        ensures
            r == self.cell_action_spec(
                who,
                loc.ix as int,
                state.occupation_map@,
                densities@,
                ownerships@,
                blood@,
            ),
    {
        let z = loc.ix as usize;
        let occ = &state.occupation_map;
        let ghost us = self.utilities_spec(
            who,
            z as int,
            state.occupation_map@,
            densities@,
            ownerships@,
            blood@,
        );
        let u_stay = {
            let base = fx_div(fx_sub(MAX_STR, (occ[z].strength as i64) * ONE), MAX_STR);
            let p2 = fx_mul(base, base);
            fx_mul(
                fx_mul(10 * ONE, (self.environment.production_map[z] as i64) * ONE),
                fx_mul(p2, p2),
            )
        };
        proof {
            assert(u_stay as int == us[0]);
        }
        let ds = Dir::dirs();
        let mut best: i64 = u_stay;
        let mut act: Option<Dir> = None;
        let mut i: usize = 0;
        while i < 4
            invariant
                self.wf(),
                loc.wf(),
                loc.space == self.environment.space,
                state.occupation_map.len() == self.environment.space.sz,
                densities.len() == self.environment.space.sz,
                ownerships.len() == self.environment.space.sz,
                blood.len() == self.environment.space.sz,
                z == loc.ix,
                ds@ == dir_seq(),
                i <= 4,
                us == self.utilities_spec(
                    who,
                    z as int,
                    state.occupation_map@,
                    densities@,
                    ownerships@,
                    blood@,
                ),
                us.len() == 5,
                act == Self::pick_upto(us, i as int).0,
                best as int == Self::pick_upto(us, i as int).1,
            decreases 4 - i,
        {
            let nb = loc.adjacent_in(&ds[i]);
            let nz = nb.ix as usize;
            let u = self.move_utility(
                who,
                &state.occupation_map[z],
                &state.occupation_map[nz],
                self.environment.production_map[nz],
                densities[z],
                densities[nz],
                ownerships[z],
                ownerships[nz],
                blood[z],
                blood[nz],
            );
            proof {
                assert(u as int == us[i + 1]);
            }
            if u > best {
                best = u;
                act = Some(ds[i]);
            }
            i = i + 1;
        }
        (loc.coord(), act)
    }

    /// The player this model plays for.
    pub fn me(&self) -> (r: Tag)
        ensures
            r == self.environment.my_tag,
    {
        self.environment.my_tag
    }

    /// One turn: recompute the three potential fields, then pick the best
    /// action for every owned cell.
    pub fn tick(&mut self, state: &State) -> (r: Vec<Action>)
        requires
            old(self).wf(),
            state.wf_for(&old(self).environment),
        ensures
            *final(self) == *old(self),
            r@ == old(self).tick_spec(
                state.occupation_map@,
                density_map_spec(
                    old(self).environment.space,
                    old(self).discount_factor as int,
                    old(self).environment.my_tag,
                    state.occupation_map@,
                ),
                ownership_map_spec(
                    old(self).environment.space,
                    old(self).environment.production_map@,
                    old(self).discount_factor as int,
                    old(self).environment.my_tag,
                    state.occupation_map@,
                ),
                blood_map_spec(
                    old(self).environment.space,
                    old(self).discount_factor as int,
                    old(self).environment.my_tag,
                    state.occupation_map@,
                ),
                old(self).environment.space.sz as int,
            ),
    {
        let me = self.me();
        let densities = self.calc_density_map(me, &state.occupation_map);
        let ownerships = self.calc_ownership_map(me, self.discount_factor, &state.occupation_map);
        let blood = self.calc_blood_map(me, self.discount_factor, &state.occupation_map);
        let mut actions: Vec<Action> = Vec::new();
        let n = self.environment.space.len();
        let mut z: usize = 0;
        while z < n
            invariant
                self == old(self),
                self.wf(),
                state.wf_for(&self.environment),
                me == self.environment.my_tag,
                n == self.environment.space.spec_len(),
                z <= n,
                densities.len() == n,
                ownerships.len() == n,
                blood.len() == n,
                densities@ == density_map_spec(
                    self.environment.space,
                    self.discount_factor as int,
                    me,
                    state.occupation_map@,
                ),
                ownerships@ == ownership_map_spec(
                    self.environment.space,
                    self.environment.production_map@,
                    self.discount_factor as int,
                    me,
                    state.occupation_map@,
                ),
                blood@ == blood_map_spec(
                    self.environment.space,
                    self.discount_factor as int,
                    me,
                    state.occupation_map@,
                ),
                actions@ == self.tick_spec(
                    state.occupation_map@,
                    densities@,
                    ownerships@,
                    blood@,
                    z as int,
                ),
            decreases n - z,
        {
            let source = &state.occupation_map[z];
            if source.tag == me {
                let f = self.environment.space.point(z);
                actions.push(
                    self.select_cell_action(me, f, state, &densities, &ownerships, &blood),
                );
            }
            z = z + 1;
        }
        actions
    }
}

/// Aggression-potential bounds: every term of the blood mass is a
/// fixed-point power in `[0, 1]`, so the mass over the first `g` cells lies
/// in `[0, g]` (in fixed-point units) and no summand saturates. In this
/// truncating arithmetic a term can be exactly 0 for a distant enemy, unlike
/// its real-valued counterpart.
pub proof fn lemma_blood_mass_bounds(
    space: Space,
    gamma: int,
    who: Tag,
    occ: Seq<Occupation>,
    f: int,
    g: int,
)
    requires
        0 <= gamma < ONE,
        0 <= g <= 0xffff,
    ensures
        0 <= blood_mass(space, gamma, who, occ, f, g) <= g * (ONE as int),
    decreases g,
{
    if g > 0 {
        lemma_blood_mass_bounds(space, gamma, who, occ, f, g - 1);
        crate::math::lemma_pow_bounds(gamma, space.l1_spec(f, g - 1) as nat);
        assert((g - 1) * (ONE as int) + ONE <= g * (ONE as int)) by (nonlinear_arith);
    }
}

/// Where no cell belongs to an enemy — every cell neutral or owned by
/// `who` — the aggression potential is identically zero.
pub proof fn lemma_blood_mass_no_enemy(
    space: Space,
    gamma: int,
    who: Tag,
    occ: Seq<Occupation>,
    f: int,
    g: int,
)
    requires
        forall|z: int|
            0 <= z < occ.len() ==> ((#[trigger] occ[z]).tag == who || occ[z].tag == 0),
        g <= occ.len(),
    ensures
        blood_mass(space, gamma, who, occ, f, g) == 0,
    decreases g,
{
    if g > 0 {
        lemma_blood_mass_no_enemy(space, gamma, who, occ, f, g - 1);
    }
}

/// Territory potential of a lone enemy: where exactly one cell `e` is not
/// owned by `who`, the potential at any cell `f` of the first `g` cells'
/// sum is the enemy's production, discounted by the toroidal distance from
/// `f` and extended into a perpetuity — and 0 at the enemy's own cell, the
/// self-term being excluded.
pub proof fn lemma_ownership_single_enemy(
    space: Space,
    prods: Seq<i16>,
    gamma: int,
    who: Tag,
    occ: Seq<Occupation>,
    e: int,
    f: int,
    g: int,
)
    requires
        occ.len() == space.sz,
        0 <= e < space.sz,
        occ[e].tag != who,
        forall|z: int| 0 <= z < occ.len() && z != e ==> (#[trigger] occ[z]).tag == who,
        g <= space.sz,
    ensures
        ownership_mass(space, prods, gamma, who, occ, f, g) == if e < g && f != e {
            mul_spec(
                mul_spec(fxs(prods[e] as int), pow_spec(gamma, space.l1_spec(f, e) as nat)),
                perpetuity_spec(gamma),
            )
        } else {
            0
        },
    decreases g,
{
    if g > 0 {
        lemma_ownership_single_enemy(space, prods, gamma, who, occ, e, f, g - 1);
    }
}

/// The core's single call surface toward the protocol driver: computes one
/// turn of the default utility model, an action for every owned cell.
pub fn compute_turn(environment: Environment, state: &State) -> (r: Vec<Action>)
    requires
        environment.wf(),
        state.wf_for(&environment),
    ensures
        ({
            let brain = (LoneBrain {
                environment,
                aggression_weight: DEFAULT_AGGRESSION_WEIGHT,
                density_weight: DEFAULT_DENSITY_WEIGHT,
                discount_factor: DEFAULT_DISCOUNT_FACTOR,
                expansion_weight: DEFAULT_EXPANSION_WEIGHT,
                minimum_movable_strength: DEFAULT_MINIMUM_MOVABLE_STRENGTH,
            });
            r@ == brain.tick_spec(
                state.occupation_map@,
                density_map_spec(
                    environment.space,
                    DEFAULT_DISCOUNT_FACTOR as int,
                    environment.my_tag,
                    state.occupation_map@,
                ),
                ownership_map_spec(
                    environment.space,
                    environment.production_map@,
                    DEFAULT_DISCOUNT_FACTOR as int,
                    environment.my_tag,
                    state.occupation_map@,
                ),
                blood_map_spec(
                    environment.space,
                    DEFAULT_DISCOUNT_FACTOR as int,
                    environment.my_tag,
                    state.occupation_map@,
                ),
                environment.space.sz as int,
            )
        }),
{
    let mut brain = LoneBrain {
        environment,
        aggression_weight: DEFAULT_AGGRESSION_WEIGHT,
        density_weight: DEFAULT_DENSITY_WEIGHT,
        discount_factor: DEFAULT_DISCOUNT_FACTOR,
        expansion_weight: DEFAULT_EXPANSION_WEIGHT,
        minimum_movable_strength: DEFAULT_MINIMUM_MOVABLE_STRENGTH,
    };
    brain.tick(state)
}

} // verus!
