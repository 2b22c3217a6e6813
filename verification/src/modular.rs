//! Arithmetic on a ring of integers modulo `m`, the basis of all wraparound
//! coordinate computations.

use vstd::prelude::*;
use vstd::arithmetic::div_mod::lemma_fundamental_div_mod_converse;

verus! {

/// Distance between `a` and `b` on a ring of size `m`: the shorter of the two
/// ways around.
pub open spec fn ring_dist(a: int, b: int, m: int) -> int {
    let d = if a >= b {
        a - b
    } else {
        b - a
    };
    if d < m - d {
        d
    } else {
        m - d
    }
}

/// Sum of `a` and `b` on the ring of size `m`.
pub fn add(a: u16, b: u16, m: u16) -> (r: u16)
    requires
        a < m,
        b < m,
    ensures
        r < m,
        r == (a + b) % (m as int),
{
    let c = a as u32 + b as u32;
    if c < m as u32 {
        proof {
            lemma_fundamental_div_mod_converse(a + b, m as int, 0, a + b);
        }
        c as u16
    } else {
        proof {
            lemma_fundamental_div_mod_converse(a + b, m as int, 1, a + b - m);
        }
        (c - m as u32) as u16
    }
}

/// Difference of `a` and `b` on the ring of size `m`.
pub fn sub(a: u16, b: u16, m: u16) -> (r: u16)
    requires
        a < m,
        b < m,
    ensures
        r < m,
        r == (a + m - b) % (m as int),
        (r + b) % (m as int) == a,
{
    if a >= b {
        proof {
            lemma_fundamental_div_mod_converse(a + m - b, m as int, 1, a - b);
            lemma_fundamental_div_mod_converse(a - b + b, m as int, 0, a as int);
        }
        a - b
    } else {
        proof {
            lemma_fundamental_div_mod_converse(a + m - b, m as int, 0, a + m - b);
            lemma_fundamental_div_mod_converse(a + m - b + b, m as int, 1, a as int);
        }
        (a as u32 + m as u32 - b as u32) as u16
    }
}

/// Distance between `a` and `b` on the ring of size `m`: the shorter way
/// around.
pub fn dist(a: u16, b: u16, m: u16) -> (r: u16)
    requires
        a < m,
        b < m,
    ensures
        r == ring_dist(a as int, b as int, m as int),
        2 * r <= m,
{
    let d1 = if a < b {
        b - a
    } else {
        a - b
    };
    let d2 = m - d1;
    if d1 < d2 {
        d1
    } else {
        d2
    }
}

/// The ring distance does not depend on the order of its two arguments.
pub proof fn lemma_dist_symmetric(a: int, b: int, m: int)
    ensures
        ring_dist(a, b, m) == ring_dist(b, a, m),
{
}

} // verus!
