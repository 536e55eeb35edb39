//! Angles, normalized to one full turn.
//!
//! An [`Angle`] stores milliradian-like raw increments: [`HALF_TURN`]
//! raw units stand for half a turn (the mathematical pi), and every
//! stored angle lies in `[0, FULL_TURN)`.  `delta_to` returns the
//! shortest signed rotation between two angles, in `[-HALF_TURN,
//! HALF_TURN]`.

use vstd::prelude::*;

use crate::fixed::sat64;
use vstd::arithmetic::div_mod::{
    lemma_fundamental_div_mod, lemma_mod_division_less_than_divisor, lemma_mod_multiples_vanish,
};

verus! {

/// Raw angle units in half a turn (the angle pi).
pub const HALF_TURN: i64 = 3142;

/// Raw angle units in a quarter turn (the angle pi over two).
pub const QUARTER_TURN: i64 = 1571;

/// Raw angle units in a full turn (the angle two pi).
pub const FULL_TURN: i64 = 6284;

/// An angle measured counterclockwise from the positive x axis,
/// normalized into `[0, FULL_TURN)`.
#[derive(Clone, Copy, Debug, PartialEq, Eq, Structural)]
pub struct Angle {
    pub raw: i64,
}

/// A stored angle is normalized.
pub open spec fn angle_wf(a: Angle) -> bool {
    0 <= a.raw < FULL_TURN
}

/// Euclidean remainder of a raw value by one full turn.
pub open spec fn norm_angle(x: int) -> int {
    x % (FULL_TURN as int)
}

/// Normalization lands in `[0, FULL_TURN)`.
pub proof fn lemma_norm_angle_range(x: int)
    ensures
        0 <= norm_angle(x) < FULL_TURN,
{
    lemma_mod_division_less_than_divisor(x, FULL_TURN as int);
}

/// Euclidean remainder by one full turn, as executable code.
fn mod_full_turn(x: i64) -> (r: i64)
    ensures
        r as int == norm_angle(x as int),
{
    let f: i128 = FULL_TURN as i128;
    if x >= 0 {
        let m: u128 = (x as u128) % (f as u128);
        proof {
            lemma_mod_division_less_than_divisor(x as int, FULL_TURN as int);
        }
        m as i64
    } else {
        let nx: i128 = -(x as i128);
        let m: u128 = (nx as u128) % (f as u128);
        proof {
            let fi = FULL_TURN as int;
            let nxi = nx as int;
            lemma_mod_division_less_than_divisor(nxi, fi);
            lemma_fundamental_div_mod(nxi, fi);
            let q = nxi / fi;
            let mm = nxi % fi;
            // x == fi * (-q) - mm; shift by one multiple when mm > 0.
            if mm == 0 {
                lemma_mod_multiples_vanish(-q, 0, fi);
                assert(x as int == fi * (-q) + 0);
            } else {
                assert(x as int == fi * (-q - 1) + (fi - mm));
                lemma_mod_multiples_vanish(-q - 1, fi - mm, fi);
                vstd::arithmetic::div_mod::lemma_small_mod((fi - mm) as nat, fi as nat);
            }
        }
        if m == 0 {
            0
        } else {
            FULL_TURN - (m as i64)
        }
    }
}

impl Angle {
    /// Wraps a raw value into a normalized angle.
    pub fn new(raw: i64) -> (r: Angle)
        ensures
            r.raw as int == norm_angle(raw as int),
            angle_wf(r),
    {
        proof {
            lemma_norm_angle_range(raw as int);
        }
        Angle { raw: mod_full_turn(raw) }
    }

    /// The shortest signed rotation from `self` to `other`.
    pub open spec fn spec_delta_to(self, other: Angle) -> int {
        let d = other.raw - self.raw;
        if d > HALF_TURN {
            d - FULL_TURN
        } else if d < -(HALF_TURN as int) {
            d + FULL_TURN
        } else {
            d
        }
    }

    /// The shortest signed rotation from `self` to `other`, in
    /// `[-HALF_TURN, HALF_TURN]`.
    pub fn delta_to(self, other: Angle) -> (r: i64)
        requires
            angle_wf(self),
            angle_wf(other),
        ensures
            r as int == self.spec_delta_to(other),
            -(HALF_TURN as int) <= r as int <= HALF_TURN as int,
    {
        let d = other.raw - self.raw;
        if d > HALF_TURN {
            d - FULL_TURN
        } else if d < -HALF_TURN {
            d + FULL_TURN
        } else {
            d
        }
    }

    /// The sum of two angles, normalized.
    pub open spec fn spec_plus(self, other: Angle) -> Angle {
        Angle { raw: norm_angle(self.raw + other.raw) as i64 }
    }

    /// The sum of two angles, normalized.
    pub fn plus(self, other: Angle) -> (r: Angle)
        requires
            angle_wf(self),
            angle_wf(other),
        ensures
            r == self.spec_plus(other),
            angle_wf(r),
    {
        Angle::new(self.raw + other.raw)
    }

    /// The angle advanced by a raw increment (for example an angular
    /// velocity times a time step), normalized.
    pub open spec fn spec_shifted(self, d: int) -> Angle {
        Angle { raw: norm_angle(sat64(self.raw + d)) as i64 }
    }

    /// The angle advanced by a raw increment, normalized.
    pub fn shifted(self, d: i64) -> (r: Angle)
        requires
            angle_wf(self),
        ensures
            r == self.spec_shifted(d as int),
            angle_wf(r),
    {
        proof {
            lemma_norm_angle_range(sat64(self.raw + d));
        }
        Angle::new(crate::fixed::fx_add(self.raw, d))
    }
}

} // verus!
