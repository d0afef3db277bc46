use vstd::prelude::*;
use crate::fx::{Fx, FX_ONE, FX_PI_RAW};

verus! {

/// Trigonometric functions on the fixed-point scalar, by range reduction and
/// truncated power series or rational approximation. Their contracts pin the
/// result to the same computation stated over the spec-level scalar
/// operations; no sharper statement is claimed for them.

pub const FX_TWO_PI_RAW: i64 = 26986075409;

pub const FX_HALF_PI_RAW: i64 = 6746518852;

pub const FX_QUARTER_PI_RAW: i64 = 3373259426;

pub const FX_PI_OVER_180_RAW: i64 = 74961321;

/// Reciprocal factorials of the sine series, in raw units.
pub const SIN_C3_RAW: i64 = 715827883;

pub const SIN_C5_RAW: i64 = 35791394;

pub const SIN_C7_RAW: i64 = 852176;

pub const SIN_C9_RAW: i64 = 11836;

/// Correction coefficient of the arctangent approximation.
pub const ATAN_K_RAW: i64 = 1172526072;

impl Fx {
    /// The argument folded into `[-pi, pi]` by whole turns.
    pub open spec fn sreduce_turns(self) -> Fx {
        let two_pi = Fx { raw: FX_TWO_PI_RAW };
        let half = Fx { raw: (FX_ONE / 2) as i64 };
        let k = self.sdiv(two_pi).sadd(half).sfloor();
        self.ssub(Fx::sfrom_int(k).smul(two_pi))
    }

    /// The sine series on a quadrant-folded argument.
    pub open spec fn ssin_poly(self) -> Fx {
        let x2 = self.smul(self);
        let x3 = x2.smul(self);
        let x5 = x3.smul(x2);
        let x7 = x5.smul(x2);
        let x9 = x7.smul(x2);
        self.ssub(x3.smul(Fx { raw: SIN_C3_RAW })).sadd(x5.smul(Fx { raw: SIN_C5_RAW })).ssub(
            x7.smul(Fx { raw: SIN_C7_RAW }),
        ).sadd(x9.smul(Fx { raw: SIN_C9_RAW }))
    }

    pub open spec fn ssin(self) -> Fx {
        let pi = Fx { raw: FX_PI_RAW };
        let half_pi = Fx { raw: FX_HALF_PI_RAW };
        let x = self.sreduce_turns();
        let folded = if x.raw > FX_HALF_PI_RAW {
            pi.ssub(x)
        } else if x.raw < -FX_HALF_PI_RAW {
            pi.sneg().ssub(x)
        } else {
            x
        };
        folded.ssin_poly()
    }

    pub open spec fn scos(self) -> Fx {
        self.sadd(Fx { raw: FX_HALF_PI_RAW }).ssin()
    }

    pub open spec fn stan(self) -> Fx {
        let s = self.ssin();
        let c = self.scos();
        if c.raw == 0 {
            if s.raw >= 0 {
                Fx { raw: crate::fx::FX_INF_RAW }
            } else {
                Fx { raw: (-crate::fx::FX_INF_RAW) as i64 }
            }
        } else {
            s.sdiv(c)
        }
    }

    /// The arctangent approximation on `[-1, 1]`.
    pub open spec fn satan_core(self) -> Fx {
        let one = Fx { raw: FX_ONE };
        let qp = Fx { raw: FX_QUARTER_PI_RAW };
        let k = Fx { raw: ATAN_K_RAW };
        self.smul(qp.sadd(k.smul(one.ssub(self.sabs()))))
    }

    pub open spec fn satan(self) -> Fx {
        let one = Fx { raw: FX_ONE };
        let half_pi = Fx { raw: FX_HALF_PI_RAW };
        if -FX_ONE <= self.raw <= FX_ONE {
            self.satan_core()
        } else if self.raw > 0 {
            half_pi.ssub(one.sdiv(self).satan_core())
        } else {
            half_pi.sneg().ssub(one.sdiv(self).satan_core())
        }
    }

    pub open spec fn satan2(self, x: Fx) -> Fx {
        let pi = Fx { raw: FX_PI_RAW };
        let half_pi = Fx { raw: FX_HALF_PI_RAW };
        if x.raw == 0 {
            if self.raw > 0 {
                half_pi
            } else if self.raw < 0 {
                half_pi.sneg()
            } else {
                Fx { raw: 0 }
            }
        } else if x.raw > 0 {
            self.sdiv(x).satan()
        } else if self.raw >= 0 {
            self.sdiv(x).satan().sadd(pi)
        } else {
            self.sdiv(x).satan().ssub(pi)
        }
    }

    /// The argument clamped to `[-1, 1]`.
    pub open spec fn sclamp_unit(self) -> Fx {
        if self.raw > FX_ONE {
            Fx { raw: FX_ONE }
        } else if self.raw < -FX_ONE {
            Fx { raw: (-FX_ONE) as i64 }
        } else {
            self
        }
    }

    pub open spec fn sasin(self) -> Fx {
        let one = Fx { raw: FX_ONE };
        let y = self.sclamp_unit();
        y.satan2(one.ssub(y.smul(y)).ssqrt())
    }

    pub open spec fn sacos(self) -> Fx {
        Fx { raw: FX_HALF_PI_RAW }.ssub(self.sasin())
    }

    pub open spec fn sto_radians(self) -> Fx {
        self.smul(Fx { raw: FX_PI_OVER_180_RAW })
    }

    pub fn reduce_turns(self) -> (r: Fx)
        ensures
            r == self.sreduce_turns(),
    {
        let two_pi = Fx { raw: FX_TWO_PI_RAW };
        let half = Fx::from_raw(FX_ONE / 2);
        let k = self.div(two_pi).add(half).floor_int();
        self.sub(Fx::from_int(k).mul(two_pi))
    }

    pub fn sin(self) -> (r: Fx)
        ensures
            r == self.ssin(),
    {
        let pi = Fx::pi();
        let x = self.reduce_turns();
        let folded = if x.raw > FX_HALF_PI_RAW {
            pi.sub(x)
        } else if x.raw < -FX_HALF_PI_RAW {
            pi.neg().sub(x)
        } else {
            x
        };
        let x2 = folded.mul(folded);
        let x3 = x2.mul(folded);
        let x5 = x3.mul(x2);
        let x7 = x5.mul(x2);
        let x9 = x7.mul(x2);
        folded.sub(x3.mul(Fx { raw: SIN_C3_RAW })).add(x5.mul(Fx { raw: SIN_C5_RAW })).sub(
            x7.mul(Fx { raw: SIN_C7_RAW }),
        ).add(x9.mul(Fx { raw: SIN_C9_RAW }))
    }

    pub fn cos(self) -> (r: Fx)
        ensures
            r == self.scos(),
    {
        self.add(Fx { raw: FX_HALF_PI_RAW }).sin()
    }

    pub fn tan(self) -> (r: Fx)
        ensures
            r == self.stan(),
    {
        let s = self.sin();
        let c = self.cos();
        if c.raw == 0 {
            if s.raw >= 0 {
                Fx::infinity()
            } else {
                Fx::neg_infinity()
            }
        } else {
            s.div(c)
        }
    }

    fn atan_core(self) -> (r: Fx)
        ensures
            r == self.satan_core(),
    {
        let one = Fx::one();
        let qp = Fx { raw: FX_QUARTER_PI_RAW };
        let k = Fx { raw: ATAN_K_RAW };
        self.mul(qp.add(k.mul(one.sub(self.abs()))))
    }

    pub fn atan(self) -> (r: Fx)
        ensures
            r == self.satan(),
    {
        let one = Fx::one();
        let half_pi = Fx { raw: FX_HALF_PI_RAW };
        if -FX_ONE <= self.raw && self.raw <= FX_ONE {
            self.atan_core()
        } else if self.raw > 0 {
            half_pi.sub(one.div(self).atan_core())
        } else {
            half_pi.neg().sub(one.div(self).atan_core())
        }
    }

    /// Arctangent of `self / x` resolved by quadrant.
    pub fn atan2(self, x: Fx) -> (r: Fx)
        ensures
            r == self.satan2(x),
    {
        let pi = Fx::pi();
        let half_pi = Fx { raw: FX_HALF_PI_RAW };
        if x.raw == 0 {
            if self.raw > 0 {
                half_pi
            } else if self.raw < 0 {
                half_pi.neg()
            } else {
                Fx::zero()
            }
        } else if x.raw > 0 {
            self.div(x).atan()
        } else if self.raw >= 0 {
            self.div(x).atan().add(pi)
        } else {
            self.div(x).atan().sub(pi)
        }
    }

    pub fn clamp_unit(self) -> (r: Fx)
        ensures
            r == self.sclamp_unit(),
            -FX_ONE <= r.raw <= FX_ONE,
    {
        if self.raw > FX_ONE {
            Fx::one()
        } else if self.raw < -FX_ONE {
            Fx { raw: -FX_ONE }
        } else {
            self
        }
    }

    pub fn asin(self) -> (r: Fx)
        ensures
            r == self.sasin(),
    {
        let one = Fx::one();
        let y = self.clamp_unit();
        let y2 = y.mul(y);
        proof {
            lemma_unit_square(y);
        }
        y.atan2(one.sub(y2).sqrt())
    }

    pub fn acos(self) -> (r: Fx)
        ensures
            r == self.sacos(),
    {
        Fx { raw: FX_HALF_PI_RAW }.sub(self.asin())
    }

    pub fn to_radians(self) -> (r: Fx)
        ensures
            r == self.sto_radians(),
    {
        self.mul(Fx { raw: FX_PI_OVER_180_RAW })
    }
}

/// The square of a scalar in `[-1, 1]` stays in `[0, 1]`.
pub proof fn lemma_unit_square(y: Fx)
    requires
        -FX_ONE <= y.raw <= FX_ONE,
    ensures
        0 <= y.smul(y).raw <= FX_ONE,
{
    assert(0 <= y.raw * y.raw <= FX_ONE * FX_ONE) by (nonlinear_arith)
        requires
            -FX_ONE <= y.raw <= FX_ONE,
    ;
    assert(crate::fx::tdiv(y.raw * y.raw, FX_ONE as int) <= FX_ONE as int) by {
        vstd::arithmetic::div_mod::lemma_div_is_ordered(
            y.raw * y.raw,
            FX_ONE * FX_ONE,
            FX_ONE as int,
        );
        vstd::arithmetic::div_mod::lemma_div_by_multiple(FX_ONE as int, FX_ONE as int);
    }
}

} // verus!
