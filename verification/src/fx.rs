use vstd::prelude::*;

verus! {

/// The scalar of the tracer: a signed binary fixed-point number with 32
/// fractional bits, saturating at `±FX_INF_RAW` raw units. The two saturation
/// values double as the infinity sentinels that bounding boxes use.
///
/// Every operation clips its mathematically exact (truncated) result into the
/// representable band, so all values built through this interface stay
/// bounded and no operation can overflow or panic.

/// One, in raw units: 2^32.
pub const FX_ONE: i64 = 4294967296;

/// The saturation bound, 2^62 raw units; `Fx` values of this magnitude act as
/// the infinity sentinels.
pub const FX_INF_RAW: i64 = 4611686018427387904;

/// Pi in raw units (rounded to the nearest raw unit).
pub const FX_PI_RAW: i64 = 13493037705;

/// Clips a raw value into the representable band.
pub open spec fn clip(x: int) -> int {
    if x > FX_INF_RAW {
        FX_INF_RAW as int
    } else if x < -(FX_INF_RAW as int) {
        -(FX_INF_RAW as int)
    } else {
        x
    }
}

/// Magnitude of an integer.
pub open spec fn abs_int(x: int) -> int {
    if x >= 0 {
        x
    } else {
        -x
    }
}

/// Division truncated toward zero, for a positive divisor.
pub open spec fn tdiv(a: int, d: int) -> int
    recommends
        d > 0,
{
    if a >= 0 {
        a / d
    } else {
        -((-a) / d)
    }
}

/// `r` is the integer square root of `n`.
pub open spec fn is_sqrt(n: int, r: int) -> bool {
    0 <= r && r * r <= n && n < (r + 1) * (r + 1)
}

/// The integer square root of a non-negative integer.
pub open spec fn sqrt_val(n: int) -> int {
    choose|r: int| is_sqrt(n, r)
}

pub proof fn lemma_sqrt_exists(n: int)
    requires
        n >= 0,
    ensures
        is_sqrt(n, sqrt_val(n)),
    decreases n,
{
    if n == 0 {
        assert(is_sqrt(0, 0));
    } else {
        lemma_sqrt_exists(n - 1);
        let r = sqrt_val(n - 1);
        if (r + 1) * (r + 1) <= n {
            assert(n == (r + 1) * (r + 1));
            assert((r + 1 + 1) * (r + 1 + 1) > n) by (nonlinear_arith)
                requires
                    r >= 0,
                    n == (r + 1) * (r + 1),
            ;
            assert(is_sqrt(n, r + 1));
        } else {
            assert(is_sqrt(n, r));
        }
    }
}

pub proof fn lemma_sqrt_unique(n: int, r1: int, r2: int)
    requires
        is_sqrt(n, r1),
        is_sqrt(n, r2),
    ensures
        r1 == r2,
{
    assert(r1 == r2) by (nonlinear_arith)
        requires
            0 <= r1 && r1 * r1 <= n && n < (r1 + 1) * (r1 + 1),
            0 <= r2 && r2 * r2 <= n && n < (r2 + 1) * (r2 + 1),
    ;
}

/// The circle constant, for the scalar type the tracer runs on.
pub trait DistanceConstants: Sized {
    spec fn spec_pi() -> Self;

    fn pi_value() -> (r: Self)
        ensures
            r == Self::spec_pi(),
    ;
}

#[derive(Clone, Copy, Debug, PartialEq, Eq, Structural)]
pub struct Fx {
    pub raw: i64,
}

impl DistanceConstants for Fx {
    open spec fn spec_pi() -> Fx {
        Fx { raw: FX_PI_RAW }
    }

    fn pi_value() -> (r: Fx) {
        Fx { raw: FX_PI_RAW }
    }
}

impl Fx {
    /// The raw value lies in the representable band.
    pub open spec fn bounded(self) -> bool {
        -FX_INF_RAW <= self.raw <= FX_INF_RAW
    }

    pub open spec fn sadd(self, o: Fx) -> Fx {
        Fx { raw: clip(self.raw + o.raw) as i64 }
    }

    pub open spec fn ssub(self, o: Fx) -> Fx {
        Fx { raw: clip(self.raw - o.raw) as i64 }
    }

    pub open spec fn sneg(self) -> Fx {
        Fx { raw: clip(-self.raw) as i64 }
    }

    pub open spec fn smul(self, o: Fx) -> Fx {
        Fx { raw: clip(tdiv(self.raw * o.raw, FX_ONE as int)) as i64 }
    }

    pub open spec fn sdiv(self, o: Fx) -> Fx {
        Fx { raw: sdiv_raw(self.raw as int, o.raw as int) as i64 }
    }

    pub open spec fn ssqrt(self) -> Fx {
        Fx { raw: sqrt_val(self.raw * FX_ONE) as i64 }
    }

    pub open spec fn smin(self, o: Fx) -> Fx {
        if self.raw <= o.raw {
            self
        } else {
            o
        }
    }

    pub open spec fn smax(self, o: Fx) -> Fx {
        if self.raw >= o.raw {
            self
        } else {
            o
        }
    }

    pub open spec fn sabs(self) -> Fx {
        Fx { raw: clip(abs_int(self.raw as int)) as i64 }
    }

    pub open spec fn ssignum(self) -> Fx {
        if self.raw > 0 {
            Fx { raw: FX_ONE }
        } else if self.raw < 0 {
            Fx { raw: (-FX_ONE) as i64 }
        } else {
            Fx { raw: 0 }
        }
    }

    pub open spec fn sfrom_int(v: int) -> Fx {
        Fx { raw: clip(v * FX_ONE) as i64 }
    }

    /// Floor of the scalar as an integer (rounds toward minus infinity).
    pub open spec fn sfloor(self) -> int {
        self.raw as int / (FX_ONE as int)
    }
}

/// The raw value of a quotient, truncated toward zero and clipped.
pub open spec fn sdiv_raw(a: int, b: int) -> int
    recommends
        b != 0,
{
    if (a >= 0) == (b >= 0) {
        clip(abs_int(a) * FX_ONE / abs_int(b))
    } else {
        clip(-(abs_int(a) * FX_ONE / abs_int(b)))
    }
}

/// Clips an exact wide result back into a raw value.
fn clip_exec(x: i128) -> (r: i64)
    ensures
        r as int == clip(x as int),
{
    if x > FX_INF_RAW as i128 {
        FX_INF_RAW
    } else if x < -(FX_INF_RAW as i128) {
        -FX_INF_RAW
    } else {
        x as i64
    }
}

/// Magnitude of a raw value, widened so that `i64::MIN` needs no special case.
fn abs_wide(x: i64) -> (r: u128)
    ensures
        r as int == abs_int(x as int),
{
    if x >= 0 {
        x as u128
    } else {
        (-(x as i128)) as u128
    }
}

/// Clips a non-negative wide magnitude, negating it when `neg` holds.
fn clip_mag(m: u128, neg: bool) -> (r: i64)
    ensures
        neg ==> r as int == clip(-(m as int)),
        !neg ==> r as int == clip(m as int),
{
    if m > FX_INF_RAW as u128 {
        if neg {
            -FX_INF_RAW
        } else {
            FX_INF_RAW
        }
    } else {
        if neg {
            -(m as i64)
        } else {
            m as i64
        }
    }
}

impl Fx {
    pub fn zero() -> (r: Fx)
        ensures
            r.raw == 0,
    {
        Fx { raw: 0 }
    }

    pub fn one() -> (r: Fx)
        ensures
            r.raw == FX_ONE,
    {
        Fx { raw: FX_ONE }
    }

    pub fn infinity() -> (r: Fx)
        ensures
            r.raw == FX_INF_RAW,
    {
        Fx { raw: FX_INF_RAW }
    }

    pub fn neg_infinity() -> (r: Fx)
        ensures
            r.raw == -FX_INF_RAW,
    {
        Fx { raw: -FX_INF_RAW }
    }

    pub fn pi() -> (r: Fx)
        ensures
            r.raw == FX_PI_RAW,
    {
        Fx { raw: FX_PI_RAW }
    }

    /// Whether the value is one of the two infinity sentinels.
    pub fn is_infinite_val(self) -> (r: bool)
        ensures
            r == (self.raw == FX_INF_RAW || self.raw == -FX_INF_RAW),
    {
        self.raw == FX_INF_RAW || self.raw == -FX_INF_RAW
    }

    pub fn from_raw(raw: i64) -> (r: Fx)
        ensures
            r.raw as int == clip(raw as int),
    {
        if raw > FX_INF_RAW {
            Fx { raw: FX_INF_RAW }
        } else if raw < -FX_INF_RAW {
            Fx { raw: -FX_INF_RAW }
        } else {
            Fx { raw }
        }
    }

    pub fn from_int(v: i64) -> (r: Fx)
        ensures
            r == Fx::sfrom_int(v as int),
    {
        proof {
            assert((v as int) * (FX_ONE as int) <= 9223372036854775808 * (FX_ONE as int)
                && (v as int) * (FX_ONE as int) >= -9223372036854775808 * (FX_ONE as int)) by (nonlinear_arith)
                requires
                    -9223372036854775808 <= v as int <= 9223372036854775808,
            ;
        }
        let wide: i128 = (v as i128) * (FX_ONE as i128);
        Fx { raw: clip_exec(wide) }
    }

    /// The value `n / d`, truncated toward zero at the last fractional bit.
    pub fn from_ratio(n: i64, d: i64) -> (r: Fx)
        requires
            d != 0,
        ensures
            r.raw as int == sdiv_raw(n as int, d as int),
    {
        let neg = (n < 0) != (d < 0);
        let nm = abs_wide(n);
        let dm = abs_wide(d);
        proof {
            assert((nm as int) * (FX_ONE as int) <= 9223372036854775808 * (FX_ONE as int)) by (nonlinear_arith)
                requires
                    nm as int <= 9223372036854775808,
            ;
        }
        let p: u128 = nm * (FX_ONE as u128);
        let q: u128 = p / dm;
        Fx { raw: clip_mag(q, neg) }
    }

    pub fn add(self, o: Fx) -> (r: Fx)
        ensures
            r == self.sadd(o),
    {
        let s: i128 = self.raw as i128 + o.raw as i128;
        Fx { raw: clip_exec(s) }
    }

    pub fn sub(self, o: Fx) -> (r: Fx)
        ensures
            r == self.ssub(o),
    {
        let s: i128 = self.raw as i128 - o.raw as i128;
        Fx { raw: clip_exec(s) }
    }

    pub fn neg(self) -> (r: Fx)
        ensures
            r == self.sneg(),
    {
        let s: i128 = -(self.raw as i128);
        Fx { raw: clip_exec(s) }
    }

    pub fn mul(self, o: Fx) -> (r: Fx)
        ensures
            r == self.smul(o),
    {
        let neg = (self.raw < 0) != (o.raw < 0);
        let am = abs_wide(self.raw);
        let bm = abs_wide(o.raw);
        proof {
            assert(am * bm <= 9223372036854775808u128 * 9223372036854775808u128) by (nonlinear_arith)
                requires
                    am <= 9223372036854775808u128,
                    bm <= 9223372036854775808u128,
            ;
        }
        let p: u128 = am * bm;
        let q: u128 = p / (FX_ONE as u128);
        proof {
            lemma_mul_abs(self.raw as int, o.raw as int);
            if neg {
                assert(self.raw as int * o.raw as int == -(p as int));
                assert(tdiv(self.raw * o.raw, FX_ONE as int) == -(q as int));
            } else {
                assert(self.raw as int * o.raw as int == p as int);
                assert(tdiv(self.raw * o.raw, FX_ONE as int) == q as int);
            }
        }
        Fx { raw: clip_mag(q, neg) }
    }

    pub fn div(self, o: Fx) -> (r: Fx)
        requires
            o.raw != 0,
        ensures
            r == self.sdiv(o),
    {
        Fx::from_ratio(self.raw, o.raw)
    }

    pub fn min(self, o: Fx) -> (r: Fx)
        ensures
            r == self.smin(o),
    {
        if self.raw <= o.raw {
            self
        } else {
            o
        }
    }

    pub fn max(self, o: Fx) -> (r: Fx)
        ensures
            r == self.smax(o),
    {
        if self.raw >= o.raw {
            self
        } else {
            o
        }
    }

    pub fn abs(self) -> (r: Fx)
        ensures
            r == self.sabs(),
    {
        if self.raw >= 0 {
            Fx::from_raw(self.raw)
        } else {
            self.neg()
        }
    }

    pub fn signum(self) -> (r: Fx)
        ensures
            r == self.ssignum(),
    {
        if self.raw > 0 {
            Fx { raw: FX_ONE }
        } else if self.raw < 0 {
            Fx { raw: -FX_ONE }
        } else {
            Fx { raw: 0 }
        }
    }

    /// Integer square root of the value, in the scalar's own scale.
    pub fn sqrt(self) -> (r: Fx)
        requires
            self.raw >= 0,
        ensures
            r == self.ssqrt(),
            r.raw >= 0,
            r.bounded(),
    {
        let n: u128 = (self.raw as u128) * (FX_ONE as u128);
        proof {
            assert((self.raw as int) * (FX_ONE as int) < 281474976710656 * 281474976710656) by (nonlinear_arith)
                requires
                    0 <= self.raw as int <= 9223372036854775807,
            ;
        }
        let mut lo: u128 = 0;
        let mut hi: u128 = 281474976710656;
        while lo + 1 < hi
            invariant
                lo < hi,
                hi <= 281474976710656,
                lo * lo <= n,
                n < hi * hi,
            decreases hi - lo,
        {
            let mid: u128 = lo + (hi - lo) / 2;
            proof {
                assert(mid * mid < (281474976710657u128) * (281474976710657u128)) by (nonlinear_arith)
                    requires
                        mid <= 281474976710656u128,
                ;
            }
            if mid * mid <= n {
                lo = mid;
            } else {
                hi = mid;
            }
        }
        proof {
            assert(is_sqrt(n as int, lo as int));
            lemma_sqrt_exists(self.raw * FX_ONE);
            lemma_sqrt_unique(n as int, lo as int, sqrt_val(self.raw * FX_ONE));
        }
        Fx { raw: lo as i64 }
    }

    /// Division that leaves the value unchanged on a zero divisor; the
    /// callers that use it reject singular data beforehand.
    pub open spec fn ssafe_div(self, o: Fx) -> Fx {
        if o.raw == 0 {
            self
        } else {
            self.sdiv(o)
        }
    }

    pub fn safe_div(self, o: Fx) -> (r: Fx)
        ensures
            r == self.ssafe_div(o),
    {
        if o.raw == 0 {
            self
        } else {
            self.div(o)
        }
    }

    /// Floor of the value as a plain integer.
    pub fn floor_int(self) -> (r: i64)
        ensures
            r as int == self.sfloor(),
    {
        if self.raw >= 0 {
            ((self.raw as u64) / (FX_ONE as u64)) as i64
        } else {
            let m: u128 = (-(self.raw as i128)) as u128;
            let q: u128 = (m + (FX_ONE as u128) - 1) / (FX_ONE as u128);
            proof {
                lemma_neg_floor(self.raw as int, m as int, q as int);
            }
            -(q as i64)
        }
    }
}

/// A non-negative value divided by a positive one stays non-negative.
pub proof fn lemma_sdiv_nonneg(a: Fx, b: Fx)
    requires
        a.raw >= 0,
        b.raw > 0,
    ensures
        a.sdiv(b).raw >= 0,
{
    vstd::arithmetic::div_mod::lemma_div_pos_is_pos(abs_int(a.raw as int) * FX_ONE, abs_int(b.raw as int));
}

/// A product of nonnegative values never truncates to a negative value.
pub proof fn lemma_smul_nonneg(a: Fx, b: Fx)
    requires
        a.raw >= 0,
        b.raw >= 0,
    ensures
        a.smul(b).raw >= 0,
{
    assert(a.raw * b.raw >= 0) by (nonlinear_arith)
        requires
            a.raw >= 0,
            b.raw >= 0,
    ;
    vstd::arithmetic::div_mod::lemma_div_pos_is_pos(a.raw * b.raw, FX_ONE as int);
}

/// Multiplying by one is exact for bounded values, in either order.
pub proof fn lemma_mul_one(x: Fx)
    requires
        x.bounded(),
    ensures
        x.smul(Fx { raw: FX_ONE }) == x,
        (Fx { raw: FX_ONE }).smul(x) == x,
{
    let s: int = FX_ONE as int;
    vstd::arithmetic::div_mod::lemma_div_multiples_vanish(x.raw as int, s);
    assert(x.raw * s == s * x.raw) by (nonlinear_arith);
    if x.raw >= 0 {
        assert(tdiv(x.raw * s, s) == x.raw as int);
        assert(tdiv(s * x.raw, s) == x.raw as int);
    } else {
        vstd::arithmetic::div_mod::lemma_div_multiples_vanish(-(x.raw as int), s);
        assert(-(x.raw * s) == s * (-(x.raw as int))) by (nonlinear_arith);
        assert(tdiv(x.raw * s, s) == x.raw as int);
        assert(tdiv(s * x.raw, s) == x.raw as int);
    }
}

/// A square never truncates to a negative value.
pub proof fn lemma_square_nonneg(a: Fx)
    ensures
        a.smul(a).raw >= 0,
{
    assert(a.raw * a.raw >= 0) by (nonlinear_arith);
}

/// The product of two integers has the product of their magnitudes.
proof fn lemma_mul_abs(a: int, b: int)
    ensures
        (a >= 0) == (b >= 0) ==> a * b == abs_int(a) * abs_int(b),
        (a >= 0) != (b >= 0) ==> a * b == -(abs_int(a) * abs_int(b)),
        a * b >= 0 || (a >= 0) != (b >= 0),
{
    assert((a >= 0) == (b >= 0) ==> a * b == abs_int(a) * abs_int(b)) by (nonlinear_arith);
    assert((a >= 0) != (b >= 0) ==> a * b == -(abs_int(a) * abs_int(b))) by (nonlinear_arith);
    assert((a >= 0) == (b >= 0) ==> a * b >= 0) by (nonlinear_arith);
}

/// Flooring a negative value is the negated ceiling of its magnitude.
proof fn lemma_neg_floor(raw: int, m: int, q: int)
    requires
        raw < 0,
        m == -raw,
        q == (m + FX_ONE - 1) / (FX_ONE as int),
    ensures
        -q == raw / (FX_ONE as int),
{
    let s: int = FX_ONE as int;
    let r: int = (m + s - 1) % s;
    vstd::arithmetic::div_mod::lemma_fundamental_div_mod(m + s - 1, s);
    assert(m + s - 1 == q * s + r);
    assert(0 <= r < s) by {
        vstd::arithmetic::div_mod::lemma_mod_bound(m + s - 1, s);
    }
    assert((-q) * s <= raw < (-q + 1) * s) by (nonlinear_arith)
        requires
            raw == -m,
            m + s - 1 == q * s + r,
            0 <= r < s,
            s > 0,
    ;
    vstd::arithmetic::div_mod::lemma_fundamental_div_mod(raw, s);
    let qq: int = raw / s;
    let rr: int = raw % s;
    assert(0 <= rr < s) by {
        vstd::arithmetic::div_mod::lemma_mod_bound(raw, s);
    }
    assert(qq == -q) by (nonlinear_arith)
        requires
            raw == qq * s + rr,
            0 <= rr < s,
            (-q) * s <= raw < (-q + 1) * s,
            s > 0,
    ;
}

} // verus!
