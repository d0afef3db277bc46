use vstd::prelude::*;
use crate::fx::{Fx, FX_ONE, FX_INF_RAW};
use crate::algebra::{Point3, Point3Ops, Ray};

verus! {

/// An axis-aligned bounding box. `min` and `max` are opposite corners; the
/// empty box is the sentinel with `min` at plus infinity and `max` at minus
/// infinity, and an infinite box carries an infinity sentinel in `min` or
/// `max` the way an unbounded primitive reports it.
#[derive(Clone, Copy, Debug, PartialEq, Eq, Structural)]
pub struct BoundingBox {
    pub min: Point3,
    pub max: Point3,
}

/// `a/b <= c/d` for positive denominators, stated by cross-multiplication.
pub open spec fn fle(an: int, ad: int, bn: int, bd: int) -> bool {
    an * bd <= bn * ad
}

/// The slab constraint of one axis: the point `o + t * d` at the rational ray
/// parameter `t = tn / td` lies between `lo` and `hi`.
pub open spec fn slab_ok(lo: int, hi: int, o: int, d: int, tn: int, td: int) -> bool {
    lo * td <= o * td + tn * d && o * td + tn * d <= hi * td
}

/// Magnitudes that keep every cross-product inside 127 bits.
pub open spec fn num_ok(a: int) -> bool {
    -9223372036854775808 <= a <= 9223372036854775808
}

pub open spec fn den_ok(b: int) -> bool {
    1 <= b <= 9223372036854775808
}

pub proof fn lemma_fle_trans(an: int, ad: int, bn: int, bd: int, cn: int, cd: int)
    requires
        ad >= 1,
        bd >= 1,
        cd >= 1,
        fle(an, ad, bn, bd),
        fle(bn, bd, cn, cd),
    ensures
        fle(an, ad, cn, cd),
{
    assert(an * bd * cd <= bn * ad * cd) by (nonlinear_arith)
        requires
            an * bd <= bn * ad,
            cd >= 1,
    ;
    assert(bn * ad * cd == bn * cd * ad && cn * bd * ad == cn * ad * bd) by (nonlinear_arith);
    assert(bn * cd * ad <= cn * bd * ad) by (nonlinear_arith)
        requires
            bn * cd <= cn * bd,
            ad >= 1,
    ;
    assert(an * bd * cd <= cn * ad * bd);
    assert(an * cd <= cn * ad) by (nonlinear_arith)
        requires
            an * bd * cd <= cn * ad * bd,
            bd >= 1,
    ;
}

impl BoundingBox {
    pub open spec fn bounded(self) -> bool {
        self.min.bounded() && self.max.bounded()
    }

    pub open spec fn sempty() -> BoundingBox {
        BoundingBox {
            min: Point3 {
                x: Fx { raw: FX_INF_RAW },
                y: Fx { raw: FX_INF_RAW },
                z: Fx { raw: FX_INF_RAW },
            },
            max: Point3 {
                x: Fx { raw: (-FX_INF_RAW) as i64 },
                y: Fx { raw: (-FX_INF_RAW) as i64 },
                z: Fx { raw: (-FX_INF_RAW) as i64 },
            },
        }
    }

    pub open spec fn sis_infinite(self) -> bool {
        self.min.x.raw == -FX_INF_RAW || self.min.y.raw == -FX_INF_RAW || self.min.z.raw
            == -FX_INF_RAW || self.max.x.raw == FX_INF_RAW || self.max.y.raw == FX_INF_RAW
            || self.max.z.raw == FX_INF_RAW
    }

    pub open spec fn sunion(self, other: BoundingBox) -> BoundingBox {
        BoundingBox {
            min: self.min.spec_min(&other.min),
            max: self.max.spec_max(&other.max),
        }
    }

    /// Componentwise containment of another box.
    pub open spec fn scontains(self, other: BoundingBox) -> bool {
        self.min.x.raw <= other.min.x.raw && self.min.y.raw <= other.min.y.raw && self.min.z.raw
            <= other.min.z.raw && self.max.x.raw >= other.max.x.raw && self.max.y.raw
            >= other.max.y.raw && self.max.z.raw >= other.max.z.raw
    }

    pub open spec fn scenter(self) -> Point3 {
        let half = Fx { raw: (FX_ONE / 2) as i64 };
        Point3 {
            x: self.min.x.sadd(self.max.x).smul(half),
            y: self.min.y.sadd(self.max.y).smul(half),
            z: self.min.z.sadd(self.max.z).smul(half),
        }
    }

    pub open spec fn sexpand_by_factor(self, factor: Fx) -> BoundingBox {
        let half = Fx { raw: (FX_ONE / 2) as i64 };
        let c = self.scenter();
        let hx = self.max.x.ssub(self.min.x).smul(half).smul(factor);
        let hy = self.max.y.ssub(self.min.y).smul(half).smul(factor);
        let hz = self.max.z.ssub(self.min.z).smul(half).smul(factor);
        BoundingBox {
            min: Point3 { x: c.x.ssub(hx), y: c.y.ssub(hy), z: c.z.ssub(hz) },
            max: Point3 { x: c.x.sadd(hx), y: c.y.sadd(hy), z: c.z.sadd(hz) },
        }
    }

    /// The child octant selected by the three low bits of `index`: bit 0
    /// keeps the negative x half when clear, bits 1 and 2 select y and z.
    pub open spec fn ssubdivide(self, index: usize, center: Point3) -> BoundingBox {
        BoundingBox {
            min: Point3 {
                x: if index & 1 == 0 { self.min.x } else { center.x },
                y: if index & 2 == 0 { self.min.y } else { center.y },
                z: if index & 4 == 0 { self.min.z } else { center.z },
            },
            max: Point3 {
                x: if index & 1 == 0 { center.x } else { self.max.x },
                y: if index & 2 == 0 { center.y } else { self.max.y },
                z: if index & 4 == 0 { center.z } else { self.max.z },
            },
        }
    }

    /// A rational ray parameter `tn / td` witnesses an intersection: it is
    /// non-negative, no farther than `max`, and meets every slab.
    pub open spec fn shits_at(self, ray: Ray, max: Fx, tn: int, td: int) -> bool {
        td >= 1 && tn >= 0 && tn * (FX_ONE as int) <= max.raw * td && slab_ok(
            self.min.x.raw as int,
            self.max.x.raw as int,
            ray.origin.x.raw as int,
            ray.direction.x.raw as int,
            tn,
            td,
        ) && slab_ok(
            self.min.y.raw as int,
            self.max.y.raw as int,
            ray.origin.y.raw as int,
            ray.direction.y.raw as int,
            tn,
            td,
        ) && slab_ok(
            self.min.z.raw as int,
            self.max.z.raw as int,
            ray.origin.z.raw as int,
            ray.direction.z.raw as int,
            tn,
            td,
        )
    }

    /// Some point of the ray within distance `max` lies in the box.
    pub open spec fn shits_ray(self, ray: Ray, max: Fx) -> bool {
        exists|tn: int, td: int| self.shits_at(ray, max, tn, td)
    }

    /// The exact point at the fixed-point ray parameter `t` lies in the box.
    pub open spec fn spoint_in_at(self, ray: Ray, t: Fx) -> bool {
        slab_ok(
            self.min.x.raw as int,
            self.max.x.raw as int,
            ray.origin.x.raw as int,
            ray.direction.x.raw as int,
            t.raw as int,
            FX_ONE as int,
        ) && slab_ok(
            self.min.y.raw as int,
            self.max.y.raw as int,
            ray.origin.y.raw as int,
            ray.direction.y.raw as int,
            t.raw as int,
            FX_ONE as int,
        ) && slab_ok(
            self.min.z.raw as int,
            self.max.z.raw as int,
            ray.origin.z.raw as int,
            ray.direction.z.raw as int,
            t.raw as int,
            FX_ONE as int,
        )
    }

    /// Creates an empty bounding box, to be expanded by unions later.
    pub fn empty() -> (r: BoundingBox)
        ensures
            r == BoundingBox::sempty(),
    {
        BoundingBox {
            min: Point3::new(Fx::infinity(), Fx::infinity(), Fx::infinity()),
            max: Point3::new(Fx::neg_infinity(), Fx::neg_infinity(), Fx::neg_infinity()),
        }
    }

    /// Creates a bounding box from its two corners.
    pub fn new(min: Point3, max: Point3) -> (r: BoundingBox)
        requires
            min.x.raw <= max.x.raw,
            min.y.raw <= max.y.raw,
            min.z.raw <= max.z.raw,
        ensures
            r == (BoundingBox { min, max }),
    {
        BoundingBox { min, max }
    }

    /// Whether the box carries an infinity sentinel, the mark of an
    /// unbounded primitive.
    pub fn is_infinite(&self) -> (r: bool)
        ensures
            r == self.sis_infinite(),
    {
        self.min.x.raw == -FX_INF_RAW || self.min.y.raw == -FX_INF_RAW || self.min.z.raw
            == -FX_INF_RAW || self.max.x.raw == FX_INF_RAW || self.max.y.raw == FX_INF_RAW
            || self.max.z.raw == FX_INF_RAW
    }

    /// Expands the bounding box around its center by a given loose factor.
    pub fn expand_by_factor(&self, factor: Fx) -> (r: BoundingBox)
        ensures
            r == self.sexpand_by_factor(factor),
    {
        let half = Fx::from_raw(FX_ONE / 2);
        let c = self.center();
        let hx = self.max.x.sub(self.min.x).mul(half).mul(factor);
        let hy = self.max.y.sub(self.min.y).mul(half).mul(factor);
        let hz = self.max.z.sub(self.min.z).mul(half).mul(factor);
        BoundingBox {
            min: Point3::new(c.x.sub(hx), c.y.sub(hy), c.z.sub(hz)),
            max: Point3::new(c.x.add(hx), c.y.add(hy), c.z.add(hz)),
        }
    }

    /// The union of this box with another, expanded to contain both.
    pub fn union(&self, other: &BoundingBox) -> (r: BoundingBox)
        ensures
            r == self.sunion(*other),
    {
        BoundingBox { min: self.min.min(&other.min), max: self.max.max(&other.max) }
    }

    /// Whether this box fully contains another box.
    pub fn contains(&self, other: &BoundingBox) -> (r: bool)
        ensures
            r == self.scontains(*other),
    {
        self.min.x.raw <= other.min.x.raw && self.min.y.raw <= other.min.y.raw && self.min.z.raw
            <= other.min.z.raw && self.max.x.raw >= other.max.x.raw && self.max.y.raw
            >= other.max.y.raw && self.max.z.raw >= other.max.z.raw
    }

    /// The center point of the box.
    pub fn center(&self) -> (r: Point3)
        ensures
            r == self.scenter(),
    {
        let half = Fx::from_raw(FX_ONE / 2);
        Point3::new(
            self.min.x.add(self.max.x).mul(half),
            self.min.y.add(self.max.y).mul(half),
            self.min.z.add(self.max.z).mul(half),
        )
    }

    /// One of the eight child octants of the box.
    pub fn subdivide(&self, index: usize, center: Point3) -> (r: BoundingBox)
        ensures
            r == self.ssubdivide(index, center),
    {
        let mut min = self.min;
        let mut max = self.max;
        if index & 1 == 0 {
            max.x = center.x;
        } else {
            min.x = center.x;
        }
        if index & 2 == 0 {
            max.y = center.y;
        } else {
            min.y = center.y;
        }
        if index & 4 == 0 {
            max.z = center.z;
        } else {
            min.z = center.z;
        }
        BoundingBox { min, max }
    }

    /// The slab test: whether the ray meets the box at some parameter in
    /// `[0, max]`. The test is exact: it answers precisely whether a rational
    /// ray parameter in range puts the ray inside the box, with a degenerate
    /// (zero) direction component constraining nothing when the origin lies
    /// inside that slab.
    pub fn intersects_ray(&self, ray: &Ray, max: Fx) -> (r: bool)
        requires
            self.bounded(),
            ray.bounded(),
            max.bounded(),
        ensures
            r == self.shits_ray(*ray, max),
    {
        let mut nn: i128 = 0;
        let mut nd: i128 = 1;
        let mut fn_: i128 = max.raw as i128;
        let mut fd: i128 = FX_ONE as i128;
        let ghost n0 = (nn as int, nd as int);
        let ghost f0 = (fn_ as int, fd as int);

        let (ok1, nn1, nd1, fn1, fd1) = slab_axis(
            self.min.x.raw,
            self.max.x.raw,
            ray.origin.x.raw,
            ray.direction.x.raw,
            nn,
            nd,
            fn_,
            fd,
        );
        if !ok1 {
            proof {
                self.lemma_no_witness_axis(*ray, max, 0);
            }
            return false;
        }
        let (ok2, nn2, nd2, fn2, fd2) = slab_axis(
            self.min.y.raw,
            self.max.y.raw,
            ray.origin.y.raw,
            ray.direction.y.raw,
            nn1,
            nd1,
            fn1,
            fd1,
        );
        if !ok2 {
            proof {
                self.lemma_no_witness_axis(*ray, max, 1);
            }
            return false;
        }
        let (ok3, nn3, nd3, fn3, fd3) = slab_axis(
            self.min.z.raw,
            self.max.z.raw,
            ray.origin.z.raw,
            ray.direction.z.raw,
            nn2,
            nd2,
            fn2,
            fd2,
        );
        if !ok3 {
            proof {
                self.lemma_no_witness_axis(*ray, max, 2);
            }
            return false;
        }
        proof {
            assert(nn3 as int * (fd3 as int) <= 170141183460469231731687303715884105727
                && nn3 as int * (fd3 as int) >= -170141183460469231731687303715884105727
                && fn3 as int * (nd3 as int) <= 170141183460469231731687303715884105727
                && fn3 as int * (nd3 as int) >= -170141183460469231731687303715884105727)
                by (nonlinear_arith)
                requires
                    num_ok(nn3 as int),
                    den_ok(nd3 as int),
                    num_ok(fn3 as int),
                    den_ok(fd3 as int),
            ;
        }
        let res = nn3 * fd3 <= fn3 * nd3;
        proof {
            if res {
                // The final lower bound itself is a witness.
                let tn = nn3 as int;
                let td = nd3 as int;
                assert(fle(nn3 as int, nd3 as int, nn3 as int, nd3 as int));
                assert(fle(tn, td, fn3 as int, fd3 as int));
                // Chain the per-axis bounds out to the final bracket.
                lemma_fle_trans(nn1 as int, nd1 as int, nn2 as int, nd2 as int, nn3 as int, nd3 as int);
                lemma_fle_trans(fn3 as int, fd3 as int, fn2 as int, fd2 as int, fn1 as int, fd1 as int);
                // Bounds against the initial bracket give range and distance.
                lemma_fle_trans(n0.0, n0.1, nn1 as int, nd1 as int, nn3 as int, nd3 as int);
                lemma_fle_trans(fn3 as int, fd3 as int, fn1 as int, fd1 as int, f0.0, f0.1);
                lemma_fle_trans(nn3 as int, nd3 as int, fn3 as int, fd3 as int, f0.0, f0.1);
                assert(tn >= 0);
                assert(tn * (FX_ONE as int) <= max.raw * td);
                // Each axis' satisfaction clause applies at the witness.
                assert(fle(nn1 as int, nd1 as int, tn, td));
                assert(fle(tn, td, fn1 as int, fd1 as int)) by {
                    lemma_fle_trans(tn, td, fn3 as int, fd3 as int, fn1 as int, fd1 as int);
                }
                assert(fle(nn2 as int, nd2 as int, tn, td));
                assert(fle(tn, td, fn2 as int, fd2 as int)) by {
                    lemma_fle_trans(tn, td, fn3 as int, fd3 as int, fn2 as int, fd2 as int);
                }
                assert(self.shits_at(*ray, max, tn, td));
                assert(self.shits_ray(*ray, max));
            } else {
                assert forall|tn: int, td: int| !self.shits_at(*ray, max, tn, td) by {
                    if self.shits_at(*ray, max, tn, td) {
                        assert(fle(n0.0, n0.1, tn, td)) by (nonlinear_arith)
                            requires
                                tn >= 0,
                                n0 == (0int, 1int),
                        ;
                        assert(fle(tn, td, f0.0, f0.1)) by (nonlinear_arith)
                            requires
                                tn * (FX_ONE as int) <= max.raw * td,
                                f0 == (max.raw as int, FX_ONE as int),
                        ;
                        assert(fle(nn1 as int, nd1 as int, tn, td) && fle(
                            tn,
                            td,
                            fn1 as int,
                            fd1 as int,
                        ));
                        assert(fle(nn2 as int, nd2 as int, tn, td) && fle(
                            tn,
                            td,
                            fn2 as int,
                            fd2 as int,
                        ));
                        assert(fle(nn3 as int, nd3 as int, tn, td) && fle(
                            tn,
                            td,
                            fn3 as int,
                            fd3 as int,
                        ));
                        lemma_fle_trans(nn3 as int, nd3 as int, tn, td, fn3 as int, fd3 as int);
                        assert(false);
                    }
                }
                assert(!self.shits_ray(*ray, max));
            }
        }
        res
    }

    /// No rational parameter can satisfy the named axis, so no witness
    /// exists at all.
    proof fn lemma_no_witness_axis(self, ray: Ray, max: Fx, axis: int)
        requires
            forall|tn: int, td: int|
                td >= 1 ==> !slab_ok(
                    self.axis_min(axis),
                    self.axis_max(axis),
                    axis_origin(ray, axis),
                    axis_dir(ray, axis),
                    tn,
                    td,
                ),
            0 <= axis <= 2,
        ensures
            !self.shits_ray(ray, max),
    {
        assert forall|tn: int, td: int| !self.shits_at(ray, max, tn, td) by {
            if self.shits_at(ray, max, tn, td) {
                assert(!slab_ok(
                    self.axis_min(axis),
                    self.axis_max(axis),
                    axis_origin(ray, axis),
                    axis_dir(ray, axis),
                    tn,
                    td,
                ));
                assert(false);
            }
        }
    }

    pub open spec fn axis_min(self, axis: int) -> int {
        if axis == 0 {
            self.min.x.raw as int
        } else if axis == 1 {
            self.min.y.raw as int
        } else {
            self.min.z.raw as int
        }
    }

    pub open spec fn axis_max(self, axis: int) -> int {
        if axis == 0 {
            self.max.x.raw as int
        } else if axis == 1 {
            self.max.y.raw as int
        } else {
            self.max.z.raw as int
        }
    }
}

pub open spec fn axis_origin(ray: Ray, axis: int) -> int {
    if axis == 0 {
        ray.origin.x.raw as int
    } else if axis == 1 {
        ray.origin.y.raw as int
    } else {
        ray.origin.z.raw as int
    }
}

pub open spec fn axis_dir(ray: Ray, axis: int) -> int {
    if axis == 0 {
        ray.direction.x.raw as int
    } else if axis == 1 {
        ray.direction.y.raw as int
    } else {
        ray.direction.z.raw as int
    }
}

/// The exact step a slab axis applies to the running bracket.
pub open spec fn saxis(lo: int, hi: int, o: int, d: int, nn: int, nd: int, fnn: int, fd: int) -> (
    bool,
    int,
    int,
    int,
    int,
) {
    if d == 0 {
        if o < lo || o > hi {
            (false, nn, nd, fnn, fd)
        } else {
            (true, nn, nd, fnn, fd)
        }
    } else {
        let ln = if d > 0 { lo - o } else { o - hi };
        let ld = if d > 0 { d } else { -d };
        let un = if d > 0 { hi - o } else { o - lo };
        let ud = if d > 0 { d } else { -d };
        let nn2 = if nn * ld < ln * nd { ln } else { nn };
        let nd2 = if nn * ld < ln * nd { ld } else { nd };
        let fn2 = if un * fd < fnn * ud { un } else { fnn };
        let fd2 = if un * fd < fnn * ud { ud } else { fd };
        (true, nn2, nd2, fn2, fd2)
    }
}

/// Narrows the running parameter bracket `[near, far]` (fractions with
/// positive denominators) by one axis' slab constraint. Returns false in the
/// first component when the axis can never be satisfied.
pub(crate) fn slab_axis(lo: i64, hi: i64, o: i64, d: i64, nn: i128, nd: i128, fn_: i128, fd: i128) -> (r: (
    bool,
    i128,
    i128,
    i128,
    i128,
))
    requires
        -FX_INF_RAW <= lo <= FX_INF_RAW,
        -FX_INF_RAW <= hi <= FX_INF_RAW,
        -FX_INF_RAW <= o <= FX_INF_RAW,
        -FX_INF_RAW <= d <= FX_INF_RAW,
        num_ok(nn as int),
        den_ok(nd as int),
        num_ok(fn_ as int),
        den_ok(fd as int),
    ensures
        r.0 == saxis(lo as int, hi as int, o as int, d as int, nn as int, nd as int, fn_ as int, fd as int).0,
        r.1 as int == saxis(lo as int, hi as int, o as int, d as int, nn as int, nd as int, fn_ as int, fd as int).1,
        r.2 as int == saxis(lo as int, hi as int, o as int, d as int, nn as int, nd as int, fn_ as int, fd as int).2,
        r.3 as int == saxis(lo as int, hi as int, o as int, d as int, nn as int, nd as int, fn_ as int, fd as int).3,
        r.4 as int == saxis(lo as int, hi as int, o as int, d as int, nn as int, nd as int, fn_ as int, fd as int).4,
        !r.0 ==> forall|tn: int, td: int|
            td >= 1 ==> !slab_ok(lo as int, hi as int, o as int, d as int, tn, td),
        r.0 ==> num_ok(r.1 as int) && den_ok(r.2 as int) && num_ok(r.3 as int) && den_ok(
            r.4 as int,
        ),
        r.0 ==> fle(nn as int, nd as int, r.1 as int, r.2 as int) && fle(
            r.3 as int,
            r.4 as int,
            fn_ as int,
            fd as int,
        ),
        // Any parameter inside the new bracket satisfies this axis.
        r.0 ==> forall|tn: int, td: int|
            td >= 1 && fle(r.1 as int, r.2 as int, tn, td) && fle(tn, td, r.3 as int, r.4 as int)
                ==> slab_ok(lo as int, hi as int, o as int, d as int, tn, td),
        // Any parameter inside the old bracket that satisfies this axis
        // stays inside the new bracket.
        r.0 ==> forall|tn: int, td: int|
            td >= 1 && fle(nn as int, nd as int, tn, td) && fle(tn, td, fn_ as int, fd as int)
                && slab_ok(lo as int, hi as int, o as int, d as int, tn, td) ==> fle(
                r.1 as int,
                r.2 as int,
                tn,
                td,
            ) && fle(tn, td, r.3 as int, r.4 as int),
{
    if d == 0 {
        if o < lo || o > hi {
            proof {
                assert forall|tn: int, td: int| td >= 1 implies !slab_ok(
                    lo as int,
                    hi as int,
                    o as int,
                    d as int,
                    tn,
                    td,
                ) by {
                    if slab_ok(lo as int, hi as int, o as int, d as int, tn, td) {
                        assert(lo as int * td <= o as int * td && o as int * td <= hi as int * td)
                            by (nonlinear_arith)
                            requires
                                slab_ok(lo as int, hi as int, o as int, d as int, tn, td),
                                d as int == 0,
                        ;
                        assert(lo <= o && o <= hi) by (nonlinear_arith)
                            requires
                                lo as int * td <= o as int * td,
                                o as int * td <= hi as int * td,
                                td >= 1,
                        ;
                        assert(false);
                    }
                }
            }
            (false, nn, nd, fn_, fd)
        } else {
            proof {
                assert forall|tn: int, td: int|
                    td >= 1 && fle(nn as int, nd as int, tn, td) && fle(
                        tn,
                        td,
                        fn_ as int,
                        fd as int,
                    ) implies slab_ok(lo as int, hi as int, o as int, d as int, tn, td) by {
                    assert(lo as int * td <= o as int * td + tn * (d as int) && o as int * td + tn
                        * (d as int) <= hi as int * td) by (nonlinear_arith)
                        requires
                            lo <= o <= hi,
                            td >= 1,
                            d as int == 0,
                    ;
                }
            }
            (true, nn, nd, fn_, fd)
        }
    } else {
        let (ln, ld, un, ud): (i128, i128, i128, i128) = if d > 0 {
            ((lo as i128) - (o as i128), d as i128, (hi as i128) - (o as i128), d as i128)
        } else {
            ((o as i128) - (hi as i128), -(d as i128), (o as i128) - (lo as i128), -(d as i128))
        };
        let take_lower = frac_lt(nn, nd, ln, ld);
        let (nn2, nd2) = if take_lower {
            (ln, ld)
        } else {
            (nn, nd)
        };
        let take_upper = frac_lt(un, ud, fn_, fd);
        let (fn2, fd2) = if take_upper {
            (un, ud)
        } else {
            (fn_, fd)
        };
        proof {
            // The new lower bound dominates both the old one and the axis'.
            if take_lower {
                assert(fle(nn as int, nd as int, nn2 as int, nd2 as int));
                assert(fle(ln as int, ld as int, nn2 as int, nd2 as int));
            } else {
                assert(fle(nn as int, nd as int, nn2 as int, nd2 as int));
                assert(fle(ln as int, ld as int, nn2 as int, nd2 as int));
            }
            if take_upper {
                assert(fle(fn2 as int, fd2 as int, fn_ as int, fd as int));
                assert(fle(fn2 as int, fd2 as int, un as int, ud as int));
            } else {
                assert(fle(fn2 as int, fd2 as int, fn_ as int, fd as int));
                assert(fle(fn2 as int, fd2 as int, un as int, ud as int));
            }
            // Satisfaction: the new bracket lies inside this axis' slab.
            assert forall|tn: int, td: int|
                td >= 1 && fle(nn2 as int, nd2 as int, tn, td) && fle(
                    tn,
                    td,
                    fn2 as int,
                    fd2 as int,
                ) implies slab_ok(lo as int, hi as int, o as int, d as int, tn, td) by {
                lemma_fle_trans(ln as int, ld as int, nn2 as int, nd2 as int, tn, td);
                lemma_fle_trans(tn, td, fn2 as int, fd2 as int, un as int, ud as int);
                lemma_axis_sat(
                    lo as int,
                    hi as int,
                    o as int,
                    d as int,
                    ln as int,
                    ld as int,
                    un as int,
                    ud as int,
                    tn,
                    td,
                );
            }
            // Preservation: a satisfying parameter in the old bracket stays.
            assert forall|tn: int, td: int|
                td >= 1 && fle(nn as int, nd as int, tn, td) && fle(tn, td, fn_ as int, fd as int)
                    && slab_ok(lo as int, hi as int, o as int, d as int, tn, td) implies fle(
                nn2 as int,
                nd2 as int,
                tn,
                td,
            ) && fle(tn, td, fn2 as int, fd2 as int) by {
                lemma_axis_bounds(
                    lo as int,
                    hi as int,
                    o as int,
                    d as int,
                    ln as int,
                    ld as int,
                    un as int,
                    ud as int,
                    tn,
                    td,
                );
            }
        }
        (true, nn2, nd2, fn2, fd2)
    }
}

/// Inside the axis' own bounds, the slab constraint holds.
proof fn lemma_axis_sat(
    lo: int,
    hi: int,
    o: int,
    d: int,
    ln: int,
    ld: int,
    un: int,
    ud: int,
    tn: int,
    td: int,
)
    requires
        d != 0,
        d > 0 ==> ln == lo - o && ld == d && un == hi - o && ud == d,
        d < 0 ==> ln == o - hi && ld == -d && un == o - lo && ud == -d,
        td >= 1,
        fle(ln, ld, tn, td),
        fle(tn, td, un, ud),
    ensures
        slab_ok(lo, hi, o, d, tn, td),
{
    if d > 0 {
        assert(lo * td <= o * td + tn * d) by (nonlinear_arith)
            requires
                (lo - o) * td <= tn * d,
        ;
        assert(o * td + tn * d <= hi * td) by (nonlinear_arith)
            requires
                tn * d <= (hi - o) * td,
        ;
    } else {
        assert(lo * td <= o * td + tn * d) by (nonlinear_arith)
            requires
                tn * (-d) <= (o - lo) * td,
        ;
        assert(o * td + tn * d <= hi * td) by (nonlinear_arith)
            requires
                (o - hi) * td <= tn * (-d),
        ;
    }
}

/// The slab constraint implies the axis' own fractional bounds.
proof fn lemma_axis_bounds(
    lo: int,
    hi: int,
    o: int,
    d: int,
    ln: int,
    ld: int,
    un: int,
    ud: int,
    tn: int,
    td: int,
)
    requires
        d != 0,
        d > 0 ==> ln == lo - o && ld == d && un == hi - o && ud == d,
        d < 0 ==> ln == o - hi && ld == -d && un == o - lo && ud == -d,
        td >= 1,
        slab_ok(lo, hi, o, d, tn, td),
    ensures
        fle(ln, ld, tn, td),
        fle(tn, td, un, ud),
{
    if d > 0 {
        assert((lo - o) * td <= tn * d) by (nonlinear_arith)
            requires
                lo * td <= o * td + tn * d,
        ;
        assert(tn * d <= (hi - o) * td) by (nonlinear_arith)
            requires
                o * td + tn * d <= hi * td,
        ;
    } else {
        assert((o - hi) * td <= tn * (-d)) by (nonlinear_arith)
            requires
                o * td + tn * d <= hi * td,
        ;
        assert(tn * (-d) <= (o - lo) * td) by (nonlinear_arith)
            requires
                lo * td <= o * td + tn * d,
        ;
    }
}

/// Strict fractional comparison `a/b < c/d` for positive denominators.
pub(crate) fn frac_lt(an: i128, ad: i128, bn: i128, bd: i128) -> (r: bool)
    requires
        num_ok(an as int),
        den_ok(ad as int),
        num_ok(bn as int),
        den_ok(bd as int),
    ensures
        r == (an as int * (bd as int) < bn as int * (ad as int)),
{
    proof {
        assert(an as int * (bd as int) <= 170141183460469231731687303715884105727 && an as int * (
        bd as int) >= -170141183460469231731687303715884105727 && bn as int * (ad as int)
            <= 170141183460469231731687303715884105727 && bn as int * (ad as int)
            >= -170141183460469231731687303715884105727) by (nonlinear_arith)
            requires
                num_ok(an as int),
                den_ok(ad as int),
                num_ok(bn as int),
                den_ok(bd as int),
        ;
    }
    an * bd < bn * ad
}

/// Converts a rational parameter with positive denominator to the nearest
/// not-farther fixed-point scalar (truncation toward zero, clipped).
pub(crate) fn frac_to_fx(nn: i128, nd: i128) -> (r: Fx)
    requires
        num_ok(nn as int),
        den_ok(nd as int),
    ensures
        r.raw as int == crate::fx::clip(crate::fx::tdiv(nn as int * (FX_ONE as int), nd as int)),
{
    let neg = nn < 0;
    let m: u128 = if nn < 0 {
        (-nn) as u128
    } else {
        nn as u128
    };
    proof {
        assert(m as int * (FX_ONE as int) <= 9223372036854775808 * (FX_ONE as int))
            by (nonlinear_arith)
            requires
                m as int <= 9223372036854775808,
        ;
    }
    let p: u128 = m * (FX_ONE as u128);
    let q: u128 = p / (nd as u128);
    proof {
        if neg {
            assert(nn as int * (FX_ONE as int) == -(p as int));
            assert(crate::fx::tdiv(nn as int * (FX_ONE as int), nd as int) == -(q as int));
        } else {
            assert(nn as int * (FX_ONE as int) == p as int);
            assert(crate::fx::tdiv(nn as int * (FX_ONE as int), nd as int) == q as int);
        }
    }
    let raw = if q > (crate::fx::FX_INF_RAW as u128) {
        if neg {
            -crate::fx::FX_INF_RAW
        } else {
            crate::fx::FX_INF_RAW
        }
    } else {
        if neg {
            -(q as i64)
        } else {
            q as i64
        }
    };
    Fx { raw }
}

/// Union of boxes is idempotent: `a` joined with itself is `a`.
pub proof fn lemma_union_idempotent(a: BoundingBox)
    ensures
        a.sunion(a) == a,
{
}

/// Union of boxes is commutative.
pub proof fn lemma_union_commutative(a: BoundingBox, b: BoundingBox)
    ensures
        a.sunion(b) == b.sunion(a),
{
}

/// A union contains both of its arguments.
pub proof fn lemma_union_contains(a: BoundingBox, b: BoundingBox)
    ensures
        a.sunion(b).scontains(a),
        a.sunion(b).scontains(b),
{
}

/// Union with a contained box changes nothing.
pub proof fn lemma_union_absorb(a: BoundingBox, b: BoundingBox)
    requires
        a.scontains(b),
    ensures
        a.sunion(b) == a,
{
}

/// Containment of boxes is transitive.
pub proof fn lemma_contains_trans(a: BoundingBox, b: BoundingBox, c: BoundingBox)
    requires
        a.scontains(b),
        b.scontains(c),
    ensures
        a.scontains(c),
{
}

/// A ray that hits a box also hits every box containing it, under the same
/// distance cap.
pub proof fn lemma_hits_mono_box(big: BoundingBox, small: BoundingBox, ray: Ray, max: Fx)
    requires
        big.scontains(small),
        small.shits_ray(ray, max),
    ensures
        big.shits_ray(ray, max),
{
    let (tn, td) = choose|tn: int, td: int| small.shits_at(ray, max, tn, td);
    lemma_slab_relax(
        big.axis_min(0),
        big.axis_max(0),
        small.axis_min(0),
        small.axis_max(0),
        axis_origin(ray, 0),
        axis_dir(ray, 0),
        tn,
        td,
    );
    lemma_slab_relax(
        big.axis_min(1),
        big.axis_max(1),
        small.axis_min(1),
        small.axis_max(1),
        axis_origin(ray, 1),
        axis_dir(ray, 1),
        tn,
        td,
    );
    lemma_slab_relax(
        big.axis_min(2),
        big.axis_max(2),
        small.axis_min(2),
        small.axis_max(2),
        axis_origin(ray, 2),
        axis_dir(ray, 2),
        tn,
        td,
    );
    assert(big.shits_at(ray, max, tn, td));
}

proof fn lemma_slab_relax(
    blo: int,
    bhi: int,
    slo: int,
    shi: int,
    o: int,
    d: int,
    tn: int,
    td: int,
)
    requires
        blo <= slo,
        bhi >= shi,
        td >= 1,
        slab_ok(slo, shi, o, d, tn, td),
    ensures
        slab_ok(blo, bhi, o, d, tn, td),
{
    assert(blo * td <= slo * td && shi * td <= bhi * td) by (nonlinear_arith)
        requires
            blo <= slo,
            shi <= bhi,
            td >= 1,
    ;
}

/// A point of the ray at the fixed-point parameter `t` inside the box is a
/// witness for the slab test at any cap of at least `t`.
pub proof fn lemma_point_in_box_hits(b: BoundingBox, ray: Ray, t: Fx, max: Fx)
    requires
        b.spoint_in_at(ray, t),
        0 <= t.raw,
        t.raw <= max.raw,
    ensures
        b.shits_ray(ray, max),
{
    assert(t.raw as int * (FX_ONE as int) <= max.raw * (FX_ONE as int)) by (nonlinear_arith)
        requires
            t.raw <= max.raw,
    ;
    assert(b.shits_at(ray, max, t.raw as int, FX_ONE as int));
}

} // verus!
