use vstd::prelude::*;
use crate::fx::Fx;

verus! {

/// A three-component vector of fixed-point scalars.
#[derive(Clone, Copy, Debug, PartialEq, Eq, Structural)]
pub struct Vec3 {
    pub x: Fx,
    pub y: Fx,
    pub z: Fx,
}

/// A point in space, kept apart from `Vec3` so that the affine distinction of
/// the algebra layer (point + vector = point, point - point = vector) shows in
/// the types.
#[derive(Clone, Copy, Debug, PartialEq, Eq, Structural)]
pub struct Point3 {
    pub x: Fx,
    pub y: Fx,
    pub z: Fx,
}

impl Vec3 {
    pub open spec fn bounded(self) -> bool {
        self.x.bounded() && self.y.bounded() && self.z.bounded()
    }

    pub open spec fn sadd(self, o: Vec3) -> Vec3 {
        Vec3 { x: self.x.sadd(o.x), y: self.y.sadd(o.y), z: self.z.sadd(o.z) }
    }

    pub open spec fn ssub(self, o: Vec3) -> Vec3 {
        Vec3 { x: self.x.ssub(o.x), y: self.y.ssub(o.y), z: self.z.ssub(o.z) }
    }

    pub open spec fn sneg(self) -> Vec3 {
        Vec3 { x: self.x.sneg(), y: self.y.sneg(), z: self.z.sneg() }
    }

    pub open spec fn sscale(self, s: Fx) -> Vec3 {
        Vec3 { x: self.x.smul(s), y: self.y.smul(s), z: self.z.smul(s) }
    }

    pub open spec fn sdot(self, o: Vec3) -> Fx {
        self.x.smul(o.x).sadd(self.y.smul(o.y)).sadd(self.z.smul(o.z))
    }

    pub open spec fn scross(self, o: Vec3) -> Vec3 {
        Vec3 {
            x: self.y.smul(o.z).ssub(self.z.smul(o.y)),
            y: self.z.smul(o.x).ssub(self.x.smul(o.z)),
            z: self.x.smul(o.y).ssub(self.y.smul(o.x)),
        }
    }

    pub open spec fn smagnitude_squared(self) -> Fx {
        self.sdot(self)
    }

    pub open spec fn smagnitude(self) -> Fx {
        self.smagnitude_squared().ssqrt()
    }

    /// The vector divided by its magnitude; a vector whose magnitude
    /// truncates to zero is returned unchanged.
    pub open spec fn snormalize(self) -> Vec3 {
        let m = self.smagnitude();
        if m.raw == 0 {
            self
        } else {
            Vec3 { x: self.x.sdiv(m), y: self.y.sdiv(m), z: self.z.sdiv(m) }
        }
    }

    pub fn new(x: Fx, y: Fx, z: Fx) -> (r: Vec3)
        ensures
            r == (Vec3 { x, y, z }),
    {
        Vec3 { x, y, z }
    }

    pub fn zeros() -> (r: Vec3)
        ensures
            r.x.raw == 0 && r.y.raw == 0 && r.z.raw == 0,
    {
        Vec3 { x: Fx::zero(), y: Fx::zero(), z: Fx::zero() }
    }

    pub fn add(self, o: Vec3) -> (r: Vec3)
        ensures
            r == self.sadd(o),
    {
        Vec3 { x: self.x.add(o.x), y: self.y.add(o.y), z: self.z.add(o.z) }
    }

    pub fn sub(self, o: Vec3) -> (r: Vec3)
        ensures
            r == self.ssub(o),
    {
        Vec3 { x: self.x.sub(o.x), y: self.y.sub(o.y), z: self.z.sub(o.z) }
    }

    pub fn neg(self) -> (r: Vec3)
        ensures
            r == self.sneg(),
    {
        Vec3 { x: self.x.neg(), y: self.y.neg(), z: self.z.neg() }
    }

    pub fn scale(self, s: Fx) -> (r: Vec3)
        ensures
            r == self.sscale(s),
    {
        Vec3 { x: self.x.mul(s), y: self.y.mul(s), z: self.z.mul(s) }
    }

    pub fn dot(self, o: Vec3) -> (r: Fx)
        ensures
            r == self.sdot(o),
    {
        self.x.mul(o.x).add(self.y.mul(o.y)).add(self.z.mul(o.z))
    }

    pub fn cross(self, o: Vec3) -> (r: Vec3)
        ensures
            r == self.scross(o),
    {
        Vec3 {
            x: self.y.mul(o.z).sub(self.z.mul(o.y)),
            y: self.z.mul(o.x).sub(self.x.mul(o.z)),
            z: self.x.mul(o.y).sub(self.y.mul(o.x)),
        }
    }

    pub fn magnitude_squared(self) -> (r: Fx)
        ensures
            r == self.smagnitude_squared(),
    {
        self.dot(self)
    }

    pub fn magnitude(self) -> (r: Fx)
        ensures
            r == self.smagnitude(),
            r.raw >= 0,
    {
        let m2 = self.dot(self);
        proof {
            lemma_dot_self_nonneg(self);
        }
        m2.sqrt()
    }

    pub fn normalize(self) -> (r: Vec3)
        ensures
            r == self.snormalize(),
    {
        let m = self.magnitude();
        if m.raw == 0 {
            self
        } else {
            Vec3 { x: self.x.div(m), y: self.y.div(m), z: self.z.div(m) }
        }
    }

    /// Componentwise division by a scalar; a zero divisor leaves the vector
    /// unchanged (its frame is singular and rejected upstream).
    pub open spec fn sdiv_scalar(self, s: Fx) -> Vec3 {
        if s.raw == 0 {
            self
        } else {
            Vec3 { x: self.x.sdiv(s), y: self.y.sdiv(s), z: self.z.sdiv(s) }
        }
    }

    pub fn div_scalar(self, s: Fx) -> (r: Vec3)
        ensures
            r == self.sdiv_scalar(s),
    {
        if s.raw == 0 {
            self
        } else {
            Vec3 { x: self.x.div(s), y: self.y.div(s), z: self.z.div(s) }
        }
    }

    /// Cosine of the angle between the vectors, by way of the truncated
    /// magnitudes; a degenerate (zero-magnitude) pair yields zero.
    pub open spec fn scos_angle(self, o: Vec3) -> Fx {
        let d = self.smagnitude().smul(o.smagnitude());
        if d.raw == 0 {
            Fx { raw: 0 }
        } else {
            self.sdot(o).sdiv(d)
        }
    }

    pub fn cos_angle(self, o: Vec3) -> (r: Fx)
        ensures
            r == self.scos_angle(o),
    {
        let d = self.magnitude().mul(o.magnitude());
        if d.raw == 0 {
            Fx::zero()
        } else {
            self.dot(o).div(d)
        }
    }

    /// A normalized vector orthogonal to `self`, built from the world axis
    /// with the smallest absolute component to avoid near-parallelism.
    pub fn perpendicular(self) -> (r: Vec3)
        ensures
            r == self.sperpendicular(),
    {
        let ax = self.x.abs();
        let ay = self.y.abs();
        let az = self.z.abs();
        if ax.raw < ay.raw && ax.raw < az.raw {
            Vec3::new(Fx::one(), Fx::zero(), Fx::zero()).cross(self).normalize()
        } else if ay.raw < az.raw {
            Vec3::new(Fx::zero(), Fx::one(), Fx::zero()).cross(self).normalize()
        } else {
            Vec3::new(Fx::zero(), Fx::zero(), Fx::one()).cross(self).normalize()
        }
    }

    pub open spec fn sperpendicular(self) -> Vec3 {
        let one = Fx { raw: crate::fx::FX_ONE };
        let zero = Fx { raw: 0 };
        let ax = self.x.sabs();
        let ay = self.y.sabs();
        let az = self.z.sabs();
        if ax.raw < ay.raw && ax.raw < az.raw {
            (Vec3 { x: one, y: zero, z: zero }).scross(self).snormalize()
        } else if ay.raw < az.raw {
            (Vec3 { x: zero, y: one, z: zero }).scross(self).snormalize()
        } else {
            (Vec3 { x: zero, y: zero, z: one }).scross(self).snormalize()
        }
    }
}

/// Componentwise minimum and maximum of points, as the bounding boxes use
/// them.
pub trait Point3Ops: Sized {
    spec fn spec_min(&self, other: &Self) -> Self;

    spec fn spec_max(&self, other: &Self) -> Self;

    fn min(&self, other: &Self) -> (r: Self)
        ensures
            r == self.spec_min(other),
    ;

    fn max(&self, other: &Self) -> (r: Self)
        ensures
            r == self.spec_max(other),
    ;
}

impl Point3Ops for Point3 {
    open spec fn spec_min(&self, other: &Self) -> Self {
        Point3 { x: self.x.smin(other.x), y: self.y.smin(other.y), z: self.z.smin(other.z) }
    }

    open spec fn spec_max(&self, other: &Self) -> Self {
        Point3 { x: self.x.smax(other.x), y: self.y.smax(other.y), z: self.z.smax(other.z) }
    }

    fn min(&self, other: &Self) -> (r: Self) {
        Point3 { x: self.x.min(other.x), y: self.y.min(other.y), z: self.z.min(other.z) }
    }

    fn max(&self, other: &Self) -> (r: Self) {
        Point3 { x: self.x.max(other.x), y: self.y.max(other.y), z: self.z.max(other.z) }
    }
}

impl Point3 {
    pub open spec fn bounded(self) -> bool {
        self.x.bounded() && self.y.bounded() && self.z.bounded()
    }

    pub open spec fn sadd_vec(self, v: Vec3) -> Point3 {
        Point3 { x: self.x.sadd(v.x), y: self.y.sadd(v.y), z: self.z.sadd(v.z) }
    }

    pub open spec fn ssub_point(self, o: Point3) -> Vec3 {
        Vec3 { x: self.x.ssub(o.x), y: self.y.ssub(o.y), z: self.z.ssub(o.z) }
    }

    pub open spec fn scoords(self) -> Vec3 {
        Vec3 { x: self.x, y: self.y, z: self.z }
    }

    pub fn new(x: Fx, y: Fx, z: Fx) -> (r: Point3)
        ensures
            r == (Point3 { x, y, z }),
    {
        Point3 { x, y, z }
    }

    pub fn origin() -> (r: Point3)
        ensures
            r.x.raw == 0 && r.y.raw == 0 && r.z.raw == 0,
    {
        Point3 { x: Fx::zero(), y: Fx::zero(), z: Fx::zero() }
    }

    pub fn add_vec(self, v: Vec3) -> (r: Point3)
        ensures
            r == self.sadd_vec(v),
    {
        Point3 { x: self.x.add(v.x), y: self.y.add(v.y), z: self.z.add(v.z) }
    }

    pub fn sub_point(self, o: Point3) -> (r: Vec3)
        ensures
            r == self.ssub_point(o),
    {
        Vec3 { x: self.x.sub(o.x), y: self.y.sub(o.y), z: self.z.sub(o.z) }
    }

    /// The point's coordinates as a vector from the origin.
    pub fn coords(self) -> (r: Vec3)
        ensures
            r == self.scoords(),
    {
        Vec3 { x: self.x, y: self.y, z: self.z }
    }
}

/// A ray: an origin and a direction. The tracer keeps world-ray directions
/// normalized; local-space rays carry unnormalized directions.
#[derive(Clone, Copy, Debug, PartialEq, Eq, Structural)]
pub struct Ray {
    pub origin: Point3,
    pub direction: Vec3,
}

impl Ray {
    pub open spec fn bounded(self) -> bool {
        self.origin.bounded() && self.direction.bounded()
    }

    pub open spec fn sat(self, distance: Fx) -> Point3 {
        self.origin.sadd_vec(self.direction.sscale(distance))
    }

    /// The direction the ray `self` takes after a mirror bounce off a surface
    /// with normal `normal`: `d - 2 (d . n) n`, renormalized.
    pub open spec fn sreflect(self, normal: Vec3) -> Ray {
        let two = Fx { raw: (2 * crate::fx::FX_ONE) as i64 };
        let d = self.direction.ssub(normal.sscale(two).sscale(self.direction.sdot(normal)));
        Ray { origin: self.origin, direction: d.snormalize() }
    }

    pub fn new(origin: Point3, direction: Vec3) -> (r: Ray)
        ensures
            r == (Ray { origin, direction }),
    {
        Ray { origin, direction }
    }

    pub fn normalized(origin: Point3, direction: Vec3) -> (r: Ray)
        ensures
            r == (Ray { origin, direction: direction.snormalize() }),
    {
        Ray { origin, direction: direction.normalize() }
    }

    pub fn at(&self, distance: Fx) -> (r: Point3)
        ensures
            r == self.sat(distance),
    {
        self.origin.add_vec(self.direction.scale(distance))
    }

    pub fn reflect(&self, normal: Vec3) -> (r: Ray)
        ensures
            r == self.sreflect(normal),
    {
        let two = Fx::from_int(2);
        let d = self.direction.sub(normal.scale(two).scale(self.direction.dot(normal)));
        Ray::normalized(self.origin, d)
    }
}

/// Normalizing keeps a bounded vector bounded: either the vector is
/// returned unchanged, or each component is a clipped quotient.
pub proof fn lemma_normalize_bounded(v: Vec3)
    requires
        v.bounded(),
    ensures
        v.snormalize().bounded(),
{
}

/// A vector's dot product with itself never truncates to a negative value.
pub proof fn lemma_dot_self_nonneg(v: Vec3)
    ensures
        v.sdot(v).raw >= 0,
{
    crate::fx::lemma_square_nonneg(v.x);
    crate::fx::lemma_square_nonneg(v.y);
    crate::fx::lemma_square_nonneg(v.z);
}

/// Mirror reflection is an involution: reflecting a reflected direction gives
/// the original direction back. Stated exactly over the underlying integers,
/// with no rounding: scaling by `nn = n . n` (the square of the normal's
/// magnitude, `1` for a unit normal) keeps every term integral, and two
/// reflections return the direction scaled by `nn` squared.
pub proof fn lemma_reflect_involution(
    dx: int,
    dy: int,
    dz: int,
    nx: int,
    ny: int,
    nz: int,
)
    ensures
        ({
            let nn = nx * nx + ny * ny + nz * nz;
            let dot1 = dx * nx + dy * ny + dz * nz;
            let rx = dx * nn - 2 * dot1 * nx;
            let ry = dy * nn - 2 * dot1 * ny;
            let rz = dz * nn - 2 * dot1 * nz;
            let dot2 = rx * nx + ry * ny + rz * nz;
            rx * nn - 2 * dot2 * nx == dx * nn * nn && ry * nn - 2 * dot2 * ny == dy * nn * nn
                && rz * nn - 2 * dot2 * nz == dz * nn * nn
        }),
{
    let nn = nx * nx + ny * ny + nz * nz;
    let dot1 = dx * nx + dy * ny + dz * nz;
    let rx = dx * nn - 2 * dot1 * nx;
    let ry = dy * nn - 2 * dot1 * ny;
    let rz = dz * nn - 2 * dot1 * nz;
    let dot2 = rx * nx + ry * ny + rz * nz;
    assert(rx * nx == dx * nx * nn - 2 * dot1 * (nx * nx)) by (nonlinear_arith)
        requires
            rx == dx * nn - 2 * dot1 * nx,
    ;
    assert(ry * ny == dy * ny * nn - 2 * dot1 * (ny * ny)) by (nonlinear_arith)
        requires
            ry == dy * nn - 2 * dot1 * ny,
    ;
    assert(rz * nz == dz * nz * nn - 2 * dot1 * (nz * nz)) by (nonlinear_arith)
        requires
            rz == dz * nn - 2 * dot1 * nz,
    ;
    assert(dx * nx * nn + dy * ny * nn + dz * nz * nn == dot1 * nn) by (nonlinear_arith)
        requires
            dot1 == dx * nx + dy * ny + dz * nz,
    ;
    assert(2 * dot1 * (nx * nx) + 2 * dot1 * (ny * ny) + 2 * dot1 * (nz * nz) == 2 * dot1 * nn)
        by (nonlinear_arith)
        requires
            nn == nx * nx + ny * ny + nz * nz,
    ;
    assert(dot2 == dot1 * nn - 2 * dot1 * nn);
    assert(dot1 * nn - 2 * dot1 * nn == -(dot1 * nn)) by (nonlinear_arith);
    assert(dot2 == -(dot1 * nn));
    assert(rx * nn - 2 * dot2 * nx == dx * nn * nn) by (nonlinear_arith)
        requires
            rx == dx * nn - 2 * dot1 * nx,
            dot2 == -(dot1 * nn),
    ;
    assert(ry * nn - 2 * dot2 * ny == dy * nn * nn) by (nonlinear_arith)
        requires
            ry == dy * nn - 2 * dot1 * ny,
            dot2 == -(dot1 * nn),
    ;
    assert(rz * nn - 2 * dot2 * nz == dz * nn * nn) by (nonlinear_arith)
        requires
            rz == dz * nn - 2 * dot1 * nz,
            dot2 == -(dot1 * nn),
    ;
}

} // verus!
