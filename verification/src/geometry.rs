use vstd::prelude::*;
use crate::fx::{Fx, FX_ONE, FX_INF_RAW};
use crate::algebra::{Point3, Ray, Vec3};
use crate::bounding::{saxis, frac_to_fx, BoundingBox};
use crate::trig::FX_TWO_PI_RAW;

verus! {

/// Texture coordinates on a surface.
pub type TextureCoords = (Fx, Fx);

/// What a geometry reports about a hit: the position, the outward unit
/// normal, and the texture coordinates there.
#[derive(Clone, Copy, Debug)]
pub struct HitResult {
    pub position: Point3,
    pub normal: Vec3,
    pub coords: TextureCoords,
}

/// Everything that can report an axis-aligned bounding box.
pub trait Bounded {
    spec fn spec_bounding_box(&self) -> BoundingBox;

    fn bounding_box(&self) -> (r: BoundingBox)
        ensures
            r == self.spec_bounding_box(),
    ;
}

/// The unit sphere at the origin of its local frame.
#[derive(Clone, Copy, Debug, PartialEq, Eq, Structural)]
pub struct Sphere {}

/// The canonical axis-aligned cube spanning one unit around the origin.
#[derive(Clone, Copy, Debug, PartialEq, Eq, Structural)]
pub struct Cube {}

/// The infinite horizontal plane through the origin, with its normal up.
#[derive(Clone, Copy, Debug, PartialEq, Eq, Structural)]
pub struct Plane {}

/// Below this magnitude a direction component counts as parallel to the
/// plane.
pub const PLANE_EPS_RAW: i64 = 4295;

impl Sphere {
    pub fn new() -> (r: Sphere)
        ensures
            r == (Sphere {  }),
    {
        Sphere {  }
    }

    /// The smallest positive root of `|o + t d|^2 = 1`, through the stable
    /// form `tca = -o.d / |d|^2`, `d2 = |o|^2 - tca^2 |d|^2`. A degenerate
    /// direction is a miss.
    pub open spec fn sdistance(ray: Ray) -> Option<Fx> {
        let o = ray.origin.scoords();
        let d = ray.direction;
        let dls = d.sdot(d);
        if dls.raw <= 0 {
            None
        } else {
            let tca = o.sdot(d).sneg().sdiv(dls);
            let d2 = o.sdot(o).ssub(tca.smul(tca).smul(dls));
            if d2.raw > FX_ONE {
                None
            } else {
                let thc = Fx { raw: FX_ONE }.ssub(d2).sdiv(dls).ssqrt();
                let t0 = tca.ssub(thc);
                let t1 = tca.sadd(thc);
                if t0.raw > 0 {
                    Some(t0)
                } else if t1.raw > 0 {
                    Some(t1)
                } else {
                    None
                }
            }
        }
    }

    pub fn distance(&self, ray: &Ray) -> (r: Option<Fx>)
        ensures
            r == Sphere::sdistance(*ray),
    {
        let o = ray.origin.coords();
        let d = ray.direction;
        let dls = d.dot(d);
        if dls.raw <= 0 {
            return None;
        }
        let tca = o.dot(d).neg().div(dls);
        let d2 = o.dot(o).sub(tca.mul(tca).mul(dls));
        if d2.raw > FX_ONE {
            return None;
        }
        let inner = Fx::one().sub(d2);
        proof {
            crate::fx::lemma_sdiv_nonneg(inner, dls);
        }
        let thc = inner.div(dls).sqrt();
        let t0 = tca.sub(thc);
        let t1 = tca.add(thc);
        if t0.raw > 0 {
            Some(t0)
        } else if t1.raw > 0 {
            Some(t1)
        } else {
            None
        }
    }

    /// Spherical texture coordinates of a point on the unit sphere.
    pub open spec fn stexture_coords(p: Point3) -> TextureCoords {
        let half = Fx { raw: (FX_ONE / 2) as i64 };
        let two_pi = Fx { raw: FX_TWO_PI_RAW };
        let pi = Fx { raw: crate::fx::FX_PI_RAW };
        (half.sadd(p.z.satan2(p.x).sdiv(two_pi)), half.ssub(p.y.sasin().sdiv(pi)))
    }

    fn texture_coords(&self, hit_position: &Point3) -> (r: TextureCoords)
        ensures
            r == Sphere::stexture_coords(*hit_position),
    {
        let half = Fx::from_raw(FX_ONE / 2);
        let two_pi = Fx { raw: FX_TWO_PI_RAW };
        let pi = Fx::pi();
        let u = half.add(hit_position.z.atan2(hit_position.x).div(two_pi));
        let v = half.sub(hit_position.y.asin().div(pi));
        (u, v)
    }

    pub open spec fn shit(ray: Ray, distance: Fx) -> HitResult {
        let position = ray.sat(distance);
        HitResult {
            position,
            normal: position.scoords().snormalize(),
            coords: Sphere::stexture_coords(position),
        }
    }

    pub fn hit(&self, ray: &Ray, distance: Fx) -> (r: HitResult)
        ensures
            r == Sphere::shit(*ray, distance),
    {
        let position = ray.at(distance);
        HitResult {
            position,
            normal: position.coords().normalize(),
            coords: self.texture_coords(&position),
        }
    }
}

impl Bounded for Sphere {
    open spec fn spec_bounding_box(&self) -> BoundingBox {
        BoundingBox {
            min: Point3 {
                x: Fx { raw: (-FX_ONE) as i64 },
                y: Fx { raw: (-FX_ONE) as i64 },
                z: Fx { raw: (-FX_ONE) as i64 },
            },
            max: Point3 { x: Fx { raw: FX_ONE }, y: Fx { raw: FX_ONE }, z: Fx { raw: FX_ONE } },
        }
    }

    fn bounding_box(&self) -> (r: BoundingBox) {
        let one = Fx::one();
        let neg_one = Fx { raw: -FX_ONE };
        BoundingBox::new(
            Point3::new(neg_one, neg_one, neg_one),
            Point3::new(one, one, one),
        )
    }
}

impl Cube {
    pub fn new() -> (r: Cube)
        ensures
            r == (Cube {  }),
    {
        Cube {  }
    }

    /// The slab test of the canonical cube: the entry parameter of the ray,
    /// when it is positive and the ray truly passes through the volume
    /// (touching only the surface counts as a miss, as does an entry behind
    /// the origin).
    pub open spec fn sdistance(ray: Ray) -> Option<Fx> {
        let lo = (-(FX_ONE / 2)) as int;
        let hi = (FX_ONE / 2) as int;
        let big = 9223372036854775808int;
        let s1 = saxis(
            lo,
            hi,
            ray.origin.x.raw as int,
            ray.direction.x.raw as int,
            -big,
            1,
            big,
            1,
        );
        let s2 = saxis(lo, hi, ray.origin.y.raw as int, ray.direction.y.raw as int, s1.1, s1.2, s1.3, s1.4);
        let s3 = saxis(lo, hi, ray.origin.z.raw as int, ray.direction.z.raw as int, s2.1, s2.2, s2.3, s2.4);
        if !s1.0 || !s2.0 || !s3.0 {
            None
        } else if !(s3.1 * s3.4 < s3.3 * s3.2) {
            None
        } else if s3.1 <= 0 {
            None
        } else {
            Some(Fx { raw: crate::fx::clip(crate::fx::tdiv(s3.1 * (FX_ONE as int), s3.2)) as i64 })
        }
    }

    pub fn distance(&self, ray: &Ray) -> (r: Option<Fx>)
        requires
            ray.bounded(),
        ensures
            r == Cube::sdistance(*ray),
    {
        let lo: i64 = -(FX_ONE / 2);
        let hi: i64 = FX_ONE / 2;
        let big: i128 = 9223372036854775808;
        let (ok1, nn1, nd1, fn1, fd1) = crate::bounding::slab_axis(
            lo,
            hi,
            ray.origin.x.raw,
            ray.direction.x.raw,
            -big,
            1,
            big,
            1,
        );
        if !ok1 {
            return None;
        }
        let (ok2, nn2, nd2, fn2, fd2) = crate::bounding::slab_axis(
            lo,
            hi,
            ray.origin.y.raw,
            ray.direction.y.raw,
            nn1,
            nd1,
            fn1,
            fd1,
        );
        if !ok2 {
            return None;
        }
        let (ok3, nn3, nd3, fn3, fd3) = crate::bounding::slab_axis(
            lo,
            hi,
            ray.origin.z.raw,
            ray.direction.z.raw,
            nn2,
            nd2,
            fn2,
            fd2,
        );
        if !ok3 {
            return None;
        }
        if !crate::bounding::frac_lt(nn3, nd3, fn3, fd3) {
            return None;
        }
        if nn3 <= 0 {
            return None;
        }
        Some(frac_to_fx(nn3, nd3))
    }

    /// The outward normal of the cube face whose axis dominates the hit
    /// position, carrying that component's sign; the first axis wins ties.
    pub open spec fn snormal_at(p: Point3) -> Vec3 {
        let zero = Fx { raw: 0 };
        let ax = p.x.sabs();
        let ay = p.y.sabs();
        let az = p.z.sabs();
        if ay.raw > ax.raw {
            if az.raw > ay.raw {
                Vec3 { x: zero, y: zero, z: p.z.ssignum() }
            } else {
                Vec3 { x: zero, y: p.y.ssignum(), z: zero }
            }
        } else {
            if az.raw > ax.raw {
                Vec3 { x: zero, y: zero, z: p.z.ssignum() }
            } else {
                Vec3 { x: p.x.ssignum(), y: zero, z: zero }
            }
        }
    }

    fn normal_at(&self, hit_position: &Point3) -> (r: Vec3)
        ensures
            r == Cube::snormal_at(*hit_position),
    {
        let zero = Fx::zero();
        let ax = hit_position.x.abs();
        let ay = hit_position.y.abs();
        let az = hit_position.z.abs();
        if ay.raw > ax.raw {
            if az.raw > ay.raw {
                Vec3::new(zero, zero, hit_position.z.signum())
            } else {
                Vec3::new(zero, hit_position.y.signum(), zero)
            }
        } else {
            if az.raw > ax.raw {
                Vec3::new(zero, zero, hit_position.z.signum())
            } else {
                Vec3::new(hit_position.x.signum(), zero, zero)
            }
        }
    }

    /// Cube texture coordinates are a placeholder: the canonical cube
    /// reports the same coordinates for every hit.
    pub open spec fn shit(ray: Ray, distance: Fx) -> HitResult {
        let position = ray.sat(distance);
        HitResult {
            position,
            normal: Cube::snormal_at(position),
            coords: (Fx { raw: 0 }, Fx { raw: 0 }),
        }
    }

    pub fn hit(&self, ray: &Ray, distance: Fx) -> (r: HitResult)
        ensures
            r == Cube::shit(*ray, distance),
    {
        let position = ray.at(distance);
        HitResult {
            position,
            normal: self.normal_at(&position),
            coords: (Fx::zero(), Fx::zero()),
        }
    }
}

impl Bounded for Cube {
    open spec fn spec_bounding_box(&self) -> BoundingBox {
        let h = Fx { raw: (FX_ONE / 2) as i64 };
        let nh = Fx { raw: (-(FX_ONE / 2)) as i64 };
        BoundingBox { min: Point3 { x: nh, y: nh, z: nh }, max: Point3 { x: h, y: h, z: h } }
    }

    fn bounding_box(&self) -> (r: BoundingBox) {
        let h = Fx::from_raw(FX_ONE / 2);
        let nh = Fx::from_raw(-(FX_ONE / 2));
        BoundingBox::new(Point3::new(nh, nh, nh), Point3::new(h, h, h))
    }
}

impl Plane {
    pub fn new() -> (r: Plane)
        ensures
            r == (Plane {  }),
    {
        Plane {  }
    }

    /// The plane's outward normal.
    pub fn normal() -> (r: Vec3)
        ensures
            r == Plane::snormal(),
    {
        Vec3::new(Fx::zero(), Fx::one(), Fx::zero())
    }

    pub open spec fn snormal() -> Vec3 {
        Vec3 { x: Fx { raw: 0 }, y: Fx { raw: FX_ONE }, z: Fx { raw: 0 } }
    }

    /// The parameter where the ray meets `y = 0`: a miss when the ray runs
    /// (nearly) parallel to the plane or meets it behind its origin.
    pub open spec fn sdistance(ray: Ray) -> Option<Fx> {
        let denom = ray.direction.y;
        if denom.sabs().raw < PLANE_EPS_RAW {
            None
        } else {
            let t = ray.origin.y.sneg().sdiv(denom);
            if t.raw < 0 {
                None
            } else {
                Some(t)
            }
        }
    }

    pub fn distance(&self, ray: &Ray) -> (r: Option<Fx>)
        ensures
            r == Plane::sdistance(*ray),
    {
        let denom = ray.direction.y;
        if denom.abs().raw < PLANE_EPS_RAW {
            return None;
        }
        let t = ray.origin.y.neg().div(denom);
        if t.raw < 0 {
            None
        } else {
            Some(t)
        }
    }

    /// Planar texture coordinates: the hit's x and z.
    pub open spec fn suv_coordinates(p: Point3) -> TextureCoords {
        (p.x, p.z)
    }

    pub open spec fn shit(ray: Ray, distance: Fx) -> HitResult {
        let position = ray.sat(distance);
        HitResult {
            position,
            normal: Plane::snormal(),
            coords: Plane::suv_coordinates(position),
        }
    }

    pub fn hit(&self, ray: &Ray, distance: Fx) -> (r: HitResult)
        ensures
            r == Plane::shit(*ray, distance),
    {
        let position = ray.at(distance);
        HitResult { position, normal: Plane::normal(), coords: (position.x, position.z) }
    }
}

impl Bounded for Plane {
    open spec fn spec_bounding_box(&self) -> BoundingBox {
        BoundingBox {
            min: Point3 {
                x: Fx { raw: (-FX_INF_RAW) as i64 },
                y: Fx { raw: 0 },
                z: Fx { raw: (-FX_INF_RAW) as i64 },
            },
            max: Point3 { x: Fx { raw: FX_INF_RAW }, y: Fx { raw: 0 }, z: Fx { raw: FX_INF_RAW } },
        }
    }

    fn bounding_box(&self) -> (r: BoundingBox) {
        BoundingBox::new(
            Point3::new(Fx::neg_infinity(), Fx::zero(), Fx::neg_infinity()),
            Point3::new(Fx::infinity(), Fx::zero(), Fx::infinity()),
        )
    }
}

/// A canonical-space shape: the tag dispatches the local geometry.
#[derive(Clone, Copy, Debug, PartialEq, Eq, Structural)]
pub enum Geometry {
    Sphere(Sphere),
    Cube(Cube),
    Plane(Plane),
}

impl Geometry {
    pub open spec fn sdistance(self, ray: Ray) -> Option<Fx> {
        match self {
            Geometry::Sphere(_) => Sphere::sdistance(ray),
            Geometry::Cube(_) => Cube::sdistance(ray),
            Geometry::Plane(_) => Plane::sdistance(ray),
        }
    }

    pub fn distance(&self, ray: &Ray) -> (r: Option<Fx>)
        requires
            ray.bounded(),
        ensures
            r == self.sdistance(*ray),
    {
        match self {
            Geometry::Sphere(s) => s.distance(ray),
            Geometry::Cube(c) => c.distance(ray),
            Geometry::Plane(p) => p.distance(ray),
        }
    }

    pub open spec fn shit(self, ray: Ray, distance: Fx) -> HitResult {
        match self {
            Geometry::Sphere(_) => Sphere::shit(ray, distance),
            Geometry::Cube(_) => Cube::shit(ray, distance),
            Geometry::Plane(_) => Plane::shit(ray, distance),
        }
    }

    pub fn hit(&self, ray: &Ray, distance: Fx) -> (r: HitResult)
        ensures
            r == self.shit(*ray, distance),
    {
        match self {
            Geometry::Sphere(s) => s.hit(ray, distance),
            Geometry::Cube(c) => c.hit(ray, distance),
            Geometry::Plane(p) => p.hit(ray, distance),
        }
    }
}

impl Bounded for Geometry {
    open spec fn spec_bounding_box(&self) -> BoundingBox {
        match *self {
            Geometry::Sphere(s) => s.spec_bounding_box(),
            Geometry::Cube(c) => c.spec_bounding_box(),
            Geometry::Plane(p) => p.spec_bounding_box(),
        }
    }

    fn bounding_box(&self) -> (r: BoundingBox) {
        match self {
            Geometry::Sphere(s) => s.bounding_box(),
            Geometry::Cube(c) => c.bounding_box(),
            Geometry::Plane(p) => p.bounding_box(),
        }
    }
}

} // verus!
