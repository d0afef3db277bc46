use vstd::prelude::*;
use crate::fx::{abs_int, Fx, FX_ONE, FX_INF_RAW};
use crate::algebra::{Point3, Point3Ops, Ray, Vec3};
use crate::bounding::BoundingBox;
use crate::geometry::{Bounded, Cube, Geometry, HitResult, Plane, Sphere, TextureCoords};
use crate::transform::{RenderError, Transform};

verus! {

/// A linear RGB color with fixed-point channels. Surface colors keep their
/// channels in `[0, 1]`; radiance accumulates unclamped until direct-light
/// accumulation and the final byte conversion clamp it.
#[derive(Clone, Copy, Debug, PartialEq, Eq, Structural)]
pub struct Color {
    pub r: Fx,
    pub g: Fx,
    pub b: Fx,
}

impl Color {
    pub open spec fn sblack() -> Color {
        Color { r: Fx { raw: 0 }, g: Fx { raw: 0 }, b: Fx { raw: 0 } }
    }

    pub open spec fn sscale(self, f: Fx) -> Color {
        Color { r: self.r.smul(f), g: self.g.smul(f), b: self.b.smul(f) }
    }

    pub open spec fn shadamard(self, o: Color) -> Color {
        Color { r: self.r.smul(o.r), g: self.g.smul(o.g), b: self.b.smul(o.b) }
    }

    pub open spec fn sadd(self, o: Color) -> Color {
        Color { r: self.r.sadd(o.r), g: self.g.sadd(o.g), b: self.b.sadd(o.b) }
    }

    /// Channelwise sum clamped to one, as direct lighting accumulates.
    pub open spec fn sadd_clamped(self, o: Color) -> Color {
        let one = Fx { raw: FX_ONE };
        Color {
            r: one.smin(self.r.sadd(o.r)),
            g: one.smin(self.g.sadd(o.g)),
            b: one.smin(self.b.sadd(o.b)),
        }
    }

    /// The blend of a diffuse and a reflected sample by the reflectivity.
    pub open spec fn smix(self, o: Color, reflectivity: Fx) -> Color {
        let one = Fx { raw: FX_ONE };
        let k = one.ssub(reflectivity);
        Color {
            r: self.r.smul(k).sadd(o.r.smul(reflectivity)),
            g: self.g.smul(k).sadd(o.g.smul(reflectivity)),
            b: self.b.smul(k).sadd(o.b.smul(reflectivity)),
        }
    }

    pub fn new(r: Fx, g: Fx, b: Fx) -> (c: Color)
        ensures
            c == (Color { r, g, b }),
    {
        Color { r, g, b }
    }

    pub fn black() -> (c: Color)
        ensures
            c == Color::sblack(),
    {
        Color { r: Fx::zero(), g: Fx::zero(), b: Fx::zero() }
    }

    pub fn scale(self, f: Fx) -> (c: Color)
        ensures
            c == self.sscale(f),
    {
        Color { r: self.r.mul(f), g: self.g.mul(f), b: self.b.mul(f) }
    }

    pub fn hadamard(self, o: Color) -> (c: Color)
        ensures
            c == self.shadamard(o),
    {
        Color { r: self.r.mul(o.r), g: self.g.mul(o.g), b: self.b.mul(o.b) }
    }

    pub fn add(self, o: Color) -> (c: Color)
        ensures
            c == self.sadd(o),
    {
        Color { r: self.r.add(o.r), g: self.g.add(o.g), b: self.b.add(o.b) }
    }

    pub fn add_clamped(self, o: Color) -> (c: Color)
        ensures
            c == self.sadd_clamped(o),
    {
        let one = Fx::one();
        Color {
            r: one.min(self.r.add(o.r)),
            g: one.min(self.g.add(o.g)),
            b: one.min(self.b.add(o.b)),
        }
    }

    pub fn mix(self, o: Color, reflectivity: Fx) -> (c: Color)
        ensures
            c == self.smix(o, reflectivity),
    {
        let k = Fx::one().sub(reflectivity);
        Color {
            r: self.r.mul(k).add(o.r.mul(reflectivity)),
            g: self.g.mul(k).add(o.g.mul(reflectivity)),
            b: self.b.mul(k).add(o.b.mul(reflectivity)),
        }
    }
}

/// How a surface answers light: its reflectivity in `[0, 1]`, an emission
/// color, and a refractive index where one means no refraction.
#[derive(Clone, Copy, Debug, PartialEq, Eq, Structural)]
pub struct Material {
    pub reflectivity: Fx,
    pub emission: Color,
    pub refractive: Fx,
}

impl Default for Material {
    /// The plain diffuse material: no reflection, no emission, no
    /// refraction.
    fn default() -> (r: Material)
        ensures
            r == (Material {
                reflectivity: Fx { raw: 0 },
                emission: Color::sblack(),
                refractive: Fx { raw: FX_ONE },
            }),
    {
        Material { reflectivity: Fx::zero(), emission: Color::black(), refractive: Fx::one() }
    }
}

/// A point on a surface: its albedo color and material.
#[derive(Clone, Copy, Debug, PartialEq, Eq, Structural)]
pub struct Surface {
    pub color: Color,
    pub material: Material,
}

impl Surface {
    pub fn new(color: Color, material: Material) -> (r: Surface)
        ensures
            r == (Surface { color, material }),
    {
        Surface { color, material }
    }
}

/// Two surfaces alternating on an integer lattice scaled in texture space.
#[derive(Clone, Copy, Debug, PartialEq, Eq, Structural)]
pub struct CheckerboardTexture {
    pub surface1: Surface,
    pub surface2: Surface,
    pub scale: Fx,
}

impl CheckerboardTexture {
    pub fn new(surface1: Surface, surface2: Surface, scale: Fx) -> (r: CheckerboardTexture)
        ensures
            r == (CheckerboardTexture { surface1, surface2, scale }),
    {
        CheckerboardTexture { surface1, surface2, scale }
    }

    /// The surface whose checker the coordinates land on: the parity of the
    /// floored scaled coordinates picks it.
    pub open spec fn ssurface_at(self, coords: TextureCoords) -> Surface {
        let fu = coords.0.smul(self.scale).sfloor();
        let fv = coords.1.smul(self.scale).sfloor();
        if abs_int(fu + fv) % 2 == 0 {
            self.surface1
        } else {
            self.surface2
        }
    }

    pub fn surface_at(&self, coords: TextureCoords) -> (r: Surface)
        ensures
            r == self.ssurface_at(coords),
    {
        let (u, v) = coords;
        let fu = u.mul(self.scale).floor_int();
        let fv = v.mul(self.scale).floor_int();
        let sum: i64 = fu + fv;
        let parity: u64 = if sum >= 0 {
            (sum as u64) % 2
        } else {
            ((-(sum as i128)) as u128 % 2) as u64
        };
        if parity == 0 {
            self.surface1
        } else {
            self.surface2
        }
    }
}

/// What covers an object: one surface everywhere, or a checkerboard.
#[derive(Clone, Copy, Debug, PartialEq, Eq, Structural)]
pub enum Texture {
    Solid(Surface),
    Checkerboard(CheckerboardTexture),
}

impl Texture {
    pub open spec fn ssurface_at(self, coords: TextureCoords) -> Surface {
        match self {
            Texture::Solid(s) => s,
            Texture::Checkerboard(c) => c.ssurface_at(coords),
        }
    }

    pub fn surface_at(&self, coords: TextureCoords) -> (r: Surface)
        ensures
            r == self.ssurface_at(coords),
    {
        match self {
            Texture::Solid(s) => *s,
            Texture::Checkerboard(c) => c.surface_at(coords),
        }
    }
}

/// A point light: a ray whose origin is the light's position, and a color.
#[derive(Clone, Copy, Debug, PartialEq, Eq, Structural)]
pub struct Light {
    pub ray: Ray,
    pub color: Color,
}

impl Light {
    pub fn new(ray: Ray, color: Color) -> (r: Light)
        ensures
            r == (Light { ray, color }),
    {
        Light { ray, color }
    }

    pub open spec fn stowards_direction(self, position: Point3) -> Vec3 {
        self.ray.origin.ssub_point(position)
    }

    /// The direction from a surface point to the light.
    pub fn towards_direction(&self, position: Point3) -> (r: Vec3)
        ensures
            r == self.stowards_direction(position),
    {
        self.ray.origin.sub_point(position)
    }

    pub open spec fn stowards(self, position: Point3) -> Ray {
        Ray { origin: position, direction: self.stowards_direction(position) }
    }

    /// The shadow ray from a surface point toward the light.
    pub fn towards(&self, position: Point3) -> (r: Ray)
        ensures
            r == self.stowards(position),
    {
        Ray::new(position, self.towards_direction(position))
    }

    /// The light's unshadowed contribution at a point with the given surface
    /// normal: its color weighted by the cosine of the incidence angle, or
    /// black when the light is behind the surface.
    pub open spec fn silluminate(self, position: Point3, normal: Vec3) -> Color {
        let fraction = self.stowards_direction(position).scos_angle(normal);
        if fraction.raw <= 0 {
            Color::sblack()
        } else {
            self.color.sscale(fraction)
        }
    }

    pub fn illuminate(&self, position: Point3, normal: Vec3) -> (r: Color)
        ensures
            r == self.silluminate(position, normal),
    {
        let direction_to_light = self.towards_direction(position);
        let fraction = direction_to_light.cos_angle(normal);
        if fraction.raw <= 0 {
            return Color::black();
        }
        self.color.scale(fraction)
    }
}

/// A placed primitive: its canonical geometry, its world placement, and its
/// texture.
#[derive(Clone, Copy, Debug)]
pub struct Object {
    pub geometry: Geometry,
    pub transform: Transform,
    pub texture: Texture,
}

impl Object {
    pub fn new(geometry: Geometry, transform: Transform, texture: &Texture) -> (r: Object)
        ensures
            r == (Object { geometry, transform, texture: *texture }),
    {
        Object { geometry, transform, texture: *texture }
    }

    /// A sphere of the given center and radius; a zero radius has no
    /// invertible placement and is rejected.
    pub fn sphere(center: Point3, radius: Fx, texture: &Texture) -> (r: Result<Object, RenderError>)
        ensures
            r is Ok <==> radius.raw != 0,
            r matches Ok(o) ==> o.geometry == Geometry::Sphere(Sphere {  }) && o.texture == *texture,
    {
        let t = Transform::new(
            Vec3::new(center.x, center.y, center.z),
            Vec3::zeros(),
            Vec3::new(radius, radius, radius),
        )?;
        Ok(Object::new(Geometry::Sphere(Sphere::new()), t, texture))
    }

    /// A cube of the given center and side length; a zero side length is
    /// rejected.
    pub fn cube(center: Point3, side_length: Fx, texture: &Texture) -> (r: Result<
        Object,
        RenderError,
    >)
        ensures
            r is Ok <==> side_length.raw != 0,
            r matches Ok(o) ==> o.geometry == Geometry::Cube(Cube {  }) && o.texture == *texture,
    {
        let t = Transform::new(
            Vec3::new(center.x, center.y, center.z),
            Vec3::zeros(),
            Vec3::new(side_length, side_length, side_length),
        )?;
        Ok(Object::new(Geometry::Cube(Cube::new()), t, texture))
    }

    /// A plane through the given point with the given normal.
    pub fn plane(point: Point3, normal: Vec3, texture: &Texture) -> (r: Result<Object, RenderError>)
        ensures
            r is Ok,
            r matches Ok(o) ==> o.geometry == Geometry::Plane(Plane {  }) && o.texture == *texture,
    {
        let t = Transform::new(
            Vec3::new(point.x, point.y, point.z),
            Transform::rotation_to(Plane::normal(), normal),
            Vec3::new(Fx::one(), Fx::one(), Fx::one()),
        )?;
        Ok(Object::new(Geometry::Plane(Plane::new()), t, texture))
    }

    pub fn surface_at(&self, hr: &HitResult) -> (r: Surface)
        ensures
            r == self.texture.ssurface_at(hr.coords),
    {
        self.texture.surface_at(hr.coords)
    }

    /// The nearest positive parameter at which the world ray meets the
    /// object, in world units. The local ray keeps the unnormalized inverse
    /// direction, so its parameter is the world ray's.
    #[verifier::opaque]
    pub open spec fn sdistance(self, ray: Ray) -> Option<Fx> {
        self.geometry.sdistance(self.transform.sto_local_ray(ray))
    }

    pub fn distance(&self, ray: &Ray) -> (r: Option<Fx>)
        ensures
            r == self.sdistance(*ray),
    {
        proof {
            reveal(Object::sdistance);
        }
        let local_ray = self.transform.to_local_ray_unnormalized(ray);
        proof {
            crate::scene::lemma_local_ray_bounded(self.transform, *ray);
        }
        self.geometry.distance(&local_ray)
    }

    /// The hit record in world space: the local hit carried through the
    /// forward frame, with the normal renormalized.
    #[verifier::opaque]
    pub open spec fn shit(self, ray: Ray, distance: Fx) -> HitResult {
        let local_ray = self.transform.sto_local_ray(ray);
        let hr = self.geometry.shit(local_ray, distance);
        HitResult {
            position: self.transform.smatrix().stransform_point(hr.position),
            normal: self.transform.smatrix().stransform_vector(hr.normal).snormalize(),
            coords: hr.coords,
        }
    }

    pub fn hit(&self, ray: &Ray, distance: Fx) -> (r: HitResult)
        ensures
            r == self.shit(*ray, distance),
    {
        proof {
            reveal(Object::shit);
        }
        let local_ray = self.transform.to_local_ray(ray);
        let hr = self.geometry.hit(&local_ray, distance);
        HitResult {
            position: self.transform.apply_to_point(&hr.position),
            normal: self.transform.apply_to_vector(&hr.normal).normalize(),
            coords: hr.coords,
        }
    }

    /// The world-space box of the local box: the componentwise bounds of the
    /// eight transformed corners.
    #[verifier::opaque]
    pub open spec fn sbounding_box(self) -> BoundingBox {
        let lb = self.geometry.spec_bounding_box();
        let f = self.transform.smatrix();
        let p0 = f.stransform_point(Point3 { x: lb.min.x, y: lb.min.y, z: lb.min.z });
        let p1 = f.stransform_point(Point3 { x: lb.min.x, y: lb.min.y, z: lb.max.z });
        let p2 = f.stransform_point(Point3 { x: lb.min.x, y: lb.max.y, z: lb.min.z });
        let p3 = f.stransform_point(Point3 { x: lb.min.x, y: lb.max.y, z: lb.max.z });
        let p4 = f.stransform_point(Point3 { x: lb.max.x, y: lb.min.y, z: lb.min.z });
        let p5 = f.stransform_point(Point3 { x: lb.max.x, y: lb.min.y, z: lb.max.z });
        let p6 = f.stransform_point(Point3 { x: lb.max.x, y: lb.max.y, z: lb.min.z });
        let p7 = f.stransform_point(Point3 { x: lb.max.x, y: lb.max.y, z: lb.max.z });
        let inf = Point3 {
            x: Fx { raw: FX_INF_RAW },
            y: Fx { raw: FX_INF_RAW },
            z: Fx { raw: FX_INF_RAW },
        };
        let ninf = Point3 {
            x: Fx { raw: (-FX_INF_RAW) as i64 },
            y: Fx { raw: (-FX_INF_RAW) as i64 },
            z: Fx { raw: (-FX_INF_RAW) as i64 },
        };
        let mn = inf.spec_min(&p0).spec_min(&p1).spec_min(&p2).spec_min(&p3).spec_min(
            &p4,
        ).spec_min(&p5).spec_min(&p6).spec_min(&p7);
        let mx = ninf.spec_max(&p0).spec_max(&p1).spec_max(&p2).spec_max(&p3).spec_max(
            &p4,
        ).spec_max(&p5).spec_max(&p6).spec_max(&p7);
        BoundingBox { min: mn, max: mx }
    }
}

impl Bounded for Object {
    open spec fn spec_bounding_box(&self) -> BoundingBox {
        self.sbounding_box()
    }

    fn bounding_box(&self) -> (r: BoundingBox) {
        proof {
            reveal(Object::sbounding_box);
        }
        let lb = self.geometry.bounding_box();
        let p0 = self.transform.apply_to_point(&Point3::new(lb.min.x, lb.min.y, lb.min.z));
        let p1 = self.transform.apply_to_point(&Point3::new(lb.min.x, lb.min.y, lb.max.z));
        let p2 = self.transform.apply_to_point(&Point3::new(lb.min.x, lb.max.y, lb.min.z));
        let p3 = self.transform.apply_to_point(&Point3::new(lb.min.x, lb.max.y, lb.max.z));
        let p4 = self.transform.apply_to_point(&Point3::new(lb.max.x, lb.min.y, lb.min.z));
        let p5 = self.transform.apply_to_point(&Point3::new(lb.max.x, lb.min.y, lb.max.z));
        let p6 = self.transform.apply_to_point(&Point3::new(lb.max.x, lb.max.y, lb.min.z));
        let p7 = self.transform.apply_to_point(&Point3::new(lb.max.x, lb.max.y, lb.max.z));
        let inf = Point3::new(Fx::infinity(), Fx::infinity(), Fx::infinity());
        let ninf = Point3::new(Fx::neg_infinity(), Fx::neg_infinity(), Fx::neg_infinity());
        let mn = inf.min(&p0).min(&p1).min(&p2).min(&p3).min(&p4).min(&p5).min(&p6).min(&p7);
        let mx = ninf.max(&p0).max(&p1).max(&p2).max(&p3).max(&p4).max(&p5).max(&p6).max(&p7);
        BoundingBox { min: mn, max: mx }
    }
}

/// A world-space hit record has bounded position and normal: the position is
/// a clipped transform of the local one, and the normal is a clipped
/// transform, normalized.
pub proof fn lemma_hit_bounded(o: Object, ray: Ray, t: Fx)
    ensures
        o.shit(ray, t).position.bounded(),
        o.shit(ray, t).normal.bounded(),
{
    reveal(Object::shit);
    let local_ray = o.transform.sto_local_ray(ray);
    let hr = o.geometry.shit(local_ray, t);
    let moved = o.transform.smatrix().stransform_vector(hr.normal);
    match o.transform.smatrix() {
        crate::transform::Frame::General { x_axis, y_axis, z_axis, origin } => {
            assert(o.shit(ray, t).position.bounded());
            assert(moved.bounded());
        },
        crate::transform::Frame::Fixed { origin, scale } => {
            assert(o.shit(ray, t).position.bounded());
            assert(moved.bounded());
        },
    }
    crate::algebra::lemma_normalize_bounded(moved);
}

/// Rays seen through a transform's inverse stay inside the representable
/// band: every component is a clipped arithmetic result.
pub proof fn lemma_local_ray_bounded(t: Transform, ray: Ray)
    ensures
        t.sto_local_ray(ray).bounded(),
{
    let lr = t.sto_local_ray(ray);
    match t.sinverse_matrix() {
        crate::transform::Frame::General { x_axis, y_axis, z_axis, origin } => {
            assert(lr.origin.bounded());
            assert(lr.direction.bounded());
        },
        crate::transform::Frame::Fixed { origin, scale } => {
            assert(lr.origin.bounded());
            assert(lr.direction.bounded());
        },
    }
}

/// The authored scene: the placed objects and the lights.
pub struct Scene {
    pub objects: Vec<Object>,
    pub lights: Vec<Light>,
}

impl Scene {
    pub fn new() -> (r: Scene)
        ensures
            r.objects@.len() == 0,
            r.lights@.len() == 0,
    {
        Scene { objects: Vec::new(), lights: Vec::new() }
    }

    pub fn add(&mut self, object: Object)
        ensures
            final(self).objects@ == old(self).objects@.push(object),
            final(self).lights == old(self).lights,
    {
        self.objects.push(object);
    }

    pub fn add_light(&mut self, light: Light)
        ensures
            final(self).lights@ == old(self).lights@.push(light),
            final(self).objects == old(self).objects,
    {
        self.lights.push(light);
    }

    /// The objects, for iteration in authoring order.
    pub fn iter_objects(&self) -> (r: &Vec<Object>)
        ensures
            r == &self.objects,
    {
        &self.objects
    }

    /// The lights, for iteration in authoring order.
    pub fn iter_lights(&self) -> (r: &Vec<Light>)
        ensures
            r == &self.lights,
    {
        &self.lights
    }
}

} // verus!
