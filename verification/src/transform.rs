use vstd::prelude::*;
use crate::fx::{Fx, FX_ONE};
use crate::algebra::{Point3, Ray, Vec3};

verus! {

/// The errors the library reports at its boundaries. The tracing core itself
/// never fails: numeric edge cases inside it are misses or black
/// contributions.
#[derive(Clone, Copy, Debug, PartialEq, Eq, Structural)]
pub enum RenderError {
    /// A camera was asked for with a degenerate image size or field of view.
    InvalidConfig,
    /// An object placement whose matrix has no inverse (a zero scale).
    SingularTransform,
}

/// An affine matrix: three basis columns and a translation column.
#[derive(Clone, Copy, Debug, PartialEq, Eq, Structural)]
pub struct Matrix4 {
    pub c0: Vec3,
    pub c1: Vec3,
    pub c2: Vec3,
    pub t: Vec3,
}

impl Matrix4 {
    pub open spec fn sidentity() -> Matrix4 {
        let one = Fx { raw: FX_ONE };
        let zero = Fx { raw: 0 };
        Matrix4 {
            c0: Vec3 { x: one, y: zero, z: zero },
            c1: Vec3 { x: zero, y: one, z: zero },
            c2: Vec3 { x: zero, y: zero, z: one },
            t: Vec3 { x: zero, y: zero, z: zero },
        }
    }

    pub open spec fn sapply_vec(self, v: Vec3) -> Vec3 {
        self.c0.sscale(v.x).sadd(self.c1.sscale(v.y)).sadd(self.c2.sscale(v.z))
    }

    pub open spec fn smul(self, o: Matrix4) -> Matrix4 {
        Matrix4 {
            c0: self.sapply_vec(o.c0),
            c1: self.sapply_vec(o.c1),
            c2: self.sapply_vec(o.c2),
            t: self.sapply_vec(o.t).sadd(self.t),
        }
    }

    pub fn identity() -> (r: Matrix4)
        ensures
            r == Matrix4::sidentity(),
    {
        Matrix4 {
            c0: Vec3::new(Fx::one(), Fx::zero(), Fx::zero()),
            c1: Vec3::new(Fx::zero(), Fx::one(), Fx::zero()),
            c2: Vec3::new(Fx::zero(), Fx::zero(), Fx::one()),
            t: Vec3::zeros(),
        }
    }

    pub fn new_translation(v: Vec3) -> (r: Matrix4)
        ensures
            r == (Matrix4 { t: v, ..Matrix4::sidentity() }),
    {
        let mut m = Matrix4::identity();
        m.t = v;
        m
    }

    pub fn new_nonuniform_scaling(s: Vec3) -> (r: Matrix4)
        ensures
            r == (Matrix4 {
                c0: Vec3 { x: s.x, y: Fx { raw: 0 }, z: Fx { raw: 0 } },
                c1: Vec3 { x: Fx { raw: 0 }, y: s.y, z: Fx { raw: 0 } },
                c2: Vec3 { x: Fx { raw: 0 }, y: Fx { raw: 0 }, z: s.z },
                t: Vec3 { x: Fx { raw: 0 }, y: Fx { raw: 0 }, z: Fx { raw: 0 } },
            }),
    {
        Matrix4 {
            c0: Vec3::new(s.x, Fx::zero(), Fx::zero()),
            c1: Vec3::new(Fx::zero(), s.y, Fx::zero()),
            c2: Vec3::new(Fx::zero(), Fx::zero(), s.z),
            t: Vec3::zeros(),
        }
    }

    /// The rotation matrix of an axis and angle, by the Rodrigues form
    /// `I + sin K + (1 - cos) K^2` written out in components.
    pub open spec fn sfrom_axis_angle(axis: Vec3, angle: Fx) -> Matrix4 {
        let one = Fx { raw: FX_ONE };
        let c = angle.scos();
        let s = angle.ssin();
        let k = one.ssub(c);
        let x = axis.x;
        let y = axis.y;
        let z = axis.z;
        Matrix4 {
            c0: Vec3 {
                x: c.sadd(x.smul(x).smul(k)),
                y: y.smul(x).smul(k).sadd(z.smul(s)),
                z: z.smul(x).smul(k).ssub(y.smul(s)),
            },
            c1: Vec3 {
                x: x.smul(y).smul(k).ssub(z.smul(s)),
                y: c.sadd(y.smul(y).smul(k)),
                z: z.smul(y).smul(k).sadd(x.smul(s)),
            },
            c2: Vec3 {
                x: x.smul(z).smul(k).sadd(y.smul(s)),
                y: y.smul(z).smul(k).ssub(x.smul(s)),
                z: c.sadd(z.smul(z).smul(k)),
            },
            t: Vec3 { x: Fx { raw: 0 }, y: Fx { raw: 0 }, z: Fx { raw: 0 } },
        }
    }

    pub fn from_axis_angle(axis: Vec3, angle: Fx) -> (r: Matrix4)
        ensures
            r == Matrix4::sfrom_axis_angle(axis, angle),
    {
        let one = Fx::one();
        let c = angle.cos();
        let s = angle.sin();
        let k = one.sub(c);
        let x = axis.x;
        let y = axis.y;
        let z = axis.z;
        Matrix4 {
            c0: Vec3::new(
                c.add(x.mul(x).mul(k)),
                y.mul(x).mul(k).add(z.mul(s)),
                z.mul(x).mul(k).sub(y.mul(s)),
            ),
            c1: Vec3::new(
                x.mul(y).mul(k).sub(z.mul(s)),
                c.add(y.mul(y).mul(k)),
                z.mul(y).mul(k).add(x.mul(s)),
            ),
            c2: Vec3::new(
                x.mul(z).mul(k).add(y.mul(s)),
                y.mul(z).mul(k).sub(x.mul(s)),
                c.add(z.mul(z).mul(k)),
            ),
            t: Vec3::zeros(),
        }
    }

    /// Applies the linear part to a vector.
    pub fn apply_vec(&self, v: Vec3) -> (r: Vec3)
        ensures
            r == self.sapply_vec(v),
    {
        self.c0.scale(v.x).add(self.c1.scale(v.y)).add(self.c2.scale(v.z))
    }

    /// Composes two affine matrices.
    pub fn mul(&self, o: &Matrix4) -> (r: Matrix4)
        ensures
            r == self.smul(*o),
    {
        Matrix4 {
            c0: self.apply_vec(o.c0),
            c1: self.apply_vec(o.c1),
            c2: self.apply_vec(o.c2),
            t: self.apply_vec(o.t).add(self.t),
        }
    }
}

/// A compact transform representation: either a full basis with an origin, or
/// the fast path of a pure translation and axis-aligned scale.
#[derive(Clone, Copy, Debug, PartialEq, Eq, Structural)]
pub enum Frame {
    General { x_axis: Vec3, y_axis: Vec3, z_axis: Vec3, origin: Point3 },
    Fixed { origin: Point3, scale: Vec3 },
}

impl Frame {
    /// Classifies a matrix: a diagonal linear part with positive scales
    /// becomes the fixed fast path, anything else keeps its basis columns.
    pub open spec fn sfrom_matrix(m: Matrix4) -> Frame {
        let is_fixed = m.c1.x.raw == 0 && m.c2.x.raw == 0 && m.c0.y.raw == 0 && m.c2.y.raw == 0
            && m.c0.z.raw == 0 && m.c1.z.raw == 0 && m.c0.x.raw > 0 && m.c1.y.raw > 0 && m.c2.z.raw
            > 0;
        if is_fixed {
            Frame::Fixed {
                origin: Point3 { x: m.t.x, y: m.t.y, z: m.t.z },
                scale: Vec3 { x: m.c0.x, y: m.c1.y, z: m.c2.z },
            }
        } else {
            Frame::General {
                x_axis: m.c0,
                y_axis: m.c1,
                z_axis: m.c2,
                origin: Point3 { x: m.t.x, y: m.t.y, z: m.t.z },
            }
        }
    }

    pub fn from_matrix(transform_matrix: Matrix4) -> (r: Frame)
        ensures
            r == Frame::sfrom_matrix(transform_matrix),
    {
        let m = transform_matrix;
        let is_fixed = m.c1.x.raw == 0 && m.c2.x.raw == 0 && m.c0.y.raw == 0 && m.c2.y.raw == 0
            && m.c0.z.raw == 0 && m.c1.z.raw == 0 && m.c0.x.raw > 0 && m.c1.y.raw > 0 && m.c2.z.raw
            > 0;
        if is_fixed {
            Frame::Fixed {
                origin: Point3::new(m.t.x, m.t.y, m.t.z),
                scale: Vec3::new(m.c0.x, m.c1.y, m.c2.z),
            }
        } else {
            Frame::General {
                x_axis: m.c0,
                y_axis: m.c1,
                z_axis: m.c2,
                origin: Point3::new(m.t.x, m.t.y, m.t.z),
            }
        }
    }

    /// A frame looking along `forward` with the given up hint.
    pub open spec fn slook_at(origin: Point3, forward: Vec3, up: Vec3) -> Frame {
        let z_axis = forward.snormalize();
        let x_axis = up.scross(z_axis).snormalize();
        let y_axis = z_axis.scross(x_axis).snormalize();
        Frame::General { x_axis, y_axis, z_axis, origin }
    }

    pub fn look_at(origin: Point3, forward: Vec3, up: Vec3) -> (r: Frame)
        ensures
            r == Frame::slook_at(origin, forward, up),
    {
        let z_axis = forward.normalize();
        let x_axis = up.cross(z_axis).normalize();
        let y_axis = z_axis.cross(x_axis).normalize();
        Frame::General { x_axis, y_axis, z_axis, origin }
    }

    pub open spec fn stransform_point(self, point: Point3) -> Point3 {
        match self {
            Frame::General { x_axis, y_axis, z_axis, origin } => origin.sadd_vec(
                x_axis.sscale(point.x).sadd(y_axis.sscale(point.y)).sadd(z_axis.sscale(point.z)),
            ),
            Frame::Fixed { origin, scale } => Point3 {
                x: origin.x.sadd(point.x.smul(scale.x)),
                y: origin.y.sadd(point.y.smul(scale.y)),
                z: origin.z.sadd(point.z.smul(scale.z)),
            },
        }
    }

    pub fn transform_point(&self, point: &Point3) -> (r: Point3)
        ensures
            r == self.stransform_point(*point),
    {
        match self {
            Frame::General { x_axis, y_axis, z_axis, origin } => origin.add_vec(
                x_axis.scale(point.x).add(y_axis.scale(point.y)).add(z_axis.scale(point.z)),
            ),
            Frame::Fixed { origin, scale } => Point3::new(
                origin.x.add(point.x.mul(scale.x)),
                origin.y.add(point.y.mul(scale.y)),
                origin.z.add(point.z.mul(scale.z)),
            ),
        }
    }

    pub open spec fn stransform_vector(self, vector: Vec3) -> Vec3 {
        match self {
            Frame::General { x_axis, y_axis, z_axis, .. } => x_axis.sscale(vector.x).sadd(
                y_axis.sscale(vector.y),
            ).sadd(z_axis.sscale(vector.z)),
            Frame::Fixed { scale, .. } => Vec3 {
                x: vector.x.smul(scale.x),
                y: vector.y.smul(scale.y),
                z: vector.z.smul(scale.z),
            },
        }
    }

    pub fn transform_vector(&self, vector: &Vec3) -> (r: Vec3)
        ensures
            r == self.stransform_vector(*vector),
    {
        match self {
            Frame::General { x_axis, y_axis, z_axis, .. } => x_axis.scale(vector.x).add(
                y_axis.scale(vector.y),
            ).add(z_axis.scale(vector.z)),
            Frame::Fixed { scale, .. } => Vec3::new(
                vector.x.mul(scale.x),
                vector.y.mul(scale.y),
                vector.z.mul(scale.z),
            ),
        }
    }

    pub open spec fn sget_x_axis(self) -> Vec3 {
        match self {
            Frame::General { x_axis, .. } => x_axis,
            Frame::Fixed { .. } => Vec3 { x: Fx { raw: FX_ONE }, y: Fx { raw: 0 }, z: Fx { raw: 0 } },
        }
    }

    pub open spec fn sget_y_axis(self) -> Vec3 {
        match self {
            Frame::General { y_axis, .. } => y_axis,
            Frame::Fixed { .. } => Vec3 { x: Fx { raw: 0 }, y: Fx { raw: FX_ONE }, z: Fx { raw: 0 } },
        }
    }

    pub open spec fn sget_z_axis(self) -> Vec3 {
        match self {
            Frame::General { z_axis, .. } => z_axis,
            Frame::Fixed { .. } => Vec3 { x: Fx { raw: 0 }, y: Fx { raw: 0 }, z: Fx { raw: FX_ONE } },
        }
    }

    pub open spec fn sget_origin(self) -> Point3 {
        match self {
            Frame::General { origin, .. } => origin,
            Frame::Fixed { origin, .. } => origin,
        }
    }

    /// Combines two frames into the frame of `self` then applied after
    /// `other`.
    pub open spec fn scombine(self, other: Frame) -> Frame {
        match self {
            Frame::General { x_axis, y_axis, z_axis, origin: _origin } => match other {
                Frame::General { .. } => Frame::General {
                    x_axis: self.stransform_vector(other.sget_x_axis()),
                    y_axis: self.stransform_vector(other.sget_y_axis()),
                    z_axis: self.stransform_vector(other.sget_z_axis()),
                    origin: self.stransform_point(other.sget_origin()),
                },
                Frame::Fixed { scale, origin: other_origin } => Frame::Fixed {
                    origin: self.stransform_point(other_origin),
                    scale: Vec3 {
                        x: x_axis.smagnitude().smul(scale.x),
                        y: y_axis.smagnitude().smul(scale.y),
                        z: z_axis.smagnitude().smul(scale.z),
                    },
                },
            },
            Frame::Fixed { origin, scale } => match other {
                Frame::General { .. } => Frame::General {
                    x_axis: Vec3 { x: scale.x, y: Fx { raw: 0 }, z: Fx { raw: 0 } },
                    y_axis: Vec3 { x: Fx { raw: 0 }, y: scale.y, z: Fx { raw: 0 } },
                    z_axis: Vec3 { x: Fx { raw: 0 }, y: Fx { raw: 0 }, z: scale.z },
                    origin: origin.sadd_vec(other.sget_origin().scoords()),
                },
                Frame::Fixed { scale: other_scale, origin: other_origin } => Frame::Fixed {
                    origin: Point3 {
                        x: origin.x.sadd(other_origin.x.smul(scale.x)),
                        y: origin.y.sadd(other_origin.y.smul(scale.y)),
                        z: origin.z.sadd(other_origin.z.smul(scale.z)),
                    },
                    scale: Vec3 {
                        x: scale.x.smul(other_scale.x),
                        y: scale.y.smul(other_scale.y),
                        z: scale.z.smul(other_scale.z),
                    },
                },
            },
        }
    }

    pub fn combine(&self, other: &Frame) -> (r: Frame)
        ensures
            r == self.scombine(*other),
    {
        match self {
            Frame::General { x_axis, y_axis, z_axis, origin: _origin } => match other {
                Frame::General { .. } => Frame::General {
                    x_axis: self.transform_vector(&other.get_x_axis()),
                    y_axis: self.transform_vector(&other.get_y_axis()),
                    z_axis: self.transform_vector(&other.get_z_axis()),
                    origin: self.transform_point(&other.get_origin()),
                },
                Frame::Fixed { scale, origin: other_origin } => Frame::Fixed {
                    origin: self.transform_point(other_origin),
                    scale: Vec3::new(
                        x_axis.magnitude().mul(scale.x),
                        y_axis.magnitude().mul(scale.y),
                        z_axis.magnitude().mul(scale.z),
                    ),
                },
            },
            Frame::Fixed { origin, scale } => match other {
                Frame::General { .. } => Frame::General {
                    x_axis: Vec3::new(scale.x, Fx::zero(), Fx::zero()),
                    y_axis: Vec3::new(Fx::zero(), scale.y, Fx::zero()),
                    z_axis: Vec3::new(Fx::zero(), Fx::zero(), scale.z),
                    origin: origin.add_vec(other.get_origin().coords()),
                },
                Frame::Fixed { scale: other_scale, origin: other_origin } => Frame::Fixed {
                    origin: Point3::new(
                        origin.x.add(other_origin.x.mul(scale.x)),
                        origin.y.add(other_origin.y.mul(scale.y)),
                        origin.z.add(other_origin.z.mul(scale.z)),
                    ),
                    scale: Vec3::new(
                        scale.x.mul(other_scale.x),
                        scale.y.mul(other_scale.y),
                        scale.z.mul(other_scale.z),
                    ),
                },
            },
        }
    }

    /// The algebraic inverse. An axis whose squared magnitude truncates to
    /// zero, or a zero scale component, is left in place: such a frame is
    /// singular and object construction rejects it beforehand.
    pub open spec fn sinverse(self) -> Frame {
        match self {
            Frame::General { x_axis, y_axis, z_axis, origin } => {
                let inv_x = x_axis.sdiv_scalar(x_axis.smagnitude_squared());
                let inv_y = y_axis.sdiv_scalar(y_axis.smagnitude_squared());
                let inv_z = z_axis.sdiv_scalar(z_axis.smagnitude_squared());
                Frame::General {
                    x_axis: inv_x,
                    y_axis: inv_y,
                    z_axis: inv_z,
                    origin: Point3 {
                        x: origin.scoords().sdot(inv_x).sneg(),
                        y: origin.scoords().sdot(inv_y).sneg(),
                        z: origin.scoords().sdot(inv_z).sneg(),
                    },
                }
            },
            Frame::Fixed { origin, scale } => Frame::Fixed {
                origin: Point3 {
                    x: origin.x.sneg().ssafe_div(scale.x),
                    y: origin.y.sneg().ssafe_div(scale.y),
                    z: origin.z.sneg().ssafe_div(scale.z),
                },
                scale: Vec3 {
                    x: Fx { raw: FX_ONE }.ssafe_div(scale.x),
                    y: Fx { raw: FX_ONE }.ssafe_div(scale.y),
                    z: Fx { raw: FX_ONE }.ssafe_div(scale.z),
                },
            },
        }
    }

    pub fn inverse(&self) -> (r: Frame)
        ensures
            r == self.sinverse(),
    {
        match self {
            Frame::General { x_axis, y_axis, z_axis, origin } => {
                let inv_x = x_axis.div_scalar(x_axis.magnitude_squared());
                let inv_y = y_axis.div_scalar(y_axis.magnitude_squared());
                let inv_z = z_axis.div_scalar(z_axis.magnitude_squared());
                Frame::General {
                    x_axis: inv_x,
                    y_axis: inv_y,
                    z_axis: inv_z,
                    origin: Point3::new(
                        origin.coords().dot(inv_x).neg(),
                        origin.coords().dot(inv_y).neg(),
                        origin.coords().dot(inv_z).neg(),
                    ),
                }
            },
            Frame::Fixed { origin, scale } => Frame::Fixed {
                origin: Point3::new(
                    origin.x.neg().safe_div(scale.x),
                    origin.y.neg().safe_div(scale.y),
                    origin.z.neg().safe_div(scale.z),
                ),
                scale: Vec3::new(
                    Fx::one().safe_div(scale.x),
                    Fx::one().safe_div(scale.y),
                    Fx::one().safe_div(scale.z),
                ),
            },
        }
    }

    /// How much longer a vector gets under this frame, relative to its own
    /// length: the factor that converts parameter distances.
    pub open spec fn sscale_back_along(self, v: Vec3) -> Fx {
        let m = v.smagnitude();
        if m.raw == 0 {
            Fx { raw: FX_ONE }
        } else {
            self.stransform_vector(v).smagnitude().sdiv(m)
        }
    }

    pub fn scale_back_along(&self, v: &Vec3) -> (r: Fx)
        ensures
            r == self.sscale_back_along(*v),
    {
        let m = v.magnitude();
        if m.raw == 0 {
            Fx::one()
        } else {
            self.transform_vector(v).magnitude().div(m)
        }
    }

    fn get_x_axis(&self) -> (r: Vec3)
        ensures
            r == self.sget_x_axis(),
    {
        match self {
            Frame::General { x_axis, .. } => *x_axis,
            Frame::Fixed { .. } => Vec3::new(Fx::one(), Fx::zero(), Fx::zero()),
        }
    }

    fn get_y_axis(&self) -> (r: Vec3)
        ensures
            r == self.sget_y_axis(),
    {
        match self {
            Frame::General { y_axis, .. } => *y_axis,
            Frame::Fixed { .. } => Vec3::new(Fx::zero(), Fx::one(), Fx::zero()),
        }
    }

    fn get_z_axis(&self) -> (r: Vec3)
        ensures
            r == self.sget_z_axis(),
    {
        match self {
            Frame::General { z_axis, .. } => *z_axis,
            Frame::Fixed { .. } => Vec3::new(Fx::zero(), Fx::zero(), Fx::one()),
        }
    }

    fn get_origin(&self) -> (r: Point3)
        ensures
            r == self.sget_origin(),
    {
        match self {
            Frame::General { origin, .. } => *origin,
            Frame::Fixed { origin, .. } => *origin,
        }
    }
}

/// A world placement and its precomputed inverse.
#[derive(Clone, Copy, Debug, PartialEq, Eq, Structural)]
pub struct Transform {
    pub matrix: Frame,
    pub inverse_matrix: Frame,
}

/// Below this magnitude a rotation vector counts as no rotation.
pub const ROTATION_EPS_RAW: i64 = 4295;

impl Transform {
    pub open spec fn smatrix(self) -> Frame {
        self.matrix
    }

    pub open spec fn sinverse_matrix(self) -> Frame {
        self.inverse_matrix
    }

    pub open spec fn srotation_matrix(rotation: Vec3) -> Matrix4 {
        let angle = rotation.smagnitude();
        if angle.sabs().raw < ROTATION_EPS_RAW {
            Matrix4::sidentity()
        } else {
            Matrix4::sfrom_axis_angle(rotation.snormalize(), angle)
        }
    }

    /// The frame a placement denotes: translation, then rotation, then
    /// non-uniform scale.
    pub open spec fn sframe_of(position: Vec3, rotation: Vec3, scale: Vec3) -> Frame {
        let m = Matrix4 { t: position, ..Matrix4::sidentity() }.smul(
            Transform::srotation_matrix(rotation),
        ).smul(
            Matrix4 {
                c0: Vec3 { x: scale.x, y: Fx { raw: 0 }, z: Fx { raw: 0 } },
                c1: Vec3 { x: Fx { raw: 0 }, y: scale.y, z: Fx { raw: 0 } },
                c2: Vec3 { x: Fx { raw: 0 }, y: Fx { raw: 0 }, z: scale.z },
                t: Vec3 { x: Fx { raw: 0 }, y: Fx { raw: 0 }, z: Fx { raw: 0 } },
            },
        );
        Frame::sfrom_matrix(m)
    }

    /// Builds a transform from translation, axis-angle rotation and scale.
    /// A zero scale component has no inverse and is rejected.
    pub fn new(position: Vec3, rotation: Vec3, scale: Vec3) -> (r: Result<Transform, RenderError>)
        ensures
            r is Ok <==> scale.x.raw != 0 && scale.y.raw != 0 && scale.z.raw != 0,
            r matches Ok(t) ==> t.smatrix() == Transform::sframe_of(position, rotation, scale)
                && t.sinverse_matrix() == Transform::sframe_of(
                position,
                rotation,
                scale,
            ).sinverse(),
    {
        if scale.x.raw == 0 || scale.y.raw == 0 || scale.z.raw == 0 {
            return Err(RenderError::SingularTransform);
        }
        let translation = Matrix4::new_translation(position);
        let rotation_m = Transform::rotation_matrix(rotation);
        let scaling = Matrix4::new_nonuniform_scaling(scale);
        let matrix = translation.mul(&rotation_m).mul(&scaling);
        let frame = Frame::from_matrix(matrix);
        Ok(Transform { matrix: frame, inverse_matrix: frame.inverse() })
    }

    fn rotation_matrix(rotation: Vec3) -> (r: Matrix4)
        ensures
            r == Transform::srotation_matrix(rotation),
    {
        let angle = rotation.magnitude();
        if angle.abs().raw < ROTATION_EPS_RAW {
            return Matrix4::identity();
        }
        let axis = rotation.normalize();
        Matrix4::from_axis_angle(axis, angle)
    }

    /// Applies the transform to a point in local space.
    pub fn apply_to_point(&self, point: &Point3) -> (r: Point3)
        ensures
            r == self.smatrix().stransform_point(*point),
    {
        self.matrix.transform_point(point)
    }

    pub fn apply_to_vector(&self, v: &Vec3) -> (r: Vec3)
        ensures
            r == self.smatrix().stransform_vector(*v),
    {
        self.matrix.transform_vector(v)
    }

    /// A world ray seen from the object's local frame. The direction is not
    /// normalized, so the local ray shares its parameter with the world ray.
    pub open spec fn sto_local_ray(self, ray: Ray) -> Ray {
        Ray {
            origin: self.inverse_matrix.stransform_point(ray.origin),
            direction: self.inverse_matrix.stransform_vector(ray.direction),
        }
    }

    pub fn to_local_ray(&self, ray: &Ray) -> (r: Ray)
        ensures
            r == self.sto_local_ray(*ray),
    {
        Ray::new(
            self.inverse_matrix.transform_point(&ray.origin),
            self.inverse_matrix.transform_vector(&ray.direction),
        )
    }

    /// The same conversion, named for call sites that keep the unnormalized
    /// direction on purpose.
    pub fn to_local_ray_unnormalized(&self, ray: &Ray) -> (r: Ray)
        ensures
            r == self.sto_local_ray(*ray),
    {
        self.to_local_ray(ray)
    }

    pub open spec fn sto_world_distance(self, ray: Ray, distance: Fx) -> Fx {
        let s = self.inverse_matrix.sscale_back_along(ray.direction);
        if s.raw == 0 {
            distance
        } else {
            distance.sdiv(s)
        }
    }

    /// Converts a distance along the local ray back to world units.
    pub fn to_world_distance(&self, ray: &Ray, distance: Fx) -> (r: Fx)
        ensures
            r == self.sto_world_distance(*ray, distance),
    {
        let s = self.inverse_matrix.scale_back_along(&ray.direction);
        if s.raw == 0 {
            distance
        } else {
            distance.div(s)
        }
    }

    pub open spec fn sto_local_distance(self, ray: Ray, distance: Fx) -> Fx {
        distance.smul(self.inverse_matrix.sscale_back_along(ray.direction))
    }

    /// Converts a world distance along the ray into local units.
    pub fn to_local_distance(&self, ray: &Ray, distance: Fx) -> (r: Fx)
        ensures
            r == self.sto_local_distance(*ray, distance),
    {
        distance.mul(self.inverse_matrix.scale_back_along(&ray.direction))
    }

    pub open spec fn srotation_from_axis_angle(axis: Vec3, angle: Fx) -> Vec3 {
        axis.sscale(angle)
    }

    fn rotation_from_axis_angle(axis: Vec3, angle: Fx) -> (r: Vec3)
        ensures
            r == Transform::srotation_from_axis_angle(axis, angle),
    {
        axis.scale(angle)
    }

    /// The minimal axis-angle rotation that carries `v1` onto `v2`: zero for
    /// equal directions, a half turn around a well-chosen orthogonal axis for
    /// opposite ones, and otherwise the cross-product axis with the angle
    /// between them.
    pub open spec fn srotation_to(v1: Vec3, v2: Vec3) -> Vec3 {
        let n1 = v1.snormalize();
        let n2 = v2.snormalize();
        if n1 == n2 {
            Vec3 { x: Fx { raw: 0 }, y: Fx { raw: 0 }, z: Fx { raw: 0 } }
        } else if n1 == n2.sneg() {
            let one = Fx { raw: FX_ONE };
            let zero = Fx { raw: 0 };
            let arbitrary_axis = if n1.x.sabs().raw < n1.y.sabs().raw && n1.x.sabs().raw
                < n1.z.sabs().raw {
                Vec3 { x: one, y: zero, z: zero }
            } else if n1.y.sabs().raw < n1.z.sabs().raw {
                Vec3 { x: zero, y: one, z: zero }
            } else {
                Vec3 { x: zero, y: zero, z: one }
            };
            n1.scross(arbitrary_axis).snormalize().sscale(Fx { raw: crate::fx::FX_PI_RAW })
        } else {
            n2.scross(n1).snormalize().sscale(n2.sdot(n1).sacos())
        }
    }

    pub fn rotation_to(v1: Vec3, v2: Vec3) -> (r: Vec3)
        ensures
            r == Transform::srotation_to(v1, v2),
    {
        let n1 = v1.normalize();
        let n2 = v2.normalize();
        if n1 == n2 {
            Vec3::zeros()
        } else if n1 == n2.neg() {
            let arbitrary_axis = if n1.x.abs().raw < n1.y.abs().raw && n1.x.abs().raw
                < n1.z.abs().raw {
                Vec3::new(Fx::one(), Fx::zero(), Fx::zero())
            } else if n1.y.abs().raw < n1.z.abs().raw {
                Vec3::new(Fx::zero(), Fx::one(), Fx::zero())
            } else {
                Vec3::new(Fx::zero(), Fx::zero(), Fx::one())
            };
            let axis = n1.cross(arbitrary_axis).normalize();
            Transform::rotation_from_axis_angle(axis, Fx::pi())
        } else {
            let axis = n2.cross(n1).normalize();
            let angle = n2.dot(n1).acos();
            Transform::rotation_from_axis_angle(axis, angle)
        }
    }
}

/// The distance round trip: converting a world distance to local units and
/// back loses at most one conversion quantum. For a positive conversion
/// factor `s` and a non-negative distance `d` that does not saturate, the
/// round trip lands in `[d - FX_ONE/s - 1, d]` raw units.
pub proof fn lemma_distance_roundtrip(d: Fx, s: Fx)
    requires
        0 <= d.raw <= crate::fx::FX_INF_RAW,
        1 <= s.raw,
        d.raw * s.raw <= crate::fx::FX_INF_RAW * (FX_ONE as int),
    ensures
        d.smul(s).sdiv(s).raw <= d.raw,
        d.raw - (FX_ONE as int) / (s.raw as int) - 1 <= d.smul(s).sdiv(s).raw,
{
    let sc = FX_ONE as int;
    let p = d.raw * s.raw;
    assert(d.raw * s.raw >= 0) by (nonlinear_arith)
        requires
            d.raw >= 0,
            s.raw >= 1,
    ;
    let dl = d.smul(s);
    assert(crate::fx::tdiv(p, sc) == p / sc);
    vstd::arithmetic::div_mod::lemma_div_pos_is_pos(p, sc);
    vstd::arithmetic::div_mod::lemma_div_is_ordered(p, crate::fx::FX_INF_RAW * sc, sc);
    vstd::arithmetic::div_mod::lemma_div_by_multiple(crate::fx::FX_INF_RAW as int, sc);
    assert(dl.raw == p / sc);
    let q = p / sc;
    vstd::arithmetic::div_mod::lemma_fundamental_div_mod(p, sc);
    vstd::arithmetic::div_mod::lemma_mod_bound(p, sc);
    let r1 = p % sc;
    assert(p == sc * q + r1);
    // The way back multiplies by the scale again and divides by `s`.
    let dw = dl.sdiv(s);
    assert(crate::fx::sdiv_raw(q, s.raw as int) == crate::fx::clip(q * sc / (s.raw as int)));
    let num = q * sc;
    assert(num == p - r1) by (nonlinear_arith)
        requires
            p == sc * q + r1,
            num == q * sc,
    ;
    let w = num / (s.raw as int);
    vstd::arithmetic::div_mod::lemma_div_pos_is_pos(num, s.raw as int);
    // Upper bound: `w <= d`.
    assert(num <= d.raw * s.raw);
    vstd::arithmetic::div_mod::lemma_div_is_ordered(num, d.raw * s.raw, s.raw as int);
    vstd::arithmetic::div_mod::lemma_div_by_multiple(d.raw as int, s.raw as int);
    assert(d.raw * s.raw == s.raw * d.raw) by (nonlinear_arith);
    assert(w <= d.raw);
    // Lower bound: `w >= d - sc/s - 1`.
    let b = d.raw - sc / (s.raw as int) - 1;
    assert(b * s.raw <= num) by {
        assert((sc / (s.raw as int)) * s.raw + s.raw > sc) by {
            vstd::arithmetic::div_mod::lemma_fundamental_div_mod(sc, s.raw as int);
            vstd::arithmetic::div_mod::lemma_mod_bound(sc, s.raw as int);
            assert(sc == s.raw * (sc / (s.raw as int)) + sc % (s.raw as int));
            assert((sc / (s.raw as int)) * s.raw == s.raw * (sc / (s.raw as int)))
                by (nonlinear_arith);
        }
        assert(b * s.raw == d.raw * s.raw - (sc / (s.raw as int)) * s.raw - s.raw)
            by (nonlinear_arith)
            requires
                b == d.raw - sc / (s.raw as int) - 1,
        ;
        assert(r1 < sc);
    }
    assert(w >= b) by {
        if b >= 0 {
            vstd::arithmetic::div_mod::lemma_div_is_ordered(b * s.raw, num, s.raw as int);
            vstd::arithmetic::div_mod::lemma_div_by_multiple(b, s.raw as int);
            assert(b * s.raw == s.raw * b) by (nonlinear_arith);
        }
    }
    assert(0 <= w <= d.raw);
    assert(crate::fx::clip(w) == w);
    assert(dw.raw == w);
}

} // verus!
