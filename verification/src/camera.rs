use vstd::prelude::*;
use crate::fx::{Fx, FX_ONE};
use crate::algebra::{Ray, Vec3};
use crate::render::RenderListener;
use crate::transform::RenderError;
use crate::world::World;

verus! {

/// 180 degrees in raw units: the exclusive upper bound of a field of view.
pub const FOV_LIMIT_RAW: i64 = 773094113280;

/// The bounce budget of a primary ray.
pub const TRACE_DEPTH: u32 = 5;

/// A rendered raster: packed 8-bit RGB, rows top to bottom.
#[derive(Clone, Debug)]
pub struct Image {
    pub width: u32,
    pub height: u32,
    pub data: Vec<u8>,
}

impl Image {
    /// Where a pixel's red byte lives in the packed data.
    pub open spec fn pixel_offset(self, x: u32, y: u32) -> int {
        (y * self.width + x) * 3
    }

    pub fn get_pixel(&self, x: u32, y: u32) -> (r: [u8; 3])
        requires
            x < self.width,
            y < self.height,
            self.data@.len() == self.width * self.height * 3,
        ensures
            r@[0] == self.data@[self.pixel_offset(x, y)],
            r@[1] == self.data@[self.pixel_offset(x, y) + 1],
            r@[2] == self.data@[self.pixel_offset(x, y) + 2],
    {
        proof {
            assert((y * self.width + x) * 3 + 3 <= self.width * self.height * 3)
                by (nonlinear_arith)
                requires
                    x < self.width,
                    y < self.height,
            ;
        }
        let n: usize = self.data.len();
        let off64: u64 = (y as u64 * self.width as u64 + x as u64) * 3;
        proof {
            assert(off64 + 3 <= self.data@.len());
        }
        let off: usize = off64 as usize;
        [self.data[off], self.data[off + 1], self.data[off + 2]]
    }
}

/// A linear radiance channel as an 8-bit value: scaled by 255, rounded and
/// clamped into a byte.
pub open spec fn sto_byte(c: Fx) -> int {
    let v = c.smul(Fx::sfrom_int(255)).sadd(Fx { raw: (FX_ONE / 2) as i64 });
    if v.raw < 0 {
        0
    } else if v.sfloor() > 255 {
        255
    } else {
        v.sfloor()
    }
}

pub fn to_byte(c: Fx) -> (r: u8)
    ensures
        r as int == sto_byte(c),
{
    let v = c.mul(Fx::from_int(255)).add(Fx::from_raw(FX_ONE / 2));
    if v.raw < 0 {
        0
    } else {
        let f = v.floor_int();
        if f > 255 {
            255
        } else {
            f as u8
        }
    }
}

/// One pixel of an image is the byte conversion of the cast of that pixel's
/// primary ray, channel by channel, at the packed offset.
pub open spec fn sbytes_ok(
    data: Seq<u8>,
    width: u32,
    cam: Camera,
    caster: crate::world::World,
    x: u32,
    y: u32,
) -> bool {
    let c = caster.scast(cam.sray_at(x, y), TRACE_DEPTH);
    let off = (y * width + x) * 3;
    &&& off + 3 <= data.len()
    &&& data[off as int] as int == sto_byte(c.r)
    &&& data[off as int + 1] as int == sto_byte(c.g)
    &&& data[off as int + 2] as int == sto_byte(c.b)
}

/// The image-level reading of `sbytes_ok`.
pub open spec fn spixel_ok(
    img: Image,
    cam: Camera,
    caster: crate::world::World,
    x: u32,
    y: u32,
) -> bool {
    img.width == cam.width && sbytes_ok(img.data@, img.width, cam, caster, x, y)
}

/// A pixel strictly before the one being written has its three bytes below
/// the current end of the buffer.
proof fn lemma_offset_in_range(xx: u32, yy: u32, width: u32, y: u32, x: u32)
    requires
        xx < width,
        yy < y || (yy == y && xx < x),
        x <= width,
    ensures
        (yy * width + xx) * 3 + 3 <= y * width * 3 + x * 3,
{
    assert((yy * width + xx) * 3 + 3 <= y * width * 3 + x * 3) by (nonlinear_arith)
        requires
            xx < width,
            yy < y || (yy == y && xx < x),
            x <= width,
    ;
}

/// Builds primary rays from pixel indices by a precomputed basis over the
/// camera's base ray.
#[derive(Clone, Copy, Debug)]
pub struct Camera {
    pub base: Ray,
    pub width: u32,
    pub height: u32,
    pub pixel_step_x: Vec3,
    pub pixel_step_y: Vec3,
    pub corner: Vec3,
}

impl Camera {
    /// The precomputed basis a placement denotes: the aspect and the
    /// tangent of half the field of view set the pixel steps along the
    /// right and down directions, and the corner points at the first
    /// pixel's center (the half-pixel offset is folded into it).
    pub open spec fn scamera(base: Ray, width: u32, height: u32, fov: Fx) -> Camera {
        let two = Fx::sfrom_int(2);
        let up_hint = Vec3 { x: Fx { raw: 0 }, y: Fx { raw: FX_ONE }, z: Fx { raw: 0 } };
        let aspect_ratio = Fx::sfrom_int(width as int).sdiv(Fx::sfrom_int(height as int));
        let fov_radians = fov.sto_radians().sdiv(two);
        let scale = fov_radians.stan();
        let forward = base.direction.snormalize();
        let right = up_hint.scross(forward).snormalize();
        let up = forward.scross(right).snormalize();
        let pixel_width = two.smul(aspect_ratio).smul(scale).sdiv(Fx::sfrom_int(width as int));
        let pixel_height = two.smul(scale).sdiv(Fx::sfrom_int(height as int));
        let pixel_step_x = right.sscale(pixel_width);
        let pixel_step_y = up.sneg().sscale(pixel_height);
        let half = Fx { raw: (FX_ONE / 2) as i64 };
        let half_width = Fx::sfrom_int(width as int).sdiv(two).ssub(half);
        let half_height = Fx::sfrom_int(height as int).sdiv(two).ssub(half);
        let corner = forward.ssub(pixel_step_x.sscale(half_width)).ssub(
            pixel_step_y.sscale(half_height),
        );
        Camera { base, width, height, pixel_step_x, pixel_step_y, corner }
    }

    /// Every precomputed field stays in the representable band.
    pub open spec fn cbounded(self) -> bool {
        self.base.bounded() && self.pixel_step_x.bounded() && self.pixel_step_y.bounded()
            && self.corner.bounded()
    }

    /// Builds a camera; a degenerate image size or a field of view outside
    /// `(0, 180)` degrees has no sensible basis and is rejected.
    pub fn new(base: Ray, width: u32, height: u32, fov: Fx) -> (r: Result<Camera, RenderError>)
        requires
            base.bounded(),
        ensures
            r is Ok <==> width > 0 && height > 0 && 0 < fov.raw < FOV_LIMIT_RAW,
            r matches Ok(c) ==> c == Camera::scamera(base, width, height, fov),
            r matches Ok(c) ==> c.cbounded(),
            r matches Err(e) ==> e == RenderError::InvalidConfig,
    {
        if width == 0 || height == 0 || fov.raw <= 0 || fov.raw >= FOV_LIMIT_RAW {
            return Err(RenderError::InvalidConfig);
        }
        let two = Fx::from_int(2);
        let w_fx = Fx::from_int(width as i64);
        let h_fx = Fx::from_int(height as i64);
        proof {
            assert(w_fx.raw > 0 && h_fx.raw > 0);
        }
        let aspect_ratio = w_fx.div(h_fx);
        let fov_radians = fov.to_radians().div(two);
        let scale = fov_radians.tan();
        let forward = base.direction.normalize();
        let right = Vec3::new(Fx::zero(), Fx::one(), Fx::zero()).cross(forward).normalize();
        let up = forward.cross(right).normalize();
        let pixel_width = two.mul(aspect_ratio).mul(scale).div(w_fx);
        let pixel_height = two.mul(scale).div(h_fx);
        let pixel_step_x = right.scale(pixel_width);
        let pixel_step_y = up.neg().scale(pixel_height);
        let half = Fx::from_raw(FX_ONE / 2);
        let half_width = w_fx.div(two).sub(half);
        let half_height = h_fx.div(two).sub(half);
        let corner = forward.sub(pixel_step_x.scale(half_width)).sub(
            pixel_step_y.scale(half_height),
        );
        let c = Camera { base, width, height, pixel_step_x, pixel_step_y, corner };
        proof {
            crate::algebra::lemma_normalize_bounded(base.direction);
        }
        Ok(c)
    }

    /// The primary ray of a pixel: the corner plus the pixel steps,
    /// normalized, from the camera's origin.
    pub open spec fn sray_at(self, x: u32, y: u32) -> Ray {
        let world_direction = self.corner.sadd(self.pixel_step_x.sscale(Fx::sfrom_int(x as int)))
            .sadd(self.pixel_step_y.sscale(Fx::sfrom_int(y as int)));
        Ray { origin: self.base.origin, direction: world_direction.snormalize() }
    }

    pub fn ray_at(&self, coord: (u32, u32)) -> (r: Ray)
        ensures
            r == self.sray_at(coord.0, coord.1),
    {
        let (x, y) = coord;
        let world_direction = self.corner.add(self.pixel_step_x.scale(Fx::from_int(x as i64)))
            .add(self.pixel_step_y.scale(Fx::from_int(y as i64)));
        Ray::normalized(self.base.origin, world_direction)
    }

    /// One pixel's color: the primary ray cast at the full bounce budget,
    /// each channel brought to a byte.
    pub fn trace_pixel(&self, caster: &World, x: u32, y: u32) -> (r: [u8; 3])
        requires
            caster.swf(),
            self.cbounded(),
        ensures
            r@[0] as int == sto_byte(caster.scast(self.sray_at(x, y), TRACE_DEPTH).r),
            r@[1] as int == sto_byte(caster.scast(self.sray_at(x, y), TRACE_DEPTH).g),
            r@[2] as int == sto_byte(caster.scast(self.sray_at(x, y), TRACE_DEPTH).b),
    {
        let ray = self.ray_at((x, y));
        proof {
            crate::algebra::lemma_normalize_bounded(
                self.corner.sadd(self.pixel_step_x.sscale(Fx::sfrom_int(x as int))).sadd(
                    self.pixel_step_y.sscale(Fx::sfrom_int(y as int)),
                ),
            );
        }
        let color = caster.cast(&ray, TRACE_DEPTH);
        [to_byte(color.r), to_byte(color.g), to_byte(color.b)]
    }

    /// Renders the full pixel grid row by row, handing each finished pixel
    /// to the listener and packing it into the image. The pixels are
    /// independent; the `parallel` flag records that a shell may fan them
    /// out over workers, while this body stays the sequential reference.
    pub fn take_photo<L: RenderListener>(
        &self,
        caster: &World,
        on_trace: &mut L,
        parallel: bool,
    ) -> (r: Image)
        requires
            caster.swf(),
            self.cbounded(),
        ensures
            r.width == self.width,
            r.height == self.height,
            r.data@.len() == self.width * self.height * 3,
            forall|x: u32, y: u32|
                x < self.width && y < self.height ==> #[trigger] spixel_ok(
                    r,
                    *self,
                    *caster,
                    x,
                    y,
                ),
    {
        let _ = parallel;
        let mut data: Vec<u8> = Vec::new();
        let mut y: u32 = 0;
        while y < self.height
            invariant
                caster.swf(),
                self.cbounded(),
                y <= self.height,
                data@.len() == y * self.width * 3,
                forall|xx: u32, yy: u32|
                    xx < self.width && yy < y ==> #[trigger] sbytes_ok(
                        data@,
                        self.width,
                        *self,
                        *caster,
                        xx,
                        yy,
                    ),
            decreases self.height - y,
        {
            let mut x: u32 = 0;
            while x < self.width
                invariant
                    caster.swf(),
                    self.cbounded(),
                    y < self.height,
                    x <= self.width,
                    data@.len() == y * self.width * 3 + x * 3,
                    forall|xx: u32, yy: u32|
                        xx < self.width && yy < y ==> #[trigger] sbytes_ok(
                            data@,
                            self.width,
                            *self,
                            *caster,
                            xx,
                            yy,
                        ),
                    forall|xx: u32|
                        xx < x ==> #[trigger] sbytes_ok(data@, self.width, *self, *caster, xx, y),
                decreases self.width - x,
            {
                let ghost data0 = data@;
                let rgb = self.trace_pixel(caster, x, y);
                on_trace.on_pixel(x, y, rgb);
                data.push(rgb[0]);
                data.push(rgb[1]);
                data.push(rgb[2]);
                proof {
                    assert((y * self.width + x) * 3 == y * self.width * 3 + x * 3)
                        by (nonlinear_arith);
                    assert forall|xx: u32, yy: u32|
                        xx < self.width && yy < y implies #[trigger] sbytes_ok(
                        data@,
                        self.width,
                        *self,
                        *caster,
                        xx,
                        yy,
                    ) by {
                        assert(sbytes_ok(data0, self.width, *self, *caster, xx, yy));
                        lemma_offset_in_range(xx, yy, self.width, y, x);
                    }
                    assert forall|xx: u32| xx < x + 1 implies #[trigger] sbytes_ok(
                        data@,
                        self.width,
                        *self,
                        *caster,
                        xx,
                        y,
                    ) by {
                        if xx < x {
                            assert(sbytes_ok(data0, self.width, *self, *caster, xx, y));
                            lemma_offset_in_range(xx, y, self.width, y, x);
                        } else {
                            assert((y * self.width + x) * 3 == data0.len());
                        }
                    }
                }
                x += 1;
            }
            proof {
                assert(y * self.width * 3 + self.width * 3 == (y + 1) * self.width * 3)
                    by (nonlinear_arith);
            }
            y += 1;
        }
        proof {
            assert(self.height * self.width * 3 == self.width * self.height * 3)
                by (nonlinear_arith);
        }
        let r = Image { width: self.width, height: self.height, data };
        proof {
            assert forall|x: u32, y: u32|
                x < self.width && y < self.height implies #[trigger] spixel_ok(
                r,
                *self,
                *caster,
                x,
                y,
            ) by {
                assert(sbytes_ok(r.data@, self.width, *self, *caster, x, y));
            }
        }
        r
    }
}

} // verus!
