use vstd::prelude::*;
use crate::algebra::{Point3, Ray, Vec3};
use crate::camera::{spixel_ok, Camera, Image};
use crate::fx::{Fx, FX_ONE};
use crate::scene::Scene;
use crate::transform::RenderError;
use crate::world::World;

verus! {

/// The driver's fixed camera ray: the origin, looking slightly upward along
/// the depth axis. `Ray::normalized` normalizes the already normalized hint
/// once more, so the mirror does too.
pub open spec fn sdriver_base() -> Ray {
    let hint = Vec3 { x: Fx { raw: 0 }, y: Fx { raw: 429496729 }, z: Fx { raw: FX_ONE } };
    Ray {
        origin: Point3 { x: Fx { raw: 0 }, y: Fx { raw: 0 }, z: Fx { raw: 0 } },
        direction: hint.snormalize().snormalize(),
    }
}

/// Where finished pixels are streamed: a sink the shell implements, fed from
/// the render loop. Delivery order across pixels is not promised; each
/// message carries its own coordinates.
pub trait RenderListener {
    fn on_pixel(&mut self, x: u32, y: u32, rgb: [u8; 3]);
}

/// Something that renders a scene into an image while streaming pixels.
pub trait Renderer {
    fn render<L: RenderListener>(
        &self,
        scene: &Scene,
        width: u32,
        height: u32,
        tx: &mut L,
    ) -> Result<Image, RenderError>;
}

/// How the tracer is driven.
pub struct TraceRenderConfig {
    pub parallel: bool,
}

/// The render driver: builds the world and the camera and takes the photo.
pub struct TraceRenderer {
    pub config: TraceRenderConfig,
}

impl TraceRenderer {
    pub fn new(config: TraceRenderConfig) -> (r: TraceRenderer)
        ensures
            r.config == config,
    {
        TraceRenderer { config }
    }

    /// Renders the scene at the fixed camera placement: origin, looking
    /// slightly upward along the depth axis, with a 50 degree field of view.
    /// A degenerate image size is rejected.
    pub fn render_scene<L: RenderListener>(
        &self,
        scene: &Scene,
        width: u32,
        height: u32,
        tx: &mut L,
    ) -> (r: Result<Image, RenderError>)
        ensures
            r is Ok <==> width > 0 && height > 0,
            r matches Ok(img) ==> img.width == width && img.height == height && img.data@.len()
                == width * height * 3,
            r matches Ok(img) ==> exists|w: World|
                #![auto]
                w.swf() && w.objects@ == scene.objects@ && w.lights@ == scene.lights@ && (forall|
                    x: u32,
                    y: u32,
                |
                    x < width && y < height ==> spixel_ok(
                        img,
                        Camera::scamera(sdriver_base(), width, height, Fx::sfrom_int(50)),
                        w,
                        x,
                        y,
                    )),
            r matches Err(e) ==> e == RenderError::InvalidConfig,
    {
        let world = World::from_scene(scene);
        let camera_base = Ray::normalized(
            Point3::origin(),
            Vec3::new(Fx::zero(), Fx::from_ratio(1, 10), Fx::one()).normalize(),
        );
        proof {
            crate::algebra::lemma_normalize_bounded(
                Vec3 { x: Fx { raw: 0 }, y: Fx { raw: 429496729 }, z: Fx { raw: crate::fx::FX_ONE } },
            );
            crate::algebra::lemma_normalize_bounded(
                (Vec3 {
                    x: Fx { raw: 0 },
                    y: Fx { raw: 429496729 },
                    z: Fx { raw: crate::fx::FX_ONE },
                }).snormalize(),
            );
        }
        proof {
            assert(4294967296int / 10 == 429496729int);
            assert(crate::fx::sdiv_raw(1, 10) == 429496729int);
            let hint = Vec3 { x: Fx { raw: 0 }, y: Fx { raw: 429496729 }, z: Fx { raw: FX_ONE } };
            assert(camera_base.origin == sdriver_base().origin);
            assert(camera_base.direction == hint.snormalize().snormalize());
            assert(camera_base == sdriver_base());
        }
        let camera = match Camera::new(camera_base, width, height, Fx::from_int(50)) {
            Ok(c) => c,
            Err(e) => {
                return Err(e);
            },
        };
        proof {
            assert(camera == Camera::scamera(sdriver_base(), width, height, Fx::sfrom_int(50)));
        }
        let img = camera.take_photo(&world, tx, self.config.parallel);
        proof {
            assert(world.swf() && world.objects@ == scene.objects@ && world.lights@
                == scene.lights@);
        }
        Ok(img)
    }
}

impl Renderer for TraceRenderer {
    fn render<L: RenderListener>(
        &self,
        scene: &Scene,
        width: u32,
        height: u32,
        tx: &mut L,
    ) -> Result<Image, RenderError> {
        self.render_scene(scene, width, height, tx)
    }
}

} // verus!
