use raytrace::{
    Camera, Color, Fx, Light, Material, Object, Point3, Ray, RenderError, RenderListener, Scene,
    Surface, Texture, TraceRenderConfig, TraceRenderer, Vec3, World, FX_ONE,
};

fn fxi(v: i64) -> Fx {
    Fx::from_int(v)
}

fn white() -> Color {
    Color::new(fxi(1), fxi(1), fxi(1))
}

fn solid_white() -> Texture {
    Texture::Solid(Surface::new(white(), Material::default()))
}

struct Sink;

impl RenderListener for Sink {
    fn on_pixel(&mut self, _x: u32, _y: u32, _rgb: [u8; 3]) {}
}

struct Counter {
    seen: u64,
}

impl RenderListener for Counter {
    fn on_pixel(&mut self, _x: u32, _y: u32, _rgb: [u8; 3]) {
        self.seen += 1;
    }
}

fn forward_camera(width: u32, height: u32) -> Camera {
    let base = Ray::normalized(Point3::origin(), Vec3::new(fxi(0), fxi(0), fxi(1)));
    Camera::new(base, width, height, fxi(50)).unwrap()
}

#[test]
fn empty_scene_single_pixel_is_black() {
    let scene = Scene::new();
    let world = World::from_scene(&scene);
    let camera = forward_camera(1, 1);
    let image = camera.take_photo(&world, &mut Sink, false);
    assert_eq!(image.get_pixel(0, 0), [0, 0, 0]);
}

#[test]
fn lit_sphere_gray_pixel() {
    let mut scene = Scene::new();
    scene.add(Object::sphere(Point3::new(fxi(0), fxi(0), fxi(5)), fxi(1), &solid_white()).unwrap());
    scene.add_light(Light::new(
        Ray::new(Point3::new(fxi(0), fxi(100), fxi(-95)), Vec3::new(fxi(0), fxi(-1), fxi(0))),
        white(),
    ));
    let world = World::from_scene(&scene);
    let camera = forward_camera(1, 1);
    let image = camera.take_photo(&world, &mut Sink, false);
    let [r, g, b] = image.get_pixel(0, 0);
    // The diffuse cosine term: equal channels, clearly gray.
    assert_eq!(r, g);
    assert_eq!(g, b);
    assert!(r >= 40 && r <= 230, "channel {}", r);
}

#[test]
fn occluded_sphere_shows_cube_color() {
    let blue = Texture::Solid(Surface::new(
        Color::new(fxi(0), fxi(0), fxi(1)),
        Material::default(),
    ));
    let mut scene = Scene::new();
    scene.add(Object::sphere(Point3::new(fxi(0), fxi(0), fxi(5)), fxi(1), &solid_white()).unwrap());
    scene.add(
        Object::cube(Point3::new(fxi(0), fxi(0), fxi(2)), fxi(1), &blue).unwrap(),
    );
    scene.add_light(Light::new(
        Ray::new(Point3::new(fxi(0), fxi(0), fxi(-10)), Vec3::new(fxi(0), fxi(0), fxi(1))),
        white(),
    ));
    let world = World::from_scene(&scene);
    let camera = forward_camera(1, 1);
    let image = camera.take_photo(&world, &mut Sink, false);
    let [r, g, b] = image.get_pixel(0, 0);
    // The sphere is white; any white in the pixel would show in r and g.
    // Only the cube's blue remains.
    assert_eq!(r, 0);
    assert_eq!(g, 0);
    assert!(b >= 250, "blue channel {}", b);
}

#[test]
fn mirror_ball_over_checkerboard_is_lit() {
    let mat = Material::default();
    let mirror = Material {
        reflectivity: Fx::from_ratio(9, 10),
        ..Material::default()
    };
    let green = Color::new(fxi(0), fxi(1), fxi(0));
    let checker = Texture::Checkerboard(raytrace::CheckerboardTexture::new(
        Surface::new(white(), mat),
        Surface::new(green, mat),
        Fx::from_ratio(1, 4),
    ));
    let mut scene = Scene::new();
    scene.add(
        Object::plane(
            Point3::new(fxi(0), fxi(-3), fxi(0)),
            Vec3::new(fxi(0), fxi(1), fxi(0)),
            &checker,
        )
        .unwrap(),
    );
    scene.add(
        Object::sphere(
            Point3::new(fxi(0), fxi(0), fxi(6)),
            fxi(2),
            &Texture::Solid(Surface::new(white(), mirror)),
        )
        .unwrap(),
    );
    scene.add_light(Light::new(
        Ray::new(Point3::new(fxi(0), fxi(50), fxi(-20)), Vec3::new(fxi(0), fxi(-1), fxi(0))),
        white(),
    ));
    let world = World::from_scene(&scene);
    let camera = forward_camera(9, 9);
    let image = camera.take_photo(&world, &mut Sink, false);
    // Somewhere the mirror ball or the floor reflects light: the frame is
    // not all black.
    assert!(image.data.iter().any(|&v| v > 0));
}

#[test]
fn render_driver_dimensions_and_stream() {
    let renderer = TraceRenderer::new(TraceRenderConfig { parallel: false });
    let scene = Scene::new();
    let mut counter = Counter { seen: 0 };
    let image = renderer.render_scene(&scene, 4, 3, &mut counter).unwrap();
    assert_eq!(image.width, 4);
    assert_eq!(image.height, 3);
    assert_eq!(image.data.len(), 4 * 3 * 3);
    assert_eq!(counter.seen, 12);
}

#[test]
fn invalid_camera_config_rejected() {
    let base = Ray::normalized(Point3::origin(), Vec3::new(fxi(0), fxi(0), fxi(1)));
    assert_eq!(
        Camera::new(base, 0, 1, fxi(50)).unwrap_err(),
        RenderError::InvalidConfig
    );
    assert_eq!(
        Camera::new(base, 1, 0, fxi(50)).unwrap_err(),
        RenderError::InvalidConfig
    );
    assert_eq!(
        Camera::new(base, 1, 1, fxi(180)).unwrap_err(),
        RenderError::InvalidConfig
    );
    assert_eq!(
        Camera::new(base, 1, 1, fxi(0)).unwrap_err(),
        RenderError::InvalidConfig
    );
    let renderer = TraceRenderer::new(TraceRenderConfig { parallel: false });
    let scene = Scene::new();
    assert!(renderer.render_scene(&scene, 0, 5, &mut Sink).is_err());
}

#[test]
fn singular_object_rejected() {
    assert_eq!(
        Object::sphere(Point3::origin(), fxi(0), &solid_white()).unwrap_err(),
        RenderError::SingularTransform
    );
    assert_eq!(
        Object::cube(Point3::origin(), fxi(0), &solid_white()).unwrap_err(),
        RenderError::SingularTransform
    );
}

#[test]
fn cast_at_zero_depth_is_black() {
    let mut scene = Scene::new();
    scene.add(Object::sphere(Point3::new(fxi(0), fxi(0), fxi(5)), fxi(1), &solid_white()).unwrap());
    scene.add_light(Light::new(
        Ray::new(Point3::new(fxi(0), fxi(100), fxi(-95)), Vec3::new(fxi(0), fxi(-1), fxi(0))),
        white(),
    ));
    let world = World::from_scene(&scene);
    let ray = Ray::normalized(Point3::origin(), Vec3::new(fxi(0), fxi(0), fxi(1)));
    let c = world.cast(&ray, 0);
    assert_eq!(c, Color::black());
}

#[test]
fn center_ray_of_single_pixel_looks_forward() {
    // With the half-pixel offset folded into the corner, the only ray of a
    // one-pixel image is the camera's forward direction.
    let camera = forward_camera(1, 1);
    let ray = camera.ray_at((0, 0));
    assert_eq!(ray.direction.x.raw, 0);
    assert_eq!(ray.direction.y.raw, 0);
    assert_eq!(ray.direction.z.raw, raytrace::FX_ONE);
}

#[test]
fn to_byte_rounds_and_clamps() {
    assert_eq!(raytrace::to_byte(fxi(1)), 255);
    assert_eq!(raytrace::to_byte(fxi(0)), 0);
    assert_eq!(raytrace::to_byte(fxi(-2)), 0);
    assert_eq!(raytrace::to_byte(fxi(7)), 255);
    // 0.5 scales to 127.5, which rounds up.
    assert_eq!(raytrace::to_byte(Fx::from_ratio(1, 2)), 128);
    assert_eq!(raytrace::to_byte(Fx::from_ratio(1, 4)), 64);
}

#[test]
fn total_internal_reflection_contributes_black() {
    // A glancing ray leaving a dense medium through the plane `y = 0`:
    // past the critical angle the refracted bounce is black, so the pixel
    // equals what the same surface yields with refraction disabled.
    let refractive = Material {
        refractive: Fx::from_ratio(3, 2),
        ..Material::default()
    };
    let plain = Material::default();
    let color = Color::new(fxi(1), fxi(1), fxi(1));
    let light = Light::new(
        Ray::new(Point3::new(fxi(0), fxi(50), fxi(0)), Vec3::new(fxi(0), fxi(-1), fxi(0))),
        white(),
    );
    let build = |m: Material| -> World {
        let mut scene = Scene::new();
        scene.add(
            Object::plane(
                Point3::new(fxi(0), fxi(0), fxi(0)),
                Vec3::new(fxi(0), fxi(1), fxi(0)),
                &Texture::Solid(Surface::new(color, m)),
            )
            .unwrap(),
        );
        scene.add_light(light);
        World::from_scene(&scene)
    };
    let with_refraction = build(refractive);
    let without_refraction = build(plain);
    // From below the plane, rising gently: the exit ray is past the
    // critical angle of a 1.5 medium.
    let ray = Ray::normalized(
        Point3::new(fxi(0), fxi(-1), fxi(0)),
        Vec3::new(fxi(10), fxi(3), fxi(0)),
    );
    assert!(Material::refraction_direction(ray.direction, Vec3::new(fxi(0), fxi(1), fxi(0)), Fx::from_ratio(3, 2)).is_none());
    let a = with_refraction.cast(&ray, 5);
    let b = without_refraction.cast(&ray, 5);
    assert_eq!(a, b);
}

#[test]
fn frame_pacer_backoff() {
    let mut p = raytrace::FramePacer::new(1000);
    // A fast frame sleeps out the remainder and keeps the interval.
    assert_eq!(p.on_frame(400), 600);
    assert_eq!(p.current_us, 1000);
    // A slow frame is sent at once and the interval widens by half.
    assert_eq!(p.on_frame(1000), 0);
    assert_eq!(p.current_us, 1500);
    assert_eq!(p.target_us, 1000);
}

#[test]
fn emission_only_for_pure_mirror_without_budget() {
    let m = Material {
        reflectivity: fxi(1),
        emission: Color::new(Fx::from_ratio(1, 4), fxi(0), fxi(0)),
        refractive: fxi(1),
    };
    let scene = Scene::new();
    let world = World::from_scene(&scene);
    let hit = raytrace::HitResult {
        position: Point3::origin(),
        normal: Vec3::new(fxi(0), fxi(1), fxi(0)),
        coords: (fxi(0), fxi(0)),
    };
    let ray = Ray::normalized(Point3::origin(), Vec3::new(fxi(0), fxi(0), fxi(1)));
    let c = m.shade(&ray, &hit, white(), &world, 0);
    assert_eq!(c.r.raw, FX_ONE / 4);
    assert_eq!(c.g.raw, 0);
    assert_eq!(c.b.raw, 0);
}
