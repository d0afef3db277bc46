use raytrace::{
    closest_in_list, Color, Fx, Material, Object, Point3, Ray, Scene, Surface, Texture, Vec3,
    World,
};

fn fxi(v: i64) -> Fx {
    Fx::from_int(v)
}

fn solid() -> Texture {
    Texture::Solid(Surface::new(
        Color::new(fxi(1), fxi(1), fxi(1)),
        Material::default(),
    ))
}

struct Lcg {
    state: u64,
}

impl Lcg {
    fn new(seed: u64) -> Lcg {
        Lcg { state: seed }
    }

    fn next(&mut self) -> u64 {
        self.state = self
            .state
            .wrapping_mul(6364136223846793005)
            .wrapping_add(1442695040888963407);
        self.state >> 33
    }

    /// A value in `[lo, hi)`.
    fn range(&mut self, lo: i64, hi: i64) -> i64 {
        lo + (self.next() % ((hi - lo) as u64)) as i64
    }
}

/// Random spheres in a cube, queried by random rays: the octree agrees with
/// the plain scan over all objects, hit for hit and distance for distance.
#[test]
fn octree_matches_brute_force() {
    let mut rng = Lcg::new(42);
    let mut scene = Scene::new();
    for _ in 0..60 {
        let c = Point3::new(
            fxi(rng.range(0, 100)),
            fxi(rng.range(0, 100)),
            fxi(rng.range(0, 100)),
        );
        let r = fxi(rng.range(3, 10));
        scene.add(Object::sphere(c, r, &solid()).unwrap());
    }
    let world = World::from_scene(&scene);
    let mut idxs: Vec<usize> = Vec::new();
    for k in 0..world.objects.len() {
        idxs.push(k);
    }
    let mut hits = 0u32;
    for _ in 0..300 {
        let origin = Point3::new(
            fxi(rng.range(-20, 120)),
            fxi(rng.range(-20, 120)),
            fxi(rng.range(-20, 120)),
        );
        let mut d = Vec3::new(
            fxi(rng.range(-9, 10)),
            fxi(rng.range(-9, 10)),
            fxi(rng.range(-9, 10)),
        );
        if d.x.raw == 0 && d.y.raw == 0 && d.z.raw == 0 {
            d = Vec3::new(fxi(1), fxi(0), fxi(0));
        }
        let ray = Ray::normalized(origin, d);
        let fast = world.cast_intersection(&ray);
        let brute = closest_in_list(&world.objects, &idxs, &ray, Fx::infinity());
        match (fast, brute) {
            (None, None) => {},
            (Some(a), Some(b)) => {
                hits += 1;
                assert_eq!(a.distance, b.distance);
                assert_eq!(a.object, b.object);
            },
            (a, b) => panic!("octree {:?} vs scan {:?}", a.is_some(), b.is_some()),
        }
    }
    // The scene is dense enough that many rays hit something.
    assert!(hits > 10, "only {} hits", hits);
}

/// The same agreement at the scale of a large scene: many random spheres in
/// a wide cube, probed by many random rays.
#[test]
fn octree_matches_brute_force_large() {
    let mut rng = Lcg::new(7);
    let mut scene = Scene::new();
    for _ in 0..1000 {
        let c = Point3::new(
            fxi(rng.range(0, 100)),
            fxi(rng.range(0, 100)),
            fxi(rng.range(0, 100)),
        );
        let r = fxi(rng.range(1, 6));
        scene.add(Object::sphere(c, r, &solid()).unwrap());
    }
    let world = World::from_scene(&scene);
    let mut idxs: Vec<usize> = Vec::new();
    for k in 0..world.objects.len() {
        idxs.push(k);
    }
    let mut hits = 0u32;
    for _ in 0..10000 {
        let origin = Point3::new(
            fxi(rng.range(-20, 120)),
            fxi(rng.range(-20, 120)),
            fxi(rng.range(-20, 120)),
        );
        let mut d = Vec3::new(
            fxi(rng.range(-9, 10)),
            fxi(rng.range(-9, 10)),
            fxi(rng.range(-9, 10)),
        );
        if d.x.raw == 0 && d.y.raw == 0 && d.z.raw == 0 {
            d = Vec3::new(fxi(1), fxi(0), fxi(0));
        }
        let ray = Ray::normalized(origin, d);
        let fast = world.cast_intersection(&ray);
        let brute = closest_in_list(&world.objects, &idxs, &ray, Fx::infinity());
        match (fast, brute) {
            (None, None) => {},
            (Some(a), Some(b)) => {
                hits += 1;
                assert_eq!(a.distance, b.distance);
                assert_eq!(a.object, b.object);
            },
            (a, b) => panic!("octree {:?} vs scan {:?}", a.is_some(), b.is_some()),
        }
    }
    assert!(hits > 1000, "only {} hits", hits);
}

/// A point with a clear line to the light is not occluded: the shadow query
/// answers false when nothing stands within the distance.
#[test]
fn unshadowed_point_reports_clear() {
    let mut scene = Scene::new();
    scene.add(Object::sphere(Point3::new(fxi(0), fxi(0), fxi(50)), fxi(1), &solid()).unwrap());
    let world = World::from_scene(&scene);
    // A shadow ray from near the origin pointing away from the sphere.
    let ray = Ray::new(
        Point3::new(fxi(0), fxi(1), fxi(0)),
        Vec3::new(fxi(0), fxi(1), fxi(0)),
    );
    assert!(!world.is_something_within_distance(&ray, fxi(1)));
    // And toward the sphere, it does block once the cap reaches it.
    let toward = Ray::new(
        Point3::new(fxi(0), fxi(0), fxi(0)),
        Vec3::new(fxi(0), fxi(0), fxi(1)),
    );
    assert!(world.is_something_within_distance(&toward, fxi(100)));
    assert!(!world.is_something_within_distance(&toward, fxi(10)));
}
