use raytrace::{
    CheckerboardTexture, Color, Cube, Fx, Material, Plane, Point3, Ray, Sphere, Surface, Vec3,
    FX_ONE,
};

fn fxi(v: i64) -> Fx {
    Fx::from_int(v)
}

#[test]
fn distance() {
    let sphere = Sphere::new();
    let ray = Ray::new(
        Point3::new(fxi(0), fxi(0), fxi(-10)),
        Vec3::new(fxi(0), fxi(0), fxi(2)),
    );
    let distance = sphere.distance(&ray).unwrap();
    // 4.5 in raw units; the quadratic solves exactly at this input.
    assert_eq!(9 * FX_ONE / 2, distance.raw);
}

#[test]
fn sphere_miss_behind() {
    let sphere = Sphere::new();
    let ray = Ray::new(
        Point3::new(fxi(0), fxi(0), fxi(10)),
        Vec3::new(fxi(0), fxi(0), fxi(1)),
    );
    assert!(sphere.distance(&ray).is_none());
}

#[test]
fn cube_distance_head_on() {
    let cube = Cube::new();
    let ray = Ray::new(
        Point3::new(fxi(0), fxi(0), fxi(-10)),
        Vec3::new(fxi(0), fxi(0), fxi(1)),
    );
    let d = cube.distance(&ray).unwrap();
    // The face at z = -0.5 is 9.5 units away.
    assert_eq!(d.raw, 19 * FX_ONE / 2);
}

#[test]
fn cube_touch_is_miss() {
    let cube = Cube::new();
    // A diagonal ray that only touches the cube's edge: the entry and exit
    // parameters coincide, and touching does not count.
    let ray = Ray::new(
        Point3::new(fxi(-1), fxi(0), fxi(0)),
        Vec3::new(fxi(1), fxi(1), fxi(0)),
    );
    assert!(cube.distance(&ray).is_none());
}

#[test]
fn plane_distance_and_parallel_miss() {
    let plane = Plane::new();
    let down = Ray::new(
        Point3::new(fxi(3), fxi(7), fxi(0)),
        Vec3::new(fxi(0), fxi(-1), fxi(0)),
    );
    assert_eq!(plane.distance(&down).unwrap().raw, 7 * FX_ONE);
    let level = Ray::new(
        Point3::new(fxi(0), fxi(1), fxi(0)),
        Vec3::new(fxi(1), fxi(0), fxi(0)),
    );
    assert!(plane.distance(&level).is_none());
}

#[test]
fn cube_normal_dominant_axis() {
    let cube = Cube::new();
    let ray = Ray::new(
        Point3::new(fxi(0), fxi(0), fxi(-10)),
        Vec3::new(fxi(0), fxi(0), fxi(1)),
    );
    let d = cube.distance(&ray).unwrap();
    let hit = cube.hit(&ray, d);
    assert_eq!(hit.normal.x.raw, 0);
    assert_eq!(hit.normal.y.raw, 0);
    assert_eq!(hit.normal.z.raw, -FX_ONE);
}

fn checker() -> CheckerboardTexture {
    let s1 = Surface::new(
        Color::new(fxi(1), fxi(0), fxi(0)),
        Material::default(),
    );
    let s2 = Surface::new(
        Color::new(fxi(0), fxi(1), fxi(0)),
        Material::default(),
    );
    CheckerboardTexture::new(s1, s2, fxi(1))
}

#[test]
fn checkerboard_alternates() {
    let t = checker();
    let half = Fx::from_ratio(1, 2);
    let three_half = Fx::from_ratio(3, 2);
    let neg_half = Fx::from_ratio(-1, 2);
    // (0,0): even checker; one step in u: odd; a negative floor flips too.
    assert_eq!(t.surface_at((half, half)).color.r.raw, FX_ONE);
    assert_eq!(t.surface_at((three_half, half)).color.g.raw, FX_ONE);
    assert_eq!(t.surface_at((neg_half, half)).color.g.raw, FX_ONE);
    assert_eq!(t.surface_at((neg_half, three_half)).color.r.raw, FX_ONE);
}

#[test]
fn bench() {
    let s1 = Surface::new(Color::new(fxi(1), fxi(0), fxi(0)), Material::default());
    let s2 = Surface::new(Color::new(fxi(0), fxi(1), fxi(0)), Material::default());
    let t = CheckerboardTexture::new(s1, s2, fxi(1));
    let half = Fx::from_ratio(1, 2);
    let time = std::time::Instant::now();
    for _ in 0..100000000u64 {
        std::hint::black_box(t.surface_at((half, half)));
    }
    println!("{:?}", time.elapsed());
}
