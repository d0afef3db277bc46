use raytrace::{
    Color, Fx, Material, Object, Point3, Ray, RenderError, Surface, Texture, Transform, Vec3,
    FX_ONE,
};

fn fxi(v: i64) -> Fx {
    Fx::from_int(v)
}

#[test]
fn test_to_local() {
    let t = Transform::new(
        Vec3::new(fxi(5), fxi(2), fxi(2)),
        Vec3::zeros(),
        Vec3::new(fxi(2), fxi(1), fxi(1)),
    )
    .unwrap();

    let ray = Ray::new(Point3::origin(), Vec3::new(fxi(1), fxi(1), fxi(1)));
    let local_ray = t.to_local_ray(&ray);

    // The origin lands at (-2.5, -2, -2), exactly representable.
    assert_eq!(local_ray.origin.x.raw, -5 * FX_ONE / 2);
    assert_eq!(local_ray.origin.y.raw, -2 * FX_ONE);
    assert_eq!(local_ray.origin.z.raw, -2 * FX_ONE);
    // The direction is the inverse frame applied to (1, 1, 1), kept
    // unnormalized so that the ray parameter carries over.
    assert_eq!(local_ray.direction.x.raw, FX_ONE / 2);
    assert_eq!(local_ray.direction.y.raw, FX_ONE);
    assert_eq!(local_ray.direction.z.raw, FX_ONE);

    // One world unit along this ray is 2/sqrt(3) local units; the exact
    // fixed-point value of the conversion chain.
    assert_eq!(t.to_world_distance(&ray, fxi(1)).raw, 4959401048);
}

#[test]
fn distance_roundtrip_within_quantum() {
    // Converting a distance to local units and back never grows it, and
    // loses at most one conversion quantum.
    let t = Transform::new(
        Vec3::zeros(),
        Vec3::zeros(),
        Vec3::new(fxi(2), fxi(2), fxi(2)),
    )
    .unwrap();
    let ray = Ray::new(Point3::origin(), Vec3::new(fxi(0), fxi(0), fxi(1)));
    let d = fxi(7);
    let back = t.to_world_distance(&ray, t.to_local_distance(&ray, d));
    assert!(back.raw <= d.raw);
    assert!(d.raw - back.raw <= 3);
}

#[test]
fn rotation_to_aligned_and_opposite() {
    let up = Vec3::new(fxi(0), fxi(1), fxi(0));
    let down = Vec3::new(fxi(0), fxi(-1), fxi(0));
    let same = Transform::rotation_to(up, up);
    assert_eq!(same.x.raw, 0);
    assert_eq!(same.y.raw, 0);
    assert_eq!(same.z.raw, 0);
    // Opposite directions rotate by pi around an orthogonal axis.
    let flip = Transform::rotation_to(up, down);
    let mag = flip.magnitude();
    let pi = Fx::pi();
    assert!((mag.raw - pi.raw).abs() < FX_ONE / 1000);
}

#[test]
fn world_hit_matches_ray_point() {
    // The local ray shares its parameter with the world ray, so the hit
    // the object reports lies on the world ray at the reported distance.
    let tex = Texture::Solid(Surface::new(
        Color::new(fxi(1), fxi(1), fxi(1)),
        Material::default(),
    ));
    let obj = Object::sphere(Point3::new(fxi(0), fxi(0), fxi(5)), fxi(2), &tex).unwrap();
    let ray = Ray::normalized(Point3::origin(), Vec3::new(fxi(0), fxi(0), fxi(1)));
    let d = obj.distance(&ray).unwrap();
    assert_eq!(d.raw, 3 * FX_ONE);
    let hit = obj.hit(&ray, d);
    let on_ray = ray.at(d);
    let tol = 1000;
    assert!((hit.position.x.raw - on_ray.x.raw).abs() <= tol);
    assert!((hit.position.y.raw - on_ray.y.raw).abs() <= tol);
    assert!((hit.position.z.raw - on_ray.z.raw).abs() <= tol);
}

#[test]
fn singular_transform_rejected() {
    let r = Transform::new(Vec3::zeros(), Vec3::zeros(), Vec3::new(fxi(0), fxi(1), fxi(1)));
    assert_eq!(r.unwrap_err(), RenderError::SingularTransform);
}
