use raytrace::{BoundingBox, Fx, Material, Point3, Ray, Vec3, FX_ONE};

fn fxi(v: i64) -> Fx {
    Fx::from_int(v)
}

fn boxed(ax: i64, ay: i64, az: i64, bx: i64, by: i64, bz: i64) -> BoundingBox {
    BoundingBox::new(
        Point3::new(fxi(ax), fxi(ay), fxi(az)),
        Point3::new(fxi(bx), fxi(by), fxi(bz)),
    )
}

#[test]
fn union_idempotent_and_commutative() {
    let a = boxed(0, 0, 0, 1, 2, 3);
    let b = boxed(-1, 1, -2, 4, 1, 9);
    assert_eq!(a.union(&a), a);
    assert_eq!(a.union(&b), b.union(&a));
}

#[test]
fn union_contains_both() {
    let a = boxed(0, 0, 0, 1, 2, 3);
    let b = boxed(-1, 1, -2, 4, 1, 9);
    let u = a.union(&b);
    assert!(u.contains(&a));
    assert!(u.contains(&b));
}

#[test]
fn bbox_ray_hit_and_cap() {
    let b = boxed(0, 0, 0, 1, 1, 1);
    let ray = Ray::new(
        Point3::new(fxi(-1), Fx::from_ratio(1, 2), Fx::from_ratio(1, 2)),
        Vec3::new(fxi(1), fxi(0), fxi(0)),
    );
    // The box face is one unit away: a cap of ten admits it, a cap of a
    // half does not, and touching at exactly one unit counts.
    assert!(b.intersects_ray(&ray, fxi(10)));
    assert!(!b.intersects_ray(&ray, Fx::from_ratio(1, 2)));
    assert!(b.intersects_ray(&ray, fxi(1)));
}

#[test]
fn bbox_ray_degenerate_axis() {
    let b = boxed(0, 0, 0, 1, 1, 1);
    // A zero direction component constrains nothing while the origin lies
    // inside that slab, and rejects when outside it.
    let inside = Ray::new(
        Point3::new(fxi(-1), Fx::from_ratio(1, 2), Fx::from_ratio(1, 2)),
        Vec3::new(fxi(1), fxi(0), fxi(0)),
    );
    assert!(b.intersects_ray(&inside, fxi(10)));
    let outside = Ray::new(
        Point3::new(fxi(-1), fxi(2), Fx::from_ratio(1, 2)),
        Vec3::new(fxi(1), fxi(0), fxi(0)),
    );
    assert!(!b.intersects_ray(&outside, fxi(10)));
}

#[test]
fn empty_box_hits_nothing() {
    let b = BoundingBox::empty();
    let ray = Ray::new(Point3::origin(), Vec3::new(fxi(1), fxi(0), fxi(0)));
    assert!(!b.intersects_ray(&ray, fxi(1000)));
}

#[test]
fn reflect_involution_close() {
    let n = Vec3::new(fxi(0), fxi(1), fxi(0));
    let d = Vec3::new(fxi(1), fxi(-2), fxi(3)).normalize();
    let ray = Ray::new(Point3::origin(), d);
    let once = ray.reflect(n);
    let twice = once.reflect(n);
    let tol = 10000;
    assert!((twice.direction.x.raw - d.x.raw).abs() <= tol);
    assert!((twice.direction.y.raw - d.y.raw).abs() <= tol);
    assert!((twice.direction.z.raw - d.z.raw).abs() <= tol);
}

#[test]
fn refraction_identity_at_one() {
    // A refractive index of one leaves a head-on ray unbent, exactly.
    let d = Vec3::new(fxi(0), fxi(0), fxi(1));
    let n = Vec3::new(fxi(0), fxi(0), fxi(-1));
    let r = Material::refraction_direction(d, n, fxi(1)).unwrap();
    assert_eq!(r.x.raw, 0);
    assert_eq!(r.y.raw, 0);
    assert_eq!(r.z.raw, FX_ONE);
}

#[test]
fn total_internal_reflection_is_none() {
    // Leaving a dense medium at a glancing angle passes the critical angle:
    // no refracted direction exists.
    let d = Vec3::new(fxi(1), Fx::from_ratio(3, 10), fxi(0)).normalize();
    let n = Vec3::new(fxi(0), fxi(1), fxi(0));
    assert!(Material::refraction_direction(d, n, Fx::from_ratio(3, 2)).is_none());
}

#[test]
fn refraction_bends_at_higher_index() {
    // Entering a denser medium tilts the direction toward the normal.
    let d = Vec3::new(fxi(1), fxi(-1), fxi(0)).normalize();
    let n = Vec3::new(fxi(0), fxi(1), fxi(0));
    let r = Material::refraction_direction(d, n, Fx::from_ratio(3, 2)).unwrap();
    // The transverse component shrinks by the index ratio.
    assert!(r.x.raw < d.x.raw);
    assert!(r.y.raw < 0);
}
