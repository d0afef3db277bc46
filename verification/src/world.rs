use vstd::prelude::*;
use crate::fx::{Fx, FX_ONE};
use crate::algebra::{Point3, Ray, Vec3};
use crate::geometry::HitResult;
use crate::otree::{
    any_in_list, bridged, closest_in_list, hits_within_incl, list_has, min_clause, sany_in_list,
    sclosest_in_list, sound_hit, Intersection, Octree, OctreeConfig,
};
use crate::scene::{Color, Light, Material, Object, Scene};

verus! {

/// The shadow-ray offset along the surface normal, about one ten-thousandth
/// of a world unit, against self-intersection.
pub const OFF_SURFACE_RAW: i64 = 429497;

/// How many objects a scene may hold before the octree takes over from the
/// plain list.
pub const OCTREE_THRESHOLD: usize = 20;

/// A light as the data model demands it: nonnegative color channels.
pub open spec fn light_ok(l: Light) -> bool {
    0 <= l.color.r.raw && 0 <= l.color.g.raw && 0 <= l.color.b.raw
}

/// A well-formed light never contributes a negative channel.
pub proof fn lemma_illuminate_nonneg(l: Light, position: Point3, normal: Vec3)
    requires
        light_ok(l),
    ensures
        0 <= l.silluminate(position, normal).r.raw,
        0 <= l.silluminate(position, normal).g.raw,
        0 <= l.silluminate(position, normal).b.raw,
{
    let fraction = l.stowards_direction(position).scos_angle(normal);
    if fraction.raw > 0 {
        crate::fx::lemma_smul_nonneg(l.color.r, fraction);
        crate::fx::lemma_smul_nonneg(l.color.g, fraction);
        crate::fx::lemma_smul_nonneg(l.color.b, fraction);
    }
}

/// The acceleration structure the world queries: the octree for scenes of
/// nontrivial size, a plain index list otherwise.
pub enum WorldRoot {
    Tree(Octree),
    List(Vec<usize>),
}

/// The ray caster: the scene's objects, the structure that accelerates their
/// queries, and the lights.
pub struct World {
    pub objects: Vec<Object>,
    pub root: WorldRoot,
    pub lights: Vec<Light>,
}

impl World {
    /// The world's invariant: the root structure is well formed and holds
    /// exactly the valid object indices.
    pub open spec fn swf(self) -> bool {
        match self.root {
            WorldRoot::Tree(t) => t.swf(self.objects@) && (forall|j: int|
                #[trigger] t.in_tree(j) == (0 <= j < self.objects@.len())),
            WorldRoot::List(v) => (forall|m: int|
                0 <= m < v@.len() ==> (#[trigger] v@[m]) < self.objects@.len()) && (forall|j: int|
                #[trigger] list_has(v@, j) == (0 <= j < self.objects@.len())),
        }
    }

    /// The data model's demand on lights: channels are nonnegative.
    pub open spec fn slights_ok(self) -> bool {
        forall|i: int| 0 <= i < self.lights@.len() ==> light_ok(#[trigger] self.lights@[i])
    }

    /// What the world's closest query computes, unbounded.
    pub open spec fn sclosest(self, ray: Ray) -> Option<Intersection> {
        match self.root {
            WorldRoot::Tree(t) => t.soctree_closest(
                self.objects@,
                ray,
                Fx { raw: crate::fx::FX_INF_RAW },
            ),
            WorldRoot::List(v) => sclosest_in_list(
                self.objects@,
                v@,
                ray,
                Fx { raw: crate::fx::FX_INF_RAW },
            ),
        }
    }

    /// What the world's occlusion test computes.
    pub open spec fn sany_within(self, ray: Ray, distance: Fx) -> bool {
        match self.root {
            WorldRoot::Tree(t) => t.soctree_any(self.objects@, ray, distance),
            WorldRoot::List(v) => sany_in_list(self.objects@, v@, ray, distance),
        }
    }

    /// Whether the light's shadow ray from the point finds an occluder
    /// within one unit.
    pub open spec fn sis_shadowed(self, position: Point3, light: Light) -> bool {
        self.sany_within(light.stowards(position), Fx { raw: FX_ONE })
    }

    /// The direct-lighting fold over the first `n` lights, in insertion
    /// order: skip a light behind the surface, skip a shadowed one, else
    /// accumulate its cosine-weighted color with each channel clamped at
    /// one.
    pub open spec fn sdirect_upto(self, n: int, position: Point3, normal: Vec3) -> Color
        decreases n,
    {
        if n <= 0 {
            Color::sblack()
        } else {
            let c = self.sdirect_upto(n - 1, position, normal);
            let l = self.lights@[n - 1];
            let color = l.silluminate(position, normal);
            if color == Color::sblack() {
                c
            } else {
                let p = (Ray { origin: position, direction: normal }).sat(
                    Fx { raw: OFF_SURFACE_RAW },
                );
                if self.sis_shadowed(p, l) {
                    c
                } else {
                    c.sadd_clamped(color)
                }
            }
        }
    }

    pub open spec fn sdirect_lighting(self, position: Point3, normal: Vec3) -> Color {
        self.sdirect_upto(self.lights@.len() as int, position, normal)
    }

    /// What a cast computes: black on an exhausted budget or a miss, else
    /// the closest hit's surface shaded.
    pub open spec fn scast(self, ray: Ray, depth: u32) -> Color
        decreases depth, 2int,
    {
        if depth == 0 {
            Color::sblack()
        } else {
            match self.sclosest(ray) {
                Some(i) => {
                    let obj = self.objects@[i.object as int];
                    let hr = obj.shit(ray, i.distance);
                    let surface = obj.texture.ssurface_at(hr.coords);
                    surface.material.sshade(ray, hr, surface.color, self, depth)
                },
                None => Color::sblack(),
            }
        }
    }

    /// Builds a world over the objects: larger scenes get the octree.
    pub fn new(objects: Vec<Object>) -> (r: World)
        ensures
            r.swf(),
            r.slights_ok(),
            r.objects == objects,
            r.lights@.len() == 0,
    {
        let root = if objects.len() > OCTREE_THRESHOLD {
            WorldRoot::Tree(
                Octree::new(OctreeConfig::new(8, 5, Fx::from_ratio(3, 2)), &objects),
            )
        } else {
            let mut v: Vec<usize> = Vec::new();
            let mut k: usize = 0;
            while k < objects.len()
                invariant
                    k <= objects@.len(),
                    v@.len() == k,
                    forall|m: int| 0 <= m < v@.len() ==> #[trigger] v@[m] == m,
                decreases objects@.len() - k,
            {
                v.push(k);
                k += 1;
            }
            proof {
                assert forall|j: int| #[trigger] list_has(v@, j) == (0 <= j
                    < objects@.len()) by {
                    if list_has(v@, j) {
                        let m = choose|m: int| 0 <= m < v@.len() && #[trigger] v@[m] as int == j;
                    }
                    if 0 <= j < objects@.len() {
                        assert(v@[j] as int == j);
                    }
                }
            }
            WorldRoot::List(v)
        };
        World { objects, root, lights: Vec::new() }
    }

    /// Builds a world from an authored scene, copying its objects and
    /// lights.
    pub fn from_scene(scene: &Scene) -> (r: World)
        ensures
            r.swf(),
            r.objects@ == scene.objects@,
            r.lights@ == scene.lights@,
            (forall|i: int| 0 <= i < scene.lights@.len() ==> light_ok(#[trigger] scene.lights@[i]))
                ==> r.slights_ok(),
    {
        let mut objects: Vec<Object> = Vec::new();
        let mut k: usize = 0;
        while k < scene.objects.len()
            invariant
                k <= scene.objects@.len(),
                objects@ == scene.objects@.take(k as int),
            decreases scene.objects@.len() - k,
        {
            objects.push(scene.objects[k]);
            proof {
                assert(objects@ =~= scene.objects@.take(k as int + 1));
            }
            k += 1;
        }
        proof {
            assert(objects@ =~= scene.objects@);
        }
        let mut w = World::new(objects);
        let mut li: usize = 0;
        while li < scene.lights.len()
            invariant
                li <= scene.lights@.len(),
                w.lights@ == scene.lights@.take(li as int),
                w.swf(),
                w.objects@ == scene.objects@,
            decreases scene.lights@.len() - li,
        {
            w.add_light(scene.lights[li]);
            proof {
                assert(w.lights@ =~= scene.lights@.take(li as int + 1));
            }
            li += 1;
        }
        proof {
            assert(w.lights@ =~= scene.lights@);
        }
        w
    }

    pub fn add_light(&mut self, light: Light)
        ensures
            final(self).lights@ == old(self).lights@.push(light),
            final(self).objects == old(self).objects,
            final(self).root == old(self).root,
            old(self).swf() ==> final(self).swf(),
            old(self).slights_ok() && light_ok(light) ==> final(self).slights_ok(),
    {
        self.lights.push(light);
        proof {
            if old(self).slights_ok() && light_ok(light) {
                assert forall|i: int|
                    0 <= i < self.lights@.len() implies light_ok(#[trigger] self.lights@[i]) by {
                    if i < old(self).lights@.len() {
                        assert(self.lights@[i] == old(self).lights@[i]);
                    }
                }
            }
        }
    }

    /// The closest hit of the ray over the whole scene, unbounded: a found
    /// hit is real, and no object whose reported hit stays boxed is closer.
    pub fn cast_intersection(&self, ray: &Ray) -> (r: Option<Intersection>)
        requires
            self.swf(),
            ray.bounded(),
        ensures
            r == self.sclosest(*ray),
            sound_hit(r, self.objects@, *ray, Fx { raw: crate::fx::FX_INF_RAW }),
            r matches Some(it) ==> it.object < self.objects@.len(),
            forall|j: int|
                0 <= j < self.objects@.len() && bridged(self.objects@, j, *ray)
                    ==> #[trigger] min_clause(
                    r,
                    self.objects@,
                    j,
                    *ray,
                    Fx { raw: crate::fx::FX_INF_RAW },
                ),
    {
        let max = Fx::infinity();
        match &self.root {
            WorldRoot::Tree(t) => {
                let r = t.closest_intersection(&self.objects, ray, max);
                proof {
                    assert forall|j: int|
                        0 <= j < self.objects@.len() && bridged(self.objects@, j, *ray)
                            implies #[trigger] min_clause(
                        r,
                        self.objects@,
                        j,
                        *ray,
                        Fx { raw: crate::fx::FX_INF_RAW },
                    ) by {
                        assert(t.in_tree(j));
                    }
                }
                r
            },
            WorldRoot::List(v) => {
                let r = closest_in_list(&self.objects, v, ray, max);
                proof {
                    assert forall|j: int|
                        0 <= j < self.objects@.len() && bridged(self.objects@, j, *ray)
                            implies #[trigger] min_clause(
                        r,
                        self.objects@,
                        j,
                        *ray,
                        Fx { raw: crate::fx::FX_INF_RAW },
                    ) by {
                        assert(list_has(v@, j));
                        let m = choose|m: int| 0 <= m < v@.len() && #[trigger] v@[m] as int == j;
                        assert(min_clause(r, self.objects@, v@[m] as int, *ray, max));
                    }
                }
                r
            },
        }
    }

    /// Whether anything occludes the ray within the distance: a `true` names
    /// a real hit, and a point with no occluder within the cap yields
    /// `false` whenever the reported hits stay boxed.
    pub fn is_something_within_distance(&self, ray: &Ray, distance: Fx) -> (r: bool)
        requires
            self.swf(),
            ray.bounded(),
            distance.bounded(),
        ensures
            r == self.sany_within(*ray, distance),
            r ==> exists|j: int|
                0 <= j < self.objects@.len() && hits_within_incl(
                    self.objects@,
                    j,
                    *ray,
                    distance,
                ),
            forall|j: int|
                0 <= j < self.objects@.len() && bridged(self.objects@, j, *ray)
                    && #[trigger] hits_within_incl(self.objects@, j, *ray, distance) ==> r,
    {
        match &self.root {
            WorldRoot::Tree(t) => {
                let r = t.any_intersects(&self.objects, ray, distance);
                proof {
                    if r {
                        let j = choose|j: int|
                            #[trigger] t.in_tree(j) && hits_within_incl(
                                self.objects@,
                                j,
                                *ray,
                                distance,
                            );
                        assert(0 <= j < self.objects@.len());
                    }
                    assert forall|j: int|
                        0 <= j < self.objects@.len() && bridged(self.objects@, j, *ray)
                            && #[trigger] hits_within_incl(self.objects@, j, *ray, distance)
                            implies r by {
                        assert(t.in_tree(j));
                    }
                }
                r
            },
            WorldRoot::List(v) => {
                let r = any_in_list(&self.objects, v, ray, distance);
                proof {
                    if r {
                        let m = choose|m: int|
                            0 <= m < v@.len() && hits_within_incl(
                                self.objects@,
                                #[trigger] v@[m] as int,
                                *ray,
                                distance,
                            );
                        assert(0 <= v@[m] as int && (v@[m] as int) < self.objects@.len());
                    }
                    assert forall|j: int|
                        0 <= j < self.objects@.len() && bridged(self.objects@, j, *ray)
                            && #[trigger] hits_within_incl(self.objects@, j, *ray, distance)
                            implies r by {
                        assert(list_has(v@, j));
                        let m = choose|m: int| 0 <= m < v@.len() && #[trigger] v@[m] as int == j;
                        assert(hits_within_incl(self.objects@, v@[m] as int, *ray, distance));
                    }
                }
                r
            },
        }
    }

    /// Whether the point lies in the shadow of the light: anything within
    /// one unit along the shadow ray occludes it.
    pub fn is_shadowed(&self, position: Point3, light: &Light) -> (r: bool)
        requires
            self.swf(),
            position.bounded(),
        ensures
            r == self.sis_shadowed(position, *light),
    {
        let ray = light.towards(position);
        proof {
            assert(ray.direction.bounded());
        }
        self.is_something_within_distance(&ray, Fx::one())
    }

    /// Accumulates each light's cosine-weighted contribution at the point,
    /// skipping lights behind the surface and lights whose shadow ray is
    /// occluded; channels clamp to one as they accumulate.
    pub fn direct_lightning(&self, position: &Point3, normal: &Vec3) -> (r: Color)
        requires
            self.swf(),
            position.bounded(),
            normal.bounded(),
        ensures
            r == self.sdirect_lighting(*position, *normal),
            self.lights@.len() == 0 ==> r == Color::sblack(),
            r.r.raw <= FX_ONE && r.g.raw <= FX_ONE && r.b.raw <= FX_ONE,
            self.slights_ok() ==> 0 <= r.r.raw && 0 <= r.g.raw && 0 <= r.b.raw,
    {
        let mut c = Color::black();
        let mut li: usize = 0;
        while li < self.lights.len()
            invariant
                self.swf(),
                position.bounded(),
                normal.bounded(),
                li <= self.lights@.len(),
                c == self.sdirect_upto(li as int, *position, *normal),
                self.lights@.len() == 0 ==> c == Color::sblack(),
                c.r.raw <= FX_ONE && c.g.raw <= FX_ONE && c.b.raw <= FX_ONE,
                self.slights_ok() ==> 0 <= c.r.raw && 0 <= c.g.raw && 0 <= c.b.raw,
            decreases self.lights@.len() - li,
        {
            let l = self.lights[li];
            let color = l.illuminate(*position, *normal);
            if !(color == Color::black()) {
                let ray = Ray::new(*position, *normal);
                let p = ray.at(Fx { raw: OFF_SURFACE_RAW });
                proof {
                    assert(p.bounded());
                }
                if !self.is_shadowed(p, &l) {
                    proof {
                        if self.slights_ok() {
                            lemma_illuminate_nonneg(l, *position, *normal);
                        }
                    }
                    c = c.add_clamped(color);
                }
            }
            li += 1;
        }
        c
    }

    /// Casts a ray with the given remaining bounce budget. A zero budget or
    /// a ray that hits nothing yields black; a hit is shaded by its
    /// surface's material, which spends one budget unit per recursive
    /// bounce. The recursion terminates because the budget strictly
    /// decreases.
    pub fn cast(&self, ray: &Ray, depth: u32) -> (r: Color)
        requires
            self.swf(),
            ray.bounded(),
        ensures
            r == self.scast(*ray, depth),
            depth == 0 ==> r == Color::sblack(),
            (forall|j: int|
                0 <= j < self.objects@.len() ==> (#[trigger] self.objects@[j].sdistance(
                    *ray,
                )) is None) ==> r == Color::sblack(),
        decreases depth, 2int,
    {
        if depth == 0 {
            return Color::black();
        }
        let intersection = self.cast_intersection(ray);
        match intersection {
            Some(i) => {
                let obj = self.objects[i.object];
                let hr = obj.hit(ray, i.distance);
                let surface = obj.surface_at(&hr);
                proof {
                    crate::scene::lemma_hit_bounded(obj, *ray, i.distance);
                }
                let r = surface.material.shade(ray, &hr, surface.color, self, depth);
                proof {
                    if forall|j: int|
                        0 <= j < self.objects@.len() ==> (#[trigger] self.objects@[j].sdistance(
                            *ray,
                        )) is None {
                        assert(self.objects@[i.object as int].sdistance(*ray) is None);
                        assert(false);
                    }
                }
                r
            },
            None => Color::black(),
        }
    }
}

impl Material {
    /// What one mirror bounce computes: the reflected ray, cast from just
    /// off the surface with one budget unit spent.
    pub open spec fn sreflected(ray: Ray, hit: HitResult, caster: World, depth: u32) -> Color
        decreases depth, 0int,
    {
        if depth == 0 {
            Color::sblack()
        } else {
            let off = Fx { raw: OFF_SURFACE_RAW };
            caster.scast(
                Ray {
                    origin: hit.position.sadd_vec(hit.normal.sscale(off)),
                    direction: ray.sreflect(hit.normal).direction,
                },
                (depth - 1) as u32,
            )
        }
    }

    /// What one refracted bounce computes: black past the critical angle,
    /// else the refracted ray cast from just inside the surface.
    pub open spec fn srefracted(
        ray: Ray,
        hit: HitResult,
        caster: World,
        depth: u32,
        refractive_index: Fx,
    ) -> Color
        decreases depth, 0int,
    {
        if depth == 0 {
            Color::sblack()
        } else {
            match Material::srefraction_direction(ray.direction, hit.normal, refractive_index) {
                None => Color::sblack(),
                Some(dir) => {
                    let off = Fx { raw: OFF_SURFACE_RAW };
                    caster.scast(
                        Ray {
                            origin: hit.position.sadd_vec(hit.normal.sscale(off).sneg()),
                            direction: dir.snormalize(),
                        },
                        (depth - 1) as u32,
                    )
                },
            }
        }
    }

    /// The shading rule of the material: the diffuse term weighted away by
    /// the reflectivity, the mirror bounce mixed in by it, the refracted
    /// bounce added scaled by what reflection left, and the emission on top.
    pub open spec fn sshade(
        self,
        ray: Ray,
        hit: HitResult,
        color: Color,
        caster: World,
        depth: u32,
    ) -> Color
        decreases depth, 1int,
    {
        let one = Fx { raw: FX_ONE };
        let base = if self.reflectivity.raw < FX_ONE {
            if color == Color::sblack() {
                color
            } else {
                caster.sdirect_lighting(hit.position, hit.normal).sscale(
                    one.ssub(self.reflectivity),
                ).shadamard(color)
            }
        } else {
            Color::sblack()
        };
        let with_reflection = if self.reflectivity.raw > 0 && depth > 0 {
            base.smix(Material::sreflected(ray, hit, caster, depth), self.reflectivity)
        } else {
            base
        };
        let with_refraction = if self.refractive.raw > FX_ONE && depth > 0 {
            with_reflection.sadd(
                Material::srefracted(ray, hit, caster, depth, self.refractive).sscale(
                    one.ssub(self.reflectivity),
                ),
            )
        } else {
            with_reflection
        };
        with_refraction.sadd(self.emission)
    }

    /// Shades a hit: the diffuse term weighted away by the reflectivity, a
    /// mirror bounce mixed in by it, a refracted bounce added when the
    /// material refracts, and the emission on top. With a fully specular
    /// surface, no budget and no refraction, only the emission remains.
    pub fn shade(&self, ray: &Ray, hit: &HitResult, color: Color, caster: &World, depth: u32) -> (r:
        Color)
        requires
            caster.swf(),
            ray.bounded(),
            hit.position.bounded(),
            hit.normal.bounded(),
        ensures
            r == self.sshade(*ray, *hit, color, *caster, depth),
            self.reflectivity.raw >= FX_ONE && depth == 0 && self.refractive.raw <= FX_ONE ==> r
                == Color::sblack().sadd(self.emission),
        decreases depth, 1int,
    {
        let mut c = if self.reflectivity.raw < FX_ONE {
            if color == Color::black() {
                color
            } else {
                caster.direct_lightning(&hit.position, &hit.normal).scale(
                    Fx::one().sub(self.reflectivity),
                ).hadamard(color)
            }
        } else {
            Color::black()
        };
        if self.reflectivity.raw > 0 && depth > 0 {
            let reflected = Material::reflected_color(ray, hit, caster, depth);
            c = c.mix(reflected, self.reflectivity);
        }
        if self.refractive.raw > FX_ONE && depth > 0 {
            let refracted = Material::refracted_color(ray, hit, caster, depth, self.refractive);
            c = c.add(refracted.scale(Fx::one().sub(self.reflectivity)));
        }
        c.add(self.emission)
    }

    /// One mirror bounce: the reflected ray leaves from just off the surface
    /// and spends one budget unit.
    fn reflected_color(ray: &Ray, hit: &HitResult, caster: &World, depth: u32) -> (r: Color)
        requires
            caster.swf(),
            ray.bounded(),
            hit.position.bounded(),
            hit.normal.bounded(),
            depth >= 1,
        ensures
            r == Material::sreflected(*ray, *hit, *caster, depth),
        decreases depth, 0int,
    {
        let reflected_direction = ray.reflect(hit.normal).direction;
        let off = Fx { raw: OFF_SURFACE_RAW };
        let reflected_ray = Ray::new(
            hit.position.add_vec(hit.normal.scale(off)),
            reflected_direction,
        );
        proof {
            assert(reflected_ray.bounded());
        }
        caster.cast(&reflected_ray, depth - 1)
    }

    /// The refracted direction by Snell's law with the outside medium at
    /// one: the incidence cosine is clamped; leaving rays swap the indices
    /// and flip the normal; a glancing ray past the critical angle is total
    /// internal reflection and refracts nowhere.
    pub open spec fn srefraction_direction(d: Vec3, normal: Vec3, refractive: Fx) -> Option<
        Vec3,
    > {
        let one = Fx { raw: FX_ONE };
        let cos_i = normal.sdot(d).sclamp_unit().sneg();
        let n1 = if cos_i.raw < 0 {
            refractive
        } else {
            one
        };
        let n2 = if cos_i.raw < 0 {
            one
        } else {
            refractive
        };
        let nrm = if cos_i.raw < 0 {
            normal.sneg()
        } else {
            normal
        };
        let eta = n1.sdiv(n2);
        let sin_t2 = eta.smul(eta).smul(one.ssub(cos_i.smul(cos_i)));
        if sin_t2.raw > FX_ONE {
            None
        } else {
            let cos_t = one.ssub(sin_t2).ssqrt();
            Some(d.sscale(eta).sadd(nrm.sscale(eta.smul(cos_i).ssub(cos_t))))
        }
    }

    pub fn refraction_direction(d: Vec3, normal: Vec3, refractive: Fx) -> (r: Option<Vec3>)
        requires
            refractive.raw > 0,
        ensures
            r == Material::srefraction_direction(d, normal, refractive),
    {
        let one = Fx::one();
        let cos_i = normal.dot(d).clamp_unit().neg();
        let (n1, n2, nrm) = if cos_i.raw < 0 {
            (refractive, one, normal.neg())
        } else {
            (one, refractive, normal)
        };
        let eta = n1.div(n2);
        let sin_t2 = eta.mul(eta).mul(one.sub(cos_i.mul(cos_i)));
        if sin_t2.raw > FX_ONE {
            return None;
        }
        let inner = one.sub(sin_t2);
        proof {
            assert(inner.raw >= 0);
        }
        let cos_t = inner.sqrt();
        Some(d.scale(eta).add(nrm.scale(eta.mul(cos_i).sub(cos_t))))
    }

    /// One refracted bounce: black past the critical angle, else the
    /// refracted ray leaves from just inside the surface and spends one
    /// budget unit.
    fn refracted_color(
        ray: &Ray,
        hit: &HitResult,
        caster: &World,
        depth: u32,
        refractive_index: Fx,
    ) -> (r: Color)
        requires
            caster.swf(),
            ray.bounded(),
            hit.position.bounded(),
            hit.normal.bounded(),
            depth >= 1,
            refractive_index.raw > 0,
        ensures
            r == Material::srefracted(*ray, *hit, *caster, depth, refractive_index),
        decreases depth, 0int,
    {
        match Material::refraction_direction(ray.direction, hit.normal, refractive_index) {
            None => Color::black(),
            Some(dir) => {
                let off = Fx { raw: OFF_SURFACE_RAW };
                let refracted_ray = Ray::normalized(
                    hit.position.add_vec(hit.normal.scale(off).neg()),
                    dir,
                );
                proof {
                    assert(refracted_ray.origin.bounded());
                    assert(refracted_ray.direction.bounded());
                }
                caster.cast(&refracted_ray, depth - 1)
            },
        }
    }
}

/// At a refractive index of one the medium does not bend the ray: the
/// refracted direction equals the incoming direction to within one raw
/// quantum per component (the square root's rounding), for a unit-length
/// normal, an incidence cosine of at least one half, and a direction away
/// from the saturation bound.
pub proof fn lemma_refraction_identity(d: Vec3, normal: Vec3)
    requires
        -FX_ONE <= normal.x.raw <= FX_ONE,
        -FX_ONE <= normal.y.raw <= FX_ONE,
        -FX_ONE <= normal.z.raw <= FX_ONE,
        crate::fx::abs_int(d.x.raw as int) < crate::fx::FX_INF_RAW,
        crate::fx::abs_int(d.y.raw as int) < crate::fx::FX_INF_RAW,
        crate::fx::abs_int(d.z.raw as int) < crate::fx::FX_INF_RAW,
        normal.sdot(d).raw <= -(FX_ONE / 2),
    ensures
        Material::srefraction_direction(d, normal, Fx { raw: FX_ONE }) matches Some(dir)
            && crate::fx::abs_int(dir.x.raw - d.x.raw) <= 1 && crate::fx::abs_int(
            dir.y.raw - d.y.raw,
        ) <= 1 && crate::fx::abs_int(dir.z.raw - d.z.raw) <= 1,
{
    let one = Fx { raw: FX_ONE };
    let s: int = FX_ONE as int;
    let cos_i = normal.sdot(d).sclamp_unit().sneg();
    let c: int = cos_i.raw as int;
    assert(s / 2 <= c <= s);
    crate::fx::lemma_mul_one(one);
    let eta = one.sdiv(one);
    assert(eta.raw == FX_ONE) by {
        vstd::arithmetic::div_mod::lemma_div_by_multiple(s, s);
        assert(crate::fx::sdiv_raw(s, s) == crate::fx::clip(s * s / s));
    }
    // The squared cosine, truncated.
    let c2 = cos_i.smul(cos_i);
    vstd::arithmetic::div_mod::lemma_fundamental_div_mod(c * c, s);
    vstd::arithmetic::div_mod::lemma_mod_bound(c * c, s);
    let rho: int = (c * c) % s;
    assert(c * c >= 0) by (nonlinear_arith)
        requires
            c == cos_i.raw as int,
    ;
    assert(0 <= (c * c) / s <= s) by {
        vstd::arithmetic::div_mod::lemma_div_pos_is_pos(c * c, s);
        assert(c * c <= s * s) by (nonlinear_arith)
            requires
                0 <= c <= s,
        ;
        vstd::arithmetic::div_mod::lemma_div_is_ordered(c * c, s * s, s);
        vstd::arithmetic::div_mod::lemma_div_by_multiple(s, s);
    }
    assert(c2.raw == (c * c) / s);
    // One minus the squared cosine, and the sine term at eta one.
    let y = one.ssub(c2);
    assert(0 <= y.raw <= s);
    crate::fx::lemma_mul_one(y);
    crate::fx::lemma_mul_one(cos_i);
    let sin_t2 = eta.smul(eta).smul(y);
    assert(eta.smul(eta) == one);
    assert(sin_t2 == y);
    assert(!(sin_t2.raw > FX_ONE));
    // The root of the squared cosine is within one of the cosine itself.
    let back = one.ssub(sin_t2);
    assert(back.raw == c2.raw);
    let n_val: int = c2.raw * s;
    assert(n_val == c * c - rho) by (nonlinear_arith)
        requires
            c * c == s * ((c * c) / s) + rho,
            n_val == ((c * c) / s) * s,
    ;
    let cos_t = back.ssqrt();
    crate::fx::lemma_sqrt_exists(n_val);
    let r: int = crate::fx::sqrt_val(n_val);
    assert(crate::fx::is_sqrt(n_val, r));
    assert(r <= c) by (nonlinear_arith)
        requires
            crate::fx::is_sqrt(n_val, r) && 0 <= r && r * r <= n_val && n_val < (r + 1) * (r + 1),
            n_val == c * c - rho,
            0 <= rho,
            0 <= c,
    ;
    assert(c - 1 <= r) by (nonlinear_arith)
        requires
            0 <= r && r * r <= n_val && n_val < (r + 1) * (r + 1),
            n_val == c * c - rho,
            rho < s,
            s <= 2 * c,
            0 <= c,
    ;
    assert(cos_t.raw == r);
    // The scaled terms collapse: direction times one, normal times at most
    // one quantum.
    let delta = eta.smul(cos_i).ssub(cos_t);
    assert(eta.smul(cos_i) == cos_i);
    assert(0 <= delta.raw <= 1);
    crate::fx::lemma_mul_one(d.x);
    crate::fx::lemma_mul_one(d.y);
    crate::fx::lemma_mul_one(d.z);
    let moved = normal.sscale(delta);
    assert(crate::fx::abs_int(moved.x.raw as int) <= 1 && crate::fx::abs_int(
        moved.y.raw as int,
    ) <= 1 && crate::fx::abs_int(moved.z.raw as int) <= 1) by {
        lemma_small_scale(normal.x, delta);
        lemma_small_scale(normal.y, delta);
        lemma_small_scale(normal.z, delta);
    }
    let dir = d.sscale(eta).sadd(moved);
    assert(d.sscale(eta) == d);
    assert(crate::fx::abs_int(dir.x.raw - d.x.raw) <= 1);
    assert(crate::fx::abs_int(dir.y.raw - d.y.raw) <= 1);
    assert(crate::fx::abs_int(dir.z.raw - d.z.raw) <= 1);
    assert(Material::srefraction_direction(d, normal, one) == Some(dir));
}

/// Scaling a unit-bounded component by at most one quantum moves it by at
/// most one quantum.
proof fn lemma_small_scale(n: Fx, delta: Fx)
    requires
        -FX_ONE <= n.raw <= FX_ONE,
        0 <= delta.raw <= 1,
    ensures
        crate::fx::abs_int(n.smul(delta).raw as int) <= 1,
{
    let s: int = FX_ONE as int;
    let p: int = n.raw * delta.raw;
    assert(-s <= n.raw * delta.raw && n.raw * delta.raw <= s) by (nonlinear_arith)
        requires
            -s <= n.raw <= s,
            0 <= delta.raw <= 1,
    ;
    if p >= 0 {
        vstd::arithmetic::div_mod::lemma_div_is_ordered(p, s, s);
        vstd::arithmetic::div_mod::lemma_div_pos_is_pos(p, s);
        vstd::arithmetic::div_mod::lemma_div_by_multiple(1, s);
        assert(1 * s == s) by (nonlinear_arith);
    } else {
        vstd::arithmetic::div_mod::lemma_div_is_ordered(-p, s, s);
        vstd::arithmetic::div_mod::lemma_div_pos_is_pos(-p, s);
        vstd::arithmetic::div_mod::lemma_div_by_multiple(1, s);
        assert(1 * s == s) by (nonlinear_arith);
    }
}

} // verus!
