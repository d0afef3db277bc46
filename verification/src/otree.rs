use vstd::prelude::*;
use crate::fx::Fx;
use crate::algebra::Ray;
use crate::bounding::BoundingBox;
use crate::geometry::Bounded;
use crate::scene::Object;

verus! {

/// A hit found by a query: the distance along the ray and the index of the
/// object hit, into the world's object list.
#[derive(Clone, Copy, Debug, PartialEq, Eq, Structural)]
pub struct Intersection {
    pub distance: Fx,
    pub object: usize,
}

impl Intersection {
    pub fn new(distance: Fx, object: usize) -> (r: Intersection)
        ensures
            r == (Intersection { distance, object }),
    {
        Intersection { distance, object }
    }
}

/// The distance the object at index `j` reports for the ray.
pub open spec fn obj_dist(objects: Seq<Object>, j: int, ray: Ray) -> Option<Fx> {
    objects[j].sdistance(ray)
}

/// The numeric bridge a completeness claim stands on: when the object
/// reports a hit, the exact ray point at that parameter lies inside the
/// object's own bounding box. Truncation can push a reported parameter a
/// quantum past a box face, so the octree's completeness is stated for the
/// rays and objects where the reported hit stays boxed.
pub open spec fn bridged(objects: Seq<Object>, j: int, ray: Ray) -> bool {
    match objects[j].sdistance(ray) {
        Some(t) => 0 <= t.raw && objects[j].sbounding_box().spoint_in_at(ray, t),
        None => true,
    }
}

/// The object at `j` reports a hit no farther than `max`.
pub open spec fn hits_within_incl(objects: Seq<Object>, j: int, ray: Ray, max: Fx) -> bool {
    match objects[j].sdistance(ray) {
        Some(t) => t.raw <= max.raw,
        None => false,
    }
}

/// The query result names a real hit of the listed objects, closer than
/// `max`.
pub open spec fn sound_hit(r: Option<Intersection>, objects: Seq<Object>, ray: Ray, max: Fx) -> bool {
    match r {
        Some(it) => it.object < objects.len() && objects[it.object as int].sdistance(ray) == Some(
            it.distance,
        ) && it.distance.raw < max.raw,
        None => true,
    }
}

/// The query result is no farther than the hit the object at `j` reports, if
/// that hit is under the cap.
pub open spec fn min_clause(
    r: Option<Intersection>,
    objects: Seq<Object>,
    j: int,
    ray: Ray,
    max: Fx,
) -> bool {
    match objects[j].sdistance(ray) {
        Some(t) => t.raw < max.raw ==> match r {
            Some(it) => it.distance.raw <= t.raw,
            None => false,
        },
        None => true,
    }
}

/// The linear scan, as a definition: the fold over the first `n` listed
/// indices, keeping the first strictly-closest hit.
pub open spec fn sclosest_in_list_upto(
    objects: Seq<Object>,
    idxs: Seq<usize>,
    n: int,
    ray: Ray,
    max: Fx,
) -> Option<Intersection>
    decreases n,
{
    if n <= 0 {
        None
    } else {
        let prev = sclosest_in_list_upto(objects, idxs, n - 1, ray, max);
        let cap = match prev {
            Some(it) => it.distance,
            None => max,
        };
        match objects[idxs[n - 1] as int].sdistance(ray) {
            Some(t) => if t.raw < cap.raw {
                Some(Intersection { distance: t, object: idxs[n - 1] })
            } else {
                prev
            },
            None => prev,
        }
    }
}

pub open spec fn sclosest_in_list(
    objects: Seq<Object>,
    idxs: Seq<usize>,
    ray: Ray,
    max: Fx,
) -> Option<Intersection> {
    sclosest_in_list_upto(objects, idxs, idxs.len() as int, ray, max)
}

/// Whether any of the listed indices reports a hit within `max`, inclusive.
pub open spec fn sany_in_list(objects: Seq<Object>, idxs: Seq<usize>, ray: Ray, max: Fx) -> bool {
    exists|k: int|
        0 <= k < idxs.len() && hits_within_incl(objects, #[trigger] idxs[k] as int, ray, max)
}

/// A reported distance is always a clipped arithmetic result, hence in the
/// representable band.
pub proof fn lemma_obj_dist_bounded(o: Object, ray: Ray)
    ensures
        match o.sdistance(ray) {
            Some(t) => t.bounded(),
            None => true,
        },
{
    reveal(Object::sdistance);
    let lr = o.transform.sto_local_ray(ray);
    match o.geometry {
        crate::geometry::Geometry::Sphere(_) => {
            assert(match crate::geometry::Sphere::sdistance(lr) {
                Some(t) => t.bounded(),
                None => true,
            });
        },
        crate::geometry::Geometry::Cube(_) => {
            assert(match crate::geometry::Cube::sdistance(lr) {
                Some(t) => t.bounded(),
                None => true,
            });
        },
        crate::geometry::Geometry::Plane(_) => {
            assert(match crate::geometry::Plane::sdistance(lr) {
                Some(t) => t.bounded(),
                None => true,
            });
        },
    }
}

/// An object's bounding box has clipped corner coordinates, hence is
/// bounded.
#[verifier::rlimit(100)]
pub proof fn lemma_obj_bbox_bounded(o: Object)
    ensures
        o.sbounding_box().bounded(),
{
    reveal(Object::sbounding_box);
}

/// The closest hit among the objects listed by index: the plain linear scan
/// the octree falls back to, and the yardstick its completeness is measured
/// by. Only hits strictly closer than `max` count.
pub fn closest_in_list(objects: &Vec<Object>, idxs: &Vec<usize>, ray: &Ray, max: Fx) -> (r: Option<
    Intersection,
>)
    requires
        forall|k: int| 0 <= k < idxs@.len() ==> #[trigger] idxs@[k] < objects@.len(),
    ensures
        r == sclosest_in_list(objects@, idxs@, *ray, max),
        sound_hit(r, objects@, *ray, max),
        r matches Some(it) ==> exists|k: int|
            0 <= k < idxs@.len() && idxs@[k] == it.object,
        forall|k: int|
            0 <= k < idxs@.len() ==> #[trigger] min_clause(r, objects@, idxs@[k] as int, *ray, max),
{
    let mut result: Option<Intersection> = None;
    let mut shortest: Fx = max;
    let mut m: usize = 0;
    while m < idxs.len()
        invariant
            forall|k: int| 0 <= k < idxs@.len() ==> #[trigger] idxs@[k] < objects@.len(),
            m <= idxs@.len(),
            shortest == (match result {
                Some(it) => it.distance,
                None => max,
            }),
            result == sclosest_in_list_upto(objects@, idxs@, m as int, *ray, max),
            sound_hit(result, objects@, *ray, max),
            result matches Some(it) ==> exists|k: int|
                0 <= k < idxs@.len() && idxs@[k] == it.object,
            forall|k: int|
                0 <= k < m ==> match obj_dist(objects@, #[trigger] idxs@[k] as int, *ray) {
                    Some(t) => t.raw >= shortest.raw,
                    None => true,
                },
        decreases idxs@.len() - m,
    {
        let idx = idxs[m];
        let d = objects[idx].distance(ray);
        match d {
            Some(t) => {
                if t.raw < shortest.raw {
                    shortest = t;
                    result = Some(Intersection::new(t, idx));
                    proof {
                        assert(idxs@[m as int] == idx);
                    }
                }
            },
            None => {},
        }
        m += 1;
    }
    proof {
        assert forall|k: int| 0 <= k < idxs@.len() implies #[trigger] min_clause(
            result,
            objects@,
            idxs@[k] as int,
            *ray,
            max,
        ) by {
            match obj_dist(objects@, idxs@[k] as int, *ray) {
                Some(t) => {
                    assert(t.raw >= shortest.raw);
                },
                None => {},
            }
        }
    }
    result
}

/// Whether any listed object reports a hit within `max` (inclusive): the
/// linear shadow test.
pub fn any_in_list(objects: &Vec<Object>, idxs: &Vec<usize>, ray: &Ray, max: Fx) -> (r: bool)
    requires
        forall|k: int| 0 <= k < idxs@.len() ==> #[trigger] idxs@[k] < objects@.len(),
    ensures
        r == sany_in_list(objects@, idxs@, *ray, max),
{
    let mut m: usize = 0;
    while m < idxs.len()
        invariant
            forall|k: int| 0 <= k < idxs@.len() ==> #[trigger] idxs@[k] < objects@.len(),
            m <= idxs@.len(),
            forall|k: int|
                0 <= k < m ==> !hits_within_incl(objects@, #[trigger] idxs@[k] as int, *ray, max),
        decreases idxs@.len() - m,
    {
        let idx = idxs[m];
        let d = objects[idx].distance(ray);
        match d {
            Some(t) => {
                if t.raw <= max.raw {
                    proof {
                        assert(hits_within_incl(objects@, idxs@[m as int] as int, *ray, max));
                        assert(sany_in_list(objects@, idxs@, *ray, max));
                    }
                    return true;
                }
            },
            None => {},
        }
        m += 1;
    }
    false
}

/// How the octree is shaped: leaf capacity, depth bound, and the loose
/// factor that widens a child's box for the placement test.
#[derive(Clone, Copy, Debug)]
pub struct OctreeConfig {
    pub max_objects: usize,
    pub max_depth: usize,
    pub loose_factor: Fx,
}

impl OctreeConfig {
    pub fn new(max_objects: usize, max_depth: usize, loose_factor: Fx) -> (r: OctreeConfig)
        ensures
            r == (OctreeConfig { max_objects, max_depth, loose_factor }),
    {
        OctreeConfig { max_objects, max_depth, loose_factor }
    }
}

/// One node of the loose octree: its (loose) box, its straddlers and leaf
/// objects by index, eight children once subdivided, and its depth.
pub struct OctreeNode {
    pub bounding_box: BoundingBox,
    pub children: Vec<OctreeNode>,
    pub objects: Vec<usize>,
    pub depth: usize,
}

/// The index `j` occurs in the list.
pub open spec fn list_has(objs: Seq<usize>, j: int) -> bool {
    exists|k: int| 0 <= k < objs.len() && objs[k] as int == j
}

impl OctreeNode {
    /// The object at index `j` lives in one of the first `n` children.
    pub open spec fn in_children_upto(self, n: int, j: int) -> bool
        decreases self, n,
    {
        if n <= 0 || n > self.children@.len() {
            false
        } else {
            self.children@[n - 1].in_subtree(j) || self.in_children_upto(n - 1, j)
        }
    }

    /// The object at index `j` lives somewhere in this subtree.
    pub open spec fn in_subtree(self, j: int) -> bool
        decreases self, self.children@.len() + 1,
    {
        list_has(self.objects@, j) || self.in_children_upto(self.children@.len() as int, j)
    }

    /// Membership in an earlier prefix of children carries to a later one.
    pub proof fn lemma_upto_mono(self, n1: int, n2: int, j: int)
        requires
            0 <= n1 <= n2 <= self.children@.len(),
            self.in_children_upto(n1, j),
        ensures
            self.in_children_upto(n2, j),
        decreases n2,
    {
        if n2 > n1 {
            self.lemma_upto_mono(n1, n2 - 1, j);
        }
    }

    /// A member of a child subtree is a member of this subtree.
    pub proof fn lemma_in_children(self, i: int, j: int)
        requires
            0 <= i < self.children@.len(),
            self.children@[i].in_subtree(j),
        ensures
            self.in_subtree(j),
    {
        assert(self.in_children_upto(i + 1, j));
        self.lemma_upto_mono(i + 1, self.children@.len() as int, j);
    }

    /// An object listed at this node is a member of this subtree.
    pub proof fn lemma_in_obj(self, k: int, j: int)
        requires
            0 <= k < self.objects@.len(),
            self.objects@[k] as int == j,
        ensures
            self.in_subtree(j),
    {
        assert(list_has(self.objects@, j));
    }

    /// Membership in a child prefix names a child.
    pub proof fn lemma_upto_exists(self, n: int, j: int)
        requires
            0 <= n <= self.children@.len(),
            self.in_children_upto(n, j),
        ensures
            exists|i: int|
                0 <= i < n && #[trigger] self.children@[i].in_subtree(j),
        decreases n,
    {
        if n > 0 {
            if self.children@[n - 1].in_subtree(j) {
                assert(0 <= n - 1 < n && self.children@[n - 1].in_subtree(j));
            } else {
                self.lemma_upto_exists(n - 1, j);
            }
        }
    }

    /// A subtree member is either listed at this node or in some child.
    pub proof fn lemma_in_cases(self, j: int)
        requires
            self.in_subtree(j),
        ensures
            list_has(self.objects@, j) || exists|i: int|
                0 <= i < self.children@.len() && #[trigger] self.children@[i].in_subtree(j),
    {
        if !list_has(self.objects@, j) {
            self.lemma_upto_exists(self.children@.len() as int, j);
        }
    }

    /// The build invariant of a node: its box is bounded and contains the
    /// box of every object in its subtree, its children are eight or none,
    /// only nodes above the depth bound subdivide, and each child is one
    /// level deeper and well-formed in turn.
    pub open spec fn wf(self, objects: Seq<Object>, max_depth: int) -> bool
        decreases self,
    {
        &&& self.bounding_box.bounded()
        &&& self.depth <= max_depth
        &&& (forall|k: int|
            0 <= k < self.objects@.len() ==> (#[trigger] self.objects@[k]) < objects.len())
        &&& (self.children@.len() == 0 || self.children@.len() == 8)
        &&& (self.children@.len() > 0 ==> self.depth < max_depth)
        &&& (forall|j: int|
            #[trigger] self.in_subtree(j) ==> 0 <= j < objects.len()
                && self.bounding_box.scontains(objects[j].sbounding_box()))
        &&& (forall|i: int|
            0 <= i < self.children@.len() ==> (#[trigger] self.children@[i]).wf(objects, max_depth)
                && self.children@[i].depth == self.depth + 1)
    }

    /// The build invariant carries everything a query needs.
    pub proof fn lemma_wf_query(self, objects: Seq<Object>, max_depth: int)
        requires
            self.wf(objects, max_depth),
        ensures
            self.query_wf(objects),
        decreases self,
    {
        assert forall|i: int| 0 <= i < self.children@.len() implies (
        #[trigger] self.children@[i]).query_wf(objects) by {
            self.children@[i].lemma_wf_query(objects, max_depth);
        }
    }

    /// Creates a new empty octree node with the given bounding box and
    /// depth.
    pub fn new(bounding_box: BoundingBox, depth: usize) -> (r: OctreeNode)
        ensures
            r.bounding_box == bounding_box,
            r.depth == depth,
            r.children@.len() == 0,
            r.objects@.len() == 0,
            forall|j: int| !r.in_subtree(j),
    {
        let r = OctreeNode { bounding_box, children: Vec::new(), objects: Vec::new(), depth };
        proof {
            assert forall|j: int| !r.in_subtree(j) by {
                assert(!list_has(r.objects@, j));
                assert(!r.in_children_upto(0, j));
            }
        }
        r
    }

    /// The children's contribution to the closest hit, as a definition: the
    /// fold over the first `n` children, each queried under the running
    /// best distance.
    pub open spec fn schildren_closest_upto(
        self,
        objects: Seq<Object>,
        n: int,
        ray: Ray,
        acc: Option<Intersection>,
        max: Fx,
    ) -> Option<Intersection>
        decreases self, n,
    {
        if n <= 0 || n > self.children@.len() {
            acc
        } else {
            let prev = self.schildren_closest_upto(objects, n - 1, ray, acc, max);
            let cap = match prev {
                Some(it) => it.distance,
                None => max,
            };
            match self.children@[n - 1].snode_closest(objects, ray, cap) {
                Some(it2) => Some(it2),
                None => prev,
            }
        }
    }

    /// What this subtree's query computes, as a definition: nothing past a
    /// failed box test, else the node's own scan refined through the
    /// children in order.
    pub open spec fn snode_closest(self, objects: Seq<Object>, ray: Ray, max: Fx) -> Option<
        Intersection,
    >
        decreases self, self.children@.len() + 1,
    {
        if !self.bounding_box.shits_ray(ray, max) {
            None
        } else {
            let own = sclosest_in_list(objects, self.objects@, ray, max);
            self.schildren_closest_upto(objects, self.children@.len() as int, ray, own, max)
        }
    }

    /// The children's contribution to the occlusion test over the first `n`
    /// children.
    pub open spec fn schildren_any_upto(self, objects: Seq<Object>, n: int, ray: Ray, max: Fx) -> bool
        decreases self, n,
    {
        if n <= 0 || n > self.children@.len() {
            false
        } else {
            self.schildren_any_upto(objects, n - 1, ray, max) || self.children@[
                n - 1
            ].snode_any(objects, ray, max)
        }
    }

    /// What this subtree's occlusion test computes, as a definition.
    pub open spec fn snode_any(self, objects: Seq<Object>, ray: Ray, max: Fx) -> bool
        decreases self, self.children@.len() + 1,
    {
        self.bounding_box.shits_ray(ray, max) && (sany_in_list(objects, self.objects@, ray, max)
            || self.schildren_any_upto(objects, self.children@.len() as int, ray, max))
    }

    /// Occlusion found in an earlier child prefix carries to a later one.
    pub proof fn lemma_any_upto_mono(self, objects: Seq<Object>, n1: int, n2: int, ray: Ray, max: Fx)
        requires
            0 <= n1 <= n2 <= self.children@.len(),
            self.schildren_any_upto(objects, n1, ray, max),
        ensures
            self.schildren_any_upto(objects, n2, ray, max),
        decreases n2,
    {
        if n2 > n1 {
            self.lemma_any_upto_mono(objects, n1, n2 - 1, ray, max);
        }
    }

    /// When no child finds an occlusion, no prefix does.
    pub proof fn lemma_any_upto_none(self, objects: Seq<Object>, n: int, ray: Ray, max: Fx)
        requires
            forall|ci: int|
                0 <= ci < self.children@.len() ==> !(#[trigger] self.children@[ci].snode_any(
                    objects,
                    ray,
                    max,
                )),
        ensures
            !self.schildren_any_upto(objects, n, ray, max),
        decreases n,
    {
        if n > 0 {
            self.lemma_any_upto_none(objects, n - 1, ray, max);
            if n <= self.children@.len() {
                assert(!self.children@[n - 1].snode_any(objects, ray, max));
            }
        }
    }

    /// The closest hit in this subtree within `max` (exclusive). The result
    /// always names a real hit of a subtree object; and for every subtree
    /// object whose reported hit stays inside its own box (`bridged`), the
    /// result is at least as close — together: the octree query agrees with
    /// the linear scan over everything the subtree holds.
    #[verifier::rlimit(100)]
    pub fn closest_intersection(&self, objects: &Vec<Object>, ray: &Ray, max: Fx) -> (r: Option<
        Intersection,
    >)
        requires
            self.query_wf(objects@),
            ray.bounded(),
            max.bounded(),
        ensures
            r == self.snode_closest(objects@, *ray, max),
            sound_hit(r, objects@, *ray, max),
            r matches Some(it) ==> self.in_subtree(it.object as int),
            forall|j: int|
                self.in_subtree(j) && bridged(objects@, j, *ray) ==> #[trigger] min_clause(
                    r,
                    objects@,
                    j,
                    *ray,
                    max,
                ),
        decreases *self,
    {
        if !self.bounding_box.intersects_ray(ray, max) {
            proof {
                assert forall|j: int|
                    self.in_subtree(j) && bridged(objects@, j, *ray) implies #[trigger] min_clause(
                    None::<Intersection>,
                    objects@,
                    j,
                    *ray,
                    max,
                ) by {
                    match obj_dist(objects@, j, *ray) {
                        Some(t) => {
                            if t.raw < max.raw {
                                crate::bounding::lemma_point_in_box_hits(
                                    objects@[j].sbounding_box(),
                                    *ray,
                                    t,
                                    max,
                                );
                                crate::bounding::lemma_hits_mono_box(
                                    self.bounding_box,
                                    objects@[j].sbounding_box(),
                                    *ray,
                                    max,
                                );
                                assert(false);
                            }
                        },
                        None => {},
                    }
                }
            }
            return None;
        }
        let mut result = closest_in_list(objects, &self.objects, ray, max);
        let ghost own = result;
        proof {
            match result {
                Some(it) => {
                    let k = choose|k: int|
                        0 <= k < self.objects@.len() && self.objects@[k] == it.object;
                    self.lemma_in_obj(k, it.object as int);
                },
                None => {},
            }
        }
        let mut i: usize = 0;
        while i < self.children.len()
            invariant
                self.query_wf(objects@),
                ray.bounded(),
                max.bounded(),
                i <= self.children@.len(),
                own == sclosest_in_list(objects@, self.objects@, *ray, max),
                result == self.schildren_closest_upto(objects@, i as int, *ray, own, max),
                sound_hit(result, objects@, *ray, max),
                result matches Some(it) ==> self.in_subtree(it.object as int),
                forall|k: int|
                    0 <= k < self.objects@.len() ==> #[trigger] min_clause(
                        result,
                        objects@,
                        self.objects@[k] as int,
                        *ray,
                        max,
                    ),
                forall|j: int|
                    #[trigger] self.in_children_upto(i as int, j) && bridged(objects@, j, *ray)
                        ==> min_clause(result, objects@, j, *ray, max),
            decreases self.children@.len() - i,
        {
            let m = match &result {
                Some(it) => it.distance,
                None => max,
            };
            proof {
                match result {
                    Some(it) => {
                        lemma_obj_dist_bounded(objects@[it.object as int], *ray);
                        assert(m.bounded());
                    },
                    None => {},
                }
            }
            let ghost prev = result;
            let r2 = self.children[i].closest_intersection(objects, ray, m);
            match r2 {
                Some(it2) => {
                    result = Some(it2);
                    proof {
                        self.lemma_in_children(i as int, it2.object as int);
                    }
                },
                None => {},
            }
            proof {
                assert(result == self.schildren_closest_upto(
                    objects@,
                    i as int + 1,
                    *ray,
                    own,
                    max,
                ));
                assert forall|j: int|
                    #[trigger] self.in_children_upto(i + 1, j) && bridged(
                        objects@,
                        j,
                        *ray,
                    ) implies min_clause(result, objects@, j, *ray, max) by {
                    if self.children@[i as int].in_subtree(j) {
                        assert(min_clause(r2, objects@, j, *ray, m));
                    } else {
                        assert(self.in_children_upto(i as int, j));
                        assert(min_clause(prev, objects@, j, *ray, max));
                    }
                    match r2 {
                        Some(it2) => {
                            assert(it2.distance.raw < m.raw);
                        },
                        None => {},
                    }
                }
                assert forall|k: int|
                    0 <= k < self.objects@.len() implies #[trigger] min_clause(
                    result,
                    objects@,
                    self.objects@[k] as int,
                    *ray,
                    max,
                ) by {
                    assert(min_clause(prev, objects@, self.objects@[k] as int, *ray, max));
                }
            }
            i += 1;
        }
        proof {
            assert(result == self.snode_closest(objects@, *ray, max));
            assert forall|j: int|
                self.in_subtree(j) && bridged(objects@, j, *ray) implies #[trigger] min_clause(
                result,
                objects@,
                j,
                *ray,
                max,
            ) by {
                if list_has(self.objects@, j) {
                    let k = choose|k: int|
                        0 <= k < self.objects@.len() && self.objects@[k] as int == j;
                    assert(min_clause(result, objects@, self.objects@[k] as int, *ray, max));
                } else {
                    assert(self.in_children_upto(self.children@.len() as int, j));
                    assert(min_clause(result, objects@, j, *ray, max));
                }
            }
        }
        result
    }

    /// Whether anything in this subtree is hit within `max` (inclusive). A
    /// `true` always names a real hit; a point no subtree object occludes
    /// within the cap yields `false` whenever the reported hits stay boxed.
    #[verifier::rlimit(100)]
    pub fn any_intersects(&self, objects: &Vec<Object>, ray: &Ray, max: Fx) -> (r: bool)
        requires
            self.query_wf(objects@),
            ray.bounded(),
            max.bounded(),
        ensures
            r == self.snode_any(objects@, *ray, max),
            r ==> exists|j: int|
                #[trigger] self.in_subtree(j) && hits_within_incl(objects@, j, *ray, max),
            forall|j: int|
                #[trigger] self.in_subtree(j) && bridged(objects@, j, *ray) && hits_within_incl(
                    objects@,
                    j,
                    *ray,
                    max,
                ) ==> r,
        decreases *self,
    {
        if !self.bounding_box.intersects_ray(ray, max) {
            proof {
                assert forall|j: int|
                    #[trigger] self.in_subtree(j) && bridged(objects@, j, *ray)
                        && hits_within_incl(objects@, j, *ray, max) implies false by {
                    match obj_dist(objects@, j, *ray) {
                        Some(t) => {
                            crate::bounding::lemma_point_in_box_hits(
                                objects@[j].sbounding_box(),
                                *ray,
                                t,
                                max,
                            );
                            crate::bounding::lemma_hits_mono_box(
                                self.bounding_box,
                                objects@[j].sbounding_box(),
                                *ray,
                                max,
                            );
                        },
                        None => {},
                    }
                }
            }
            return false;
        }
        if any_in_list(objects, &self.objects, ray, max) {
            proof {
                let k = choose|k: int|
                    0 <= k < self.objects@.len() && hits_within_incl(
                        objects@,
                        self.objects@[k] as int,
                        *ray,
                        max,
                    );
                self.lemma_in_obj(k, self.objects@[k] as int);
            }
            return true;
        }
        let mut i: usize = 0;
        while i < self.children.len()
            invariant
                self.query_wf(objects@),
                ray.bounded(),
                max.bounded(),
                i <= self.children@.len(),
                forall|k: int|
                    0 <= k < self.objects@.len() ==> !hits_within_incl(
                        objects@,
                        #[trigger] self.objects@[k] as int,
                        *ray,
                        max,
                    ),
                self.bounding_box.shits_ray(*ray, max),
                !sany_in_list(objects@, self.objects@, *ray, max),
                forall|ci: int|
                    0 <= ci < i ==> !(#[trigger] self.children@[ci].snode_any(
                        objects@,
                        *ray,
                        max,
                    )),
                forall|ci: int, j: int|
                    0 <= ci < i && #[trigger] self.children@[ci].in_subtree(j) && bridged(
                        objects@,
                        j,
                        *ray,
                    ) ==> !hits_within_incl(objects@, j, *ray, max),
            decreases self.children@.len() - i,
        {
            if self.children[i].any_intersects(objects, ray, max) {
                proof {
                    let j = choose|j: int|
                        #[trigger] self.children@[i as int].in_subtree(j) && hits_within_incl(
                            objects@,
                            j,
                            *ray,
                            max,
                        );
                    assert(self.children@[i as int].in_subtree(j));
                    self.lemma_in_children(i as int, j);
                    assert(hits_within_incl(objects@, j, *ray, max));
                    assert(self.schildren_any_upto(objects@, i as int + 1, *ray, max));
                    self.lemma_any_upto_mono(
                        objects@,
                        i as int + 1,
                        self.children@.len() as int,
                        *ray,
                        max,
                    );
                    assert(self.snode_any(objects@, *ray, max));
                }
                return true;
            }
            i += 1;
        }
        proof {
            self.lemma_any_upto_none(objects@, self.children@.len() as int, *ray, max);
            assert(!self.snode_any(objects@, *ray, max));
            assert forall|j: int|
                #[trigger] self.in_subtree(j) && bridged(objects@, j, *ray) && hits_within_incl(
                    objects@,
                    j,
                    *ray,
                    max,
                ) implies false by {
                self.lemma_in_cases(j);
                if list_has(self.objects@, j) {
                    let k = choose|k: int|
                        0 <= k < self.objects@.len() && self.objects@[k] as int == j;
                    assert(!hits_within_incl(objects@, self.objects@[k] as int, *ray, max));
                } else {
                    let ci = choose|ci: int|
                        0 <= ci < self.children@.len() && #[trigger] self.children@[
                            ci
                        ].in_subtree(j);
                    assert(self.children@[ci].in_subtree(j));
                    assert(!hits_within_incl(objects@, j, *ray, max));
                }
            }
        }
        false
    }

    /// Membership does not depend on the node's box: two nodes with the
    /// same objects and children hold the same subtree members.
    pub proof fn lemma_members_same(a: OctreeNode, b: OctreeNode, j: int)
        requires
            a.objects == b.objects,
            a.children == b.children,
        ensures
            a.in_subtree(j) == b.in_subtree(j),
    {
        OctreeNode::lemma_upto_same(a, b, a.children@.len() as int, j);
    }

    pub proof fn lemma_upto_same(a: OctreeNode, b: OctreeNode, n: int, j: int)
        requires
            a.children == b.children,
        ensures
            a.in_children_upto(n, j) == b.in_children_upto(n, j),
        decreases n,
    {
        if n > 0 {
            OctreeNode::lemma_upto_same(a, b, n - 1, j);
        }
    }

    /// A node whose children all hold nothing has no members in any child
    /// prefix.
    pub proof fn lemma_upto_empty(self, n: int, j: int)
        requires
            forall|i: int|
                0 <= i < self.children@.len() ==> !(#[trigger] self.children@[i].in_subtree(j)),
        ensures
            !self.in_children_upto(n, j),
        decreases n,
    {
        if n > 0 {
            self.lemma_upto_empty(n - 1, j);
            if 0 < n <= self.children@.len() {
                assert(!self.children@[n - 1].in_subtree(j));
            }
        }
    }

    /// Splits the node into eight child octants of its box and hands its
    /// objects back to `insert`, which redistributes them: members, box and
    /// depth stay as they were.
    #[verifier::loop_isolation(false)]
    fn subdivide(&mut self, objects: &Vec<Object>, config: &OctreeConfig)
        requires
            old(self).wf(objects@, config.max_depth as int),
            old(self).capacity_wf(config.max_objects as int, config.max_depth as int),
            old(self).children@.len() == 0,
            old(self).depth < config.max_depth,
        ensures
            final(self).wf(objects@, config.max_depth as int),
            final(self).capacity_wf(config.max_objects as int, config.max_depth as int),
            final(self).children@.len() == 8,
            final(self).depth == old(self).depth,
            final(self).bounding_box == old(self).bounding_box,
            forall|j: int| final(self).in_subtree(j) <==> old(self).in_subtree(j),
        decreases config.max_depth as int - self.depth, 2int,
    {
        let ghost orig = *old(self);
        let center = self.bounding_box.center();
        let mut children: Vec<OctreeNode> = Vec::new();
        let mut i: usize = 0;
        while i < 8
            invariant
                children@.len() == i,
                i <= 8,
                *self == orig,
                orig.wf(objects@, config.max_depth as int),
                orig.depth < config.max_depth,
                forall|ci: int|
                    0 <= ci < i ==> (#[trigger] children@[ci]).wf(
                        objects@,
                        config.max_depth as int,
                    ) && children@[ci].depth == orig.depth + 1 && children@[ci].capacity_wf(
                        config.max_objects as int,
                        config.max_depth as int,
                    ),
                forall|ci: int, j: int|
                    0 <= ci < i ==> !(#[trigger] children@[ci].in_subtree(j)),
            decreases 8 - i,
        {
            let child_box = self.bounding_box.subdivide(i, center);
            let c = OctreeNode::new(child_box, self.depth + 1);
            proof {
                assert(c.wf(objects@, config.max_depth as int));
                assert(c.capacity_wf(config.max_objects as int, config.max_depth as int));
            }
            children.push(c);
            i += 1;
        }
        self.children = children;
        let mut existing: Vec<usize> = Vec::new();
        core::mem::swap(&mut existing, &mut self.objects);
        let ghost mid = *self;
        proof {
            assert(existing == orig.objects);
            assert forall|j: int| !mid.in_subtree(j) by {
                mid.lemma_upto_empty(mid.children@.len() as int, j);
            }
            assert(mid.wf(objects@, config.max_depth as int));
            assert(mid.capacity_wf(config.max_objects as int, config.max_depth as int));
        }
        let mut k: usize = 0;
        while k < existing.len()
            invariant
                self.children@.len() == 8,
                self.wf(objects@, config.max_depth as int),
                self.capacity_wf(config.max_objects as int, config.max_depth as int),
                self.depth == orig.depth,
                self.bounding_box == orig.bounding_box,
                k <= existing@.len(),
                existing == orig.objects,
                orig.wf(objects@, config.max_depth as int),
                orig.children@.len() == 0,
                forall|m: int| 0 <= m < existing@.len() ==> (#[trigger] existing@[m]) < objects@.len(),
                forall|j: int|
                    self.in_subtree(j) <==> list_has(#[trigger] existing@.take(k as int), j),
            decreases existing@.len() - k,
        {
            let ob = existing[k];
            let bb = objects[ob].bounding_box();
            let ghost before = *self;
            proof {
                orig.lemma_in_obj(k as int, ob as int);
                assert(orig.bounding_box.scontains(objects@[ob as int].sbounding_box()));
            }
            self.insert(objects, ob, bb, config);
            proof {
                crate::bounding::lemma_union_absorb(before.bounding_box, bb);
                assert(self.bounding_box == orig.bounding_box);
                assert forall|j: int|
                    self.in_subtree(j) <==> list_has(
                        #[trigger] existing@.take(k as int + 1),
                        j,
                    ) by {
                    assert(existing@.take(k as int + 1) == existing@.take(k as int).push(
                        existing@[k as int],
                    ));
                    if self.in_subtree(j) {
                        if before.in_subtree(j) {
                            let m = choose|m: int|
                                0 <= m < existing@.take(k as int).len() && existing@.take(
                                    k as int,
                                )[m] as int == j;
                            assert(existing@.take(k as int + 1)[m] as int == j);
                        } else {
                            assert(j == ob as int);
                            assert(existing@.take(k as int + 1)[k as int] as int == j);
                        }
                    } else {
                    }
                    if list_has(existing@.take(k as int + 1), j) {
                        let m = choose|m: int|
                            0 <= m < existing@.take(k as int + 1).len() && #[trigger] existing@.take(
                                k as int + 1,
                            )[m] as int == j;
                        if m < k as int {
                            assert(existing@.take(k as int)[m] as int == j);
                            assert(list_has(existing@.take(k as int), j));
                        } else {
                            assert(j == ob as int);
                        }
                    }
                }
            }
            k += 1;
        }
        proof {
            assert(existing@.take(existing@.len() as int) == existing@);
            assert forall|j: int| final(self).in_subtree(j) <==> orig.in_subtree(j) by {
                orig.lemma_upto_empty(orig.children@.len() as int, j);
                if orig.in_subtree(j) {
                    assert(list_has(orig.objects@, j));
                }
                if list_has(orig.objects@, j) {
                    let m = choose|m: int|
                        0 <= m < orig.objects@.len() && orig.objects@[m] as int == j;
                    orig.lemma_in_obj(m, j);
                }
            }
        }
    }

    /// Adds an object to this node or one of its children: the node's box
    /// grows by the object's box, the subtree gains exactly that object, and
    /// the build invariant is kept. A node at capacity subdivides unless it
    /// is at the depth bound; the object descends into the one child whose
    /// loosened box contains it, or stays here as a straddler.
    #[verifier::loop_isolation(false)]
    #[verifier::rlimit(100)]
    pub fn insert(&mut self, objects: &Vec<Object>, obj: usize, obj_bbox: BoundingBox, config: &OctreeConfig)
        requires
            old(self).wf(objects@, config.max_depth as int),
            old(self).capacity_wf(config.max_objects as int, config.max_depth as int),
            obj < objects@.len(),
            obj_bbox == objects@[obj as int].sbounding_box(),
        ensures
            final(self).wf(objects@, config.max_depth as int),
            final(self).capacity_wf(config.max_objects as int, config.max_depth as int),
            final(self).depth == old(self).depth,
            final(self).bounding_box == old(self).bounding_box.sunion(obj_bbox),
            old(self).children@.len() > 0 ==> final(self).children@.len() == old(
                self,
            ).children@.len(),
            forall|j: int|
                #[trigger] final(self).in_subtree(j) == (old(self).in_subtree(j) || j
                    == obj as int),
        decreases
                config.max_depth as int - self.depth,
                (if self.children.len() == 0 {
                    3int
                } else {
                    0int
                }),
    {
        let ghost orig = *old(self);
        proof {
            lemma_obj_bbox_bounded(objects@[obj as int]);
        }
        self.bounding_box = self.bounding_box.union(&obj_bbox);
        proof {
            crate::bounding::lemma_union_contains(orig.bounding_box, obj_bbox);
            assert forall|j: int| self.in_subtree(j) == orig.in_subtree(j) by {
                OctreeNode::lemma_members_same(*self, orig, j);
            }
            assert forall|j: int|
                #[trigger] self.in_subtree(j) implies 0 <= j < objects@.len()
                && self.bounding_box.scontains(objects@[j].sbounding_box()) by {
                assert(orig.in_subtree(j));
                assert(orig.bounding_box.scontains(objects@[j].sbounding_box()));
                crate::bounding::lemma_contains_trans(
                    self.bounding_box,
                    orig.bounding_box,
                    objects@[j].sbounding_box(),
                );
            }
            assert(self.bounding_box.bounded());
            assert(self.depth <= config.max_depth as int);
            assert(forall|k: int|
                0 <= k < self.objects@.len() ==> (#[trigger] self.objects@[k]) < objects@.len());
            assert(self.children@.len() == 0 || self.children@.len() == 8);
            assert(self.children@.len() > 0 ==> self.depth < config.max_depth as int);
            assert forall|i: int| 0 <= i < self.children@.len() implies (
            #[trigger] self.children@[i]).wf(objects@, config.max_depth as int)
                && self.children@[i].depth == self.depth + 1 by {
                assert(self.children@[i] == orig.children@[i]);
            }
            assert(self.wf(objects@, config.max_depth as int));
            assert(self.capacity_wf(config.max_objects as int, config.max_depth as int));
        }
        if self.children.len() == 0 && (self.objects.len() < config.max_objects || self.depth
            >= config.max_depth) {
            let ghost before = *self;
            self.objects.push(obj);
            proof {
                assert forall|j: int|
                    self.in_subtree(j) <==> (before.in_subtree(j) || j == obj as int) by {
                    if self.in_subtree(j) {
                        if list_has(self.objects@, j) {
                            let m = choose|m: int|
                                0 <= m < self.objects@.len() && self.objects@[m] as int == j;
                            if m < before.objects@.len() {
                                before.lemma_in_obj(m, j);
                            } else {
                                assert(j == obj as int);
                            }
                        } else {
                            OctreeNode::lemma_upto_same(*self, before, self.children@.len() as int, j);
                        }
                    }
                    if before.in_subtree(j) {
                        if list_has(before.objects@, j) {
                            let m = choose|m: int|
                                0 <= m < before.objects@.len() && before.objects@[m] as int == j;
                            assert(self.objects@[m] as int == j);
                            self.lemma_in_obj(m, j);
                        } else {
                            OctreeNode::lemma_upto_same(*self, before, self.children@.len() as int, j);
                        }
                    }
                    if j == obj as int {
                        assert(self.objects@[self.objects@.len() - 1] as int == j);
                        self.lemma_in_obj(self.objects@.len() - 1, j);
                    }
                }
                assert forall|k: int|
                    0 <= k < self.objects@.len() implies (#[trigger] self.objects@[k])
                    < objects@.len() by {
                    if k < before.objects@.len() {
                        assert(self.objects@[k] == before.objects@[k]);
                    } else {
                        assert(self.objects@[k] == obj);
                    }
                }
                assert forall|j: int|
                    #[trigger] self.in_subtree(j) implies 0 <= j < objects@.len()
                    && self.bounding_box.scontains(objects@[j].sbounding_box()) by {
                    if j == obj as int {
                    } else {
                        assert(before.in_subtree(j));
                    }
                }
                assert forall|i: int| 0 <= i < self.children@.len() implies (
                #[trigger] self.children@[i]).wf(objects@, config.max_depth as int)
                    && self.children@[i].depth == self.depth + 1 by {
                    assert(self.children@[i] == before.children@[i]);
                }
                assert(self.wf(objects@, config.max_depth as int));
                assert(self.capacity_wf(config.max_objects as int, config.max_depth as int));
            }
            return;
        }
        let ghost after_union = *self;
        if self.children.len() == 0 {
            self.subdivide(objects, config);
        }
        let ghost mid = *self;
        proof {
            assert(mid.wf(objects@, config.max_depth as int));
            assert(mid.capacity_wf(config.max_objects as int, config.max_depth as int));
            assert(mid.children@.len() == 8);
            assert(mid.bounding_box == orig.bounding_box.sunion(obj_bbox));
            assert forall|j: int| mid.in_subtree(j) <==> orig.in_subtree(j) by {
                OctreeNode::lemma_members_same(after_union, orig, j);
                assert(after_union.in_subtree(j) == orig.in_subtree(j));
            }
        }
        let mut i: usize = 0;
        let mut fits = false;
        while i < 8 && !fits
            invariant
                0 <= i <= 8,
                objects@.len() > obj as int,
                obj_bbox == objects@[obj as int].sbounding_box(),
                mid.wf(objects@, config.max_depth as int),
                mid.children@.len() == 8,
                mid.bounding_box.scontains(obj_bbox),
                !fits ==> *self == mid,
                fits ==> self.wf(objects@, config.max_depth as int),
                fits ==> self.capacity_wf(config.max_objects as int, config.max_depth as int),
                fits ==> self.depth == mid.depth,
                fits ==> self.children@.len() == 8,
                fits ==> self.bounding_box == mid.bounding_box,
                forall|j: int|
                    fits ==> #[trigger] self.in_subtree(j) == (mid.in_subtree(j) || j
                        == obj as int),
            decreases 2 * (8 - i) + (if fits {
                0int
            } else {
                1int
            }),
    {
            if self.children[i].bounding_box.expand_by_factor(config.loose_factor).contains(
                &obj_bbox,
            ) {
                let mut c = self.children.remove(i);
                let ghost c_old = c;
                proof {
                    assert(c == mid.children@[i as int]);
                    assert(c.wf(objects@, config.max_depth as int));
                    assert(c.depth == mid.depth + 1);
                    assert(mid.depth == orig.depth);
                }
                c.insert(objects, obj, obj_bbox, config);
                self.children.insert(i, c);
                proof {
                    assert(self.children@ =~= mid.children@.update(i as int, c));
                    // Membership: the parent gains exactly `obj`.
                    assert forall|j: int|
                        #[trigger] self.in_subtree(j) == (mid.in_subtree(j) || j == obj as int) by {
                        if self.in_subtree(j) {
                            self.lemma_in_cases(j);
                            if list_has(self.objects@, j) {
                                let m = choose|m: int|
                                    0 <= m < self.objects@.len() && self.objects@[m] as int == j;
                                mid.lemma_in_obj(m, j);
                            } else {
                                let ci = choose|ci: int|
                                    0 <= ci < self.children@.len() && #[trigger] self.children@[
                                        ci
                                    ].in_subtree(j);
                                if ci == i as int {
                                    if c_old.in_subtree(j) {
                                        mid.lemma_in_children(ci, j);
                                    }
                                } else {
                                    mid.lemma_in_children(ci, j);
                                }
                            }
                        }
                        if mid.in_subtree(j) {
                            mid.lemma_in_cases(j);
                            if list_has(mid.objects@, j) {
                                let m = choose|m: int|
                                    0 <= m < mid.objects@.len() && mid.objects@[m] as int == j;
                                self.lemma_in_obj(m, j);
                            } else {
                                let ci = choose|ci: int|
                                    0 <= ci < mid.children@.len() && #[trigger] mid.children@[
                                        ci
                                    ].in_subtree(j);
                                if ci == i as int {
                                    self.lemma_in_children(ci, j);
                                } else {
                                    self.lemma_in_children(ci, j);
                                }
                            }
                        }
                        if j == obj as int {
                            self.lemma_in_children(i as int, j);
                        }
                    }
                    // The invariant: every clause of `wf` holds again.
                    assert forall|j: int|
                        #[trigger] self.in_subtree(j) implies 0 <= j < objects@.len()
                        && self.bounding_box.scontains(objects@[j].sbounding_box()) by {
                        if j == obj as int {
                        } else {
                            assert(mid.in_subtree(j));
                        }
                    }
                    assert forall|ci: int|
                        0 <= ci < self.children@.len() implies (#[trigger] self.children@[
                        ci
                    ]).wf(objects@, config.max_depth as int) && self.children@[ci].depth
                        == self.depth + 1 by {
                        if ci != i as int {
                            assert(self.children@[ci] == mid.children@[ci]);
                        }
                    }
                    assert(self.wf(objects@, config.max_depth as int));
                    assert forall|ci: int|
                        0 <= ci < self.children@.len() implies (#[trigger] self.children@[
                        ci
                    ]).capacity_wf(config.max_objects as int, config.max_depth as int) by {
                        if ci != i as int {
                            assert(self.children@[ci] == mid.children@[ci]);
                        }
                    }
                    assert(self.capacity_wf(config.max_objects as int, config.max_depth as int));
                    assert(self.depth == mid.depth);
                    assert(self.children@.len() == 8);
                    assert(self.bounding_box == mid.bounding_box);
                }
                fits = true;
            } else {
                i += 1;
            }
        }
        if !fits {
            let ghost before = *self;
            self.objects.push(obj);
            proof {
                assert forall|j: int|
                    self.in_subtree(j) <==> (before.in_subtree(j) || j == obj as int) by {
                    if self.in_subtree(j) {
                        if list_has(self.objects@, j) {
                            let m = choose|m: int|
                                0 <= m < self.objects@.len() && self.objects@[m] as int == j;
                            if m < before.objects@.len() {
                                before.lemma_in_obj(m, j);
                            } else {
                                assert(j == obj as int);
                            }
                        } else {
                            OctreeNode::lemma_upto_same(*self, before, self.children@.len() as int, j);
                        }
                    }
                    if before.in_subtree(j) {
                        if list_has(before.objects@, j) {
                            let m = choose|m: int|
                                0 <= m < before.objects@.len() && before.objects@[m] as int == j;
                            assert(self.objects@[m] as int == j);
                            self.lemma_in_obj(m, j);
                        } else {
                            OctreeNode::lemma_upto_same(*self, before, self.children@.len() as int, j);
                        }
                    }
                    if j == obj as int {
                        assert(self.objects@[self.objects@.len() - 1] as int == j);
                        self.lemma_in_obj(self.objects@.len() - 1, j);
                    }
                }
                assert forall|k: int|
                    0 <= k < self.objects@.len() implies (#[trigger] self.objects@[k])
                    < objects@.len() by {
                    if k < before.objects@.len() {
                        assert(self.objects@[k] == before.objects@[k]);
                    } else {
                        assert(self.objects@[k] == obj);
                    }
                }
                assert forall|j: int|
                    #[trigger] self.in_subtree(j) implies 0 <= j < objects@.len()
                    && self.bounding_box.scontains(objects@[j].sbounding_box()) by {
                    if j == obj as int {
                    } else {
                        assert(before.in_subtree(j));
                    }
                }
                assert forall|i: int| 0 <= i < self.children@.len() implies (
                #[trigger] self.children@[i]).wf(objects@, config.max_depth as int)
                    && self.children@[i].depth == self.depth + 1 by {
                    assert(self.children@[i] == before.children@[i]);
                }
                assert(self.wf(objects@, config.max_depth as int));
                assert(self.children@.len() == 8);
                assert(self.capacity_wf(config.max_objects as int, config.max_depth as int));
                assert forall|j: int|
                    #[trigger] self.in_subtree(j) == (orig.in_subtree(j) || j == obj as int) by {
                    assert(before.in_subtree(j) == mid.in_subtree(j));
                    assert(mid.in_subtree(j) == orig.in_subtree(j));
                }
            }
        }
        proof {
            assert forall|j: int|
                #[trigger] self.in_subtree(j) == (orig.in_subtree(j) || j == obj as int) by {
                assert(mid.in_subtree(j) == orig.in_subtree(j));
            }
        }
    }

    /// What the queries need of a node: everything `wf` says except the
    /// depth bookkeeping, which only the build cares about. Stated as `wf`
    /// against an arbitrary depth bound would be, minus the depth clauses.
    pub open spec fn query_wf(self, objects: Seq<Object>) -> bool
        decreases self,
    {
        &&& self.bounding_box.bounded()
        &&& (forall|k: int|
            0 <= k < self.objects@.len() ==> (#[trigger] self.objects@[k]) < objects.len())
        &&& (forall|j: int|
            #[trigger] self.in_subtree(j) ==> 0 <= j < objects.len()
                && self.bounding_box.scontains(objects[j].sbounding_box()))
        &&& (forall|i: int|
            0 <= i < self.children@.len() ==> (#[trigger] self.children@[i]).query_wf(objects))
    }

    /// The leaf-capacity rule: a leaf below the depth bound holds at most
    /// `max_objects` entries; leaves at the bound may exceed it, and nodes
    /// with children hold only straddlers, unbounded.
    pub open spec fn capacity_wf(self, max_objects: int, max_depth: int) -> bool
        decreases self,
    {
        &&& (self.children@.len() == 0 && self.depth < max_depth ==> self.objects@.len()
            <= max_objects)
        &&& (forall|i: int|
            0 <= i < self.children@.len() ==> (#[trigger] self.children@[i]).capacity_wf(
                max_objects,
                max_depth,
            ))
    }
}

/// The union of the finite objects' boxes among the first `n`, the box the
/// octree's root starts from.
pub open spec fn sfinite_union(objects: Seq<Object>, n: int) -> BoundingBox
    decreases n,
{
    if n <= 0 {
        BoundingBox::sempty()
    } else {
        let prev = sfinite_union(objects, n - 1);
        if objects[n - 1].sbounding_box().sis_infinite() {
            prev
        } else {
            prev.sunion(objects[n - 1].sbounding_box())
        }
    }
}

/// The loose octree: a root over the finite objects, and a side list of the
/// objects whose boxes are infinite, consulted on every query.
pub struct Octree {
    pub root: OctreeNode,
    pub outside: Vec<usize>,
    pub config: OctreeConfig,
}

impl Octree {
    /// The build invariant of the whole structure.
    pub open spec fn swf(self, objects: Seq<Object>) -> bool {
        &&& self.root.wf(objects, self.config.max_depth as int)
        &&& self.root.capacity_wf(self.config.max_objects as int, self.config.max_depth as int)
        &&& forall|m: int|
            0 <= m < self.outside@.len() ==> (#[trigger] self.outside@[m]) < objects.len()
    }

    /// The object at index `j` is held somewhere: in the tree or on the side
    /// list.
    pub open spec fn in_tree(self, j: int) -> bool {
        self.root.in_subtree(j) || list_has(self.outside@, j)
    }

    /// What the whole structure's closest query computes: the tree's result
    /// refined by the side list under the running best distance.
    pub open spec fn soctree_closest(self, objects: Seq<Object>, ray: Ray, max: Fx) -> Option<
        Intersection,
    > {
        let rootr = self.root.snode_closest(objects, ray, max);
        let cap = match rootr {
            Some(it) => it.distance,
            None => max,
        };
        match sclosest_in_list(objects, self.outside@, ray, cap) {
            Some(it2) => Some(it2),
            None => rootr,
        }
    }

    /// What the whole structure's occlusion test computes.
    pub open spec fn soctree_any(self, objects: Seq<Object>, ray: Ray, max: Fx) -> bool {
        self.root.snode_any(objects, ray, max) || sany_in_list(objects, self.outside@, ray, max)
    }

    /// Builds the octree over all the objects: infinite boxes go to the side
    /// list, the root box is the union of the finite boxes, and each finite
    /// object is inserted in turn. Every object index ends up held exactly
    /// when it names an object.
    pub fn new(config: OctreeConfig, objects: &Vec<Object>) -> (r: Octree)
        ensures
            r.swf(objects@),
            r.config == config,
            forall|j: int| #[trigger] r.in_tree(j) == (0 <= j < objects@.len()),
            r.root.bounding_box == sfinite_union(objects@, objects@.len() as int),
            forall|m: int|
                0 <= m < r.outside@.len() ==> objects@[
                    #[trigger] r.outside@[m] as int
                ].sbounding_box().sis_infinite(),
            forall|j: int|
                0 <= j < objects@.len() && (#[trigger] objects@[j].sbounding_box()).sis_infinite()
                    ==> list_has(r.outside@, j),
            forall|j: int|
                #[trigger] r.root.in_subtree(j) ==> 0 <= j < objects@.len() && !objects@[
                    j
                ].sbounding_box().sis_infinite(),
    {
        let mut outside: Vec<usize> = Vec::new();
        let mut finite: Vec<usize> = Vec::new();
        let mut b = BoundingBox::empty();
        let mut k: usize = 0;
        while k < objects.len()
            invariant
                k <= objects@.len(),
                b.bounded(),
                b == sfinite_union(objects@, k as int),
                forall|m: int|
                    0 <= m < outside@.len() ==> (#[trigger] outside@[m]) < objects@.len(),
                forall|m: int|
                    0 <= m < finite@.len() ==> (#[trigger] finite@[m]) < objects@.len(),
                forall|m: int|
                    0 <= m < outside@.len() ==> objects@[
                        #[trigger] outside@[m] as int
                    ].sbounding_box().sis_infinite(),
                forall|m: int|
                    0 <= m < finite@.len() ==> !objects@[
                        #[trigger] finite@[m] as int
                    ].sbounding_box().sis_infinite(),
                forall|m: int|
                    0 <= m < finite@.len() ==> b.scontains(
                        objects@[#[trigger] finite@[m] as int].sbounding_box(),
                    ),
                forall|j: int|
                    (list_has(outside@, j) || list_has(finite@, j)) == (0 <= j < k as int),
            decreases objects@.len() - k,
        {
            let ghost out0 = outside@;
            let ghost fin0 = finite@;
            let ghost b0 = b;
            let bb = objects[k].bounding_box();
            proof {
                lemma_obj_bbox_bounded(objects@[k as int]);
            }
            if bb.is_infinite() {
                outside.push(k);
            } else {
                b = b.union(&bb);
                finite.push(k);
                proof {
                    crate::bounding::lemma_union_contains(b0, bb);
                    assert forall|m: int|
                        0 <= m < finite@.len() implies b.scontains(
                        objects@[#[trigger] finite@[m] as int].sbounding_box(),
                    ) by {
                        if m < fin0.len() {
                            assert(finite@[m] == fin0[m]);
                            crate::bounding::lemma_contains_trans(
                                b,
                                b0,
                                objects@[fin0[m] as int].sbounding_box(),
                            );
                        } else {
                            assert(finite@[m] == k);
                        }
                    }
                }
            }
            proof {
                assert(b == sfinite_union(objects@, k as int + 1));
                assert forall|j: int|
                    (list_has(outside@, j) || list_has(finite@, j)) == (0 <= j < k as int
                        + 1) by {
                    lemma_list_has_push(out0, fin0, outside@, finite@, k, j);
                    if 0 <= j < k as int {
                        assert(list_has(out0, j) || list_has(fin0, j));
                    }
                }
            }
            k += 1;
        }
        let mut root = OctreeNode::new(b, 0);
        let mut k2: usize = 0;
        proof {
            assert(root.wf(objects@, config.max_depth as int));
            assert(root.capacity_wf(config.max_objects as int, config.max_depth as int));
            assert(finite@.take(0) =~= Seq::<usize>::empty());
        }
        while k2 < finite.len()
            invariant
                k2 <= finite@.len(),
                root.wf(objects@, config.max_depth as int),
                root.capacity_wf(config.max_objects as int, config.max_depth as int),
                root.bounding_box == b,
                b == sfinite_union(objects@, objects@.len() as int),
                forall|m: int|
                    0 <= m < finite@.len() ==> b.scontains(
                        objects@[#[trigger] finite@[m] as int].sbounding_box(),
                    ),
                forall|m: int|
                    0 <= m < finite@.len() ==> !objects@[
                        #[trigger] finite@[m] as int
                    ].sbounding_box().sis_infinite(),
                forall|m: int|
                    0 <= m < outside@.len() ==> objects@[
                        #[trigger] outside@[m] as int
                    ].sbounding_box().sis_infinite(),
                forall|m: int|
                    0 <= m < outside@.len() ==> (#[trigger] outside@[m]) < objects@.len(),
                forall|m: int|
                    0 <= m < finite@.len() ==> (#[trigger] finite@[m]) < objects@.len(),
                forall|j: int|
                    (list_has(outside@, j) || list_has(finite@, j)) == (0 <= j
                        < objects@.len()),
                forall|j: int|
                    #[trigger] root.in_subtree(j) == list_has(finite@.take(k2 as int), j),
            decreases finite@.len() - k2,
        {
            let ob = finite[k2];
            let bb = objects[ob].bounding_box();
            let ghost before = root;
            root.insert(objects, ob, bb, &config);
            proof {
                crate::bounding::lemma_union_absorb(before.bounding_box, bb);
                assert(root.bounding_box == b);
                assert forall|j: int|
                    #[trigger] root.in_subtree(j) == list_has(
                        finite@.take(k2 as int + 1),
                        j,
                    ) by {
                    assert(finite@.take(k2 as int + 1) == finite@.take(k2 as int).push(
                        finite@[k2 as int],
                    ));
                    if root.in_subtree(j) {
                        if before.in_subtree(j) {
                            let m = choose|m: int|
                                0 <= m < finite@.take(k2 as int).len() && #[trigger] finite@.take(
                                    k2 as int,
                                )[m] as int == j;
                            assert(finite@.take(k2 as int + 1)[m] as int == j);
                        } else {
                            assert(j == ob as int);
                            assert(finite@.take(k2 as int + 1)[k2 as int] as int == j);
                        }
                    }
                    if list_has(finite@.take(k2 as int + 1), j) {
                        let m = choose|m: int|
                            0 <= m < finite@.take(k2 as int + 1).len()
                                && #[trigger] finite@.take(k2 as int + 1)[m] as int == j;
                        if m < k2 as int {
                            assert(finite@.take(k2 as int)[m] as int == j);
                            assert(list_has(finite@.take(k2 as int), j));
                        } else {
                            assert(j == ob as int);
                        }
                    }
                }
            }
            k2 += 1;
        }
        let r = Octree { root, outside, config };
        proof {
            assert(finite@.take(finite@.len() as int) == finite@);
            assert forall|j: int| #[trigger] r.in_tree(j) == (0 <= j < objects@.len()) by {
                assert(r.root.in_subtree(j) == list_has(finite@, j));
            }
            assert forall|j: int|
                0 <= j < objects@.len() && (#[trigger] objects@[j].sbounding_box()).sis_infinite()
                    implies list_has(r.outside@, j) by {
                assert(list_has(outside@, j) || list_has(finite@, j));
                if list_has(finite@, j) {
                    let m = choose|m: int| 0 <= m < finite@.len() && #[trigger] finite@[m] as int == j;
                    assert(!objects@[finite@[m] as int].sbounding_box().sis_infinite());
                }
            }
            assert forall|j: int|
                #[trigger] r.root.in_subtree(j) implies 0 <= j < objects@.len() && !objects@[
                j
            ].sbounding_box().sis_infinite() by {
                assert(r.root.in_subtree(j) == list_has(finite@, j));
                let m = choose|m: int| 0 <= m < finite@.len() && #[trigger] finite@[m] as int == j;
                assert(!objects@[finite@[m] as int].sbounding_box().sis_infinite());
            }
        }
        r
    }

    /// The closest hit within `max`, over the tree and the side list
    /// together: a found hit is real, and no held object whose reported hit
    /// stays boxed is closer.
    pub fn closest_intersection(&self, objects: &Vec<Object>, ray: &Ray, max: Fx) -> (r: Option<
        Intersection,
    >)
        requires
            self.swf(objects@),
            ray.bounded(),
            max.bounded(),
        ensures
            r == self.soctree_closest(objects@, *ray, max),
            sound_hit(r, objects@, *ray, max),
            r matches Some(it) ==> self.in_tree(it.object as int),
            forall|j: int|
                #[trigger] self.in_tree(j) && bridged(objects@, j, *ray) ==> min_clause(
                    r,
                    objects@,
                    j,
                    *ray,
                    max,
                ),
    {
        proof {
            self.root.lemma_wf_query(objects@, self.config.max_depth as int);
        }
        let mut result = self.root.closest_intersection(objects, ray, max);
        let m = match &result {
            Some(it) => it.distance,
            None => max,
        };
        proof {
            match result {
                Some(it) => {
                    lemma_obj_dist_bounded(objects@[it.object as int], *ray);
                },
                None => {},
            }
        }
        let ghost prev = result;
        let r2 = closest_in_list(objects, &self.outside, ray, m);
        match r2 {
            Some(it2) => {
                result = Some(it2);
                proof {
                    let kk = choose|kk: int|
                        0 <= kk < self.outside@.len() && self.outside@[kk] == it2.object;
                    assert(list_has(self.outside@, it2.object as int));
                }
            },
            None => {},
        }
        proof {
            assert forall|j: int|
                #[trigger] self.in_tree(j) && bridged(objects@, j, *ray) implies min_clause(
                result,
                objects@,
                j,
                *ray,
                max,
            ) by {
                if self.root.in_subtree(j) {
                    assert(min_clause(prev, objects@, j, *ray, max));
                    match r2 {
                        Some(it2) => {
                            assert(it2.distance.raw < m.raw);
                        },
                        None => {},
                    }
                } else {
                    let kk = choose|kk: int|
                        0 <= kk < self.outside@.len() && #[trigger] self.outside@[kk] as int == j;
                    assert(min_clause(r2, objects@, self.outside@[kk] as int, *ray, m));
                    match r2 {
                        Some(it2) => {
                        },
                        None => {
                            match obj_dist(objects@, j, *ray) {
                                Some(t) => {
                                    if t.raw < max.raw {
                                        assert(t.raw >= m.raw);
                                        match prev {
                                            Some(itp) => {},
                                            None => {
                                                assert(m == max);
                                                assert(false);
                                            },
                                        }
                                    }
                                },
                                None => {},
                            }
                        },
                    }
                }
            }
        }
        result
    }

    /// Whether anything held is hit within `max` (inclusive), tree and side
    /// list together.
    pub fn any_intersects(&self, objects: &Vec<Object>, ray: &Ray, max: Fx) -> (r: bool)
        requires
            self.swf(objects@),
            ray.bounded(),
            max.bounded(),
        ensures
            r == self.soctree_any(objects@, *ray, max),
            r ==> exists|j: int|
                #[trigger] self.in_tree(j) && hits_within_incl(objects@, j, *ray, max),
            forall|j: int|
                #[trigger] self.in_tree(j) && bridged(objects@, j, *ray) && hits_within_incl(
                    objects@,
                    j,
                    *ray,
                    max,
                ) ==> r,
    {
        proof {
            self.root.lemma_wf_query(objects@, self.config.max_depth as int);
        }
        if self.root.any_intersects(objects, ray, max) {
            proof {
                let j = choose|j: int|
                    #[trigger] self.root.in_subtree(j) && hits_within_incl(objects@, j, *ray, max);
                assert(self.in_tree(j));
            }
            return true;
        }
        let r2 = any_in_list(objects, &self.outside, ray, max);
        proof {
            if r2 {
                let kk = choose|kk: int|
                    0 <= kk < self.outside@.len() && hits_within_incl(
                        objects@,
                        #[trigger] self.outside@[kk] as int,
                        *ray,
                        max,
                    );
                assert(list_has(self.outside@, self.outside@[kk] as int));
                assert(self.in_tree(self.outside@[kk] as int));
            } else {
                assert forall|j: int|
                    #[trigger] self.in_tree(j) && bridged(objects@, j, *ray)
                        && hits_within_incl(objects@, j, *ray, max) implies false by {
                    if self.root.in_subtree(j) {
                    } else {
                        let kk = choose|kk: int|
                            0 <= kk < self.outside@.len() && #[trigger] self.outside@[kk] as int
                                == j;
                        assert(!hits_within_incl(objects@, self.outside@[kk] as int, *ray, max));
                    }
                }
            }
        }
        r2
    }
}

/// Pushing onto one of two index lists adds exactly that index to what they
/// hold together.
proof fn lemma_list_has_push(
    out0: Seq<usize>,
    fin0: Seq<usize>,
    out1: Seq<usize>,
    fin1: Seq<usize>,
    k: usize,
    j: int,
)
    requires
        (out1 == out0.push(k) && fin1 == fin0) || (out1 == out0 && fin1 == fin0.push(k)),
    ensures
        (list_has(out1, j) || list_has(fin1, j)) == (list_has(out0, j) || list_has(fin0, j) || j
            == k as int),
{
    if out1 == out0.push(k) && fin1 == fin0 {
        lemma_list_has_push_one(out0, k, j);
    } else {
        lemma_list_has_push_one(fin0, k, j);
    }
}

proof fn lemma_list_has_push_one(s: Seq<usize>, k: usize, j: int)
    ensures
        list_has(s.push(k), j) == (list_has(s, j) || j == k as int),
{
    if list_has(s.push(k), j) {
        let m = choose|m: int| 0 <= m < s.push(k).len() && #[trigger] s.push(k)[m] as int == j;
        if m < s.len() {
            assert(s[m] as int == j);
        }
    }
    if list_has(s, j) {
        let m = choose|m: int| 0 <= m < s.len() && #[trigger] s[m] as int == j;
        assert(s.push(k)[m] as int == j);
    }
    if j == k as int {
        assert(s.push(k)[s.len() as int] as int == j);
    }
}

} // verus!
