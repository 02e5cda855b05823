//! Hit records and the scene's collection of hittable objects.

use vstd::prelude::*;
use crate::fixed::SCALE;
use crate::vector::{Vec3, Vec3i, in_bounds, vneg, vdot, vmag2, vscale, v_in_i64, lemma_vscale_le};
use crate::ray::{Ray, ray_at, ray_wf, POS_BOUND, DIR_BOUND, HORIZON};
use crate::materials::Material;
use crate::shapes::{Sphere, sphere_hit_spec};

verus! {

/// Mathematical model of a hit record, with an unbounded parameter.
pub ghost struct HitInfo {
    pub t: int,
    pub point: Vec3i,
    pub normal: Vec3i,
    pub front: bool,
    pub material: Material,
}

/// The nearest intersection found on a ray: the point, the normal oriented
/// against the ray, the ray parameter, the side that was hit, and the
/// material to scatter with.
#[derive(Clone, Copy, PartialEq, Eq, Structural, Debug)]
pub struct HitRecord {
    pub point: Vec3,
    pub normal: Vec3,
    pub material: Material,
    pub t: i64,
    pub front: bool,
}

impl View for HitRecord {
    type V = HitInfo;

    open spec fn view(&self) -> HitInfo {
        HitInfo {
            t: self.t as int,
            point: self.point@,
            normal: self.normal@,
            front: self.front,
            material: self.material,
        }
    }
}

/// The view of an optional record.
pub open spec fn opt_view(r: Option<HitRecord>) -> Option<HitInfo> {
    match r {
        Some(rec) => Some(rec@),
        None => None,
    }
}

impl HitRecord {
    /// A record the shading code can work with: everything on the grid, a
    /// positive parameter, a usable normal and a valid material.
    pub open spec fn wf(self) -> bool {
        &&& in_bounds(self.point@, POS_BOUND as int)
        &&& in_bounds(self.normal@, 4 * (SCALE as int))
        &&& vmag2(self.normal@) >= 1
        &&& 0 < self.t
        &&& self.material.wf()
    }

    /// Builds the record at parameter `t`, orienting the raw outward normal
    /// against the ray.
    pub fn new(ray: &Ray, t: i64, normal_out: Vec3, mat: Material) -> (r: HitRecord)
        requires
            ray_wf(*ray),
            0 < t <= HORIZON,
            in_bounds(normal_out@, 0x1_0000_0000_0000),
        ensures
            r.point@ == ray_at(*ray, t as int),
            r.t == t,
            r.material == mat,
            r.front == (vdot(ray.direction@, normal_out@) < 0),
            r.normal@ == (if vdot(ray.direction@, normal_out@) < 0 {
                normal_out@
            } else {
                vneg(normal_out@)
            }),
    {
        proof {
            lemma_at_bounds(*ray, t as int);
        }
        let mut record: HitRecord = HitRecord {
            point: ray.at(t),
            normal: Vec3::zeros(),
            material: mat,
            t: t,
            front: false,
        };
        record.set_normal(ray, normal_out);
        record
    }

    /// Stores the normal oriented against the ray and the side that was hit.
    pub fn set_normal(&mut self, ray: &Ray, normal_out: Vec3)
        requires
            ray_wf(*ray),
            in_bounds(normal_out@, 0x1_0000_0000_0000),
        ensures
            final(self).front == (vdot(ray.direction@, normal_out@) < 0),
            final(self).normal@ == (if vdot(ray.direction@, normal_out@) < 0 {
                normal_out@
            } else {
                vneg(normal_out@)
            }),
            final(self).point == old(self).point,
            final(self).t == old(self).t,
            final(self).material == old(self).material,
    {
        proof {
            let s: int = SCALE as int;
            assert(3 * ((0x200_0000 as int) * (0x1_0000_0000_0000 as int)) <= (0x600_0000_0000_0000
                as int) * s) by (nonlinear_arith)
                requires
                    s == 65536,
            ;
            crate::vector::lemma_vdot_le(
                ray.direction@,
                normal_out@,
                0x200_0000,
                0x1_0000_0000_0000,
                0x600_0000_0000_0000,
            );
        }
        self.front = ray.direction.dot(&normal_out) < 0;
        self.normal = if self.front {
            normal_out
        } else {
            normal_out.neg()
        };
    }
}

/// The point of a ray at a parameter within the horizon stays representable.
pub proof fn lemma_at_bounds(ray: Ray, t: int)
    requires
        ray_wf(ray),
        0 <= t <= HORIZON,
    ensures
        v_in_i64(vscale(ray.direction@, t)),
        v_in_i64(ray_at(ray, t)),
        in_bounds(vscale(ray.direction@, t), 0x20_0000_0000),
{
    let s: int = SCALE as int;
    assert((0x200_0000 as int) * (0x1000_0000 as int) <= (0x20_0000_0000 as int) * s) by (nonlinear_arith)
        requires
            s == 65536,
    ;
    lemma_vscale_le(ray.direction@, t, DIR_BOUND as int, HORIZON as int, 0x20_0000_0000);
}

/// The closed set of scene primitives, dispatched by matching.
#[derive(Clone, Copy, PartialEq, Eq, Structural, Debug)]
pub enum Hittable {
    Sphere(Sphere),
}

impl Hittable {
    pub open spec fn wf(self) -> bool {
        match self {
            Hittable::Sphere(sp) => sp.wf(),
        }
    }

    /// The intersection this object reports, as a mathematical function.
    pub open spec fn hit_spec(self, ray: Ray, t_min: int, t_max: int) -> Option<HitInfo> {
        match self {
            Hittable::Sphere(sp) => sphere_hit_spec(sp, ray, t_min, t_max),
        }
    }

    /// The outward geometric normal of this object at a point.
    pub fn normal(&self, p: &Vec3) -> (r: Vec3)
        requires
            self.wf(),
            in_bounds(p@, POS_BOUND as int),
        ensures
            (match self {
                Hittable::Sphere(sp) => r@ == crate::vector::vdivc(
                    crate::vector::vsub(p@, sp.position@),
                    sp.radius as int,
                ),
            }),
    {
        match self {
            Hittable::Sphere(sp) => sp.normal(p),
        }
    }

    /// Nearest intersection of `ray` with this object inside `[t_min, t_max]`.
    pub fn hit(&self, ray: &Ray, t_min: i64, t_max: i64) -> (r: Option<HitRecord>)
        requires
            self.wf(),
            ray_wf(*ray),
            0 < t_min,
            t_max <= HORIZON,
        ensures
            opt_view(r) == self.hit_spec(*ray, t_min as int, t_max as int),
            r matches Some(rec) ==> rec.wf() && t_min <= rec.t <= t_max,
            r is Some ==> vmag2(ray.direction@) >= 1,
    {
        match self {
            Hittable::Sphere(sp) => sp.hit(ray, t_min, t_max),
        }
    }
}

/// An unordered collection of hittable objects.
#[derive(Clone, Debug)]
pub struct HitList {
    objects: Vec<Hittable>,
}

/// The nearest hit over a sequence of objects: every member is tested and the
/// hit with the smallest parameter is kept; on a tie the earlier object wins.
pub open spec fn list_hit_spec(objs: Seq<Hittable>, ray: Ray, t_min: int, t_max: int) -> Option<
    HitInfo,
>
    decreases objs.len(),
{
    if objs.len() == 0 {
        None
    } else {
        let prefix = list_hit_spec(objs.drop_last(), ray, t_min, t_max);
        let last = objs.last().hit_spec(ray, t_min, t_max);
        match prefix {
            None => last,
            Some(p) => match last {
                None => Some(p),
                Some(h) => if p.t > h.t {
                    Some(h)
                } else {
                    Some(p)
                },
            },
        }
    }
}

/// Law: the list's result is the nearest hit. When something is hit, the
/// record comes from one of the objects and no object reports a smaller
/// parameter; when nothing is hit, every object reports a miss.
pub proof fn lemma_list_hit_nearest(objs: Seq<Hittable>, ray: Ray, t_min: int, t_max: int)
    ensures
        match list_hit_spec(objs, ray, t_min, t_max) {
            Some(h) => (exists|i: int|
                0 <= i < objs.len() && #[trigger] objs[i].hit_spec(ray, t_min, t_max) == Some(h))
                && (forall|i: int|
                0 <= i < objs.len() ==> match #[trigger] objs[i].hit_spec(ray, t_min, t_max) {
                    Some(o) => h.t <= o.t,
                    None => true,
                }),
            None => forall|i: int|
                0 <= i < objs.len() ==> #[trigger] objs[i].hit_spec(ray, t_min, t_max) is None,
        },
    decreases objs.len(),
{
    if objs.len() > 0 {
        let prefix = objs.drop_last();
        lemma_list_hit_nearest(prefix, ray, t_min, t_max);
        assert(forall|i: int| 0 <= i < prefix.len() ==> prefix[i] == objs[i]);
        match list_hit_spec(objs, ray, t_min, t_max) {
            Some(h) => {
                match list_hit_spec(prefix, ray, t_min, t_max) {
                    Some(p) => {
                        if objs.last().hit_spec(ray, t_min, t_max) matches Some(l) && p.t > l.t {
                            assert(objs[objs.len() - 1].hit_spec(ray, t_min, t_max) == Some(h));
                        } else {
                            let wit = choose|i: int|
                                0 <= i < prefix.len() && #[trigger] prefix[i].hit_spec(
                                    ray,
                                    t_min,
                                    t_max,
                                ) == Some(p);
                            assert(objs[wit].hit_spec(ray, t_min, t_max) == Some(h));
                        }
                    },
                    None => {
                        assert(objs[objs.len() - 1].hit_spec(ray, t_min, t_max) == Some(h));
                    },
                }
            },
            None => {},
        }
    }
}

impl View for HitList {
    type V = Seq<Hittable>;

    closed spec fn view(&self) -> Seq<Hittable> {
        self.objects@
    }
}

impl HitList {
    pub open spec fn wf(self) -> bool {
        forall|i: int| 0 <= i < self@.len() ==> #[trigger] self@[i].wf()
    }

    pub fn new() -> (r: HitList)
        ensures
            r@ == Seq::<Hittable>::empty(),
    {
        Self { objects: vec![] }
    }

    pub fn clear(&mut self)
        ensures
            final(self)@ == Seq::<Hittable>::empty(),
    {
        self.objects.clear();
    }

    pub fn add(&mut self, object: Hittable)
        ensures
            final(self)@ == old(self)@.push(object),
    {
        self.objects.push(object);
    }

    /// The nearest intersection of `ray` with any member inside
    /// `[t_min, t_max]`, by a linear scan.
    pub fn hit(&self, ray: &Ray, t_min: i64, t_max: i64) -> (r: Option<HitRecord>)
        requires
            self.wf(),
            ray_wf(*ray),
            0 < t_min,
            t_max <= HORIZON,
        ensures
            opt_view(r) == list_hit_spec(self@, *ray, t_min as int, t_max as int),
            r matches Some(rec) ==> rec.wf() && t_min <= rec.t <= t_max,
            r is Some ==> vmag2(ray.direction@) >= 1,
    {
        let mut first_hit: Option<HitRecord> = None;
        let n: usize = self.objects.len();
        let mut idx: usize = 0;
        proof {
            assert(self@.take(0) =~= Seq::<Hittable>::empty());
        }
        while idx < n
            invariant
                0 <= idx <= n,
                n == self@.len(),
                self.wf(),
                ray_wf(*ray),
                0 < t_min,
                t_max <= HORIZON,
                opt_view(first_hit) == list_hit_spec(self@.take(idx as int), *ray, t_min as int, t_max as int),
                first_hit matches Some(rec) ==> rec.wf() && t_min <= rec.t <= t_max,
                first_hit is Some ==> vmag2(ray.direction@) >= 1,
            decreases n - idx,
        {
            let object: Hittable = self.objects[idx];
            let this_hit: Option<HitRecord> = object.hit(ray, t_min, t_max);
            proof {
                assert(self@.take(idx as int + 1).drop_last() =~= self@.take(idx as int));
                assert(self@.take(idx as int + 1).last() == self@[idx as int]);
            }
            match this_hit {
                Some(h) => {
                    match first_hit {
                        Some(cur) => {
                            if cur.t > h.t {
                                first_hit = Some(h);
                            }
                        },
                        None => {
                            first_hit = Some(h);
                        },
                    }
                },
                None => {},
            }
            idx = idx + 1;
        }
        proof {
            assert(self@.take(n as int) =~= self@);
        }
        first_hit
    }
}

} // verus!
