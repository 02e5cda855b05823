//! The scene: a collection of hittables and the recursive color resolution.

use vstd::prelude::*;
use vstd::arithmetic::div_mod::{lemma_fundamental_div_mod, lemma_mod_division_less_than_divisor};
use crate::fixed::{SCALE, tdiv, fmul, lemma_fmul_unit_range};
use crate::vector::{
    Vec3, Vec3i, in_bounds, vdot, vmag2, vunit, vlerp, vcmul, rdot, v_in_i64, lemma_vdot_le,
    lemma_rdot_self_nonneg, lemma_tdiv_pos,
};
use crate::ray::{Ray, ray_wf, T_EPS, HORIZON, POS_BOUND, DIR_BOUND};
use crate::rng::Sampler;
use crate::materials::{Material, color_wf, scatter_outcome};
use crate::hittable::{HitList, Hittable, list_hit_spec};
use crate::shapes::{Sphere, GRID_MARGIN, RAD_MIN};

verus! {

/// No light at all.
pub open spec fn black() -> Vec3i {
    Vec3i { x: 0, y: 0, z: 0 }
}

/// The sky gradient's lower endpoint.
pub open spec fn white() -> Vec3i {
    Vec3i { x: SCALE as int, y: SCALE as int, z: SCALE as int }
}

/// The sky gradient's upper endpoint, `(0.5, 0.7, 1.0)` on the grid.
pub open spec fn sky_blue() -> Vec3i {
    Vec3i { x: 32768, y: 45875, z: SCALE as int }
}

/// The gradient fraction for a normalized direction's vertical component:
/// `(y + 1)/2`, clamped onto `[0, 1]` to absorb normalization rounding.
pub open spec fn bg_t(uy: int) -> int {
    let t: int = tdiv(uy + SCALE as int, 2);
    if t < 0 {
        0
    } else if t > SCALE as int {
        SCALE as int
    } else {
        t
    }
}

/// The sky color for a given vertical component of the unit direction.
pub open spec fn background_of(uy: int) -> Vec3i {
    vlerp(white(), sky_blue(), bg_t(uy))
}

/// The sky color a ray that misses everything resolves to; it depends only on
/// the normalized direction's vertical component.
pub open spec fn background(dir: Vec3i) -> Vec3i {
    background_of(vunit(dir).y)
}

/// The nearest scene hit the recursion works with.
pub open spec fn nearest_hit(objs: Seq<Hittable>, ray: Ray) -> crate::hittable::HitInfo {
    list_hit_spec(objs, ray, T_EPS as int, HORIZON as int).unwrap()
}

/// A color the recursive resolution can produce for this ray: black once the
/// bounce budget is spent, the sky on a miss (black for a degenerate
/// direction), and after a hit the attenuated color of a scattered ray the
/// hit material's model allows for some draw — or black on absorption.
pub open spec fn ray_color_outcome(objs: Seq<Hittable>, ray: Ray, bounces: int, c: Vec3i) -> bool
    decreases bounces,
{
    if bounces <= 0 {
        c == black()
    } else if list_hit_spec(objs, ray, T_EPS as int, HORIZON as int) is None {
        if vmag2(ray.direction@) >= 1 {
            c == background(ray.direction@)
        } else {
            c == black()
        }
    } else {
        ||| (scatter_outcome(
            nearest_hit(objs, ray).material,
            ray,
            nearest_hit(objs, ray),
            None,
        ) && c == black())
        ||| (exists|att: Vec3i, sc: Ray, rc: Vec3i|
            #![trigger scatter_outcome(nearest_hit(objs, ray).material, ray, nearest_hit(objs, ray), Some((att, sc.direction@))), vcmul(rc, att)]
            scatter_outcome(
                nearest_hit(objs, ray).material,
                ray,
                nearest_hit(objs, ray),
                Some((att, sc.direction@)),
            ) && sc.origin@ == nearest_hit(objs, ray).point && ray_color_outcome(
                objs,
                sc,
                bounces - 1,
                rc,
            ) && c == vcmul(rc, att))
    }
}

/// A scene of hittable objects.
#[derive(Clone, Debug)]
pub struct Scene {
    hittables: HitList,
}

impl View for Scene {
    type V = Seq<Hittable>;

    closed spec fn view(&self) -> Seq<Hittable> {
        self.hittables@
    }
}

impl Scene {
    pub open spec fn wf(self) -> bool {
        forall|i: int| 0 <= i < self@.len() ==> #[trigger] self@[i].wf()
    }

    pub fn new() -> (r: Scene)
        ensures
            r@ == Seq::<Hittable>::empty(),
    {
        let hittables = HitList::new();
        Scene { hittables }
    }

    /// Adds a sphere at `(x, y, z)` with radius `r` and material `mat`; the
    /// whole ball must sit inside the coordinate grid with its margin.
    pub fn add_sphere(&mut self, x: i64, y: i64, z: i64, r: i64, mat: Material)
        requires
            -(POS_BOUND - GRID_MARGIN - r) <= x <= POS_BOUND - GRID_MARGIN - r,
            -(POS_BOUND - GRID_MARGIN - r) <= y <= POS_BOUND - GRID_MARGIN - r,
            -(POS_BOUND - GRID_MARGIN - r) <= z <= POS_BOUND - GRID_MARGIN - r,
            RAD_MIN <= r <= DIR_BOUND,
            mat.wf(),
        ensures
            final(self)@ == old(self)@.push(
                Hittable::Sphere(
                    Sphere {
                        position: (Vec3 { x: x, y: y, z: z }),
                        radius: r,
                        material: mat,
                    },
                ),
            ),
    {
        self.hittables.add(Hittable::Sphere(Sphere::new(Vec3::new(x, y, z), r, mat)));
    }

    /// Resolves the light arriving along `ray`, bouncing at most `bounces`
    /// times: black once the bounce budget is spent, the attenuated color of
    /// the scattered ray after a hit, and the sky gradient on a miss.
    pub fn ray_color(&self, ray: &Ray, bounces: u64, sampler: &mut Sampler) -> (c: Vec3)
        requires
            self.wf(),
            ray_wf(*ray),
        ensures
            color_wf(c@),
            bounces == 0 ==> c@ == black(),
            bounces > 0 && vmag2(ray.direction@) < 1 ==> c@ == black(),
            bounces > 0 && vmag2(ray.direction@) >= 1 && list_hit_spec(
                self@,
                *ray,
                T_EPS as int,
                HORIZON as int,
            ) is None ==> c@ == background(ray.direction@),
            bounces > 0 ==> (match list_hit_spec(self@, *ray, T_EPS as int, HORIZON as int) {
                Some(h) => c@.x <= h.material.albedo_spec().x && c@.y <= h.material.albedo_spec().y
                    && c@.z <= h.material.albedo_spec().z,
                None => true,
            }),
            ray_color_outcome(self@, *ray, bounces as int, c@),
        decreases bounces,
    {
        if bounces == 0 {
            return Vec3::zeros();
        }
        proof {
            let s: int = SCALE as int;
            let db: int = DIR_BOUND as int;
            assert(3 * (db * db) <= (0xC_0000_0000 as int) * s) by (nonlinear_arith)
                requires
                    db == 0x200_0000,
                    s == 65536,
            ;
            lemma_vdot_le(ray.direction@, ray.direction@, db, db, 0xC_0000_0000);
            lemma_rdot_self_nonneg(ray.direction@);
            lemma_tdiv_pos(rdot(ray.direction@, ray.direction@), s);
        }
        match self.hittables.hit(ray, T_EPS, HORIZON) {
            Some(hit) => {
                proof {
                    crate::materials::lemma_albedo_wf(hit.material);
                }
                match hit.material.scatter(ray, &hit, sampler) {
                    Some((attenuation, scattered)) => {
                        let rec_color: Vec3 = self.ray_color(&scattered, bounces - 1, sampler);
                        proof {
                            lemma_color_attenuate(rec_color@, attenuation@);
                        }
                        let result: Vec3 = rec_color.component_mul(&attenuation);
                        proof {
                            assert(nearest_hit(self@, *ray) == hit@);
                            assert(scatter_outcome(
                                nearest_hit(self@, *ray).material,
                                *ray,
                                nearest_hit(self@, *ray),
                                Some((attenuation@, scattered.direction@)),
                            ));
                            assert(scattered.origin@ == nearest_hit(self@, *ray).point);
                            assert(ray_color_outcome(
                                self@,
                                scattered,
                                bounces as int - 1,
                                rec_color@,
                            ));
                            assert(result@ == vcmul(rec_color@, attenuation@));
                            assert(ray_color_outcome(self@, *ray, bounces as int, result@));
                        }
                        result
                    },
                    None => {
                        let result: Vec3 = Vec3::zeros();
                        proof {
                            assert(nearest_hit(self@, *ray) == hit@);
                            assert(scatter_outcome(
                                nearest_hit(self@, *ray).material,
                                *ray,
                                nearest_hit(self@, *ray),
                                None::<(Vec3i, Vec3i)>,
                            ));
                            assert(ray_color_outcome(self@, *ray, bounces as int, result@));
                        }
                        result
                    },
                }
            },
            None => {
                if ray.direction.magnitude_squared() < 1 {
                    // a degenerate ray carries no light
                    return Vec3::zeros();
                }
                let unit_dir: Vec3 = ray.direction.normalize();
                let n: i64 = unit_dir.y + SCALE;
                let t: i64 = if n <= 0 {
                    proof {
                        lemma_bg_t_clamp(unit_dir@.y);
                    }
                    0
                } else {
                    let t0: i64 = ((n as u64) / 2) as i64;
                    if t0 > SCALE {
                        SCALE
                    } else {
                        t0
                    }
                };
                proof {
                    lemma_background_between(unit_dir@.y);
                }
                let white_c: Vec3 = Vec3::new(SCALE, SCALE, SCALE);
                let blue_c: Vec3 = Vec3::new(32768, 45875, SCALE);
                white_c.lerp(&blue_c, t)
            },
        }
    }
}

/// Attenuating one color by another keeps every channel within `[0, 1]`.
pub proof fn lemma_color_attenuate(a: Vec3i, b: Vec3i)
    requires
        color_wf(a),
        color_wf(b),
    ensures
        color_wf(vcmul(a, b)),
        v_in_i64(vcmul(a, b)),
        vcmul(a, b).x <= b.x,
        vcmul(a, b).y <= b.y,
        vcmul(a, b).z <= b.z,
{
    lemma_fmul_unit_range(a.x, b.x);
    lemma_fmul_unit_range(a.y, b.y);
    lemma_fmul_unit_range(a.z, b.z);
}

/// For a vertical component at or below negative one the gradient fraction
/// clamps to zero.
proof fn lemma_bg_t_clamp(uy: int)
    requires
        uy + SCALE as int <= 0,
    ensures
        bg_t(uy) == 0,
{
    let n: int = uy + SCALE as int;
    if n < 0 {
        vstd::arithmetic::div_mod::lemma_div_pos_is_pos(-n, 2);
    } else {
        vstd::arithmetic::div_mod::lemma_div_of0(2);
    }
}

/// One channel of the gradient: interpolating from white down to a channel
/// value `b` never leaves `[b, 1]`.
proof fn lemma_lerp_from_white(b: int, t: int)
    requires
        0 <= b <= SCALE as int,
        0 <= t <= SCALE as int,
    ensures
        b <= (SCALE as int - t) + fmul(b, t) <= SCALE as int,
{
    let s: int = SCALE as int;
    lemma_fmul_unit_range(b, t);
    assert(b * t >= 0) by (nonlinear_arith)
        requires
            b >= 0,
            t >= 0,
    ;
    lemma_fundamental_div_mod(b * t, s);
    lemma_mod_division_less_than_divisor(b * t, s);
    let qq: int = fmul(b, t);
    assert(qq == b * t / s);
    assert(s - t + qq >= b) by (nonlinear_arith)
        requires
            b * t == s * qq + (b * t) % s,
            0 <= (b * t) % s < s,
            0 <= b <= s,
            0 <= t <= s,
            s == 65536,
    ;
}

/// Law: the sky color lies on the segment between white and sky-blue,
/// channel by channel, whatever the vertical component is.
pub proof fn lemma_background_between(uy: int)
    ensures
        sky_blue().x <= background_of(uy).x <= white().x,
        sky_blue().y <= background_of(uy).y <= white().y,
        sky_blue().z <= background_of(uy).z <= white().z,
        color_wf(background_of(uy)),
{
    let s: int = SCALE as int;
    let t: int = bg_t(uy);
    assert(fmul(s, s - t) == fmul(s - t, s) && fmul(32768, t) == fmul(t, 32768) && fmul(45875, t)
        == fmul(t, 45875)) by {
        assert(s * (s - t) == (s - t) * s && 32768 * t == t * 32768 && 45875 * t == t * 45875)
            by (nonlinear_arith);
    }
    lemma_fmul_unit_range(s - t, s);
    lemma_lerp_from_white(32768, t);
    lemma_lerp_from_white(45875, t);
    lemma_lerp_from_white(s, t);
}

/// Law: the sky color of a missed ray is determined solely by the normalized
/// direction's vertical component; the origin and the other components have
/// no influence.
pub proof fn lemma_background_depends_on_unit_y(d1: Vec3i, d2: Vec3i)
    requires
        vunit(d1).y == vunit(d2).y,
    ensures
        background(d1) == background(d2),
{
}

} // verus!
