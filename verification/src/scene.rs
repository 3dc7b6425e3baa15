//! The scene: an ordered collection of spheres and the closest-hit
//! query.

use vstd::prelude::*;
use crate::ray::{Ray, ray_wf};
use crate::sphere::{Sphere, HitRecord, sphere_wf, sphere_hit_s};

verus! {

/// An ordered sequence of spheres; grows by append.
pub struct Scene {
    pub objs: Vec<Sphere>,
}

/// Every sphere of the scene is within the ranges the pipeline accepts.
pub open spec fn scene_wf(objs: Seq<Sphere>) -> bool {
    forall|i: int| 0 <= i < objs.len() ==> sphere_wf(#[trigger] objs[i])
}

/// Of two optional hits, the one with the smaller parameter; the
/// earlier argument wins ties.
pub open spec fn closer_hit(a: Option<HitRecord>, b: Option<HitRecord>) -> Option<HitRecord> {
    match a {
        None => b,
        Some(ha) => match b {
            None => a,
            Some(hb) => if ha.t <= hb.t { a } else { b },
        },
    }
}

/// The closest accepted intersection over a sequence of spheres: the
/// hit with the smallest parameter, ties resolved to the sphere
/// encountered first.
pub open spec fn scene_hit_s(objs: Seq<Sphere>, r: Ray) -> Option<HitRecord>
    decreases objs.len(),
{
    if objs.len() == 0 {
        None
    } else {
        closer_hit(scene_hit_s(objs.drop_last(), r), sphere_hit_s(objs.last(), r))
    }
}

impl Default for Scene {
    /// The empty scene.
    fn default() -> (s: Scene)
        ensures
            s.objs@ == Seq::<Sphere>::empty(),
    {
        Scene { objs: Vec::new() }
    }
}

impl Scene {
    /// An empty scene.
    pub fn new() -> (s: Scene)
        ensures
            s.objs@ == Seq::<Sphere>::empty(),
    {
        Scene { objs: Vec::new() }
    }

    /// Append a sphere; the scene never shrinks.
    pub fn add(&mut self, sphere: Sphere)
        ensures
            final(self).objs@ == old(self).objs@.push(sphere),
    {
        self.objs.push(sphere);
    }

    /// The closest accepted intersection of the ray with any sphere.
    pub fn hit(&self, ray: Ray) -> (res: Option<HitRecord>)
        requires
            scene_wf(self.objs@),
            ray_wf(ray),
        ensures
            res == scene_hit_s(self.objs@, ray),
    {
        let mut best: Option<HitRecord> = None;
        let mut i: usize = 0;
        while i < self.objs.len()
            invariant
                scene_wf(self.objs@),
                ray_wf(ray),
                0 <= i <= self.objs.len(),
                best == scene_hit_s(self.objs@.take(i as int), ray),
            decreases self.objs.len() - i,
        {
            let cur = self.objs[i].hit(ray);
            let next = match (&best, &cur) {
                (_, None) => best,
                (None, _) => cur,
                (Some(hb), Some(hc)) => if hc.t < hb.t {
                    cur
                } else {
                    best
                },
            };
            proof {
                let pre = self.objs@.take(i as int);
                let post = self.objs@.take(i + 1 as int);
                assert(post.drop_last() =~= pre);
                assert(post.last() == self.objs@[i as int]);
                assert(next == closer_hit(best, cur));
            }
            best = next;
            i = i + 1;
        }
        proof {
            assert(self.objs@.take(self.objs@.len() as int) =~= self.objs@);
        }
        best
    }
}

/// The closest-hit query is sound and minimal: a returned hit is the
/// intersection of some sphere of the scene, no sphere intersects at a
/// smaller parameter, and among the spheres achieving the returned
/// parameter the first in scene order wins; when the query returns
/// nothing, no sphere intersects.
pub proof fn lemma_scene_hit_minimal(objs: Seq<Sphere>, r: Ray)
    ensures
        match scene_hit_s(objs, r) {
            Some(h) => {
                &&& exists|i: int|
                    0 <= i < objs.len() && #[trigger] sphere_hit_s(objs[i], r) == Some(h)
                &&& forall|i: int|
                    0 <= i < objs.len() ==> match #[trigger] sphere_hit_s(objs[i], r) {
                        Some(h2) => h.t <= h2.t,
                        None => true,
                    }
            },
            None => forall|i: int|
                0 <= i < objs.len() ==> #[trigger] sphere_hit_s(objs[i], r) is None,
        },
    decreases objs.len(),
{
    if objs.len() > 0 {
        lemma_scene_hit_minimal(objs.drop_last(), r);
        assert(forall|i: int| 0 <= i < objs.len() - 1 ==> objs.drop_last()[i] == #[trigger] objs[i]);
    }
}

} // verus!
