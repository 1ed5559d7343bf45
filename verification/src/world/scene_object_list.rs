//! The scene: an ordered collection of primitives, searched linearly for
//! the nearest intersection.
use crate::ray::{Ray, RayModel};
use crate::utils::interval::Interval;
use crate::vec3::dot_exact;
use crate::world::hit_record::{HitModel, HitRecord};
use crate::world::scene_object::{
    hit_model, lemma_hit_opposes, lemma_shorter_search, object_hit, object_wf, ObjectModel,
    SceneObject,
};
use vstd::prelude::*;

verus! {

/// The upper bound of the search once `found` is known.
pub open spec fn search_bound(found: Option<HitModel>, hi: int) -> int {
    match found {
        Some(h) => h.t,
        None => hi,
    }
}

/// The hit that a search of `objects` in order finds within `[lo, hi]`:
/// each primitive is tested up to the nearest hit found before it, so a
/// later primitive wins a tie.
pub open spec fn closest_hit(objects: Seq<ObjectModel>, ray: RayModel, lo: int, hi: int) -> Option<
    HitModel,
>
    decreases objects.len(),
{
    if objects.len() == 0 {
        None
    } else {
        let before = closest_hit(objects.drop_last(), ray, lo, hi);
        match object_hit(objects.last(), ray, lo, search_bound(before, hi)) {
            Some(h) => Some(h),
            None => before,
        }
    }
}

/// Whether `found` is a nearest intersection of the ray with `objects`
/// within `[lo, hi]`: the hit of one of them, and no other hit is nearer;
/// or nothing, when none of them is hit.
pub open spec fn is_nearest_hit(
    objects: Seq<ObjectModel>,
    ray: RayModel,
    lo: int,
    hi: int,
    found: Option<HitModel>,
) -> bool {
    match found {
        Some(h) => {
            &&& exists|k: int|
                0 <= k < objects.len() && object_hit(#[trigger] objects[k], ray, lo, hi) == Some(h)
            &&& forall|i: int|
                0 <= i < objects.len() ==> (object_hit(#[trigger] objects[i], ray, lo, hi) matches Some(
                    g,
                ) ==> h.t <= g.t)
        },
        None => forall|i: int|
            0 <= i < objects.len() ==> object_hit(#[trigger] objects[i], ray, lo, hi) is None,
    }
}

/// The search finds a nearest intersection: the hit with the smallest
/// parameter among the hits of all primitives, whatever their order.
pub proof fn lemma_closest_is_nearest(objects: Seq<ObjectModel>, ray: RayModel, lo: int, hi: int)
    ensures
        is_nearest_hit(objects, ray, lo, hi, closest_hit(objects, ray, lo, hi)),
        closest_hit(objects, ray, lo, hi) matches Some(h) ==> lo <= h.t <= hi && dot_exact(
            ray.direction,
            h.normal,
        ) <= 0,
    decreases objects.len(),
{
    if objects.len() > 0 {
        let earlier = objects.drop_last();
        let last = objects.last();
        let before = closest_hit(earlier, ray, lo, hi);
        let bound = search_bound(before, hi);
        lemma_closest_is_nearest(earlier, ray, lo, hi);
        lemma_shorter_search(last, ray, lo, hi, bound);
        lemma_hit_opposes(last, ray, lo, hi);
        let found = closest_hit(objects, ray, lo, hi);
        assert forall|i: int| 0 <= i < earlier.len() implies earlier[i] == objects[i] by {}
        match found {
            Some(h) => {
                if object_hit(last, ray, lo, bound) is Some {
                    assert(object_hit(objects[objects.len() - 1], ray, lo, hi) == Some(h));
                } else {
                    let k = choose|k: int|
                        0 <= k < earlier.len() && object_hit(#[trigger] earlier[k], ray, lo, hi)
                            == Some(h);
                    assert(object_hit(objects[k], ray, lo, hi) == Some(h));
                }
                assert forall|i: int| 0 <= i < objects.len() implies (object_hit(
                    #[trigger] objects[i],
                    ray,
                    lo,
                    hi,
                ) matches Some(g) ==> h.t <= g.t) by {
                    if i < earlier.len() {
                        assert(earlier[i] == objects[i]);
                    }
                }
            },
            None => {
                assert forall|i: int| 0 <= i < objects.len() implies object_hit(
                    #[trigger] objects[i],
                    ray,
                    lo,
                    hi,
                ) is None by {
                    if i < earlier.len() {
                        assert(earlier[i] == objects[i]);
                    }
                }
            },
        }
    }
}

/// An append-only, ordered collection of primitives.
pub struct SceneObjectList {
    pub objects: Vec<SceneObject>,
}

impl View for SceneObjectList {
    type V = Seq<ObjectModel>;

    open spec fn view(&self) -> Seq<ObjectModel> {
        self.objects@.map_values(|o: SceneObject| o@)
    }
}

/// Whether every primitive of a scene is well formed.
pub open spec fn scene_wf(objects: Seq<ObjectModel>) -> bool {
    forall|i: int| 0 <= i < objects.len() ==> object_wf(#[trigger] objects[i])
}

impl SceneObjectList {
    /// An empty scene.
    pub fn new() -> (r: SceneObjectList)
        ensures
            r@ == Seq::<ObjectModel>::empty(),
            scene_wf(r@),
    {
        let r = SceneObjectList { objects: Vec::new() };
        assert(r@ =~= Seq::<ObjectModel>::empty());
        r
    }

    /// Appends a primitive.
    pub fn add(&mut self, object: SceneObject)
        ensures
            final(self)@ == old(self)@.push(object@),
            scene_wf(old(self)@) && object_wf(object@) ==> scene_wf(final(self)@),
    {
        self.objects.push(object);
        assert(self@ =~= old(self)@.push(object@));
    }

    /// Removes every primitive.
    pub fn clear(&mut self)
        ensures
            final(self)@ == Seq::<ObjectModel>::empty(),
            scene_wf(final(self)@),
    {
        self.objects.clear();
        assert(self@ =~= Seq::<ObjectModel>::empty());
    }

    /// Whether every primitive is well formed.
    pub fn is_valid(&self) -> (r: bool)
        ensures
            r == scene_wf(self@),
    {
        let mut i: usize = 0;
        while i < self.objects.len()
            invariant
                i <= self.objects.len(),
                forall|k: int| 0 <= k < i ==> object_wf(#[trigger] self@[k]),
            decreases self.objects.len() - i,
        {
            if !self.objects[i].is_valid() {
                assert(!object_wf(self@[i as int]));
                return false;
            }
            i += 1;
        }
        true
    }

    /// The nearest intersection of `ray` with the scene at a parameter that
    /// `ray_t` accepts, or `None` if the ray escapes.
    pub fn hit(&self, ray: &Ray, ray_t: Interval) -> (r: Option<HitRecord>)
        requires
            scene_wf(self@),
        ensures
            hit_model(r) == closest_hit(self@, ray@, ray_t.min@, ray_t.max@),
            is_nearest_hit(self@, ray@, ray_t.min@, ray_t.max@, hit_model(r)),
            r matches Some(h) ==> ray_t.min@ <= h@.t <= ray_t.max@,
            r matches Some(h) ==> dot_exact(ray@.direction, h@.normal) <= 0,
    {
        let mut closest: Option<HitRecord> = None;
        let mut temp_interval = ray_t;
        let mut i: usize = 0;
        proof {
            assert(self@.take(0) =~= Seq::<ObjectModel>::empty());
        }
        while i < self.objects.len()
            invariant
                i <= self.objects.len(),
                scene_wf(self@),
                hit_model(closest) == closest_hit(
                    self@.take(i as int),
                    ray@,
                    ray_t.min@,
                    ray_t.max@,
                ),
                temp_interval.min == ray_t.min,
                temp_interval.max@ == search_bound(hit_model(closest), ray_t.max@),
            decreases self.objects.len() - i,
        {
            proof {
                assert(self@.take(i + 1).drop_last() =~= self@.take(i as int));
                assert(self@.take(i + 1).last() == self.objects[i as int]@);
                assert(object_wf(self@[i as int]));
            }
            match self.objects[i].hit(ray, temp_interval) {
                Some(rec) => {
                    temp_interval.max = rec.t;
                    closest = Some(rec);
                },
                None => {},
            }
            i += 1;
        }
        proof {
            assert(self@.take(i as int) =~= self@);
            lemma_closest_is_nearest(self@, ray@, ray_t.min@, ray_t.max@);
        }
        closest
    }
}

} // verus!
