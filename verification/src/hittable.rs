//! What a ray hits: the record of a hit, spheres, and scenes, which search
//! their members for the closest hit.
//!
//! `Hittable` is what the tracer asks of anything in the scene. A scene of
//! members is itself `Hittable`: it asks each member in turn and keeps the
//! closest hit. A `Sphere` holds a sphere's data; `nearest_root`,
//! `face_normal` and `Sphere::record` make the decisions of its
//! intersection. The roots themselves are arithmetic on doubles; a caller
//! who has it implements `Hittable` around a sphere and hands them in.

use vstd::prelude::*;
use std::rc::Rc;
use crate::material::EmptyMaterial;
use crate::math::Span;
use crate::ray::Ray;
use crate::scalar::Scalar;
use crate::vec3::{Point3, Vec3};

verus! {

/// `Rc::clone`: another handle to the same value. The handle that comes
/// back is, as a value, the one that was given.
#[verifier::external_body]
fn share<M>(material: &Rc<M>) -> (r: Rc<M>)
    ensures
        r == *material,
{
    material.clone()
}

/// Where and how a ray met a surface of material `M`.
#[derive(Clone)]
pub struct HitRecord<M> {
    /// The point hit.
    pub point: Point3,
    /// The surface normal there, turned against the ray.
    pub normal: Vec3,
    /// The surface's material.
    pub material: Rc<M>,
    /// How far along the ray the point lies.
    pub t: Scalar,
    /// Whether the ray came from outside: the normal was not turned.
    pub front_face: bool,
}

/// Whether a ray meets a surface from outside. `facing` is the dot product
/// of the ray's direction with the outward normal.
pub open spec fn from_outside(facing: Scalar) -> bool {
    facing.less(Scalar::zero())
}

/// The normal turned against the ray.
pub open spec fn against(facing: Scalar, outward_normal: Vec3) -> Vec3 {
    if from_outside(facing) {
        outward_normal
    } else {
        outward_normal.negated()
    }
}

/// Turns a surface's outward normal against the ray that hit it, and says
/// whether the ray came from outside. `facing` is the dot product of the
/// ray's direction with `outward_normal`.
pub fn face_normal(facing: Scalar, outward_normal: Vec3) -> (r: (bool, Vec3))
    ensures
        r.0 == from_outside(facing),
        r.1 == against(facing, outward_normal),
{
    let front_face: bool = facing.lt(Scalar::zero());
    if front_face {
        (front_face, outward_normal)
    } else {
        (front_face, outward_normal.neg())
    }
}

impl HitRecord<EmptyMaterial> {
    /// A record of nothing: all zeros, on an empty material.
    pub fn default() -> (r: HitRecord<EmptyMaterial>)
        ensures
            r.point == Vec3(Scalar::zero(), Scalar::zero(), Scalar::zero()),
            r.normal == Vec3(Scalar::zero(), Scalar::zero(), Scalar::zero()),
            r.t == Scalar::zero(),
            !r.front_face,
    {
        HitRecord {
            point: Point3::zero(),
            normal: Vec3::zero(),
            material: Rc::new(EmptyMaterial),
            t: Scalar::zero(),
            front_face: false,
        }
    }
}

impl<M> HitRecord<M> {
    pub fn point(&self) -> (r: Point3)
        ensures
            r == self.point,
    {
        self.point
    }

    pub fn normal(&self) -> (r: Vec3)
        ensures
            r == self.normal,
    {
        self.normal
    }

    pub fn material(&self) -> (r: Rc<M>)
        ensures
            r == self.material,
    {
        share(&self.material)
    }

    pub fn t(&self) -> (r: Scalar)
        ensures
            r == self.t,
    {
        self.t
    }

    pub fn front_face(&self) -> (r: bool)
        ensures
            r == self.front_face,
    {
        self.front_face
    }

    /// The record of a hit at `t` along the ray, in `point`, on a surface of
    /// `material` whose outward normal there is `outward_normal`. `facing`
    /// is the dot product of the ray's direction with `outward_normal`.
    pub fn oriented(
        t: Scalar,
        point: Point3,
        outward_normal: Vec3,
        facing: Scalar,
        material: Rc<M>,
    ) -> (r: HitRecord<M>)
        ensures
            r.t == t,
            r.point == point,
            r.material == material,
            r.front_face == from_outside(facing),
            r.normal == against(facing, outward_normal),
    {
        let (front_face, normal) = face_normal(facing, outward_normal);
        HitRecord { t, point, material, normal, front_face }
    }
}

/// Something a ray can hit, with surfaces of material `M`.
pub trait Hittable<M> {
    /// Where `ray` hits, within `t`, if it does.
    fn hit(&self, ray: Ray, t: Span) -> (r: Option<HitRecord<M>>);
}

/// A sphere of material `M`.
#[derive(Clone)]
pub struct Sphere<M> {
    pub center: Point3,
    pub radius: Scalar,
    pub material: Rc<M>,
}

impl<M> Sphere<M> {
    pub fn new(center: Point3, radius: Scalar, material: Rc<M>) -> (r: Sphere<M>)
        ensures
            r.center == center,
            r.radius == radius,
            r.material == material,
    {
        Sphere { center, radius, material }
    }

    /// The record of a hit on this sphere at `t` along the ray, in `point`.
    /// `outward_normal` is the sphere's outward normal there, and `facing`
    /// its dot product with the ray's direction.
    pub fn record(&self, t: Scalar, point: Point3, outward_normal: Vec3, facing: Scalar) -> (r:
        HitRecord<M>)
        ensures
            r.t == t,
            r.point == point,
            r.material == self.material,
            r.front_face == from_outside(facing),
            r.normal == against(facing, outward_normal),
    {
        HitRecord::oriented(t, point, outward_normal, facing, share(&self.material))
    }
}

/// Where a ray meets a sphere, within `t`. The distances at which a ray
/// crosses a sphere's surface are the roots of a quadratic; `discriminant`
/// is that quadratic's, `near` its smaller root and `far` its larger. There
/// is no hit where the discriminant is below zero or neither root lies in
/// `t`. Else it is `near` if that lies in `t`, and `far` if not.
pub open spec fn root(discriminant: Scalar, near: Scalar, far: Scalar, t: Span) -> Option<Scalar> {
    if discriminant.less(Scalar::zero()) {
        None
    } else if t.holds(near) {
        Some(near)
    } else if t.holds(far) {
        Some(far)
    } else {
        None
    }
}

/// Where a ray meets a sphere, within `t`: the smaller of the roots that lie
/// in `t`, if there is one.
pub fn nearest_root(discriminant: Scalar, near: Scalar, far: Scalar, t: Span) -> (r: Option<Scalar>)
    ensures
        r == root(discriminant, near, far, t),
        r.is_none() <==> discriminant.less(Scalar::zero()) || (!t.holds(near) && !t.holds(far)),
        r matches Some(x) ==> t.holds(x) && (x == near || x == far),
{
    if discriminant.lt(Scalar::zero()) {
        return None;
    }
    if t.contains(near) {
        return Some(near);
    }
    if t.contains(far) {
        return Some(far);
    }
    None
}

/// With the roots in order, the root found is the least of those in range.
pub proof fn lemma_root_is_least(discriminant: Scalar, near: Scalar, far: Scalar, t: Span)
    requires
        near.at_most(far),
    ensures
        root(discriminant, near, far, t) matches Some(x) ==> {
            &&& t.holds(near) ==> x.at_most(near)
            &&& t.holds(far) ==> x.at_most(far)
        },
{
}

/// Searching a range cut short at `bound` finds the root that the whole range
/// gives, if that root is below `bound`, and nothing if not.
pub proof fn lemma_root_in_narrowed(
    discriminant: Scalar,
    near: Scalar,
    far: Scalar,
    t: Span,
    bound: Scalar,
)
    requires
        near.at_most(far),
        bound.at_most(t.end),
    ensures
        root(discriminant, near, far, Span { start: t.start, end: bound }) == (match root(
            discriminant,
            near,
            far,
            t,
        ) {
            Some(x) => if x.less(bound) {
                Some(x)
            } else {
                None
            },
            None => None,
        }),
{
}

/// Whether `c` is a hit, and one inside `t`.
pub open spec fn admits<M>(t: Span, c: Option<HitRecord<M>>) -> bool {
    match c {
        Some(h) => t.holds(h.t),
        None => false,
    }
}

/// Whether number `i` of `hits` is the closest hit inside `t`: it is a hit
/// inside `t`, no hit inside `t` is closer, and none before it is as close.
pub open spec fn is_closest<M>(hits: Seq<Option<HitRecord<M>>>, t: Span, i: int) -> bool {
    &&& 0 <= i < hits.len()
    &&& admits(t, hits[i])
    &&& forall|j: int|
        0 <= j < i && admits(t, #[trigger] hits[j]) ==> hits[i].unwrap().t.key()
            < hits[j].unwrap().t.key()
    &&& forall|j: int|
        i <= j < hits.len() && admits(t, #[trigger] hits[j]) ==> hits[i].unwrap().t.key()
            <= hits[j].unwrap().t.key()
}

/// A search for the closest hit in a range, part way through: the range, and
/// the closest hit met so far.
pub struct Nearest<M> {
    pub range: Span,
    pub best: Option<HitRecord<M>>,
}

impl<M> Nearest<M> {
    /// The range that is still of interest: from the start of the search's
    /// range up to the closest hit so far, or to the range's end before any.
    pub open spec fn spec_window(self) -> Span {
        Span {
            start: self.range.start,
            end: match self.best {
                Some(h) => h.t,
                None => self.range.end,
            },
        }
    }

    /// The search after `c` was offered: `c` is taken if it is a hit inside
    /// the window, and passed over if not.
    pub open spec fn offered(self, c: Option<HitRecord<M>>) -> Nearest<M> {
        if admits(self.spec_window(), c) {
            Nearest { range: self.range, best: c }
        } else {
            self
        }
    }

    /// The search of `t` after each of `hits` was offered in turn.
    pub open spec fn searched(t: Span, hits: Seq<Option<HitRecord<M>>>) -> Nearest<M>
        decreases hits.len(),
    {
        if hits.len() == 0 {
            Nearest { range: t, best: None }
        } else {
            Self::searched(t, hits.drop_last()).offered(hits.last())
        }
    }

    /// A search of `t` that has met nothing yet.
    pub fn new(t: Span) -> (r: Nearest<M>)
        ensures
            r == (Nearest::<M> { range: t, best: None }),
    {
        Nearest { range: t, best: None }
    }

    /// The range that is still of interest.
    pub fn window(&self) -> (r: Span)
        ensures
            r == self.spec_window(),
    {
        let end: Scalar = match &self.best {
            Some(h) => h.t,
            None => self.range.end,
        };
        Span { start: self.range.start, end }
    }

    /// Offers what one member of the scene reports.
    pub fn offer(&mut self, c: Option<HitRecord<M>>)
        ensures
            *final(self) == old(self).offered(c),
    {
        let taken: bool = match &c {
            Some(h) => self.window().contains(h.t),
            None => false,
        };
        if taken {
            self.best = c;
        }
    }

    /// The closest hit met.
    pub fn result(self) -> (r: Option<HitRecord<M>>)
        ensures
            r == self.best,
    {
        self.best
    }
}

/// A search that narrows its window with each hit it takes ends on the
/// closest hit of all that were offered: on none where no hit was inside the
/// range, else on the first of those that no other is closer than.
pub proof fn lemma_search_finds_closest<M>(t: Span, hits: Seq<Option<HitRecord<M>>>)
    ensures
        Nearest::searched(t, hits).range == t,
        Nearest::searched(t, hits).best.is_none() <==> forall|j: int|
            0 <= j < hits.len() ==> !admits(t, #[trigger] hits[j]),
        Nearest::searched(t, hits).best.is_some() ==> exists|i: int|
            is_closest(hits, t, i) && Nearest::searched(t, hits).best == #[trigger] hits[i],
    decreases hits.len(),
{
    if hits.len() > 0 {
        let front = hits.drop_last();
        let c = hits.last();
        let before = Nearest::searched(t, front);
        let after = Nearest::searched(t, hits);
        lemma_search_finds_closest(t, front);
        assert(forall|j: int| 0 <= j < front.len() ==> front[j] == hits[j]);
        if admits(before.spec_window(), c) {
            let last = hits.len() - 1;
            assert(after.best == hits[last]);
            if before.best.is_some() {
                let i = choose|i: int| is_closest(front, t, i) && before.best == #[trigger] front[i];
                assert(admits(t, front[i]));
                assert forall|j: int| 0 <= j < last && admits(t, #[trigger] hits[j]) implies c.unwrap().t.key()
                    < hits[j].unwrap().t.key() by {
                    assert(admits(t, front[j]));
                }
            }
            assert(is_closest(hits, t, last));
        } else {
            assert(after == before);
            if before.best.is_some() {
                let i = choose|i: int| is_closest(front, t, i) && before.best == #[trigger] front[i];
                assert(admits(t, front[i]));
                assert forall|j: int| i <= j < hits.len() && admits(t, #[trigger] hits[j]) implies hits[i].unwrap().t.key()
                    <= hits[j].unwrap().t.key() by {
                    if j < front.len() {
                        assert(admits(t, front[j]));
                    }
                }
                assert(is_closest(hits, t, i));
                assert(after.best == hits[i]);
            } else {
                assert forall|j: int| 0 <= j < hits.len() implies !admits(t, #[trigger] hits[j]) by {
                    if j < front.len() {
                        assert(!admits(t, front[j]));
                    }
                }
            }
        }
    }
}

/// At most one of `hits` is the closest.
pub proof fn lemma_closest_is_one<M>(hits: Seq<Option<HitRecord<M>>>, t: Span)
    ensures
        forall|i: int, j: int| is_closest(hits, t, i) && is_closest(hits, t, j) ==> i == j,
{
    assert forall|i: int, j: int| is_closest(hits, t, i) && is_closest(hits, t, j) implies i
        == j by {
        if i < j {
            assert(admits(t, hits[i]));
        }
        if j < i {
            assert(admits(t, hits[j]));
        }
    }
}

/// The order of the members does not matter to how far the closest hit is,
/// nor to whether there is one: two searches of the same hits in another
/// order end on hits equally far, or both on none. Only between hits that
/// are equally far does the order choose.
pub proof fn lemma_order_does_not_matter<M>(
    t: Span,
    a: Seq<Option<HitRecord<M>>>,
    b: Seq<Option<HitRecord<M>>>,
)
    requires
        forall|i: int| 0 <= i < a.len() ==> b.contains(#[trigger] a[i]),
        forall|j: int| 0 <= j < b.len() ==> a.contains(#[trigger] b[j]),
    ensures
        Nearest::searched(t, a).best.is_none() <==> Nearest::searched(t, b).best.is_none(),
        Nearest::searched(t, a).best.is_some() ==> Nearest::searched(t, a).best.unwrap().t.key()
            == Nearest::searched(t, b).best.unwrap().t.key(),
{
    lemma_search_finds_closest(t, a);
    lemma_search_finds_closest(t, b);
    let found_a = Nearest::searched(t, a).best;
    let found_b = Nearest::searched(t, b).best;
    if found_a.is_some() {
        let i = choose|i: int| is_closest(a, t, i) && found_a == #[trigger] a[i];
        assert(b.contains(a[i]));
        let j = choose|j: int| 0 <= j < b.len() && b[j] == a[i];
        assert(admits(t, b[j]));
        let k = choose|k: int| is_closest(b, t, k) && found_b == #[trigger] b[k];
        assert(a.contains(b[k]));
        let l = choose|l: int| 0 <= l < a.len() && a[l] == b[k];
        assert(admits(t, a[l]));
    }
    if found_b.is_some() {
        let k = choose|k: int| is_closest(b, t, k) && found_b == #[trigger] b[k];
        assert(a.contains(b[k]));
        let l = choose|l: int| 0 <= l < a.len() && a[l] == b[k];
        assert(admits(t, a[l]));
    }
}

/// What a member reports when it is asked for a window only: its hit, where
/// that lies inside the window, and nothing where it does not.
pub open spec fn confined<M>(c: Option<HitRecord<M>>, window: Span) -> Option<HitRecord<M>> {
    if admits(window, c) {
        c
    } else {
        None
    }
}

/// Asking each member for the window that is left, and not for the whole
/// range, changes nothing: where `narrow` holds what the members report for
/// the window that the search has come to when their turn comes, and `full`
/// what they report for the whole range, both searches end alike.
pub proof fn lemma_narrowing_loses_nothing<M>(
    t: Span,
    full: Seq<Option<HitRecord<M>>>,
    narrow: Seq<Option<HitRecord<M>>>,
)
    requires
        narrow.len() == full.len(),
        forall|i: int|
            0 <= i < full.len() ==> #[trigger] narrow[i] == confined(
                full[i],
                Nearest::searched(t, narrow.take(i)).spec_window(),
            ),
    ensures
        Nearest::searched(t, narrow) == Nearest::searched(t, full),
    decreases full.len(),
{
    if full.len() > 0 {
        let last = full.len() - 1;
        assert(narrow.drop_last() == narrow.take(last));
        assert forall|i: int| 0 <= i < last implies #[trigger] narrow.drop_last()[i] == confined(
            full.drop_last()[i],
            Nearest::searched(t, narrow.drop_last().take(i)).spec_window(),
        ) by {
            assert(narrow.drop_last().take(i) == narrow.take(i));
            assert(narrow.drop_last()[i] == narrow[i]);
        }
        lemma_narrowing_loses_nothing(t, full.drop_last(), narrow.drop_last());
        assert(narrow.last() == narrow[last]);
    }
}

/// Which of `hits` is the closest inside `t`, where `hits` holds what each
/// member of a scene reports for one ray. Of hits equally close the first is
/// the closest. It is the hit that a search ends on which was offered each
/// of `hits` in turn.
pub fn closest_hit<M>(hits: &Vec<Option<HitRecord<M>>>, t: Span) -> (r: Option<usize>)
    ensures
        r.is_none() <==> forall|j: int| 0 <= j < hits@.len() ==> !admits(t, #[trigger] hits@[j]),
        r matches Some(i) ==> is_closest(hits@, t, i as int),
        Nearest::searched(t, hits@).best == (match r {
            Some(i) => hits@[i as int],
            None => None,
        }),
{
    let mut found: Option<usize> = None;
    let mut end: Scalar = t.end;
    let mut k: usize = 0;
    while k < hits.len()
        invariant
            k <= hits@.len(),
            found.is_none() ==> end == t.end && forall|j: int|
                0 <= j < k ==> !admits(t, #[trigger] hits@[j]),
            found matches Some(i) ==> i < k && is_closest(hits@.take(k as int), t, i as int)
                && end == hits@[i as int].unwrap().t,
        decreases hits@.len() - k,
    {
        let ghost before = hits@.take(k as int);
        let ghost after = hits@.take(k + 1);
        proof {
            assert(forall|j: int| 0 <= j < k ==> before[j] == hits@[j]);
            assert(forall|j: int| 0 <= j <= k ==> after[j] == hits@[j]);
        }
        let taken: bool = match &hits[k] {
            Some(h) => Span::new(t.start, end).contains(h.t),
            None => false,
        };
        if taken {
            proof {
                if found.is_some() {
                    let i = found.unwrap() as int;
                    assert(admits(t, before[i]));
                    assert forall|j: int| 0 <= j < k && admits(t, #[trigger] after[j]) implies after[k as int].unwrap().t.key()
                        < after[j].unwrap().t.key() by {
                        assert(admits(t, before[j]));
                    }
                }
                assert(is_closest(after, t, k as int));
            }
            found = Some(k);
            end = match &hits[k] {
                Some(h) => h.t,
                None => end,
            };
        } else {
            proof {
                if found.is_some() {
                    let i = found.unwrap() as int;
                    assert(admits(t, before[i]));
                    assert forall|j: int| i <= j < after.len() && admits(t, #[trigger] after[j]) implies after[i].unwrap().t.key()
                        <= after[j].unwrap().t.key() by {
                        if j < k {
                            assert(admits(t, before[j]));
                        }
                    }
                    assert forall|j: int| 0 <= j < i && admits(t, #[trigger] after[j]) implies after[i].unwrap().t.key()
                        < after[j].unwrap().t.key() by {
                        assert(admits(t, before[j]));
                    }
                    assert(is_closest(after, t, i));
                }
            }
        }
        k = k + 1;
    }
    proof {
        assert(hits@.take(k as int) == hits@);
        lemma_search_finds_closest(t, hits@);
        lemma_closest_is_one(hits@, t);
    }
    found
}

/// The members of a scene, in the order they were added.
#[verifier::reject_recursive_types(M)]
pub struct HittableVec<M> {
    pub objects: Vec<Box<dyn Hittable<M>>>,
}

impl<M> HittableVec<M> {
    /// A scene with nothing in it.
    pub fn new() -> (r: HittableVec<M>)
        ensures
            r.objects@.len() == 0,
    {
        HittableVec { objects: Vec::new() }
    }

    /// Adds a member behind those that are there.
    pub fn add(&mut self, object: Box<dyn Hittable<M>>)
        ensures
            final(self).objects@ == old(self).objects@.push(object),
    {
        self.objects.push(object);
    }

    /// How many members there are.
    pub fn len(&self) -> (r: usize)
        ensures
            r == self.objects@.len(),
    {
        self.objects.len()
    }
}

impl<M> Hittable<M> for HittableVec<M> {
    /// The closest hit among the members' hits. Each member in turn is asked
    /// where `ray` hits it within the window that the search has left, and
    /// what it reports is offered to the search. So whatever the members
    /// report, what comes back is what a search of `t` ends on that was
    /// offered one report for each member; a hit that comes back lies in
    /// `t`; and a scene without members reports nothing.
    fn hit(&self, ray: Ray, t: Span) -> (r: Option<HitRecord<M>>)
        ensures
            exists|reports: Seq<Option<HitRecord<M>>>|
                reports.len() == self.objects@.len() && r == Nearest::searched(t, reports).best,
            r matches Some(h) ==> t.holds(h.t),
            self.objects@.len() == 0 ==> r.is_none(),
    {
        let mut search: Nearest<M> = Nearest::new(t);
        let ghost mut reports: Seq<Option<HitRecord<M>>> = Seq::empty();
        let mut k: usize = 0;
        while k < self.objects.len()
            invariant
                k <= self.objects@.len(),
                reports.len() == k,
                search == Nearest::searched(t, reports),
            decreases self.objects@.len() - k,
        {
            let reported: Option<HitRecord<M>> = self.objects[k].hit(ray, search.window());
            proof {
                assert(reports.push(reported).drop_last() == reports);
                reports = reports.push(reported);
            }
            search.offer(reported);
            k = k + 1;
        }
        proof {
            lemma_search_finds_closest(t, reports);
        }
        search.result()
    }
}

} // verus!
