//! The nearest crossing over all the objects of a scene.

use vstd::prelude::*;
use crate::sphere::Roots;

verus! {

/// The object that a ray reaches first, by its place in the scene, and the
/// parameter at which the ray reaches it.
#[derive(Clone, Copy, Debug, PartialEq, Eq, Structural)]
pub struct Hit {
    pub index: usize,
    pub t: i64,
}

/// What one object offers to a query over the open interval from `t_min` to
/// `t_max`: its accepted crossing, or nothing where the ray has no crossings
/// with it.
pub open spec fn offer(c: Option<Roots>, t_min: i64, t_max: i64) -> Option<i64> {
    match c {
        Some(q) => q.spec_hit(t_min, t_max),
        None => None,
    }
}

/// Every crossing pair in `cs` is well formed.
pub open spec fn all_wf(cs: Seq<Option<Roots>>) -> bool {
    forall|j: int| 0 <= j < cs.len() ==> ((#[trigger] cs[j]) matches Some(q) ==> q.wf())
}

/// No object offers anything inside the interval.
pub open spec fn misses_all(cs: Seq<Option<Roots>>, t_min: i64, t_max: i64) -> bool {
    forall|j: int| 0 <= j < cs.len() ==> (#[trigger] offer(cs[j], t_min, t_max)) is None
}

/// `h` is the nearest of all offers: object `h.index` offers `h.t`, no object
/// offers less, and no object before it offers as little.
pub open spec fn is_nearest(cs: Seq<Option<Roots>>, t_min: i64, t_max: i64, h: Hit) -> bool {
    &&& h.index < cs.len()
    &&& offer(cs[h.index as int], t_min, t_max) == Some(h.t)
    &&& forall|j: int|
        0 <= j < cs.len() ==> ((#[trigger] offer(cs[j], t_min, t_max)) matches Some(t) ==> h.t <= t
            && (j < h.index ==> h.t < t))
}

/// What a query returns on the offers `cs`: the nearest of them, or nothing
/// where there is none.
pub open spec fn answers(cs: Seq<Option<Roots>>, t_min: i64, t_max: i64, r: Option<Hit>) -> bool {
    match r {
        Some(h) => is_nearest(cs, t_min, t_max, h),
        None => misses_all(cs, t_min, t_max),
    }
}

/// The running nearest after the object at `index` has been asked. It is
/// asked below the nearest so far, so it replaces that one only with a
/// strictly smaller parameter.
spec fn spec_closer(
    best: Option<Hit>,
    index: usize,
    c: Option<Roots>,
    t_min: i64,
    t_max: i64,
) -> Option<Hit> {
    let bound = match best {
        Some(h) => h.t,
        None => t_max,
    };
    match offer(c, t_min, bound) {
        Some(t) => Some(Hit { index, t }),
        None => best,
    }
}

fn closer(best: Option<Hit>, index: usize, c: &Option<Roots>, t_min: i64, t_max: i64) -> (r:
    Option<Hit>)
    ensures
        r == spec_closer(best, index, *c, t_min, t_max),
        c matches Some(q) ==> q.wf(),
{
    let bound = match best {
        Some(h) => h.t,
        None => t_max,
    };
    match c {
        Some(q) => match q.hit(t_min, bound) {
            Some(t) => Some(Hit { index, t }),
            None => best,
        },
        None => best,
    }
}

/// Asking one more object below the running nearest keeps the running
/// nearest the answer for all the objects asked.
proof fn lemma_scan_step(
    cs: Seq<Option<Roots>>,
    c: Option<Roots>,
    t_min: i64,
    t_max: i64,
    best: Option<Hit>,
)
    requires
        cs.len() < usize::MAX,
        answers(cs, t_min, t_max, best),
        c matches Some(q) ==> q.wf(),
    ensures
        answers(cs.push(c), t_min, t_max, spec_closer(best, cs.len() as usize, c, t_min, t_max)),
{
    let next = cs.push(c);
    let n = cs.len() as int;
    let r = spec_closer(best, cs.len() as usize, c, t_min, t_max);
    assert(next[n] == c);
    assert forall|j: int| 0 <= j < n implies #[trigger] next[j] == cs[j] by {}
    match best {
        Some(h) => {
            assert(offer(cs[h.index as int], t_min, t_max) == Some(h.t));
            if let Some(q) = c {
                crate::sphere::lemma_tighter_bound(q, t_min, h.t, t_max);
            }
            match r {
                Some(g) => {
                    assert forall|j: int| 0 <= j < next.len() implies ((#[trigger] offer(
                        next[j],
                        t_min,
                        t_max,
                    )) matches Some(t) ==> g.t <= t && (j < g.index ==> g.t < t)) by {
                        if j < n {
                            assert(next[j] == cs[j]);
                        }
                    }
                },
                None => {},
            }
        },
        None => {
            match r {
                Some(g) => {
                    assert forall|j: int| 0 <= j < next.len() implies ((#[trigger] offer(
                        next[j],
                        t_min,
                        t_max,
                    )) matches Some(t) ==> g.t <= t && (j < g.index ==> g.t < t)) by {
                        if j < n {
                            assert(next[j] == cs[j]);
                            assert(offer(cs[j], t_min, t_max) is None);
                        }
                    }
                },
                None => {
                    assert forall|j: int| 0 <= j < next.len() implies (#[trigger] offer(
                        next[j],
                        t_min,
                        t_max,
                    )) is None by {
                        if j < n {
                            assert(next[j] == cs[j]);
                            assert(offer(cs[j], t_min, t_max) is None);
                        }
                    }
                },
            }
        },
    }
}

/// A query has one answer: two hits that are both the nearest of the same
/// offers are the same hit, and a nearest hit excludes a miss.
pub proof fn lemma_answer_unique(
    cs: Seq<Option<Roots>>,
    t_min: i64,
    t_max: i64,
    a: Option<Hit>,
    b: Option<Hit>,
)
    requires
        answers(cs, t_min, t_max, a),
        answers(cs, t_min, t_max, b),
    ensures
        a == b,
{
    match (a, b) {
        (Some(g), Some(h)) => {
            assert(offer(cs[g.index as int], t_min, t_max) == Some(g.t));
            assert(offer(cs[h.index as int], t_min, t_max) == Some(h.t));
        },
        (Some(g), None) => {
            assert(offer(cs[g.index as int], t_min, t_max) == Some(g.t));
        },
        (None, Some(h)) => {
            assert(offer(cs[h.index as int], t_min, t_max) == Some(h.t));
        },
        (None, None) => {},
    }
}

/// The nearest crossing that the objects offer strictly inside the interval
/// from `t_min` to `t_max`, where `candidates` holds for each object of the
/// scene, in the scene's order, the crossings of the ray with it. Of two
/// objects that offer the same parameter the earlier one is returned.
pub fn nearest_hit(candidates: &Vec<Option<Roots>>, t_min: i64, t_max: i64) -> (r: Option<Hit>)
    ensures
        answers(candidates@, t_min, t_max, r),
        r matches Some(h) ==> t_min < h.t < t_max,
        all_wf(candidates@),
{
    let mut best: Option<Hit> = None;
    let mut i: usize = 0;
    assert(candidates@.take(0) =~= Seq::empty());
    while i < candidates.len()
        invariant
            i <= candidates.len(),
            answers(candidates@.take(i as int), t_min, t_max, best),
            all_wf(candidates@.take(i as int)),
        decreases candidates.len() - i,
    {
        let ghost asked = candidates@.take(i as int);
        let next = closer(best, i, &candidates[i], t_min, t_max);
        proof {
            lemma_scan_step(asked, candidates@[i as int], t_min, t_max, best);
            assert(candidates@.take(i + 1) =~= asked.push(candidates@[i as int]));
        }
        best = next;
        i += 1;
    }
    assert(candidates@.take(i as int) =~= candidates@);
    best
}

/// The objects of a scene, in the order in which they were added. The scene
/// owns them and does not look inside them: a query asks each object for its
/// crossings through the function it is given.
pub struct HittableList<S> {
    objects: Vec<S>,
}

impl<S> View for HittableList<S> {
    type V = Seq<S>;

    closed spec fn view(&self) -> Seq<S> {
        self.objects@
    }
}

impl<S> HittableList<S> {
    /// A scene without objects.
    pub fn new() -> (r: Self)
        ensures
            r@ == Seq::<S>::empty(),
    {
        HittableList { objects: Vec::new() }
    }

    /// Adds `object` behind the objects that the scene holds.
    pub fn add(&mut self, object: S)
        ensures
            final(self)@ == old(self)@.push(object),
    {
        self.objects.push(object);
    }

    /// The number of objects.
    pub fn len(&self) -> (n: usize)
        ensures
            n == self@.len(),
    {
        self.objects.len()
    }

    /// The object at `index`, if the scene holds that many.
    pub fn get(&self, index: usize) -> (r: Option<&S>)
        ensures
            index < self@.len() ==> r == Some(&self@[index as int]),
            index >= self@.len() ==> r is None,
    {
        if index < self.objects.len() {
            Some(&self.objects[index])
        } else {
            None
        }
    }

    /// The nearest crossing of a ray with the objects of the scene, strictly
    /// inside the interval from `t_min` to `t_max`. `crossings` gives the
    /// crossings of the ray with one object; it is asked once for each object,
    /// in the scene's order, and the answer is the nearest of what the objects
    /// offered, the earlier object winning a tie.
    pub fn hit<F: Fn(&S) -> Option<Roots>>(&self, crossings: F, t_min: i64, t_max: i64) -> (r:
        Option<Hit>)
        requires
            forall|j: int| 0 <= j < self@.len() ==> call_requires(crossings, (&#[trigger] self@[j],)),
        ensures
            exists|cs: Seq<Option<Roots>>|
                {
                    &&& cs.len() == self@.len()
                    &&& forall|j: int|
                        0 <= j < cs.len() ==> call_ensures(crossings, (&self@[j],), #[trigger] cs[j])
                    &&& all_wf(cs)
                    &&& answers(cs, t_min, t_max, r)
                },
    {
        let mut best: Option<Hit> = None;
        let mut i: usize = 0;
        let ghost mut cs: Seq<Option<Roots>> = Seq::empty();
        while i < self.objects.len()
            invariant
                i <= self.objects.len(),
                cs.len() == i,
                forall|j: int|
                    0 <= j < self@.len() ==> call_requires(crossings, (&#[trigger] self@[j],)),
                forall|j: int|
                    0 <= j < cs.len() ==> call_ensures(crossings, (&self@[j],), #[trigger] cs[j]),
                all_wf(cs),
                answers(cs, t_min, t_max, best),
            decreases self.objects.len() - i,
        {
            assert(self.objects[i as int] == self@[i as int]);
            let c = crossings(&self.objects[i]);
            let next = closer(best, i, &c, t_min, t_max);
            proof {
                lemma_scan_step(cs, c, t_min, t_max, best);
                cs = cs.push(c);
            }
            best = next;
            i += 1;
        }
        best
    }
}

impl<S> Default for HittableList<S> {
    fn default() -> (r: Self)
        ensures
            r@ == Seq::<S>::empty(),
    {
        HittableList::new()
    }
}

} // verus!
