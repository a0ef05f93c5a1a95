//! How far a path is followed, and how it ends.

use vstd::prelude::*;

verus! {

/// What a ray met on one leg of its path.
#[derive(Clone, Copy, Debug, PartialEq, Eq, Structural)]
pub enum Encounter {
    /// No object of the scene: the ray leaves into the sky.
    Miss,
    /// A surface that swallowed the ray.
    Absorbed,
    /// A surface that sent the ray on.
    Scattered,
}

/// How a path ended.
#[derive(Clone, Copy, Debug, PartialEq, Eq, Structural)]
pub enum Ending {
    /// The ray left the scene: the path carries the sky's colour, dimmed by
    /// every surface it was scattered by.
    Sky,
    /// A surface swallowed the ray: the path is black.
    Absorbed,
    /// The path was scattered as often as its depth allows: it is black.
    Exhausted,
}

impl Ending {
    /// Whether a path with this ending carries no light.
    pub open spec fn spec_is_black(self) -> bool {
        self != Ending::Sky
    }

    /// Whether a path with this ending carries no light.
    pub fn is_black(self) -> (r: bool)
        ensures
            r == self.spec_is_black(),
    {
        match self {
            Ending::Sky => false,
            _ => true,
        }
    }
}

/// The state of one path between two legs.
#[derive(Clone, Copy, Debug, PartialEq, Eq, Structural)]
pub enum Path {
    /// The path goes on, and may be scattered `left` more times.
    Tracing { left: usize },
    /// The path is over.
    Ended(Ending),
}

impl Path {
    /// The state of a path of `depth` legs before its first leg. With no leg
    /// to follow it is over at once.
    pub open spec fn spec_begin(depth: usize) -> Path {
        if depth == 0 {
            Path::Ended(Ending::Exhausted)
        } else {
            Path::Tracing { left: depth }
        }
    }

    /// The state after one more leg on which the ray met `met`. A path that
    /// is over stays as it is. A miss ends the path in the sky and an
    /// absorbing surface ends it there; a scattering surface uses up one of
    /// the legs that are left, and the last of them ends the path.
    pub open spec fn spec_advance(self, met: Encounter) -> Path {
        match self {
            Path::Ended(_) => self,
            Path::Tracing { left } => match met {
                Encounter::Miss => Path::Ended(Ending::Sky),
                Encounter::Absorbed => Path::Ended(Ending::Absorbed),
                Encounter::Scattered => if left > 1 {
                    Path::Tracing { left: (left - 1) as usize }
                } else {
                    Path::Ended(Ending::Exhausted)
                },
            },
        }
    }

    /// Whether the path goes on.
    pub open spec fn spec_is_tracing(self) -> bool {
        self is Tracing
    }

    /// Starts a path that may be scattered `depth` times.
    pub fn begin(depth: usize) -> (r: Path)
        ensures
            r == Path::spec_begin(depth),
    {
        if depth == 0 {
            Path::Ended(Ending::Exhausted)
        } else {
            Path::Tracing { left: depth }
        }
    }

    /// Takes the path over one more leg, on which the ray met `met`.
    pub fn advance(self, met: Encounter) -> (r: Path)
        ensures
            r == self.spec_advance(met),
    {
        match self {
            Path::Ended(_) => self,
            Path::Tracing { left } => match met {
                Encounter::Miss => Path::Ended(Ending::Sky),
                Encounter::Absorbed => Path::Ended(Ending::Absorbed),
                Encounter::Scattered => {
                    if left > 1 {
                        Path::Tracing { left: left - 1 }
                    } else {
                        Path::Ended(Ending::Exhausted)
                    }
                },
            },
        }
    }

    /// Whether the path goes on.
    pub fn is_tracing(&self) -> (r: bool)
        ensures
            r == self.spec_is_tracing(),
    {
        match self {
            Path::Tracing { .. } => true,
            Path::Ended(_) => false,
        }
    }

    /// How the path ended, if it is over.
    pub fn ending(&self) -> (r: Option<Ending>)
        ensures
            r == match *self {
                Path::Tracing { .. } => None::<Ending>,
                Path::Ended(e) => Some(e),
            },
    {
        match self {
            Path::Tracing { .. } => None,
            Path::Ended(e) => Some(*e),
        }
    }
}

/// The state of a path of `depth` legs after the encounters `met`, in their
/// order.
pub open spec fn run(depth: usize, met: Seq<Encounter>) -> Path
    decreases met.len(),
{
    if met.len() == 0 {
        Path::spec_begin(depth)
    } else {
        run(depth, met.drop_last()).spec_advance(met.last())
    }
}

/// The first `k` encounters of `met` were all with scattering surfaces.
pub open spec fn scattered_through(met: Seq<Encounter>, k: int) -> bool {
    forall|j: int| 0 <= j < k ==> #[trigger] met[j] == Encounter::Scattered
}

/// Where a run stands, said without stepping through it. It goes on while
/// every encounter scattered and fewer than `depth` were made. Otherwise the
/// first encounter that did not scatter decides, if it came among the first
/// `depth`: a miss ends the path in the sky, an absorbing surface in black.
/// And `depth` scatterings in a row exhaust the path.
pub proof fn lemma_run(depth: usize, met: Seq<Encounter>)
    ensures
        match run(depth, met) {
            Path::Tracing { left } => {
                &&& met.len() < depth
                &&& left == depth - met.len()
                &&& scattered_through(met, met.len() as int)
            },
            Path::Ended(Ending::Sky) => exists|k: int|
                0 <= k < met.len() && k < depth && #[trigger] met[k] == Encounter::Miss
                    && scattered_through(met, k),
            Path::Ended(Ending::Absorbed) => exists|k: int|
                0 <= k < met.len() && k < depth && #[trigger] met[k] == Encounter::Absorbed
                    && scattered_through(met, k),
            Path::Ended(Ending::Exhausted) => {
                &&& depth <= met.len()
                &&& scattered_through(met, depth as int)
            },
        },
    decreases met.len(),
{
    if met.len() > 0 {
        let before = met.drop_last();
        let n = before.len() as int;
        lemma_run(depth, before);
        assert forall|j: int| 0 <= j < n implies #[trigger] before[j] == met[j] by {}
        match run(depth, before) {
            Path::Tracing { left } => {
                assert(scattered_through(met, n)) by {
                    assert forall|j: int| 0 <= j < n implies #[trigger] met[j] == Encounter::Scattered by {
                        assert(before[j] == met[j]);
                    }
                }
                assert(met[n] == met.last());
                if met.last() == Encounter::Scattered {
                    assert(scattered_through(met, n + 1));
                }
            },
            Path::Ended(Ending::Sky) => {
                let k = choose|k: int|
                    0 <= k < before.len() && k < depth && #[trigger] before[k] == Encounter::Miss
                        && scattered_through(before, k);
                assert(met[k] == Encounter::Miss);
                assert(scattered_through(met, k)) by {
                    assert forall|j: int| 0 <= j < k implies #[trigger] met[j] == Encounter::Scattered by {
                        assert(before[j] == met[j]);
                    }
                }
            },
            Path::Ended(Ending::Absorbed) => {
                let k = choose|k: int|
                    0 <= k < before.len() && k < depth && #[trigger] before[k] == Encounter::Absorbed
                        && scattered_through(before, k);
                assert(met[k] == Encounter::Absorbed);
                assert(scattered_through(met, k)) by {
                    assert forall|j: int| 0 <= j < k implies #[trigger] met[j] == Encounter::Scattered by {
                        assert(before[j] == met[j]);
                    }
                }
            },
            Path::Ended(Ending::Exhausted) => {
                assert(scattered_through(met, depth as int)) by {
                    assert forall|j: int| 0 <= j < depth implies #[trigger] met[j] == Encounter::Scattered by {
                        assert(before[j] == met[j]);
                    }
                }
            },
        }
    }
}

/// No path outlives its depth: after `depth` encounters or more it is over.
pub proof fn lemma_run_bounded(depth: usize, met: Seq<Encounter>)
    requires
        met.len() >= depth,
    ensures
        !run(depth, met).spec_is_tracing(),
{
    lemma_run(depth, met);
}

/// A path that was scattered on each of its `depth` legs is black, whatever
/// it would have met next; a path of depth 0 is black from the start.
pub proof fn lemma_run_exhausted(depth: usize, met: Seq<Encounter>)
    requires
        met.len() >= depth,
        scattered_through(met, depth as int),
    ensures
        run(depth, met) == Path::Ended(Ending::Exhausted),
        Ending::Exhausted.spec_is_black(),
{
    lemma_run(depth, met);
    match run(depth, met) {
        Path::Ended(Ending::Sky) => {
            let k = choose|k: int|
                0 <= k < met.len() && k < depth && #[trigger] met[k] == Encounter::Miss
                    && scattered_through(met, k);
            assert(met[k] == Encounter::Scattered);
        },
        Path::Ended(Ending::Absorbed) => {
            let k = choose|k: int|
                0 <= k < met.len() && k < depth && #[trigger] met[k] == Encounter::Absorbed
                    && scattered_through(met, k);
            assert(met[k] == Encounter::Scattered);
        },
        _ => {},
    }
}

/// A path whose first encounter that did not scatter was with an absorbing
/// surface, on one of its first `depth` legs, is black.
pub proof fn lemma_run_absorbed(depth: usize, met: Seq<Encounter>, k: int)
    requires
        0 <= k < met.len(),
        k < depth,
        met[k] == Encounter::Absorbed,
        scattered_through(met, k),
    ensures
        run(depth, met) == Path::Ended(Ending::Absorbed),
        Ending::Absorbed.spec_is_black(),
{
    lemma_run(depth, met);
    match run(depth, met) {
        Path::Tracing { left } => {
            assert(met[k] == Encounter::Scattered);
        },
        Path::Ended(Ending::Sky) => {
            let a = choose|a: int|
                0 <= a < met.len() && a < depth && #[trigger] met[a] == Encounter::Miss
                    && scattered_through(met, a);
            if a < k {
                assert(met[a] == Encounter::Scattered);
            } else if k < a {
                assert(met[k] == Encounter::Scattered);
            }
        },
        Path::Ended(Ending::Absorbed) => {},
        Path::Ended(Ending::Exhausted) => {
            assert(met[k] == Encounter::Scattered);
        },
    }
}

/// A path carries light only if the ray left the scene within its depth:
/// a path that ended in the sky met the sky on one of its first `depth` legs,
/// after scattering surfaces only.
pub proof fn lemma_run_sky(depth: usize, met: Seq<Encounter>, k: int)
    requires
        0 <= k < met.len(),
        k < depth,
        met[k] == Encounter::Miss,
        scattered_through(met, k),
    ensures
        run(depth, met) == Path::Ended(Ending::Sky),
        !Ending::Sky.spec_is_black(),
{
    lemma_run(depth, met);
    match run(depth, met) {
        Path::Tracing { left } => {
            assert(met[k] == Encounter::Scattered);
        },
        Path::Ended(Ending::Sky) => {},
        Path::Ended(Ending::Absorbed) => {
            let a = choose|a: int|
                0 <= a < met.len() && a < depth && #[trigger] met[a] == Encounter::Absorbed
                    && scattered_through(met, a);
            if a < k {
                assert(met[a] == Encounter::Scattered);
            } else if k < a {
                assert(met[k] == Encounter::Scattered);
            }
        },
        Path::Ended(Ending::Exhausted) => {
            assert(met[k] == Encounter::Scattered);
        },
    }
}

/// What following a ray over one leg brought.
pub enum Leg<R, C> {
    /// The ray left the scene. The colour is the light that the path then
    /// carries: the sky's, dimmed by the surfaces met before.
    Miss(C),
    /// A surface swallowed the ray.
    Absorbed,
    /// A surface sent the ray on: the ray of the next leg, and the colour
    /// dimmed by this surface too.
    Scattered(R, C),
}

impl<R, C> Leg<R, C> {
    /// The encounter that the leg ended with.
    pub open spec fn encounter(self) -> Encounter {
        match self {
            Leg::Miss(_) => Encounter::Miss,
            Leg::Absorbed => Encounter::Absorbed,
            Leg::Scattered(_, _) => Encounter::Scattered,
        }
    }
}

/// The encounters of the legs of a path, in their order.
pub open spec fn encounters<R, C>(legs: Seq<Leg<R, C>>) -> Seq<Encounter> {
    Seq::new(legs.len(), |i: int| legs[i].encounter())
}

/// The ray that leg `i` of a path follows: the ray that the path began with,
/// or the one that the leg before sent on.
pub open spec fn ray_of_leg<R, C>(first: R, legs: Seq<Leg<R, C>>, i: int) -> R {
    if i > 0 && legs[i - 1] is Scattered {
        legs[i - 1]->Scattered_0
    } else {
        first
    }
}

/// The colour that a path carries into leg `i`: undimmed at first, then as
/// the leg before left it.
pub open spec fn colour_into_leg<R, C>(undimmed: C, legs: Seq<Leg<R, C>>, i: int) -> C {
    if i > 0 && legs[i - 1] is Scattered {
        legs[i - 1]->Scattered_1
    } else {
        undimmed
    }
}

/// `legs` is a path that `follow` can have produced from `first`: each leg is
/// an answer of `follow` to the ray and colour that the leg before handed on,
/// and every leg but the last was scattered.
pub open spec fn is_path_of<R, C, F: Fn(&R, &C) -> Leg<R, C>>(
    follow: F,
    first: R,
    undimmed: C,
    legs: Seq<Leg<R, C>>,
) -> bool {
    forall|i: int|
        0 <= i < legs.len() ==> {
            &&& call_ensures(
                follow,
                (&ray_of_leg(first, legs, i), &colour_into_leg(undimmed, legs, i)),
                #[trigger] legs[i],
            )
            &&& i + 1 < legs.len() ==> legs[i] is Scattered
        }
}

/// The colour of a finished path: what its last leg found in the sky, and
/// black where it did not end there.
pub open spec fn colour_of<R, C>(legs: Seq<Leg<R, C>>, black: C) -> C {
    if legs.len() > 0 && legs.last() is Miss {
        legs.last()->Miss_0
    } else {
        black
    }
}

/// The colour that a ray brings back from the scene. The ray is followed leg
/// by leg through `follow`, which finds what the ray meets and dims the
/// colour, until it leaves the scene, is swallowed, or has been scattered
/// `depth` times. Only a path that ends in the sky brings back light; every
/// other path, and every path of depth 0, is `black`.
pub fn ray_color<R, C, F: Fn(&R, &C) -> Leg<R, C>>(
    ray: R,
    depth: usize,
    undimmed: C,
    black: C,
    follow: F,
) -> (colour: C)
    requires
        forall|r: R, c: C| call_requires(follow, (&r, &c)),
    ensures
        exists|legs: Seq<Leg<R, C>>|
            {
                &&& legs.len() <= depth
                &&& is_path_of(follow, ray, undimmed, legs)
                &&& !run(depth, encounters(legs)).spec_is_tracing()
                &&& colour == colour_of(legs, black)
            },
        depth == 0 ==> colour == black,
{
    let mut path = Path::begin(depth);
    let mut current = ray;
    let mut carried = undimmed;
    let mut found: Option<C> = None;
    let ghost mut legs: Seq<Leg<R, C>> = Seq::empty();
    assert(encounters(legs) =~= Seq::<Encounter>::empty());
    while path.is_tracing()
        invariant
            forall|r: R, c: C| call_requires(follow, (&r, &c)),
            legs.len() <= depth,
            is_path_of(follow, ray, undimmed, legs),
            path == run(depth, encounters(legs)),
            path matches Path::Tracing { left } ==> {
                &&& left == depth - legs.len()
                &&& current == ray_of_leg(ray, legs, legs.len() as int)
                &&& carried == colour_into_leg(undimmed, legs, legs.len() as int)
                &&& legs.len() > 0 ==> legs.last() is Scattered
                &&& found is None
            },
            path is Ended ==> match found {
                Some(c) => legs.len() > 0 && legs.last() == Leg::<R, C>::Miss(c),
                None => legs.len() > 0 ==> !(legs.last() is Miss),
            },
        decreases
            match path {
                Path::Tracing { left } => left,
                Path::Ended(_) => 0,
            },
    {
        let ghost before = legs;
        let leg = follow(&current, &carried);
        proof {
            legs = before.push(leg);
            lemma_run(depth, encounters(before));
            assert(encounters(legs).drop_last() =~= encounters(before));
            assert(encounters(legs).last() == leg.encounter());
            assert forall|i: int| 0 <= i < before.len() implies #[trigger] legs[i] == before[i] by {}
        }
        match leg {
            Leg::Miss(c) => {
                found = Some(c);
                path = path.advance(Encounter::Miss);
            },
            Leg::Absorbed => {
                path = path.advance(Encounter::Absorbed);
            },
            Leg::Scattered(r, c) => {
                current = r;
                carried = c;
                path = path.advance(Encounter::Scattered);
            },
        }
    }
    let colour = match found {
        Some(c) => c,
        None => black,
    };
    assert(colour == colour_of(legs, black));
    colour
}

} // verus!
