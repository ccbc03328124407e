//! How a path of light is followed from one surface to the next, and when
//! it ends.

use vstd::prelude::*;
use crate::hittable::Hittable;
use crate::material::{Material, MaterialBounce};
use crate::math::Span;
use crate::ray::Ray;
use crate::scalar::Scalar;
use crate::vec3::Color;

verus! {

/// The deepest level of scattering that a path is followed to.
pub const MAX_DEPTH: u32 = 50;

/// The encoding of 0.001: hits closer than this to a ray's origin are passed
/// over, so that a scattered ray does not hit the surface it leaves.
pub const NEAREST_BITS: u64 = 0x3F50_624D_D2F1_A9FC;

/// The encoding of the largest double: no hit is too far.
pub const FARTHEST_BITS: u64 = 0x7FEF_FFFF_FFFF_FFFF;

/// What became of a ray in the scene.
#[derive(Clone, Copy, Debug)]
pub enum Event {
    /// It hit nothing.
    Miss,
    /// It hit a surface that swallowed it.
    Absorbed,
    /// It hit a surface that sent it on.
    Scattered(MaterialBounce),
}

/// What follows for the path.
#[derive(Clone, Copy, Debug)]
pub enum Step {
    /// The path ends and carries no light.
    Black,
    /// The path ends in the sky and carries the sky's light.
    Sky,
    /// The path goes on along `ray` at `depth`, and what light it finds there
    /// is tinted by `attenuation`.
    Bounce { ray: Ray, attenuation: Color, depth: u32 },
}

/// How a path ended.
#[derive(Clone, Copy, Debug, PartialEq, Eq, Structural)]
pub enum Ending {
    /// Without light: swallowed, or cut off.
    Black,
    /// In the sky.
    Sky,
}

/// A path that was followed to its end, as a value: the tints it picked up,
/// first bounce first, the last ray it went along, and how it ended.
pub struct Trail {
    pub tints: Seq<Color>,
    pub ray: Ray,
    pub ending: Ending,
}

/// A path that was followed to its end. Its light is that of its ending,
/// black or the sky's in the direction of `ray`, tinted by each of `tints`,
/// the last first.
#[derive(Clone, Debug)]
pub struct Path {
    pub tints: Vec<Color>,
    pub ray: Ray,
    pub ending: Ending,
}

impl View for Path {
    type V = Trail;

    open spec fn view(&self) -> Trail {
        Trail { tints: self.tints@, ray: self.ray, ending: self.ending }
    }
}

/// What follows for a path at `depth` whose ray met `event`.
pub open spec fn step(depth: u32, event: Event) -> Step {
    if depth > MAX_DEPTH {
        Step::Black
    } else {
        match event {
            Event::Miss => Step::Sky,
            Event::Absorbed => Step::Black,
            Event::Scattered(bounce) => Step::Bounce {
                ray: bounce.ray,
                attenuation: bounce.attenuation,
                depth: (depth + 1) as u32,
            },
        }
    }
}

/// The path that starts along `ray` at `depth`, where `events` holds what
/// its rays meet, one after the other. A path past the cutoff ends at once,
/// in black, and meets nothing. There is no path where the events run out
/// before it has ended.
pub open spec fn run(depth: u32, ray: Ray, events: Seq<Event>) -> Option<Trail>
    decreases events.len(),
{
    if depth > MAX_DEPTH {
        Some(Trail { tints: Seq::empty(), ray, ending: Ending::Black })
    } else if events.len() == 0 {
        None
    } else {
        match step(depth, events[0]) {
            Step::Black => Some(Trail { tints: Seq::empty(), ray, ending: Ending::Black }),
            Step::Sky => Some(Trail { tints: Seq::empty(), ray, ending: Ending::Sky }),
            Step::Bounce { ray: next, attenuation, depth: deeper } => match run(
                deeper,
                next,
                events.drop_first(),
            ) {
                Some(rest) => Some(
                    Trail {
                        tints: seq![attenuation] + rest.tints,
                        ray: rest.ray,
                        ending: rest.ending,
                    },
                ),
                None => None,
            },
        }
    }
}

/// The range of distances along a ray in which the scene is searched for a
/// hit: from 0.001 up to the largest double.
pub fn visible_range() -> (r: Span)
    ensures
        r.start.bits == NEAREST_BITS,
        r.end.bits == FARTHEST_BITS,
{
    Span::new(Scalar::from_bits(NEAREST_BITS), Scalar::from_bits(FARTHEST_BITS))
}

/// Whether a path at `depth` is past the cutoff: it is black whatever is in
/// the scene, which need not be searched.
pub fn exhausted(depth: u32) -> (r: bool)
    ensures
        r == (depth > MAX_DEPTH),
        r ==> forall|event: Event| step(depth, event) == Step::Black,
{
    depth > MAX_DEPTH
}

/// One level of a path: what follows for a path at `depth` whose ray met
/// `event`. Past the cutoff the path is black, whatever the event.
pub fn advance(depth: u32, event: Event) -> (r: Step)
    ensures
        r == step(depth, event),
        depth > MAX_DEPTH ==> r == Step::Black,
{
    if depth > MAX_DEPTH {
        return Step::Black;
    }
    match event {
        Event::Miss => Step::Sky,
        Event::Absorbed => Step::Black,
        Event::Scattered(bounce) => Step::Bounce {
            ray: bounce.ray(),
            attenuation: bounce.attenuation(),
            depth: depth + 1,
        },
    }
}

/// A path is bounded and, past the cutoff, black: it picks up no more tints
/// than the cutoff leaves room for, from depth 0 at most `MAX_DEPTH + 1`,
/// whatever its rays meet.
pub proof fn lemma_path_bounded(depth: u32, ray: Ray, events: Seq<Event>)
    ensures
        depth > MAX_DEPTH ==> run(depth, ray, events) == Some(
            Trail { tints: Seq::empty(), ray, ending: Ending::Black },
        ),
        depth <= MAX_DEPTH ==> (run(depth, ray, events) matches Some(trail) ==> trail.tints.len()
            <= MAX_DEPTH + 1 - depth),
    decreases events.len(),
{
    if depth <= MAX_DEPTH && events.len() > 0 {
        match step(depth, events[0]) {
            Step::Bounce { ray: next, depth: deeper, .. } => {
                lemma_path_bounded(deeper, next, events.drop_first());
            },
            _ => {},
        }
    }
}

/// A path that has come along `before` to `ray` at `depth`, picking up
/// `tints`, and goes on from there along `after`, is one path along both.
proof fn lemma_run_on(
    start_depth: u32,
    start: Ray,
    before: Seq<Event>,
    tints: Seq<Color>,
    depth: u32,
    ray: Ray,
    after: Seq<Event>,
)
    requires
        leads(start_depth, start, before, tints, depth, ray),
    ensures
        run(start_depth, start, before + after) == match run(depth, ray, after) {
            Some(rest) => Some(
                Trail { tints: tints + rest.tints, ray: rest.ray, ending: rest.ending },
            ),
            None => None,
        },
    decreases before.len(),
{
    if before.len() == 0 {
        assert(before + after == after);
        match run(depth, ray, after) {
            Some(rest) => {
                assert(tints + rest.tints == rest.tints);
            },
            None => {},
        }
    } else {
        assert((before + after)[0] == before[0]);
        assert((before + after).drop_first() == before.drop_first() + after);
        match step(start_depth, before[0]) {
            Step::Bounce { ray: next, attenuation, depth: deeper } => {
                lemma_run_on(deeper, next, before.drop_first(), tints.drop_first(), depth, ray, after);
                match run(depth, ray, after) {
                    Some(rest) => {
                        assert(seq![attenuation] + (tints.drop_first() + rest.tints) == tints
                            + rest.tints);
                    },
                    None => {},
                }
            },
            _ => {},
        }
    }
}

/// Whether a path that starts along `start` at `start_depth` and meets
/// `events` is, after them, still going: along `ray` at `depth`, with
/// `tints` picked up.
spec fn leads(
    start_depth: u32,
    start: Ray,
    events: Seq<Event>,
    tints: Seq<Color>,
    depth: u32,
    ray: Ray,
) -> bool
    decreases events.len(),
{
    if events.len() == 0 {
        tints.len() == 0 && depth == start_depth && ray == start
    } else {
        match step(start_depth, events[0]) {
            Step::Bounce { ray: next, attenuation, depth: deeper } => tints.len() > 0 && tints[0]
                == attenuation && leads(
                deeper,
                next,
                events.drop_first(),
                tints.drop_first(),
                depth,
                ray,
            ),
            _ => false,
        }
    }
}

/// A path that is still going after `events` is still going after one more
/// that sends it on.
proof fn lemma_leads_on(
    start_depth: u32,
    start: Ray,
    events: Seq<Event>,
    tints: Seq<Color>,
    depth: u32,
    ray: Ray,
    event: Event,
)
    requires
        leads(start_depth, start, events, tints, depth, ray),
        step(depth, event) is Bounce,
    ensures
        leads(
            start_depth,
            start,
            events.push(event),
            tints.push(step(depth, event)->attenuation),
            step(depth, event)->depth,
            step(depth, event)->ray,
        ),
    decreases events.len(),
{
    let more = events.push(event);
    let tinted = tints.push(step(depth, event)->attenuation);
    if events.len() == 0 {
        assert(more.drop_first() =~= Seq::<Event>::empty());
        assert(tinted.drop_first() =~= Seq::<Color>::empty());
        assert(leads(
            step(depth, event)->depth,
            step(depth, event)->ray,
            more.drop_first(),
            tinted.drop_first(),
            step(depth, event)->depth,
            step(depth, event)->ray,
        ));
    } else {
        assert(more[0] == events[0]);
        assert(more.drop_first() == events.drop_first().push(event));
        assert(tinted.drop_first() == tints.drop_first().push(step(depth, event)->attenuation));
        match step(start_depth, events[0]) {
            Step::Bounce { ray: next, depth: deeper, .. } => {
                lemma_leads_on(deeper, next, events.drop_first(), tints.drop_first(), depth, ray, event);
            },
            _ => {},
        }
    }
}

/// Follows a path of light through `world`: from `ray`, at `depth`, from hit
/// to hit, until a ray misses everything, a surface swallows it, or the path
/// is past the cutoff. Each ray is sent against the scene; what it hits
/// there, and what the surface hit makes of it, the scene and its materials
/// decide. Whatever they decide, the path that comes back is the one that
/// `run` gives for what the rays met. It holds no more tints than the cutoff
/// leaves room for; and past the cutoff it is black, with no tint, and
/// nothing in the scene was asked.
pub fn ray_color<M: Material, W: Hittable<M>>(ray: Ray, world: &W, depth: u32) -> (r: Path)
    ensures
        exists|events: Seq<Event>| run(depth, ray, events) == Some(r@),
        depth > MAX_DEPTH ==> r@ == (Trail { tints: Seq::empty(), ray, ending: Ending::Black }),
        depth <= MAX_DEPTH ==> r@.tints.len() <= MAX_DEPTH + 1 - depth,
{
    let mut current: Ray = ray;
    let mut level: u32 = depth;
    let mut tints: Vec<Color> = Vec::new();
    let ghost mut events: Seq<Event> = Seq::empty();
    loop
        invariant
            leads(depth, ray, events, tints@, level, current),
        decreases
                (if level <= MAX_DEPTH {
                    MAX_DEPTH + 1 - level
                } else {
                    0
                }),
    {
        if exhausted(level) {
            proof {
                lemma_run_on(depth, ray, events, tints@, level, current, Seq::empty());
                assert(events + Seq::<Event>::empty() == events);
                assert(tints@ + Seq::<Color>::empty() == tints@);
                lemma_path_bounded(depth, ray, events);
            }
            return Path { tints, ray: current, ending: Ending::Black };
        }
        let event: Event = match world.hit(current, visible_range()) {
            None => Event::Miss,
            Some(rec) => {
                let material = rec.material();
                match material.scatter(current, rec) {
                    Some(bounce) => Event::Scattered(bounce),
                    None => Event::Absorbed,
                }
            },
        };
        match advance(level, event) {
            Step::Bounce { ray: next, attenuation, depth: deeper } => {
                proof {
                    lemma_leads_on(depth, ray, events, tints@, level, current, event);
                    events = events.push(event);
                }
                tints.push(attenuation);
                current = next;
                level = deeper;
            },
            Step::Black => {
                proof {
                    lemma_run_on(depth, ray, events, tints@, level, current, seq![event]);
                    assert(tints@ + Seq::<Color>::empty() == tints@);
                    lemma_path_bounded(depth, ray, events + seq![event]);
                }
                return Path { tints, ray: current, ending: Ending::Black };
            },
            Step::Sky => {
                proof {
                    lemma_run_on(depth, ray, events, tints@, level, current, seq![event]);
                    assert(tints@ + Seq::<Color>::empty() == tints@);
                    lemma_path_bounded(depth, ray, events + seq![event]);
                }
                return Path { tints, ray: current, ending: Ending::Sky };
            },
        }
    }
}

} // verus!
