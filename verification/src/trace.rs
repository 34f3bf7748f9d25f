use vstd::prelude::*;

verus! {

/// What happened to a ray at one step of a traced path.
#[derive(Clone, Copy, Debug, PartialEq, Eq, Structural)]
pub enum Bounce {
    /// The ray hit nothing and reached the sky.
    Miss,
    /// The ray hit a surface that absorbed it.
    Absorbed,
    /// The ray hit a surface and was scattered on.
    Scattered,
}

/// Where a traced path stands.
#[derive(Clone, Copy, Debug, PartialEq, Eq, Structural)]
pub enum PathState {
    /// A ray is still to be cast; the number is how many casts are left,
    /// this one included.
    Tracing(usize),
    /// The path reached the sky: it has a colour.
    Sky,
    /// The path was absorbed or ran out of casts: it has no colour.
    Dark,
}

/// The state of a path that may cast `depth` rays: none at all when `depth`
/// is zero.
pub open spec fn spec_start(depth: usize) -> PathState {
    if depth == 0 {
        PathState::Dark
    } else {
        PathState::Tracing(depth)
    }
}

/// The state after a cast with `remaining` casts left ended in `event`: a
/// miss reaches the sky, an absorption ends the path in the dark, and a
/// scattering goes on with one cast fewer.
pub open spec fn spec_advance(remaining: usize, event: Bounce) -> PathState {
    match event {
        Bounce::Miss => PathState::Sky,
        Bounce::Absorbed => PathState::Dark,
        Bounce::Scattered => spec_start((remaining - 1) as usize),
    }
}

/// Begins a path that may cast `depth` rays.
pub fn start(depth: usize) -> (s: PathState)
    ensures
        s == spec_start(depth),
{
    if depth == 0 {
        PathState::Dark
    } else {
        PathState::Tracing(depth)
    }
}

/// Moves a path on after a cast, with `remaining` casts left before it,
/// ended in `event`.
pub fn advance(remaining: usize, event: Bounce) -> (s: PathState)
    requires
        remaining > 0,
    ensures
        s == spec_advance(remaining, event),
{
    match event {
        Bounce::Miss => PathState::Sky,
        Bounce::Absorbed => PathState::Dark,
        Bounce::Scattered => start(remaining - 1),
    }
}

/// The state a path reaches from `state` when its casts end in `events`, in
/// order, for as long as it is still tracing.
pub open spec fn run(state: PathState, events: Seq<Bounce>) -> PathState
    decreases events.len(),
{
    match state {
        PathState::Tracing(r) => if events.len() == 0 {
            state
        } else {
            run(spec_advance(r, events[0]), events.drop_first())
        },
        _ => state,
    }
}

/// Cast `k` of `events` misses, and every cast before it was scattered.
pub open spec fn sky_at(events: Seq<Bounce>, k: int) -> bool {
    &&& 0 <= k < events.len()
    &&& events[k] == Bounce::Miss
    &&& forall|j: int| 0 <= j < k ==> #[trigger] events[j] == Bounce::Scattered
}

/// Among the first `depth` casts, one misses and every cast before it was
/// scattered.
pub open spec fn reaches_sky(depth: nat, events: Seq<Bounce>) -> bool {
    exists|k: int| k < depth && #[trigger] sky_at(events, k)
}

/// A path begun with `depth` casts reaches the sky exactly when one of its
/// first `depth` casts misses after scatterings only; so it has a colour
/// only if it scattered fewer than `depth` times, and none at all when
/// `depth` is zero. Given `depth` events it has ended, one way or the other.
pub proof fn lemma_path_outcome(depth: usize, events: Seq<Bounce>)
    ensures
        (run(spec_start(depth), events) == PathState::Sky) <==> reaches_sky(depth as nat, events),
        events.len() >= depth ==> !(run(spec_start(depth), events) is Tracing),
    decreases depth,
{
    if depth == 0 {
        return;
    }
    if events.len() == 0 {
        return;
    }
    let rest = events.drop_first();
    let next = spec_advance(depth, events[0]);
    assert(run(spec_start(depth), events) == run(next, rest));
    match events[0] {
        Bounce::Miss => {
            assert(run(next, rest) == PathState::Sky);
            assert(sky_at(events, 0));
        },
        Bounce::Absorbed => {
            assert(run(next, rest) == PathState::Dark);
            assert forall|k: int| k < depth implies !#[trigger] sky_at(events, k) by {
                if sky_at(events, k) && k > 0 {
                    assert(events[0] == Bounce::Scattered);
                }
            }
        },
        Bounce::Scattered => {
            let d = (depth - 1) as usize;
            assert(next == spec_start(d));
            lemma_path_outcome(d, rest);
            assert forall|k: int| #[trigger] sky_at(events, k + 1) <==> sky_at(rest, k) by {
                if sky_at(rest, k) {
                    assert forall|j: int| 0 <= j < k + 1 implies #[trigger] events[j]
                        == Bounce::Scattered by {
                        if j > 0 {
                            assert(events[j] == rest[j - 1]);
                        }
                    }
                }
                if sky_at(events, k + 1) {
                    assert forall|j: int| 0 <= j < k implies #[trigger] rest[j]
                        == Bounce::Scattered by {
                        assert(rest[j] == events[j + 1]);
                    }
                }
            }
            if reaches_sky(depth as nat, events) {
                let k = choose|k: int| k < depth && #[trigger] sky_at(events, k);
                assert(k != 0);
                assert(sky_at(events, (k - 1) + 1));
                assert(sky_at(rest, k - 1));
            }
            if reaches_sky(d as nat, rest) {
                let k = choose|k: int| k < d && #[trigger] sky_at(rest, k);
                assert(sky_at(events, k + 1));
            }
        },
    }
}

} // verus!
