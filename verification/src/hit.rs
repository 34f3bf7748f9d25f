use vstd::prelude::*;

use crate::param::RayParam;

verus! {

/// The two distances at which a ray meets the surface of a sphere, the
/// smaller-signed one first (`near` is computed with `-sqrt(disc)`, `far`
/// with `+sqrt(disc)`).
#[derive(Clone, Copy, Debug, PartialEq, Eq, Structural)]
pub struct RootPair {
    pub near: RayParam,
    pub far: RayParam,
}

/// Which of the two roots of a [`RootPair`] was taken.
#[derive(Clone, Copy, Debug, PartialEq, Eq, Structural)]
pub enum Root {
    Near,
    Far,
}

/// The hit that a scan of the objects settled on: the object's index, the
/// root taken, and its distance.
#[derive(Clone, Copy, Debug, PartialEq, Eq, Structural)]
pub struct Hit {
    pub object: usize,
    pub root: Root,
    pub t: RayParam,
}

impl RootPair {
    /// The distance of the given root.
    pub open spec fn param(self, root: Root) -> RayParam {
        match root {
            Root::Near => self.near,
            Root::Far => self.far,
        }
    }

    /// The distance of the given root.
    pub fn param_of(&self, root: Root) -> (t: RayParam)
        ensures
            t == self.param(root),
    {
        match root {
            Root::Near => self.near,
            Root::Far => self.far,
        }
    }
}

/// The root a sphere reports for the interval `[t_min, t_max]`: the near
/// one if it lies inside, else the far one if that lies inside, else none.
pub open spec fn root_in(pair: RootPair, t_min: RayParam, t_max: RayParam) -> Option<Root> {
    if pair.near.within(t_min, t_max) {
        Some(Root::Near)
    } else if pair.far.within(t_min, t_max) {
        Some(Root::Far)
    } else {
        None
    }
}

/// Picks the root of a sphere that a ray meets inside `[t_min, t_max]`,
/// trying the near root first.
pub fn select_root(pair: &RootPair, t_min: RayParam, t_max: RayParam) -> (r: Option<Root>)
    ensures
        r == root_in(*pair, t_min, t_max),
{
    if pair.near.is_within(&t_min, &t_max) {
        Some(Root::Near)
    } else if pair.far.is_within(&t_min, &t_max) {
        Some(Root::Far)
    } else {
        None
    }
}

/// The upper end of the interval after a scan has settled on `best`: the
/// distance of the hit found so far, or `t_max` while there is none.
pub open spec fn bound_after(best: Option<Hit>, t_max: RayParam) -> RayParam {
    match best {
        Some(h) => h.t,
        None => t_max,
    }
}

/// The hit that a scan of `cands` in order settles on. Each object is asked
/// for a root in `[t_min, bound]`, where `bound` is the distance of the
/// hit found so far (at first `t_max`); an object that reports one becomes
/// the hit found so far. `None` in `cands` is an object the ray misses.
pub open spec fn closest_among(cands: Seq<Option<RootPair>>, t_min: RayParam, t_max: RayParam) -> Option<Hit>
    decreases cands.len(),
{
    if cands.len() == 0 {
        None
    } else {
        let prev = closest_among(cands.drop_last(), t_min, t_max);
        match cands.last() {
            Some(pair) => match root_in(pair, t_min, bound_after(prev, t_max)) {
                Some(root) => Some(
                    Hit { object: (cands.len() - 1) as usize, root: root, t: pair.param(root) },
                ),
                None => prev,
            },
            None => prev,
        }
    }
}

/// Scans the objects in order and returns the hit that the scan settles on,
/// narrowing the interval to the distance of each hit it finds.
pub fn closest_hit(cands: &Vec<Option<RootPair>>, t_min: RayParam, t_max: RayParam) -> (r: Option<Hit>)
    ensures
        r == closest_among(cands@, t_min, t_max),
{
    let mut best: Option<Hit> = None;
    let mut closest: RayParam = t_max;
    let mut i: usize = 0;
    while i < cands.len()
        invariant
            i <= cands.len(),
            best == closest_among(cands@.subrange(0, i as int), t_min, t_max),
            closest == bound_after(best, t_max),
        decreases cands.len() - i,
    {
        assert(cands@.subrange(0, i + 1).drop_last() =~= cands@.subrange(0, i as int));
        match &cands[i] {
            Some(pair) => {
                match select_root(pair, t_min, closest) {
                    Some(root) => {
                        let t = pair.param_of(root);
                        best = Some(Hit { object: i, root: root, t: t });
                        closest = t;
                    },
                    None => {},
                }
            },
            None => {},
        }
        i = i + 1;
    }
    assert(cands@.subrange(0, cands@.len() as int) =~= cands@);
    best
}

/// Every root that the scan sees is a plain number (no `Unordered`), and
/// each sphere's far root does not lie before its near one.
pub open spec fn well_ordered(cands: Seq<Option<RootPair>>) -> bool {
    forall|i: int|
        0 <= i < cands.len() && (#[trigger] cands[i]) is Some ==> {
            let p = cands[i].unwrap();
            &&& p.near is Ordered
            &&& p.far is Ordered
            &&& !p.far.precedes(p.near)
        }
}

/// Object `i` of `cands` has its `root` inside `[t_min, t_max]`.
pub open spec fn meets(
    cands: Seq<Option<RootPair>>,
    i: int,
    root: Root,
    t_min: RayParam,
    t_max: RayParam,
) -> bool {
    &&& 0 <= i < cands.len()
    &&& cands[i] is Some
    &&& cands[i].unwrap().param(root).within(t_min, t_max)
}

/// The scan reports the nearest intersection. When every root is a plain
/// number and each sphere's roots come in order: the scan finds nothing
/// exactly when no object has a root inside `[t_min, t_max]`; otherwise the
/// hit it settles on is a root inside the interval that no other such root
/// lies before; where several objects share that nearest distance, the last
/// of them wins; and the far root is taken only when the near one is
/// outside the interval.
pub proof fn lemma_closest_hit_is_nearest(
    cands: Seq<Option<RootPair>>,
    t_min: RayParam,
    t_max: RayParam,
)
    requires
        cands.len() <= usize::MAX,
        well_ordered(cands),
        t_min is Ordered,
        t_max is Ordered,
    ensures
        closest_among(cands, t_min, t_max) is None <==> !(exists|i: int, root: Root|
            meets(cands, i, root, t_min, t_max)),
        closest_among(cands, t_min, t_max) matches Some(h) ==> {
            &&& meets(cands, h.object as int, h.root, t_min, t_max)
            &&& h.t == cands[h.object as int].unwrap().param(h.root)
            &&& forall|i: int, root: Root|
                #[trigger] meets(cands, i, root, t_min, t_max) ==> !cands[i].unwrap().param(
                    root,
                ).precedes(h.t)
            &&& forall|i: int, root: Root|
                #[trigger] meets(cands, i, root, t_min, t_max) && i > h.object
                    ==> h.t.precedes(cands[i].unwrap().param(root))
            &&& h.root == Root::Far ==> !meets(cands, h.object as int, Root::Near, t_min, t_max)
        },
    decreases cands.len(),
{
    if cands.len() == 0 {
        return;
    }
    let n = cands.len() - 1;
    let pre = cands.drop_last();
    assert forall|i: int| 0 <= i < pre.len() && (#[trigger] pre[i]) is Some implies {
        let p = pre[i].unwrap();
        &&& p.near is Ordered
        &&& p.far is Ordered
        &&& !p.far.precedes(p.near)
    } by {
        assert(pre[i] == cands[i]);
    }
    lemma_closest_hit_is_nearest(pre, t_min, t_max);
    assert forall|i: int, root: Root| 0 <= i < n implies meets(pre, i, root, t_min, t_max)
        == meets(cands, i, root, t_min, t_max) by {
        assert(pre[i] == cands[i]);
    }
    let prev = closest_among(pre, t_min, t_max);
    let bound = bound_after(prev, t_max);
    if let Some(h) = prev {
        assert(meets(pre, h.object as int, h.root, t_min, t_max));
        assert(pre[h.object as int] == cands[h.object as int]);
    }
    // the bound is a plain number inside [t_min, t_max] when a hit was found
    assert(bound is Ordered);
    assert(!t_max.precedes(bound));
    // the root, if any, that the last object reports for [t_min, bound]
    let taken = match cands.last() {
        Some(pair) => root_in(pair, t_min, bound),
        None => None,
    };
    assert(cands[n] == cands.last());
    if let Some(root) = taken {
        let h = closest_among(cands, t_min, t_max).unwrap();
        assert(h.object as int == n);
        assert(meets(cands, n, root, t_min, t_max));
        assert forall|i: int, r2: Root|
            #[trigger] meets(cands, i, r2, t_min, t_max) implies !cands[i].unwrap().param(
                r2,
            ).precedes(h.t) by {
            if i < n {
                assert(meets(pre, i, r2, t_min, t_max));
            }
        }
        if root == Root::Far {
            assert(!meets(cands, n, Root::Near, t_min, t_max));
        }
    } else {
        // the last object adds nothing: the scan keeps what it had found
        assert(closest_among(cands, t_min, t_max) == prev);
        assert(!meets(cands, n, Root::Near, t_min, bound));
        assert(!meets(cands, n, Root::Far, t_min, bound));
        match prev {
            Some(h) => {
                assert forall|i: int, r2: Root|
                    #[trigger] meets(cands, i, r2, t_min, t_max) implies !cands[i].unwrap().param(
                        r2,
                    ).precedes(h.t) by {
                    if i < n {
                        assert(meets(pre, i, r2, t_min, t_max));
                    }
                }
                assert forall|i: int, r2: Root|
                    #[trigger] meets(cands, i, r2, t_min, t_max) && i > h.object implies h.t.precedes(
                        cands[i].unwrap().param(r2),
                    ) by {
                    if i < n {
                        assert(meets(pre, i, r2, t_min, t_max));
                    }
                }
            },
            None => {
                assert forall|i: int, r2: Root| !meets(cands, i, r2, t_min, t_max) by {
                    if 0 <= i < n {
                        assert(!meets(pre, i, r2, t_min, t_max));
                    }
                }
            },
        }
    }
}

/// Narrowing the interval from above keeps a sphere's hit while the new end
/// is not before it, and loses it once the new end lies before it. This
/// holds when both roots are plain numbers and the far one is not before
/// the near one; with a NaN far root it does not (a NaN passes every
/// interval).
pub proof fn lemma_select_root_under_narrowing(
    pair: RootPair,
    t_min: RayParam,
    t_max: RayParam,
    t2: RayParam,
)
    requires
        pair.near is Ordered,
        pair.far is Ordered,
        !pair.far.precedes(pair.near),
        t_min is Ordered,
        t_max is Ordered,
        t2 is Ordered,
    ensures
        root_in(pair, t_min, t_max) matches Some(root) ==> {
            &&& (!t2.precedes(pair.param(root)) && !t_max.precedes(t2)) ==> root_in(pair, t_min, t2)
                == Some(root)
            &&& t2.precedes(pair.param(root)) ==> root_in(pair, t_min, t2) is None
        },
{
}

/// A sphere reports the near root exactly when it lies in the interval,
/// the far root exactly when only that one does, and nothing when neither
/// does; when its roots are plain numbers in order, the root it reports
/// lies in the interval and no root of it in the interval lies before it.
pub proof fn lemma_select_root_takes_nearest(pair: RootPair, t_min: RayParam, t_max: RayParam)
    requires
        pair.near is Ordered,
        pair.far is Ordered,
        !pair.far.precedes(pair.near),
    ensures
        (root_in(pair, t_min, t_max) == Some(Root::Near)) <==> pair.near.within(t_min, t_max),
        (root_in(pair, t_min, t_max) == Some(Root::Far)) <==> (!pair.near.within(t_min, t_max)
            && pair.far.within(t_min, t_max)),
        (root_in(pair, t_min, t_max) is None) <==> (!pair.near.within(t_min, t_max)
            && !pair.far.within(t_min, t_max)),
        root_in(pair, t_min, t_max) matches Some(r) ==> {
            &&& pair.param(r).within(t_min, t_max)
            &&& !pair.near.within(t_min, t_max) || !pair.near.precedes(pair.param(r))
        },
{
}

} // verus!
