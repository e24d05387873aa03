//! Curve sampling: how many samples each segment shows, where they lie, and
//! which one is nearest the pointer.
use vstd::prelude::*;
use crate::bezier::{BezPoint, interpolate, spec_interpolate};
use crate::ease::{Easing, eased};
use crate::geom::{MILLI, Pos, dist_sq, distance_sq, isqrt, sqrt_floor};
use crate::path::{CurveHit, Path};
use crate::point::{Viewport, spec_within_hit, within_hit};

verus! {

/// Samples in the segment from `a` to `b`: one per field unit of the straight
/// distance between their positions, rounded down.
pub open spec fn spec_steps(a: BezPoint, b: BezPoint) -> int {
    sqrt_floor(dist_sq(a.pos.spec_pos(), b.pos.spec_pos())) / (MILLI as int)
}

/// `e` pointed at `to` at `now`: a new target restarts it from the value it
/// shows then.
pub open spec fn retargeted(e: Easing, now: u64, to: u32) -> Easing {
    if e.to == to {
        e
    } else {
        Easing { start_ms: now, from: eased(e, now) as u32, to, duration_ms: e.duration_ms }
    }
}

/// How many samples the segment ending at `b` shows at `now` when it has
/// `steps`: all of them once it has drawn in, else the eased count.
pub open spec fn shown(b: BezPoint, steps: int, now: u64) -> int {
    if b.animated {
        steps
    } else {
        eased(retargeted(b.ease, now, steps as u32), now)
    }
}

/// The end anchor of a segment with `steps` samples after the tick at `now`:
/// its animation follows the target, and it is pinned as drawn in once the
/// shown count reaches the target.
pub open spec fn settle(b: BezPoint, steps: int, now: u64) -> BezPoint {
    if b.animated {
        b
    } else {
        let e = retargeted(b.ease, now, steps as u32);
        BezPoint { ease: e, animated: eased(e, now) >= steps, ..b }
    }
}

/// Whether `c` names a sample shown on the curve of `s` when segment `i`
/// shows `counts[i]` samples: `0 < k < min(counts[i], steps)` of `n = steps`.
pub open spec fn is_sample(s: Seq<BezPoint>, counts: Seq<u32>, c: CurveHit) -> bool {
    &&& c.segment + 1 < s.len()
    &&& c.segment < counts.len()
    &&& c.n == spec_steps(s[c.segment as int], s[c.segment + 1])
    &&& 0 < c.k
    &&& c.k < counts[c.segment as int]
    &&& c.k < c.n
}

/// Where sample `c` lies.
pub open spec fn sample_pos(s: Seq<BezPoint>, c: CurveHit) -> Pos {
    spec_interpolate(s[c.segment as int], s[c.segment + 1], c.k as int, c.n as int)
}

/// Whether sample `c2` comes before `c` in path order.
pub open spec fn sample_before(c2: CurveHit, c: CurveHit) -> bool {
    c2.segment < c.segment || (c2.segment == c.segment && c2.k < c.k)
}

/// Whether `c` is the sample nearest `at`, the first such in path order.
pub open spec fn is_closest(s: Seq<BezPoint>, counts: Seq<u32>, at: Pos, c: CurveHit) -> bool {
    &&& is_sample(s, counts, c)
    &&& forall|c2: CurveHit| #[trigger]
        is_sample(s, counts, c2) ==> dist_sq(sample_pos(s, c), at) <= dist_sq(sample_pos(s, c2), at)
            && (sample_before(c2, c) ==> dist_sq(sample_pos(s, c), at) < dist_sq(
            sample_pos(s, c2),
            at,
        ))
}

/// Whether sample `c2` lies before the scan position `(seg, k)`.
pub open spec fn visited(c2: CurveHit, seg: int, k: int) -> bool {
    c2.segment < seg || (c2.segment == seg && c2.k < k)
}

/// `best` is the nearest of the samples before the scan position `(seg, k)`,
/// the first such in path order; `None` when there are none.
pub open spec fn best_so_far(
    s: Seq<BezPoint>,
    counts: Seq<u32>,
    at: Pos,
    best: Option<CurveHit>,
    seg: int,
    k: int,
) -> bool {
    match best {
        Some(c) => {
            &&& is_sample(s, counts, c)
            &&& visited(c, seg, k)
            &&& forall|c2: CurveHit| #[trigger]
                is_sample(s, counts, c2) && visited(c2, seg, k) ==> dist_sq(sample_pos(s, c), at)
                    <= dist_sq(sample_pos(s, c2), at) && (sample_before(c2, c) ==> dist_sq(
                    sample_pos(s, c),
                    at,
                ) < dist_sq(sample_pos(s, c2), at))
        },
        None => forall|c2: CurveHit| #[trigger]
            is_sample(s, counts, c2) ==> !visited(c2, seg, k),
    }
}

/// A distance inside the hit radius stays inside when it shrinks.
proof fn lemma_within_hit_shrinks(d1: int, d2: int, view: Viewport)
    requires
        0 <= d1 <= d2,
        spec_within_hit(d2, view),
    ensures
        spec_within_hit(d1, view),
{
    assert(d1 * view.scale * view.scale <= d2 * view.scale * view.scale) by (nonlinear_arith)
        requires
            0 <= d1 <= d2,
    ;
}

/// Number of samples of the segment from `a` to `b`.
pub fn steps(a: &BezPoint, b: &BezPoint) -> (r: u32)
    requires
        a.wf(),
        b.wf(),
    ensures
        r == spec_steps(*a, *b),
{
    let d2 = distance_sq(a.pos.pos(), b.pos.pos());
    let root = isqrt(d2 as u64);
    (root / (MILLI as u64)) as u32
}

impl Path {
    /// Advances the draw-in animations to `now` and returns, for each segment
    /// in order, how many samples it shows. A segment whose count has reached
    /// its target is pinned and from then on shows its full count.
    pub fn sample_counts(&mut self, now: u64) -> (r: Vec<u32>)
        requires
            old(self).wf(),
        ensures
            final(self).wf(),
            final(self).selected == old(self).selected,
            final(self).points@.len() == old(self).points@.len(),
            old(self).points@.len() > 0 ==> final(self).points@[0] == old(self).points@[0],
            forall|i: int|
                0 < i < old(self).points@.len() ==> final(self).points@[i] == settle(
                    old(self).points@[i],
                    spec_steps(old(self).points@[i - 1], old(self).points@[i]),
                    now,
                ),
            r@.len() == if old(self).points@.len() == 0 {
                0
            } else {
                old(self).points@.len() - 1
            },
            forall|i: int|
                0 <= i < r@.len() ==> r@[i] == shown(
                    old(self).points@[i + 1],
                    spec_steps(old(self).points@[i], old(self).points@[i + 1]),
                    now,
                ),
    {
        let mut counts: Vec<u32> = Vec::new();
        let n = self.points.len();
        if n == 0 {
            return counts;
        }
        let mut i: usize = 0;
        while i + 1 < n
            invariant
                n == self.points@.len(),
                n == old(self).points@.len(),
                i < n,
                counts@.len() == i,
                self.selected == old(self).selected,
                self.wf(),
                self.points@[0] == old(self).points@[0],
                forall|j: int|
                    0 < j <= i ==> self.points@[j] == settle(
                        old(self).points@[j],
                        spec_steps(old(self).points@[j - 1], old(self).points@[j]),
                        now,
                    ),
                forall|j: int| i < j < n ==> self.points@[j] == old(self).points@[j],
                forall|j: int| 0 <= j < n ==> (#[trigger] self.points@[j]).pos == old(self).points@[j].pos,
                forall|j: int|
                    0 <= j < i ==> counts@[j] == shown(
                        old(self).points@[j + 1],
                        spec_steps(old(self).points@[j], old(self).points@[j + 1]),
                        now,
                    ),
            decreases n - i,
        {
            let a = self.points[i];
            let mut b = self.points[i + 1];
            assert(a.wf() && b.wf()) by {
                assert(self.points@[i as int].wf());
                assert(self.points@[i + 1].wf());
            }
            let target = steps(&a, &b);
            assert(target == spec_steps(old(self).points@[i as int], old(self).points@[i + 1])) by {
                assert(self.points@[i as int].pos == old(self).points@[i as int].pos);
                assert(self.points@[i + 1].pos == old(self).points@[i + 1].pos);
            }
            let shown_now = if b.animated {
                target
            } else {
                b.ease.retarget(now, target);
                let v = b.ease.value_at(now);
                if v >= target {
                    b.animated = true;
                }
                v
            };
            let ghost before = self.points@;
            self.points.set(i + 1, b);
            counts.push(shown_now);
            proof {
                assert forall|j: int| 0 <= j < self.points@.len() implies (#[trigger] self.points@[j]).wf() by {
                    assert(before[j].wf());
                    if j != i + 1 {
                        assert(self.points@[j] == before[j]);
                    }
                }
                assert forall|j: int, h: crate::bezier::HandleSlot|
                    0 <= j < self.points@.len() implies (#[trigger] self.points@[j].spec_handle(h)).locked == crate::path::holds(self.selected, j, h) by {
                    assert(before[j].spec_handle(h).locked == crate::path::holds(self.selected, j, h));
                    assert(before[j].spec_handle(h) == self.points@[j].spec_handle(h));
                }
            }
            i = i + 1;
        }
        counts
    }

    /// The samples shown on segment `seg` when it shows `count` of them:
    /// sample `k` lies at `t = k / steps` for `0 < k < min(count, steps)`.
    pub fn segment_samples(&self, seg: usize, count: u32) -> (r: Vec<Pos>)
        requires
            self.wf(),
            seg + 1 < self.points@.len(),
        ensures
            ({
                let n = spec_steps(self.points@[seg as int], self.points@[seg + 1]);
                let lim = if count < n {
                    count as int
                } else {
                    n
                };
                &&& r@.len() == if lim > 0 {
                    lim - 1
                } else {
                    0
                }
                &&& forall|j: int|
                    0 <= j < r@.len() ==> r@[j] == spec_interpolate(
                        self.points@[seg as int],
                        self.points@[seg + 1],
                        j + 1,
                        n,
                    )
            }),
    {
        let n_points = self.points.len();
        assert(seg + 1 < n_points);
        let a = self.points[seg];
        let b = self.points[seg + 1];
        assert(a.wf() && b.wf()) by {
            assert(self.points@[seg as int].wf());
            assert(self.points@[seg + 1].wf());
        }
        let n = steps(&a, &b);
        let lim = if count < n {
            count
        } else {
            n
        };
        let mut out: Vec<Pos> = Vec::new();
        let mut k: u32 = 1;
        while k < lim
            invariant
                1 <= k,
                k <= lim || (k == 1 && lim == 0),
                lim <= n,
                lim == count || lim == n,
                lim <= count,
                n == spec_steps(a, b),
                a == self.points@[seg as int],
                b == self.points@[seg + 1],
                a.wf(),
                b.wf(),
                out@.len() == k - 1,
                forall|j: int|
                    0 <= j < out@.len() ==> out@[j] == spec_interpolate(a, b, j + 1, n as int),
            decreases lim - k,
        {
            out.push(interpolate(&a, &b, k, n));
            k = k + 1;
        }
        out
    }

    /// The shown sample nearest `at`, the first such in path order; `None`
    /// when no segment shows a sample.
    pub fn closest_sample(&self, counts: &Vec<u32>, at: Pos) -> (r: Option<CurveHit>)
        requires
            self.wf(),
            at.valid(),
        ensures
            r matches Some(c) ==> is_closest(self.points@, counts@, at, c),
            r is None ==> forall|c: CurveHit| !is_sample(self.points@, counts@, c),
    {
        let n_pts = self.points.len();
        let mut best: Option<CurveHit> = None;
        let mut best_d: u128 = 0;
        let mut seg: usize = 0;
        while seg < counts.len() && seg + 1 < n_pts
            invariant
                n_pts == self.points@.len(),
                self.wf(),
                at.valid(),
                best_so_far(self.points@, counts@, at, best, seg as int, 0),
                best matches Some(c) ==> best_d == dist_sq(sample_pos(self.points@, c), at),
            decreases n_pts - seg,
        {
            let a = self.points[seg];
            let b = self.points[seg + 1];
            assert(a.wf() && b.wf()) by {
                assert(self.points@[seg as int].wf());
                assert(self.points@[seg + 1].wf());
            }
            let n = steps(&a, &b);
            let count = counts[seg];
            let lim = if count < n {
                count
            } else {
                n
            };
            let mut k: u32 = 1;
            while k < lim
                invariant
                    seg + 1 < self.points@.len(),
                    seg < counts@.len(),
                    a == self.points@[seg as int],
                    b == self.points@[seg + 1],
                    a.wf(),
                    b.wf(),
                    at.valid(),
                    n == spec_steps(a, b),
                    count == counts@[seg as int],
                    lim <= count,
                    lim <= n,
                    1 <= k,
                    best_so_far(self.points@, counts@, at, best, seg as int, k as int),
                    best matches Some(c) ==> best_d == dist_sq(sample_pos(self.points@, c), at),
                decreases lim - k,
            {
                let p = interpolate(&a, &b, k, n);
                let d = distance_sq(p, at);
                let here = CurveHit { segment: seg, k, n };
                assert(is_sample(self.points@, counts@, here));
                assert(sample_pos(self.points@, here) == p);
                let take = match best {
                    Some(_) => d < best_d,
                    None => true,
                };
                if take {
                    best = Some(here);
                    best_d = d;
                }
                proof {
                    assert forall|c2: CurveHit| #[trigger]
                        is_sample(self.points@, counts@, c2) && visited(c2, seg as int, k + 1) implies
                        visited(c2, seg as int, k as int) || c2 == here by {
                    }
                }
                k = k + 1;
            }
            proof {
                assert forall|c2: CurveHit| #[trigger]
                    is_sample(self.points@, counts@, c2) && visited(c2, seg + 1, 0) implies visited(
                    c2,
                    seg as int,
                    k as int,
                ) by {
                }
            }
            seg = seg + 1;
        }
        proof {
            assert forall|c2: CurveHit| #[trigger]
                is_sample(self.points@, counts@, c2) implies visited(c2, seg as int, 0) by {
            }
        }
        best
    }

    /// The sample under the pointer in `Insert` mode: the nearest shown
    /// sample, when it lies inside the hit radius. `None` without a pointer,
    /// with one outside the coordinate range, or when no shown sample lies
    /// inside the radius.
    pub fn curve_hit(&self, counts: &Vec<u32>, at: Option<Pos>, view: Viewport) -> (r: Option<
        CurveHit,
    >)
        requires
            self.wf(),
        ensures
            r matches Some(c) ==> at matches Some(p) && p.valid() && is_closest(
                self.points@,
                counts@,
                p,
                c,
            ) && spec_within_hit(dist_sq(sample_pos(self.points@, c), p), view),
            r is None ==> match at {
                Some(p) => p.valid() ==> forall|c: CurveHit| #[trigger]
                    is_sample(self.points@, counts@, c) ==> !spec_within_hit(
                        dist_sq(sample_pos(self.points@, c), p),
                        view,
                    ),
                None => true,
            },
    {
        let p = match at {
            Some(p) => p,
            None => {
                return None;
            },
        };
        if !p.is_valid() {
            return None;
        }
        match self.closest_sample(counts, p) {
            Some(c) => {
                let n_pts = self.points.len();
                assert(c.segment + 1 < n_pts);
                let a = self.points[c.segment];
                let b = self.points[c.segment + 1];
                assert(a.wf() && b.wf()) by {
                    assert(self.points@[c.segment as int].wf());
                    assert(self.points@[c.segment + 1].wf());
                }
                let q = interpolate(&a, &b, c.k, c.n);
                let d = distance_sq(q, p);
                if within_hit(d, view) {
                    Some(c)
                } else {
                    proof {
                        assert forall|c2: CurveHit| #[trigger]
                            is_sample(self.points@, counts@, c2) implies !spec_within_hit(
                            dist_sq(sample_pos(self.points@, c2), p),
                            view,
                        ) by {
                            if spec_within_hit(dist_sq(sample_pos(self.points@, c2), p), view) {
                                assert(dist_sq(sample_pos(self.points@, c), p) >= 0) by (nonlinear_arith);
                                lemma_within_hit_shrinks(
                                    dist_sq(sample_pos(self.points@, c), p),
                                    dist_sq(sample_pos(self.points@, c2), p),
                                    view,
                                );
                            }
                        }
                    }
                    None
                }
            },
            None => None,
        }
    }
}

} // verus!
