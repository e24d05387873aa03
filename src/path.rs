//! The path: an ordered sequence of anchors, the handle held by a drag, and
//! the hit testing and drag editing that work across anchors.
use vstd::prelude::*;
use crate::bezier::{
    BezPoint, HandleSlot, can_move, fresh_anchor, fresh_ok, interpolate, spec_hit, spec_interpolate,
    spec_moved, with_hover, with_lock,
};
use crate::geom::{Pos, is_mirror, mirror_x};
use crate::mode::CursorMode;
use crate::point::Viewport;

verus! {

/// Names one handle of one anchor of a path.
#[derive(Clone, Copy, Debug, PartialEq, Eq, Structural)]
pub struct HandleRef {
    pub anchor: usize,
    pub slot: HandleSlot,
}

/// An ordered sequence of anchors; a curve segment joins each adjacent pair.
#[derive(Debug)]
pub struct Path {
    pub points: Vec<BezPoint>,
    /// The handle held by the current drag, if any.
    pub selected: Option<HandleRef>,
}

/// No two anchors share an id.
pub open spec fn ids_distinct(s: Seq<BezPoint>) -> bool {
    forall|i: int, j: int| 0 <= i < j < s.len() ==> s[i].id != s[j].id
}

/// Whether the drag `sel` holds handle `h` of anchor `i`.
pub open spec fn holds(sel: Option<HandleRef>, i: int, h: HandleSlot) -> bool {
    sel matches Some(r) && r.anchor == i && r.slot == h
}

/// A handle is marked as held exactly when the drag holds it.
pub open spec fn locks_match(s: Seq<BezPoint>, sel: Option<HandleRef>) -> bool {
    forall|i: int, h: HandleSlot|
        0 <= i < s.len() ==> (#[trigger] s[i].spec_handle(h)).locked == holds(sel, i, h)
}

/// Whether some anchor of `s` has id `id`.
pub open spec fn id_used(s: Seq<BezPoint>, id: u128) -> bool {
    exists|i: int| 0 <= i < s.len() && s[i].id == id
}

/// The handle under the pointer: the first anchor in path order that has one.
pub open spec fn first_hit(s: Seq<BezPoint>, at: Pos, view: Viewport, r: Option<HandleRef>) -> bool {
    match r {
        Some(h) => {
            &&& h.anchor < s.len()
            &&& spec_hit(s[h.anchor as int], at, view) == Some(h.slot)
            &&& forall|j: int| 0 <= j < h.anchor ==> spec_hit(#[trigger] s[j], at, view) is None
        },
        None => forall|j: int| 0 <= j < s.len() ==> spec_hit(#[trigger] s[j], at, view) is None,
    }
}

/// The hover mark anchor `i` carries once `r` is the hovered handle.
pub open spec fn hover_of(r: Option<HandleRef>, i: int) -> Option<HandleSlot> {
    match r {
        Some(h) => if h.anchor == i {
            Some(h.slot)
        } else {
            None
        },
        None => None,
    }
}

/// Horizontal distance from the first anchor to its control handles.
pub const DEFAULT_CONTROL: i64 = 5000;

/// Half of `v`, rounded toward zero.
pub open spec fn half(v: int) -> int {
    if v >= 0 {
        v / 2
    } else {
        -((-v) / 2)
    }
}

/// The `cp1` of an anchor appended at `at`: a fixed offset to the left for the
/// first anchor, else the midpoint of the last anchor's `cp2` and `at`, so the
/// join follows the direction in which the previous segment leaves.
pub open spec fn append_cp1(s: Seq<BezPoint>, at: Pos) -> Pos {
    if s.len() == 0 {
        Pos { x: (at.x - DEFAULT_CONTROL) as i64, y: at.y }
    } else {
        let c = s.last().cp2;
        Pos { x: half(c.x + at.x) as i64, y: half(c.y + at.y) as i64 }
    }
}

/// Whether an anchor with id `id` can be appended at `at`.
pub open spec fn can_append(s: Seq<BezPoint>, at: Pos, id: u128) -> bool {
    at.valid() && !id_used(s, id) && fresh_ok(at, append_cp1(s, at))
}

/// The drag after an anchor is inserted at index `i`.
pub open spec fn shift_up(sel: Option<HandleRef>, i: int) -> Option<HandleRef> {
    match sel {
        Some(h) => if h.anchor >= i {
            Some(HandleRef { anchor: (h.anchor + 1) as usize, slot: h.slot })
        } else {
            sel
        },
        None => None,
    }
}

/// The drag after the anchor at index `i` is removed.
pub open spec fn shift_down(sel: Option<HandleRef>, i: int) -> Option<HandleRef> {
    match sel {
        Some(h) => if h.anchor == i {
            None
        } else if h.anchor > i {
            Some(HandleRef { anchor: (h.anchor - 1) as usize, slot: h.slot })
        } else {
            sel
        },
        None => None,
    }
}

/// The drag after the path is cut to its first `i` anchors.
pub open spec fn cut(sel: Option<HandleRef>, i: int) -> Option<HandleRef> {
    match sel {
        Some(h) => if h.anchor >= i {
            None
        } else {
            sel
        },
        None => None,
    }
}

/// A point of the sampled curve: sample `k` of `n` of the segment that starts
/// at anchor `segment`.
#[derive(Clone, Copy, Debug, PartialEq, Eq, Structural)]
pub struct CurveHit {
    pub segment: usize,
    pub k: u32,
    pub n: u32,
}

/// The parameter a tenth past `k/n`, capped at the segment's end, as a
/// numerator over `10n`.
pub open spec fn tangent_k(k: int, n: int) -> int {
    if 10 * k + n <= 10 * n {
        10 * k + n
    } else {
        10 * n
    }
}

/// Where an anchor inserted at curve point `c` goes.
pub open spec fn insert_pos(s: Seq<BezPoint>, c: CurveHit) -> Pos {
    spec_interpolate(s[c.segment as int], s[c.segment + 1], c.k as int, c.n as int)
}

/// The `cp2` of an anchor inserted at `c`: the curve a tenth further along.
pub open spec fn insert_cp2(s: Seq<BezPoint>, c: CurveHit) -> Pos {
    spec_interpolate(
        s[c.segment as int],
        s[c.segment + 1],
        tangent_k(c.k as int, c.n as int),
        10 * c.n,
    )
}

/// The `cp1` of an anchor inserted at `c`: its `cp2` mirrored through it.
pub open spec fn insert_cp1(s: Seq<BezPoint>, c: CurveHit) -> Pos {
    let p = insert_pos(s, c);
    let q = insert_cp2(s, c);
    Pos { x: mirror_x(p.x as int, q.x as int) as i64, y: mirror_x(p.y as int, q.y as int) as i64 }
}

/// Whether an anchor with id `id` can be inserted at curve point `c`.
pub open spec fn can_insert(s: Seq<BezPoint>, c: CurveHit, id: u128) -> bool {
    &&& c.segment + 1 < s.len()
    &&& 0 < c.n
    &&& c.k <= c.n
    &&& 10 * c.n <= u32::MAX
    &&& !id_used(s, id)
    &&& fresh_ok(insert_pos(s, c), insert_cp1(s, c))
}

/// Halves `v`, rounding toward zero.
fn halve(v: i64) -> (r: i64)
    ensures
        r == half(v as int),
{
    if v >= 0 {
        v / 2
    } else {
        -((-(v as i128)) / 2) as i64
    }
}

impl Path {
    /// Every anchor well formed, ids distinct, and the drag, if any, holding a
    /// handle of an existing anchor and marked on it alone.
    pub open spec fn wf(self) -> bool {
        &&& forall|i: int| 0 <= i < self.points@.len() ==> (#[trigger] self.points@[i]).wf()
        &&& ids_distinct(self.points@)
        &&& (self.selected matches Some(r) ==> r.anchor < self.points@.len())
        &&& locks_match(self.points@, self.selected)
    }

    /// An empty path.
    pub fn new() -> (r: Path)
        ensures
            r.wf(),
            r.points@.len() == 0,
            r.selected is None,
    {
        Path { points: Vec::new(), selected: None }
    }

    pub fn len(&self) -> (r: usize)
        ensures
            r == self.points@.len(),
    {
        self.points.len()
    }

    /// Whether some anchor has id `id`.
    pub fn has_id(&self, id: u128) -> (r: bool)
        ensures
            r == id_used(self.points@, id),
    {
        let mut i: usize = 0;
        while i < self.points.len()
            invariant
                i <= self.points@.len(),
                forall|j: int| 0 <= j < i ==> self.points@[j].id != id,
            decreases self.points@.len() - i,
        {
            if self.points[i].id == id {
                return true;
            }
            i = i + 1;
        }
        false
    }

    /// Resolves the pointer at `at` to at most one handle: the nearest handle
    /// of the first anchor, in path order, that has one inside the hit radius.
    /// That handle alone is marked as hovered. Without a pointer, or with one
    /// outside the coordinate range, nothing is hovered.
    pub fn hover(&mut self, at: Option<Pos>, view: Viewport) -> (r: Option<HandleRef>)
        requires
            old(self).wf(),
        ensures
            final(self).wf(),
            final(self).selected == old(self).selected,
            final(self).points@.len() == old(self).points@.len(),
            forall|i: int|
                0 <= i < old(self).points@.len() ==> final(self).points@[i] == with_hover(
                    old(self).points@[i],
                    hover_of(r, i),
                ),
            match at {
                Some(p) => if p.valid() {
                    first_hit(old(self).points@, p, view, r)
                } else {
                    r is None
                },
                None => r is None,
            },
    {
        let pointer = match at {
            Some(p) => if p.is_valid() {
                Some(p)
            } else {
                None
            },
            None => None,
        };
        let mut found: Option<HandleRef> = None;
        let mut i: usize = 0;
        while i < self.points.len()
            invariant
                i <= self.points@.len(),
                self.points@.len() == old(self).points@.len(),
                self.selected == old(self).selected,
                old(self).wf(),
                forall|j: int| 0 <= j < i ==> self.points@[j] == with_hover(
                    old(self).points@[j],
                    hover_of(found, j),
                ),
                forall|j: int| i <= j < self.points@.len() ==> self.points@[j] == old(
                    self,
                ).points@[j],
                found matches Some(h) ==> h.anchor < i,
                pointer matches Some(p) ==> p.valid(),
                pointer == (match at {
                    Some(p) => if p.valid() {
                        Some(p)
                    } else {
                        None
                    },
                    None => None,
                }),
                match pointer {
                    Some(p) => match found {
                        Some(h) => first_hit(old(self).points@, p, view, found),
                        None => forall|j: int|
                            0 <= j < i ==> spec_hit(#[trigger] old(self).points@[j], p, view)
                                is None,
                    },
                    None => found is None,
                },
            decreases self.points@.len() - i,
        {
            let mut a = self.points[i];
            assert(a.wf()) by {
                assert(a == old(self).points@[i as int]);
            }
            let slot = match (pointer, found) {
                (Some(p), None) => a.hit(p, view),
                _ => None,
            };
            a.set_hover(slot);
            self.points.set(i, a);
            if let Some(s) = slot {
                found = Some(HandleRef { anchor: i, slot: s });
            }
            i = i + 1;
        }
        proof {
            assert forall|j: int| 0 <= j < self.points@.len() implies (#[trigger] self.points@[j]).wf() by {
                assert(old(self).points@[j].wf());
            }
            assert forall|j: int, h: HandleSlot|
                0 <= j < self.points@.len() implies (#[trigger] self.points@[j].spec_handle(h)).locked == (self.selected == Some(
                HandleRef { anchor: j as usize, slot: h },
            )) by {
                assert(old(self).points@[j].spec_handle(h).locked == self.points@[j].spec_handle(h).locked);
            }
        }
        found
    }

    /// Appends an anchor with id `id` at `at` (`Create` mode). Its `cp1` is
    /// `append_cp1`: the midpoint of the last anchor's `cp2` and `at`, so that
    /// the new segment leaves the join the way the previous one arrives. Its
    /// `cp2` mirrors `cp1`. Refused when `id` is in use or a handle would lie
    /// out of range.
    pub fn append(&mut self, at: Pos, id: u128, now_ms: u64) -> (r: bool)
        requires
            old(self).wf(),
        ensures
            final(self).wf(),
            final(self).selected == old(self).selected,
            r == can_append(old(self).points@, at, id),
            r ==> final(self).points@ == old(self).points@.push(
                fresh_anchor(at, append_cp1(old(self).points@, at), id, now_ms),
            ),
            !r ==> final(self).points@ == old(self).points@,
    {
        if !at.is_valid() || self.has_id(id) {
            return false;
        }
        let n = self.points.len();
        let cp1 = if n == 0 {
            Pos { x: at.x - DEFAULT_CONTROL, y: at.y }
        } else {
            let c = self.points[n - 1].cp2;
            assert(self.points@[n - 1].wf());
            Pos { x: halve(c.x + at.x), y: halve(c.y + at.y) }
        };
        assert(cp1 == append_cp1(old(self).points@, at));
        match BezPoint::new(at, cp1, id, now_ms) {
            Some(a) => {
                self.points.push(a);
                proof {
                    assert(self.points@[n as int] == a);
                    assert forall|i: int| 0 <= i < self.points@.len() implies (#[trigger] self.points@[i]).wf() by {
                        if i < n {
                            assert(old(self).points@[i].wf());
                        }
                    }
                    assert forall|i: int, j: int| 0 <= i < j < self.points@.len() implies self.points@[i].id != self.points@[j].id by {
                        if j == n {
                            assert(old(self).points@[i].id == self.points@[i].id);
                        }
                    }
                    assert forall|i: int, h: HandleSlot|
                        0 <= i < self.points@.len() implies (#[trigger] self.points@[i].spec_handle(h)).locked == holds(self.selected, i, h) by {
                        if i < n {
                            assert(old(self).points@[i].spec_handle(h).locked == holds(old(self).selected, i, h));
                        }
                    }
                }
                true
            },
            None => false,
        }
    }

    /// Inserts an anchor with id `id` at curve point `c`, right after the
    /// anchor that starts the segment (`Insert` mode). Its `cp2` is the curve
    /// sampled a tenth further along the segment, which follows the local
    /// tangent, and its `cp1` mirrors that. Refused when `c` names no sample of
    /// the path, `id` is in use or a handle would lie out of range.
    pub fn insert(&mut self, c: CurveHit, id: u128, now_ms: u64) -> (r: bool)
        requires
            old(self).wf(),
        ensures
            final(self).wf(),
            r == can_insert(old(self).points@, c, id),
            r ==> final(self).points@ == old(self).points@.insert(
                c.segment + 1,
                fresh_anchor(insert_pos(old(self).points@, c), insert_cp1(old(self).points@, c), id, now_ms),
            ) && final(self).selected == shift_up(old(self).selected, c.segment + 1),
            !r ==> final(self).points@ == old(self).points@ && final(self).selected == old(self).selected,
    {
        if c.segment >= self.points.len() || c.segment + 1 >= self.points.len() || c.n == 0 || c.k
            > c.n || c.n > u32::MAX / 10 {
            return false;
        }
        if self.has_id(id) {
            return false;
        }
        let a = self.points[c.segment];
        let b = self.points[c.segment + 1];
        assert(a.wf() && b.wf()) by {
            assert(self.points@[c.segment as int].wf());
            assert(self.points@[c.segment + 1].wf());
        }
        let p = interpolate(&a, &b, c.k, c.n);
        let ahead = 10 * (c.k as u64) + c.n as u64;
        let kt = if ahead <= 10 * (c.n as u64) {
            ahead as u32
        } else {
            10 * c.n
        };
        let q = interpolate(&a, &b, kt, 10 * c.n);
        let cp1 = Pos { x: 2 * p.x - q.x, y: 2 * p.y - q.y };
        match BezPoint::new(p, cp1, id, now_ms) {
            Some(fresh) => {
                let at = c.segment + 1;
                self.points.insert(at, fresh);
                self.selected = match self.selected {
                    Some(h) => if h.anchor >= at {
                        Some(HandleRef { anchor: h.anchor + 1, slot: h.slot })
                    } else {
                        Some(h)
                    },
                    None => None,
                };
                proof {
                    let o = old(self).points@;
                    assert forall|i: int| 0 <= i < self.points@.len() implies (#[trigger] self.points@[i]).wf() by {
                        if i < at {
                            assert(o[i].wf());
                        } else if i > at {
                            assert(o[i - 1].wf());
                        }
                    }
                    assert forall|i: int, j: int| 0 <= i < j < self.points@.len() implies self.points@[i].id != self.points@[j].id by {
                        if i == at {
                            assert(self.points@[j] == o[j - 1]);
                        } else if j == at {
                            assert(self.points@[i] == o[i]);
                        } else {
                            let oi = if i < at { i } else { i - 1 };
                            let oj = if j < at { j } else { j - 1 };
                            assert(self.points@[i] == o[oi]);
                            assert(self.points@[j] == o[oj]);
                        }
                    }
                    assert forall|i: int, h: HandleSlot|
                        0 <= i < self.points@.len() implies (#[trigger] self.points@[i].spec_handle(h)).locked == holds(self.selected, i, h) by {
                        if i < at {
                            assert(o[i].spec_handle(h).locked == holds(old(self).selected, i, h));
                        } else if i > at {
                            assert(o[i - 1].spec_handle(h).locked == holds(old(self).selected, i - 1, h));
                        }
                    }
                }
                true
            },
            None => false,
        }
    }

    /// Removes the anchor at index `i` (`Delete` mode); later anchors move
    /// down by one. A drag on the removed anchor ends.
    pub fn delete(&mut self, i: usize) -> (r: bool)
        requires
            old(self).wf(),
        ensures
            final(self).wf(),
            r == (i < old(self).points@.len()),
            r ==> final(self).points@ == old(self).points@.remove(i as int) && final(self).selected
                == shift_down(old(self).selected, i as int),
            !r ==> final(self).points@ == old(self).points@ && final(self).selected == old(self).selected,
    {
        if i >= self.points.len() {
            return false;
        }
        self.points.remove(i);
        self.selected = match self.selected {
            Some(h) => if h.anchor == i {
                None
            } else if h.anchor > i {
                Some(HandleRef { anchor: h.anchor - 1, slot: h.slot })
            } else {
                Some(h)
            },
            None => None,
        };
        proof {
            let o = old(self).points@;
            assert forall|j: int| 0 <= j < self.points@.len() implies (#[trigger] self.points@[j]).wf() by {
                if j < i {
                    assert(o[j].wf());
                } else {
                    assert(o[j + 1].wf());
                }
            }
            assert forall|a: int, b: int| 0 <= a < b < self.points@.len() implies self.points@[a].id != self.points@[b].id by {
                let oa = if a < i { a } else { a + 1 };
                let ob = if b < i { b } else { b + 1 };
                assert(self.points@[a] == o[oa]);
                assert(self.points@[b] == o[ob]);
            }
            assert forall|j: int, h: HandleSlot|
                0 <= j < self.points@.len() implies (#[trigger] self.points@[j].spec_handle(h)).locked == holds(self.selected, j, h) by {
                if j < i {
                    assert(o[j].spec_handle(h).locked == holds(old(self).selected, j, h));
                } else {
                    assert(o[j + 1].spec_handle(h).locked == holds(old(self).selected, j + 1, h));
                }
            }
        }
        true
    }

    /// Keeps the anchors before index `i` and removes the rest (`Trim` mode).
    /// A drag on a removed anchor ends.
    pub fn trim(&mut self, i: usize) -> (r: bool)
        requires
            old(self).wf(),
        ensures
            final(self).wf(),
            r == (i < old(self).points@.len()),
            r ==> final(self).points@ == old(self).points@.subrange(0, i as int),
            r ==> final(self).selected == cut(old(self).selected, i as int),
            !r ==> final(self).points@ == old(self).points@ && final(self).selected == old(self).selected,
    {
        if i >= self.points.len() {
            return false;
        }
        self.points.truncate(i);
        self.selected = match self.selected {
            Some(h) => if h.anchor >= i {
                None
            } else {
                Some(h)
            },
            None => None,
        };
        proof {
            let o = old(self).points@;
            assert forall|j: int| 0 <= j < self.points@.len() implies (#[trigger] self.points@[j]).wf() by {
                assert(o[j].wf());
            }
            assert forall|j: int, h: HandleSlot|
                0 <= j < self.points@.len() implies (#[trigger] self.points@[j].spec_handle(h)).locked == holds(self.selected, j, h) by {
                assert(o[j].spec_handle(h).locked == holds(old(self).selected, j, h));
            }
        }
        true
    }

    /// Ends the drag, if any.
    pub fn release(&mut self)
        requires
            old(self).wf(),
        ensures
            final(self).wf(),
            final(self).selected is None,
            final(self).points@.len() == old(self).points@.len(),
            forall|i: int|
                0 <= i < old(self).points@.len() ==> final(self).points@[i] == with_lock(
                    old(self).points@[i],
                    None,
                ),
    {
        if let Some(r) = self.selected {
            let mut a = self.points[r.anchor];
            a.set_locked(None);
            self.points.set(r.anchor, a);
        }
        self.selected = None;
        proof {
            assert forall|i: int|
                0 <= i < old(self).points@.len() implies self.points@[i] == with_lock(
                old(self).points@[i],
                None,
            ) by {
                let o = old(self).points@[i];
                assert(o.spec_handle(HandleSlot::Pos).locked == holds(old(self).selected, i, HandleSlot::Pos));
                assert(o.spec_handle(HandleSlot::Cp1).locked == holds(old(self).selected, i, HandleSlot::Cp1));
                assert(o.spec_handle(HandleSlot::Cp2).locked == holds(old(self).selected, i, HandleSlot::Cp2));
                if old(self).selected is Some {
                    if old(self).selected->0.anchor != i {
                        assert(!o.pos.locked && !o.cp1.locked && !o.cp2.locked);
                        assert(with_lock(o, None).pos == o.pos);
                        assert(with_lock(o, None).cp1 == o.cp1);
                        assert(with_lock(o, None).cp2 == o.cp2);
                    }
                } else {
                    assert(with_lock(o, None).pos == o.pos);
                    assert(with_lock(o, None).cp1 == o.cp1);
                    assert(with_lock(o, None).cp2 == o.cp2);
                }
            }
            assert forall|i: int| 0 <= i < self.points@.len() implies (#[trigger] self.points@[i]).wf() by {
                assert(old(self).points@[i].wf());
            }
        }
    }

    /// Starts a drag on the hovered handle when the mode allows dragging and
    /// no drag is under way.
    pub fn press(&mut self, hovered: Option<HandleRef>, mode: CursorMode)
        requires
            old(self).wf(),
        ensures
            final(self).wf(),
            final(self).points@.len() == old(self).points@.len(),
            ({
                let starts = mode.spec_allows_drag() && old(self).selected is None && (
                hovered matches Some(h) && h.anchor < old(self).points@.len());
                &&& starts ==> final(self).selected == hovered && final(self).points@
                    == old(self).points@.update(
                    hovered->0.anchor as int,
                    with_lock(old(self).points@[hovered->0.anchor as int], Some(hovered->0.slot)),
                )
                &&& !starts ==> final(self).selected == old(self).selected && final(self).points@
                    == old(self).points@
            }),
    {
        if mode.allows_drag() && self.selected.is_none() {
            if let Some(h) = hovered {
                if h.anchor < self.points.len() {
                    let mut a = self.points[h.anchor];
                    a.set_locked(Some(h.slot));
                    self.points.set(h.anchor, a);
                    self.selected = Some(h);
                    proof {
                        assert forall|i: int| 0 <= i < self.points@.len() implies (#[trigger] self.points@[i]).wf() by {
                            assert(old(self).points@[i].wf());
                        }
                        assert forall|i: int, s: HandleSlot|
                            0 <= i < self.points@.len() implies (#[trigger] self.points@[i].spec_handle(s)).locked == holds(self.selected, i, s) by {
                            assert(old(self).points@[i].spec_handle(s).locked == holds(old(self).selected, i, s));
                        }
                    }
                }
            }
        }
    }

    /// Moves handle `r` to `to` and restores the constraint on its anchor, as
    /// `BezPoint::move_handle` does. Nothing changes, and the result is
    /// `false`, when `r` names no handle or a handle would leave the range.
    pub fn move_handle(&mut self, r: HandleRef, to: Pos) -> (res: bool)
        requires
            old(self).wf(),
        ensures
            final(self).wf(),
            final(self).selected == old(self).selected,
            res == (r.anchor < old(self).points@.len() && can_move(
                old(self).points@[r.anchor as int],
                r.slot,
                to,
            )),
            res ==> final(self).points@ == old(self).points@.update(
                r.anchor as int,
                spec_moved(old(self).points@[r.anchor as int], r.slot, to),
            ),
            !res ==> final(self).points@ == old(self).points@,
    {
        if r.anchor >= self.points.len() {
            return false;
        }
        let mut a = self.points[r.anchor];
        assert(a.wf());
        let moved = a.move_handle(r.slot, to);
        if moved {
            self.points.set(r.anchor, a);
            proof {
                assert forall|i: int| 0 <= i < self.points@.len() implies (#[trigger] self.points@[i]).wf() by {
                    assert(old(self).points@[i].wf());
                }
                assert forall|i: int, s: HandleSlot|
                    0 <= i < self.points@.len() implies (#[trigger] self.points@[i].spec_handle(s)).locked == holds(self.selected, i, s) by {
                    assert(old(self).points@[i].spec_handle(s).locked == holds(old(self).selected, i, s));
                }
            }
        }
        moved
    }

    /// Moves the handle held by the drag to `to`; `false` when no drag is
    /// under way or the move is refused.
    pub fn drag_to(&mut self, to: Pos) -> (res: bool)
        requires
            old(self).wf(),
        ensures
            final(self).wf(),
            final(self).selected == old(self).selected,
            res == (old(self).selected matches Some(h) && can_move(
                old(self).points@[h.anchor as int],
                h.slot,
                to,
            )),
            res ==> final(self).points@ == old(self).points@.update(
                old(self).selected->0.anchor as int,
                spec_moved(
                    old(self).points@[old(self).selected->0.anchor as int],
                    old(self).selected->0.slot,
                    to,
                ),
            ),
            !res ==> final(self).points@ == old(self).points@,
    {
        match self.selected {
            Some(h) => self.move_handle(h, to),
            None => false,
        }
    }
}

/// Every unbroken anchor of a well-formed path has control handles that are
/// reflections of each other through the anchor.
pub proof fn lemma_unbroken_mirrored(p: Path, i: int)
    requires
        p.wf(),
        0 <= i < p.points@.len(),
        !p.points@[i].broken,
    ensures
        is_mirror(
            p.points@[i].pos.spec_pos(),
            p.points@[i].cp1.spec_pos(),
            p.points@[i].cp2.spec_pos(),
        ),
{
    assert(p.points@[i].wf());
}

/// Trimming a path of `n` anchors at index `i < n` leaves exactly `i`
/// anchors, the first `i` of the path unchanged.
pub proof fn lemma_trim_length(p: Path, i: int)
    requires
        p.wf(),
        0 <= i < p.points@.len(),
    ensures
        p.points@.subrange(0, i).len() == i,
        forall|j: int| 0 <= j < i ==> p.points@.subrange(0, i)[j] == p.points@[j],
{
}

/// Deleting index `i` of a path of `n` anchors leaves `n - 1`: those before
/// `i` in place and those after it one index lower, each the same anchor
/// with the same id.
pub proof fn lemma_delete_shifts(p: Path, i: int)
    requires
        p.wf(),
        0 <= i < p.points@.len(),
    ensures
        p.points@.remove(i).len() == p.points@.len() - 1,
        forall|j: int| 0 <= j < i ==> p.points@.remove(i)[j] == p.points@[j],
        forall|j: int| i < j < p.points@.len() ==> p.points@.remove(i)[j - 1] == p.points@[j],
{
}

} // verus!
