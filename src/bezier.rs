//! Path anchors: a primary handle with two dependent control handles, the
//! continuity constraint between them, and the cubic curve between anchors.
use vstd::prelude::*;
use vstd::arithmetic::div_mod::{lemma_fundamental_div_mod, lemma_fundamental_div_mod_converse, lemma_mod_bound};
use crate::ease::{Easing, DRAW_IN_MS};
use crate::geom::{
    Pos, coord_ok, dist_sq, distance_sq, is_mirror, isqrt, lemma_sqrt_floor, sqrt_floor, mirror, mirror_x,
    translate, MAX_COORD,
};
use crate::mode::CursorMode;
use crate::point::{Point, Viewport, HIT_RADIUS, spec_within_hit, within_hit};

verus! {

/// One of the three handles of an anchor.
#[derive(Clone, Copy, Debug, PartialEq, Eq, Structural)]
pub enum HandleSlot {
    /// The anchor itself, through which the curve passes.
    Pos,
    /// The control handle shaping the curve that arrives at the anchor.
    Cp1,
    /// The control handle shaping the curve that leaves the anchor.
    Cp2,
}

/// A Bézier anchor.
#[derive(Clone, Copy, Debug)]
pub struct BezPoint {
    pub pos: Point,
    pub cp1: Point,
    pub cp2: Point,
    pub id: u128,
    /// The segment ending here has finished drawing in.
    pub animated: bool,
    /// Draw-in animation of the sample count of the segment ending here.
    pub ease: Easing,
    /// Position of `pos` as of the last settled edit, to compute drag offsets.
    pub prev: Pos,
    /// The path may break here: the control handles move independently.
    pub broken: bool,
}

/// The persisted form of an anchor.
#[derive(Clone, Copy, Debug, PartialEq, Eq, Structural)]
pub struct SavePoint {
    pub pos: Pos,
    pub cp1: Pos,
    pub cp2: Pos,
    pub id: u128,
    pub broken: bool,
}

/// Whether both coordinates of `p` lie within the handle range.
pub open spec fn pair_ok(p: (int, int)) -> bool {
    coord_ok(p.0) && coord_ok(p.1)
}

/// `h` moved to `p`, keeping its flags.
pub open spec fn with_xy(h: Point, p: (int, int)) -> Point {
    Point { x: p.0 as i64, y: p.1 as i64, ..h }
}

/// Where `cp1` ends up when handle `slot` of `a` is moved to `to`.
pub open spec fn moved_cp1(a: BezPoint, slot: HandleSlot, to: Pos) -> (int, int) {
    match slot {
        HandleSlot::Pos => (a.cp1.x + (to.x - a.prev.x), a.cp1.y + (to.y - a.prev.y)),
        HandleSlot::Cp1 => (to.x as int, to.y as int),
        HandleSlot::Cp2 => if a.broken {
            (a.cp1.x as int, a.cp1.y as int)
        } else {
            (mirror_x(a.pos.x as int, to.x as int), mirror_x(a.pos.y as int, to.y as int))
        },
    }
}

/// Where `cp2` ends up when handle `slot` of `a` is moved to `to`.
pub open spec fn moved_cp2(a: BezPoint, slot: HandleSlot, to: Pos) -> (int, int) {
    match slot {
        HandleSlot::Pos => (a.cp2.x + (to.x - a.prev.x), a.cp2.y + (to.y - a.prev.y)),
        HandleSlot::Cp1 => if a.broken {
            (a.cp2.x as int, a.cp2.y as int)
        } else {
            (mirror_x(a.pos.x as int, to.x as int), mirror_x(a.pos.y as int, to.y as int))
        },
        HandleSlot::Cp2 => (to.x as int, to.y as int),
    }
}

/// Where `pos` ends up when handle `slot` of `a` is moved to `to`.
pub open spec fn moved_pos(a: BezPoint, slot: HandleSlot, to: Pos) -> Pos {
    if slot == HandleSlot::Pos {
        to
    } else {
        a.pos.spec_pos()
    }
}

/// Whether moving handle `slot` of `a` to `to` keeps every handle in range.
pub open spec fn can_move(a: BezPoint, slot: HandleSlot, to: Pos) -> bool {
    to.valid() && pair_ok(moved_cp1(a, slot, to)) && pair_ok(moved_cp2(a, slot, to))
}

/// The anchor after handle `slot` of `a` is moved to `to`.
pub open spec fn spec_moved(a: BezPoint, slot: HandleSlot, to: Pos) -> BezPoint {
    let p = moved_pos(a, slot, to);
    BezPoint {
        pos: Point { x: p.x, y: p.y, ..a.pos },
        cp1: with_xy(a.cp1, moved_cp1(a, slot, to)),
        cp2: with_xy(a.cp2, moved_cp2(a, slot, to)),
        prev: p,
        ..a
    }
}

/// The handle of `a` nearest to `at`; ties go to `pos`, then `cp1`.
pub open spec fn nearest(a: BezPoint, at: Pos) -> HandleSlot {
    let dp = dist_sq(a.pos.spec_pos(), at);
    let d1 = dist_sq(a.cp1.spec_pos(), at);
    let d2 = dist_sq(a.cp2.spec_pos(), at);
    let best = if d1 < dp {
        d1
    } else {
        dp
    };
    if d2 < best {
        HandleSlot::Cp2
    } else if d1 < dp {
        HandleSlot::Cp1
    } else {
        HandleSlot::Pos
    }
}

/// The handle of `a` under the pointer at `at`, if any.
pub open spec fn spec_hit(a: BezPoint, at: Pos, view: Viewport) -> Option<HandleSlot> {
    let s = nearest(a, at);
    if spec_within_hit(dist_sq(a.spec_handle(s).spec_pos(), at), view) {
        Some(s)
    } else {
        None
    }
}

/// A new unbroken anchor at `pos` with `cp1` at `cp1` and `cp2` mirroring it,
/// no handle hovered or held, its segment starting to draw in at `now_ms`.
pub open spec fn fresh_anchor(pos: Pos, cp1: Pos, id: u128, now_ms: u64) -> BezPoint {
    BezPoint {
        pos: Point { x: pos.x, y: pos.y, selected: false, locked: false },
        cp1: Point { x: cp1.x, y: cp1.y, selected: false, locked: false },
        cp2: Point {
            x: mirror_x(pos.x as int, cp1.x as int) as i64,
            y: mirror_x(pos.y as int, cp1.y as int) as i64,
            selected: false,
            locked: false,
        },
        id,
        animated: false,
        ease: Easing { start_ms: now_ms, from: 0, to: 0, duration_ms: DRAW_IN_MS },
        prev: pos,
        broken: false,
    }
}

/// Whether a fresh anchor at `pos` with `cp1` at `cp1` has all handles in range.
pub open spec fn fresh_ok(pos: Pos, cp1: Pos) -> bool {
    pos.valid() && cp1.valid() && coord_ok(mirror_x(pos.x as int, cp1.x as int)) && coord_ok(
        mirror_x(pos.y as int, cp1.y as int),
    )
}

/// `a` with exactly the handle `slot` marked as hovered.
pub open spec fn with_hover(a: BezPoint, slot: Option<HandleSlot>) -> BezPoint {
    BezPoint {
        pos: Point { selected: slot == Some(HandleSlot::Pos), ..a.pos },
        cp1: Point { selected: slot == Some(HandleSlot::Cp1), ..a.cp1 },
        cp2: Point { selected: slot == Some(HandleSlot::Cp2), ..a.cp2 },
        ..a
    }
}

/// `a` with exactly the handle `slot` marked as held by a drag.
pub open spec fn with_lock(a: BezPoint, slot: Option<HandleSlot>) -> BezPoint {
    BezPoint {
        pos: Point { locked: slot == Some(HandleSlot::Pos), ..a.pos },
        cp1: Point { locked: slot == Some(HandleSlot::Cp1), ..a.cp1 },
        cp2: Point { locked: slot == Some(HandleSlot::Cp2), ..a.cp2 },
        ..a
    }
}

/// The record kept of an anchor once an unbroken one has its `cp2` mirrored.
pub open spec fn settled_record(r: SavePoint) -> SavePoint {
    if r.broken {
        r
    } else {
        SavePoint {
            cp2: Pos {
                x: mirror_x(r.pos.x as int, r.cp1.x as int) as i64,
                y: mirror_x(r.pos.y as int, r.cp1.y as int) as i64,
            },
            ..r
        }
    }
}

/// Whether a record can be loaded: its handles are in range, and so is the
/// mirrored `cp2` of an unbroken one.
pub open spec fn loadable(r: SavePoint) -> bool {
    r.pos.valid() && r.cp1.valid() && r.cp2.valid() && (r.broken || (coord_ok(
        mirror_x(r.pos.x as int, r.cp1.x as int),
    ) && coord_ok(mirror_x(r.pos.y as int, r.cp1.y as int))))
}

impl BezPoint {
    /// Handles in range, `prev` caught up with `pos`, and the control handles
    /// of an unbroken anchor reflections of each other through `pos`.
    pub open spec fn wf(self) -> bool {
        &&& self.pos.spec_pos().valid()
        &&& self.cp1.spec_pos().valid()
        &&& self.cp2.spec_pos().valid()
        &&& self.prev == self.pos.spec_pos()
        &&& !self.broken ==> is_mirror(
            self.pos.spec_pos(),
            self.cp1.spec_pos(),
            self.cp2.spec_pos(),
        )
    }

    pub open spec fn spec_handle(self, slot: HandleSlot) -> Point {
        match slot {
            HandleSlot::Pos => self.pos,
            HandleSlot::Cp1 => self.cp1,
            HandleSlot::Cp2 => self.cp2,
        }
    }

    pub open spec fn record(self) -> SavePoint {
        SavePoint {
            pos: self.pos.spec_pos(),
            cp1: self.cp1.spec_pos(),
            cp2: self.cp2.spec_pos(),
            id: self.id,
            broken: self.broken,
        }
    }

    /// A fresh unbroken anchor at `pos` whose `cp1` is at `cp1` and whose
    /// `cp2` mirrors it; its segment draws in from `now_ms`.
    /// `None` when a handle would lie out of range.
    pub fn new(pos: Pos, cp1: Pos, id: u128, now_ms: u64) -> (r: Option<BezPoint>)
        ensures
            r is Some <==> fresh_ok(pos, cp1),
            r matches Some(a) ==> a.wf() && a == fresh_anchor(pos, cp1, id, now_ms),
    {
        if !pos.is_valid() || !cp1.is_valid() {
            return None;
        }
        match mirror(pos, cp1) {
            Some(cp2) => Some(
                BezPoint {
                    pos: Point::at(pos),
                    cp1: Point::at(cp1),
                    cp2: Point::at(cp2),
                    id,
                    animated: false,
                    ease: Easing::new(now_ms, 0, 0, DRAW_IN_MS),
                    prev: pos,
                    broken: false,
                },
            ),
            None => None,
        }
    }

    pub fn handle(&self, slot: HandleSlot) -> (r: Point)
        ensures
            r == self.spec_handle(slot),
    {
        match slot {
            HandleSlot::Pos => self.pos,
            HandleSlot::Cp1 => self.cp1,
            HandleSlot::Cp2 => self.cp2,
        }
    }

    /// Moves handle `slot` to `to` and restores the constraint between the
    /// handles: moving `pos` carries both control handles along; moving a
    /// control handle of an unbroken anchor mirrors the other one through
    /// `pos`, and `cp2` is then derived from `cp1`. Nothing changes, and the
    /// result is `false`, when a handle would leave the coordinate range.
    pub fn move_handle(&mut self, slot: HandleSlot, to: Pos) -> (r: bool)
        requires
            old(self).wf(),
        ensures
            final(self).wf(),
            r == can_move(*old(self), slot, to),
            r ==> *final(self) == spec_moved(*old(self), slot, to),
            !r ==> *final(self) == *old(self),
    {
        if !to.is_valid() {
            return false;
        }
        let p = self.pos.pos();
        let c1 = self.cp1.pos();
        let c2 = self.cp2.pos();
        let (np, n1, n2) = match slot {
            HandleSlot::Pos => {
                match (translate(c1, self.prev, to), translate(c2, self.prev, to)) {
                    (Some(a), Some(b)) => (to, a, b),
                    _ => {
                        return false;
                    },
                }
            },
            HandleSlot::Cp1 => {
                if self.broken {
                    (p, to, c2)
                } else {
                    match mirror(p, to) {
                        Some(b) => (p, to, b),
                        None => {
                            return false;
                        },
                    }
                }
            },
            HandleSlot::Cp2 => {
                if self.broken {
                    (p, c1, to)
                } else {
                    match mirror(p, to) {
                        Some(a) => (p, a, to),
                        None => {
                            return false;
                        },
                    }
                }
            },
        };
        // With the anchor unbroken, `cp2` always follows from `cp1`.
        let n2 = if !self.broken {
            Pos { x: 2 * np.x - n1.x, y: 2 * np.y - n1.y }
        } else {
            n2
        };
        self.pos.set_pos(np);
        self.cp1.set_pos(n1);
        self.cp2.set_pos(n2);
        self.prev = np;
        true
    }

    /// The handle under the pointer at `at`: the nearest of the three, when it
    /// lies inside the hit radius.
    pub fn hit(&self, at: Pos, view: Viewport) -> (r: Option<HandleSlot>)
        requires
            self.wf(),
            at.valid(),
        ensures
            r == spec_hit(*self, at, view),
    {
        let dp = distance_sq(self.pos.pos(), at);
        let d1 = distance_sq(self.cp1.pos(), at);
        let d2 = distance_sq(self.cp2.pos(), at);
        let mut best = HandleSlot::Pos;
        let mut best_d = dp;
        if d1 < best_d {
            best = HandleSlot::Cp1;
            best_d = d1;
        }
        if d2 < best_d {
            best = HandleSlot::Cp2;
            best_d = d2;
        }
        if within_hit(best_d, view) {
            Some(best)
        } else {
            None
        }
    }

    /// Marks exactly the handle `slot` as hovered.
    pub fn set_hover(&mut self, slot: Option<HandleSlot>)
        ensures
            *final(self) == with_hover(*old(self), slot),
    {
        self.pos.selected = slot == Some(HandleSlot::Pos);
        self.cp1.selected = slot == Some(HandleSlot::Cp1);
        self.cp2.selected = slot == Some(HandleSlot::Cp2);
    }

    /// Marks exactly the handle `slot` as held by a drag.
    pub fn set_locked(&mut self, slot: Option<HandleSlot>)
        ensures
            *final(self) == with_lock(*old(self), slot),
    {
        self.pos.locked = slot == Some(HandleSlot::Pos);
        self.cp1.locked = slot == Some(HandleSlot::Cp1);
        self.cp2.locked = slot == Some(HandleSlot::Cp2);
    }

    /// Whether the anchor is drawn in the warning colour: every anchor in
    /// `Trim` mode, a hovered one in `Delete` mode.
    pub fn warned(&self, mode: CursorMode) -> (r: bool)
        ensures
            r == (mode == CursorMode::Trim || (mode == CursorMode::Delete && (self.pos.selected
                || self.cp1.selected || self.cp2.selected))),
    {
        mode == CursorMode::Trim || (mode == CursorMode::Delete && (self.pos.selected
            || self.cp1.selected || self.cp2.selected))
    }

    /// The persisted form of this anchor.
    pub fn save(&self) -> (r: SavePoint)
        ensures
            r == self.record(),
    {
        SavePoint {
            pos: self.pos.pos(),
            cp1: self.cp1.pos(),
            cp2: self.cp2.pos(),
            id: self.id,
            broken: self.broken,
        }
    }

    /// Rebuilds an anchor from its persisted form, with no handle hovered or
    /// held and its segment already drawn in. The `cp2` of an unbroken anchor
    /// is mirrored from `cp1`. `None` when a handle would lie out of range.
    pub fn load(point: SavePoint) -> (r: Option<BezPoint>)
        ensures
            r is Some <==> loadable(point),
            r matches Some(a) ==> {
                &&& a.wf()
                &&& a.record() == settled_record(point)
                &&& a.animated
                &&& !a.pos.selected && !a.cp1.selected && !a.cp2.selected
                &&& !a.pos.locked && !a.cp1.locked && !a.cp2.locked
            },
    {
        if !point.pos.is_valid() || !point.cp1.is_valid() || !point.cp2.is_valid() {
            return None;
        }
        let cp2 = if point.broken {
            point.cp2
        } else {
            match mirror(point.pos, point.cp1) {
                Some(c) => c,
                None => {
                    return None;
                },
            }
        };
        Some(
            BezPoint {
                pos: Point::at(point.pos),
                cp1: Point::at(point.cp1),
                cp2: Point::at(cp2),
                id: point.id,
                animated: true,
                ease: Easing::resting(0),
                prev: point.pos,
                broken: point.broken,
            },
        )
    }
}

/// A record of a well-formed anchor is loadable and reloads to the same record.
pub proof fn lemma_record_reloads(a: BezPoint)
    requires
        a.wf(),
    ensures
        loadable(a.record()),
        settled_record(a.record()) == a.record(),
{
}

/// Dragging `cp1` of an unbroken anchor to `to` puts `cp1` at `to` and `cp2`
/// at its reflection `2 * pos - to`, with `pos` in place, whenever that
/// reflection lies in the coordinate range.
pub proof fn lemma_drag_cp1_mirrors(a: BezPoint, to: Pos)
    requires
        a.wf(),
        !a.broken,
        to.valid(),
        coord_ok(mirror_x(a.pos.x as int, to.x as int)),
        coord_ok(mirror_x(a.pos.y as int, to.y as int)),
    ensures
        can_move(a, HandleSlot::Cp1, to),
        spec_moved(a, HandleSlot::Cp1, to).cp1.spec_pos() == to,
        is_mirror(a.pos.spec_pos(), to, spec_moved(a, HandleSlot::Cp1, to).cp2.spec_pos()),
        spec_moved(a, HandleSlot::Cp1, to).pos.spec_pos() == a.pos.spec_pos(),
{
}

/// A pointer exactly on an anchor's `pos` hits `pos`, whatever lies nearby,
/// on a field of non-zero width; `pos` alone is then marked as hovered.
pub proof fn lemma_hit_on_pos(a: BezPoint, view: Viewport)
    requires
        view.size > 0,
    ensures
        spec_hit(a, a.pos.spec_pos(), view) == Some(HandleSlot::Pos),
        with_hover(a, Some(HandleSlot::Pos)).pos.selected,
        !with_hover(a, Some(HandleSlot::Pos)).cp1.selected,
        !with_hover(a, Some(HandleSlot::Pos)).cp2.selected,
{
    let at = a.pos.spec_pos();
    assert(dist_sq(at, at) == 0);
    assert(dist_sq(a.cp1.spec_pos(), at) >= 0) by (nonlinear_arith);
    assert(dist_sq(a.cp2.spec_pos(), at) >= 0) by (nonlinear_arith);
    assert(0 * view.scale * view.scale < HIT_RADIUS * HIT_RADIUS * view.size * view.size) by (
    nonlinear_arith)
        requires
            view.size > 0,
            HIT_RADIUS == 5,
    ;
}

/// The cubic Bézier polynomial through `p0 .. p3` at `t = k/n`, scaled by `n³`:
/// `(n-k)³ p0 + 3(n-k)²k p1 + 3(n-k)k² p2 + k³ p3`.
pub open spec fn bez_weighted(p0: int, p1: int, p2: int, p3: int, k: int, n: int) -> int {
    let u = n - k;
    let uu = u * u;
    let kk = k * k;
    uu * u * p0 + 3 * uu * k * p1 + 3 * u * kk * p2 + kk * k * p3
}

/// A coordinate of the curve at `t = k/n`, rounded down.
pub open spec fn bez_at(p0: int, p1: int, p2: int, p3: int, k: int, n: int) -> int {
    bez_weighted(p0, p1, p2, p3, k, n) / (n * n * n)
}

/// The point of the segment from `a` to `b` at `t = k/n`, rounded down.
pub open spec fn spec_interpolate(a: BezPoint, b: BezPoint, k: int, n: int) -> Pos {
    Pos {
        x: bez_at(a.pos.x as int, a.cp2.x as int, b.cp1.x as int, b.pos.x as int, k, n) as i64,
        y: bez_at(a.pos.y as int, a.cp2.y as int, b.cp1.y as int, b.pos.y as int, k, n) as i64,
    }
}

proof fn lemma_term_bound(c: int, p: int)
    requires
        0 <= c,
        coord_ok(p),
    ensures
        -(c * MAX_COORD) <= c * p <= c * MAX_COORD,
{
    assert(-(c * MAX_COORD) <= c * p <= c * MAX_COORD) by (nonlinear_arith)
        requires
            0 <= c,
            -MAX_COORD <= p <= MAX_COORD,
    ;
}

/// The four Bernstein weights are non-negative and sum to `n³`.
proof fn lemma_weights(u: int, k: int, uu: int, kk: int)
    requires
        0 <= u,
        0 <= k,
        u + k <= 4_294_967_295,
        uu == u * u,
        kk == k * k,
    ensures
        0 <= uu <= 4_294_967_295 * 4_294_967_295,
        0 <= kk <= 4_294_967_295 * 4_294_967_295,
        0 <= uu * u,
        0 <= 3 * uu * k,
        0 <= 3 * u * kk,
        0 <= kk * k,
        uu * u + 3 * uu * k + 3 * u * kk + kk * k == (u + k) * (u + k) * (u + k),
        (u + k) * (u + k) * (u + k) <= 4_294_967_295 * 4_294_967_295 * 4_294_967_295,
{
    assert(0 <= uu <= 4_294_967_295 * 4_294_967_295) by (nonlinear_arith)
        requires
            0 <= u <= 4_294_967_295,
            uu == u * u,
    ;
    assert(0 <= kk <= 4_294_967_295 * 4_294_967_295) by (nonlinear_arith)
        requires
            0 <= k <= 4_294_967_295,
            kk == k * k,
    ;
    assert(0 <= uu * u && 0 <= 3 * uu * k && 0 <= 3 * u * kk && 0 <= kk * k) by (nonlinear_arith)
        requires
            0 <= u,
            0 <= k,
            0 <= uu,
            0 <= kk,
    ;
    assert(uu * u + 3 * uu * k + 3 * u * kk + kk * k == (u + k) * (u + k) * (u + k)) by (
    nonlinear_arith)
        requires
            uu == u * u,
            kk == k * k,
    ;
    let n = u + k;
    assert(n * n * n <= 4_294_967_295 * 4_294_967_295 * 4_294_967_295) by (nonlinear_arith)
        requires
            0 <= n <= 4_294_967_295,
    ;
}

/// Division rounding down, for a positive divisor.
fn floor_div(num: i128, d: i128) -> (r: i128)
    requires
        d > 0,
        num > i128::MIN,
    ensures
        r == num / d,
{
    if num >= 0 {
        num / d
    } else {
        let m = -num;
        let q = m / d;
        let rem = m % d;
        proof {
            lemma_fundamental_div_mod(m as int, d as int);
            lemma_mod_bound(m as int, d as int);
        }
        if rem == 0 {
            proof {
                assert(num == (-q) * d + 0) by (nonlinear_arith)
                    requires
                        m == d * q + rem,
                        rem == 0,
                        num == -m,
                ;
                lemma_fundamental_div_mod_converse(num as int, d as int, -q, 0);
            }
            -q
        } else {
            assert(q < m) by (nonlinear_arith)
                requires
                    m == d * q + rem,
                    rem > 0,
                    d > 0,
                    q >= 0,
            ;
            proof {
                assert(num == (-(q + 1)) * d + (d - rem)) by (nonlinear_arith)
                    requires
                        m == d * q + rem,
                        num == -m,
                ;
                lemma_fundamental_div_mod_converse(num as int, d as int, -(q + 1), d - rem);
            }
            -(q + 1)
        }
    }
}

/// One coordinate of a cubic Bézier curve at `t = k/n`, rounded down.
fn bez_coord(p0: i64, p1: i64, p2: i64, p3: i64, k: u32, n: u32) -> (r: i64)
    requires
        0 < n,
        k <= n,
        coord_ok(p0 as int),
        coord_ok(p1 as int),
        coord_ok(p2 as int),
        coord_ok(p3 as int),
    ensures
        r == bez_at(p0 as int, p1 as int, p2 as int, p3 as int, k as int, n as int),
        coord_ok(r as int),
{
    let u = (n - k) as i128;
    let kq = k as i128;
    let nq = n as i128;
    proof {
        lemma_weights(u as int, kq as int, u * u, kq * kq);
    }
    let uu = u * u;
    let kk = kq * kq;
    proof {
        lemma_term_bound(uu * u, p0 as int);
        lemma_term_bound(3 * uu * kq, p1 as int);
        lemma_term_bound(3 * u * kk, p2 as int);
        lemma_term_bound(kk * kq, p3 as int);
    }
    let c0 = uu * u;
    let c1 = 3 * uu * kq;
    let c2 = 3 * u * kk;
    let c3 = kk * kq;
    let num = c0 * (p0 as i128) + c1 * (p1 as i128) + c2 * (p2 as i128) + c3 * (p3 as i128);
    assert(nq * nq <= 4_294_967_295 * 4_294_967_295 && nq * nq * nq <= 4_294_967_295
        * 4_294_967_295 * 4_294_967_295) by (nonlinear_arith)
        requires
            0 < nq <= 4_294_967_295,
    ;
    let d = nq * nq * nq;
    assert(d > 0) by (nonlinear_arith)
        requires
            nq > 0,
            d == nq * nq * nq,
    ;
    let q = floor_div(num, d);
    proof {
        // `num` lies within `[-d * MAX_COORD, d * MAX_COORD]`, so its quotient by
        // `d` lies within the coordinate range.
        lemma_fundamental_div_mod(num as int, d as int);
        lemma_mod_bound(num as int, d as int);
        assert(-MAX_COORD <= q <= MAX_COORD) by (nonlinear_arith)
            requires
                num == d * q + num % d,
                0 <= num % d < d,
                -(d * MAX_COORD) <= num <= d * MAX_COORD,
                d > 0,
        ;
    }
    q as i64
}

/// The point of the segment from `a` to `b` at `t = k/n`, rounded down to
/// the coordinate grid. At `k = 0` it is `a`'s `pos` and at `k = n` it is
/// `b`'s `pos`, exactly.
pub fn interpolate(a: &BezPoint, b: &BezPoint, k: u32, n: u32) -> (r: Pos)
    requires
        a.wf(),
        b.wf(),
        0 < n,
        k <= n,
    ensures
        r == spec_interpolate(*a, *b, k as int, n as int),
        r.valid(),
        k == 0 ==> r == a.pos.spec_pos(),
        k == n ==> r == b.pos.spec_pos(),
{
    let x = bez_coord(a.pos.x, a.cp2.x, b.cp1.x, b.pos.x, k, n);
    let y = bez_coord(a.pos.y, a.cp2.y, b.cp1.y, b.pos.y, k, n);
    proof {
        lemma_sample_ends(*a, *b, n as int);
    }
    Pos { x, y }
}

/// A segment starts at its first anchor and ends at its second.
pub proof fn lemma_sample_ends(a: BezPoint, b: BezPoint, n: int)
    requires
        0 < n,
    ensures
        spec_interpolate(a, b, 0, n) == a.pos.spec_pos(),
        spec_interpolate(a, b, n, n) == b.pos.spec_pos(),
{
    assert forall|p0: int, p1: int, p2: int, p3: int|
        bez_at(p0, p1, p2, p3, 0, n) == p0 && bez_at(p0, p1, p2, p3, n, n) == p3 by {
        let d = n * n * n;
        assert(d > 0) by (nonlinear_arith)
            requires
                n > 0,
                d == n * n * n,
        ;
        assert(bez_weighted(p0, p1, p2, p3, 0, n) == d * p0) by (nonlinear_arith)
            requires
                d == n * n * n,
        ;
        assert(bez_weighted(p0, p1, p2, p3, n, n) == d * p3) by (nonlinear_arith)
            requires
                d == n * n * n,
        ;
        lemma_fundamental_div_mod_converse(d * p0, d, p0, 0);
        lemma_fundamental_div_mod_converse(d * p3, d, p3, 0);
    }
}

/// `len * d / mag`, rounded toward zero.
pub open spec fn toward(d: int, len: int, mag: int) -> int {
    if d >= 0 {
        len * d / mag
    } else {
        -(len * (-d) / mag)
    }
}

/// The offset of length about `len` from `center` toward `ctrl`, used to stop a
/// control line short of the handle drawn at `ctrl`. Coincident points have
/// no direction and give a zero offset.
pub fn control_offset(center: Pos, ctrl: Pos, len: u64) -> (r: Pos)
    requires
        center.valid(),
        ctrl.valid(),
        len <= MAX_COORD,
    ensures
        ({
            let dx = ctrl.x - center.x;
            let dy = ctrl.y - center.y;
            let mag = sqrt_floor(dx * dx + dy * dy);
            &&& mag == 0 ==> r == Pos { x: 0, y: 0 }
            &&& mag != 0 ==> r.x == toward(dx, len as int, mag) && r.y == toward(
                dy,
                len as int,
                mag,
            )
        }),
        -(len as int) <= r.x <= len,
        -(len as int) <= r.y <= len,
{
    let dx = ctrl.x - center.x;
    let dy = ctrl.y - center.y;
    let d2 = distance_sq(ctrl, center);
    let mag = isqrt(d2 as u64);
    proof {
        lemma_sqrt_floor(dx * dx + dy * dy, mag as int);
    }
    if mag == 0 {
        return Pos { x: 0, y: 0 };
    }
    let ax = if dx >= 0 { dx } else { -dx };
    let ay = if dy >= 0 { dy } else { -dy };
    assert(ax <= mag && ay <= mag) by (nonlinear_arith)
        requires
            ax == dx || ax == -dx,
            ay == dy || ay == -dy,
            dx * dx + dy * dy < (mag + 1) * (mag + 1),
            ax >= 0,
            ay >= 0,
            mag >= 0,
    ;
    let l = len as u128;
    let m = mag as u128;
    let axq = ax as u128;
    let ayq = ay as u128;
    assert(l * axq <= l * m && l * ayq <= l * m) by (nonlinear_arith)
        requires
            axq <= m,
            ayq <= m,
            l >= 0,
    ;
    assert(l * m <= 1_000_000_000 * 4_294_967_296) by (nonlinear_arith)
        requires
            0 <= l <= 1_000_000_000,
            0 <= m <= 4_294_967_296,
    ;
    let ox = l * axq / m;
    let oy = l * ayq / m;
    assert(ox <= l && oy <= l) by (nonlinear_arith)
        requires
            ox == (l * axq) as int / (m as int),
            oy == (l * ayq) as int / (m as int),
            l * axq <= l * m,
            l * ayq <= l * m,
            m > 0,
    ;
    let x = if dx >= 0 { ox as i64 } else { -(ox as i64) };
    let y = if dy >= 0 { oy as i64 } else { -(oy as i64) };
    Pos { x, y }
}

} // verus!
