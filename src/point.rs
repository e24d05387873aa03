//! A single draggable handle and the screen-space hit radius.
use vstd::prelude::*;
use crate::geom::{Pos, coord_ok};
use crate::mode::CursorMode;

verus! {

/// Radius of a resting handle, in thousandths of a display unit.
pub const RADIUS: u64 = 5000;

/// Radius of a hovered or dragged handle, in thousandths of a display unit.
pub const HOVER_RADIUS: u64 = 8000;

/// Hit radius, in display units.
pub const HIT_RADIUS: u128 = 5;

/// How field coordinates map to the display: the field is `size`
/// thousandths of a unit wide and is drawn `scale` display units wide.
#[derive(Clone, Copy, Debug, PartialEq, Eq, Structural)]
pub struct Viewport {
    pub scale: u32,
    pub size: u32,
}

/// A single selectable handle.
#[derive(Clone, Copy, Debug, PartialEq, Eq, Structural)]
pub struct Point {
    pub x: i64,
    pub y: i64,
    /// The pointer is over this handle.
    pub selected: bool,
    /// This handle is held by a drag.
    pub locked: bool,
}

/// Whether a field distance whose square is `d2` lies strictly inside the hit
/// radius once drawn: `sqrt(d2) * scale / size < HIT_RADIUS`.
pub open spec fn spec_within_hit(d2: int, view: Viewport) -> bool {
    d2 * view.scale * view.scale < HIT_RADIUS * HIT_RADIUS * view.size * view.size
}

/// Tests a squared field distance against the display hit radius, exactly.
pub fn within_hit(d2: u128, view: Viewport) -> (r: bool)
    requires
        d2 <= 8_000_000_000_000_000_000,
    ensures
        r == spec_within_hit(d2 as int, view),
{
    let s = view.scale as u128;
    let z = view.size as u128;
    assert(s * s <= 18_446_744_065_119_617_025) by (nonlinear_arith)
        requires
            s <= 4_294_967_295,
    ;
    assert(z * z <= 18_446_744_065_119_617_025) by (nonlinear_arith)
        requires
            z <= 4_294_967_295,
    ;
    assert(d2 * (s * s) <= 8_000_000_000_000_000_000 * 18_446_744_065_119_617_025) by (
    nonlinear_arith)
        requires
            d2 <= 8_000_000_000_000_000_000,
            s * s <= 18_446_744_065_119_617_025,
    ;
    assert(d2 * s * s == d2 * (s * s)) by (nonlinear_arith);
    assert(HIT_RADIUS * HIT_RADIUS * z * z == 25 * (z * z)) by (nonlinear_arith);
    d2 * (s * s) < 25 * (z * z)
}

impl Point {
    pub open spec fn spec_pos(self) -> Pos {
        Pos { x: self.x, y: self.y }
    }

    /// A handle at rest at `(x, y)`.
    pub fn new(x: i64, y: i64) -> (r: Point)
        ensures
            r.x == x,
            r.y == y,
            !r.selected,
            !r.locked,
    {
        Point { x, y, selected: false, locked: false }
    }

    /// A handle at rest at `p`.
    pub fn at(p: Pos) -> (r: Point)
        ensures
            r.spec_pos() == p,
            !r.selected,
            !r.locked,
    {
        Point::new(p.x, p.y)
    }

    pub fn pos(&self) -> (r: Pos)
        ensures
            r == self.spec_pos(),
    {
        Pos { x: self.x, y: self.y }
    }

    /// Offsets the handle by `x` and `y`.
    pub fn offset(&mut self, x: i64, y: i64)
        requires
            coord_ok(old(self).x + x) && coord_ok(old(self).y + y),
        ensures
            final(self).x == old(self).x + x,
            final(self).y == old(self).y + y,
            final(self).selected == old(self).selected,
            final(self).locked == old(self).locked,
    {
        self.x = self.x + x;
        self.y = self.y + y;
    }

    /// Moves the handle to `p`, keeping its flags.
    pub fn set_pos(&mut self, p: Pos)
        ensures
            final(self).spec_pos() == p,
            final(self).selected == old(self).selected,
            final(self).locked == old(self).locked,
    {
        self.x = p.x;
        self.y = p.y;
    }

    pub open spec fn active(self) -> bool {
        self.selected || self.locked
    }

    /// The radius the handle is drawn at once its animation settles.
    pub fn get_radius(&self) -> (r: u64)
        ensures
            r == if self.active() {
                HOVER_RADIUS
            } else {
                RADIUS
            },
    {
        if self.selected || self.locked {
            HOVER_RADIUS
        } else {
            RADIUS
        }
    }

    /// Whether the handle is drawn enlarged in `mode`.
    pub fn emphasized(&self, mode: CursorMode) -> (r: bool)
        ensures
            r == (!mode.spec_quiet_hover() && self.active()),
    {
        !mode.quiet_hover() && (self.selected || self.locked)
    }
}

} // verus!
