//! What a click on the field does in each cursor mode.
use vstd::prelude::*;
use crate::bezier::fresh_anchor;
use crate::geom::Pos;
use crate::mode::CursorMode;
use crate::path::{
    CurveHit, HandleRef, Path, append_cp1, can_append, can_insert, cut, insert_cp1, insert_pos,
    shift_down,
};

verus! {

/// Whether `p` lies on the square field, `size` thousandths wide, whose
/// corner is the origin.
pub open spec fn on_field(p: Pos, size: u32) -> bool {
    0 <= p.x <= size && 0 <= p.y <= size
}

/// The mode in which anchor `i` is drawn while the pointer hovers `hovered`:
/// in `Trim` mode the hovered anchor and every later one are marked as
/// `Trim` (all are about to go) and earlier ones as `Delete` (marked only
/// when hovered); any other mode is drawn as it is.
pub fn display_mode(mode: CursorMode, hovered: Option<HandleRef>, i: usize) -> (r: CursorMode)
    ensures
        mode != CursorMode::Trim ==> r == mode,
        mode == CursorMode::Trim ==> r == if hovered is Some && i >= hovered->0.anchor {
            CursorMode::Trim
        } else {
            CursorMode::Delete
        },
{
    match (mode, hovered) {
        (CursorMode::Trim, Some(h)) => if i >= h.anchor {
            CursorMode::Trim
        } else {
            CursorMode::Delete
        },
        (CursorMode::Trim, None) => CursorMode::Delete,
        _ => mode,
    }
}

impl Path {
    /// Applies a click in `mode`. `at` is the pointer, `hovered` the handle
    /// under it and `curve` the curve sample under it (see `hover` and
    /// `curve_hit`); `size` is the field width and `id` the id a new anchor
    /// gets. `Create` appends an anchor at the pointer unless a handle is
    /// under it or it lies off the field; `Insert` inserts one at the curve
    /// sample; `Delete` removes the hovered anchor; `Trim` removes it and all
    /// after it; `Default` does nothing. Without its target a click does
    /// nothing. The result tells whether the path changed.
    pub fn click(
        &mut self,
        mode: CursorMode,
        at: Option<Pos>,
        hovered: Option<HandleRef>,
        curve: Option<CurveHit>,
        size: u32,
        id: u128,
        now_ms: u64,
    ) -> (r: bool)
        requires
            old(self).wf(),
        ensures
            final(self).wf(),
            mode == CursorMode::Default ==> !r,
            mode == CursorMode::Create ==> {
                let ok = hovered is None && (at matches Some(p) && on_field(p, size) && can_append(
                    old(self).points@,
                    p,
                    id,
                ));
                &&& r == ok
                &&& ok ==> final(self).points@ == old(self).points@.push(
                    fresh_anchor(at->0, append_cp1(old(self).points@, at->0), id, now_ms),
                )
                &&& final(self).selected == old(self).selected
            },
            mode == CursorMode::Delete ==> {
                &&& r == (hovered is Some && hovered->0.anchor < old(self).points@.len())
                &&& r ==> final(self).points@ == old(self).points@.remove(
                    hovered->0.anchor as int,
                ) && final(self).selected == shift_down(
                    old(self).selected,
                    hovered->0.anchor as int,
                )
            },
            mode == CursorMode::Trim ==> {
                &&& r == (hovered is Some && hovered->0.anchor < old(self).points@.len())
                &&& r ==> final(self).points@ == old(self).points@.subrange(
                    0,
                    hovered->0.anchor as int,
                ) && final(self).selected == cut(old(self).selected, hovered->0.anchor as int)
            },
            mode == CursorMode::Insert ==> {
                &&& r == (curve is Some && can_insert(old(self).points@, curve->0, id))
                &&& r ==> final(self).points@ == old(self).points@.insert(
                    curve->0.segment + 1,
                    fresh_anchor(
                        insert_pos(old(self).points@, curve->0),
                        insert_cp1(old(self).points@, curve->0),
                        id,
                        now_ms,
                    ),
                )
            },
            !r ==> final(self).points@ == old(self).points@ && final(self).selected == old(
                self,
            ).selected,
    {
        match mode {
            CursorMode::Create => {
                if hovered.is_some() {
                    return false;
                }
                match at {
                    Some(p) => {
                        if p.x < 0 || p.x > size as i64 || p.y < 0 || p.y > size as i64 {
                            return false;
                        }
                        self.append(p, id, now_ms)
                    },
                    None => false,
                }
            },
            CursorMode::Insert => match curve {
                Some(c) => self.insert(c, id, now_ms),
                None => false,
            },
            CursorMode::Delete => match hovered {
                Some(h) => self.delete(h.anchor),
                None => false,
            },
            CursorMode::Trim => match hovered {
                Some(h) => self.trim(h.anchor),
                None => false,
            },
            CursorMode::Default => false,
        }
    }
}

} // verus!
