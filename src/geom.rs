//! Fixed-point positions and the integer geometry the path model is built on.
use vstd::prelude::*;

verus! {

/// Largest magnitude a handle coordinate may have, in thousandths of a unit.
pub const MAX_COORD: i64 = 1_000_000_000;

/// Thousandths per field unit.
pub const MILLI: i64 = 1000;

/// A position in field coordinates, in thousandths of a unit.
#[derive(Clone, Copy, Debug, PartialEq, Eq, Structural)]
pub struct Pos {
    pub x: i64,
    pub y: i64,
}

/// A coordinate that a handle may hold.
pub open spec fn coord_ok(v: int) -> bool {
    -MAX_COORD <= v <= MAX_COORD
}

impl Pos {
    pub open spec fn valid(self) -> bool {
        coord_ok(self.x as int) && coord_ok(self.y as int)
    }

    pub fn new(x: i64, y: i64) -> (r: Pos)
        ensures
            r.x == x,
            r.y == y,
    {
        Pos { x, y }
    }

    /// Whether both coordinates lie within the handle range.
    pub fn is_valid(&self) -> (r: bool)
        ensures
            r == self.valid(),
    {
        -MAX_COORD <= self.x && self.x <= MAX_COORD && -MAX_COORD <= self.y && self.y <= MAX_COORD
    }
}

/// Squared Euclidean distance between two positions.
pub open spec fn dist_sq(a: Pos, b: Pos) -> int {
    (a.x - b.x) * (a.x - b.x) + (a.y - b.y) * (a.y - b.y)
}

/// The reflection of `c` through `p`, as exact integers.
pub open spec fn mirror_x(p: int, c: int) -> int {
    2 * p - c
}

pub open spec fn spec_mirror(p: Pos, c: Pos) -> (int, int) {
    (mirror_x(p.x as int, c.x as int), mirror_x(p.y as int, c.y as int))
}

/// Whether `q` is the reflection of `c` through `p`.
pub open spec fn is_mirror(p: Pos, c: Pos, q: Pos) -> bool {
    q.x == mirror_x(p.x as int, c.x as int) && q.y == mirror_x(p.y as int, c.y as int)
}

/// Reflects `c` through `p`; `None` when the reflection leaves the handle range.
pub fn mirror(p: Pos, c: Pos) -> (r: Option<Pos>)
    requires
        p.valid(),
        c.valid(),
    ensures
        r is Some <==> coord_ok(mirror_x(p.x as int, c.x as int)) && coord_ok(
            mirror_x(p.y as int, c.y as int),
        ),
        r matches Some(q) ==> is_mirror(p, c, q) && q.valid(),
{
    let x = 2 * p.x - c.x;
    let y = 2 * p.y - c.y;
    let q = Pos { x, y };
    if q.is_valid() {
        Some(q)
    } else {
        None
    }
}

/// Translates `c` by `to - from`; `None` when the result leaves the handle range.
pub fn translate(c: Pos, from: Pos, to: Pos) -> (r: Option<Pos>)
    requires
        c.valid(),
        from.valid(),
        to.valid(),
    ensures
        r is Some <==> coord_ok(c.x + (to.x - from.x)) && coord_ok(c.y + (to.y - from.y)),
        r matches Some(q) ==> q.x == c.x + (to.x - from.x) && q.y == c.y + (to.y - from.y)
            && q.valid(),
{
    let x = c.x + (to.x - from.x);
    let y = c.y + (to.y - from.y);
    let q = Pos { x, y };
    if q.is_valid() {
        Some(q)
    } else {
        None
    }
}

/// Squared distance between two valid positions.
pub fn distance_sq(a: Pos, b: Pos) -> (r: u128)
    requires
        a.valid(),
        b.valid(),
    ensures
        r == dist_sq(a, b),
        r <= 8_000_000_000_000_000_000,
{
    let dx = (a.x - b.x) as i128;
    let dy = (a.y - b.y) as i128;
    assert(dx * dx <= 4_000_000_000_000_000_000) by (nonlinear_arith)
        requires
            -2_000_000_000 <= dx <= 2_000_000_000,
    ;
    assert(dy * dy <= 4_000_000_000_000_000_000) by (nonlinear_arith)
        requires
            -2_000_000_000 <= dy <= 2_000_000_000,
    ;
    assert(dx * dx >= 0 && dy * dy >= 0) by (nonlinear_arith);
    (dx * dx + dy * dy) as u128
}

/// The largest integer whose square does not exceed `n`.
pub open spec fn is_isqrt(n: int, r: int) -> bool {
    0 <= r && r * r <= n < (r + 1) * (r + 1)
}

/// The square root of `n`, rounded down.
pub open spec fn sqrt_floor(n: int) -> int {
    choose|r: int| is_isqrt(n, r)
}

/// There is one integer square root, rounded down.
pub proof fn lemma_sqrt_floor(n: int, r: int)
    requires
        is_isqrt(n, r),
    ensures
        sqrt_floor(n) == r,
{
    assert forall|s: int| is_isqrt(n, s) implies s == r by {
        if s < r {
            assert((s + 1) * (s + 1) <= r * r) by (nonlinear_arith)
                requires
                    0 <= s < r,
            ;
        } else if s > r {
            assert((r + 1) * (r + 1) <= s * s) by (nonlinear_arith)
                requires
                    0 <= r < s,
            ;
        }
    }
    assert(is_isqrt(n, sqrt_floor(n)));
}

/// Integer square root, rounding down.
pub fn isqrt(n: u64) -> (r: u64)
    ensures
        is_isqrt(n as int, r as int),
        r == sqrt_floor(n as int),
        r < 4_294_967_296,
{
    let mut lo: u64 = 0;
    let mut hi: u64 = 4_294_967_296;
    assert(4_294_967_296 * 4_294_967_296 > u64::MAX);
    while hi - lo > 1
        invariant
            lo < hi <= 4_294_967_296,
            lo * lo <= n,
            n < hi * hi,
        decreases hi - lo,
    {
        let mid = lo + (hi - lo) / 2;
        assert(mid * mid <= 4_294_967_295u64 * 4_294_967_295u64) by (nonlinear_arith)
            requires
                mid <= 4_294_967_295,
        ;
        if mid * mid <= n {
            lo = mid;
        } else {
            hi = mid;
        }
    }
    proof {
        lemma_sqrt_floor(n as int, lo as int);
    }
    lo
}

} // verus!
