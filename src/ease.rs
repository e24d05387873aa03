//! Time-based easing of a displayed count toward a target.
use vstd::prelude::*;

verus! {

/// How long a segment takes to draw in, in milliseconds.
pub const DRAW_IN_MS: u64 = 150;

/// A linear animation from `from` at `start_ms` to `to` after `duration_ms`.
#[derive(Clone, Copy, Debug, PartialEq, Eq, Structural)]
pub struct Easing {
    pub start_ms: u64,
    pub from: u32,
    pub to: u32,
    pub duration_ms: u64,
}

/// Milliseconds of the animation that have run at `now`, clamped to its duration.
pub open spec fn elapsed(e: Easing, now: u64) -> int {
    if now <= e.start_ms {
        0
    } else if now - e.start_ms >= e.duration_ms {
        e.duration_ms as int
    } else {
        now - e.start_ms
    }
}

/// The eased value at `now`, rounded toward `from`.
pub open spec fn eased(e: Easing, now: u64) -> int {
    if e.duration_ms == 0 {
        e.to as int
    } else if e.from <= e.to {
        e.from + (e.to - e.from) * elapsed(e, now) / (e.duration_ms as int)
    } else {
        e.from - (e.from - e.to) * elapsed(e, now) / (e.duration_ms as int)
    }
}

impl Easing {
    /// An animation that rests at `value`.
    pub fn resting(value: u32) -> (r: Easing)
        ensures
            r.from == value,
            r.to == value,
            forall|now: u64| eased(r, now) == value,
    {
        Easing { start_ms: 0, from: value, to: value, duration_ms: 0 }
    }

    /// An animation from `from` to `to` over `duration_ms`, starting at `start_ms`.
    pub fn new(start_ms: u64, from: u32, to: u32, duration_ms: u64) -> (r: Easing)
        ensures
            r == (Easing { start_ms, from, to, duration_ms }),
    {
        Easing { start_ms, from, to, duration_ms }
    }

    /// The value at `now`; it lies between `from` and `to` and equals `to`
    /// once the duration has passed.
    pub fn value_at(&self, now: u64) -> (r: u32)
        ensures
            r == eased(*self, now),
            self.from <= self.to ==> self.from <= r <= self.to,
            self.to <= self.from ==> self.to <= r <= self.from,
            now >= self.start_ms + self.duration_ms ==> r == self.to,
    {
        if self.duration_ms == 0 {
            return self.to;
        }
        let e: u64 = if now <= self.start_ms {
            0
        } else if now - self.start_ms >= self.duration_ms {
            self.duration_ms
        } else {
            now - self.start_ms
        };
        let d = self.duration_ms as u128;
        let ee = e as u128;
        assert(ee == elapsed(*self, now));
        if self.from <= self.to {
            let span = (self.to - self.from) as u128;
            assert(span * ee <= span * d) by (nonlinear_arith)
                requires
                    ee <= d,
            ;
            assert(span * d <= 4_294_967_295u128 * 18_446_744_073_709_551_615u128) by (
            nonlinear_arith)
                requires
                    span <= 4_294_967_295,
                    d <= 18_446_744_073_709_551_615,
            ;
            let step = span * ee / d;
            assert(step <= span && (ee == d ==> step == span)) by (nonlinear_arith)
                requires
                    step == (span * ee) as int / (d as int),
                    span * ee <= span * d,
                    d > 0,
            ;
            assert(step == (self.to - self.from) * elapsed(*self, now) / (self.duration_ms as int));
            self.from + step as u32
        } else {
            let span = (self.from - self.to) as u128;
            assert(span * ee <= span * d) by (nonlinear_arith)
                requires
                    ee <= d,
            ;
            assert(span * d <= 4_294_967_295u128 * 18_446_744_073_709_551_615u128) by (
            nonlinear_arith)
                requires
                    span <= 4_294_967_295,
                    d <= 18_446_744_073_709_551_615,
            ;
            let step = span * ee / d;
            assert(step <= span && (ee == d ==> step == span)) by (nonlinear_arith)
                requires
                    step == (span * ee) as int / (d as int),
                    span * ee <= span * d,
                    d > 0,
            ;
            assert(step == (self.from - self.to) * elapsed(*self, now) / (self.duration_ms as int));
            self.from - step as u32
        }
    }

    /// Points the animation at `to`. A new target restarts it from the value
    /// shown at `now`; the same target leaves it running.
    pub fn retarget(&mut self, now: u64, to: u32)
        ensures
            old(self).to == to ==> *final(self) == *old(self),
            old(self).to != to ==> *final(self) == (Easing {
                start_ms: now,
                from: eased(*old(self), now) as u32,
                to,
                duration_ms: old(self).duration_ms,
            }),
    {
        if self.to != to {
            let v = self.value_at(now);
            *self = Easing { start_ms: now, from: v, to, duration_ms: self.duration_ms };
        }
    }
}

} // verus!
