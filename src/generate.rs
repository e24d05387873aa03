//! The motion program generated from a path.
use vstd::prelude::*;
use vstd::string::StringExecFns;
use crate::bezier::BezPoint;
use crate::geom::{MAX_COORD, Pos};

verus! {

/// The character of decimal digit `d`.
pub open spec fn digit_char(d: int) -> char {
    if d == 0 {
        '0'
    } else if d == 1 {
        '1'
    } else if d == 2 {
        '2'
    } else if d == 3 {
        '3'
    } else if d == 4 {
        '4'
    } else if d == 5 {
        '5'
    } else if d == 6 {
        '6'
    } else if d == 7 {
        '7'
    } else if d == 8 {
        '8'
    } else {
        '9'
    }
}

/// The decimal digits of `n`, most significant first, without leading zeros.
pub open spec fn digits(n: nat) -> Seq<char>
    decreases n,
{
    if n < 10 {
        seq![digit_char(n as int)]
    } else {
        digits(n / 10) + seq![digit_char((n % 10) as int)]
    }
}

/// `v` thousandths as a decimal with exactly three fractional digits.
pub open spec fn fixed3(v: int) -> Seq<char> {
    let a = if v < 0 {
        -v
    } else {
        v
    };
    let f = a % 1000;
    (if v < 0 {
        seq!['-']
    } else {
        Seq::<char>::empty()
    }) + digits((a / 1000) as nat) + seq![
        '.',
        digit_char(f / 100),
        digit_char(f / 10 % 10),
        digit_char(f % 10),
    ]
}

/// `v` thousandths as a short decimal: no trailing fractional zeros, and no
/// point at all for a whole number.
pub open spec fn short_decimal(v: nat) -> Seq<char> {
    let f = (v % 1000) as int;
    digits(v / 1000) + if f == 0 {
        Seq::<char>::empty()
    } else if f % 100 == 0 {
        seq!['.', digit_char(f / 100)]
    } else if f % 10 == 0 {
        seq!['.', digit_char(f / 100), digit_char(f / 10 % 10)]
    } else {
        seq!['.', digit_char(f / 100), digit_char(f / 10 % 10), digit_char(f % 10)]
    }
}

/// A coordinate pair in inches: `{x_in, y_in}`.
#[verifier::opaque]
pub open spec fn pair_text(p: Pos) -> Seq<char> {
    "{"@ + fixed3(p.x as int) + "_in, "@ + fixed3(p.y as int) + "_in}"@
}

/// One motion segment: the start anchor, its exit control, the end anchor's
/// entry control and the end anchor, in that order.
#[verifier::opaque]
pub open spec fn segment_text(a: BezPoint, b: BezPoint) -> Seq<char> {
    "    {"@ + pair_text(a.pos.spec_pos()) + ", "@ + pair_text(a.cp2.spec_pos()) + ", "@ + pair_text(
        b.cp1.spec_pos(),
    ) + ", "@ + pair_text(b.pos.spec_pos()) + "}"@
}

/// The first `n` segments of `s`, separated by a comma and a line break.
pub open spec fn segments_text(s: Seq<BezPoint>, n: int) -> Seq<char>
    decreases n,
{
    if n <= 0 {
        Seq::<char>::empty()
    } else if n == 1 {
        segment_text(s[0], s[1])
    } else {
        segments_text(s, n - 1) + ",\n"@ + segment_text(s[n - 1], s[n])
    }
}

/// The motion program of `s` with step `step` thousandths. A path with fewer
/// than two anchors has no segment and gives the empty form of the template.
pub open spec fn program(s: Seq<BezPoint>, step: u32) -> Seq<char> {
    if s.len() < 2 {
        "std::vector<wolflib::Moment> = wolf.solve({}, "@ + short_decimal(step as nat) + ");"@
    } else {
        "std::vector<wolflib::Moment> = wolf.solve({\n"@ + segments_text(s, s.len() - 1) + "}, "@
            + short_decimal(step as nat) + ");"@
    }
}

/// Appends the digit `d`.
fn push_digit(out: &mut String, d: u64)
    requires
        d < 10,
    ensures
        final(out)@ == old(out)@ + seq![digit_char(d as int)],
{
    let s = match d {
        0 => "0",
        1 => "1",
        2 => "2",
        3 => "3",
        4 => "4",
        5 => "5",
        6 => "6",
        7 => "7",
        8 => "8",
        _ => "9",
    };
    proof {
        reveal_strlit("0");
        reveal_strlit("1");
        reveal_strlit("2");
        reveal_strlit("3");
        reveal_strlit("4");
        reveal_strlit("5");
        reveal_strlit("6");
        reveal_strlit("7");
        reveal_strlit("8");
        reveal_strlit("9");
    }
    out.append(s);
    assert(s@ =~= seq![digit_char(d as int)]);
}

/// Appends the decimal digits of `n`.
fn push_digits(out: &mut String, n: u64)
    ensures
        final(out)@ == old(out)@ + digits(n as nat),
    decreases n,
{
    if n >= 10 {
        push_digits(out, n / 10);
        push_digit(out, n % 10);
        assert(final(out)@ =~= old(out)@ + digits(n as nat));
    } else {
        push_digit(out, n);
    }
}

/// Appends `v` thousandths with three fractional digits.
fn push_fixed3(out: &mut String, v: i64)
    requires
        -MAX_COORD <= v <= MAX_COORD,
    ensures
        final(out)@ == old(out)@ + fixed3(v as int),
{
    let a: u64 = if v < 0 {
        (-v) as u64
    } else {
        v as u64
    };
    if v < 0 {
        out.append("-");
        proof {
            reveal_strlit("-");
        }
    }
    push_digits(out, a / 1000);
    out.append(".");
    proof {
        reveal_strlit(".");
    }
    let f = a % 1000;
    push_digit(out, f / 100);
    push_digit(out, f / 10 % 10);
    push_digit(out, f % 10);
    assert(out@ =~= old(out)@ + fixed3(v as int));
}

/// Appends `v` thousandths as a short decimal.
fn push_short_decimal(out: &mut String, v: u32)
    ensures
        final(out)@ == old(out)@ + short_decimal(v as nat),
{
    let v = v as u64;
    push_digits(out, v / 1000);
    let f = v % 1000;
    proof {
        reveal_strlit(".");
    }
    if f != 0 {
        out.append(".");
        push_digit(out, f / 100);
        if f % 100 != 0 {
            push_digit(out, f / 10 % 10);
            if f % 10 != 0 {
                push_digit(out, f % 10);
            }
        }
    }
    assert(out@ =~= old(out)@ + short_decimal(v as nat));
}

/// Appends a coordinate pair in inches.
fn push_pair(out: &mut String, p: Pos)
    requires
        p.valid(),
    ensures
        final(out)@ == old(out)@ + pair_text(p),
{
    out.append("{");
    push_fixed3(out, p.x);
    out.append("_in, ");
    push_fixed3(out, p.y);
    out.append("_in}");
    reveal(pair_text);
    assert(out@ =~= old(out)@ + pair_text(p));
}

/// Appends one motion segment.
fn push_segment(out: &mut String, a: &BezPoint, b: &BezPoint)
    requires
        a.wf(),
        b.wf(),
    ensures
        final(out)@ == old(out)@ + segment_text(*a, *b),
{
    out.append("    {");
    push_pair(out, a.pos.pos());
    out.append(", ");
    push_pair(out, a.cp2.pos());
    out.append(", ");
    push_pair(out, b.cp1.pos());
    out.append(", ");
    push_pair(out, b.pos.pos());
    out.append("}");
    reveal(segment_text);
    assert(out@ =~= old(out)@ + segment_text(*a, *b));
}

/// Generates the motion program of a path: each pair of adjacent anchors
/// becomes one segment, with coordinates printed to three decimals, and
/// `step` (in thousandths) closes the call.
pub fn generate(path: &[BezPoint], step: u32) -> (r: String)
    requires
        forall|i: int| 0 <= i < path@.len() ==> (#[trigger] path@[i]).wf(),
    ensures
        r@ == program(path@, step),
{
    let n = path.len();
    if n < 2 {
        let mut out = String::from_str("std::vector<wolflib::Moment> = wolf.solve({}, ");
        push_short_decimal(&mut out, step);
        out.append(");");
        return out;
    }
    let mut out = String::from_str("std::vector<wolflib::Moment> = wolf.solve({\n");
    let ghost head = out@;
    let mut idx: usize = 0;
    while idx + 1 < n
        invariant
            n == path@.len(),
            n >= 2,
            idx + 1 <= n,
            forall|i: int| 0 <= i < path@.len() ==> (#[trigger] path@[i]).wf(),
            out@ == head + segments_text(path@, idx as int),
        decreases n - idx,
    {
        let a = &path[idx];
        let b = &path[idx + 1];
        assert(a.wf() && b.wf()) by {
            assert(path@[idx as int].wf());
            assert(path@[idx + 1].wf());
        }
        let ghost done = segments_text(path@, idx as int);
        if idx > 0 {
            out.append(",\n");
        }
        push_segment(&mut out, a, b);
        proof {
            let seg = segment_text(path@[idx as int], path@[idx + 1]);
            if idx == 0 {
                assert(segments_text(path@, 1) == seg);
                assert(done =~= Seq::<char>::empty());
                assert(out@ =~= head + segments_text(path@, 1));
            } else {
                assert(segments_text(path@, idx + 1) == done + ",\n"@ + seg);
                assert(out@ =~= head + segments_text(path@, idx + 1));
            }
        }
        idx = idx + 1;
    }
    out.append("}, ");
    push_short_decimal(&mut out, step);
    out.append(");");
    assert(out@ =~= program(path@, step));
    out
}

} // verus!
