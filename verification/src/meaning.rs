//! What an expression means: its value at every position of a batch. The
//! positions are taken together, because normalisation rescales each value
//! between the least and the greatest value found in the whole batch.

use vstd::prelude::*;
use crate::expr::{Binary, IExpr, Position, Unary, VExpr};

verus! {

/// One value per colour channel: red, green, blue.
pub type Triple = (i32, i32, i32);

/// The same scalar in every channel.
pub open spec fn splat(n: i32) -> Triple {
    (n, n, n)
}

/// `op` applied to each channel on its own.
pub open spec fn map_unary(op: Unary, v: Triple) -> Triple {
    (op.eval_spec(v.0), op.eval_spec(v.1), op.eval_spec(v.2))
}

/// `op` applied to the two operands channel by channel.
pub open spec fn zip_binary(op: Binary, a: Triple, b: Triple) -> Triple {
    (op.eval_spec(a.0, b.0), op.eval_spec(a.1, b.1), op.eval_spec(a.2, b.2))
}

/// Per channel, `chosen` where the condition is strictly positive and
/// `otherwise` elsewhere.
pub open spec fn select(cond: Triple, chosen: Triple, otherwise: Triple) -> Triple {
    (
        if cond.0 > 0 { chosen.0 } else { otherwise.0 },
        if cond.1 > 0 { chosen.1 } else { otherwise.1 },
        if cond.2 > 0 { chosen.2 } else { otherwise.2 },
    )
}

/// The channel `c` of a triple: 0 for red, 1 for green, 2 for blue.
pub open spec fn channel(v: Triple, c: int) -> i32 {
    if c == 0 {
        v.0
    } else if c == 1 {
        v.1
    } else {
        v.2
    }
}

/// The scalar is a byte.
pub open spec fn is_byte(n: i32) -> bool {
    0 <= n <= 255
}

/// The smaller of two scalars.
pub open spec fn lesser(a: i32, b: i32) -> i32 {
    if b < a { b } else { a }
}

/// The larger of two scalars.
pub open spec fn greater(a: i32, b: i32) -> i32 {
    if b > a { b } else { a }
}

/// Per channel, the least value in `vals`; the largest scalar where `vals`
/// is empty.
pub open spec fn lows(vals: Seq<Triple>) -> Triple
    decreases vals.len(),
{
    if vals.len() == 0 {
        splat(i32::MAX)
    } else {
        let rest = lows(vals.drop_last());
        let v = vals.last();
        (lesser(rest.0, v.0), lesser(rest.1, v.1), lesser(rest.2, v.2))
    }
}

/// Per channel, the greatest value in `vals`; the smallest scalar where
/// `vals` is empty.
pub open spec fn highs(vals: Seq<Triple>) -> Triple
    decreases vals.len(),
{
    if vals.len() == 0 {
        splat(i32::MIN)
    } else {
        let rest = highs(vals.drop_last());
        let v = vals.last();
        (greater(rest.0, v.0), greater(rest.1, v.1), greater(rest.2, v.2))
    }
}

/// The place of `v` between `lo` and `hi`, stretched onto 0..=255 and
/// rounded to the nearest integer, the lower one where two are equally
/// near. Where the two ends meet, the midpoint 127.
pub open spec fn scale_spec(v: i32, lo: i32, hi: i32) -> i32 {
    if hi == lo {
        127
    } else {
        ((2 * 255 * (v - lo) + (hi - lo) - 1) / (2 * (hi - lo))) as i32
    }
}

/// `v` with each channel scaled between that channel's ends.
pub open spec fn scale_triple(v: Triple, lo: Triple, hi: Triple) -> Triple {
    (scale_spec(v.0, lo.0, hi.0), scale_spec(v.1, lo.1, hi.1), scale_spec(v.2, lo.2, hi.2))
}

/// Every value scaled between the least and the greatest value that its
/// channel takes anywhere in `vals`.
pub open spec fn normalized(vals: Seq<Triple>) -> Seq<Triple> {
    Seq::new(vals.len(), |k: int| scale_triple(vals[k], lows(vals), highs(vals)))
}

impl IExpr {
    /// The expression's value at each of the positions `ps`, in order.
    pub open spec fn values(self, ps: Seq<Position>) -> Seq<Triple>
        decreases self,
    {
        match self {
            IExpr::Lit(n) => Seq::new(ps.len(), |k: int| splat(n)),
            IExpr::Rgb(c) => Seq::new(ps.len(), |k: int| (c[0] as i32, c[1] as i32, c[2] as i32)),
            IExpr::PixelX => Seq::new(ps.len(), |k: int| splat(ps[k].0)),
            IExpr::PixelY => Seq::new(ps.len(), |k: int| splat(ps[k].1)),
            IExpr::Channel => Seq::new(ps.len(), |k: int| (-1i32, 0i32, 1i32)),
            IExpr::Scale256(e) => normalized(e.values(ps)),
            IExpr::UnaryI(op, e) => {
                let x = e.values(ps);
                Seq::new(ps.len(), |k: int| map_unary(op, x[k]))
            },
            IExpr::BinaryI(op, a, b) => {
                let x = a.values(ps);
                let y = b.values(ps);
                Seq::new(ps.len(), |k: int| zip_binary(op, x[k], y[k]))
            },
            IExpr::BinaryV(op, v) => {
                let p = v.values(ps);
                Seq::new(ps.len(), |k: int| zip_binary(op, p[k].0, p[k].1))
            },
            IExpr::IfThenElseI(c, t, e) => {
                let cond = c.values(ps);
                let x = t.values(ps);
                let y = e.values(ps);
                Seq::new(ps.len(), |k: int| select(cond[k], x[k], y[k]))
            },
            IExpr::IfThenElseV(c, v) => {
                let cond = c.values(ps);
                let p = v.values(ps);
                Seq::new(ps.len(), |k: int| select(cond[k], p[k].0, p[k].1))
            },
        }
    }

    /// An expression has one value for each position.
    pub proof fn lemma_values_len(self, ps: Seq<Position>)
        ensures
            self.values(ps).len() == ps.len(),
        decreases self,
    {
        match self {
            IExpr::Scale256(e) => {
                e.lemma_values_len(ps);
            },
            _ => {},
        }
    }

    /// Under a root that is normalisation, remainder by 256 or clamping,
    /// every channel of every value is a byte.
    pub proof fn lemma_wrapped_root_gives_bytes(self, ps: Seq<Position>, k: int)
        requires
            self.byte_ranged(),
            0 <= k < ps.len(),
        ensures
            is_byte(self.values(ps)[k].0),
            is_byte(self.values(ps)[k].1),
            is_byte(self.values(ps)[k].2),
    {
        match self {
            IExpr::Scale256(e) => {
                let vals = e.values(ps);
                e.lemma_values_len(ps);
                lemma_ends_enclose(vals, k);
                lemma_scale_is_byte(vals[k].0, lows(vals).0, highs(vals).0);
                lemma_scale_is_byte(vals[k].1, lows(vals).1, highs(vals).1);
                lemma_scale_is_byte(vals[k].2, lows(vals).2, highs(vals).2);
            },
            _ => {},
        }
    }
}

impl VExpr {
    /// The expression's pair of values at each of the positions `ps`, in
    /// order.
    pub open spec fn values(self, ps: Seq<Position>) -> Seq<(Triple, Triple)>
        decreases self,
    {
        match self {
            VExpr::Pixel => Seq::new(ps.len(), |k: int| (splat(ps[k].0), splat(ps[k].1))),
            VExpr::Swap(v) => {
                let p = v.values(ps);
                Seq::new(ps.len(), |k: int| (p[k].1, p[k].0))
            },
            VExpr::BinaryI(op_1, op_2, a, b) => {
                let x = a.values(ps);
                let y = b.values(ps);
                Seq::new(
                    ps.len(),
                    |k: int| (zip_binary(op_1, x[k], y[k]), zip_binary(op_2, x[k], y[k])),
                )
            },
            VExpr::UnaryV(op, v) => {
                let p = v.values(ps);
                Seq::new(ps.len(), |k: int| (map_unary(op, p[k].0), map_unary(op, p[k].1)))
            },
            VExpr::BinaryV(op, a, b) => {
                let p = a.values(ps);
                let q = b.values(ps);
                Seq::new(
                    ps.len(),
                    |k: int| (zip_binary(op, p[k].0, q[k].0), zip_binary(op, p[k].1, q[k].1)),
                )
            },
            VExpr::IfThenElseI(c, t, e) => {
                let cond = c.values(ps);
                let p = t.values(ps);
                let q = e.values(ps);
                Seq::new(
                    ps.len(),
                    |k: int| (select(cond[k], p[k].0, q[k].0), select(cond[k], p[k].1, q[k].1)),
                )
            },
            VExpr::IfThenElseV(c, t, e) => {
                let cond = c.values(ps);
                let p = t.values(ps);
                let q = e.values(ps);
                Seq::new(
                    ps.len(),
                    |k: int| (select(cond[k].0, p[k].0, q[k].0), select(cond[k].1, p[k].1, q[k].1)),
                )
            },
        }
    }
}

/// Per channel, no value of `vals` lies below `lows` or above `highs`.
pub proof fn lemma_ends_enclose(vals: Seq<Triple>, k: int)
    requires
        0 <= k < vals.len(),
    ensures
        lows(vals).0 <= vals[k].0 <= highs(vals).0,
        lows(vals).1 <= vals[k].1 <= highs(vals).1,
        lows(vals).2 <= vals[k].2 <= highs(vals).2,
    decreases vals.len(),
{
    if k < vals.len() - 1 {
        lemma_ends_enclose(vals.drop_last(), k);
    }
}

/// A scaled value is a byte whenever the value lies between the two ends.
pub proof fn lemma_scale_is_byte(v: i32, lo: i32, hi: i32)
    requires
        lo <= v <= hi,
    ensures
        0 <= scale_spec(v, lo, hi) <= 255,
{
    if hi != lo {
        let offset = v - lo;
        let range = hi - lo;
        assert(0 <= (2 * 255 * offset + range - 1) / (2 * range) <= 255) by (nonlinear_arith)
            requires
                0 <= offset <= range,
                0 < range,
        ;
    }
}

/// Between two different ends, the scaled value is the integer nearest to
/// `255 * (v - lo) / (hi - lo)`: it lies no more than one half away, and
/// less than one half above.
pub proof fn lemma_scale_is_nearest(v: i32, lo: i32, hi: i32)
    requires
        lo <= v <= hi,
        lo < hi,
    ensures
        2 * 255 * (v - lo) - (hi - lo) <= 2 * (hi - lo) * scale_spec(v, lo, hi),
        2 * (hi - lo) * scale_spec(v, lo, hi) < 2 * 255 * (v - lo) + (hi - lo),
{
    lemma_scale_is_byte(v, lo, hi);
    let offset = v - lo;
    let range = hi - lo;
    let r = (2 * 255 * offset + range - 1) / (2 * range);
    assert(0 <= r <= 255 && 2 * 255 * offset - range <= 2 * range * r && 2 * range * r < 2 * 255
        * offset + range) by (nonlinear_arith)
        requires
            0 <= offset <= range,
            0 < range,
            r == (2 * 255 * offset + range - 1) / (2 * range),
    ;
}

/// Where a channel has the same value at every position, its two ends are
/// that value.
proof fn lemma_constant_channel_ends(vals: Seq<Triple>, c: int)
    requires
        0 <= c < 3,
        vals.len() > 0,
        forall|i: int| 0 <= i < vals.len() ==> channel(#[trigger] vals[i], c) == channel(vals[0], c),
    ensures
        channel(lows(vals), c) == channel(vals[0], c),
        channel(highs(vals), c) == channel(vals[0], c),
    decreases vals.len(),
{
    if vals.len() > 1 {
        let front = vals.drop_last();
        assert forall|i: int| 0 <= i < front.len() implies channel(#[trigger] front[i], c) == channel(
            front[0],
            c,
        ) by {
            assert(front[i] == vals[i]);
        }
        lemma_constant_channel_ends(front, c);
        assert(front[0] == vals[0]);
        assert(channel(vals.last(), c) == channel(vals[0], c));
    } else {
        assert(lows(vals.drop_last()) == splat(i32::MAX));
        assert(highs(vals.drop_last()) == splat(i32::MIN));
        assert(vals.last() == vals[0]);
    }
}

/// Normalising a channel that has the same value at every position puts
/// the midpoint 127 at every position.
pub proof fn lemma_constant_channel_scales_to_midpoint(vals: Seq<Triple>, c: int, k: int)
    requires
        0 <= c < 3,
        0 <= k < vals.len(),
        forall|i: int| 0 <= i < vals.len() ==> channel(#[trigger] vals[i], c) == channel(vals[0], c),
    ensures
        channel(normalized(vals)[k], c) == 127,
{
    lemma_constant_channel_ends(vals, c);
}

} // verus!
