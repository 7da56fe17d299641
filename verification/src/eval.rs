//! The batch evaluator: a stack machine that runs one expression over all
//! positions at once.

use vstd::prelude::*;
use crate::expr::{Binary, IExpr, Position, Unary, VExpr};
use crate::meaning::{highs, is_byte, lemma_ends_enclose, lemma_scale_is_byte, lows, map_unary};
use crate::meaning::{normalized, scale_spec, select, splat, zip_binary, Triple};

verus! {

/// The colour of one position: red, green, blue.
pub type Color = [i32; 3];

/// The three channels of a colour.
pub open spec fn color_triple(c: Color) -> Triple {
    (c[0], c[1], c[2])
}

/// A value on a position's stack. `Same` stands for a triple whose three
/// channels are equal; the two forms of such a triple mean the same.
#[derive(Clone, Copy, Debug)]
pub enum StackItem {
    Same(i32),
    Rgb(i32, i32, i32),
}

impl View for StackItem {
    type V = Triple;

    open spec fn view(&self) -> Triple {
        match *self {
            StackItem::Same(n) => splat(n),
            StackItem::Rgb(r, g, b) => (r, g, b),
        }
    }
}

impl StackItem {
    /// The three channels of the item.
    pub fn rgb(self) -> (c: Color)
        ensures
            color_triple(c) == self@,
    {
        match self {
            StackItem::Same(n) => [n, n, n],
            StackItem::Rgb(r, g, b) => [r, g, b],
        }
    }

    /// Applies `op` to every channel. A single scalar stays a single
    /// scalar.
    pub fn eval_unary(self, op: Unary) -> (r: Self)
        requires
            op.well_formed(),
        ensures
            r@ == map_unary(op, self@),
            self is Same ==> r is Same,
    {
        match self {
            StackItem::Same(n) => StackItem::Same(op.eval(n)),
            StackItem::Rgb(r, g, b) => StackItem::Rgb(op.eval(r), op.eval(g), op.eval(b)),
        }
    }

    /// Applies `op` channel by channel, with `self` on the left. Two single
    /// scalars give a single scalar; a single scalar beside a triple counts
    /// for every channel.
    pub fn eval_binary(self, other: Self, op: Binary) -> (r: Self)
        ensures
            r@ == zip_binary(op, self@, other@),
            self is Same && other is Same ==> r is Same,
    {
        match (self, other) {
            (StackItem::Same(n1), StackItem::Same(n2)) => StackItem::Same(op.eval(n1, n2)),
            (StackItem::Same(n), StackItem::Rgb(r, g, b)) => StackItem::Rgb(
                op.eval(n, r),
                op.eval(n, g),
                op.eval(n, b),
            ),
            (StackItem::Rgb(r, g, b), StackItem::Same(n)) => StackItem::Rgb(
                op.eval(r, n),
                op.eval(g, n),
                op.eval(b, n),
            ),
            (StackItem::Rgb(r1, g1, b1), StackItem::Rgb(r2, g2, b2)) => StackItem::Rgb(
                op.eval(r1, r2),
                op.eval(g1, g2),
                op.eval(b1, b2),
            ),
        }
    }

    /// Chooses per channel between `chosen` and `otherwise` by the sign of
    /// the condition `self`.
    pub fn choose_by(self, chosen: Self, otherwise: Self) -> (r: Self)
        ensures
            r@ == select(self@, chosen@, otherwise@),
    {
        let c = self.rgb();
        let t = chosen.rgb();
        let e = otherwise.rgb();
        StackItem::Rgb(
            if c[0] > 0 { t[0] } else { e[0] },
            if c[1] > 0 { t[1] } else { e[1] },
            if c[2] > 0 { t[2] } else { e[2] },
        )
    }
}

/// The triples that a stack of items stands for, bottom first.
pub open spec fn stack_values(stack: Seq<StackItem>) -> Seq<Triple> {
    Seq::new(stack.len(), |i: int| stack[i]@)
}

/// One position of a batch with its value stack.
pub struct BatchEntry {
    pub pos: Position,
    pub stack: Vec<StackItem>,
}

impl BatchEntry {
    /// The triples on the stack, bottom first.
    pub open spec fn values(self) -> Seq<Triple> {
        stack_values(self.stack@)
    }

    /// The number of items on the stack.
    pub fn len(&self) -> (n: usize)
        ensures
            n == self.stack@.len(),
    {
        self.stack.len()
    }

    /// Puts `item` on top of the stack.
    pub fn push(&mut self, item: StackItem)
        ensures
            final(self).pos == old(self).pos,
            final(self).stack@ == old(self).stack@.push(item),
    {
        self.stack.push(item);
    }

    /// Takes the topmost item off.
    pub fn pop(&mut self) -> (item: StackItem)
        requires
            old(self).stack@.len() >= 1,
        ensures
            final(self).pos == old(self).pos,
            final(self).stack@ == old(self).stack@.drop_last(),
            item == old(self).stack@.last(),
    {
        self.stack.pop().unwrap()
    }

    /// Takes the two topmost items off; the lower one comes first.
    pub fn pop_2(&mut self) -> (items: (StackItem, StackItem))
        requires
            old(self).stack@.len() >= 2,
        ensures
            final(self).pos == old(self).pos,
            final(self).stack@ == old(self).stack@.take(old(self).stack@.len() - 2),
            items.0 == old(self).stack@[old(self).stack@.len() - 2],
            items.1 == old(self).stack@[old(self).stack@.len() - 1],
    {
        let a = self.pop();
        let b = self.pop();
        (b, a)
    }

    /// The item that lies `idx_from_back` below the top.
    pub fn get(&self, idx_from_back: usize) -> (item: StackItem)
        requires
            idx_from_back < self.stack@.len(),
        ensures
            item == self.stack@[self.stack@.len() - 1 - idx_from_back],
    {
        let idx = self.len() - 1 - idx_from_back;
        self.stack[idx]
    }

    /// The place of the item that lies `idx_from_back` below the top.
    pub fn get_mut(&mut self, idx_from_back: usize) -> (item: &mut StackItem)
        requires
            idx_from_back < old(self).stack@.len(),
        ensures
            *item == old(self).stack@[old(self).stack@.len() - 1 - idx_from_back],
            final(self).pos == old(self).pos,
            final(self).stack@ == old(self).stack@.update(
                old(self).stack@.len() - 1 - idx_from_back,
                *final(item),
            ),
    {
        let idx = self.len() - 1 - idx_from_back;
        &mut self.stack[idx]
    }
}

/// What one visit of a node does to the stack of every position.
#[derive(Clone, Copy, Debug)]
pub enum Step {
    /// Pushes a constant scalar.
    Lit(i32),
    /// Pushes a constant triple.
    Rgb(u8, u8, u8),
    /// Pushes the position's column.
    PixelX,
    /// Pushes the position's row.
    PixelY,
    /// Pushes the triple that tells the channels apart: -1, 0, 1.
    Channel,
    /// Pushes the column, then the row.
    Pixel,
    /// Exchanges the two topmost values.
    Swap,
    /// Replaces the topmost value by the operator's result.
    Unary(Unary),
    /// Applies the operator to each of the two topmost values.
    UnaryBoth(Unary),
    /// Replaces the two topmost values by the operator's result.
    Binary(Binary),
    /// Replaces the two topmost values by the results of two operators.
    BinaryTwice(Binary, Binary),
    /// Combines the two topmost pairs component by component.
    BinaryPairs(Binary),
    /// Replaces condition, first and second value by the selected one.
    Select,
    /// Selects between two pairs by one condition below them.
    SelectPair,
    /// Selects between two pairs by a pair of conditions below them.
    SelectPairs,
}

impl Step {
    /// How many values the step takes off the stack.
    pub open spec fn takes(self) -> nat {
        match self {
            Step::Lit(_) | Step::Rgb(_, _, _) | Step::PixelX | Step::PixelY | Step::Channel
            | Step::Pixel => 0,
            Step::Unary(_) => 1,
            Step::Swap | Step::UnaryBoth(_) | Step::Binary(_) | Step::BinaryTwice(_, _) => 2,
            Step::Select => 3,
            Step::BinaryPairs(_) => 4,
            Step::SelectPair => 5,
            Step::SelectPairs => 6,
        }
    }

    /// The step's operator, if it has one, does not divide by zero.
    pub open spec fn well_formed(self) -> bool {
        match self {
            Step::Unary(op) => op.well_formed(),
            Step::UnaryBoth(op) => op.well_formed(),
            _ => true,
        }
    }

    /// The stack `vals` of the position `pos` after the step.
    pub open spec fn apply(self, pos: Position, vals: Seq<Triple>) -> Seq<Triple> {
        let n = vals.len() as int;
        let rest = vals.take(n - self.takes());
        match self {
            Step::Lit(c) => vals.push(splat(c)),
            Step::Rgb(r, g, b) => vals.push((r as i32, g as i32, b as i32)),
            Step::PixelX => vals.push(splat(pos.0)),
            Step::PixelY => vals.push(splat(pos.1)),
            Step::Channel => vals.push((-1i32, 0i32, 1i32)),
            Step::Pixel => vals.push(splat(pos.0)).push(splat(pos.1)),
            Step::Swap => rest.push(vals[n - 1]).push(vals[n - 2]),
            Step::Unary(op) => rest.push(map_unary(op, vals[n - 1])),
            Step::UnaryBoth(op) => rest.push(map_unary(op, vals[n - 2])).push(
                map_unary(op, vals[n - 1]),
            ),
            Step::Binary(op) => rest.push(zip_binary(op, vals[n - 2], vals[n - 1])),
            Step::BinaryTwice(op_1, op_2) => rest.push(
                zip_binary(op_1, vals[n - 2], vals[n - 1]),
            ).push(zip_binary(op_2, vals[n - 2], vals[n - 1])),
            Step::BinaryPairs(op) => rest.push(zip_binary(op, vals[n - 4], vals[n - 2])).push(
                zip_binary(op, vals[n - 3], vals[n - 1]),
            ),
            Step::Select => rest.push(select(vals[n - 3], vals[n - 2], vals[n - 1])),
            Step::SelectPair => rest.push(select(vals[n - 5], vals[n - 4], vals[n - 2])).push(
                select(vals[n - 5], vals[n - 3], vals[n - 1]),
            ),
            Step::SelectPairs => rest.push(select(vals[n - 6], vals[n - 4], vals[n - 2])).push(
                select(vals[n - 5], vals[n - 3], vals[n - 1]),
            ),
        }
    }
}

impl BatchEntry {
    /// Performs one step on this position's stack.
    pub fn step(&mut self, step: Step)
        requires
            step.well_formed(),
            old(self).stack@.len() >= step.takes(),
        ensures
            final(self).pos == old(self).pos,
            final(self).values() == step.apply(old(self).pos, old(self).values()),
    {
        match step {
            Step::Lit(c) => {
                self.push(StackItem::Same(c));
            },
            Step::Rgb(r, g, b) => {
                self.push(StackItem::Rgb(r as i32, g as i32, b as i32));
            },
            Step::PixelX => {
                let x = self.pos.0;
                self.push(StackItem::Same(x));
            },
            Step::PixelY => {
                let y = self.pos.1;
                self.push(StackItem::Same(y));
            },
            Step::Channel => {
                self.push(StackItem::Rgb(-1, 0, 1));
            },
            Step::Pixel => {
                let x = self.pos.0;
                let y = self.pos.1;
                self.push(StackItem::Same(x));
                self.push(StackItem::Same(y));
            },
            Step::Swap => {
                let (a, b) = self.pop_2();
                self.push(b);
                self.push(a);
            },
            Step::Unary(op) => {
                let new_val = self.pop().eval_unary(op);
                self.push(new_val);
            },
            Step::UnaryBoth(op) => {
                let (n_1, n_2) = self.pop_2();
                let new_1 = n_1.eval_unary(op);
                let new_2 = n_2.eval_unary(op);
                self.push(new_1);
                self.push(new_2);
            },
            Step::Binary(op) => {
                let (a, b) = self.pop_2();
                let new_val = a.eval_binary(b, op);
                self.push(new_val);
            },
            Step::BinaryTwice(op_1, op_2) => {
                let (a, b) = self.pop_2();
                let new_1 = a.eval_binary(b, op_1);
                let new_2 = a.eval_binary(b, op_2);
                self.push(new_1);
                self.push(new_2);
            },
            Step::BinaryPairs(op) => {
                let (b_1, b_2) = self.pop_2();
                let (a_1, a_2) = self.pop_2();
                let new_1 = a_1.eval_binary(b_1, op);
                let new_2 = a_2.eval_binary(b_2, op);
                self.push(new_1);
                self.push(new_2);
            },
            Step::Select => {
                let (val_then, val_else) = self.pop_2();
                let val_cond = self.pop();
                let new_val = val_cond.choose_by(val_then, val_else);
                self.push(new_val);
            },
            Step::SelectPair => {
                let (else_1, else_2) = self.pop_2();
                let (then_1, then_2) = self.pop_2();
                let cond = self.pop();
                self.push(cond.choose_by(then_1, else_1));
                self.push(cond.choose_by(then_2, else_2));
            },
            Step::SelectPairs => {
                let (else_1, else_2) = self.pop_2();
                let (then_1, then_2) = self.pop_2();
                let (cond_1, cond_2) = self.pop_2();
                self.push(cond_1.choose_by(then_1, else_1));
                self.push(cond_2.choose_by(then_2, else_2));
            },
        }
        assert(self.values() =~= step.apply(old(self).pos, old(self).values()));
    }
}

/// The positions of one evaluation, each with its stack.
pub struct Batch {
    pub entries: Vec<BatchEntry>,
}

/// The place of `v` between `lo` and `hi` on the byte range.
pub fn scale_channel(v: i32, lo: i32, hi: i32) -> (r: i32)
    requires
        lo <= v <= hi,
    ensures
        r == scale_spec(v, lo, hi),
        0 <= r <= 255,
{
    proof {
        lemma_scale_is_byte(v, lo, hi);
    }
    if hi == lo {
        127
    } else {
        let offset: u64 = (v as i64 - lo as i64) as u64;
        let range: u64 = (hi as i64 - lo as i64) as u64;
        ((2 * 255 * offset + range - 1) / (2 * range)) as i32
    }
}

impl Batch {
    /// The positions of the batch, in order.
    pub open spec fn positions(self) -> Seq<Position> {
        Seq::new(self.entries@.len(), |k: int| self.entries@[k].pos)
    }

    /// Every stack holds at least `n` values.
    pub open spec fn holds(self, n: nat) -> bool {
        forall|k: int| 0 <= k < self.entries@.len() ==> (#[trigger] self.entries@[k]).stack@.len() >= n
    }

    /// The value that lies `idx_from_back` below the top of each stack.
    pub open spec fn column(self, idx_from_back: int) -> Seq<Triple> {
        Seq::new(
            self.entries@.len(),
            |k: int| self.entries@[k].values()[self.entries@[k].values().len() - 1 - idx_from_back],
        )
    }

    /// A batch of the given positions with empty stacks.
    pub fn new(inputs: &[Position]) -> (batch: Self)
        ensures
            batch.positions() == inputs@,
            forall|k: int| 0 <= k < inputs@.len() ==> (#[trigger] batch.entries@[k]).stack@.len() == 0,
    {
        let mut entries: Vec<BatchEntry> = Vec::new();
        let mut i: usize = 0;
        while i < inputs.len()
            invariant
                i <= inputs@.len(),
                entries@.len() == i,
                forall|k: int| 0 <= k < i ==> (#[trigger] entries@[k]).pos == inputs@[k],
                forall|k: int| 0 <= k < i ==> (#[trigger] entries@[k]).stack@.len() == 0,
            decreases inputs@.len() - i,
        {
            entries.push(BatchEntry { pos: inputs[i], stack: Vec::new() });
            i += 1;
        }
        let batch = Batch { entries };
        assert(batch.positions() =~= inputs@);
        batch
    }

    /// Performs the same step on the stack of every position.
    pub fn each(&mut self, step: Step)
        requires
            step.well_formed(),
            old(self).holds(step.takes()),
        ensures
            final(self).positions() == old(self).positions(),
            final(self).entries@.len() == old(self).entries@.len(),
            forall|k: int|
                0 <= k < old(self).entries@.len() ==> (#[trigger] final(self).entries@[k]).values()
                    == step.apply(old(self).entries@[k].pos, old(self).entries@[k].values()),
    {
        let n = self.entries.len();
        let mut i: usize = 0;
        while i < n
            invariant
                i <= n,
                n == self.entries@.len(),
                n == old(self).entries@.len(),
                step.well_formed(),
                forall|k: int| 0 <= k < n ==> (#[trigger] self.entries@[k]).pos == old(self).entries@[k].pos,
                forall|k: int|
                    0 <= k < i ==> (#[trigger] self.entries@[k]).values() == step.apply(
                        old(self).entries@[k].pos,
                        old(self).entries@[k].values(),
                    ),
                forall|k: int| i <= k < n ==> (#[trigger] self.entries@[k]) == old(self).entries@[k],
                old(self).holds(step.takes()),
            decreases n - i,
        {
            let entry = &mut self.entries[i];
            entry.step(step);
            i += 1;
        }
        assert(self.positions() =~= old(self).positions());
    }

    /// Rescales, per channel, the value that lies `idx` below the top of
    /// each stack between the least and the greatest such value found in
    /// the whole batch.
    pub fn scale_256(&mut self, idx: usize)
        requires
            old(self).holds((idx + 1) as nat),
        ensures
            final(self).positions() == old(self).positions(),
            final(self).entries@.len() == old(self).entries@.len(),
            forall|k: int|
                0 <= k < old(self).entries@.len() ==> (#[trigger] final(self).entries@[k]).values()
                    == old(self).entries@[k].values().update(
                    old(self).entries@[k].values().len() - 1 - idx,
                    normalized(old(self).column(idx as int))[k],
                ),
    {
        let n = self.entries.len();
        let ghost col = self.column(idx as int);
        let mut minimums: Color = [i32::MAX, i32::MAX, i32::MAX];
        let mut maximums: Color = [i32::MIN, i32::MIN, i32::MIN];
        let mut i: usize = 0;
        while i < n
            invariant
                i <= n,
                n == self.entries@.len(),
                self.holds((idx + 1) as nat),
                col == self.column(idx as int),
                color_triple(minimums) == lows(col.take(i as int)),
                color_triple(maximums) == highs(col.take(i as int)),
            decreases n - i,
        {
            let components = self.entries[i].get(idx).rgb();
            assert(color_triple(components) == col[i as int]);
            assert(col.take(i + 1).drop_last() =~= col.take(i as int));
            minimums = [
                if components[0] < minimums[0] { components[0] } else { minimums[0] },
                if components[1] < minimums[1] { components[1] } else { minimums[1] },
                if components[2] < minimums[2] { components[2] } else { minimums[2] },
            ];
            maximums = [
                if components[0] > maximums[0] { components[0] } else { maximums[0] },
                if components[1] > maximums[1] { components[1] } else { maximums[1] },
                if components[2] > maximums[2] { components[2] } else { maximums[2] },
            ];
            i += 1;
        }
        assert(col.take(n as int) =~= col);
        let mut j: usize = 0;
        while j < n
            invariant
                j <= n,
                n == self.entries@.len(),
                n == old(self).entries@.len(),
                old(self).holds((idx + 1) as nat),
                col == old(self).column(idx as int),
                color_triple(minimums) == lows(col),
                color_triple(maximums) == highs(col),
                forall|k: int| 0 <= k < n ==> (#[trigger] self.entries@[k]).pos == old(self).entries@[k].pos,
                forall|k: int|
                    0 <= k < j ==> (#[trigger] self.entries@[k]).values() == old(
                        self,
                    ).entries@[k].values().update(
                        old(self).entries@[k].values().len() - 1 - idx,
                        normalized(col)[k],
                    ),
                forall|k: int| j <= k < n ==> (#[trigger] self.entries@[k]) == old(self).entries@[k],
            decreases n - j,
        {
            proof {
                lemma_ends_enclose(col, j as int);
            }
            let ghost before = self.entries@[j as int].values();
            let entry = &mut self.entries[j];
            let item = entry.get_mut(idx);
            let components = item.rgb();
            *item = StackItem::Rgb(
                scale_channel(components[0], minimums[0], maximums[0]),
                scale_channel(components[1], minimums[1], maximums[1]),
                scale_channel(components[2], minimums[2], maximums[2]),
            );
            assert(self.entries@[j as int].values() =~= before.update(
                before.len() - 1 - idx,
                normalized(col)[j as int],
            ));
            j += 1;
        }
        assert(self.positions() =~= old(self).positions());
    }

    /// `self` is `before` with `vals[k]` pushed onto the stack of position
    /// `k`, for every `k`.
    pub open spec fn extends(self, before: Batch, vals: Seq<Triple>) -> bool {
        &&& self.positions() == before.positions()
        &&& self.entries@.len() == before.entries@.len()
        &&& forall|k: int|
            0 <= k < before.entries@.len() ==> (#[trigger] self.entries@[k]).values()
                == before.entries@[k].values().push(vals[k])
    }

    /// `self` is `before` with the two values of `vals[k]` pushed onto the
    /// stack of position `k`, for every `k`.
    pub open spec fn extends_by_pairs(self, before: Batch, vals: Seq<(Triple, Triple)>) -> bool {
        &&& self.positions() == before.positions()
        &&& self.entries@.len() == before.entries@.len()
        &&& forall|k: int|
            0 <= k < before.entries@.len() ==> (#[trigger] self.entries@[k]).values()
                == before.entries@[k].values().push(vals[k].0).push(vals[k].1)
    }

    /// Stacks that stand for at least `m` values hold at least `m` items.
    proof fn lemma_holds(self, m: nat)
        requires
            forall|k: int|
                0 <= k < self.entries@.len() ==> (#[trigger] self.entries@[k]).values().len() >= m,
        ensures
            self.holds(m),
    {
        assert forall|k: int| 0 <= k < self.entries@.len() implies (#[trigger] self.entries@[k]).stack@.len()
            >= m by {
            assert(self.entries@[k].values().len() >= m);
        }
    }
}

impl VExpr {
    /// Pushes the expression's pair of values onto the stack of every
    /// position of the batch.
    pub fn eval_on_batch(&self, batch: &mut Batch)
        requires
            self.well_formed(),
        ensures
            final(batch).extends_by_pairs(*old(batch), self.values(old(batch).positions())),
        decreases self,
    {
        let ghost b0 = *batch;
        let ghost ps = batch.positions();
        match self {
            VExpr::Pixel => {
                proof {
                    batch.lemma_holds(0);
                }
                let ghost b1 = *batch;
                batch.each(Step::Pixel);
                assert forall|k: int| 0 <= k < b0.entries@.len() implies (#[trigger] batch.entries@[k]).values()
                    == b0.entries@[k].values().push(self.values(ps)[k].0).push(self.values(ps)[k].1) by {
                    assert(b1.entries@[k].values().len() >= 0);
                    assert(b1.entries@[k].pos == ps[k]);
                    assert(batch.entries@[k].values() =~= b0.entries@[k].values().push(
                        self.values(ps)[k].0,
                    ).push(self.values(ps)[k].1));
                }
            },
            VExpr::Swap(sub_e) => {
                sub_e.eval_on_batch(batch);
                proof {
                    batch.lemma_holds(2);
                }
                let ghost b1 = *batch;
                batch.each(Step::Swap);
                assert forall|k: int| 0 <= k < b0.entries@.len() implies (#[trigger] batch.entries@[k]).values()
                    == b0.entries@[k].values().push(self.values(ps)[k].0).push(self.values(ps)[k].1) by {
                    assert(b1.entries@[k].values().len() >= 2);
                    assert(b1.entries@[k].pos == ps[k]);
                    assert(batch.entries@[k].values() =~= b0.entries@[k].values().push(
                        self.values(ps)[k].0,
                    ).push(self.values(ps)[k].1));
                }
            },
            VExpr::BinaryI(op_1, op_2, e_1, e_2) => {
                e_1.eval_on_batch(batch);
                e_2.eval_on_batch(batch);
                proof {
                    batch.lemma_holds(2);
                }
                let ghost b1 = *batch;
                batch.each(Step::BinaryTwice(*op_1, *op_2));
                assert forall|k: int| 0 <= k < b0.entries@.len() implies (#[trigger] batch.entries@[k]).values()
                    == b0.entries@[k].values().push(self.values(ps)[k].0).push(self.values(ps)[k].1) by {
                    assert(b1.entries@[k].values().len() >= 2);
                    assert(b1.entries@[k].pos == ps[k]);
                    assert(batch.entries@[k].values() =~= b0.entries@[k].values().push(
                        self.values(ps)[k].0,
                    ).push(self.values(ps)[k].1));
                }
            },
            VExpr::UnaryV(op, sub_e) => {
                sub_e.eval_on_batch(batch);
                proof {
                    batch.lemma_holds(2);
                }
                let ghost b1 = *batch;
                batch.each(Step::UnaryBoth(*op));
                assert forall|k: int| 0 <= k < b0.entries@.len() implies (#[trigger] batch.entries@[k]).values()
                    == b0.entries@[k].values().push(self.values(ps)[k].0).push(self.values(ps)[k].1) by {
                    assert(b1.entries@[k].values().len() >= 2);
                    assert(b1.entries@[k].pos == ps[k]);
                    assert(batch.entries@[k].values() =~= b0.entries@[k].values().push(
                        self.values(ps)[k].0,
                    ).push(self.values(ps)[k].1));
                }
            },
            VExpr::BinaryV(op, e_1, e_2) => {
                e_1.eval_on_batch(batch);
                e_2.eval_on_batch(batch);
                proof {
                    batch.lemma_holds(4);
                }
                let ghost b1 = *batch;
                batch.each(Step::BinaryPairs(*op));
                assert forall|k: int| 0 <= k < b0.entries@.len() implies (#[trigger] batch.entries@[k]).values()
                    == b0.entries@[k].values().push(self.values(ps)[k].0).push(self.values(ps)[k].1) by {
                    assert(b1.entries@[k].values().len() >= 4);
                    assert(b1.entries@[k].pos == ps[k]);
                    assert(batch.entries@[k].values() =~= b0.entries@[k].values().push(
                        self.values(ps)[k].0,
                    ).push(self.values(ps)[k].1));
                }
            },
            VExpr::IfThenElseI(e_cond, e_then, e_else) => {
                e_cond.eval_on_batch(batch);
                e_then.eval_on_batch(batch);
                e_else.eval_on_batch(batch);
                proof {
                    batch.lemma_holds(5);
                }
                let ghost b1 = *batch;
                batch.each(Step::SelectPair);
                assert forall|k: int| 0 <= k < b0.entries@.len() implies (#[trigger] batch.entries@[k]).values()
                    == b0.entries@[k].values().push(self.values(ps)[k].0).push(self.values(ps)[k].1) by {
                    assert(b1.entries@[k].values().len() >= 5);
                    assert(b1.entries@[k].pos == ps[k]);
                    assert(batch.entries@[k].values() =~= b0.entries@[k].values().push(
                        self.values(ps)[k].0,
                    ).push(self.values(ps)[k].1));
                }
            },
            VExpr::IfThenElseV(e_cond, e_then, e_else) => {
                e_cond.eval_on_batch(batch);
                e_then.eval_on_batch(batch);
                e_else.eval_on_batch(batch);
                proof {
                    batch.lemma_holds(6);
                }
                let ghost b1 = *batch;
                batch.each(Step::SelectPairs);
                assert forall|k: int| 0 <= k < b0.entries@.len() implies (#[trigger] batch.entries@[k]).values()
                    == b0.entries@[k].values().push(self.values(ps)[k].0).push(self.values(ps)[k].1) by {
                    assert(b1.entries@[k].values().len() >= 6);
                    assert(b1.entries@[k].pos == ps[k]);
                    assert(batch.entries@[k].values() =~= b0.entries@[k].values().push(
                        self.values(ps)[k].0,
                    ).push(self.values(ps)[k].1));
                }
            },
        }
    }
}

impl IExpr {
    /// Pushes the expression's value onto the stack of every position of
    /// the batch.
    pub fn eval_on_batch(&self, batch: &mut Batch)
        requires
            self.well_formed(),
        ensures
            final(batch).extends(*old(batch), self.values(old(batch).positions())),
        decreases self,
    {
        let ghost b0 = *batch;
        let ghost ps = batch.positions();
        match self {
            IExpr::Lit(n) => {
                proof {
                    batch.lemma_holds(0);
                }
                let ghost b1 = *batch;
                batch.each(Step::Lit(*n));
                assert forall|k: int| 0 <= k < b0.entries@.len() implies (#[trigger] batch.entries@[k]).values()
                    == b0.entries@[k].values().push(self.values(ps)[k]) by {
                    assert(b1.entries@[k].values().len() >= 0);
                    assert(b1.entries@[k].pos == ps[k]);
                    assert(batch.entries@[k].values() =~= b0.entries@[k].values().push(
                        self.values(ps)[k],
                    ));
                }
            },
            IExpr::Rgb(c) => {
                proof {
                    batch.lemma_holds(0);
                }
                let ghost b1 = *batch;
                batch.each(Step::Rgb(c[0], c[1], c[2]));
                assert forall|k: int| 0 <= k < b0.entries@.len() implies (#[trigger] batch.entries@[k]).values()
                    == b0.entries@[k].values().push(self.values(ps)[k]) by {
                    assert(b1.entries@[k].values().len() >= 0);
                    assert(b1.entries@[k].pos == ps[k]);
                    assert(batch.entries@[k].values() =~= b0.entries@[k].values().push(
                        self.values(ps)[k],
                    ));
                }
            },
            IExpr::PixelX => {
                proof {
                    batch.lemma_holds(0);
                }
                let ghost b1 = *batch;
                batch.each(Step::PixelX);
                assert forall|k: int| 0 <= k < b0.entries@.len() implies (#[trigger] batch.entries@[k]).values()
                    == b0.entries@[k].values().push(self.values(ps)[k]) by {
                    assert(b1.entries@[k].values().len() >= 0);
                    assert(b1.entries@[k].pos == ps[k]);
                    assert(batch.entries@[k].values() =~= b0.entries@[k].values().push(
                        self.values(ps)[k],
                    ));
                }
            },
            IExpr::PixelY => {
                proof {
                    batch.lemma_holds(0);
                }
                let ghost b1 = *batch;
                batch.each(Step::PixelY);
                assert forall|k: int| 0 <= k < b0.entries@.len() implies (#[trigger] batch.entries@[k]).values()
                    == b0.entries@[k].values().push(self.values(ps)[k]) by {
                    assert(b1.entries@[k].values().len() >= 0);
                    assert(b1.entries@[k].pos == ps[k]);
                    assert(batch.entries@[k].values() =~= b0.entries@[k].values().push(
                        self.values(ps)[k],
                    ));
                }
            },
            IExpr::Channel => {
                proof {
                    batch.lemma_holds(0);
                }
                let ghost b1 = *batch;
                batch.each(Step::Channel);
                assert forall|k: int| 0 <= k < b0.entries@.len() implies (#[trigger] batch.entries@[k]).values()
                    == b0.entries@[k].values().push(self.values(ps)[k]) by {
                    assert(b1.entries@[k].values().len() >= 0);
                    assert(b1.entries@[k].pos == ps[k]);
                    assert(batch.entries@[k].values() =~= b0.entries@[k].values().push(
                        self.values(ps)[k],
                    ));
                }
            },
            IExpr::Scale256(sub_e) => {
                sub_e.eval_on_batch(batch);
                proof {
                    batch.lemma_holds(1);
                }
                let ghost b1 = *batch;
                proof {
                    sub_e.lemma_values_len(ps);
                }
                assert(b1.column(0) =~= sub_e.values(ps));
                batch.scale_256(0);
                assert forall|k: int| 0 <= k < b0.entries@.len() implies (#[trigger] batch.entries@[k]).values()
                    == b0.entries@[k].values().push(self.values(ps)[k]) by {
                    assert(b1.entries@[k].values().len() >= 1);
                    assert(batch.entries@[k].values() =~= b0.entries@[k].values().push(
                        self.values(ps)[k],
                    ));
                }
            },
            IExpr::UnaryI(op, sub_e) => {
                sub_e.eval_on_batch(batch);
                proof {
                    batch.lemma_holds(1);
                }
                let ghost b1 = *batch;
                batch.each(Step::Unary(*op));
                assert forall|k: int| 0 <= k < b0.entries@.len() implies (#[trigger] batch.entries@[k]).values()
                    == b0.entries@[k].values().push(self.values(ps)[k]) by {
                    assert(b1.entries@[k].values().len() >= 1);
                    assert(b1.entries@[k].pos == ps[k]);
                    assert(batch.entries@[k].values() =~= b0.entries@[k].values().push(
                        self.values(ps)[k],
                    ));
                }
            },
            IExpr::BinaryI(op, e_1, e_2) => {
                e_1.eval_on_batch(batch);
                e_2.eval_on_batch(batch);
                proof {
                    batch.lemma_holds(2);
                }
                let ghost b1 = *batch;
                batch.each(Step::Binary(*op));
                assert forall|k: int| 0 <= k < b0.entries@.len() implies (#[trigger] batch.entries@[k]).values()
                    == b0.entries@[k].values().push(self.values(ps)[k]) by {
                    assert(b1.entries@[k].values().len() >= 2);
                    assert(b1.entries@[k].pos == ps[k]);
                    assert(batch.entries@[k].values() =~= b0.entries@[k].values().push(
                        self.values(ps)[k],
                    ));
                }
            },
            IExpr::BinaryV(op, sub_e) => {
                sub_e.eval_on_batch(batch);
                proof {
                    batch.lemma_holds(2);
                }
                let ghost b1 = *batch;
                batch.each(Step::Binary(*op));
                assert forall|k: int| 0 <= k < b0.entries@.len() implies (#[trigger] batch.entries@[k]).values()
                    == b0.entries@[k].values().push(self.values(ps)[k]) by {
                    assert(b1.entries@[k].values().len() >= 2);
                    assert(b1.entries@[k].pos == ps[k]);
                    assert(batch.entries@[k].values() =~= b0.entries@[k].values().push(
                        self.values(ps)[k],
                    ));
                }
            },
            IExpr::IfThenElseI(e_cond, e_then, e_else) => {
                e_cond.eval_on_batch(batch);
                e_then.eval_on_batch(batch);
                e_else.eval_on_batch(batch);
                proof {
                    batch.lemma_holds(3);
                }
                let ghost b1 = *batch;
                batch.each(Step::Select);
                assert forall|k: int| 0 <= k < b0.entries@.len() implies (#[trigger] batch.entries@[k]).values()
                    == b0.entries@[k].values().push(self.values(ps)[k]) by {
                    assert(b1.entries@[k].values().len() >= 3);
                    assert(b1.entries@[k].pos == ps[k]);
                    assert(batch.entries@[k].values() =~= b0.entries@[k].values().push(
                        self.values(ps)[k],
                    ));
                }
            },
            IExpr::IfThenElseV(e_cond, e_case) => {
                e_cond.eval_on_batch(batch);
                e_case.eval_on_batch(batch);
                proof {
                    batch.lemma_holds(3);
                }
                let ghost b1 = *batch;
                batch.each(Step::Select);
                assert forall|k: int| 0 <= k < b0.entries@.len() implies (#[trigger] batch.entries@[k]).values()
                    == b0.entries@[k].values().push(self.values(ps)[k]) by {
                    assert(b1.entries@[k].values().len() >= 3);
                    assert(b1.entries@[k].pos == ps[k]);
                    assert(batch.entries@[k].values() =~= b0.entries@[k].values().push(
                        self.values(ps)[k],
                    ));
                }
            },
        }
    }
}

impl IExpr {
    /// `colors` holds, position by position, the values of the expression
    /// at `inputs`.
    pub open spec fn renders(self, inputs: Seq<Position>, colors: Seq<Color>) -> bool {
        &&& colors.len() == inputs.len()
        &&& forall|k: int|
            0 <= k < inputs.len() ==> color_triple(#[trigger] colors[k]) == self.values(inputs)[k]
    }

    /// Evaluates the expression at all the positions `inputs` together and
    /// returns one colour for each, in the order of the positions.
    pub fn eval_batch(&self, inputs: &[Position]) -> (colors: Vec<Color>)
        requires
            self.well_formed(),
        ensures
            self.renders(inputs@, colors@),
            self.byte_ranged() ==> forall|k: int|
                0 <= k < colors@.len() ==> is_byte_color(#[trigger] colors@[k]),
    {
        let mut batch = Batch::new(inputs);
        let ghost b0 = batch;
        self.eval_on_batch(&mut batch);
        proof {
            self.lemma_values_len(inputs@);
        }
        let n = batch.entries.len();
        let mut colors: Vec<Color> = Vec::new();
        let mut k: usize = 0;
        while k < n
            invariant
                k <= n,
                n == batch.entries@.len(),
                n == inputs@.len(),
                batch.extends(b0, self.values(inputs@)),
                forall|i: int| 0 <= i < n ==> (#[trigger] b0.entries@[i]).stack@.len() == 0,
                colors@.len() == k,
                forall|i: int| 0 <= i < k ==> color_triple(#[trigger] colors@[i]) == self.values(inputs@)[i],
            decreases n - k,
        {
            let entry = &batch.entries[k];
            assert(entry.values() == b0.entries@[k as int].values().push(self.values(inputs@)[k as int]));
            assert(entry.values().len() == 1);
            assert(entry.values()[0] == entry.stack@[0]@);
            let color = entry.get(0).rgb();
            colors.push(color);
            k += 1;
        }
        proof {
            if self.byte_ranged() {
                assert forall|i: int| 0 <= i < colors@.len() implies is_byte_color(#[trigger] colors@[i]) by {
                    self.lemma_wrapped_root_gives_bytes(inputs@, i);
                }
            }
        }
        colors
    }

    /// Evaluation is a function of the expression and the positions: any
    /// two results for the same inputs are equal.
    pub proof fn lemma_evaluation_is_unique(
        self,
        inputs: Seq<Position>,
        first: Seq<Color>,
        second: Seq<Color>,
    )
        requires
            self.renders(inputs, first),
            self.renders(inputs, second),
        ensures
            first == second,
    {
        assert forall|k: int| 0 <= k < inputs.len() implies first[k] == second[k] by {
            assert(color_triple(first[k]) == color_triple(second[k]));
            assert(first[k] =~= second[k]);
        }
        assert(first =~= second);
    }
}

/// Every channel of the colour is a byte.
pub open spec fn is_byte_color(c: Color) -> bool {
    is_byte(c[0]) && is_byte(c[1]) && is_byte(c[2])
}

} // verus!
