//! Weights and chance: clamping, choice by weight, small positive numbers,
//! and the crossover and jitter of weight vectors. Weights are fixed-point
//! numbers, so that every rule is exact integer arithmetic.

use vstd::prelude::*;
use rand::rngs::StdRng;
use crate::rng::{below, coin, ratio};

verus! {

/// The weight that stands for 1: weights are fixed-point numbers with
/// sixteen binary places.
pub const WEIGHT_ONE: u32 = 0x1_0000;

/// The resolution of a draw from the open unit interval: a draw `k` stands
/// for `k / UNIT`, with `0 < k < UNIT`.
pub const UNIT: u32 = 0x1_0000;

/// `n` limited to the interval from `min` to `max`; where the interval is
/// empty (`max < min`) the upper end wins.
pub open spec fn clamp_spec(min: i32, max: i32, n: i32) -> i32 {
    let lifted = if n < min { min } else { n };
    if max < lifted { max } else { lifted }
}

/// Limits `n` to the interval from `min` to `max`.
pub fn clamp(min: i32, max: i32, n: i32) -> (r: i32)
    ensures
        r == clamp_spec(min, max, n),
        min <= max ==> min <= r <= max,
        min <= n <= max ==> r == n,
{
    let lifted = if n < min { min } else { n };
    if max < lifted { max } else { lifted }
}

/// The sum of the weights.
pub open spec fn total(weights: Seq<u32>) -> nat
    decreases weights.len(),
{
    if weights.len() == 0 {
        0
    } else {
        total(weights.drop_last()) + weights.last() as nat
    }
}

/// `index` is the first whose cumulative weight reaches `draw`, or the last
/// index where none does.
pub open spec fn is_pick(weights: Seq<u32>, draw: nat, index: int) -> bool {
    &&& 0 <= index < weights.len()
    &&& forall|j: int| 0 <= j < index ==> total(#[trigger] weights.take(j + 1)) < draw
    &&& (total(weights.take(index + 1)) >= draw || index == weights.len() - 1)
}

/// The weights before position `i` sum to no more than all of them.
pub proof fn lemma_total_prefix(weights: Seq<u32>, i: int)
    requires
        0 <= i <= weights.len(),
    ensures
        total(weights.take(i)) <= total(weights),
    decreases weights.len(),
{
    if i == weights.len() {
        assert(weights.take(i) =~= weights);
    } else {
        assert(weights.drop_last().take(i) =~= weights.take(i));
        lemma_total_prefix(weights.drop_last(), i);
    }
}

/// Every weight is at most the total, and the total at most the largest
/// weight times the number of weights.
pub proof fn lemma_total_bounds(weights: Seq<u32>, i: int)
    requires
        0 <= i < weights.len(),
    ensures
        weights[i] <= total(weights) <= weights.len() * 0xffff_ffff,
    decreases weights.len(),
{
    if weights.len() > 1 {
        if i < weights.len() - 1 {
            lemma_total_bounds(weights.drop_last(), i);
        } else {
            lemma_total_bounds(weights.drop_last(), 0);
        }
    } else {
        assert(total(weights.drop_last()) == 0);
    }
}

/// One more weight adds itself to the cumulative weight.
pub proof fn lemma_total_step(weights: Seq<u32>, i: int)
    requires
        0 <= i < weights.len(),
    ensures
        total(weights.take(i + 1)) == total(weights.take(i)) + weights[i],
{
    assert(weights.take(i + 1).drop_last() =~= weights.take(i));
}

/// A draw between 1 and the total never picks a weight of zero.
pub proof fn lemma_pick_has_weight(weights: Seq<u32>, draw: nat, index: int)
    requires
        is_pick(weights, draw, index),
        1 <= draw <= total(weights),
    ensures
        weights[index] > 0,
{
    lemma_total_step(weights, index);
    if index > 0 {
        assert(total(weights.take(index - 1 + 1)) < draw);
    } else {
        assert(weights.take(0).len() == 0);
    }
    if index == weights.len() - 1 {
        assert(weights.take(index + 1) =~= weights);
    }
}

/// Where a single weight is positive, every draw between 1 and the total
/// picks it.
pub proof fn lemma_sole_weight_is_picked(weights: Seq<u32>, sole: int, draw: nat, index: int)
    requires
        0 <= sole < weights.len(),
        forall|j: int| 0 <= j < weights.len() && j != sole ==> weights[j] == 0,
        is_pick(weights, draw, index),
        1 <= draw <= total(weights),
    ensures
        index == sole,
{
    lemma_pick_has_weight(weights, draw, index);
}

/// The sum of the weights.
pub fn sum_of(weights: &[u32]) -> (sum: u64)
    requires
        total(weights@) <= u64::MAX,
    ensures
        sum == total(weights@),
{
    let mut sum: u64 = 0;
    let mut i: usize = 0;
    while i < weights.len()
        invariant
            i <= weights@.len(),
            sum == total(weights@.take(i as int)),
            total(weights@) <= u64::MAX,
        decreases weights@.len() - i,
    {
        proof {
            lemma_total_step(weights@, i as int);
            lemma_total_prefix(weights@, i + 1);
        }
        sum = sum + weights[i] as u64;
        i += 1;
    }
    assert(weights@.take(i as int) =~= weights@);
    sum
}

/// The index that `draw` falls on: the first whose cumulative weight
/// reaches the draw. A draw beyond the total falls on the last index.
pub fn pick_index(weights: &[u32], draw: u64) -> (index: usize)
    requires
        weights@.len() >= 1,
    ensures
        is_pick(weights@, draw as nat, index as int),
        1 <= draw <= total(weights@) ==> weights@[index as int] > 0,
{
    let n = weights.len();
    let mut prev_sum: u64 = 0;
    let mut i: usize = 0;
    loop
        invariant_except_break
            i < n,
            prev_sum == total(weights@.take(i as int)),
            forall|j: int| 0 <= j < i ==> total(#[trigger] weights@.take(j + 1)) < draw,
        invariant
            n == weights@.len(),
            n >= 1,
        ensures
            is_pick(weights@, draw as nat, i as int),
        decreases n - i,
    {
        proof {
            lemma_total_step(weights@, i as int);
        }
        match prev_sum.checked_add(weights[i] as u64) {
            None => {
                break ;
            },
            Some(reached) => {
                if reached >= draw || i == n - 1 {
                    break ;
                }
                prev_sum = reached;
                i += 1;
            },
        }
    }
    proof {
        if 1 <= draw <= total(weights@) {
            lemma_pick_has_weight(weights@, draw as nat, i as int);
        }
    }
    i
}

/// Chooses an index with a chance proportional to its weight.
pub fn weighted_choice(rng: &mut StdRng, weights: &[u32]) -> (index: usize)
    requires
        weights@.len() >= 1,
        0 < total(weights@) <= u64::MAX,
    ensures
        index < weights@.len(),
        weights@[index as int] > 0,
        exists|draw: nat| 1 <= draw <= total(weights@) && #[trigger] is_pick(weights@, draw, index as int),
{
    let sum = sum_of(weights);
    let val = 1 + below(rng, sum);
    pick_index(weights, val)
}

/// 1 for a sum of zero, else the sum without its sign.
pub open spec fn magnitude_or_one(sum: i8) -> int {
    if sum == 0 {
        1
    } else if sum < 0 {
        -sum
    } else {
        sum as int
    }
}

/// The small positive number that a sum of draws stands for.
pub fn small_positive_of(sum: i8) -> (n: u8)
    ensures
        n == magnitude_or_one(sum),
        n >= 1,
{
    if sum == 0 {
        1
    } else if sum < 0 {
        (0 - sum as i16) as u8
    } else {
        sum as u8
    }
}

/// A small positive number: the magnitude of the sum of fifteen steps from
/// -2 to 2, each drawn as a number below 5, with 1 in place of zero. Mostly
/// well below 15, never above 30.
pub fn small_positive(rng: &mut StdRng) -> (n: u8)
    ensures
        1 <= n <= 30,
        exists|draws: Seq<u64>, sum: i8| #[trigger] sums_to(draws, sum) && n == magnitude_or_one(sum),
{
    let mut sum: i8 = 0;
    let mut i: u8 = 0;
    let ghost mut drawn: Seq<u64> = Seq::empty();
    while i < 15
        invariant
            i <= 15,
            drawn.len() == i,
            forall|k: int| 0 <= k < i ==> drawn[k] < 5,
            sum == steps_sum(drawn),
            -2 * i <= sum <= 2 * i,
        decreases 15 - i,
    {
        let draw = below(rng, 5);
        proof {
            assert(drawn.push(draw).drop_last() =~= drawn);
            drawn = drawn.push(draw);
        }
        sum = sum + (draw as i8 - 2);
        i += 1;
    }
    assert(sums_to(drawn, sum));
    small_positive_of(sum)
}

/// Every weight of `child` is the weight that one of the two parents has
/// in that place.
pub open spec fn is_crossover(child: Seq<u32>, left: Seq<u32>, right: Seq<u32>) -> bool {
    &&& child.len() == left.len()
    &&& forall|i: int| 0 <= i < child.len() ==> child[i] == left[i] || child[i] == right[i]
}

/// Crossing a parent with itself gives the parent back.
pub proof fn lemma_crossover_of_equals(child: Seq<u32>, parent: Seq<u32>)
    requires
        is_crossover(child, parent, parent),
    ensures
        child == parent,
{
    assert(child =~= parent);
}

/// Fills `out` by taking each weight from `left` or from `right`, as a coin
/// falls.
pub fn mutate(rng: &mut StdRng, left: &[u32], right: &[u32], out: &mut [u32])
    requires
        left@.len() == right@.len(),
        left@.len() == old(out)@.len(),
    ensures
        is_crossover(final(out)@, left@, right@),
        left@ == right@ ==> final(out)@ == left@,
{
    let n = left.len();
    let mut i: usize = 0;
    while i < n
        invariant
            i <= n,
            n == left@.len(),
            n == right@.len(),
            n == out@.len(),
            forall|j: int| 0 <= j < i ==> out@[j] == left@[j] || out@[j] == right@[j],
        decreases n - i,
    {
        let w = if coin(rng) { left[i] } else { right[i] };
        out[i] = w;
        i += 1;
    }
    proof {
        if left@ == right@ {
            lemma_crossover_of_equals(out@, left@);
        }
    }
}

/// `a` and `b` are draws from the open unit interval.
pub open spec fn unit_draws(a: int, b: int) -> bool {
    0 < a < UNIT && 0 < b < UNIT
}

/// The denominator of a jitter factor.
pub open spec fn jitter_den() -> int {
    10 * UNIT * UNIT
}

/// The numerator of the jitter factor `1 + 0.3 * a/UNIT * b/UNIT`.
pub open spec fn jitter_num(a: int, b: int) -> int {
    jitter_den() + 3 * a * b
}

/// The weight `w` multiplied (`grow`) or divided by the jitter factor of
/// the draws `a` and `b`, rounded down. The result stays a weight: zero
/// stays zero, and a positive weight stays between 1 and the largest
/// weight.
pub open spec fn jittered(w: u32, grow: bool, a: int, b: int) -> int {
    if w == 0 {
        0
    } else if grow {
        let scaled = (w * jitter_num(a, b)) / jitter_den();
        if scaled > u32::MAX { u32::MAX as int } else { scaled }
    } else {
        let scaled = (w * jitter_den()) / jitter_num(a, b);
        if scaled < 1 { 1 } else { scaled }
    }
}

/// A jitter moves a weight in the stated direction, by no more than three
/// parts in ten upwards and three in thirteen downwards (and the rounding),
/// and keeps a positive weight positive.
pub proof fn lemma_jitter_bounds(w: u32, grow: bool, a: int, b: int)
    requires
        unit_draws(a, b),
    ensures
        0 <= jittered(w, grow, a, b) <= u32::MAX,
        w > 0 ==> jittered(w, grow, a, b) > 0,
        grow ==> w <= jittered(w, grow, a, b) <= w + (3 * w) / 10,
        !grow ==> 10 * w < 13 * (jittered(w, grow, a, b) + 1) && jittered(w, grow, a, b) <= w,
{
    let den = jitter_den();
    let num = jitter_num(a, b);
    assert(0 < 3 * a * b < 3 * 0x1_0000 * 0x1_0000) by (nonlinear_arith)
        requires
            0 < a < 0x1_0000,
            0 < b < 0x1_0000,
    ;
    assert(den == 10 * 0x1_0000 * 0x1_0000);
    assert(den < num < den + 3 * 0x1_0000 * 0x1_0000);
    let wi = w as int;
    if w > 0 {
        assert(wi <= (wi * num) / den <= wi + (3 * wi) / 10) by (nonlinear_arith)
            requires
                wi > 0,
                den == 10 * 0x1_0000 * 0x1_0000,
                den < num < den + 3 * 0x1_0000 * 0x1_0000,
        ;
        let shrunk = (wi * den) / num;
        assert(0 <= shrunk <= wi && (shrunk + 1) * num > wi * den) by (nonlinear_arith)
            requires
                wi > 0,
                0 < den < num,
                shrunk == (wi * den) / num,
        ;
        assert(10 * wi < 13 * (shrunk + 1)) by (nonlinear_arith)
            requires
                (shrunk + 1) * num > wi * den,
                shrunk >= 0,
                den == 10 * 0x1_0000 * 0x1_0000,
                den < num < den + 3 * 0x1_0000 * 0x1_0000,
        ;
    }
}

/// A draw from the open unit interval, as a count of steps of `1 / UNIT`.
pub fn rand_unit(rng: &mut StdRng) -> (k: u32)
    ensures
        0 < k < UNIT,
{
    (1 + below(rng, (UNIT - 1) as u64)) as u32
}

/// The weight `w` multiplied or divided by the jitter factor of two unit
/// draws.
pub fn jitter(w: u32, grow: bool, a: u32, b: u32) -> (r: u32)
    requires
        unit_draws(a as int, b as int),
    ensures
        r == jittered(w, grow, a as int, b as int),
        w > 0 ==> r > 0,
{
    proof {
        lemma_jitter_bounds(w, grow, a as int, b as int);
    }
    if w == 0 {
        return 0;
    }
    let den: u128 = 10 * (UNIT as u128) * (UNIT as u128);
    assert(3 * a * b < 3 * 0x1_0000 * 0x1_0000) by (nonlinear_arith)
        requires
            0 < a < 0x1_0000,
            0 < b < 0x1_0000,
    ;
    let num: u128 = den + 3 * (a as u128) * (b as u128);
    if grow {
        assert(w * num <= 0xffff_ffff * num) by (nonlinear_arith)
            requires
                w <= 0xffff_ffff,
                num >= 0,
        ;
        let scaled: u128 = (w as u128 * num) / den;
        if scaled > u32::MAX as u128 {
            u32::MAX
        } else {
            scaled as u32
        }
    } else {
        assert(w * den <= 0xffff_ffff * den) by (nonlinear_arith)
            requires
                w <= 0xffff_ffff,
                den >= 0,
        ;
        let scaled: u128 = (w as u128 * den) / num;
        if scaled < 1 {
            1
        } else {
            scaled as u32
        }
    }
}

/// `after` is `before` with some of its weights jittered, each by draws of
/// its own.
pub open spec fn is_perturbation(after: Seq<u32>, before: Seq<u32>) -> bool {
    &&& after.len() == before.len()
    &&& forall|i: int|
        0 <= i < after.len() ==> after[i] == before[i] || exists|grow: bool, a: int, b: int|
            unit_draws(a, b) && after[i] == #[trigger] jittered(before[i], grow, a, b)
}

/// Jitters each weight with a chance of one in four, multiplying or
/// dividing it as a coin falls.
pub fn perturb(rng: &mut StdRng, values: &mut [u32])
    ensures
        is_perturbation(final(values)@, old(values)@),
        forall|i: int| 0 <= i < old(values)@.len() && old(values)@[i] > 0 ==> final(values)@[i] > 0,
{
    let n = values.len();
    let mut i: usize = 0;
    while i < n
        invariant
            i <= n,
            n == values@.len(),
            n == old(values)@.len(),
            forall|j: int| i <= j < n ==> values@[j] == old(values)@[j],
            forall|j: int|
                0 <= j < i ==> values@[j] == old(values)@[j] || exists|grow: bool, a: int, b: int|
                    unit_draws(a, b) && values@[j] == #[trigger] jittered(old(values)@[j], grow, a, b),
            forall|j: int| 0 <= j < i && old(values)@[j] > 0 ==> values@[j] > 0,
        decreases n - i,
    {
        if ratio(rng, 1, 4) {
            let a = rand_unit(rng);
            let b = rand_unit(rng);
            let grow = coin(rng);
            let w = jitter(values[i], grow, a, b);
            assert(w == jittered(old(values)@[i as int], grow, a as int, b as int));
            values[i] = w;
        }
        i += 1;
    }
}

/// The sum of the steps that the draws stand for: a draw `d` below 5 is the
/// step `d - 2`.
pub open spec fn steps_sum(draws: Seq<u64>) -> int
    decreases draws.len(),
{
    if draws.len() == 0 {
        0
    } else {
        steps_sum(draws.drop_last()) + (draws.last() - 2)
    }
}

/// `sum` is the sum of the fifteen steps that `draws` stand for.
pub open spec fn sums_to(draws: Seq<u64>, sum: i8) -> bool {
    &&& draws.len() == 15
    &&& forall|k: int| 0 <= k < 15 ==> draws[k] < 5
    &&& steps_sum(draws) == sum
}

} // verus!
