//! The random expression generator and the weights that steer it.

use vstd::prelude::*;
use vstd::slice::slice_to_vec;
use rand::rngs::StdRng;
use crate::expr::{shorter, Binary, IExpr, Unary, VExpr};
use crate::rng::{any_scalar, coin};
use crate::utils::{is_crossover, is_perturbation, is_pick, lemma_total_bounds, total};
use crate::utils::{small_positive, weighted_choice, WEIGHT_ONE};
use crate::utils;

verus! {

/// The weights that steer the generator: one vector for each choice that
/// it makes. Every weight is positive.
#[derive(Debug, PartialEq, Eq)]
pub struct Parameters {
    root_iexpr_weights: [u32; 3],
    max_depth_iexpr_weights: [u32; 3],
    min_depth_iexpr_weights: [u32; 6],
    iexpr_weights: [u32; 9],
    min_depth_vexpr_weights: [u32; 6],
    vexpr_weights: [u32; 7],
    unary_weights: [u32; 8],
    binary_weights: [u32; 6],
}

/// Every weight of every vector is positive.
pub open spec fn all_positive(vectors: Seq<Seq<u32>>) -> bool {
    forall|v: int, i: int|
        0 <= v < vectors.len() && 0 <= i < vectors[v].len() ==> (#[trigger] vectors[v][i]) > 0
}

/// Eight vectors of 3, 3, 6, 9, 6, 7, 8 and 6 weights.
pub open spec fn shaped(vectors: Seq<Seq<u32>>) -> bool {
    &&& vectors.len() == 8
    &&& vectors[0].len() == 3
    &&& vectors[1].len() == 3
    &&& vectors[2].len() == 6
    &&& vectors[3].len() == 9
    &&& vectors[4].len() == 6
    &&& vectors[5].len() == 7
    &&& vectors[6].len() == 8
    &&& vectors[7].len() == 6
}

/// The vectors have the eight lengths, and every weight is 1.
pub open spec fn all_ones(vectors: Seq<Seq<u32>>) -> bool {
    &&& shaped(vectors)
    &&& forall|v: int, i: int|
        0 <= v < 8 && 0 <= i < vectors[v].len() ==> (#[trigger] vectors[v][i]) == WEIGHT_ONE
}

/// Vector by vector, every weight of `child` is the weight that one of the
/// two parents has in that place.
pub open spec fn crossed(child: Seq<Seq<u32>>, left: Seq<Seq<u32>>, right: Seq<Seq<u32>>) -> bool {
    &&& child.len() == left.len()
    &&& forall|v: int| 0 <= v < child.len() ==> is_crossover(#[trigger] child[v], left[v], right[v])
}

/// Vector by vector, `after` is `before` with some weights jittered.
pub open spec fn perturbed(after: Seq<Seq<u32>>, before: Seq<Seq<u32>>) -> bool {
    &&& after.len() == before.len()
    &&& forall|v: int| 0 <= v < after.len() ==> is_perturbation(#[trigger] after[v], before[v])
}

/// `child` is a crossing of the two parents that was then perturbed.
pub open spec fn bred(child: Seq<Seq<u32>>, left: Seq<Seq<u32>>, right: Seq<Seq<u32>>) -> bool {
    exists|crossing: Seq<Seq<u32>>| #[trigger] crossed(crossing, left, right) && perturbed(child, crossing)
}

/// Crossing two parents with the same weights gives those weights back,
/// every one of them.
pub proof fn lemma_crossing_of_equals(child: Seq<Seq<u32>>, parent: Seq<Seq<u32>>)
    requires
        crossed(child, parent, parent),
    ensures
        child == parent,
{
    assert forall|v: int| 0 <= v < child.len() implies child[v] == parent[v] by {
        assert(is_crossover(child[v], parent[v], parent[v]));
        assert(child[v] =~= parent[v]);
    }
    assert(child =~= parent);
}

impl Default for Parameters {
    /// Every weight is 1.
    fn default() -> (p: Self)
        ensures
            all_ones(p.vectors()),
    {
        let one = WEIGHT_ONE;
        Parameters {
            root_iexpr_weights: [one, one, one],
            max_depth_iexpr_weights: [one, one, one],
            min_depth_iexpr_weights: [one, one, one, one, one, one],
            iexpr_weights: [one, one, one, one, one, one, one, one, one],
            min_depth_vexpr_weights: [one, one, one, one, one, one],
            vexpr_weights: [one, one, one, one, one, one, one],
            unary_weights: [one, one, one, one, one, one, one, one],
            binary_weights: [one, one, one, one, one, one],
        }
    }
}

/// Chooses among a few productions by their weights: the production on
/// which a draw between 1 and the total of the weights falls. A production
/// of weight zero is never chosen.
fn draw_production(rng: &mut StdRng, weights: &[u32]) -> (index: usize)
    requires
        1 <= weights@.len() <= 9,
        total(weights@) > 0,
    ensures
        index < weights@.len(),
        weights@[index as int] > 0,
        exists|draw: nat| 1 <= draw <= total(weights@) && #[trigger] is_pick(weights@, draw, index as int),
{
    proof {
        lemma_total_bounds(weights@, 0);
    }
    weighted_choice(rng, weights)
}

impl Parameters {
    /// The eight weight vectors: root wrapper, scalar leaves, scalar
    /// growth, all scalar productions, pair growth, all pair productions,
    /// unary operators, binary operators.
    pub closed spec fn vectors(self) -> Seq<Seq<u32>> {
        seq![
            self.root_iexpr_weights@,
            self.max_depth_iexpr_weights@,
            self.min_depth_iexpr_weights@,
            self.iexpr_weights@,
            self.min_depth_vexpr_weights@,
            self.vexpr_weights@,
            self.unary_weights@,
            self.binary_weights@,
        ]
    }

    /// Every weight is positive, so that every choice has a positive total.
    #[verifier::type_invariant]
    closed spec fn positive(self) -> bool {
        all_positive(self.vectors())
    }

    /// The weight vectors, in the order of `vectors`.
    pub fn weights(&self) -> (all: Vec<Vec<u32>>)
        ensures
            all@.len() == 8,
            forall|v: int| 0 <= v < 8 ==> (#[trigger] all@[v])@ == self.vectors()[v],
            shaped(self.vectors()),
            all_positive(self.vectors()),
    {
        proof {
            use_type_invariant(self);
        }
        let mut all: Vec<Vec<u32>> = Vec::new();
        all.push(slice_to_vec(&self.root_iexpr_weights));
        all.push(slice_to_vec(&self.max_depth_iexpr_weights));
        all.push(slice_to_vec(&self.min_depth_iexpr_weights));
        all.push(slice_to_vec(&self.iexpr_weights));
        all.push(slice_to_vec(&self.min_depth_vexpr_weights));
        all.push(slice_to_vec(&self.vexpr_weights));
        all.push(slice_to_vec(&self.unary_weights));
        all.push(slice_to_vec(&self.binary_weights));
        all
    }

    /// Jitters some of the weights, each with a chance of one in four.
    fn perturb(&mut self, rng: &mut StdRng)
        ensures
            perturbed(final(self).vectors(), old(self).vectors()),
    {
        proof {
            use_type_invariant(&*self);
        }
        let mut root = self.root_iexpr_weights;
        let mut max_depth = self.max_depth_iexpr_weights;
        let mut min_depth = self.min_depth_iexpr_weights;
        let mut iexpr = self.iexpr_weights;
        let mut min_depth_vexpr = self.min_depth_vexpr_weights;
        let mut vexpr = self.vexpr_weights;
        let mut unary = self.unary_weights;
        let mut binary = self.binary_weights;
        utils::perturb(rng, &mut root);
        utils::perturb(rng, &mut max_depth);
        utils::perturb(rng, &mut min_depth);
        utils::perturb(rng, &mut iexpr);
        utils::perturb(rng, &mut min_depth_vexpr);
        utils::perturb(rng, &mut vexpr);
        utils::perturb(rng, &mut unary);
        utils::perturb(rng, &mut binary);
        *self = Parameters {
            root_iexpr_weights: root,
            max_depth_iexpr_weights: max_depth,
            min_depth_iexpr_weights: min_depth,
            iexpr_weights: iexpr,
            min_depth_vexpr_weights: min_depth_vexpr,
            vexpr_weights: vexpr,
            unary_weights: unary,
            binary_weights: binary,
        };
    }

    /// A child that takes each weight from this parent or from `other`, as
    /// a coin falls.
    pub fn crossover(&self, other: &Self, rng: &mut StdRng) -> (child: Self)
        ensures
            crossed(child.vectors(), self.vectors(), other.vectors()),
            self.vectors() == other.vectors() ==> child.vectors() == self.vectors(),
    {
        proof {
            use_type_invariant(self);
            use_type_invariant(other);
        }
        let mut root = self.root_iexpr_weights;
        let mut max_depth = self.max_depth_iexpr_weights;
        let mut min_depth = self.min_depth_iexpr_weights;
        let mut iexpr = self.iexpr_weights;
        let mut min_depth_vexpr = self.min_depth_vexpr_weights;
        let mut vexpr = self.vexpr_weights;
        let mut unary = self.unary_weights;
        let mut binary = self.binary_weights;
        utils::mutate(rng, &self.root_iexpr_weights, &other.root_iexpr_weights, &mut root);
        utils::mutate(
            rng,
            &self.max_depth_iexpr_weights,
            &other.max_depth_iexpr_weights,
            &mut max_depth,
        );
        utils::mutate(
            rng,
            &self.min_depth_iexpr_weights,
            &other.min_depth_iexpr_weights,
            &mut min_depth,
        );
        utils::mutate(rng, &self.iexpr_weights, &other.iexpr_weights, &mut iexpr);
        utils::mutate(
            rng,
            &self.min_depth_vexpr_weights,
            &other.min_depth_vexpr_weights,
            &mut min_depth_vexpr,
        );
        utils::mutate(rng, &self.vexpr_weights, &other.vexpr_weights, &mut vexpr);
        utils::mutate(rng, &self.unary_weights, &other.unary_weights, &mut unary);
        utils::mutate(rng, &self.binary_weights, &other.binary_weights, &mut binary);
        let child = Parameters {
            root_iexpr_weights: root,
            max_depth_iexpr_weights: max_depth,
            min_depth_iexpr_weights: min_depth,
            iexpr_weights: iexpr,
            min_depth_vexpr_weights: min_depth_vexpr,
            vexpr_weights: vexpr,
            unary_weights: unary,
            binary_weights: binary,
        };
        proof {
            if self.vectors() == other.vectors() {
                lemma_crossing_of_equals(child.vectors(), self.vectors());
            }
        }
        child
    }

    /// A child of this parent and `other`: a crossing of the two, then
    /// perturbed.
    pub fn mutate(&self, other: &Self, rng: &mut StdRng) -> (child: Self)
        ensures
            bred(child.vectors(), self.vectors(), other.vectors()),
    {
        let mut new = self.crossover(other, rng);
        let ghost crossing = new.vectors();
        new.perturb(rng);
        assert(crossed(crossing, self.vectors(), other.vectors()) && perturbed(new.vectors(), crossing));
        new
    }

    /// A constant: as a coin falls, a triple of small positive channels or
    /// any scalar.
    fn gen_literal(rng: &mut StdRng) -> (e: IExpr)
        ensures
            e is Lit || e is Rgb,
            e.small_operands(),
    {
        if coin(rng) {
            let r = small_positive(rng);
            let g = small_positive(rng);
            let b = small_positive(rng);
            IExpr::Rgb([r, g, b])
        } else {
            IExpr::Lit(any_scalar(rng))
        }
    }

    /// A unary operator chosen by its weight; a divisor or modulus is a
    /// small positive number.
    fn gen_unary(&self, rng: &mut StdRng) -> (op: Unary)
        ensures
            op.small_operand(),
            op.well_formed(),
            exists|index: int, operand: u8|
                self.offers(6, index) && 1 <= operand <= 30 && op == #[trigger] Unary::at(
                    index,
                    operand,
                ),
    {
        proof {
            use_type_invariant(self);
            self.lemma_totals();
        }
        let index = draw_production(rng, &self.unary_weights);
        let operand = if index == 4 || index == 5 { small_positive(rng) } else { 1 };
        let op = Unary::from_index(index, operand);
        assert(self.offers(6, index as int) && op == Unary::at(index as int, operand));
        op
    }

    /// A binary operator chosen by its weight: the operator whose number is
    /// drawn from the weights of the binary operators.
    fn gen_binary(&self, rng: &mut StdRng) -> (op: Binary)
        ensures
            exists|index: int| self.offers(7, index) && op == #[trigger] Binary::at(index),
    {
        proof {
            use_type_invariant(self);
            self.lemma_totals();
        }
        let index = draw_production(rng, &self.binary_weights);
        let op = Binary::from_index(index);
        assert(self.offers(7, index as int) && op == Binary::at(index as int));
        op
    }

    /// A random pair expression no higher than `max_depth` whose leaves all
    /// lie at least `min_depth` deep, as far as `max_depth` allows.
    pub fn gen_vexpr(&self, rng: &mut StdRng, max_depth: u8, min_depth: u8) -> (v: VExpr)
        ensures
            v.well_formed(),
            v.small_operands(),
            v.height() <= max_depth,
            v.shortest() >= shorter(min_depth as nat, max_depth as nat),
        decreases max_depth, 0int,
    {
        proof {
            use_type_invariant(self);
            self.lemma_totals();
        }
        if max_depth == 0 {
            VExpr::Pixel
        } else if min_depth != 0 {
            match draw_production(rng, &self.min_depth_vexpr_weights) {
                0 => {
                    let sub_e = self.gen_vexpr(rng, max_depth - 1, min_depth - 1);
                    VExpr::Swap(Box::new(sub_e))
                },
                1 => {
                    let op_1 = self.gen_binary(rng);
                    let op_2 = self.gen_binary(rng);
                    let e_1 = self.gen_iexpr(rng, max_depth - 1, min_depth - 1);
                    let e_2 = self.gen_iexpr(rng, max_depth - 1, min_depth - 1);
                    VExpr::BinaryI(op_1, op_2, Box::new(e_1), Box::new(e_2))
                },
                2 => {
                    let op = self.gen_unary(rng);
                    let sub_e = self.gen_vexpr(rng, max_depth - 1, min_depth - 1);
                    VExpr::UnaryV(op, Box::new(sub_e))
                },
                3 => {
                    let op = self.gen_binary(rng);
                    let e_1 = self.gen_vexpr(rng, max_depth - 1, min_depth - 1);
                    let e_2 = self.gen_vexpr(rng, max_depth - 1, min_depth - 1);
                    VExpr::BinaryV(op, Box::new(e_1), Box::new(e_2))
                },
                4 => {
                    let e_cond = self.gen_iexpr(rng, max_depth - 1, min_depth - 1);
                    let e_then = self.gen_vexpr(rng, max_depth - 1, min_depth - 1);
                    let e_else = self.gen_vexpr(rng, max_depth - 1, min_depth - 1);
                    VExpr::IfThenElseI(Box::new(e_cond), Box::new(e_then), Box::new(e_else))
                },
                _ => {
                    let e_cond = self.gen_vexpr(rng, max_depth - 1, min_depth - 1);
                    let e_then = self.gen_vexpr(rng, max_depth - 1, min_depth - 1);
                    let e_else = self.gen_vexpr(rng, max_depth - 1, min_depth - 1);
                    VExpr::IfThenElseV(Box::new(e_cond), Box::new(e_then), Box::new(e_else))
                },
            }
        } else {
            match draw_production(rng, &self.vexpr_weights) {
                0 => VExpr::Pixel,
                1 => {
                    let sub_e = self.gen_vexpr(rng, max_depth - 1, 0);
                    VExpr::Swap(Box::new(sub_e))
                },
                2 => {
                    let op_1 = self.gen_binary(rng);
                    let op_2 = self.gen_binary(rng);
                    let e_1 = self.gen_iexpr(rng, max_depth - 1, 0);
                    let e_2 = self.gen_iexpr(rng, max_depth - 1, 0);
                    VExpr::BinaryI(op_1, op_2, Box::new(e_1), Box::new(e_2))
                },
                3 => {
                    let op = self.gen_unary(rng);
                    let sub_e = self.gen_vexpr(rng, max_depth - 1, 0);
                    VExpr::UnaryV(op, Box::new(sub_e))
                },
                4 => {
                    let op = self.gen_binary(rng);
                    let e_1 = self.gen_vexpr(rng, max_depth - 1, 0);
                    let e_2 = self.gen_vexpr(rng, max_depth - 1, 0);
                    VExpr::BinaryV(op, Box::new(e_1), Box::new(e_2))
                },
                5 => {
                    let e_cond = self.gen_iexpr(rng, max_depth - 1, 0);
                    let e_then = self.gen_vexpr(rng, max_depth - 1, 0);
                    let e_else = self.gen_vexpr(rng, max_depth - 1, 0);
                    VExpr::IfThenElseI(Box::new(e_cond), Box::new(e_then), Box::new(e_else))
                },
                _ => {
                    let e_cond = self.gen_vexpr(rng, max_depth - 1, 0);
                    let e_then = self.gen_vexpr(rng, max_depth - 1, 0);
                    let e_else = self.gen_vexpr(rng, max_depth - 1, 0);
                    VExpr::IfThenElseV(Box::new(e_cond), Box::new(e_then), Box::new(e_else))
                },
            }
        }
    }

    /// A random scalar expression no higher than `max_depth` whose leaves
    /// all lie at least `min_depth` deep, as far as `max_depth` allows.
    pub fn gen_iexpr(&self, rng: &mut StdRng, max_depth: u8, min_depth: u8) -> (e: IExpr)
        ensures
            e.well_formed(),
            e.small_operands(),
            e.height() <= max_depth,
            e.shortest() >= shorter(min_depth as nat, max_depth as nat),
        decreases max_depth, 0int,
    {
        proof {
            use_type_invariant(self);
            self.lemma_totals();
        }
        if max_depth == 0 {
            match draw_production(rng, &self.max_depth_iexpr_weights) {
                0 => Self::gen_literal(rng),
                1 => if coin(rng) {
                    IExpr::PixelX
                } else {
                    IExpr::PixelY
                },
                _ => IExpr::Channel,
            }
        } else if min_depth != 0 {
            match draw_production(rng, &self.min_depth_iexpr_weights) {
                0 => {
                    let sub_e = self.gen_iexpr(rng, max_depth - 1, min_depth - 1);
                    IExpr::Scale256(Box::new(sub_e))
                },
                1 => {
                    let op = self.gen_unary(rng);
                    let sub_e = self.gen_iexpr(rng, max_depth - 1, min_depth - 1);
                    IExpr::UnaryI(op, Box::new(sub_e))
                },
                2 => {
                    let op = self.gen_binary(rng);
                    let e_1 = self.gen_iexpr(rng, max_depth - 1, min_depth - 1);
                    let e_2 = self.gen_iexpr(rng, max_depth - 1, min_depth - 1);
                    IExpr::BinaryI(op, Box::new(e_1), Box::new(e_2))
                },
                3 => {
                    let op = self.gen_binary(rng);
                    let sub_e = self.gen_vexpr(rng, max_depth - 1, min_depth - 1);
                    IExpr::BinaryV(op, Box::new(sub_e))
                },
                4 => {
                    let e_cond = self.gen_iexpr(rng, max_depth - 1, min_depth - 1);
                    let e_then = self.gen_iexpr(rng, max_depth - 1, min_depth - 1);
                    let e_else = self.gen_iexpr(rng, max_depth - 1, min_depth - 1);
                    IExpr::IfThenElseI(Box::new(e_cond), Box::new(e_then), Box::new(e_else))
                },
                _ => {
                    let e_cond = self.gen_iexpr(rng, max_depth - 1, min_depth - 1);
                    let e_case = self.gen_vexpr(rng, max_depth - 1, min_depth - 1);
                    IExpr::IfThenElseV(Box::new(e_cond), Box::new(e_case))
                },
            }
        } else {
            match draw_production(rng, &self.iexpr_weights) {
                0 => Self::gen_literal(rng),
                1 => if coin(rng) {
                    IExpr::PixelX
                } else {
                    IExpr::PixelY
                },
                2 => IExpr::Channel,
                3 => {
                    let sub_e = self.gen_iexpr(rng, max_depth - 1, 0);
                    IExpr::Scale256(Box::new(sub_e))
                },
                4 => {
                    let op = self.gen_unary(rng);
                    let sub_e = self.gen_iexpr(rng, max_depth - 1, 0);
                    IExpr::UnaryI(op, Box::new(sub_e))
                },
                5 => {
                    let op = self.gen_binary(rng);
                    let e_1 = self.gen_iexpr(rng, max_depth - 1, 0);
                    let e_2 = self.gen_iexpr(rng, max_depth - 1, 0);
                    IExpr::BinaryI(op, Box::new(e_1), Box::new(e_2))
                },
                6 => {
                    let op = self.gen_binary(rng);
                    let sub_e = self.gen_vexpr(rng, max_depth - 1, 0);
                    IExpr::BinaryV(op, Box::new(sub_e))
                },
                7 => {
                    let e_cond = self.gen_iexpr(rng, max_depth - 1, 0);
                    let e_then = self.gen_iexpr(rng, max_depth - 1, 0);
                    let e_else = self.gen_iexpr(rng, max_depth - 1, 0);
                    IExpr::IfThenElseI(Box::new(e_cond), Box::new(e_then), Box::new(e_else))
                },
                _ => {
                    let e_cond = self.gen_iexpr(rng, max_depth - 1, 0);
                    let e_case = self.gen_vexpr(rng, max_depth - 1, 0);
                    IExpr::IfThenElseV(Box::new(e_cond), Box::new(e_case))
                },
            }
        }
    }

    /// A random expression: an interior no higher than `max_depth`, with
    /// leaves at least `min_depth` deep as far as `max_depth` allows, under
    /// a root that makes every channel a byte.
    pub fn gen_expr(&self, rng: &mut StdRng, max_depth: u8, min_depth: u8) -> (e: IExpr)
        ensures
            e.byte_ranged(),
            e.well_formed(),
            e.small_operands(),
            e.height() <= max_depth + 1,
            e.shortest() >= shorter(min_depth as nat, max_depth as nat) + 1,
    {
        proof {
            use_type_invariant(self);
            self.lemma_totals();
        }
        let interior = self.gen_iexpr(rng, max_depth, min_depth);
        match draw_production(rng, &self.root_iexpr_weights) {
            0 => IExpr::Scale256(Box::new(interior)),
            1 => IExpr::UnaryI(Unary::Mod256, Box::new(interior)),
            _ => IExpr::UnaryI(Unary::Clamp256, Box::new(interior)),
        }
    }
}

impl Parameters {
    /// The vector `v` offers the production `index`: it has a weight for
    /// it, and the weight is positive.
    pub open spec fn offers(self, v: int, index: int) -> bool {
        &&& 0 <= v < self.vectors().len()
        &&& 0 <= index < self.vectors()[v].len()
        &&& self.vectors()[v][index] > 0
    }

    /// Each of the eight vectors has a positive total.
    proof fn lemma_totals(self)
        requires
            self.positive(),
        ensures
            total(self.root_iexpr_weights@) > 0,
            total(self.max_depth_iexpr_weights@) > 0,
            total(self.min_depth_iexpr_weights@) > 0,
            total(self.iexpr_weights@) > 0,
            total(self.min_depth_vexpr_weights@) > 0,
            total(self.vexpr_weights@) > 0,
            total(self.unary_weights@) > 0,
            total(self.binary_weights@) > 0,
            self.vectors()[6] == self.unary_weights@,
            self.vectors()[7] == self.binary_weights@,
    {
        assert(forall|v: int| 0 <= v < 8 ==> (#[trigger] self.vectors()[v])[0] > 0);
        lemma_total_bounds(self.root_iexpr_weights@, 0);
        lemma_total_bounds(self.max_depth_iexpr_weights@, 0);
        lemma_total_bounds(self.min_depth_iexpr_weights@, 0);
        lemma_total_bounds(self.iexpr_weights@, 0);
        lemma_total_bounds(self.min_depth_vexpr_weights@, 0);
        lemma_total_bounds(self.vexpr_weights@, 0);
        lemma_total_bounds(self.unary_weights@, 0);
        lemma_total_bounds(self.binary_weights@, 0);
    }
}

} // verus!
