//! The expression model: operators, scalar expressions and pair expressions.

use vstd::prelude::*;
use crate::utils::{clamp, clamp_spec};

verus! {

/// The 32-bit signed integer that is congruent to `x` modulo 2^32.
pub open spec fn wrap_i32(x: int) -> i32 {
    let m = x % 0x1_0000_0000;
    if m > i32::MAX { (m - 0x1_0000_0000) as i32 } else { m as i32 }
}

/// An operator on one scalar.
#[derive(Clone, Copy, Debug, PartialEq, Eq)]
pub enum Unary {
    Square,
    Cube,
    Abs,
    Neg,
    DivBy(u8),
    ModBy(u8),
    Mod256,
    Clamp256,
}

impl Unary {
    /// A divisor or modulus of zero has no value.
    pub open spec fn well_formed(self) -> bool {
        match self {
            Unary::DivBy(d) => d != 0,
            Unary::ModBy(d) => d != 0,
            _ => true,
        }
    }

    /// The operator's value on `n`: wrapping powers, absolute value and
    /// negation, Euclidean quotient and remainder, and clamping to a byte.
    pub open spec fn eval_spec(self, n: i32) -> i32 {
        match self {
            Unary::Square => wrap_i32(n * n),
            Unary::Cube => wrap_i32(wrap_i32(n * n) * n),
            Unary::Abs => if n < 0 { wrap_i32(-n) } else { n },
            Unary::Neg => wrap_i32(-n),
            Unary::DivBy(d) => (n as int / d as int) as i32,
            Unary::ModBy(d) => (n as int % d as int) as i32,
            Unary::Mod256 => (n as int % 256) as i32,
            Unary::Clamp256 => clamp_spec(0, 255, n),
        }
    }

    /// A divisor or modulus lies between 1 and 30.
    pub open spec fn small_operand(self) -> bool {
        match self {
            Unary::DivBy(d) => 1 <= d <= 30,
            Unary::ModBy(d) => 1 <= d <= 30,
            _ => true,
        }
    }

    /// The operator with the given number, in the order of the
    /// declaration; `operand` is the divisor or modulus where the operator
    /// has one. Numbers past the last stand for the last.
    pub open spec fn at(index: int, operand: u8) -> Unary {
        if index == 0 {
            Unary::Square
        } else if index == 1 {
            Unary::Cube
        } else if index == 2 {
            Unary::Abs
        } else if index == 3 {
            Unary::Neg
        } else if index == 4 {
            Unary::DivBy(operand)
        } else if index == 5 {
            Unary::ModBy(operand)
        } else if index == 6 {
            Unary::Mod256
        } else {
            Unary::Clamp256
        }
    }

    /// The operator with the given number.
    pub fn from_index(index: usize, operand: u8) -> (op: Unary)
        ensures
            op == Unary::at(index as int, operand),
    {
        match index {
            0 => Unary::Square,
            1 => Unary::Cube,
            2 => Unary::Abs,
            3 => Unary::Neg,
            4 => Unary::DivBy(operand),
            5 => Unary::ModBy(operand),
            6 => Unary::Mod256,
            _ => Unary::Clamp256,
        }
    }

    /// Whether the operator is free of a zero divisor.
    pub fn is_well_formed(self) -> (ok: bool)
        ensures
            ok == self.well_formed(),
    {
        match self {
            Unary::DivBy(d) => d != 0,
            Unary::ModBy(d) => d != 0,
            _ => true,
        }
    }

    /// Applies the operator to `n`.
    pub fn eval(self, n: i32) -> (r: i32)
        requires
            self.well_formed(),
        ensures
            r == self.eval_spec(n),
    {
        match self {
            Unary::Square => n.wrapping_mul(n),
            Unary::Cube => n.wrapping_mul(n).wrapping_mul(n),
            Unary::Abs => if n < 0 { 0i32.wrapping_sub(n) } else { n },
            Unary::Neg => 0i32.wrapping_sub(n),
            Unary::DivBy(d) => euclid_div(n, d),
            Unary::ModBy(d) => euclid_rem(n, d as i32),
            Unary::Mod256 => euclid_rem(n, 256),
            Unary::Clamp256 => clamp(0, 255, n),
        }
    }
}

/// The Euclidean quotient of `n` by a positive byte.
fn euclid_div(n: i32, d: u8) -> (q: i32)
    requires
        d != 0,
    ensures
        q == n as int / d as int,
{
    assert(i32::MIN <= n as int / d as int <= i32::MAX) by (nonlinear_arith)
        requires
            i32::MIN <= n <= i32::MAX,
            0 < d,
    ;
    match n.checked_div_euclid(d as i32) {
        Some(q) => q,
        None => 0,
    }
}

/// The Euclidean remainder of `n` by a positive modulus.
fn euclid_rem(n: i32, m: i32) -> (r: i32)
    requires
        m > 0,
    ensures
        r == n as int % m as int,
        0 <= r < m,
{
    match n.checked_rem_euclid(m) {
        Some(r) => r,
        None => 0,
    }
}

/// An operator on two scalars.
#[derive(Clone, Copy, Debug, PartialEq, Eq)]
pub enum Binary {
    Add,
    Sub,
    Mul,
    BitAnd,
    BitOr,
    BitXor,
}

impl Binary {
    /// The operator's value on `a` and `b`: wrapping arithmetic, or the
    /// bitwise operation on the two's complement representation.
    pub open spec fn eval_spec(self, a: i32, b: i32) -> i32 {
        match self {
            Binary::Add => wrap_i32(a + b),
            Binary::Sub => wrap_i32(a - b),
            Binary::Mul => wrap_i32(a * b),
            Binary::BitAnd => a & b,
            Binary::BitOr => a | b,
            Binary::BitXor => a ^ b,
        }
    }

    /// The operator with the given number, in the order of the
    /// declaration. Numbers past the last stand for the last.
    pub open spec fn at(index: int) -> Binary {
        if index == 0 {
            Binary::Add
        } else if index == 1 {
            Binary::Sub
        } else if index == 2 {
            Binary::Mul
        } else if index == 3 {
            Binary::BitAnd
        } else if index == 4 {
            Binary::BitOr
        } else {
            Binary::BitXor
        }
    }

    /// The operator with the given number.
    pub fn from_index(index: usize) -> (op: Binary)
        ensures
            op == Binary::at(index as int),
    {
        match index {
            0 => Binary::Add,
            1 => Binary::Sub,
            2 => Binary::Mul,
            3 => Binary::BitAnd,
            4 => Binary::BitOr,
            _ => Binary::BitXor,
        }
    }

    /// Applies the operator to `a` and `b`.
    pub fn eval(self, a: i32, b: i32) -> (r: i32)
        ensures
            r == self.eval_spec(a, b),
    {
        match self {
            Binary::Add => a.wrapping_add(b),
            Binary::Sub => a.wrapping_sub(b),
            Binary::Mul => a.wrapping_mul(b),
            Binary::BitAnd => a & b,
            Binary::BitOr => a | b,
            Binary::BitXor => a ^ b,
        }
    }
}

/// A pixel position: column and row.
pub type Position = (i32, i32);

/// An expression with one value per position.
#[derive(Debug, PartialEq, Eq)]
pub enum IExpr {
    Lit(i32),
    Rgb([u8; 3]),
    PixelX,
    PixelY,
    Channel,
    Scale256(Box<IExpr>),
    UnaryI(Unary, Box<IExpr>),
    BinaryI(Binary, Box<IExpr>, Box<IExpr>),
    BinaryV(Binary, Box<VExpr>),
    IfThenElseI(Box<IExpr>, Box<IExpr>, Box<IExpr>),
    IfThenElseV(Box<IExpr>, Box<VExpr>),
}

/// An expression with a pair of values per position.
#[derive(Debug, PartialEq, Eq)]
pub enum VExpr {
    Pixel,
    Swap(Box<VExpr>),
    BinaryI(Binary, Binary, Box<IExpr>, Box<IExpr>),
    UnaryV(Unary, Box<VExpr>),
    BinaryV(Binary, Box<VExpr>, Box<VExpr>),
    IfThenElseI(Box<IExpr>, Box<VExpr>, Box<VExpr>),
    IfThenElseV(Box<VExpr>, Box<VExpr>, Box<VExpr>),
}

/// The larger of two lengths.
pub open spec fn longer(a: nat, b: nat) -> nat {
    if a >= b { a } else { b }
}

/// The smaller of two lengths.
pub open spec fn shorter(a: nat, b: nat) -> nat {
    if a <= b { a } else { b }
}

impl IExpr {
    /// No operator in the tree divides by zero.
    pub open spec fn well_formed(self) -> bool
        decreases self,
    {
        match self {
            IExpr::Lit(_) | IExpr::Rgb(_) | IExpr::PixelX | IExpr::PixelY | IExpr::Channel => true,
            IExpr::Scale256(e) => e.well_formed(),
            IExpr::UnaryI(op, e) => op.well_formed() && e.well_formed(),
            IExpr::BinaryI(_, a, b) => a.well_formed() && b.well_formed(),
            IExpr::BinaryV(_, v) => v.well_formed(),
            IExpr::IfThenElseI(c, t, e) => c.well_formed() && t.well_formed() && e.well_formed(),
            IExpr::IfThenElseV(c, v) => c.well_formed() && v.well_formed(),
        }
    }

    /// Every constant triple has channels between 1 and 30, and so has
    /// every divisor and modulus.
    pub open spec fn small_operands(self) -> bool
        decreases self,
    {
        match self {
            IExpr::Lit(_) | IExpr::PixelX | IExpr::PixelY | IExpr::Channel => true,
            IExpr::Rgb(c) => 1 <= c[0] <= 30 && 1 <= c[1] <= 30 && 1 <= c[2] <= 30,
            IExpr::Scale256(e) => e.small_operands(),
            IExpr::UnaryI(op, e) => op.small_operand() && e.small_operands(),
            IExpr::BinaryI(_, a, b) => a.small_operands() && b.small_operands(),
            IExpr::BinaryV(_, v) => v.small_operands(),
            IExpr::IfThenElseI(c, t, e) => c.small_operands() && t.small_operands()
                && e.small_operands(),
            IExpr::IfThenElseV(c, v) => c.small_operands() && v.small_operands(),
        }
    }

    /// The number of nodes below the root on the longest way down to a
    /// leaf.
    pub open spec fn height(self) -> nat
        decreases self,
    {
        match self {
            IExpr::Lit(_) | IExpr::Rgb(_) | IExpr::PixelX | IExpr::PixelY | IExpr::Channel => 0,
            IExpr::Scale256(e) => 1 + e.height(),
            IExpr::UnaryI(_, e) => 1 + e.height(),
            IExpr::BinaryI(_, a, b) => 1 + longer(a.height(), b.height()),
            IExpr::BinaryV(_, v) => 1 + v.height(),
            IExpr::IfThenElseI(c, t, e) => 1 + longer(c.height(), longer(t.height(), e.height())),
            IExpr::IfThenElseV(c, v) => 1 + longer(c.height(), v.height()),
        }
    }

    /// The number of nodes below the root on the shortest way down to a
    /// leaf.
    pub open spec fn shortest(self) -> nat
        decreases self,
    {
        match self {
            IExpr::Lit(_) | IExpr::Rgb(_) | IExpr::PixelX | IExpr::PixelY | IExpr::Channel => 0,
            IExpr::Scale256(e) => 1 + e.shortest(),
            IExpr::UnaryI(_, e) => 1 + e.shortest(),
            IExpr::BinaryI(_, a, b) => 1 + shorter(a.shortest(), b.shortest()),
            IExpr::BinaryV(_, v) => 1 + v.shortest(),
            IExpr::IfThenElseI(c, t, e) => 1 + shorter(
                c.shortest(),
                shorter(t.shortest(), e.shortest()),
            ),
            IExpr::IfThenElseV(c, v) => 1 + shorter(c.shortest(), v.shortest()),
        }
    }

    /// The root is one of the three operators whose results are bytes:
    /// normalisation, remainder by 256, or clamping.
    pub open spec fn byte_ranged(self) -> bool {
        match self {
            IExpr::Scale256(_) => true,
            IExpr::UnaryI(Unary::Mod256, _) => true,
            IExpr::UnaryI(Unary::Clamp256, _) => true,
            _ => false,
        }
    }

    /// Whether no operator in the tree divides by zero.
    pub fn is_well_formed(&self) -> (ok: bool)
        ensures
            ok == self.well_formed(),
        decreases self,
    {
        match self {
            IExpr::Lit(_) | IExpr::Rgb(_) | IExpr::PixelX | IExpr::PixelY | IExpr::Channel => true,
            IExpr::Scale256(e) => e.is_well_formed(),
            IExpr::UnaryI(op, e) => op.is_well_formed() && e.is_well_formed(),
            IExpr::BinaryI(_, a, b) => a.is_well_formed() && b.is_well_formed(),
            IExpr::BinaryV(_, v) => v.is_well_formed(),
            IExpr::IfThenElseI(c, t, e) => c.is_well_formed() && t.is_well_formed()
                && e.is_well_formed(),
            IExpr::IfThenElseV(c, v) => c.is_well_formed() && v.is_well_formed(),
        }
    }
}

impl VExpr {
    /// No operator in the tree divides by zero.
    pub open spec fn well_formed(self) -> bool
        decreases self,
    {
        match self {
            VExpr::Pixel => true,
            VExpr::Swap(v) => v.well_formed(),
            VExpr::BinaryI(_, _, a, b) => a.well_formed() && b.well_formed(),
            VExpr::UnaryV(op, v) => op.well_formed() && v.well_formed(),
            VExpr::BinaryV(_, a, b) => a.well_formed() && b.well_formed(),
            VExpr::IfThenElseI(c, t, e) => c.well_formed() && t.well_formed() && e.well_formed(),
            VExpr::IfThenElseV(c, t, e) => c.well_formed() && t.well_formed() && e.well_formed(),
        }
    }

    /// Every constant triple has channels between 1 and 30, and so has
    /// every divisor and modulus.
    pub open spec fn small_operands(self) -> bool
        decreases self,
    {
        match self {
            VExpr::Pixel => true,
            VExpr::Swap(v) => v.small_operands(),
            VExpr::BinaryI(_, _, a, b) => a.small_operands() && b.small_operands(),
            VExpr::UnaryV(op, v) => op.small_operand() && v.small_operands(),
            VExpr::BinaryV(_, a, b) => a.small_operands() && b.small_operands(),
            VExpr::IfThenElseI(c, t, e) => c.small_operands() && t.small_operands()
                && e.small_operands(),
            VExpr::IfThenElseV(c, t, e) => c.small_operands() && t.small_operands()
                && e.small_operands(),
        }
    }

    /// The number of nodes below the root on the longest way down to a
    /// leaf.
    pub open spec fn height(self) -> nat
        decreases self,
    {
        match self {
            VExpr::Pixel => 0,
            VExpr::Swap(v) => 1 + v.height(),
            VExpr::BinaryI(_, _, a, b) => 1 + longer(a.height(), b.height()),
            VExpr::UnaryV(_, v) => 1 + v.height(),
            VExpr::BinaryV(_, a, b) => 1 + longer(a.height(), b.height()),
            VExpr::IfThenElseI(c, t, e) => 1 + longer(c.height(), longer(t.height(), e.height())),
            VExpr::IfThenElseV(c, t, e) => 1 + longer(c.height(), longer(t.height(), e.height())),
        }
    }

    /// The number of nodes below the root on the shortest way down to a
    /// leaf.
    pub open spec fn shortest(self) -> nat
        decreases self,
    {
        match self {
            VExpr::Pixel => 0,
            VExpr::Swap(v) => 1 + v.shortest(),
            VExpr::BinaryI(_, _, a, b) => 1 + shorter(a.shortest(), b.shortest()),
            VExpr::UnaryV(_, v) => 1 + v.shortest(),
            VExpr::BinaryV(_, a, b) => 1 + shorter(a.shortest(), b.shortest()),
            VExpr::IfThenElseI(c, t, e) => 1 + shorter(
                c.shortest(),
                shorter(t.shortest(), e.shortest()),
            ),
            VExpr::IfThenElseV(c, t, e) => 1 + shorter(
                c.shortest(),
                shorter(t.shortest(), e.shortest()),
            ),
        }
    }

    /// Whether no operator in the tree divides by zero.
    pub fn is_well_formed(&self) -> (ok: bool)
        ensures
            ok == self.well_formed(),
        decreases self,
    {
        match self {
            VExpr::Pixel => true,
            VExpr::Swap(v) => v.is_well_formed(),
            VExpr::BinaryI(_, _, a, b) => a.is_well_formed() && b.is_well_formed(),
            VExpr::UnaryV(op, v) => op.is_well_formed() && v.is_well_formed(),
            VExpr::BinaryV(_, a, b) => a.is_well_formed() && b.is_well_formed(),
            VExpr::IfThenElseI(c, t, e) => c.is_well_formed() && t.is_well_formed()
                && e.is_well_formed(),
            VExpr::IfThenElseV(c, t, e) => c.is_well_formed() && t.is_well_formed()
                && e.is_well_formed(),
        }
    }
}

} // verus!
