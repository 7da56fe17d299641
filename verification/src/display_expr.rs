//! Expressions as text, in prefix notation: a list of items between
//! brackets, round for scalar expressions and square for pair expressions,
//! with the operator first.

use vstd::prelude::*;
use vstd::string::StringExecFns;
use crate::expr::{Binary, IExpr, Unary, VExpr};

verus! {

/// The decimal digit `d`.
pub open spec fn digit_text(d: int) -> Seq<char> {
    if d == 0 {
        "0"@
    } else if d == 1 {
        "1"@
    } else if d == 2 {
        "2"@
    } else if d == 3 {
        "3"@
    } else if d == 4 {
        "4"@
    } else if d == 5 {
        "5"@
    } else if d == 6 {
        "6"@
    } else if d == 7 {
        "7"@
    } else if d == 8 {
        "8"@
    } else {
        "9"@
    }
}

/// The natural number `n` in decimal digits, without leading zeros.
pub open spec fn natural_text(n: nat) -> Seq<char>
    decreases n,
{
    if n < 10 {
        digit_text(n as int)
    } else {
        natural_text(n / 10) + digit_text((n % 10) as int)
    }
}

/// The integer `n` in decimal digits, with a minus sign where it is
/// negative.
pub open spec fn integer_text(n: int) -> Seq<char> {
    if n < 0 {
        "-"@ + natural_text((-n) as nat)
    } else {
        natural_text(n as nat)
    }
}

/// The decimal digit `d` as text.
fn digit_str(d: u64) -> (s: &'static str)
    requires
        d < 10,
    ensures
        s@ == digit_text(d as int),
{
    match d {
        0 => "0",
        1 => "1",
        2 => "2",
        3 => "3",
        4 => "4",
        5 => "5",
        6 => "6",
        7 => "7",
        8 => "8",
        _ => "9",
    }
}

/// Appends `n` in decimal digits.
fn write_natural(out: &mut String, n: u64)
    ensures
        final(out)@ == old(out)@ + natural_text(n as nat),
    decreases n,
{
    if n >= 10 {
        write_natural(out, n / 10);
    }
    out.append(digit_str(n % 10));
    assert(out@ =~= old(out)@ + natural_text(n as nat));
}

/// Appends `n` in decimal digits, with its sign where it is negative.
fn write_integer(out: &mut String, n: i32)
    ensures
        final(out)@ == old(out)@ + integer_text(n as int),
{
    if n < 0 {
        out.append("-");
        write_natural(out, (0 - n as i64) as u64);
    } else {
        write_natural(out, n as u64);
    }
    assert(out@ =~= old(out)@ + integer_text(n as int));
}

/// The items with a space between each two.
pub open spec fn spaced(items: Seq<Seq<char>>) -> Seq<char>
    decreases items.len(),
{
    if items.len() == 0 {
        Seq::empty()
    } else if items.len() == 1 {
        items[0]
    } else {
        spaced(items.drop_last()) + " "@ + items.last()
    }
}

/// The items as a list between two brackets.
pub open spec fn list_text(open: Seq<char>, items: Seq<Seq<char>>, close: Seq<char>) -> Seq<char> {
    open + spaced(items) + close
}

/// The texts that the strings hold.
pub open spec fn texts(items: Seq<String>) -> Seq<Seq<char>> {
    Seq::new(items.len(), |i: int| items[i]@)
}

/// The items as a list between two brackets.
fn list(open: &str, items: Vec<String>, close: &str) -> (s: String)
    ensures
        s@ == list_text(open@, texts(items@), close@),
{
    let ghost all = texts(items@);
    let mut out = String::new();
    out.append(open);
    let mut i: usize = 0;
    while i < items.len()
        invariant
            i <= items@.len(),
            all == texts(items@),
            out@ == open@ + spaced(all.take(i as int)),
        decreases items@.len() - i,
    {
        let ghost before = out@;
        if i > 0 {
            out.append(" ");
        }
        out.append(items[i].as_str());
        proof {
            let upto = all.take(i + 1);
            assert(upto.drop_last() =~= all.take(i as int));
            assert(upto.last() == items@[i as int]@);
            assert(out@ =~= open@ + spaced(upto));
        }
        i += 1;
    }
    assert(all.take(i as int) =~= all);
    out.append(close);
    out
}

/// An owned copy of the text.
fn text_of(s: &str) -> (r: String)
    ensures
        r@ == s@,
{
    let mut out = String::new();
    out.append(s);
    assert(out@ =~= s@);
    out
}

impl Unary {
    /// The operator's name; division and remainder show their operand.
    pub open spec fn text(self) -> Seq<char> {
        match self {
            Unary::Square => "square"@,
            Unary::Cube => "cube"@,
            Unary::Abs => "abs"@,
            Unary::Neg => "neg"@,
            Unary::DivBy(n) => "/"@ + natural_text(n as nat),
            Unary::ModBy(n) => "%"@ + natural_text(n as nat),
            Unary::Mod256 => "mod-256"@,
            Unary::Clamp256 => "clamp"@,
        }
    }

    /// The operator as text.
    pub fn to_text(self) -> (s: String)
        ensures
            s@ == self.text(),
    {
        match self {
            Unary::Square => text_of("square"),
            Unary::Cube => text_of("cube"),
            Unary::Abs => text_of("abs"),
            Unary::Neg => text_of("neg"),
            Unary::DivBy(n) => {
                let mut out = text_of("/");
                write_natural(&mut out, n as u64);
                out
            },
            Unary::ModBy(n) => {
                let mut out = text_of("%");
                write_natural(&mut out, n as u64);
                out
            },
            Unary::Mod256 => text_of("mod-256"),
            Unary::Clamp256 => text_of("clamp"),
        }
    }
}

impl Binary {
    /// The operator's sign.
    pub open spec fn text(self) -> Seq<char> {
        match self {
            Binary::Add => "+"@,
            Binary::Sub => "-"@,
            Binary::Mul => "*"@,
            Binary::BitAnd => "&"@,
            Binary::BitOr => "|"@,
            Binary::BitXor => "^"@,
        }
    }

    /// The operator as text.
    pub fn to_text(self) -> (s: String)
        ensures
            s@ == self.text(),
    {
        match self {
            Binary::Add => text_of("+"),
            Binary::Sub => text_of("-"),
            Binary::Mul => text_of("*"),
            Binary::BitAnd => text_of("&"),
            Binary::BitOr => text_of("|"),
            Binary::BitXor => text_of("^"),
        }
    }
}

impl IExpr {
    /// The expression in prefix notation.
    pub open spec fn text(self) -> Seq<char>
        decreases self,
    {
        match self {
            IExpr::Lit(n) => integer_text(n as int),
            IExpr::Rgb(c) => natural_text(c[0] as nat) + "/"@ + natural_text(c[1] as nat) + "/"@
                + natural_text(c[2] as nat),
            IExpr::PixelX => "x"@,
            IExpr::PixelY => "y"@,
            IExpr::Channel => "c"@,
            IExpr::Scale256(e) => list_text("("@, seq!["scale-256"@, e.text()], ")"@),
            IExpr::UnaryI(op, e) => list_text("("@, seq![op.text(), e.text()], ")"@),
            IExpr::BinaryI(op, a, b) => list_text("("@, seq![op.text(), a.text(), b.text()], ")"@),
            IExpr::BinaryV(op, v) => list_text("("@, seq![op.text(), v.text()], ")"@),
            IExpr::IfThenElseI(c, t, e) => list_text(
                "("@,
                seq!["if"@, c.text(), t.text(), e.text()],
                ")"@,
            ),
            IExpr::IfThenElseV(c, v) => list_text("("@, seq!["if"@, c.text(), v.text()], ")"@),
        }
    }

    /// The expression as text.
    pub fn to_text(&self) -> (s: String)
        ensures
            s@ == self.text(),
        decreases self,
    {
        match self {
            IExpr::Lit(n) => {
                let mut out = String::new();
                write_integer(&mut out, *n);
                assert(out@ =~= self.text());
                out
            },
            IExpr::Rgb(c) => {
                let mut out = String::new();
                write_natural(&mut out, c[0] as u64);
                out.append("/");
                write_natural(&mut out, c[1] as u64);
                out.append("/");
                write_natural(&mut out, c[2] as u64);
                assert(out@ =~= self.text());
                out
            },
            IExpr::PixelX => text_of("x"),
            IExpr::PixelY => text_of("y"),
            IExpr::Channel => text_of("c"),
            IExpr::Scale256(e) => {
                let items = vec![text_of("scale-256"), e.to_text()];
                assert(texts(items@) =~= seq!["scale-256"@, e.text()]);
                list("(", items, ")")
            },
            IExpr::UnaryI(op, e) => {
                let items = vec![op.to_text(), e.to_text()];
                assert(texts(items@) =~= seq![op.text(), e.text()]);
                list("(", items, ")")
            },
            IExpr::BinaryI(op, a, b) => {
                let items = vec![op.to_text(), a.to_text(), b.to_text()];
                assert(texts(items@) =~= seq![op.text(), a.text(), b.text()]);
                list("(", items, ")")
            },
            IExpr::BinaryV(op, v) => {
                let items = vec![op.to_text(), v.to_text()];
                assert(texts(items@) =~= seq![op.text(), v.text()]);
                list("(", items, ")")
            },
            IExpr::IfThenElseI(c, t, e) => {
                let items = vec![text_of("if"), c.to_text(), t.to_text(), e.to_text()];
                assert(texts(items@) =~= seq!["if"@, c.text(), t.text(), e.text()]);
                list("(", items, ")")
            },
            IExpr::IfThenElseV(c, v) => {
                let items = vec![text_of("if"), c.to_text(), v.to_text()];
                assert(texts(items@) =~= seq!["if"@, c.text(), v.text()]);
                list("(", items, ")")
            },
        }
    }
}

impl VExpr {
    /// The expression in prefix notation.
    pub open spec fn text(self) -> Seq<char>
        decreases self,
    {
        match self {
            VExpr::Pixel => "xy"@,
            VExpr::Swap(v) => list_text("["@, seq!["swap"@, v.text()], "]"@),
            VExpr::BinaryI(op_1, op_2, a, b) => list_text(
                "["@,
                seq![list_text("["@, seq![op_1.text(), op_2.text()], "]"@), a.text(), b.text()],
                "]"@,
            ),
            VExpr::UnaryV(op, v) => list_text("["@, seq![op.text(), v.text()], "]"@),
            VExpr::BinaryV(op, a, b) => list_text("["@, seq![op.text(), a.text(), b.text()], "]"@),
            VExpr::IfThenElseI(c, t, e) => list_text(
                "["@,
                seq!["if"@, c.text(), t.text(), e.text()],
                "]"@,
            ),
            VExpr::IfThenElseV(c, t, e) => list_text(
                "["@,
                seq!["if"@, c.text(), t.text(), e.text()],
                "]"@,
            ),
        }
    }

    /// The expression as text.
    pub fn to_text(&self) -> (s: String)
        ensures
            s@ == self.text(),
        decreases self,
    {
        match self {
            VExpr::Pixel => text_of("xy"),
            VExpr::Swap(v) => {
                let items = vec![text_of("swap"), v.to_text()];
                assert(texts(items@) =~= seq!["swap"@, v.text()]);
                list("[", items, "]")
            },
            VExpr::BinaryI(op_1, op_2, a, b) => {
                let ops = vec![op_1.to_text(), op_2.to_text()];
                assert(texts(ops@) =~= seq![op_1.text(), op_2.text()]);
                let items = vec![list("[", ops, "]"), a.to_text(), b.to_text()];
                assert(texts(items@) =~= seq![
                    list_text("["@, seq![op_1.text(), op_2.text()], "]"@),
                    a.text(),
                    b.text(),
                ]);
                list("[", items, "]")
            },
            VExpr::UnaryV(op, v) => {
                let items = vec![op.to_text(), v.to_text()];
                assert(texts(items@) =~= seq![op.text(), v.text()]);
                list("[", items, "]")
            },
            VExpr::BinaryV(op, a, b) => {
                let items = vec![op.to_text(), a.to_text(), b.to_text()];
                assert(texts(items@) =~= seq![op.text(), a.text(), b.text()]);
                list("[", items, "]")
            },
            VExpr::IfThenElseI(c, t, e) => {
                let items = vec![text_of("if"), c.to_text(), t.to_text(), e.to_text()];
                assert(texts(items@) =~= seq!["if"@, c.text(), t.text(), e.text()]);
                list("[", items, "]")
            },
            VExpr::IfThenElseV(c, t, e) => {
                let items = vec![text_of("if"), c.to_text(), t.to_text(), e.to_text()];
                assert(texts(items@) =~= seq!["if"@, c.text(), t.text(), e.text()]);
                list("[", items, "]")
            },
        }
    }
}

} // verus!
