use formula_art::expr::{Binary, IExpr, Unary, VExpr};

fn boxed(e: IExpr) -> Box<IExpr> {
    Box::new(e)
}

fn pair(v: VExpr) -> Box<VExpr> {
    Box::new(v)
}

#[test]
fn unary_operators_as_text() {
    assert_eq!(Unary::Square.to_text(), "square");
    assert_eq!(Unary::Cube.to_text(), "cube");
    assert_eq!(Unary::Abs.to_text(), "abs");
    assert_eq!(Unary::Neg.to_text(), "neg");
    assert_eq!(Unary::DivBy(7).to_text(), "/7");
    assert_eq!(Unary::DivBy(0).to_text(), "/0");
    assert_eq!(Unary::ModBy(255).to_text(), "%255");
    assert_eq!(Unary::ModBy(10).to_text(), "%10");
    assert_eq!(Unary::Mod256.to_text(), "mod-256");
    assert_eq!(Unary::Clamp256.to_text(), "clamp");
}

#[test]
fn binary_operators_as_text() {
    assert_eq!(Binary::Add.to_text(), "+");
    assert_eq!(Binary::Sub.to_text(), "-");
    assert_eq!(Binary::Mul.to_text(), "*");
    assert_eq!(Binary::BitAnd.to_text(), "&");
    assert_eq!(Binary::BitOr.to_text(), "|");
    assert_eq!(Binary::BitXor.to_text(), "^");
}

#[test]
fn leaves_as_text() {
    assert_eq!(IExpr::Lit(0).to_text(), "0");
    assert_eq!(IExpr::Lit(9).to_text(), "9");
    assert_eq!(IExpr::Lit(10).to_text(), "10");
    assert_eq!(IExpr::Lit(-305).to_text(), "-305");
    assert_eq!(IExpr::Lit(i32::MAX).to_text(), "2147483647");
    assert_eq!(IExpr::Lit(i32::MIN).to_text(), "-2147483648");
    assert_eq!(IExpr::Rgb([1, 20, 255]).to_text(), "1/20/255");
    assert_eq!(IExpr::PixelX.to_text(), "x");
    assert_eq!(IExpr::PixelY.to_text(), "y");
    assert_eq!(IExpr::Channel.to_text(), "c");
    assert_eq!(VExpr::Pixel.to_text(), "xy");
}

#[test]
fn literals_read_as_the_standard_library_prints_them() {
    for n in [i32::MIN, -1_000_000, -100, -99, -10, -9, -1, 0, 1, 9, 10, 99, 100, 101, i32::MAX] {
        assert_eq!(IExpr::Lit(n).to_text(), n.to_string());
    }
}

#[test]
fn scalar_expressions_as_text() {
    let x = || boxed(IExpr::PixelX);
    let y = || boxed(IExpr::PixelY);
    assert_eq!(IExpr::Scale256(x()).to_text(), "(scale-256 x)");
    assert_eq!(IExpr::UnaryI(Unary::DivBy(3), y()).to_text(), "(/3 y)");
    assert_eq!(IExpr::BinaryI(Binary::Mul, x(), y()).to_text(), "(* x y)");
    assert_eq!(IExpr::BinaryV(Binary::BitXor, pair(VExpr::Pixel)).to_text(), "(^ xy)");
    assert_eq!(
        IExpr::IfThenElseI(boxed(IExpr::Channel), x(), boxed(IExpr::Lit(-4))).to_text(),
        "(if c x -4)"
    );
    assert_eq!(IExpr::IfThenElseV(x(), pair(VExpr::Pixel)).to_text(), "(if x xy)");
}

#[test]
fn pair_expressions_as_text() {
    let x = || boxed(IExpr::PixelX);
    let y = || boxed(IExpr::PixelY);
    let xy = || pair(VExpr::Pixel);
    assert_eq!(VExpr::Swap(xy()).to_text(), "[swap xy]");
    assert_eq!(VExpr::BinaryI(Binary::Add, Binary::Sub, x(), y()).to_text(), "[[+ -] x y]");
    assert_eq!(VExpr::UnaryV(Unary::Mod256, xy()).to_text(), "[mod-256 xy]");
    assert_eq!(VExpr::BinaryV(Binary::BitOr, xy(), xy()).to_text(), "[| xy xy]");
    assert_eq!(VExpr::IfThenElseI(x(), xy(), xy()).to_text(), "[if x xy xy]");
    assert_eq!(VExpr::IfThenElseV(xy(), xy(), xy()).to_text(), "[if xy xy xy]");
}

#[test]
fn nested_expressions_as_text() {
    let expr = IExpr::UnaryI(
        Unary::Clamp256,
        boxed(IExpr::BinaryI(
            Binary::Add,
            boxed(IExpr::BinaryV(
                Binary::Mul,
                pair(VExpr::UnaryV(Unary::ModBy(12), pair(VExpr::Swap(pair(VExpr::Pixel))))),
            )),
            boxed(IExpr::Scale256(boxed(IExpr::Rgb([3, 1, 2])))),
        )),
    );
    assert_eq!(expr.to_text(), "(clamp (+ (* [%12 [swap xy]]) (scale-256 3/1/2)))");
    let pair = VExpr::IfThenElseV(
        pair(VExpr::BinaryI(Binary::Add, Binary::BitAnd, boxed(IExpr::Lit(-1)), boxed(expr))),
        pair(VExpr::Pixel),
        pair(VExpr::BinaryV(Binary::Sub, pair(VExpr::Pixel), pair(VExpr::Pixel))),
    );
    assert_eq!(
        pair.to_text(),
        "[if [[+ &] -1 (clamp (+ (* [%12 [swap xy]]) (scale-256 3/1/2)))] xy [- xy xy]]"
    );
}
