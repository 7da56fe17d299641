use formula_art::eval::{Batch, BatchEntry, StackItem, Step};
use formula_art::expr::{Binary, IExpr, Unary, VExpr};

fn boxed(e: IExpr) -> Box<IExpr> {
    Box::new(e)
}

fn pair(v: VExpr) -> Box<VExpr> {
    Box::new(v)
}

#[test]
fn scale_of_pixel_x_spreads_over_the_byte_range() {
    let expr = IExpr::Scale256(boxed(IExpr::PixelX));
    let colors = expr.eval_batch(&[(0, 0), (1, 0), (4, 0)]);
    assert_eq!(colors, vec![[0, 0, 0], [64, 64, 64], [255, 255, 255]]);
}

#[test]
fn scale_of_a_full_row_of_five() {
    let expr = IExpr::Scale256(boxed(IExpr::PixelX));
    let colors = expr.eval_batch(&[(0, 0), (1, 0), (2, 0), (3, 0), (4, 0)]);
    assert_eq!(
        colors,
        vec![[0, 0, 0], [64, 64, 64], [127, 127, 127], [191, 191, 191], [255, 255, 255]]
    );
}

#[test]
fn scaled_values_are_rounded_to_the_nearest() {
    let expr = IExpr::Scale256(boxed(IExpr::PixelX));
    let positions: Vec<(i32, i32)> = (0..8).map(|x| (x, 0)).collect();
    let reds: Vec<i32> = expr.eval_batch(&positions).iter().map(|c| c[0]).collect();
    // 255 k / 7 is 36.4, 72.9, 109.3, 145.7, 182.1, 218.6 in between.
    assert_eq!(reds, vec![0, 36, 73, 109, 146, 182, 219, 255]);
    // A value halfway between two integers goes to the lower one.
    let reds: Vec<i32> =
        expr.eval_batch(&[(0, 0), (1, 0), (2, 0)]).iter().map(|c| c[0]).collect();
    assert_eq!(reds, vec![0, 127, 255]);
}

#[test]
fn one_color_per_position() {
    let expr = IExpr::BinaryI(Binary::Add, boxed(IExpr::PixelX), boxed(IExpr::PixelY));
    let positions: Vec<(i32, i32)> = (0..37).map(|k| (k, 2 * k)).collect();
    let colors = expr.eval_batch(&positions);
    assert_eq!(colors.len(), positions.len());
    for (k, color) in colors.iter().enumerate() {
        let n = 3 * k as i32;
        assert_eq!(*color, [n, n, n]);
    }
}

#[test]
fn no_positions_no_colors() {
    let expr = IExpr::Scale256(boxed(IExpr::PixelX));
    assert_eq!(expr.eval_batch(&[]), Vec::<[i32; 3]>::new());
}

#[test]
fn wrapped_roots_give_bytes() {
    let interior = || {
        IExpr::BinaryI(
            Binary::Mul,
            boxed(IExpr::BinaryI(Binary::Sub, boxed(IExpr::PixelX), boxed(IExpr::Lit(1_000_003)))),
            boxed(IExpr::BinaryI(Binary::Add, boxed(IExpr::Channel), boxed(IExpr::PixelY))),
        )
    };
    let roots = vec![
        IExpr::Scale256(boxed(interior())),
        IExpr::UnaryI(Unary::Mod256, boxed(interior())),
        IExpr::UnaryI(Unary::Clamp256, boxed(interior())),
    ];
    let positions: Vec<(i32, i32)> =
        (0..64).map(|k| (k * 7919 - 200_000, 40_000 - k * 104_729)).collect();
    for root in roots {
        let colors = root.eval_batch(&positions);
        assert_eq!(colors.len(), positions.len());
        for color in colors {
            for channel in color {
                assert!((0..=255).contains(&channel));
            }
        }
    }
}

#[test]
fn a_constant_batch_normalizes_to_the_midpoint() {
    let expr = IExpr::Scale256(boxed(IExpr::Lit(42)));
    let positions = [(0, 0), (5, 1), (-3, 9)];
    assert_eq!(expr.eval_batch(&positions), vec![[127, 127, 127]; 3]);
    let again = IExpr::Scale256(boxed(IExpr::Scale256(boxed(IExpr::Lit(42)))));
    assert_eq!(again.eval_batch(&positions), vec![[127, 127, 127]; 3]);
    assert_eq!(again.eval_batch(&positions), again.eval_batch(&positions));
}

#[test]
fn a_single_position_normalizes_to_the_midpoint() {
    let expr = IExpr::Scale256(boxed(IExpr::PixelX));
    assert_eq!(expr.eval_batch(&[(9, 9)]), vec![[127, 127, 127]]);
}

#[test]
fn channels_normalize_on_their_own() {
    // Red is constant, green runs from 0 to 2, blue from 10 to 30.
    let expr = IExpr::Scale256(boxed(IExpr::BinaryI(
        Binary::Mul,
        boxed(IExpr::PixelX),
        boxed(IExpr::Rgb([0, 1, 10])),
    )));
    let colors = expr.eval_batch(&[(0, 0), (1, 0), (2, 0)]);
    assert_eq!(colors, vec![[127, 0, 0], [127, 127, 127], [127, 255, 255]]);
}

#[test]
fn normalizing_the_widest_range_does_not_overflow() {
    let expr = IExpr::Scale256(boxed(IExpr::PixelX));
    let colors = expr.eval_batch(&[(i32::MIN, 0), (0, 0), (i32::MAX, 0), (-1, 0)]);
    assert_eq!(colors, vec![[0, 0, 0], [128, 128, 128], [255, 255, 255], [127, 127, 127]]);
}

#[test]
fn evaluation_is_repeatable() {
    let expr = IExpr::IfThenElseV(
        boxed(IExpr::BinaryI(Binary::Sub, boxed(IExpr::PixelX), boxed(IExpr::PixelY))),
        pair(VExpr::UnaryV(Unary::Square, pair(VExpr::Pixel))),
    );
    let positions: Vec<(i32, i32)> = (0..50).map(|k| (k % 7, k % 5)).collect();
    assert_eq!(expr.eval_batch(&positions), expr.eval_batch(&positions));
}

#[test]
fn leaves() {
    let at = [(3, -4)];
    assert_eq!(IExpr::Lit(-7).eval_batch(&at), vec![[-7, -7, -7]]);
    assert_eq!(IExpr::Rgb([1, 2, 255]).eval_batch(&at), vec![[1, 2, 255]]);
    assert_eq!(IExpr::PixelX.eval_batch(&at), vec![[3, 3, 3]]);
    assert_eq!(IExpr::PixelY.eval_batch(&at), vec![[-4, -4, -4]]);
    assert_eq!(IExpr::Channel.eval_batch(&at), vec![[-1, 0, 1]]);
}

#[test]
fn unary_operators() {
    assert_eq!(Unary::Square.eval(-5), 25);
    assert_eq!(Unary::Square.eval(65_536), 0);
    assert_eq!(Unary::Square.eval(46_341), -2_147_479_015);
    assert_eq!(Unary::Cube.eval(-3), -27);
    assert_eq!(Unary::Cube.eval(2_000), -589_934_592);
    assert_eq!(Unary::Abs.eval(-9), 9);
    assert_eq!(Unary::Abs.eval(9), 9);
    assert_eq!(Unary::Abs.eval(i32::MIN), i32::MIN);
    assert_eq!(Unary::Neg.eval(9), -9);
    assert_eq!(Unary::Neg.eval(i32::MIN), i32::MIN);
    assert_eq!(Unary::DivBy(2).eval(-7), -4);
    assert_eq!(Unary::DivBy(2).eval(7), 3);
    assert_eq!(Unary::DivBy(255).eval(i32::MIN), -8_421_505);
    assert_eq!(Unary::ModBy(3).eval(-7), 2);
    assert_eq!(Unary::ModBy(3).eval(7), 1);
    assert_eq!(Unary::Mod256.eval(-1), 255);
    assert_eq!(Unary::Mod256.eval(513), 1);
    assert_eq!(Unary::Clamp256.eval(300), 255);
    assert_eq!(Unary::Clamp256.eval(-5), 0);
    assert_eq!(Unary::Clamp256.eval(77), 77);
}

#[test]
fn unary_operators_agree_with_the_standard_library() {
    let samples = [i32::MIN, i32::MIN + 1, -65_537, -256, -1, 0, 1, 255, 256, 46_341, i32::MAX];
    for n in samples {
        assert_eq!(Unary::Square.eval(n), n.wrapping_mul(n));
        assert_eq!(Unary::Cube.eval(n), n.wrapping_mul(n).wrapping_mul(n));
        assert_eq!(Unary::Abs.eval(n), n.wrapping_abs());
        assert_eq!(Unary::Neg.eval(n), n.wrapping_neg());
        assert_eq!(Unary::Mod256.eval(n), n.wrapping_rem_euclid(256));
        for d in [1u8, 2, 3, 7, 30, 255] {
            assert_eq!(Unary::DivBy(d).eval(n), n.wrapping_div_euclid(d as i32));
            assert_eq!(Unary::ModBy(d).eval(n), n.wrapping_rem_euclid(d as i32));
        }
    }
}

#[test]
fn binary_operators() {
    assert_eq!(Binary::Add.eval(i32::MAX, 1), i32::MIN);
    assert_eq!(Binary::Add.eval(2, 3), 5);
    assert_eq!(Binary::Sub.eval(i32::MIN, 1), i32::MAX);
    assert_eq!(Binary::Sub.eval(2, 3), -1);
    assert_eq!(Binary::Mul.eval(65_536, 65_536), 0);
    assert_eq!(Binary::Mul.eval(-4, 6), -24);
    assert_eq!(Binary::BitAnd.eval(0b1100, 0b1010), 0b1000);
    assert_eq!(Binary::BitAnd.eval(-1, 77), 77);
    assert_eq!(Binary::BitOr.eval(0b1100, 0b1010), 0b1110);
    assert_eq!(Binary::BitXor.eval(0b1100, 0b1010), 0b0110);
    assert_eq!(Binary::BitXor.eval(-1, 0), -1);
}

#[test]
fn operators_by_number() {
    let unary = [
        Unary::Square,
        Unary::Cube,
        Unary::Abs,
        Unary::Neg,
        Unary::DivBy(9),
        Unary::ModBy(9),
        Unary::Mod256,
        Unary::Clamp256,
    ];
    for (index, op) in unary.iter().enumerate() {
        assert_eq!(Unary::from_index(index, 9), *op);
    }
    let binary =
        [Binary::Add, Binary::Sub, Binary::Mul, Binary::BitAnd, Binary::BitOr, Binary::BitXor];
    for (index, op) in binary.iter().enumerate() {
        assert_eq!(Binary::from_index(index), *op);
    }
}

#[test]
fn zero_divisors_are_told_apart() {
    assert!(Unary::DivBy(1).is_well_formed());
    assert!(!Unary::DivBy(0).is_well_formed());
    assert!(!Unary::ModBy(0).is_well_formed());
    assert!(Unary::Mod256.is_well_formed());
    let good = IExpr::UnaryI(Unary::ModBy(3), boxed(IExpr::PixelX));
    let bad = IExpr::IfThenElseV(
        boxed(IExpr::PixelX),
        pair(VExpr::UnaryV(Unary::DivBy(0), pair(VExpr::Pixel))),
    );
    assert!(good.is_well_formed());
    assert!(!bad.is_well_formed());
    assert!(VExpr::Pixel.is_well_formed());
    assert!(!VExpr::Swap(pair(VExpr::UnaryV(Unary::ModBy(0), pair(VExpr::Pixel)))).is_well_formed());
}

#[test]
fn operators_work_channel_by_channel() {
    let expr = IExpr::BinaryI(Binary::Mul, boxed(IExpr::Channel), boxed(IExpr::PixelX));
    assert_eq!(expr.eval_batch(&[(5, 0)]), vec![[-5, 0, 5]]);
    let expr = IExpr::BinaryI(Binary::Sub, boxed(IExpr::PixelX), boxed(IExpr::Rgb([1, 2, 3])));
    assert_eq!(expr.eval_batch(&[(5, 0)]), vec![[4, 3, 2]]);
    let expr = IExpr::BinaryI(Binary::Add, boxed(IExpr::Rgb([1, 2, 3])), boxed(IExpr::Channel));
    assert_eq!(expr.eval_batch(&[(5, 0)]), vec![[0, 2, 4]]);
    let expr = IExpr::UnaryI(Unary::Square, boxed(IExpr::Channel));
    assert_eq!(expr.eval_batch(&[(5, 0)]), vec![[1, 0, 1]]);
}

#[test]
fn conditionals_choose_channel_by_channel() {
    // The condition is positive in the blue channel only.
    let expr = IExpr::IfThenElseI(
        boxed(IExpr::Channel),
        boxed(IExpr::Lit(10)),
        boxed(IExpr::Lit(20)),
    );
    assert_eq!(expr.eval_batch(&[(0, 0)]), vec![[20, 20, 10]]);
    // A scalar condition counts for all channels; zero is not positive.
    let expr = IExpr::IfThenElseI(
        boxed(IExpr::PixelX),
        boxed(IExpr::Rgb([1, 2, 3])),
        boxed(IExpr::Rgb([4, 5, 6])),
    );
    assert_eq!(
        expr.eval_batch(&[(-1, 0), (0, 0), (1, 0)]),
        vec![[4, 5, 6], [4, 5, 6], [1, 2, 3]]
    );
    // The pair supplies the two branches: column where positive, else row.
    let expr = IExpr::IfThenElseV(boxed(IExpr::PixelX), pair(VExpr::Pixel));
    assert_eq!(expr.eval_batch(&[(3, 8), (-3, 8)]), vec![[3, 3, 3], [8, 8, 8]]);
}

#[test]
fn pair_expressions() {
    let first_minus_second = |v: VExpr| IExpr::BinaryV(Binary::Sub, pair(v));
    let at = [(7, 2)];
    assert_eq!(first_minus_second(VExpr::Pixel).eval_batch(&at), vec![[5, 5, 5]]);
    assert_eq!(
        first_minus_second(VExpr::Swap(pair(VExpr::Pixel))).eval_batch(&at),
        vec![[-5, -5, -5]]
    );
    // (x + y, x * y) = (9, 14)
    let both = VExpr::BinaryI(Binary::Add, Binary::Mul, boxed(IExpr::PixelX), boxed(IExpr::PixelY));
    assert_eq!(first_minus_second(both).eval_batch(&at), vec![[-5, -5, -5]]);
    // (x^2, y^2) = (49, 4)
    let squares = VExpr::UnaryV(Unary::Square, pair(VExpr::Pixel));
    assert_eq!(first_minus_second(squares).eval_batch(&at), vec![[45, 45, 45]]);
    // (x, y) * (y, x) = (14, 14); (x, y) - (y, x) = (5, -5)
    let crossed = VExpr::BinaryV(Binary::Sub, pair(VExpr::Pixel), pair(VExpr::Swap(pair(VExpr::Pixel))));
    assert_eq!(first_minus_second(crossed).eval_batch(&at), vec![[10, 10, 10]]);
}

#[test]
fn pair_conditionals() {
    let first_minus_second = |v: VExpr| IExpr::BinaryV(Binary::Sub, pair(v));
    let swapped = || pair(VExpr::Swap(pair(VExpr::Pixel)));
    // One condition for both components.
    let one = VExpr::IfThenElseI(boxed(IExpr::PixelX), pair(VExpr::Pixel), swapped());
    assert_eq!(
        first_minus_second(one).eval_batch(&[(7, 2), (-7, 2)]),
        vec![[5, 5, 5], [9, 9, 9]]
    );
    // A condition for each component: (x, y) decides between (x, y) and (y, x).
    let two = VExpr::IfThenElseV(pair(VExpr::Pixel), pair(VExpr::Pixel), swapped());
    assert_eq!(
        first_minus_second(two).eval_batch(&[(7, 2), (7, -2), (-7, 2), (-7, -2)]),
        vec![[5, 5, 5], [0, 0, 0], [0, 0, 0], [5, 5, 5]]
    );
}

#[test]
fn stack_items() {
    assert_eq!(StackItem::Same(4).rgb(), [4, 4, 4]);
    assert_eq!(StackItem::Rgb(1, 2, 3).rgb(), [1, 2, 3]);
    assert_eq!(StackItem::Same(-3).eval_unary(Unary::Square).rgb(), [9, 9, 9]);
    assert_eq!(StackItem::Rgb(1, -2, 3).eval_unary(Unary::Neg).rgb(), [-1, 2, -3]);
    assert_eq!(StackItem::Same(2).eval_binary(StackItem::Same(5), Binary::Sub).rgb(), [-3, -3, -3]);
    assert_eq!(StackItem::Same(2).eval_binary(StackItem::Rgb(1, 2, 3), Binary::Sub).rgb(), [1, 0, -1]);
    assert_eq!(StackItem::Rgb(1, 2, 3).eval_binary(StackItem::Same(2), Binary::Sub).rgb(), [-1, 0, 1]);
    assert_eq!(
        StackItem::Rgb(1, 2, 3).eval_binary(StackItem::Rgb(3, 2, 1), Binary::Mul).rgb(),
        [3, 4, 3]
    );
    assert_eq!(
        StackItem::Rgb(1, 0, -1).choose_by(StackItem::Same(7), StackItem::Rgb(4, 5, 6)).rgb(),
        [7, 5, 6]
    );
}

#[test]
fn the_single_scalar_form_is_kept_where_both_operands_have_it() {
    assert!(matches!(StackItem::Same(3).eval_unary(Unary::Cube), StackItem::Same(27)));
    assert!(matches!(
        StackItem::Same(3).eval_binary(StackItem::Same(4), Binary::Add),
        StackItem::Same(7)
    ));
}

#[test]
fn stacks() {
    let mut entry = BatchEntry { pos: (1, 2), stack: Vec::new() };
    entry.push(StackItem::Same(1));
    entry.push(StackItem::Same(2));
    entry.push(StackItem::Same(3));
    assert_eq!(entry.len(), 3);
    assert_eq!(entry.get(0).rgb(), [3, 3, 3]);
    assert_eq!(entry.get(2).rgb(), [1, 1, 1]);
    *entry.get_mut(1) = StackItem::Rgb(7, 8, 9);
    let (lower, upper) = entry.pop_2();
    assert_eq!(lower.rgb(), [7, 8, 9]);
    assert_eq!(upper.rgb(), [3, 3, 3]);
    assert_eq!(entry.pop().rgb(), [1, 1, 1]);
    assert_eq!(entry.len(), 0);
}

#[test]
fn steps_on_a_batch() {
    let mut batch = Batch::new(&[(1, 2), (3, 4)]);
    batch.each(Step::Pixel);
    batch.each(Step::Swap);
    batch.each(Step::Binary(Binary::Sub));
    assert_eq!(batch.entries[0].get(0).rgb(), [1, 1, 1]);
    assert_eq!(batch.entries[1].get(0).rgb(), [1, 1, 1]);
    batch.each(Step::PixelX);
    batch.scale_256(0);
    assert_eq!(batch.entries[0].get(0).rgb(), [0, 0, 0]);
    assert_eq!(batch.entries[1].get(0).rgb(), [255, 255, 255]);
    assert_eq!(batch.entries[0].len(), 2);
    batch.scale_256(1);
    assert_eq!(batch.entries[0].get(1).rgb(), [127, 127, 127]);
    assert_eq!(batch.entries[1].get(0).rgb(), [255, 255, 255]);
}
