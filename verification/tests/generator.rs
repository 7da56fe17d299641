use formula_art::expr::{IExpr, Unary, VExpr};
use formula_art::gen_expr::Parameters;
use formula_art::utils::WEIGHT_ONE;
use rand::rngs::StdRng;
use rand::SeedableRng;

fn longest(e: &IExpr) -> u32 {
    match e {
        IExpr::Lit(_) | IExpr::Rgb(_) | IExpr::PixelX | IExpr::PixelY | IExpr::Channel => 0,
        IExpr::Scale256(e) | IExpr::UnaryI(_, e) => 1 + longest(e),
        IExpr::BinaryI(_, a, b) => 1 + longest(a).max(longest(b)),
        IExpr::BinaryV(_, v) => 1 + longest_pair(v),
        IExpr::IfThenElseI(c, t, e) => 1 + longest(c).max(longest(t)).max(longest(e)),
        IExpr::IfThenElseV(c, v) => 1 + longest(c).max(longest_pair(v)),
    }
}

fn longest_pair(v: &VExpr) -> u32 {
    match v {
        VExpr::Pixel => 0,
        VExpr::Swap(v) | VExpr::UnaryV(_, v) => 1 + longest_pair(v),
        VExpr::BinaryI(_, _, a, b) => 1 + longest(a).max(longest(b)),
        VExpr::BinaryV(_, a, b) => 1 + longest_pair(a).max(longest_pair(b)),
        VExpr::IfThenElseI(c, t, e) => 1 + longest(c).max(longest_pair(t)).max(longest_pair(e)),
        VExpr::IfThenElseV(c, t, e) => {
            1 + longest_pair(c).max(longest_pair(t)).max(longest_pair(e))
        }
    }
}

fn shortest(e: &IExpr) -> u32 {
    match e {
        IExpr::Lit(_) | IExpr::Rgb(_) | IExpr::PixelX | IExpr::PixelY | IExpr::Channel => 0,
        IExpr::Scale256(e) | IExpr::UnaryI(_, e) => 1 + shortest(e),
        IExpr::BinaryI(_, a, b) => 1 + shortest(a).min(shortest(b)),
        IExpr::BinaryV(_, v) => 1 + shortest_pair(v),
        IExpr::IfThenElseI(c, t, e) => 1 + shortest(c).min(shortest(t)).min(shortest(e)),
        IExpr::IfThenElseV(c, v) => 1 + shortest(c).min(shortest_pair(v)),
    }
}

fn shortest_pair(v: &VExpr) -> u32 {
    match v {
        VExpr::Pixel => 0,
        VExpr::Swap(v) | VExpr::UnaryV(_, v) => 1 + shortest_pair(v),
        VExpr::BinaryI(_, _, a, b) => 1 + shortest(a).min(shortest(b)),
        VExpr::BinaryV(_, a, b) => 1 + shortest_pair(a).min(shortest_pair(b)),
        VExpr::IfThenElseI(c, t, e) => 1 + shortest(c).min(shortest_pair(t)).min(shortest_pair(e)),
        VExpr::IfThenElseV(c, t, e) => {
            1 + shortest_pair(c).min(shortest_pair(t)).min(shortest_pair(e))
        }
    }
}

fn small(n: u8) -> bool {
    (1..=30).contains(&n)
}

fn small_operands(e: &IExpr) -> bool {
    match e {
        IExpr::Lit(_) | IExpr::PixelX | IExpr::PixelY | IExpr::Channel => true,
        IExpr::Rgb(c) => c.iter().all(|n| small(*n)),
        IExpr::Scale256(e) => small_operands(e),
        IExpr::UnaryI(op, e) => small_operand(op) && small_operands(e),
        IExpr::BinaryI(_, a, b) => small_operands(a) && small_operands(b),
        IExpr::BinaryV(_, v) => small_operands_pair(v),
        IExpr::IfThenElseI(c, t, e) => small_operands(c) && small_operands(t) && small_operands(e),
        IExpr::IfThenElseV(c, v) => small_operands(c) && small_operands_pair(v),
    }
}

fn small_operands_pair(v: &VExpr) -> bool {
    match v {
        VExpr::Pixel => true,
        VExpr::Swap(v) => small_operands_pair(v),
        VExpr::UnaryV(op, v) => small_operand(op) && small_operands_pair(v),
        VExpr::BinaryI(_, _, a, b) => small_operands(a) && small_operands(b),
        VExpr::BinaryV(_, a, b) => small_operands_pair(a) && small_operands_pair(b),
        VExpr::IfThenElseI(c, t, e) => {
            small_operands(c) && small_operands_pair(t) && small_operands_pair(e)
        }
        VExpr::IfThenElseV(c, t, e) => {
            small_operands_pair(c) && small_operands_pair(t) && small_operands_pair(e)
        }
    }
}

fn small_operand(op: &Unary) -> bool {
    match op {
        Unary::DivBy(d) | Unary::ModBy(d) => small(*d),
        _ => true,
    }
}

fn wrapped(e: &IExpr) -> bool {
    matches!(
        e,
        IExpr::Scale256(_) | IExpr::UnaryI(Unary::Mod256, _) | IExpr::UnaryI(Unary::Clamp256, _)
    )
}

#[test]
fn default_weights_are_all_one() {
    let weights = Parameters::default().weights();
    let lengths: Vec<usize> = weights.iter().map(|v| v.len()).collect();
    assert_eq!(lengths, vec![3, 3, 6, 9, 6, 7, 8, 6]);
    for vector in weights {
        for weight in vector {
            assert_eq!(weight, WEIGHT_ONE);
        }
    }
}

#[test]
fn crossover_of_identical_parents_gives_their_weights() {
    let mut rng = StdRng::seed_from_u64(1);
    let parent = Parameters::default();
    let twin = Parameters::default();
    for _ in 0..20 {
        let child = parent.crossover(&twin, &mut rng);
        assert_eq!(child, parent);
        assert_eq!(child.weights(), parent.weights());
    }
    // The same with weights that are not all alike.
    let mut rng = StdRng::seed_from_u64(2);
    let parent = Parameters::default().mutate(&Parameters::default(), &mut rng);
    assert_ne!(parent, Parameters::default());
    for _ in 0..20 {
        let child = parent.crossover(&parent, &mut rng);
        assert_eq!(child, parent);
    }
}

#[test]
fn crossover_takes_every_weight_from_a_parent() {
    let mut rng = StdRng::seed_from_u64(3);
    let mother = Parameters::default().mutate(&Parameters::default(), &mut rng);
    let father = Parameters::default().mutate(&Parameters::default(), &mut rng);
    let child = mother.crossover(&father, &mut rng);
    let (m, f, c) = (mother.weights(), father.weights(), child.weights());
    assert_eq!(c.len(), 8);
    for v in 0..8 {
        assert_eq!(c[v].len(), m[v].len());
        for i in 0..c[v].len() {
            assert!(c[v][i] == m[v][i] || c[v][i] == f[v][i]);
        }
    }
}

#[test]
fn a_child_of_default_parents_has_weights_near_one() {
    let mut rng = StdRng::seed_from_u64(7);
    let parent = Parameters::default();
    let mut moved = 0;
    for _ in 0..50 {
        let child = parent.mutate(&parent, &mut rng);
        for vector in child.weights() {
            for weight in vector {
                assert!(weight > 0);
                assert!(weight as u64 * 13 >= WEIGHT_ONE as u64 * 10 - 13);
                assert!(weight as u64 * 10 <= WEIGHT_ONE as u64 * 13);
                if weight != WEIGHT_ONE {
                    moved += 1;
                }
            }
        }
    }
    // 48 weights, one in four of which moves.
    assert!((450..750).contains(&moved));
}

#[test]
fn weights_stay_positive_over_many_generations() {
    let mut rng = StdRng::seed_from_u64(9);
    let mut line = Parameters::default();
    for _ in 0..2_000 {
        line = line.mutate(&line, &mut rng);
    }
    for vector in line.weights() {
        for weight in vector {
            assert!(weight > 0);
        }
    }
    let expr = line.gen_expr(&mut rng, 4, 1);
    assert!(wrapped(&expr));
}

#[test]
fn generated_expressions_are_wrapped_and_bounded() {
    let mut rng = StdRng::seed_from_u64(12);
    let params = Parameters::default();
    for max_depth in 0..7u8 {
        for min_depth in 0..5u8 {
            for _ in 0..20 {
                let expr = params.gen_expr(&mut rng, max_depth, min_depth);
                assert!(wrapped(&expr));
                assert!(expr.is_well_formed());
                assert!(small_operands(&expr));
                assert!(longest(&expr) <= max_depth as u32 + 1);
                assert!(shortest(&expr) >= max_depth.min(min_depth) as u32 + 1);
            }
        }
    }
}

#[test]
fn interiors_keep_to_the_depth_budget() {
    let mut rng = StdRng::seed_from_u64(13);
    let params = Parameters::default();
    for max_depth in 0..6u8 {
        for min_depth in 0..6u8 {
            for _ in 0..20 {
                let e = params.gen_iexpr(&mut rng, max_depth, min_depth);
                assert!(e.is_well_formed());
                assert!(longest(&e) <= max_depth as u32);
                assert!(shortest(&e) >= max_depth.min(min_depth) as u32);
                let v = params.gen_vexpr(&mut rng, max_depth, min_depth);
                assert!(v.is_well_formed());
                assert!(longest_pair(&v) <= max_depth as u32);
                assert!(shortest_pair(&v) >= max_depth.min(min_depth) as u32);
            }
        }
    }
}

#[test]
fn an_exhausted_budget_gives_leaves() {
    let mut rng = StdRng::seed_from_u64(14);
    let params = Parameters::default();
    let mut literals = 0;
    let mut triples = 0;
    for _ in 0..300 {
        let e = params.gen_iexpr(&mut rng, 0, 3);
        assert_eq!(longest(&e), 0);
        match e {
            IExpr::Lit(_) => literals += 1,
            IExpr::Rgb(c) => {
                triples += 1;
                assert!(c.iter().all(|n| small(*n)));
            }
            _ => {}
        }
        assert_eq!(params.gen_vexpr(&mut rng, 0, 3), VExpr::Pixel);
    }
    assert!(literals > 20);
    assert!(triples > 20);
}

#[test]
fn a_full_floor_gives_full_trees() {
    let mut rng = StdRng::seed_from_u64(15);
    let params = Parameters::default();
    for _ in 0..30 {
        let e = params.gen_iexpr(&mut rng, 3, 3);
        assert_eq!(longest(&e), 3);
        assert_eq!(shortest(&e), 3);
    }
}

#[test]
fn every_root_wrapper_occurs() {
    let mut rng = StdRng::seed_from_u64(16);
    let params = Parameters::default();
    let mut seen = [0; 3];
    for _ in 0..300 {
        match params.gen_expr(&mut rng, 1, 0) {
            IExpr::Scale256(_) => seen[0] += 1,
            IExpr::UnaryI(Unary::Mod256, _) => seen[1] += 1,
            IExpr::UnaryI(Unary::Clamp256, _) => seen[2] += 1,
            other => panic!("no wrapper at the root of {:?}", other),
        }
    }
    assert!(seen.iter().all(|n| *n > 50));
}

#[test]
fn generated_expressions_evaluate_to_bytes() {
    let mut rng = StdRng::seed_from_u64(17);
    let params = Parameters::default();
    let positions: Vec<(i32, i32)> = (0..48).map(|k| (k % 8, k / 8)).collect();
    for _ in 0..40 {
        let expr = params.gen_expr(&mut rng, 5, 1);
        let colors = expr.eval_batch(&positions);
        assert_eq!(colors.len(), positions.len());
        for color in &colors {
            for channel in color {
                assert!((0..=255).contains(channel));
            }
        }
        assert_eq!(colors, expr.eval_batch(&positions));
    }
}
