use formula_art::expr::{IExpr, Unary};
use formula_art::gen_expr::Parameters;
use formula_art::pool::{comes_before, ranking, ParamPool, ParamPoolEntry, GEN_DEPTH, POOL_CAP};
use formula_art::utils::WEIGHT_ONE;
use rand::rngs::StdRng;
use rand::SeedableRng;

fn votes(pool: &ParamPool) -> Vec<(usize, usize)> {
    (0..pool.len()).map(|i| (pool.entry(i).upvotes(), pool.entry(i).downvotes())).collect()
}

/// A pool of `n` entries, the entry `i` with `i` approvals more than a
/// fresh one.
fn pool_of(n: usize) -> ParamPool {
    let mut pool = ParamPool::new();
    for _ in 1..n {
        pool.insert_child(0, ParamPoolEntry::new(Parameters::default()));
    }
    for i in 0..n {
        for _ in 0..i {
            pool.record_vote(i, true);
        }
    }
    pool
}

#[test]
fn a_fresh_entry_scores_one_half() {
    let entry = ParamPoolEntry::new(Parameters::default());
    assert_eq!(entry.upvotes(), 1);
    assert_eq!(entry.downvotes(), 1);
    assert_eq!(entry.score(), (1, 2));
    let (upvotes, all) = entry.score();
    assert_eq!(2 * upvotes, all);
    assert_eq!(upvotes as f64 / all as f64, 0.5);
}

#[test]
fn one_approval_lifts_the_score_above_one_half() {
    let mut entry = ParamPoolEntry::new(Parameters::default());
    entry.vote(true);
    assert_eq!(entry.score(), (2, 3));
    let (upvotes, all) = entry.score();
    assert!(2 * upvotes > all);
    assert!(upvotes as f64 / all as f64 > 0.5);
}

#[test]
fn one_rejection_drops_the_score_below_one_half() {
    let mut entry = ParamPoolEntry::new(Parameters::default());
    entry.vote(false);
    assert_eq!(entry.score(), (1, 3));
    let (upvotes, all) = entry.score();
    assert!(2 * upvotes < all);
    assert!((upvotes as f64 / all as f64) < 0.5);
}

#[test]
fn votes_move_the_score_their_way() {
    let mut entry = ParamPoolEntry::new(Parameters::default());
    let mut rng = StdRng::seed_from_u64(31);
    for round in 0..200 {
        let (up, all) = entry.score();
        let approve = round % 3 != 0;
        assert!(entry.has_room());
        entry.vote(approve);
        let (new_up, new_all) = entry.score();
        assert_eq!(new_all, all + 1);
        if approve {
            assert!(up * new_all < new_up * all);
        } else {
            assert!(new_up * all < up * new_all);
        }
    }
    assert_eq!(entry.params().weights(), Parameters::default().weights());
    let _ = entry.params().gen_expr(&mut rng, 2, 0);
}

#[test]
fn a_new_pool_holds_the_default_parameters() {
    let pool = ParamPool::new();
    assert_eq!(pool.len(), 1);
    assert_eq!(votes(&pool), vec![(1, 1)]);
    for vector in pool.entry(0).params().weights() {
        for weight in vector {
            assert_eq!(weight, WEIGHT_ONE);
        }
    }
}

#[test]
fn a_pool_of_one_selects_its_entry_for_every_role() {
    let pool = ParamPool::new();
    let mut rng = StdRng::seed_from_u64(32);
    assert_eq!(pool.ranked(), vec![0]);
    assert_eq!(pool.low_voted_at(0), 0);
    assert_eq!(pool.high_voted_at(0), 0);
    for _ in 0..50 {
        assert_eq!(pool.get_low_voted_idx(&mut rng), 0);
        assert_eq!(pool.get_high_voted_idx(&mut rng), 0);
        assert_eq!(pool.gen(&mut rng).0, 0);
    }
}

#[test]
fn ranking_goes_by_ascending_score() {
    // 1/2, 3/4, 1/3, 2/3
    let scores = vec![(1, 2), (3, 4), (1, 3), (2, 3)];
    assert_eq!(ranking(&scores), vec![2, 0, 3, 1]);
    assert!(comes_before(&scores, 2, 0));
    assert!(!comes_before(&scores, 0, 2));
    assert!(!comes_before(&scores, 1, 1));
}

#[test]
fn equal_scores_rank_by_index() {
    // 1/2, 2/4, 1/3, 3/6, 2/6
    let scores = vec![(1, 2), (2, 4), (1, 3), (3, 6), (2, 6)];
    assert_eq!(ranking(&scores), vec![2, 4, 0, 1, 3]);
    assert!(comes_before(&scores, 0, 1));
    assert!(!comes_before(&scores, 1, 0));
    assert_eq!(ranking(&vec![(5, 9); 4]), vec![0, 1, 2, 3]);
    assert_eq!(ranking(&Vec::new()), Vec::<usize>::new());
}

#[test]
fn ranking_compares_large_tallies_exactly() {
    let big = usize::MAX;
    // The two scores differ by less than a float can tell.
    let scores = vec![(big - 1, big), (big - 2, big - 1)];
    assert_eq!(ranking(&scores), vec![1, 0]);
}

#[test]
fn the_ends_of_the_ranking() {
    // Entry i has score (1 + i) / (2 + i): the highest index ranks highest.
    let mut pool = pool_of(4);
    assert_eq!(votes(&pool), vec![(1, 1), (2, 1), (3, 1), (4, 1)]);
    assert_eq!(pool.scores(), vec![(1, 2), (2, 3), (3, 4), (4, 5)]);
    assert_eq!(pool.ranked(), vec![0, 1, 2, 3]);
    pool.record_vote(3, false);
    pool.record_vote(3, false);
    pool.record_vote(3, false);
    pool.record_vote(3, false);
    // Entry 3 now has 4/9, the lowest score.
    assert_eq!(pool.ranked(), vec![3, 0, 1, 2]);
    assert_eq!(pool.low_voted_at(0), 3);
    assert_eq!(pool.low_voted_at(1), 0);
    assert_eq!(pool.low_voted_at(3), 2);
    assert_eq!(pool.high_voted_at(0), 2);
    assert_eq!(pool.high_voted_at(1), 1);
    assert_eq!(pool.high_voted_at(3), 3);
}

#[test]
fn selection_leans_to_its_end_of_the_ranking() {
    let pool = pool_of(5);
    let mut rng = StdRng::seed_from_u64(33);
    let mut low = [0u32; 5];
    let mut high = [0u32; 5];
    for _ in 0..4_000 {
        low[pool.get_low_voted_idx(&mut rng)] += 1;
        high[pool.get_high_voted_idx(&mut rng)] += 1;
    }
    // Every entry can be chosen for either role, the ends most often.
    assert!(low.iter().all(|n| *n > 0));
    assert!(high.iter().all(|n| *n > 0));
    assert!(low[0] > low[2] && low[2] > low[4]);
    assert!(high[4] > high[2] && high[2] > high[0]);
}

#[test]
fn a_vote_is_counted_for_its_entry_only() {
    let mut pool = pool_of(3);
    pool.record_vote(1, false);
    assert_eq!(votes(&pool), vec![(1, 1), (2, 2), (3, 1)]);
    pool.record_vote(0, true);
    assert_eq!(votes(&pool), vec![(2, 1), (2, 2), (3, 1)]);
}

#[test]
fn a_child_comes_in_at_the_end() {
    let mut pool = pool_of(3);
    let mut rng = StdRng::seed_from_u64(34);
    let child = pool.breed(2, 0, &mut rng);
    assert_eq!(child.score(), (1, 2));
    let weights = child.params().weights();
    pool.insert_child(1, child);
    assert_eq!(votes(&pool), vec![(1, 1), (2, 1), (3, 1), (1, 1)]);
    assert_eq!(pool.entry(3).params().weights(), weights);
}

#[test]
fn a_pool_over_its_cap_evicts_before_a_child_comes_in() {
    let mut pool = pool_of(POOL_CAP + 1);
    assert_eq!(pool.len(), 11);
    pool.insert_child(4, ParamPoolEntry::new(Parameters::default()));
    assert_eq!(pool.len(), 11);
    assert_eq!(
        votes(&pool),
        vec![
            (1, 1),
            (2, 1),
            (3, 1),
            (4, 1),
            (6, 1),
            (7, 1),
            (8, 1),
            (9, 1),
            (10, 1),
            (11, 1),
            (1, 1)
        ]
    );
}

#[test]
fn a_pool_at_its_cap_evicts_nothing() {
    let mut pool = pool_of(POOL_CAP);
    assert_eq!(pool.len(), 10);
    pool.insert_child(4, ParamPoolEntry::new(Parameters::default()));
    assert_eq!(pool.len(), 11);
    assert_eq!(pool.entry(4).upvotes(), 5);
    assert_eq!(pool.entry(10).score(), (1, 2));
}

#[test]
fn a_pool_below_its_cap_stays_within_it() {
    let mut rng = StdRng::seed_from_u64(38);
    for _ in 0..40 {
        let mut pool = pool_of(POOL_CAP - 1);
        pool.handle_approval(0, true, &mut rng);
        assert!(pool.len() <= 10);
    }
}

#[test]
fn the_population_stays_between_one_and_one_above_the_cap() {
    let mut rng = StdRng::seed_from_u64(35);
    let mut pool = ParamPool::new();
    let mut largest = 0;
    let mut bred = 0;
    for round in 0..1_000 {
        let before = pool.len();
        let (idx, _) = pool.gen(&mut rng);
        assert!(idx < pool.len());
        assert!(pool.entry(idx).has_room());
        let approve = round % 3 != 1;
        let mut counted = votes(&pool);
        if approve {
            counted[idx].0 += 1;
        } else {
            counted[idx].1 += 1;
        }
        pool.handle_approval(idx, approve, &mut rng);
        assert!(pool.len() >= 1);
        assert!(pool.len() <= POOL_CAP + 1);
        assert!(pool.len() == before || pool.len() == before + 1);
        if votes(&pool) != counted {
            bred += 1;
            assert_eq!(pool.entry(pool.len() - 1).score(), (1, 2));
        }
        largest = largest.max(pool.len());
        for i in 0..pool.len() {
            assert!(pool.entry(i).upvotes() >= 1);
            assert!(pool.entry(i).downvotes() >= 1);
        }
    }
    assert_eq!(largest, 11);
    // A child is bred after one vote in five.
    assert!((120..300).contains(&bred));
}

#[test]
fn a_vote_without_breeding_changes_one_tally() {
    let mut rng = StdRng::seed_from_u64(36);
    let mut seen_plain = false;
    let mut seen_bred = false;
    for _ in 0..60 {
        let mut pool = pool_of(3);
        pool.handle_approval(1, true, &mut rng);
        if pool.len() == 3 {
            seen_plain = true;
            assert_eq!(votes(&pool), vec![(1, 1), (3, 1), (3, 1)]);
        } else {
            seen_bred = true;
            assert_eq!(votes(&pool), vec![(1, 1), (3, 1), (3, 1), (1, 1)]);
        }
    }
    assert!(seen_plain && seen_bred);
}

#[test]
fn generation_names_the_entry_and_wraps_the_root() {
    let pool = pool_of(6);
    let mut rng = StdRng::seed_from_u64(37);
    assert_eq!(GEN_DEPTH, 5);
    for _ in 0..50 {
        let (idx, expr) = pool.gen(&mut rng);
        assert!(idx < 6);
        assert!(expr.is_well_formed());
        assert!(matches!(
            expr,
            IExpr::Scale256(_) | IExpr::UnaryI(Unary::Mod256, _) | IExpr::UnaryI(Unary::Clamp256, _)
        ));
        let colors = expr.eval_batch(&[(0, 0), (3, 1), (9, 9)]);
        assert!(colors.iter().all(|c| c.iter().all(|n| (0..=255).contains(n))));
    }
}
