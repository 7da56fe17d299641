//! The pool of parameter sets: votes, ranking, breeding and eviction.

use vstd::prelude::*;
use rand::rngs::StdRng;
use crate::expr::IExpr;
use crate::gen_expr::{all_ones, bred, Parameters};
use crate::rng::{below, ratio};

verus! {

/// The cap of the population: a pool with more entries than this evicts
/// one before a child comes in, so that it never holds more than one above
/// the cap.
pub const POOL_CAP: usize = 10;

/// The depth budget of the expressions that the pool generates.
pub const GEN_DEPTH: u8 = 5;

/// What an entry of the pool holds: its two tallies and the weight vectors
/// of its parameters.
pub struct EntryView {
    pub upvotes: nat,
    pub downvotes: nat,
    pub params: Seq<Seq<u32>>,
}

/// A score as a fraction: upvotes over votes.
pub type Score = (nat, nat);

/// The fraction `a` is less than the fraction `b`.
pub open spec fn score_below(a: Score, b: Score) -> bool {
    a.0 * b.1 < b.0 * a.1
}

/// The fractions `a` and `b` are equal.
pub open spec fn score_like(a: Score, b: Score) -> bool {
    a.0 * b.1 == b.0 * a.1
}

/// In the ranking of `scores`, the index `i` comes before the index `j`:
/// its score is less, or the scores are equal and `i` is the lower index.
pub open spec fn ranks_before(scores: Seq<Score>, i: int, j: int) -> bool {
    score_below(scores[i], scores[j]) || (score_like(scores[i], scores[j]) && i < j)
}

/// `order` lists the indices of `scores` by ascending score, equal scores
/// by ascending index.
pub open spec fn is_ranking(scores: Seq<Score>, order: Seq<usize>) -> bool {
    &&& order.len() == scores.len()
    &&& forall|p: int| 0 <= p < order.len() ==> (#[trigger] order[p]) < scores.len()
    &&& forall|i: usize| i < scores.len() ==> #[trigger] order.contains(i)
    &&& forall|p: int, q: int|
        0 <= p < q < order.len() ==> ranks_before(scores, #[trigger] order[p] as int, #[trigger] order[q] as int)
}

/// The order of the ranking is transitive.
pub proof fn lemma_ranks_transitive(scores: Seq<Score>, a: int, b: int, c: int)
    requires
        scores[a].1 > 0,
        scores[b].1 > 0,
        scores[c].1 > 0,
        ranks_before(scores, a, b),
        ranks_before(scores, b, c),
    ensures
        ranks_before(scores, a, c),
{
    let (ua, ta) = (scores[a].0 as int, scores[a].1 as int);
    let (ub, tb) = (scores[b].0 as int, scores[b].1 as int);
    let (uc, tc) = (scores[c].0 as int, scores[c].1 as int);
    assert((ua * tb) * tc == tb * (ua * tc)) by (nonlinear_arith);
    assert((ub * ta) * tc == (ub * tc) * ta) by (nonlinear_arith);
    assert((uc * tb) * ta == tb * (uc * ta)) by (nonlinear_arith);
    if ua * tb < ub * ta {
        assert((ua * tb) * tc < (ub * ta) * tc) by (nonlinear_arith)
            requires
                ua * tb < ub * ta,
                tc > 0,
        ;
    } else {
        assert((ua * tb) * tc == (ub * ta) * tc) by (nonlinear_arith)
            requires
                ua * tb == ub * ta,
        ;
    }
    if ub * tc < uc * tb {
        assert((ub * tc) * ta < (uc * tb) * ta) by (nonlinear_arith)
            requires
                ub * tc < uc * tb,
                ta > 0,
        ;
    } else {
        assert((ub * tc) * ta == (uc * tb) * ta) by (nonlinear_arith)
            requires
                ub * tc == uc * tb,
        ;
    }
    if ua * tb < ub * ta || ub * tc < uc * tb {
        assert(tb * (ua * tc) < tb * (uc * ta));
        assert(ua * tc < uc * ta) by (nonlinear_arith)
            requires
                tb * (ua * tc) < tb * (uc * ta),
                tb > 0,
        ;
    } else {
        assert(tb * (ua * tc) == tb * (uc * ta));
        assert(ua * tc == uc * ta) by (nonlinear_arith)
            requires
                tb * (ua * tc) == tb * (uc * ta),
                tb > 0,
        ;
    }
}

/// The ranking of `scores`.
pub open spec fn ranking_of(scores: Seq<Score>) -> Seq<usize> {
    choose|order: Seq<usize>| is_ranking(scores, order)
}

/// Two rankings of the same scores agree at every place.
proof fn lemma_rankings_agree(scores: Seq<Score>, first: Seq<usize>, second: Seq<usize>, at: int)
    requires
        is_ranking(scores, first),
        is_ranking(scores, second),
        0 <= at < scores.len(),
    ensures
        first[at] == second[at],
    decreases at,
{
    assert forall|q: int| 0 <= q < at implies first[q] == second[q] by {
        lemma_rankings_agree(scores, first, second, q);
    }
    let x = first[at] as int;
    let y = second[at] as int;
    if x != y {
        lemma_ranks_total(scores, x, y);
        lemma_ranks_total(scores, x, x);
        lemma_ranks_total(scores, y, y);
        if ranks_before(scores, x, y) {
            assert(second.contains(first[at]));
            let q = choose|q: int| 0 <= q < second.len() && #[trigger] second[q] == x;
            if q < at {
                assert(first[q] == second[q]);
                assert(ranks_before(scores, first[q] as int, first[at] as int));
            } else if q > at {
                assert(ranks_before(scores, second[at] as int, second[q] as int));
            }
        } else {
            assert(first.contains(second[at]));
            let q = choose|q: int| 0 <= q < first.len() && #[trigger] first[q] == y;
            if q < at {
                assert(first[q] == second[q]);
                assert(ranks_before(scores, second[q] as int, second[at] as int));
            } else if q > at {
                assert(ranks_before(scores, first[at] as int, first[q] as int));
            }
        }
    }
}

/// Scores have one ranking only.
pub proof fn lemma_ranking_unique(scores: Seq<Score>, first: Seq<usize>, second: Seq<usize>)
    requires
        is_ranking(scores, first),
        is_ranking(scores, second),
    ensures
        first == second,
{
    assert forall|at: int| 0 <= at < first.len() implies first[at] == second[at] by {
        lemma_rankings_agree(scores, first, second, at);
    }
    assert(first =~= second);
}

/// Of two different indices, one comes before the other, and never both.
pub proof fn lemma_ranks_total(scores: Seq<Score>, a: int, b: int)
    ensures
        a != b ==> ranks_before(scores, a, b) || ranks_before(scores, b, a),
        !(ranks_before(scores, a, b) && ranks_before(scores, b, a)),
{
}

impl EntryView {
    /// All the votes of the entry.
    pub open spec fn votes(self) -> nat {
        self.upvotes + self.downvotes
    }

    /// The entry's score: upvotes over votes.
    pub open spec fn score(self) -> Score {
        (self.upvotes, self.votes())
    }

    /// The entry's score is less than that of `other`.
    pub open spec fn scores_below(self, other: EntryView) -> bool {
        score_below(self.score(), other.score())
    }

    /// The entry's score is exactly one half.
    pub open spec fn scores_half(self) -> bool {
        2 * self.upvotes == self.votes()
    }

    /// The entry's score is more than one half.
    pub open spec fn scores_above_half(self) -> bool {
        2 * self.upvotes > self.votes()
    }

    /// The entry's score is less than one half.
    pub open spec fn scores_below_half(self) -> bool {
        2 * self.upvotes < self.votes()
    }

    /// The entry after one more vote.
    pub open spec fn voted(self, did_approve: bool) -> EntryView {
        if did_approve {
            EntryView { upvotes: self.upvotes + 1, ..self }
        } else {
            EntryView { downvotes: self.downvotes + 1, ..self }
        }
    }
}

/// An approval raises the score of an entry that has a downvote, and a
/// rejection lowers the score of an entry that has an upvote.
pub proof fn lemma_vote_moves_score(e: EntryView)
    requires
        e.upvotes >= 1,
        e.downvotes >= 1,
    ensures
        e.scores_below(e.voted(true)),
        e.voted(false).scores_below(e),
{
    let u = e.upvotes as int;
    let d = e.downvotes as int;
    assert(u * (u + 1 + d) < (u + 1) * (u + d)) by (nonlinear_arith)
        requires
            u >= 1,
            d >= 1,
    ;
    assert(u * (u + d) < u * (u + d + 1)) by (nonlinear_arith)
        requires
            u >= 1,
            d >= 1,
    ;
}

/// A fresh entry scores one half; one approval puts it above, one
/// rejection below.
pub proof fn lemma_first_vote(e: EntryView)
    requires
        e.upvotes == 1,
        e.downvotes == 1,
    ensures
        e.scores_half(),
        e.voted(true).scores_above_half(),
        e.voted(false).scores_below_half(),
{
}

/// A parameter set with its tallies of votes. Both tallies start at 1, so
/// that the score is always defined.
#[derive(Debug)]
pub struct ParamPoolEntry {
    upvotes: usize,
    downvotes: usize,
    params: Parameters,
}

impl View for ParamPoolEntry {
    type V = EntryView;

    closed spec fn view(&self) -> EntryView {
        EntryView {
            upvotes: self.upvotes as nat,
            downvotes: self.downvotes as nat,
            params: self.params.vectors(),
        }
    }
}

impl ParamPoolEntry {
    /// Both tallies hold their seed, and their sum can be counted.
    #[verifier::type_invariant]
    closed spec fn seeded(self) -> bool {
        &&& self.upvotes >= 1
        &&& self.downvotes >= 1
        &&& self.upvotes + self.downvotes <= usize::MAX
    }

    /// An entry without votes of its own: one upvote, one downvote.
    pub fn new(params: Parameters) -> (entry: Self)
        ensures
            entry@.upvotes == 1,
            entry@.downvotes == 1,
            entry@.params == params.vectors(),
            entry@.scores_half(),
    {
        ParamPoolEntry { upvotes: 1, downvotes: 1, params }
    }

    /// The tally of approvals, the seed included.
    pub fn upvotes(&self) -> (n: usize)
        ensures
            n == self@.upvotes,
            n >= 1,
    {
        proof {
            use_type_invariant(self);
        }
        self.upvotes
    }

    /// The tally of rejections, the seed included.
    pub fn downvotes(&self) -> (n: usize)
        ensures
            n == self@.downvotes,
            n >= 1,
    {
        proof {
            use_type_invariant(self);
        }
        self.downvotes
    }

    /// The entry's parameters.
    pub fn params(&self) -> (p: &Parameters)
        ensures
            p.vectors() == self@.params,
    {
        &self.params
    }

    /// The score as a fraction: the upvotes and all the votes.
    pub fn score(&self) -> (fraction: (usize, usize))
        ensures
            fraction.0 == self@.upvotes,
            fraction.1 == self@.votes(),
            1 <= fraction.0 < fraction.1,
    {
        proof {
            use_type_invariant(self);
        }
        (self.upvotes, self.upvotes + self.downvotes)
    }

    /// Whether one more vote can be counted.
    pub fn has_room(&self) -> (ok: bool)
        ensures
            ok == (self@.votes() < usize::MAX),
    {
        proof {
            use_type_invariant(self);
        }
        self.upvotes + self.downvotes < usize::MAX
    }

    /// Counts one more vote.
    pub fn vote(&mut self, did_approve: bool)
        requires
            old(self)@.votes() < usize::MAX,
        ensures
            final(self)@ == old(self)@.voted(did_approve),
            did_approve ==> old(self)@.scores_below(final(self)@),
            !did_approve ==> final(self)@.scores_below(old(self)@),
    {
        proof {
            use_type_invariant(&*self);
            lemma_vote_moves_score(self@);
        }
        if did_approve {
            self.upvotes += 1;
        } else {
            self.downvotes += 1;
        }
    }
}

/// Whether, in the ranking of `scores`, the index `i` comes before `j`.
pub fn comes_before(scores: &Vec<(usize, usize)>, i: usize, j: usize) -> (before: bool)
    requires
        i < scores@.len(),
        j < scores@.len(),
    ensures
        before == ranks_before(as_scores(scores@), i as int, j as int),
{
    let (ui, ti) = scores[i];
    let (uj, tj) = scores[j];
    assert(ui * tj <= usize::MAX * usize::MAX && uj * ti <= usize::MAX * usize::MAX) by (nonlinear_arith)
        requires
            0 <= ui <= usize::MAX,
            0 <= ti <= usize::MAX,
            0 <= uj <= usize::MAX,
            0 <= tj <= usize::MAX,
    ;
    assert(usize::MAX * usize::MAX <= u128::MAX) by (nonlinear_arith)
        requires
            usize::MAX <= 0xffff_ffff_ffff_ffff,
    ;
    let left: u128 = ui as u128 * tj as u128;
    let right: u128 = uj as u128 * ti as u128;
    left < right || (left == right && i < j)
}

/// The fractions as scores.
pub open spec fn as_scores(fractions: Seq<(usize, usize)>) -> Seq<Score> {
    Seq::new(fractions.len(), |i: int| (fractions[i].0 as nat, fractions[i].1 as nat))
}

/// The indices of `scores` by ascending score, equal scores by ascending
/// index.
pub fn ranking(scores: &Vec<(usize, usize)>) -> (order: Vec<usize>)
    requires
        forall|i: int| 0 <= i < scores@.len() ==> (#[trigger] scores@[i]).1 > 0,
    ensures
        is_ranking(as_scores(scores@), order@),
        order@ == ranking_of(as_scores(scores@)),
{
    let ghost keys = as_scores(scores@);
    let n = scores.len();
    let mut order: Vec<usize> = Vec::new();
    let mut i: usize = 0;
    while i < n
        invariant
            i <= n,
            n == scores@.len(),
            keys == as_scores(scores@),
            forall|k: int| 0 <= k < n ==> (#[trigger] keys[k]).1 > 0,
            order@.len() == i,
            forall|p: int| 0 <= p < i ==> (#[trigger] order@[p]) < i,
            forall|k: usize| k < i ==> #[trigger] order@.contains(k),
            forall|p: int, q: int|
                0 <= p < q < i ==> ranks_before(keys, #[trigger] order@[p] as int, #[trigger] order@[q] as int),
        decreases n - i,
    {
        let mut at: usize = i;
        while at > 0 && comes_before(scores, i, order[at - 1])
            invariant
                at <= i,
                i < n,
                n == scores@.len(),
                keys == as_scores(scores@),
                order@.len() == i,
                forall|p: int| 0 <= p < i ==> (#[trigger] order@[p]) < i,
                forall|p: int| at <= p < i ==> ranks_before(keys, i as int, #[trigger] order@[p] as int),
            decreases at,
        {
            at -= 1;
        }
        proof {
            let ghost before = order@;
            assert forall|p: int| 0 <= p < at implies ranks_before(keys, #[trigger] before[p] as int, i as int) by {
                let last = before[at - 1] as int;
                lemma_ranks_total(keys, i as int, last);
                if p < at - 1 {
                    lemma_ranks_transitive(keys, before[p] as int, last, i as int);
                }
            }
        }
        let ghost before = order@;
        order.insert(at, i);
        assert forall|p: int, q: int| 0 <= p < q < i + 1 implies ranks_before(
            keys,
            #[trigger] order@[p] as int,
            #[trigger] order@[q] as int,
        ) by {
            if q < at {
                assert(order@[p] == before[p] && order@[q] == before[q]);
            } else if q == at {
                assert(order@[p] == before[p]);
            } else if p < at {
                assert(order@[p] == before[p] && order@[q] == before[q - 1]);
            } else if p == at {
                assert(order@[q] == before[q - 1]);
            } else {
                assert(order@[p] == before[p - 1] && order@[q] == before[q - 1]);
            }
        }
        assert forall|p: int| 0 <= p < i + 1 implies (#[trigger] order@[p]) < i + 1 by {
            if p < at {
                assert(order@[p] == before[p]);
            } else if p > at {
                assert(order@[p] == before[p - 1]);
            }
        }
        assert forall|k: usize| k < i + 1 implies #[trigger] order@.contains(k) by {
            if k == i {
                assert(order@[at as int] == k);
            } else {
                assert(before.contains(k));
                let p = choose|p: int| 0 <= p < before.len() && #[trigger] before[p] == k;
                if p < at {
                    assert(order@[p] == k);
                } else {
                    assert(order@[p + 1] == k);
                }
            }
        }
        i += 1;
    }
    proof {
        lemma_ranking_unique(keys, order@, ranking_of(keys));
    }
    order
}

/// The scores of the entries, in order.
pub open spec fn scores_of(entries: Seq<EntryView>) -> Seq<Score> {
    Seq::new(entries.len(), |i: int| entries[i].score())
}

/// `child` is a fresh entry whose parameters were bred from those of the
/// two parents.
pub open spec fn is_child_of(child: EntryView, left: EntryView, right: EntryView) -> bool {
    &&& child.upvotes == 1
    &&& child.downvotes == 1
    &&& bred(child.params, left.params, right.params)
}

/// `child` is a fresh entry bred from two of the entries, which may be one
/// and the same.
pub open spec fn is_bred_from(child: EntryView, entries: Seq<EntryView>) -> bool {
    exists|idx_1: int, idx_2: int|
        0 <= idx_1 < entries.len() && 0 <= idx_2 < entries.len() && is_child_of(
            child,
            #[trigger] entries[idx_1],
            #[trigger] entries[idx_2],
        )
}

/// The entries after `child` has come in: where the pool is over its cap,
/// the entry at `victim` leaves first.
pub open spec fn with_child(before: Seq<EntryView>, victim: int, child: EntryView) -> Seq<EntryView> {
    if before.len() > POOL_CAP {
        before.remove(victim).push(child)
    } else {
        before.push(child)
    }
}

/// The pool: a population of parameter sets with their votes, never empty
/// and never more than one above `POOL_CAP`.
#[derive(Debug)]
pub struct ParamPool {
    entries: Vec<ParamPoolEntry>,
}

impl View for ParamPool {
    type V = Seq<EntryView>;

    closed spec fn view(&self) -> Seq<EntryView> {
        Seq::new(self.entries@.len(), |i: int| self.entries@[i]@)
    }
}

impl ParamPool {
    /// The pool holds at least one entry and at most one above the cap.
    pub open spec fn well_formed(self) -> bool {
        1 <= self@.len() <= POOL_CAP + 1
    }

    /// A pool of one entry: the default parameters, without votes.
    pub fn new() -> (pool: Self)
        ensures
            pool.well_formed(),
            pool@.len() == 1,
            pool@[0].upvotes == 1,
            pool@[0].downvotes == 1,
            all_ones(pool@[0].params),
    {
        let mut entries: Vec<ParamPoolEntry> = Vec::new();
        entries.push(ParamPoolEntry::new(Parameters::default()));
        ParamPool { entries }
    }

    /// The number of entries.
    pub fn len(&self) -> (n: usize)
        ensures
            n == self@.len(),
    {
        self.entries.len()
    }

    /// The entry at `idx`.
    pub fn entry(&self, idx: usize) -> (entry: &ParamPoolEntry)
        requires
            idx < self@.len(),
        ensures
            entry@ == self@[idx as int],
    {
        &self.entries[idx]
    }

    /// The scores of the entries as fractions, in order.
    pub fn scores(&self) -> (fractions: Vec<(usize, usize)>)
        ensures
            as_scores(fractions@) == scores_of(self@),
            forall|i: int| 0 <= i < fractions@.len() ==> 1 <= (#[trigger] fractions@[i]).0 < fractions@[i].1,
    {
        let n = self.entries.len();
        let mut fractions: Vec<(usize, usize)> = Vec::new();
        let mut i: usize = 0;
        while i < n
            invariant
                i <= n,
                n == self.entries@.len(),
                fractions@.len() == i,
                forall|k: int|
                    0 <= k < i ==> (#[trigger] fractions@[k]).0 == self.entries@[k]@.upvotes
                        && fractions@[k].1 == self.entries@[k]@.votes(),
                forall|k: int| 0 <= k < i ==> 1 <= (#[trigger] fractions@[k]).0 < fractions@[k].1,
            decreases n - i,
        {
            fractions.push(self.entries[i].score());
            i += 1;
        }
        assert(as_scores(fractions@) =~= scores_of(self@));
        fractions
    }

    /// The indices of the entries by ascending score, equal scores by
    /// ascending index.
    pub fn ranked(&self) -> (order: Vec<usize>)
        ensures
            order@ == ranking_of(scores_of(self@)),
            is_ranking(scores_of(self@), order@),
    {
        let fractions = self.scores();
        ranking(&fractions)
    }

    /// The entry at place `pick` from the low end of the ranking.
    pub fn low_voted_at(&self, pick: usize) -> (idx: usize)
        requires
            pick < self@.len(),
        ensures
            idx == ranking_of(scores_of(self@))[pick as int],
            idx < self@.len(),
    {
        let indices = self.ranked();
        indices[pick]
    }

    /// The entry at place `pick` from the high end of the ranking.
    pub fn high_voted_at(&self, pick: usize) -> (idx: usize)
        requires
            pick < self@.len(),
        ensures
            idx == ranking_of(scores_of(self@))[self@.len() - 1 - pick],
            idx < self@.len(),
    {
        let indices = self.ranked();
        indices[indices.len() - 1 - pick]
    }

    /// An entry for eviction: one of the lowest `b` of the ranking, where
    /// `b` is drawn between 1 and the number of entries.
    pub fn get_low_voted_idx(&self, rng: &mut StdRng) -> (idx: usize)
        requires
            self.well_formed(),
        ensures
            idx < self@.len(),
            exists|pick: int|
                0 <= pick < self@.len() && idx == #[trigger] ranking_of(scores_of(self@))[pick],
    {
        let n = self.len();
        let bound = 1 + below(rng, n as u64);
        let pick = below(rng, bound) as usize;
        self.low_voted_at(pick)
    }

    /// An entry for generation or breeding: one of the highest `b` of the
    /// ranking, where `b` is drawn between 1 and the number of entries.
    pub fn get_high_voted_idx(&self, rng: &mut StdRng) -> (idx: usize)
        requires
            self.well_formed(),
        ensures
            idx < self@.len(),
            exists|pick: int|
                0 <= pick < self@.len() && idx == #[trigger] ranking_of(scores_of(self@))[pick],
    {
        let n = self.len();
        let bound = 1 + below(rng, n as u64);
        let pick = below(rng, bound) as usize;
        let idx = self.high_voted_at(pick);
        assert(idx == ranking_of(scores_of(self@))[n - 1 - pick]);
        idx
    }

    /// Counts one vote for the entry at `param_idx`.
    pub fn record_vote(&mut self, param_idx: usize, did_approve: bool)
        requires
            param_idx < old(self)@.len(),
            old(self)@[param_idx as int].votes() < usize::MAX,
        ensures
            final(self)@ == old(self)@.update(
                param_idx as int,
                old(self)@[param_idx as int].voted(did_approve),
            ),
    {
        let entry = &mut self.entries[param_idx];
        entry.vote(did_approve);
        assert(self@ =~= old(self)@.update(
            param_idx as int,
            old(self)@[param_idx as int].voted(did_approve),
        ));
    }

    /// Lets `child` in; where the pool is over its cap, the entry at
    /// `victim` leaves first.
    pub fn insert_child(&mut self, victim: usize, child: ParamPoolEntry)
        requires
            old(self).well_formed(),
            victim < old(self)@.len(),
        ensures
            final(self).well_formed(),
            final(self)@ == with_child(old(self)@, victim as int, child@),
    {
        if self.entries.len() > POOL_CAP {
            self.entries.remove(victim);
        }
        self.entries.push(child);
        assert(self@ =~= with_child(old(self)@, victim as int, child@));
    }

    /// A fresh entry bred from the entries at `idx_1` and `idx_2`.
    pub fn breed(&self, idx_1: usize, idx_2: usize, rng: &mut StdRng) -> (child: ParamPoolEntry)
        requires
            idx_1 < self@.len(),
            idx_2 < self@.len(),
        ensures
            is_child_of(child@, self@[idx_1 as int], self@[idx_2 as int]),
    {
        let params = self.entries[idx_1].params.mutate(&self.entries[idx_2].params, rng);
        ParamPoolEntry::new(params)
    }

    /// What a vote may leave behind: the vote counted, and with a chance of
    /// one in five a child of two entries let in, after an eviction where
    /// the pool was over its cap.
    pub open spec fn follows_vote(
        after: Seq<EntryView>,
        before: Seq<EntryView>,
        param_idx: int,
        did_approve: bool,
    ) -> bool {
        let counted = before.update(param_idx, before[param_idx].voted(did_approve));
        after == counted || exists|victim: int, child: EntryView|
            {
                &&& 0 <= victim < counted.len()
                &&& is_bred_from(child, counted)
                &&& after == #[trigger] with_child(counted, victim, child)
            }
    }

    /// Counts a vote for the entry at `param_idx` and, with a chance of one
    /// in five, breeds a child of two high-voted entries. Where the pool is
    /// over its cap, a low-voted entry leaves before the child comes in.
    pub fn handle_approval(&mut self, param_idx: usize, did_approve: bool, rng: &mut StdRng)
        requires
            old(self).well_formed(),
            param_idx < old(self)@.len(),
            old(self)@[param_idx as int].votes() < usize::MAX,
        ensures
            final(self).well_formed(),
            old(self)@.len() <= final(self)@.len() <= old(self)@.len() + 1,
            old(self)@.len() < POOL_CAP ==> final(self)@.len() <= POOL_CAP,
            Self::follows_vote(final(self)@, old(self)@, param_idx as int, did_approve),
    {
        self.record_vote(param_idx, did_approve);
        if ratio(rng, 1, 5) {
            let ghost counted = self@;
            let idx_1 = self.get_high_voted_idx(rng);
            let idx_2 = self.get_high_voted_idx(rng);
            let child = self.breed(idx_1, idx_2, rng);
            let victim = if self.entries.len() > POOL_CAP {
                self.get_low_voted_idx(rng)
            } else {
                0
            };
            let ghost born = child@;
            self.insert_child(victim, child);
            assert(is_child_of(born, counted[idx_1 as int], counted[idx_2 as int]));
            assert(self@ == with_child(counted, victim as int, born));
        }
    }

    /// A high-voted entry and a random expression generated from its
    /// parameters.
    pub fn gen(&self, rng: &mut StdRng) -> (made: (usize, IExpr))
        requires
            self.well_formed(),
        ensures
            made.0 < self@.len(),
            made.1.byte_ranged(),
            made.1.well_formed(),
            made.1.small_operands(),
            made.1.height() <= GEN_DEPTH + 1,
    {
        let idx = self.get_high_voted_idx(rng);
        let params = &self.entries[idx].params;
        (idx, params.gen_expr(rng, GEN_DEPTH, 0))
    }
}

} // verus!
