//! The weighted average of a set of heuristics.

use vstd::prelude::*;
use crate::board::Board;
use crate::error::BoardError;
use crate::geometry::on_board;
use crate::heuristic::{full_score, full_score_of, Heuristic, HeuristicView, Score};
use crate::heuristic_implementation::HeuristicImplementation;
use crate::placement::BoardView;
use crate::text::{append_decimal, decimal};

verus! {

/// The sum of the weights of the first `k` heuristics.
pub open spec fn weigths_below(heuristics: Seq<HeuristicView>, k: int) -> nat
    decreases k,
{
    if k <= 0 {
        0
    } else {
        weigths_below(heuristics, k - 1) + heuristics[k - 1].weigth as nat
    }
}

/// The sum of the weights of the heuristics.
pub open spec fn total_weigth(heuristics: Seq<HeuristicView>) -> nat {
    weigths_below(heuristics, heuristics.len() as int)
}

/// The sum of the weighted scores that the first `k` heuristics give the
/// candidate `(x, y)` on `board`.
pub open spec fn scores_below(
    heuristics: Seq<HeuristicView>,
    board: BoardView,
    x: int,
    y: int,
    k: int,
) -> nat
    decreases k,
{
    if k <= 0 {
        0
    } else {
        scores_below(heuristics, board, x, y, k - 1) + heuristics[k - 1].score(board, x, y)
    }
}

/// The sum of the weighted scores that the heuristics give the candidate
/// `(x, y)` on `board`.
pub open spec fn weighted_sum(heuristics: Seq<HeuristicView>, board: BoardView, x: int, y: int) -> nat {
    scores_below(heuristics, board, x, y, heuristics.len() as int)
}

/// A heuristic written as its label and, in parentheses, its weight.
pub open spec fn describe(heuristic: HeuristicView) -> Seq<char> {
    heuristic.label + seq!['('] + decimal(heuristic.weigth as nat) + seq![')']
}

/// The first `k` heuristics, each written as `describe` writes it, with a
/// comma and a blank between two of them.
pub open spec fn describe_below(heuristics: Seq<HeuristicView>, k: int) -> Seq<char>
    decreases k,
{
    if k <= 0 {
        Seq::empty()
    } else if k == 1 {
        describe(heuristics[0])
    } else {
        describe_below(heuristics, k - 1) + seq![',', ' '] + describe(heuristics[k - 1])
    }
}

/// The heuristics written as a list in square brackets.
pub open spec fn description_of(heuristics: Seq<HeuristicView>) -> Seq<char> {
    seq!['['] + describe_below(heuristics, heuristics.len() as int) + seq![']']
}

/// Adding a heuristic at the end leaves the weights of the others alone.
pub proof fn lemma_push_keeps(heuristics: Seq<HeuristicView>, added: HeuristicView, k: int)
    requires
        0 <= k <= heuristics.len(),
    ensures
        weigths_below(heuristics.push(added), k) == weigths_below(heuristics, k),
    decreases k,
{
    if k > 0 {
        lemma_push_keeps(heuristics, added, k - 1);
        assert(heuristics.push(added)[k - 1] == heuristics[k - 1]);
    }
}

/// A set of heuristics with the sum of their weights.
#[derive(Debug)]
pub struct Classifier<'a> {
    total_weigth: u32,
    heuristics: Vec<Heuristic<'a>>,
}

impl<'a> View for Classifier<'a> {
    type V = Seq<HeuristicView>;

    closed spec fn view(&self) -> Seq<HeuristicView> {
        Seq::new(self.heuristics@.len(), |i: int| self.heuristics@[i]@)
    }
}

impl<'a> Classifier<'a> {
    /// The classifier carries the sum of the weights of its heuristics.
    pub closed spec fn wf(&self) -> bool {
        self.total_weigth as nat == total_weigth(self@)
    }

    /// The sum of the weights of a consistent classifier fits its counter.
    pub proof fn lemma_wf(&self)
        requires
            self.wf(),
        ensures
            total_weigth(self@) <= u32::MAX,
    {
    }

    pub fn new() -> (c: Self)
        ensures
            c.wf(),
            c@ == Seq::<HeuristicView>::empty(),
    {
        let c = Classifier { total_weigth: 0, heuristics: Vec::new() };
        assert(c@ =~= Seq::<HeuristicView>::empty());
        c
    }

    pub fn is_empty(&self) -> (r: bool)
        ensures
            r == (self@.len() == 0),
    {
        self.heuristics.len() == 0
    }

    pub fn get_heuristics(&self) -> (r: &Vec<Heuristic<'a>>)
        ensures
            r@.len() == self@.len(),
            forall|i: int| 0 <= i < r@.len() ==> (#[trigger] r@[i])@ == self@[i],
    {
        &self.heuristics
    }

    /// The sum of the weights.
    pub fn get_total_weigth(&self) -> (r: u32)
        requires
            self.wf(),
        ensures
            r == total_weigth(self@),
    {
        self.total_weigth
    }

    /// Adds the heuristic of an implementation at the end of the list and
    /// its weight to the sum of the weights.
    pub fn push_heuristic<H: HeuristicImplementation>(&mut self, hi: H)
        requires
            old(self).wf(),
            total_weigth(old(self)@) + hi.spec_heuristic().weigth <= u32::MAX,
        ensures
            final(self).wf(),
            final(self)@ == old(self)@.push(hi.spec_heuristic()),
    {
        let heuristic = hi.to_heuristic();
        proof {
            lemma_push_keeps(self@, heuristic@, self@.len() as int);
        }
        self.total_weigth = self.total_weigth + *heuristic.weigth();
        self.heuristics.push(heuristic);
        assert(self@ =~= old(self)@.push(heuristic@));
    }

    /// The score of the candidate `(x, y)` on a board on which it has
    /// been put down: the weighted sum of what the heuristics make of it,
    /// over the sum of the weights times the full score. Refused where the
    /// weights sum up to zero.
    pub fn score(&self, board: &Board, x: &usize, y: &usize) -> (r: Result<Score, BoardError>)
        requires
            self.wf(),
            board.wf(),
            on_board(board@.cols, *x as int, *y as int),
        ensures
            match r {
                Ok(s) => total_weigth(self@) > 0 && s.num == weighted_sum(
                    self@,
                    board@,
                    *x as int,
                    *y as int,
                ) && s.den == total_weigth(self@) * full_score(board@.cols) && s.wf(),
                Err(e) => e == BoardError::ZeroWeightClassifier && total_weigth(self@) == 0,
            },
    {
        if self.total_weigth == 0 {
            return Err(BoardError::ZeroWeightClassifier);
        }
        let full = full_score_of(board);
        let ghost v = board@;
        let mut sum: u128 = 0;
        let mut k: usize = 0;
        proof {
            board.lemma_wf();
            assert(full > 0) by (nonlinear_arith)
                requires
                    full == 4 * v.cols * v.cols,
                    v.cols >= 1,
            ;
        }
        while k < self.heuristics.len()
            invariant
                self.wf(),
                board.wf(),
                v == board@,
                on_board(v.cols, *x as int, *y as int),
                full == full_score(v.cols),
                full < 0x4_0000_0000_0000_0000,
                k <= self.heuristics@.len(),
                self@.len() == self.heuristics@.len(),
                weigths_below(self@, k as int) <= total_weigth(self@),
                sum == scores_below(self@, v, *x as int, *y as int, k as int),
                sum <= weigths_below(self@, k as int) * full,
            decreases self.heuristics@.len() - k,
        {
            let part = self.heuristics[k].score(board, x, y);
            proof {
                lemma_weigths_monotonic(self@, k + 1, self@.len() as int);
                let w = weigths_below(self@, k as int);
                let a = self@[k as int].weigth as nat;
                assert(w * full + a * full == (w + a) * full) by (nonlinear_arith);
                assert((w + a) * full <= 0xffff_ffff * 0x4_0000_0000_0000_0000) by (nonlinear_arith)
                    requires
                        w + a <= 0xffff_ffff,
                        full < 0x4_0000_0000_0000_0000,
                ;
            }
            sum = sum + part;
            k = k + 1;
        }
        proof {
            assert(self.total_weigth as nat * full as nat <= 0xffff_ffff * 0x4_0000_0000_0000_0000)
                by (nonlinear_arith)
                requires
                    self.total_weigth <= 0xffff_ffff,
                    full < 0x4_0000_0000_0000_0000,
            ;
            assert(self.total_weigth as nat * full as nat > 0) by (nonlinear_arith)
                requires
                    self.total_weigth > 0,
                    full > 0,
            ;
        }
        Ok(Score { num: sum, den: self.total_weigth as u128 * full })
    }

    /// The heuristics as a list in square brackets, each written as its
    /// label and, in parentheses, its weight.
    pub fn description(&self) -> (r: String)
        ensures
            r@ == description_of(self@),
    {
        let mut text = String::new();
        proof {
            reveal_strlit("[");
            reveal_strlit("]");
            reveal_strlit("(");
            reveal_strlit(")");
            reveal_strlit(", ");
        }
        text.append("[");
        let mut k: usize = 0;
        while k < self.heuristics.len()
            invariant
                k <= self.heuristics@.len(),
                self@.len() == self.heuristics@.len(),
                "("@ == seq!['('],
                ")"@ == seq![')'],
                ", "@ == seq![',', ' '],
                text@ == seq!['['] + describe_below(self@, k as int),
            decreases self.heuristics@.len() - k,
        {
            let ghost before = text@;
            if k > 0 {
                text.append(", ");
            }
            let h = &self.heuristics[k];
            text.append(h.label());
            text.append("(");
            append_decimal(&mut text, *h.weigth());
            text.append(")");
            proof {
                assert(self@[k as int] == h@);
                assert(text@ =~= seq!['['] + describe_below(self@, k + 1));
            }
            k = k + 1;
        }
        text.append("]");
        assert(text@ =~= description_of(self@));
        text
    }
}

/// The sum of the weights grows with the number of heuristics counted.
pub proof fn lemma_weigths_monotonic(heuristics: Seq<HeuristicView>, a: int, b: int)
    requires
        a <= b,
    ensures
        weigths_below(heuristics, a) <= weigths_below(heuristics, b),
    decreases b - a,
{
    if a < b {
        lemma_weigths_monotonic(heuristics, a, b - 1);
    }
}

} // verus!
