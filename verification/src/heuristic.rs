//! A named, weighted scoring function for candidate squares.
//!
//! Scores are exact fractions. A scoring function answers in parts of
//! `full_score`, which stands for one; a classifier divides the weighted
//! sum of such answers by the sum of the weights.

use vstd::prelude::*;
use crate::board::Board;
use crate::geometry::on_board;
use crate::heuristic_implementation::attacksum::AttackSum;
use crate::heuristic_implementation::attacksuminverse::AttackSumInverse;
use crate::heuristic_implementation::bruteforce::BruteForce;
use crate::heuristic_implementation::horse::Horse;
use crate::heuristic_implementation::prioritizecenter::PrioritizeCenter;
use crate::placement::BoardView;

verus! {

/// The value that stands for a score of one on a board of `cols` columns:
/// four times the number of squares, the most that the attack counters of
/// a board can sum up to.
pub open spec fn full_score(cols: nat) -> nat {
    4 * cols * cols
}

/// The full score of a board, computed.
pub fn full_score_of(board: &Board) -> (r: u128)
    requires
        board.wf(),
    ensures
        r == full_score(board@.cols),
        r < 0x4_0000_0000_0000_0000,
{
    proof {
        board.lemma_wf();
    }
    let cols = *board.get_cols() as u128;
    assert(4 * cols * cols == 4 * (cols * cols)) by (nonlinear_arith);
    4 * cols * cols
}

/// A score as an exact fraction `num / den`.
#[derive(Debug, Clone, Copy, PartialEq, Eq, Structural)]
pub struct Score {
    pub num: u128,
    pub den: u128,
}

impl Score {
    /// The denominator is positive and the fraction is at most one.
    pub open spec fn wf(self) -> bool {
        self.den > 0 && self.num <= self.den
    }

    /// The fraction `self` is greater than the fraction `other`.
    pub open spec fn above(self, other: Score) -> bool {
        self.num * other.den > other.num * self.den
    }
}

/// The scoring functions that a heuristic can be made of.
#[derive(Debug, Clone, Copy, PartialEq, Eq, Structural)]
pub enum Implementation {
    /// The full score for every candidate.
    BruteForce,
    /// The sum of the attack counters of the board.
    AttackSum,
    /// The full score less the sum of the attack counters of the board.
    AttackSumInverse,
    /// The full score where a queen stands a knight's move from the
    /// candidate.
    Horse,
    /// The full score for the square in the middle of the board.
    PrioritizeCenter,
}

impl Implementation {
    /// What the scoring function makes of the candidate `(x, y)` on
    /// `board`, in parts of `full_score(board.cols)`.
    pub open spec fn value(self, board: BoardView, x: int, y: int) -> nat {
        match self {
            Implementation::BruteForce => BruteForce::value(board, x, y),
            Implementation::AttackSum => AttackSum::value(board, x, y),
            Implementation::AttackSumInverse => AttackSumInverse::value(board, x, y),
            Implementation::Horse => Horse::value(board, x, y),
            Implementation::PrioritizeCenter => PrioritizeCenter::value(board, x, y),
        }
    }

    /// Computes `value`, which never exceeds the full score.
    pub fn calculate(&self, board: &Board, x: &usize, y: &usize) -> (r: u128)
        requires
            board.wf(),
            on_board(board@.cols, *x as int, *y as int),
        ensures
            r == self.value(board@, *x as int, *y as int),
            r <= full_score(board@.cols),
    {
        match self {
            Implementation::BruteForce => BruteForce::calculate(board, x, y),
            Implementation::AttackSum => AttackSum::calculate(board, x, y),
            Implementation::AttackSumInverse => AttackSumInverse::calculate(board, x, y),
            Implementation::Horse => Horse::calculate(board, x, y),
            Implementation::PrioritizeCenter => PrioritizeCenter::calculate(board, x, y),
        }
    }
}

/// A heuristic as mathematics sees it.
pub struct HeuristicView {
    pub label: Seq<char>,
    pub weigth: u32,
    pub implementation: Implementation,
}

impl HeuristicView {
    /// The weighted score of a candidate: the weight times the value.
    pub open spec fn score(self, board: BoardView, x: int, y: int) -> nat {
        self.weigth as nat * self.implementation.value(board, x, y)
    }
}

/// A scoring function with its label and its weight.
#[derive(Debug, Clone, Copy)]
pub struct Heuristic<'a> {
    label: &'a str,
    weigth: u32,
    implementation: Implementation,
}

impl<'a> View for Heuristic<'a> {
    type V = HeuristicView;

    closed spec fn view(&self) -> HeuristicView {
        HeuristicView {
            label: self.label@,
            weigth: self.weigth,
            implementation: self.implementation,
        }
    }
}

impl<'a> Heuristic<'a> {
    pub fn new(label: &'a str, weigth: u32, implementation: Implementation) -> (h: Self)
        ensures
            h@ == (HeuristicView { label: label@, weigth, implementation }),
    {
        Heuristic { label, weigth, implementation }
    }

    pub fn label(&self) -> (r: &'a str)
        ensures
            r@ == self@.label,
    {
        self.label
    }

    pub fn weigth(&self) -> (r: &u32)
        ensures
            *r == self@.weigth,
    {
        &self.weigth
    }

    pub fn implementation(&self) -> (r: &Implementation)
        ensures
            *r == self@.implementation,
    {
        &self.implementation
    }

    /// The weight times what the scoring function makes of the candidate
    /// `(x, y)` on `board`.
    pub fn score(&self, board: &Board, x: &usize, y: &usize) -> (r: u128)
        requires
            board.wf(),
            on_board(board@.cols, *x as int, *y as int),
        ensures
            r == self@.score(board@, *x as int, *y as int),
            r <= self@.weigth * full_score(board@.cols),
    {
        let value = self.implementation.calculate(board, x, y);
        let full = full_score_of(board);
        proof {
            assert(self.weigth as nat * value as nat <= self.weigth as nat * full as nat)
                by (nonlinear_arith)
                requires
                    value <= full,
            ;
            assert(self.weigth as nat * full as nat <= 0xffff_ffff * 0x4_0000_0000_0000_0000)
                by (nonlinear_arith)
                requires
                    self.weigth <= 0xffff_ffff,
                    full < 0x4_0000_0000_0000_0000,
            ;
        }
        self.weigth as u128 * value
    }
}

} // verus!
