//! The fewer attacks the board records, the higher the score.

use vstd::prelude::*;
use crate::board::Board;
use crate::geometry::on_board;
use crate::heuristic::{full_score, full_score_of, Heuristic, HeuristicView, Implementation};
use crate::heuristic_implementation::attacksum::attack_sum_of;
use crate::heuristic_implementation::HeuristicImplementation;
use crate::placement::BoardView;

verus! {

pub struct AttackSumInverse {
    pub weigth: u32,
}

impl AttackSumInverse {
    /// The full score less the sum of the attack counters of the board.
    pub open spec fn value(board: BoardView, x: int, y: int) -> nat {
        (full_score(board.cols) - board.attack_sum()) as nat
    }

    /// Computes `value`.
    pub fn calculate(board: &Board, x: &usize, y: &usize) -> (r: u128)
        requires
            board.wf(),
            on_board(board@.cols, *x as int, *y as int),
        ensures
            r == Self::value(board@, *x as int, *y as int),
            r <= full_score(board@.cols),
    {
        let sum = attack_sum_of(board);
        let maximum = full_score_of(board);
        maximum - sum
    }
}

impl HeuristicImplementation for AttackSumInverse {
    open spec fn spec_heuristic(&self) -> HeuristicView {
        HeuristicView {
            label: "AttackSumInverse"@,
            weigth: self.weigth,
            implementation: Implementation::AttackSumInverse,
        }
    }

    fn new(weigth: u32) -> (r: Self) {
        AttackSumInverse { weigth }
    }

    fn to_heuristic<'a>(self) -> (h: Heuristic<'a>) {
        Heuristic::new("AttackSumInverse", self.weigth, Implementation::AttackSumInverse)
    }
}

} // verus!
