//! No preference: every candidate gets the full score.

use vstd::prelude::*;
use crate::board::Board;
use crate::geometry::on_board;
use crate::heuristic::{full_score, full_score_of, Heuristic, HeuristicView, Implementation};
use crate::heuristic_implementation::HeuristicImplementation;
use crate::placement::BoardView;

verus! {

pub struct BruteForce {
    pub weigth: u32,
}

impl BruteForce {
    /// The full score, whatever the board and the candidate.
    pub open spec fn value(board: BoardView, x: int, y: int) -> nat {
        full_score(board.cols)
    }

    /// Computes `value`.
    pub fn calculate(board: &Board, x: &usize, y: &usize) -> (r: u128)
        requires
            board.wf(),
            on_board(board@.cols, *x as int, *y as int),
        ensures
            r == Self::value(board@, *x as int, *y as int),
            r <= full_score(board@.cols),
    {
        full_score_of(board)
    }
}

impl HeuristicImplementation for BruteForce {
    open spec fn spec_heuristic(&self) -> HeuristicView {
        HeuristicView {
            label: "BruteForce"@,
            weigth: self.weigth,
            implementation: Implementation::BruteForce,
        }
    }

    fn new(weigth: u32) -> (r: Self) {
        BruteForce { weigth }
    }

    fn to_heuristic<'a>(self) -> (h: Heuristic<'a>) {
        Heuristic::new("BruteForce", self.weigth, Implementation::BruteForce)
    }
}

} // verus!
