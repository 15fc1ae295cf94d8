//! The full score for the square in the middle of the board, nothing
//! elsewhere.

use vstd::prelude::*;
use crate::board::Board;
use crate::geometry::on_board;
use crate::heuristic::{full_score, full_score_of, Heuristic, HeuristicView, Implementation};
use crate::heuristic_implementation::HeuristicImplementation;
use crate::placement::BoardView;

verus! {

pub struct PrioritizeCenter {
    pub weigth: u32,
}

impl PrioritizeCenter {
    /// The full score where column and row of the candidate are both half
    /// the number of columns, rounded down; nothing elsewhere.
    pub open spec fn value(board: BoardView, x: int, y: int) -> nat {
        if x == board.cols / 2 && y == board.cols / 2 {
            full_score(board.cols)
        } else {
            0
        }
    }

    /// Computes `value`.
    pub fn calculate(board: &Board, x: &usize, y: &usize) -> (r: u128)
        requires
            board.wf(),
            on_board(board@.cols, *x as int, *y as int),
        ensures
            r == Self::value(board@, *x as int, *y as int),
            r <= full_score(board@.cols),
    {
        let mid = *board.get_cols() / 2;
        if *x == mid && *y == mid {
            full_score_of(board)
        } else {
            0
        }
    }
}

impl HeuristicImplementation for PrioritizeCenter {
    open spec fn spec_heuristic(&self) -> HeuristicView {
        HeuristicView {
            label: "PrioritizeCenter"@,
            weigth: self.weigth,
            implementation: Implementation::PrioritizeCenter,
        }
    }

    fn new(weigth: u32) -> (r: Self) {
        PrioritizeCenter { weigth }
    }

    fn to_heuristic<'a>(self) -> (h: Heuristic<'a>) {
        Heuristic::new("PrioritizeCenter", self.weigth, Implementation::PrioritizeCenter)
    }
}

} // verus!
