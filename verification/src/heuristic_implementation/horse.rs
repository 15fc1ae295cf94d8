//! The full score where a queen stands a knight's move from the
//! candidate, nothing elsewhere.

use vstd::prelude::*;
use crate::board::Board;
use crate::cell::CellContent;
use crate::geometry::{cell_index, lemma_index, on_board};
use crate::heuristic::{full_score, full_score_of, Heuristic, HeuristicView, Implementation};
use crate::heuristic_implementation::HeuristicImplementation;
use crate::placement::{lemma_queen_unattacked, BoardView};

verus! {

pub struct Horse {
    pub weigth: u32,
}

/// A queen stands on the square `(x, y)` of the board.
pub open spec fn queen_on(board: BoardView, x: int, y: int) -> bool {
    on_board(board.cols, x, y) && board.queens[cell_index(board.cols, x, y)]
}

/// A queen stands a knight's move from `(x, y)`.
pub open spec fn knight_near(board: BoardView, x: int, y: int) -> bool {
    queen_on(board, x - 1, y - 2) || queen_on(board, x - 2, y - 1) || queen_on(board, x - 2, y + 1)
        || queen_on(board, x - 1, y + 2) || queen_on(board, x + 1, y + 2) || queen_on(
        board,
        x + 2,
        y + 1,
    ) || queen_on(board, x + 2, y - 1) || queen_on(board, x + 1, y - 2)
}

impl Horse {
    /// The full score where a queen stands a knight's move from the
    /// candidate, nothing elsewhere.
    pub open spec fn value(board: BoardView, x: int, y: int) -> nat {
        if knight_near(board, x, y) {
            full_score(board.cols)
        } else {
            0
        }
    }

    fn check_jump(board: &Board, x: i64, y: i64) -> (r: bool)
        requires
            board.wf(),
        ensures
            r == queen_on(board@, x as int, y as int),
    {
        proof {
            board.lemma_wf();
        }
        assert(board@.cols < 0x1_0000_0000) by (nonlinear_arith)
            requires
                board@.cols * board@.cols <= usize::MAX,
                usize::MAX <= 0xffff_ffff_ffff_ffff,
        ;
        let cols = *board.get_cols() as i64;
        if x < 1 || x > cols || y < 1 || y > cols {
            return false;
        }
        let (ux, uy) = (x as usize, y as usize);
        proof {
            lemma_index(board@.cols, ux - 1, uy - 1);
            if board@.queens[cell_index(board@.cols, ux as int, uy as int)] {
                lemma_queen_unattacked(board@, cell_index(board@.cols, ux as int, uy as int));
            }
        }
        match board.get_cell_content(&ux, &uy) {
            Ok(c) => match c {
                CellContent::Queen => true,
                _ => false,
            },
            Err(_) => false,
        }
    }

    /// Computes `value`.
    pub fn calculate(board: &Board, x: &usize, y: &usize) -> (r: u128)
        requires
            board.wf(),
            on_board(board@.cols, *x as int, *y as int),
        ensures
            r == Self::value(board@, *x as int, *y as int),
            r <= full_score(board@.cols),
    {
        proof {
            board.lemma_wf();
        }
        assert(*x < 0x1_0000_0000 && *y < 0x1_0000_0000) by (nonlinear_arith)
            requires
                board@.cols * board@.cols <= usize::MAX,
                usize::MAX <= 0xffff_ffff_ffff_ffff,
                *x <= board@.cols,
                *y <= board@.cols,
        ;
        let mut horse = false;
        let (sx, sy) = (*x as i64, *y as i64);

        horse = horse || Horse::check_jump(board, sx - 1, sy - 2);
        horse = horse || Horse::check_jump(board, sx - 2, sy - 1);
        horse = horse || Horse::check_jump(board, sx - 2, sy + 1);
        horse = horse || Horse::check_jump(board, sx - 1, sy + 2);
        horse = horse || Horse::check_jump(board, sx + 1, sy + 2);
        horse = horse || Horse::check_jump(board, sx + 2, sy + 1);
        horse = horse || Horse::check_jump(board, sx + 2, sy - 1);
        horse = horse || Horse::check_jump(board, sx + 1, sy - 2);

        if horse {
            full_score_of(board)
        } else {
            0
        }
    }
}

impl HeuristicImplementation for Horse {
    open spec fn spec_heuristic(&self) -> HeuristicView {
        HeuristicView {
            label: "Horse"@,
            weigth: self.weigth,
            implementation: Implementation::Horse,
        }
    }

    fn new(weigth: u32) -> (r: Self) {
        Horse { weigth }
    }

    fn to_heuristic<'a>(self) -> (h: Heuristic<'a>) {
        Heuristic::new("Horse", self.weigth, Implementation::Horse)
    }
}

} // verus!
