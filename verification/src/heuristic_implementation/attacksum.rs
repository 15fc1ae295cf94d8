//! The more attacks the board records, the higher the score.

use vstd::prelude::*;
use crate::board::Board;
use crate::cell::CellContent;
use crate::geometry::on_board;
use crate::heuristic::{full_score, Heuristic, HeuristicView, Implementation};
use crate::heuristic_implementation::HeuristicImplementation;
use crate::placement::{lemma_attack_sum_bound, BoardView};

verus! {

pub struct AttackSum {
    pub weigth: u32,
}

/// The sum of the attack counters of all cells of the board.
pub fn attack_sum_of(board: &Board) -> (r: u128)
    requires
        board.wf(),
    ensures
        r == board@.attack_sum(),
        r <= full_score(board@.cols),
{
    let cells = board.get_cells();
    let ghost v = board@;
    let mut sum: u128 = 0;
    let mut k: usize = 0;
    proof {
        board.lemma_wf();
    }
    while k < cells.len()
        invariant
            board.wf(),
            v == board@,
            v.legal(),
            cells@ == board.cells_view(),
            cells@.len() == v.queens.len(),
            k <= cells@.len(),
            sum == v.attack_sum_below(k as int),
        decreases cells@.len() - k,
    {
        proof {
            board.lemma_wf();
            lemma_attack_sum_bound(v, k as int);
            lemma_attack_sum_bound(v, k + 1);
        }
        match cells[k].get_content() {
            CellContent::Attack(a) => {
                sum = sum + *a as u128;
            },
            _ => {},
        }
        k = k + 1;
    }
    proof {
        lemma_attack_sum_bound(v, k as int);
        assert(4 * (v.cols * v.cols) == 4 * v.cols * v.cols) by (nonlinear_arith);
    }
    sum
}

impl AttackSum {
    /// The sum of the attack counters of the board: the full score where
    /// every square is attacked four times.
    pub open spec fn value(board: BoardView, x: int, y: int) -> nat {
        board.attack_sum()
    }

    /// Computes `value`.
    pub fn calculate(board: &Board, x: &usize, y: &usize) -> (r: u128)
        requires
            board.wf(),
            on_board(board@.cols, *x as int, *y as int),
        ensures
            r == Self::value(board@, *x as int, *y as int),
            r <= full_score(board@.cols),
    {
        attack_sum_of(board)
    }
}

impl HeuristicImplementation for AttackSum {
    open spec fn spec_heuristic(&self) -> HeuristicView {
        HeuristicView {
            label: "AttackSum"@,
            weigth: self.weigth,
            implementation: Implementation::AttackSum,
        }
    }

    fn new(weigth: u32) -> (r: Self) {
        AttackSum { weigth }
    }

    fn to_heuristic<'a>(self) -> (h: Heuristic<'a>) {
        Heuristic::new("AttackSum", self.weigth, Implementation::AttackSum)
    }
}

} // verus!
