use andaluz_core::board::Board;
use andaluz_core::cell::CellContent;
use andaluz_core::classifier::Classifier;
use andaluz_core::error::BoardError;
use andaluz_core::heuristic::{full_score_of, Heuristic, Implementation, Score};
use andaluz_core::heuristic_implementation::attacksum::AttackSum;
use andaluz_core::heuristic_implementation::attacksuminverse::AttackSumInverse;
use andaluz_core::heuristic_implementation::bruteforce::BruteForce;
use andaluz_core::heuristic_implementation::horse::Horse;
use andaluz_core::heuristic_implementation::prioritizecenter::PrioritizeCenter;
use andaluz_core::heuristic_implementation::HeuristicImplementation;
use andaluz_core::signature_set::SignatureSet;
use andaluz_core::solver::{rank_nodes, SolutionNode, Solver, SolverResult};

fn as_float(score: Score) -> f64 {
    score.num as f64 / score.den as f64
}

fn is_full_solution(board: &Board) -> bool {
    let cols = *board.get_cols();
    let queens: Vec<(usize, usize)> = board
        .get_cells()
        .iter()
        .filter(|c| c.is_queen())
        .map(|c| (*c.get_xyi().0, *c.get_xyi().1))
        .collect();
    if queens.len() != cols {
        return false;
    }
    for (i, a) in queens.iter().enumerate() {
        for b in queens.iter().skip(i + 1) {
            let dx = if a.0 > b.0 { a.0 - b.0 } else { b.0 - a.0 };
            let dy = if a.1 > b.1 { a.1 - b.1 } else { b.1 - a.1 };
            if dx == 0 || dy == 0 || dx == dy {
                return false;
            }
        }
    }
    true
}

#[test]
fn attacksum_solve() {
    let mut board: Board = Board::new(4);
    let mut solver = Solver::new();
    solver.push_heuristic(AttackSum::new(1));
    solver.solve(&mut board).unwrap();
    assert!(board.is_solved());
}

#[test]
fn calc() {
    let board = Board::new(4);
    let value = BruteForce::calculate(&board, &1, &1);
    assert_eq!(value as f64 / full_score_of(&board) as f64, 1.0);
}

#[test]
fn horse_solve() {
    let mut board: Board = Board::new(4);
    let mut solver = Solver::new();
    solver.push_heuristic(Horse::new(1));
    solver.solve(&mut board).unwrap();
    assert!(board.is_solved());
}

#[test]
fn bruteforce_solve() {
    let mut board: Board = Board::new(4);
    let mut solver = Solver::new();
    solver.push_heuristic(BruteForce::new(1));
    solver.solve(&mut board).unwrap();
    assert!(board.is_solved());
}

#[test]
fn solve_without_heuristics_falls_back_to_brute_force() {
    let mut board = Board::new(4);
    let mut solver = Solver::new();
    let result = solver.solve(&mut board).unwrap();
    assert!(result.is_solved());
    assert!(*result.get_jumps() <= 16);
    assert_eq!(result.get_heuristics_description(), "[BruteForce(1)]");
    assert_eq!(result.get_board(), &vec![0_u8, 0]);
    let solution = result.get_solution().clone().unwrap();
    assert_eq!(&solution, board.get_signature());
    assert!(is_full_solution(&board));
}

#[test]
fn solve_with_no_budget_finds_nothing_and_restores_the_board() {
    let mut board = Board::new(4);
    let mut solver = Solver::new();
    solver.set_max_jumps(0);
    solver.push_heuristic(BruteForce::new(1));
    let result = solver.solve(&mut board).unwrap();
    assert!(!result.is_solved());
    assert_eq!(result.get_solution(), &None);
    assert_eq!(*result.get_jumps(), 3);
    assert_eq!(board.get_signature(), &vec![0_u8, 0]);
    board
        .get_cells()
        .iter()
        .for_each(|c| assert_eq!(c.get_content(), &CellContent::Empty));
}

#[test]
fn solve_finds_full_boards_of_many_sizes() {
    for cols in [1usize, 4, 5, 6, 7, 8, 9, 10] {
        let mut board = Board::new(cols);
        let mut solver = Solver::new();
        solver.push_heuristic(Horse::new(1));
        solver.push_heuristic(PrioritizeCenter::new(1));
        let result = solver.solve(&mut board).unwrap();
        assert!(result.is_solved(), "cols = {}", cols);
        assert_eq!(result.get_heuristics_description(), "[Horse(1), PrioritizeCenter(1)]");
        assert!(is_full_solution(&board), "cols = {}", cols);
    }
}

#[test]
fn solve_gives_up_where_no_full_board_exists() {
    for cols in [2usize, 3] {
        let mut board = Board::new(cols);
        let mut solver = Solver::new();
        let result = solver.solve(&mut board).unwrap();
        assert!(!result.is_solved());
        assert_eq!(board.get_signature(), &vec![0_u8; (cols * cols + 7) / 8]);
    }
}

#[test]
fn solve_keeps_the_queens_that_stand_already() {
    let mut board = Board::new(8);
    board.toggle_cell(&1, &5).unwrap();
    board.toggle_cell(&2, &3).unwrap();
    let before = board.get_signature().clone();
    let mut solver = Solver::new();
    solver.push_heuristic(AttackSumInverse::new(2));
    solver.push_heuristic(Horse::new(1));
    let result = solver.solve(&mut board).unwrap();
    assert_eq!(result.get_board(), &before);
    assert_eq!(result.get_heuristics_description(), "[AttackSumInverse(2), Horse(1)]");
    if result.is_solved() {
        assert!(is_full_solution(&board));
        assert_eq!(board.get_cell_content(&1, &5).unwrap(), &CellContent::Queen);
        assert_eq!(board.get_cell_content(&2, &3).unwrap(), &CellContent::Queen);
    } else {
        assert_eq!(board.get_signature(), &before);
    }
}

#[test]
fn solve_completes_a_board_that_lacks_one_queen() {
    let mut board = Board::new(8);
    for (x, y) in [(1, 5), (2, 3), (3, 1), (4, 7), (5, 2), (6, 8), (7, 6)] {
        board.toggle_cell(&x, &y).unwrap();
    }
    let mut solver = Solver::new();
    solver.push_heuristic(Horse::new(0));
    let result = solver.solve(&mut board).unwrap();
    assert!(result.is_solved());
    assert_eq!(*result.get_jumps(), 1);
    assert_eq!(board.get_signature(), &vec![32_u8, 8, 64, 1, 128, 2, 16, 4]);
}

#[test]
fn solve_on_a_full_board_finds_nothing_to_do() {
    let mut board = Board::new(8);
    for (x, y) in [(1, 5), (2, 3), (3, 1), (4, 7), (5, 2), (6, 8), (7, 6), (8, 4)] {
        board.toggle_cell(&x, &y).unwrap();
    }
    let mut solver = Solver::new();
    let result = solver.solve(&mut board).unwrap();
    assert!(!result.is_solved());
    assert_eq!(*result.get_jumps(), 0);
    assert!(board.is_solved());
}

#[test]
fn solve_refuses_weights_that_sum_up_to_zero() {
    let mut board = Board::new(4);
    let mut solver = Solver::new();
    solver.push_heuristic(Horse::new(0));
    assert_eq!(solver.solve(&mut board).err(), Some(BoardError::ZeroWeightClassifier));
    assert_eq!(board.get_signature(), &vec![0_u8, 0]);
}

#[test]
fn horse_scores_one_next_to_a_knight_move() {
    let mut board = Board::new(8);
    board.toggle_cell(&1, &2).unwrap();
    let full = full_score_of(&board);
    assert_eq!(full, 256);
    assert_eq!(Horse::calculate(&board, &3, &3) as f64 / full as f64, 1.0);
    assert_eq!(Horse::calculate(&board, &3, &1) as f64 / full as f64, 1.0);
    assert_eq!(Horse::calculate(&board, &5, &5) as f64 / full as f64, 0.0);
    assert_eq!(Horse::calculate(&board, &2, &3) as f64 / full as f64, 0.0);
    board.toggle_cell(&3, &3).unwrap();
    assert_eq!(Horse::calculate(&board, &3, &3), 256);
    let heuristic = Horse::new(3).to_heuristic();
    assert_eq!(heuristic.label(), "Horse");
    assert_eq!(*heuristic.weigth(), 3);
    assert_eq!(heuristic.implementation(), &Implementation::Horse);
    assert_eq!(heuristic.score(&board, &3, &3), 768);
}

#[test]
fn attack_sum_and_its_inverse_add_up_to_one() {
    let mut board = Board::new(4);
    assert_eq!(AttackSum::calculate(&board, &1, &1), 0);
    assert_eq!(AttackSumInverse::calculate(&board, &1, &1), 64);
    board.toggle_cell(&1, &1).unwrap();
    assert_eq!(AttackSum::calculate(&board, &1, &1), 9);
    assert_eq!(AttackSumInverse::calculate(&board, &1, &1), 55);
    board.toggle_cell(&3, &2).unwrap();
    assert_eq!(AttackSum::calculate(&board, &3, &2), 9 + 11);
    assert_eq!(
        AttackSum::calculate(&board, &3, &2) as f64 / full_score_of(&board) as f64,
        20.0 / 64.0
    );
}

#[test]
fn prioritize_center_scores_the_middle_square_only() {
    let board = Board::new(8);
    assert_eq!(PrioritizeCenter::calculate(&board, &4, &4), 256);
    assert_eq!(PrioritizeCenter::calculate(&board, &5, &5), 0);
    assert_eq!(PrioritizeCenter::calculate(&board, &4, &5), 0);
    let board = Board::new(5);
    assert_eq!(PrioritizeCenter::calculate(&board, &2, &2), 100);
    assert_eq!(PrioritizeCenter::calculate(&board, &3, &3), 0);
    assert_eq!(Implementation::PrioritizeCenter.calculate(&board, &2, &2), 100);
    assert_eq!(Implementation::BruteForce.calculate(&board, &1, &5), 100);
}

#[test]
fn classifier_takes_the_weighted_average() {
    let mut board = Board::new(8);
    board.toggle_cell(&1, &2).unwrap();
    board.toggle_cell(&3, &3).unwrap();
    let mut classifier = Classifier::new();
    assert!(classifier.is_empty());
    assert_eq!(classifier.description(), "[]");
    assert_eq!(classifier.score(&board, &3, &3), Err(BoardError::ZeroWeightClassifier));
    classifier.push_heuristic(Horse::new(3));
    classifier.push_heuristic(PrioritizeCenter::new(1));
    assert!(!classifier.is_empty());
    assert_eq!(classifier.get_heuristics().len(), 2);
    assert_eq!(classifier.get_total_weigth(), 4);
    assert_eq!(classifier.description(), "[Horse(3), PrioritizeCenter(1)]");
    let score = classifier.score(&board, &3, &3).unwrap();
    assert_eq!(score, Score { num: 768, den: 1024 });
    assert_eq!(as_float(score), 0.75);
    classifier.push_heuristic(BruteForce::new(4));
    let score = classifier.score(&board, &3, &3).unwrap();
    assert_eq!(as_float(score), 0.875);
    classifier.push_heuristic(AttackSum::new(120));
    assert_eq!(
        classifier.description(),
        "[Horse(3), PrioritizeCenter(1), BruteForce(4), AttackSum(120)]"
    );
}

#[test]
fn heuristic_can_be_made_by_hand() {
    let board = Board::new(4);
    let heuristic = Heuristic::new("Everything", 4000000000, Implementation::BruteForce);
    assert_eq!(heuristic.label(), "Everything");
    assert_eq!(heuristic.score(&board, &1, &1), 4000000000u128 * 64);
}

#[test]
fn nodes_are_ranked_by_falling_score_and_stay_in_order_on_ties() {
    let node = |x, y, num| SolutionNode::new(x, y, Score { num, den: 10 });
    let nodes = vec![
        node(1, 1, 5),
        node(2, 1, 7),
        node(3, 1, 5),
        node(4, 1, 10),
        node(1, 2, 0),
        node(2, 2, 7),
    ];
    let ranked = rank_nodes(&nodes);
    let order: Vec<(usize, usize, u128)> =
        ranked.iter().map(|n| (n.x, n.y, n.score.num)).collect();
    assert_eq!(
        order,
        vec![(4, 1, 10), (2, 1, 7), (2, 2, 7), (1, 1, 5), (3, 1, 5), (1, 2, 0)]
    );
    assert_eq!(rank_nodes(&vec![]).len(), 0);
}

#[test]
fn solver_result_counts_and_remembers() {
    let mut result = SolverResult::new(vec![1, 2], String::from("[]"));
    assert_eq!(result.get_board(), &vec![1_u8, 2]);
    assert_eq!(result.get_heuristics_description(), "[]");
    assert_eq!(*result.get_jumps(), 0);
    assert!(!result.is_solved());
    result.inc_jumps();
    result.inc_jumps();
    assert_eq!(*result.get_jumps(), 2);
    result.set_solved(vec![3, 4]);
    assert!(result.is_solved());
    assert_eq!(result.get_solution(), &Some(vec![3_u8, 4]));
}

#[test]
fn signature_set_holds_what_was_put_in() {
    let mut set = SignatureSet::new();
    assert!(!set.contains(&vec![1, 2, 3]));
    assert!(set.insert(&vec![1, 2, 3]));
    assert!(!set.insert(&vec![1, 2, 3]));
    assert!(set.insert(&vec![3, 2, 1]));
    assert!(set.insert(&vec![]));
    assert!(set.contains(&vec![1, 2, 3]));
    assert!(set.contains(&vec![3, 2, 1]));
    assert!(set.contains(&vec![]));
    assert!(!set.contains(&vec![1, 2]));
    assert!(!set.contains(&vec![1, 2, 3, 0]));
    for a in 0..=255u8 {
        for b in 0..8u8 {
            set.insert(&vec![a, b]);
        }
    }
    for a in 0..=255u8 {
        assert!(set.contains(&vec![a, 7]));
        assert!(!set.contains(&vec![a, 8]));
    }
}
