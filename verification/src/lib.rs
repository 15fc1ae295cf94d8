//! N-Queens on an N×N board.
//!
//! A [`board::Board`] keeps, for every square, the number of queens that
//! attack it while queens are put down and taken off, and carries a packed
//! signature of the queens on it. A [`solver::Solver`] completes a board
//! by backtracking: it tries the empty squares in the order of the scores
//! that a [`classifier::Classifier`] of weighted heuristics gives them,
//! within a budget of jumps, and passes over boards that are rotations or
//! reflections of boards that led nowhere.
//!
//! The contracts speak of a board through its [`placement::BoardView`]:
//! the number of columns and the squares that carry a queen.

pub mod error;
pub mod geometry;
pub mod signature;
pub mod cell;
pub mod placement;
pub mod board;
pub mod text;
pub mod heuristic;
pub mod heuristic_implementation;
pub mod classifier;
pub mod signature_set;
pub mod solver;
pub mod laws;
