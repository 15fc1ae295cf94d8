//! The scoring functions that come with the library, each with the way to
//! make a heuristic of it.

use vstd::prelude::*;
use crate::heuristic::{Heuristic, HeuristicView};

pub mod attacksum;
pub mod attacksuminverse;
pub mod bruteforce;
pub mod horse;
pub mod prioritizecenter;

verus! {

/// A scoring function that knows its label and carries its weight.
pub trait HeuristicImplementation: Sized {
    /// The heuristic that `to_heuristic` makes.
    spec fn spec_heuristic(&self) -> HeuristicView;

    fn new(weigth: u32) -> (r: Self)
        ensures
            r.spec_heuristic().weigth == weigth,
    ;

    /// The heuristic with the label, the weight and the scoring function
    /// of this implementation.
    fn to_heuristic<'a>(self) -> (h: Heuristic<'a>)
        ensures
            h@ == self.spec_heuristic(),
    ;
}

} // verus!
