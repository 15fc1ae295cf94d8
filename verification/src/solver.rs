//! Backtracking search for a full board, best candidates first, within a
//! budget of jumps, and without a second look at a board that is a
//! rotation or a reflection of one that led nowhere.
//!
//! The signatures of all eight symmetric twins of a dead end are marked
//! as depleted, although the order in which candidates are tried need not
//! be the same on a twin. A search that ran out of jumps below a board
//! marks that board too. So the search may give up on a board that can be
//! completed; what it returns as solved always is.

use vstd::prelude::*;
use crate::board::{cell_xyi, views_of, Board};
use crate::cell::CellContent;
use crate::classifier::{description_of, total_weigth, weighted_sum, Classifier};
use crate::error::BoardError;
use crate::geometry::{cell_index, col_of, lemma_coords, lemma_index, on_board, row_of};
use crate::heuristic::{full_score, HeuristicView, Implementation, Score};
use crate::heuristic_implementation::bruteforce::BruteForce;
use crate::heuristic_implementation::HeuristicImplementation;
use crate::placement::{
    lemma_available, lemma_queens_bound, lemma_queens_toggled, lemma_toggled_content,
    lemma_toggled_twice, BoardView,
};
use crate::signature::copy_bytes;
use crate::signature_set::SignatureSet;

verus! {

/// A candidate square with the score that the classifier gave it.
#[derive(Debug, Clone, Copy)]
pub struct SolutionNode {
    pub x: usize,
    pub y: usize,
    pub score: Score,
}

impl SolutionNode {
    pub fn new(x: usize, y: usize, score: Score) -> (node: Self)
        ensures
            node.x == x,
            node.y == y,
            node.score == score,
    {
        SolutionNode { x, y, score }
    }
}

/// The first place from `from` on in a ranked list whose node has a lower
/// score than `node`; the length of the list where there is none.
pub open spec fn first_beaten(ranked: Seq<SolutionNode>, node: SolutionNode, from: int) -> int
    decreases ranked.len() - from,
{
    if from >= ranked.len() {
        ranked.len() as int
    } else if node.score.above(ranked[from].score) {
        from
    } else {
        first_beaten(ranked, node, from + 1)
    }
}

/// The first `k` nodes in the order in which they are tried: by falling
/// score, nodes of equal score in the order in which they were listed.
pub open spec fn ranked_below(nodes: Seq<SolutionNode>, k: int) -> Seq<SolutionNode>
    decreases k,
{
    if k <= 0 {
        Seq::empty()
    } else {
        ranked_below(nodes, k - 1).insert(
            first_beaten(ranked_below(nodes, k - 1), nodes[k - 1], 0),
            nodes[k - 1],
        )
    }
}

/// The nodes in the order in which they are tried.
pub open spec fn ranked(nodes: Seq<SolutionNode>) -> Seq<SolutionNode> {
    ranked_below(nodes, nodes.len() as int)
}

/// The place that `first_beaten` names lies in the list or at its end;
/// the node has a higher score than the node at that place, and than none
/// before it.
pub proof fn lemma_first_beaten(ranked: Seq<SolutionNode>, node: SolutionNode, from: int)
    requires
        0 <= from <= ranked.len(),
    ensures
        from <= first_beaten(ranked, node, from) <= ranked.len(),
        first_beaten(ranked, node, from) < ranked.len() ==> node.score.above(
            ranked[first_beaten(ranked, node, from)].score,
        ),
        forall|i: int|
            from <= i < first_beaten(ranked, node, from) ==> !node.score.above(
                (#[trigger] ranked[i]).score,
            ),
    decreases ranked.len() - from,
{
    if from < ranked.len() && !node.score.above(ranked[from].score) {
        lemma_first_beaten(ranked, node, from + 1);
    }
}

/// Ranking keeps the nodes: as many as before, and what holds of every
/// listed node holds of every ranked node.
pub proof fn lemma_ranked_keeps(
    nodes: Seq<SolutionNode>,
    k: int,
    holds: spec_fn(SolutionNode) -> bool,
)
    requires
        0 <= k <= nodes.len(),
        forall|j: int| 0 <= j < nodes.len() ==> holds(#[trigger] nodes[j]),
    ensures
        ranked_below(nodes, k).len() == k,
        forall|j: int| 0 <= j < k ==> holds(#[trigger] ranked_below(nodes, k)[j]),
    decreases k,
{
    if k > 0 {
        lemma_ranked_keeps(nodes, k - 1, holds);
        lemma_first_beaten(ranked_below(nodes, k - 1), nodes[k - 1], 0);
    }
}

/// The nodes in the order in which they are tried.
pub fn rank_nodes(nodes: &Vec<SolutionNode>) -> (r: Vec<SolutionNode>)
    requires
        forall|j: int|
            0 <= j < nodes@.len() ==> (#[trigger] nodes@[j]).score.den == nodes@[0].score.den
                && nodes@[j].score.den > 0,
    ensures
        r@ == ranked(nodes@),
{
    let mut list: Vec<SolutionNode> = Vec::new();
    let mut k: usize = 0;
    while k < nodes.len()
        invariant
            k <= nodes@.len(),
            list@ == ranked_below(nodes@, k as int),
            list@.len() == k,
            forall|j: int|
                0 <= j < nodes@.len() ==> (#[trigger] nodes@[j]).score.den == nodes@[0].score.den
                    && nodes@[j].score.den > 0,
            forall|j: int|
                0 <= j < list@.len() ==> (#[trigger] list@[j]).score.den == nodes@[0].score.den,
        decreases nodes@.len() - k,
    {
        let node = nodes[k];
        let mut at: usize = 0;
        while at < list.len() && !(node.score.num > list[at].score.num)
            invariant
                at <= list@.len(),
                node == nodes@[k as int],
                node.score.den == nodes@[0].score.den,
                node.score.den > 0,
                forall|j: int|
                    0 <= j < list@.len() ==> (#[trigger] list@[j]).score.den
                        == nodes@[0].score.den,
                first_beaten(list@, node, 0) == first_beaten(list@, node, at as int),
            decreases list@.len() - at,
        {
            proof {
                let other = list@[at as int];
                assert(!node.score.above(other.score)) by (nonlinear_arith)
                    requires
                        node.score.num <= other.score.num,
                        node.score.den == other.score.den,
                        node.score.den > 0,
                {
                    assert(node.score.num * other.score.den <= other.score.num * node.score.den);
                }
            }
            at = at + 1;
        }
        proof {
            if at < list@.len() {
                let other = list@[at as int];
                assert(node.score.above(other.score)) by (nonlinear_arith)
                    requires
                        node.score.num > other.score.num,
                        node.score.den == other.score.den,
                        node.score.den > 0,
                {
                    assert(node.score.num * other.score.den > other.score.num * node.score.den);
                }
            }
        }
        list.insert(at, node);
        k = k + 1;
    }
    list
}

/// The jump counter after one more jump: it stays where it is once it
/// has reached the largest number it can hold.
pub open spec fn next_jumps(jumps: u32) -> u32 {
    if jumps < u32::MAX {
        (jumps + 1) as u32
    } else {
        u32::MAX
    }
}

/// The set `depleted` with the first `k` signatures of the list put in.
pub open spec fn with_signatures(depleted: Set<Seq<u8>>, list: Seq<Seq<u8>>, k: int) -> Set<
    Seq<u8>,
>
    decreases k,
{
    if k <= 0 {
        depleted
    } else {
        with_signatures(depleted, list, k - 1).insert(list[k - 1])
    }
}

/// Where a search stands: the board, the jumps counted, the signatures
/// known to lead nowhere, and whether the board is a solution.
pub struct SearchState {
    pub board: BoardView,
    pub jumps: u32,
    pub depleted: Set<Seq<u8>>,
    pub solved: bool,
}

/// The candidate on the empty square `p` of `board`, with the score that
/// the heuristics give the board once the candidate stands on it.
pub open spec fn node_of(heuristics: Seq<HeuristicView>, board: BoardView, p: int) -> SolutionNode {
    SolutionNode {
        x: (col_of(board.cols, p) + 1) as usize,
        y: (row_of(board.cols, p) + 1) as usize,
        score: Score {
            num: weighted_sum(
                heuristics,
                board.toggled(p),
                col_of(board.cols, p) + 1,
                row_of(board.cols, p) + 1,
            ) as u128,
            den: (total_weigth(heuristics) * full_score(board.cols)) as u128,
        },
    }
}

/// The candidates of a board: its empty squares in rising order, each
/// with its score.
pub open spec fn candidates(heuristics: Seq<HeuristicView>, board: BoardView) -> Seq<SolutionNode> {
    Seq::new(
        board.available().len(),
        |j: int| node_of(heuristics, board, board.available()[j]),
    )
}

/// The search needs a score that the heuristics cannot give: it is
/// within its budget on a board that is not known to lead nowhere, a
/// square is empty, more than one queen is missing, and the weights sum
/// up to zero.
pub open spec fn refused(heuristics: Seq<HeuristicView>, max_jumps: u32, state: SearchState) -> bool {
    &&& state.jumps <= max_jumps
    &&& !state.depleted.contains(state.board.signature())
    &&& state.board.available().len() > 0
    &&& !state.board.lacks_one_queen()
    &&& total_weigth(heuristics) == 0
}

/// What one level of the search makes of a state.
///
/// The state comes back as it is where the budget of jumps is spent,
/// where the board is known to lead nowhere, where no square is empty,
/// and where a score is needed but the weights sum up to zero. Where one
/// queen is missing, she is put on the first empty square. Elsewhere the
/// candidates are tried in the order of their rank.
pub open spec fn search(heuristics: Seq<HeuristicView>, max_jumps: u32, state: SearchState) -> SearchState
    decreases state.board.queens.len() - state.board.queen_count(), 1int, 0int,
{
    if state.jumps > max_jumps || state.depleted.contains(state.board.signature()) {
        state
    } else if state.board.available().len() == 0 {
        state
    } else if state.board.lacks_one_queen() {
        SearchState {
            board: state.board.toggled(state.board.available()[0]),
            jumps: next_jumps(state.jumps),
            depleted: state.depleted,
            solved: true,
        }
    } else if total_weigth(heuristics) == 0 {
        state
    } else {
        search_nodes(heuristics, max_jumps, state, ranked(candidates(heuristics, state.board)), 0)
    }
}

/// What the search makes of a state by trying the nodes from place `k`
/// on. A node whose board is known to lead nowhere is passed over. Each
/// other node costs a jump and is searched one level down; where that
/// finds no solution, the eight symmetric signatures of the board with
/// the node on it are marked as leading nowhere, and the next node is
/// tried on the board as it was.
pub open spec fn search_nodes(
    heuristics: Seq<HeuristicView>,
    max_jumps: u32,
    state: SearchState,
    nodes: Seq<SolutionNode>,
    k: int,
) -> SearchState
    decreases state.board.queens.len() - state.board.queen_count(), 0int, nodes.len() - k,
{
    if k < 0 || k >= nodes.len() {
        state
    } else {
        let p = cell_index(state.board.cols, nodes[k].x as int, nodes[k].y as int);
        let tried = state.board.toggled(p);
        if !(0 <= p < state.board.queens.len()) || state.board.queens[p] {
            state
        } else if state.depleted.contains(tried.signature()) {
            search_nodes(heuristics, max_jumps, state, nodes, k + 1)
        } else {
            proof {
                lemma_queens_toggled(state.board, p, state.board.queens.len() as int);
                lemma_queens_toggled(tried, p, state.board.queens.len() as int);
            }
            let below = search(
                heuristics,
                max_jumps,
                SearchState {
                    board: tried,
                    jumps: next_jumps(state.jumps),
                    depleted: state.depleted,
                    solved: false,
                },
            );
            if below.solved {
                below
            } else {
                search_nodes(
                    heuristics,
                    max_jumps,
                    SearchState {
                        board: state.board,
                        jumps: below.jumps,
                        depleted: with_signatures(below.depleted, tried.equivalent_signatures(), 8),
                        solved: false,
                    },
                    nodes,
                    k + 1,
                )
            }
        }
    }
}

/// The denominator of the scores of a board fits the numbers that hold it.
proof fn classifier_fits(classifier: Classifier, board: BoardView)
    requires
        classifier.wf(),
        board.wf(),
        board.cols * board.cols <= usize::MAX,
    ensures
        total_weigth(classifier@) * full_score(board.cols) <= u128::MAX,
{
    classifier.lemma_wf();
    assert(total_weigth(classifier@) * full_score(board.cols) <= 0xffff_ffff
        * 0x4_0000_0000_0000_0000) by (nonlinear_arith)
        requires
            total_weigth(classifier@) <= 0xffff_ffff,
            full_score(board.cols) == 4 * board.cols * board.cols,
            board.cols * board.cols <= 0xffff_ffff_ffff_ffff,
    ;
}

/// What a search found out.
#[derive(Debug)]
pub struct SolverResult {
    board: Vec<u8>,
    heuristics_description: String,
    jumps: u32,
    solution: Option<Vec<u8>>,
}

impl SolverResult {
    /// The signature of the board that the search started from.
    pub closed spec fn spec_board(&self) -> Seq<u8> {
        self.board@
    }

    /// The heuristics of the search, written out.
    pub closed spec fn spec_description(&self) -> Seq<char> {
        self.heuristics_description@
    }

    /// The number of jumps counted.
    pub closed spec fn spec_jumps(&self) -> u32 {
        self.jumps
    }

    /// The signature of the full board, where one was found.
    pub closed spec fn spec_solution(&self) -> Option<Seq<u8>> {
        match self.solution {
            Some(s) => Some(s@),
            None => None,
        }
    }

    /// A result without jumps and without a solution.
    pub fn new(board: Vec<u8>, heuristics_description: String) -> (r: Self)
        ensures
            r.spec_board() == board@,
            r.spec_description() == heuristics_description@,
            r.spec_jumps() == 0,
            r.spec_solution() is None,
    {
        SolverResult { board, jumps: 0, heuristics_description, solution: None }
    }

    /// Counts one jump more; the counter stays where it is once it has
    /// reached the largest number it can hold.
    pub fn inc_jumps(&mut self)
        ensures
            final(self).spec_jumps() == if old(self).spec_jumps() < u32::MAX {
                (old(self).spec_jumps() + 1) as u32
            } else {
                u32::MAX
            },
            final(self).spec_board() == old(self).spec_board(),
            final(self).spec_description() == old(self).spec_description(),
            final(self).spec_solution() == old(self).spec_solution(),
    {
        if self.jumps < u32::MAX {
            self.jumps = self.jumps + 1;
        }
    }

    pub fn get_jumps(&self) -> (r: &u32)
        ensures
            *r == self.spec_jumps(),
    {
        &self.jumps
    }

    /// Records the signature of the full board.
    pub fn set_solved(&mut self, solution: Vec<u8>)
        ensures
            final(self).spec_solution() == Some(solution@),
            final(self).spec_jumps() == old(self).spec_jumps(),
            final(self).spec_board() == old(self).spec_board(),
            final(self).spec_description() == old(self).spec_description(),
    {
        self.solution = Some(solution);
    }

    pub fn is_solved(&self) -> (r: bool)
        ensures
            r == self.spec_solution() is Some,
    {
        self.solution.is_some()
    }

    pub fn get_board(&self) -> (r: &Vec<u8>)
        ensures
            r@ == self.spec_board(),
    {
        &self.board
    }

    pub fn get_solution(&self) -> (r: &Option<Vec<u8>>)
        ensures
            match *r {
                Some(s) => self.spec_solution() == Some(s@),
                None => self.spec_solution() is None,
            },
    {
        &self.solution
    }

    pub fn get_heuristics_description(&self) -> (r: &String)
        ensures
            r@ == self.spec_description(),
    {
        &self.heuristics_description
    }
}

/// The heuristic that a search without heuristics works with.
pub open spec fn fallback_heuristic() -> HeuristicView {
    HeuristicView { label: "BruteForce"@, weigth: 1, implementation: Implementation::BruteForce }
}

/// The search, with its classifier, its budget and what it has found out.
#[derive(Debug)]
pub struct Solver<'a> {
    classifier: Classifier<'a>,
    depleted_signatures: SignatureSet,
    solver_result: SolverResult,
    max_jumps: u32,
}

impl<'a> Solver<'a> {
    /// The heuristics of the classifier.
    pub closed spec fn heuristics(&self) -> Seq<HeuristicView> {
        self.classifier@
    }

    /// The largest number of jumps after which the search still goes on.
    pub closed spec fn spec_max_jumps(&self) -> u32 {
        self.max_jumps
    }

    /// What the last search found out.
    pub closed spec fn result(&self) -> SolverResult {
        self.solver_result
    }

    /// The signatures of the boards that are known to lead nowhere.
    pub closed spec fn depleted(&self) -> Set<Seq<u8>> {
        self.depleted_signatures@
    }

    /// Where the search stands on `board`.
    pub open spec fn state(&self, board: BoardView) -> SearchState {
        SearchState {
            board,
            jumps: self.result().spec_jumps(),
            depleted: self.depleted(),
            solved: self.result().spec_solution() is Some,
        }
    }

    /// The classifier of the solver is consistent.
    pub closed spec fn wf(&self) -> bool {
        self.classifier.wf()
    }

    /// A solver without heuristics, with a budget of 100000 jumps.
    pub fn new() -> (s: Self)
        ensures
            s.wf(),
            s.heuristics() == Seq::<HeuristicView>::empty(),
            s.spec_max_jumps() == 100000,
            s.depleted() == Set::<Seq<u8>>::empty(),
            s.result().spec_jumps() == 0,
            s.result().spec_solution() is None,
            s.result().spec_board() == Seq::<u8>::empty(),
            s.result().spec_description() == description_of(Seq::<HeuristicView>::empty()),
    {
        let classifier = Classifier::new();
        let depleted_signatures = SignatureSet::new();
        let solver_result = SolverResult::new(Vec::new(), classifier.description());
        Solver { classifier, depleted_signatures, solver_result, max_jumps: 100000 }
    }

    /// Forgets what the last search found out and makes ready for a
    /// search from `board`.
    pub fn reset(&mut self, board: &Board)
        ensures
            final(self).wf() == old(self).wf(),
            final(self).heuristics() == old(self).heuristics(),
            final(self).spec_max_jumps() == old(self).spec_max_jumps(),
            final(self).depleted() == Set::<Seq<u8>>::empty(),
            final(self).result().spec_jumps() == 0,
            final(self).result().spec_solution() is None,
            final(self).result().spec_board() == board.signature_view(),
            final(self).result().spec_description() == description_of(old(self).heuristics()),
    {
        self.depleted_signatures = SignatureSet::new();
        self.solver_result = SolverResult::new(
            copy_bytes(board.get_signature()),
            self.classifier.description(),
        );
    }

    pub fn set_max_jumps(&mut self, max_jumps: u32)
        ensures
            final(self).spec_max_jumps() == max_jumps,
            final(self).wf() == old(self).wf(),
            final(self).heuristics() == old(self).heuristics(),
            final(self).depleted() == old(self).depleted(),
            final(self).result() == old(self).result(),
    {
        self.max_jumps = max_jumps;
    }

    /// Adds the heuristic of an implementation to the classifier.
    pub fn push_heuristic<H: HeuristicImplementation>(&mut self, hi: H)
        requires
            old(self).wf(),
            total_weigth(old(self).heuristics()) + hi.spec_heuristic().weigth <= u32::MAX,
        ensures
            final(self).wf(),
            final(self).heuristics() == old(self).heuristics().push(hi.spec_heuristic()),
            final(self).spec_max_jumps() == old(self).spec_max_jumps(),
            final(self).depleted() == old(self).depleted(),
            final(self).result() == old(self).result(),
    {
        self.classifier.push_heuristic(hi);
    }

    /// Searches for a full board from `board` on. A solver without
    /// heuristics takes the brute-force heuristic with weight one. What
    /// earlier searches found out is forgotten.
    ///
    /// Where the result names a solution, `board` is that solution: as
    /// many queens as columns, none attacking another, the queens that
    /// stood on it before among them. Where it names none, `board` is as
    /// it was. The search is refused where a score is needed and the
    /// weights of the heuristics sum up to zero.
    pub fn solve(&mut self, board: &mut Board) -> (r: Result<&SolverResult, BoardError>)
        requires
            old(self).wf(),
            old(board).wf(),
        ensures
            final(self).wf(),
            final(board).wf(),
            final(board)@.cols == old(board)@.cols,
            final(self).spec_max_jumps() == old(self).spec_max_jumps(),
            final(self).heuristics() == if old(self).heuristics().len() == 0 {
                seq![fallback_heuristic()]
            } else {
                old(self).heuristics()
            },
            final(self).result().spec_board() == old(board)@.signature(),
            final(self).result().spec_description() == description_of(final(self).heuristics()),
            final(self).state(final(board)@) == search(
                final(self).heuristics(),
                final(self).spec_max_jumps(),
                SearchState {
                    board: old(board)@,
                    jumps: 0,
                    depleted: Set::empty(),
                    solved: false,
                },
            ),
            match final(self).result().spec_solution() {
                Some(s) => {
                    &&& final(board)@.solved()
                    &&& final(board)@.extends(old(board)@)
                    &&& s == final(board)@.signature()
                },
                None => final(board)@ == old(board)@,
            },
            match r {
                Ok(found) => *found == final(self).result(),
                Err(e) => e == BoardError::ZeroWeightClassifier,
            },
            r is Err <==> refused(
                final(self).heuristics(),
                final(self).spec_max_jumps(),
                SearchState {
                    board: old(board)@,
                    jumps: 0,
                    depleted: Set::empty(),
                    solved: false,
                },
            ),
    {
        if self.classifier.is_empty() {
            proof {
                assert(total_weigth(self.classifier@) == 0);
            }
            self.push_heuristic(BruteForce::new(1));
            proof {
                reveal_strlit("BruteForce");
                assert(self.heuristics() =~= seq![fallback_heuristic()]);
            }
        }
        self.reset(board);
        proof {
            board.lemma_wf();
        }
        match self.exec_solve(board) {
            Ok(()) => Ok(&self.solver_result),
            Err(e) => Err(e),
        }
    }

    /// One level of the search: scores the empty squares of the board,
    /// then tries them best first, each with a search one level down.
    fn exec_solve(&mut self, board: &mut Board) -> (r: Result<(), BoardError>)
        requires
            old(self).wf(),
            old(board).wf(),
            old(self).result().spec_solution() is None,
        ensures
            final(self).wf(),
            final(board).wf(),
            final(board)@.cols == old(board)@.cols,
            final(self).heuristics() == old(self).heuristics(),
            final(self).spec_max_jumps() == old(self).spec_max_jumps(),
            final(self).result().spec_board() == old(self).result().spec_board(),
            final(self).result().spec_description() == old(self).result().spec_description(),
            final(self).state(final(board)@) == search(
                old(self).heuristics(),
                old(self).spec_max_jumps(),
                old(self).state(old(board)@),
            ),
            match final(self).result().spec_solution() {
                Some(s) => {
                    &&& final(board)@.solved()
                    &&& final(board)@.extends(old(board)@)
                    &&& s == final(board)@.signature()
                },
                None => final(board)@ == old(board)@,
            },
            match r {
                Ok(()) => true,
                Err(e) => e == BoardError::ZeroWeightClassifier,
            },
            r is Err <==> refused(
                old(self).heuristics(),
                old(self).spec_max_jumps(),
                old(self).state(old(board)@),
            ),
        decreases old(board)@.queens.len() - old(board)@.queen_count(),
    {
        let ghost hs = self.heuristics();
        let ghost max = self.spec_max_jumps();
        let ghost s0 = self.state(board@);
        if *self.solver_result.get_jumps() > self.max_jumps {
            return Ok(());
        }
        proof {
            board.lemma_wf();
        }
        if self.depleted_signatures.contains(board.get_signature()) {
            return Ok(());
        }
        let ghost v0 = board@;
        let ghost avail = v0.available();
        let ghost n = v0.queens.len() as int;
        let cells = board.get_available_cells();
        proof {
            lemma_available(v0, n);
            lemma_queens_bound(v0, n);
        }
        let mut nodes: Vec<SolutionNode> = Vec::new();
        let mut k: usize = 0;
        while k < cells.len()
            invariant
                self.wf(),
                board.wf(),
                board@ == v0,
                v0 == old(board)@,
                v0.legal(),
                n == v0.queens.len(),
                avail == v0.available(),
                k <= cells@.len(),
                cells@.len() == avail.len(),
                forall|j: int|
                    0 <= j < cells@.len() ==> 0 <= #[trigger] avail[j] < n && v0.content(avail[j])
                        == CellContent::Empty && cells@[j].xyi() == cell_xyi(v0.cols, avail[j]),
                hs == old(self).heuristics(),
                max == old(self).spec_max_jumps(),
                s0 == old(self).state(v0),
                s0.jumps <= max,
                !s0.depleted.contains(v0.signature()),
                self.heuristics() == hs,
                self.spec_max_jumps() == max,
                self.result() == old(self).result(),
                self.result().spec_solution() is None,
                self.depleted() == old(self).depleted(),
                nodes@.len() == k,
                k > 0 ==> v0.queen_count() + 1 != v0.cols && total_weigth(hs) > 0,
                forall|j: int| 0 <= j < nodes@.len() ==> #[trigger] nodes@[j] == node_of(hs, v0, avail[j]),
            decreases cells@.len() - k,
        {
            let x = *cells[k].get_xyi().0;
            let y = *cells[k].get_xyi().1;
            let ghost p = avail[k as int];
            proof {
                board.lemma_wf();
                lemma_coords(v0.cols, p);
                lemma_toggled_content(v0, p, p);
                lemma_toggled_twice(v0, p);
                lemma_queens_toggled(v0, p, n);
                assert(v0.cols <= v0.cols * v0.cols) by (nonlinear_arith)
                    requires
                        v0.cols >= 1,
                ;
            }
            board.toggle_cell(&x, &y)?;
            if board.is_solved() {
                self.solver_result.inc_jumps();
                proof {
                    board.lemma_wf();
                }
                self.solver_result.set_solved(copy_bytes(board.get_signature()));
                proof {
                    assert(self.state(board@).depleted =~= search(hs, max, s0).depleted);
                }
                return Ok(());
            }
            let score = match self.classifier.score(board, &x, &y) {
                Ok(score) => score,
                Err(e) => {
                    board.toggle_cell(&x, &y)?;
                    return Err(e);
                },
            };
            board.toggle_cell(&x, &y)?;
            nodes.push(SolutionNode::new(x, y, score));
            k = k + 1;
        }
        let ghost listed = nodes@;
        proof {
            assert(listed =~= candidates(hs, v0));
            if listed.len() > 0 {
                assert(listed[0] == node_of(hs, v0, avail[0]));
                assert(total_weigth(hs) * full_score(v0.cols) > 0) by (nonlinear_arith)
                    requires
                        total_weigth(hs) > 0,
                        full_score(v0.cols) == 4 * v0.cols * v0.cols,
                        v0.cols >= 1,
                ;
                assert forall|j: int| 0 <= j < listed.len() implies (#[trigger] listed[j]).score.den
                    == listed[0].score.den && listed[j].score.den > 0 by {
                    assert(listed[j] == node_of(hs, v0, avail[j]));
                    classifier_fits(self.classifier, v0);
                }
            }
        }
        let nodes = rank_nodes(&nodes);
        proof {
            let holds = |node: SolutionNode|
                on_board(v0.cols, node.x as int, node.y as int) && v0.content(
                    cell_index(v0.cols, node.x as int, node.y as int),
                ) == CellContent::Empty;
            assert forall|j: int| 0 <= j < listed.len() implies holds(#[trigger] listed[j]) by {
                assert(listed[j] == node_of(hs, v0, avail[j]));
                lemma_coords(v0.cols, avail[j]);
                board.lemma_wf();
                assert(v0.cols <= v0.cols * v0.cols) by (nonlinear_arith)
                    requires
                        v0.cols >= 1,
                ;
            }
            lemma_ranked_keeps(listed, listed.len() as int, holds);
            assert forall|j: int| 0 <= j < nodes@.len() implies on_board(
                v0.cols,
                (#[trigger] nodes@[j]).x as int,
                nodes@[j].y as int,
            ) && v0.content(cell_index(v0.cols, nodes@[j].x as int, nodes@[j].y as int))
                == CellContent::Empty by {
                assert(holds(nodes@[j]));
            }
        }
        let mut k: usize = 0;
        while k < nodes.len()
            invariant
                self.wf(),
                board.wf(),
                board@ == v0,
                v0 == old(board)@,
                v0.legal(),
                n == v0.queens.len(),
                k <= nodes@.len(),
                hs == old(self).heuristics(),
                max == old(self).spec_max_jumps(),
                self.heuristics() == hs,
                self.spec_max_jumps() == max,
                self.result().spec_board() == old(self).result().spec_board(),
                self.result().spec_description() == old(self).result().spec_description(),
                self.result().spec_solution() is None,
                s0 == old(self).state(v0),
                search(hs, max, s0) == search_nodes(hs, max, self.state(v0), nodes@, k as int),
                nodes@.len() > 0 ==> v0.queen_count() + 1 != v0.cols && total_weigth(hs) > 0,
                v0.queen_count() <= n,
                forall|j: int|
                    0 <= j < nodes@.len() ==> on_board(
                        v0.cols,
                        (#[trigger] nodes@[j]).x as int,
                        nodes@[j].y as int,
                    ) && v0.content(cell_index(v0.cols, nodes@[j].x as int, nodes@[j].y as int))
                        == CellContent::Empty,
            decreases nodes@.len() - k,
        {
            let node = nodes[k];
            let ghost p = cell_index(v0.cols, node.x as int, node.y as int);
            let ghost w = v0.toggled(p);
            let ghost here = self.state(v0);
            proof {
                lemma_index(v0.cols, node.x - 1, node.y - 1);
                lemma_toggled_content(v0, p, p);
                lemma_toggled_twice(v0, p);
                lemma_queens_toggled(v0, p, n);
                lemma_queens_toggled(w, p, n);
            }
            board.toggle_cell(&node.x, &node.y)?;
            proof {
                board.lemma_wf();
            }
            if !self.depleted_signatures.contains(board.get_signature()) {
                self.solver_result.inc_jumps();
                let ghost start = self.state(w);
                proof {
                    assert(start.depleted =~= here.depleted);
                    assert(start == (SearchState {
                        board: w,
                        jumps: next_jumps(here.jumps),
                        depleted: here.depleted,
                        solved: false,
                    }));
                }
                self.exec_solve(board)?;
                let ghost below = self.state(board@);
                if board.is_solved() {
                    proof {
                        board.lemma_wf();
                    }
                    self.solver_result.set_solved(copy_bytes(board.get_signature()));
                    proof {
                        assert(self.state(board@).depleted =~= below.depleted);
                    }
                    return Ok(());
                }
                let signatures = board.get_equivalent_signatures()?;
                let mut j: usize = 0;
                while j < signatures.len()
                    invariant
                        j <= signatures@.len(),
                        signatures@.len() == 8,
                        views_of(signatures@) == w.equivalent_signatures(),
                        self.wf(),
                        board.wf(),
                        board@ == w,
                        self.heuristics() == hs,
                        self.spec_max_jumps() == max,
                        self.result().spec_board() == old(self).result().spec_board(),
                        self.result().spec_description() == old(self).result().spec_description(),
                        self.result().spec_jumps() == below.jumps,
                        self.result().spec_solution() is None,
                        self.depleted() == with_signatures(
                            below.depleted,
                            w.equivalent_signatures(),
                            j as int,
                        ),
                    decreases signatures@.len() - j,
                {
                    proof {
                        assert(views_of(signatures@)[j as int] == signatures@[j as int]@);
                    }
                    self.depleted_signatures.insert(&signatures[j]);
                    j = j + 1;
                }
            }
            board.toggle_cell(&node.x, &node.y)?;
            proof {
                assert(search_nodes(hs, max, here, nodes@, k as int) == search_nodes(
                    hs,
                    max,
                    self.state(v0),
                    nodes@,
                    k + 1,
                ));
            }
            k = k + 1;
        }
        Ok(())
    }
}

} // verus!
