//! The mathematical model of a board: which squares carry a queen, and
//! what follows from that for every square.

use vstd::prelude::*;
use crate::cell::CellContent;
use crate::error::BoardError;
use crate::geometry::{
    aligned, attacks, lemma_aligned_transitive, lemma_lines_meet_once, lemma_mirror,
    lemma_rotate, lemma_unrotate, mirror_index, unrotate_index,
};
use crate::signature::{signature_of, sqrt_floor};

verus! {

/// A board as mathematics sees it: the number of columns, and for each
/// square in row-major order whether a queen stands on it.
pub struct BoardView {
    pub cols: nat,
    pub queens: Seq<bool>,
}

impl BoardView {
    /// The board is square, with at least one square.
    pub open spec fn wf(self) -> bool {
        self.cols >= 1 && self.queens.len() == self.cols * self.cols
    }

    /// The board of `cols` columns without any queen.
    pub open spec fn empty(cols: nat) -> BoardView {
        BoardView { cols, queens: Seq::new(cols * cols, |i: int| false) }
    }

    /// A queen stands on square `i`.
    pub open spec fn has_queen(self, i: int) -> bool {
        0 <= i < self.queens.len() && self.queens[i]
    }

    /// The number of queens on squares below `k` that attack square `p`.
    pub open spec fn attackers_below(self, p: int, k: int) -> nat
        decreases k,
    {
        if k <= 0 {
            0
        } else {
            self.attackers_below(p, k - 1) + if self.queens[k - 1] && attacks(
                self.cols,
                k - 1,
                p,
            ) {
                1nat
            } else {
                0nat
            }
        }
    }

    /// The number of queens that attack square `p`.
    pub open spec fn attackers(self, p: int) -> nat {
        self.attackers_below(p, self.queens.len() as int)
    }

    /// The sum of the attack counters of the squares below `k`.
    pub open spec fn attack_sum_below(self, k: int) -> nat
        decreases k,
    {
        if k <= 0 {
            0
        } else {
            self.attack_sum_below(k - 1) + self.content(k - 1).attack_count()
        }
    }

    /// The sum of the attack counters of all squares.
    pub open spec fn attack_sum(self) -> nat {
        self.attack_sum_below(self.queens.len() as int)
    }

    /// The number of queens on squares below `k`.
    pub open spec fn queens_below(self, k: int) -> nat
        decreases k,
    {
        if k <= 0 {
            0
        } else {
            self.queens_below(k - 1) + if self.queens[k - 1] {
                1nat
            } else {
                0nat
            }
        }
    }

    /// The number of queens on the board.
    pub open spec fn queen_count(self) -> nat {
        self.queens_below(self.queens.len() as int)
    }

    /// No queen attacks another.
    pub open spec fn peaceful(self) -> bool {
        forall|a: int, b: int|
            #![trigger self.has_queen(a), self.has_queen(b)]
            self.has_queen(a) && self.has_queen(b) ==> !attacks(self.cols, a, b)
    }

    /// What holds of every board that toggling makes of an empty one: it
    /// is square, and no queen on it attacks another.
    pub open spec fn legal(self) -> bool {
        self.wf() && self.peaceful()
    }

    /// What square `p` holds: a queen, or the number of queens attacking
    /// it, with `Empty` for none.
    pub open spec fn content(self, p: int) -> CellContent {
        if self.queens[p] {
            CellContent::Queen
        } else if self.attackers(p) == 0 {
            CellContent::Empty
        } else {
            CellContent::Attack(self.attackers(p) as u8)
        }
    }

    /// The empty squares below `k`, in rising order.
    pub open spec fn available_below(self, k: int) -> Seq<int>
        decreases k,
    {
        if k <= 0 {
            Seq::empty()
        } else if self.content(k - 1) == CellContent::Empty {
            self.available_below(k - 1).push(k - 1)
        } else {
            self.available_below(k - 1)
        }
    }

    /// The empty squares of the board, in rising order: the squares on
    /// which a queen can be put.
    pub open spec fn available(self) -> Seq<int> {
        self.available_below(self.queens.len() as int)
    }

    /// Every queen of `other` stands on this board too.
    pub open spec fn extends(self, other: BoardView) -> bool {
        &&& self.cols == other.cols
        &&& self.queens.len() == other.queens.len()
        &&& forall|p: int| 0 <= p < other.queens.len() && #[trigger] other.queens[p] ==> self.queens[p]
    }

    /// Square `i` is on the board and not attacked, so that a queen can be
    /// put on it or taken off it.
    pub open spec fn can_toggle(self, i: int) -> bool {
        0 <= i < self.queens.len() && !(self.content(i) is Attack)
    }

    /// The board with the queen on square `i` put down or taken off.
    pub open spec fn toggled(self, i: int) -> BoardView {
        BoardView { cols: self.cols, queens: self.queens.update(i, !self.queens[i]) }
    }

    /// The board after a quarter turn counterclockwise: the queen of
    /// `(x, y)` stands on `(cols + 1 - y, x)`.
    pub open spec fn rotated(self) -> BoardView {
        BoardView {
            cols: self.cols,
            queens: Seq::new(
                self.queens.len(),
                |m: int| self.queens[unrotate_index(self.cols, m)],
            ),
        }
    }

    /// The board reflected so that columns and rows change places: the
    /// queen of `(x, y)` stands on `(y, x)`.
    pub open spec fn mirrored(self) -> BoardView {
        BoardView {
            cols: self.cols,
            queens: Seq::new(self.queens.len(), |m: int| self.queens[mirror_index(self.cols, m)]),
        }
    }

    /// The signature of the board.
    pub open spec fn signature(self) -> Seq<u8> {
        signature_of(self.queens)
    }

    /// The signatures of the board and of its three successive quarter
    /// turns.
    pub open spec fn rotated_signatures(self) -> Seq<Seq<u8>> {
        seq![
            self.signature(),
            self.rotated().signature(),
            self.rotated().rotated().signature(),
            self.rotated().rotated().rotated().signature(),
        ]
    }

    /// The signatures of the eight boards that the symmetries of the square
    /// make of this one: the board and its three quarter turns, then the
    /// reflected board and its three quarter turns.
    pub open spec fn equivalent_signatures(self) -> Seq<Seq<u8>> {
        self.rotated_signatures() + self.mirrored().rotated_signatures()
    }

    /// One queen more would make as many queens as columns.
    pub open spec fn lacks_one_queen(self) -> bool {
        self.queen_count() + 1 == self.cols
    }

    /// As many queens as columns stand on the board.
    pub open spec fn solved(self) -> bool {
        self.queen_count() == self.cols
    }

    /// The number of queens on squares below `k` that attack `p` along the
    /// line of direction `d`.
    pub open spec fn aligned_below(self, d: int, p: int, k: int) -> nat
        decreases k,
    {
        if k <= 0 {
            0
        } else {
            self.aligned_below(d, p, k - 1) + if self.queens[k - 1] && k - 1 != p && aligned(
                self.cols,
                d,
                k - 1,
                p,
            ) {
                1nat
            } else {
                0nat
            }
        }
    }
}

/// The board that a string of bits describes, one bit per square in
/// row-major order: its number of columns is the largest whose square is
/// at most the number of bits, and a queen stands where the bit is set.
/// The string is refused where it is too short for a board, where two of
/// its queens attack each other, and where a bit beyond the board is set.
pub open spec fn decode(bits: Seq<bool>) -> Result<BoardView, BoardError> {
    let cols = sqrt_floor(bits.len());
    let v = BoardView { cols, queens: bits.take((cols * cols) as int) };
    if cols == 0 {
        Err(BoardError::OutOfBounds)
    } else if !v.peaceful() {
        Err(BoardError::IllegalToggle)
    } else if exists|i: int| cols * cols <= i < bits.len() && bits[i] {
        Err(BoardError::OutOfBounds)
    } else {
        Ok(v)
    }
}

/// Toggling square `i` changes the number of attackers of `p` by one where
/// `i` attacks `p`, and not at all elsewhere.
pub proof fn lemma_attackers_toggled(v: BoardView, i: int, p: int, k: int)
    requires
        0 <= i < v.queens.len(),
        0 <= k <= v.queens.len(),
    ensures
        v.toggled(i).attackers_below(p, k) == v.attackers_below(p, k) + (if i < k && attacks(
            v.cols,
            i,
            p,
        ) {
            if v.queens[i] {
                -1int
            } else {
                1int
            }
        } else {
            0int
        }),
    decreases k,
{
    if k > 0 {
        lemma_attackers_toggled(v, i, p, k - 1);
    }
}

/// No attacker is counted exactly where no queen attacks.
pub proof fn lemma_attackers_none(v: BoardView, p: int, k: int)
    requires
        0 <= k <= v.queens.len(),
    ensures
        (v.attackers_below(p, k) == 0) <==> (forall|q: int|
            0 <= q < k ==> !(#[trigger] v.queens[q] && attacks(v.cols, q, p))),
    decreases k,
{
    if k > 0 {
        lemma_attackers_none(v, p, k - 1);
        if v.attackers_below(p, k) == 0 {
            assert forall|q: int| 0 <= q < k implies !(#[trigger] v.queens[q] && attacks(
                v.cols,
                q,
                p,
            )) by {
                if q < k - 1 {
                } else {
                }
            }
        } else {
            if v.attackers_below(p, k - 1) == 0 {
                assert(v.queens[k - 1] && attacks(v.cols, k - 1, p));
            }
        }
    }
}

/// The attackers of a square are the queens on its four lines.
proof fn lemma_attackers_by_line(v: BoardView, p: int, k: int)
    requires
        v.wf(),
        0 <= p < v.queens.len(),
        0 <= k <= v.queens.len(),
    ensures
        v.attackers_below(p, k) == v.aligned_below(0, p, k) + v.aligned_below(1, p, k)
            + v.aligned_below(2, p, k) + v.aligned_below(3, p, k),
    decreases k,
{
    if k > 0 {
        lemma_attackers_by_line(v, p, k - 1);
        let q = k - 1;
        if q != p {
            if aligned(v.cols, 0, q, p) {
                if aligned(v.cols, 1, q, p) {
                    lemma_lines_meet_once(v.cols, 0, 1, q, p);
                }
                if aligned(v.cols, 2, q, p) {
                    lemma_lines_meet_once(v.cols, 0, 2, q, p);
                }
                if aligned(v.cols, 3, q, p) {
                    lemma_lines_meet_once(v.cols, 0, 3, q, p);
                }
            }
            if aligned(v.cols, 1, q, p) {
                if aligned(v.cols, 2, q, p) {
                    lemma_lines_meet_once(v.cols, 1, 2, q, p);
                }
                if aligned(v.cols, 3, q, p) {
                    lemma_lines_meet_once(v.cols, 1, 3, q, p);
                }
            }
            if aligned(v.cols, 2, q, p) && aligned(v.cols, 3, q, p) {
                lemma_lines_meet_once(v.cols, 2, 3, q, p);
            }
        }
    }
}

/// On a legal board at most one queen attacks a square along one line.
proof fn lemma_aligned_once(v: BoardView, d: int, p: int, k: int) -> (w: int)
    requires
        v.legal(),
        0 <= d < 4,
        0 <= k <= v.queens.len(),
    ensures
        v.aligned_below(d, p, k) <= 1,
        v.aligned_below(d, p, k) == 1 ==> 0 <= w < k && v.queens[w] && w != p && aligned(
            v.cols,
            d,
            w,
            p,
        ),
    decreases k,
{
    if k <= 0 {
        0
    } else {
        let w0 = lemma_aligned_once(v, d, p, k - 1);
        let q = k - 1;
        if v.queens[q] && q != p && aligned(v.cols, d, q, p) {
            if v.aligned_below(d, p, k - 1) == 1 {
                lemma_aligned_transitive(v.cols, d, w0, q, p);
                assert(v.has_queen(w0) && v.has_queen(q));
                assert(attacks(v.cols, w0, q));
                assert(false);
            }
            q
        } else {
            w0
        }
    }
}

/// On a legal board no square has more than four attackers.
pub proof fn lemma_attackers_bound(v: BoardView, p: int)
    requires
        v.legal(),
        0 <= p < v.queens.len(),
    ensures
        v.attackers(p) <= 4,
{
    let n = v.queens.len() as int;
    lemma_attackers_by_line(v, p, n);
    let w0 = lemma_aligned_once(v, 0, p, n);
    let w1 = lemma_aligned_once(v, 1, p, n);
    let w2 = lemma_aligned_once(v, 2, p, n);
    let w3 = lemma_aligned_once(v, 3, p, n);
}

/// On a legal board no queen is attacked.
pub proof fn lemma_queen_unattacked(v: BoardView, p: int)
    requires
        v.legal(),
        v.has_queen(p),
    ensures
        v.attackers(p) == 0,
        v.content(p) == CellContent::Queen,
{
    let n = v.queens.len() as int;
    lemma_attackers_none(v, p, n);
    assert forall|q: int| 0 <= q < n implies !(#[trigger] v.queens[q] && attacks(v.cols, q, p)) by {
        if v.queens[q] {
            assert(v.has_queen(q) && v.has_queen(p));
        }
    }
}

/// Toggling a square that is not attacked leads from a legal board to a
/// legal board.
pub proof fn lemma_toggled_legal(v: BoardView, i: int)
    requires
        v.legal(),
        v.can_toggle(i),
    ensures
        v.toggled(i).legal(),
{
    let w = v.toggled(i);
    let n = v.queens.len() as int;
    lemma_attackers_none(v, i, n);
    assert forall|a: int, b: int|
        #![trigger w.has_queen(a), w.has_queen(b)]
        w.has_queen(a) && w.has_queen(b) implies !attacks(w.cols, a, b) by {
        if a == i && b == i {
        } else if a == i {
            assert(v.queens[b]);
        } else if b == i {
            assert(v.queens[a]);
        } else {
            assert(v.has_queen(a) && v.has_queen(b));
        }
    }
}

/// What toggling square `i` does to the content of square `p`: `i` itself
/// changes between empty and queen, the squares that `i` attacks gain or
/// lose one attack, and all others stay.
pub proof fn lemma_toggled_content(v: BoardView, i: int, p: int)
    requires
        v.legal(),
        v.can_toggle(i),
        0 <= p < v.queens.len(),
    ensures
        p == i ==> v.content(p).toggled() == Some(v.toggled(i).content(p)),
        p != i && attacks(v.cols, i, p) && !v.queens[i] ==> v.content(p).attacked() == Some(
            v.toggled(i).content(p),
        ),
        p != i && attacks(v.cols, i, p) && v.queens[i] ==> v.content(p).relieved() == Some(
            v.toggled(i).content(p),
        ),
        p != i && !attacks(v.cols, i, p) ==> v.content(p) == v.toggled(i).content(p),
{
    let w = v.toggled(i);
    let n = v.queens.len() as int;
    lemma_toggled_legal(v, i);
    lemma_attackers_toggled(v, i, p, n);
    lemma_attackers_bound(v, p);
    lemma_attackers_bound(w, p);
    if p == i {
        if v.queens[i] {
            lemma_queen_unattacked(v, i);
        }
    } else if attacks(v.cols, i, p) {
        if v.queens[p] {
            if v.queens[i] {
                assert(v.has_queen(i) && v.has_queen(p));
            } else {
                lemma_attackers_none(v, i, n);
                assert(v.queens[p] && attacks(v.cols, p, i));
            }
        }
    }
}

/// Toggling a square twice gives the board back.
pub proof fn lemma_toggled_twice(v: BoardView, i: int)
    requires
        0 <= i < v.queens.len(),
    ensures
        v.toggled(i).toggled(i) == v,
{
    assert(v.toggled(i).toggled(i).queens =~= v.queens);
}

/// Toggling a square changes the number of queens by one.
pub proof fn lemma_queens_toggled(v: BoardView, i: int, k: int)
    requires
        0 <= i < v.queens.len(),
        0 <= k <= v.queens.len(),
    ensures
        v.toggled(i).queens_below(k) == v.queens_below(k) + (if i < k {
            if v.queens[i] {
                -1int
            } else {
                1int
            }
        } else {
            0int
        }),
        v.queens_below(k) <= k,
    decreases k,
{
    if k > 0 {
        lemma_queens_toggled(v, i, k - 1);
    }
}

/// The squares that `available_below` lists are empty squares below `k`,
/// and they rise.
pub proof fn lemma_available(v: BoardView, k: int)
    requires
        0 <= k <= v.queens.len(),
    ensures
        v.available_below(k).len() <= k,
        forall|j: int|
            0 <= j < v.available_below(k).len() ==> 0 <= #[trigger] v.available_below(k)[j] < k
                && v.content(v.available_below(k)[j]) == CellContent::Empty,
        forall|a: int, b: int|
            0 <= a < b < v.available_below(k).len() ==> v.available_below(k)[a]
                < v.available_below(k)[b],
    decreases k,
{
    if k > 0 {
        lemma_available(v, k - 1);
    }
}

/// No more queens stand below a square than there are squares below it.
pub proof fn lemma_queens_bound(v: BoardView, k: int)
    requires
        0 <= k,
    ensures
        v.queens_below(k) <= k,
    decreases k,
{
    if k > 0 {
        lemma_queens_bound(v, k - 1);
    }
}

/// A quarter turn leads from a legal board to a legal board.
pub proof fn lemma_rotated_legal(v: BoardView)
    requires
        v.legal(),
    ensures
        v.rotated().legal(),
{
    let w = v.rotated();
    assert forall|a: int, b: int|
        #![trigger w.has_queen(a), w.has_queen(b)]
        w.has_queen(a) && w.has_queen(b) implies !attacks(w.cols, a, b) by {
        let ua = unrotate_index(v.cols, a);
        let ub = unrotate_index(v.cols, b);
        lemma_unrotate(v.cols, a);
        lemma_unrotate(v.cols, b);
        lemma_rotate(v.cols, ua, ub);
        assert(v.has_queen(ua) && v.has_queen(ub));
    }
}

/// The reflection leads from a legal board to a legal board.
pub proof fn lemma_mirrored_legal(v: BoardView)
    requires
        v.legal(),
    ensures
        v.mirrored().legal(),
{
    let w = v.mirrored();
    assert forall|a: int, b: int|
        #![trigger w.has_queen(a), w.has_queen(b)]
        w.has_queen(a) && w.has_queen(b) implies !attacks(w.cols, a, b) by {
        let ua = mirror_index(v.cols, a);
        let ub = mirror_index(v.cols, b);
        lemma_mirror(v.cols, a, b);
        lemma_mirror(v.cols, b, a);
        lemma_mirror(v.cols, ua, ub);
        assert(v.has_queen(ua) && v.has_queen(ub));
    }
}

/// A board without queens has no attackers anywhere, and counts no queen.
pub proof fn lemma_empty(cols: nat, p: int, k: int)
    requires
        0 <= k <= cols * cols,
    ensures
        BoardView::empty(cols).attackers_below(p, k) == 0,
        BoardView::empty(cols).queens_below(k) == 0,
        BoardView::empty(cols).peaceful(),
    decreases k,
{
    if k > 0 {
        lemma_empty(cols, p, k - 1);
    }
}

/// On a legal board the attack counters sum up to at most four per square.
pub proof fn lemma_attack_sum_bound(v: BoardView, k: int)
    requires
        v.legal(),
        0 <= k <= v.queens.len(),
    ensures
        v.attack_sum_below(k) <= 4 * k,
    decreases k,
{
    if k > 0 {
        lemma_attack_sum_bound(v, k - 1);
        lemma_attackers_bound(v, k - 1);
    }
}

} // verus!
