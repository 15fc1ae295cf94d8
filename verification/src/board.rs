//! The board: a grid of cells that keeps, for every square, the number of
//! queens attacking it up to date while queens are put down and taken off.

use vstd::prelude::*;
use vstd::string::StringSliceAdditionalSpecFns;
use crate::cell::{Cell, CellContent};
use crate::error::BoardError;
use crate::geometry::{
    aligned, attacks, cell_index, col_of, index_of, lemma_coords, lemma_index,
    lemma_line_covers, lemma_line_point, lemma_lines_meet_once, lemma_mirror, lemma_rotate,
    lemma_unrotate, line_hi, line_lo, line_param, mirror_index, on_board, rotate_index, row_of,
    swept, unrotate_index,
};
use crate::placement::{
    decode, lemma_attackers_bound, lemma_attackers_none, lemma_empty, lemma_mirrored_legal,
    lemma_queen_unattacked, lemma_queens_toggled, lemma_rotated_legal, lemma_toggled_content,
    lemma_toggled_legal, BoardView,
};
use crate::signature::{
    bit_at, bit_chars, bit_lines, bit_mask, bits_of, copy_bytes, is_sqrt_floor,
    lemma_signature_empty,
    lemma_signature_toggled, lemma_sqrt_floor, mask_of, signature_len,
};

verus! {

/// The attack counter of a cell that no queen attacks.
const NO_ATTACKS: u8 = 0;

/// An N×N board of cells with its packed signature.
#[derive(Debug)]
pub struct Board {
    cols: usize,
    cells: Vec<Cell>,
    signature: Vec<u8>,
    queens: usize,
    rotated_signatures: Option<Vec<Vec<u8>>>,
}

/// Column, row (both 1-based) and index that the cell of index `p` carries.
pub open spec fn cell_xyi(cols: nat, p: int) -> (usize, usize, usize) {
    ((col_of(cols, p) + 1) as usize, (row_of(cols, p) + 1) as usize, p as usize)
}

/// The views of the byte strings of a list.
pub open spec fn views_of(list: Seq<Vec<u8>>) -> Seq<Seq<u8>> {
    Seq::new(list.len(), |k: int| list[k]@)
}

/// The coordinate `x` of a board of `cols` columns, counted from the
/// centre of the board: negative to the left of it, positive to the right
/// of it, and zero only for the middle column of an odd board.
pub open spec fn relative_coord(cols: nat, x: int) -> int {
    if cols % 2 == 0 {
        if x <= cols / 2 {
            x - cols / 2 - 1
        } else {
            x - cols / 2
        }
    } else {
        x - (cols + 1) / 2
    }
}

/// The number within the range of `i32` that is nearest to `v`.
pub open spec fn clamp_i32(v: int) -> i32 {
    if v < i32::MIN {
        i32::MIN
    } else if v > i32::MAX {
        i32::MAX
    } else {
        v as i32
    }
}

/// The coordinate that lies `r` away from the centre of a board of `cols`
/// columns.
pub open spec fn absolute_coord(cols: nat, r: int) -> int {
    if cols % 2 != 0 || r < 0 {
        r + cols / 2 + 1
    } else {
        r + cols / 2
    }
}

/// The list names the queens of `target`, each once: square `p` with a
/// queen is named at place `rank[p]`.
spec fn enumerates(list: Seq<(usize, usize)>, target: BoardView, rank: Seq<int>) -> bool {
    &&& rank.len() == target.queens.len()
    &&& forall|j: int|
        0 <= j < list.len() ==> {
            let p = cell_index(target.cols, (#[trigger] list[j]).0 as int, list[j].1 as int);
            on_board(target.cols, list[j].0 as int, list[j].1 as int) && target.queens[p]
                && rank[p] == j
        }
    &&& forall|p: int|
        0 <= p < target.queens.len() && #[trigger] target.queens[p] ==> 0 <= rank[p] < list.len()
            && cell_index(target.cols, list[rank[p]].0 as int, list[rank[p]].1 as int) == p
}

/// A copy of a list of byte strings.
fn copy_list(list: &Vec<Vec<u8>>) -> (r: Vec<Vec<u8>>)
    ensures
        views_of(r@) == views_of(list@),
{
    let mut r: Vec<Vec<u8>> = Vec::new();
    let mut k: usize = 0;
    while k < list.len()
        invariant
            k <= list@.len(),
            r@.len() == k,
            forall|j: int| 0 <= j < k ==> (#[trigger] r@[j])@ == list@[j]@,
        decreases list@.len() - k,
    {
        r.push(copy_bytes(&list[k]));
        k = k + 1;
    }
    assert(views_of(r@) =~= views_of(list@));
    r
}

/// The bits that a string spells: a set bit for every byte that is the
/// character `1`, a clear bit for every other byte.
pub open spec fn bits_spelled(bytes: Seq<u8>) -> Seq<bool> {
    Seq::new(bytes.len(), |i: int| bytes[i] == 0x31u8)
}

/// The bits of a byte string, the most significant bit of each byte first.
fn expand_bits(bytes: &Vec<u8>) -> (r: Vec<bool>)
    requires
        8 * bytes@.len() <= usize::MAX,
    ensures
        r@ == bits_of(bytes@),
{
    let mut r: Vec<bool> = Vec::new();
    let mut k: usize = 0;
    while k < bytes.len()
        invariant
            k <= bytes@.len(),
            r@ == bits_of(bytes@).take(8 * k),
        decreases bytes@.len() - k,
    {
        let byte = bytes[k];
        let mut j: usize = 0;
        while j < 8
            invariant
                k < bytes@.len(),
                j <= 8,
                byte == bytes@[k as int],
                r@ == bits_of(bytes@).take(8 * k + j),
            decreases 8 - j,
        {
            r.push(byte & mask_of(j) != 0);
            assert(bits_of(bytes@).take(8 * k + j + 1) =~= bits_of(bytes@).take(8 * k + j).push(
                bit_at(bytes@, 8 * k + j),
            ));
            j = j + 1;
        }
        k = k + 1;
    }
    assert(bits_of(bytes@).take(8 * k) =~= bits_of(bytes@));
    r
}

/// The largest number whose square is at most `n`.
fn sqrt_floor_of(n: usize) -> (c: usize)
    ensures
        is_sqrt_floor(c as nat, n as nat),
        c * c <= usize::MAX,
{
    let mut c: usize = 0;
    loop
        invariant
            c * c <= n,
            c < 0x1_0000_0000,
        ensures
            is_sqrt_floor(c as nat, n as nat),
        decreases n - c * c,
    {
        assert((c + 1) * (c + 1) <= 0x1_0000_0000_0000_0000) by (nonlinear_arith)
            requires
                0 <= c < 0x1_0000_0000,
        ;
        let next: u128 = (c as u128 + 1) * (c as u128 + 1);
        if next > n as u128 {
            break ;
        }
        assert((c + 1) * (c + 1) > c * c && (c + 1 < 0x1_0000_0000)) by (nonlinear_arith)
            requires
                (c + 1) * (c + 1) <= n,
                n < 0x1_0000_0000_0000_0000,
                c >= 0,
        ;
        c = c + 1;
    }
    c
}

impl Clone for Board {
    /// A board of its own with the same cells and the same signature.
    fn clone(&self) -> (r: Self)
        ensures
            r@ == self@,
            r.cells_view() == self.cells_view(),
            r.signature_view() == self.signature_view(),
            self.wf() ==> r.wf(),
    {
        let mut cells: Vec<Cell> = Vec::new();
        let mut k: usize = 0;
        while k < self.cells.len()
            invariant
                k <= self.cells@.len(),
                cells@ == self.cells@.take(k as int),
            decreases self.cells@.len() - k,
        {
            cells.push(self.cells[k]);
            assert(self.cells@.take(k + 1) =~= self.cells@.take(k as int).push(self.cells@[k as int]));
            k = k + 1;
        }
        assert(self.cells@.take(k as int) =~= self.cells@);
        let rotated_signatures = match &self.rotated_signatures {
            Some(list) => Some(copy_list(list)),
            None => None,
        };
        let r = Board {
            cols: self.cols,
            cells,
            signature: copy_bytes(&self.signature),
            queens: self.queens,
            rotated_signatures,
        };
        assert(r@.queens =~= self@.queens);
        r
    }
}

impl View for Board {
    type V = BoardView;

    /// The number of columns, and the squares whose cell holds a queen.
    closed spec fn view(&self) -> BoardView {
        BoardView {
            cols: self.cols as nat,
            queens: Seq::new(
                self.cells@.len(),
                |i: int| self.cells@[i].content() == CellContent::Queen,
            ),
        }
    }
}

/// Walks along the line of direction `d` through the square `(ix, iy)` and
/// records on every other square of it one attack more, or one less.
fn sweep_line(
    cells: &mut Vec<Cell>,
    cols: usize,
    d: u8,
    ix: usize,
    iy: usize,
    attack: bool,
    Ghost(v): Ghost<BoardView>,
)
    requires
        v.legal(),
        v.cols == cols,
        cols * cols <= usize::MAX,
        old(cells)@.len() == cols * cols,
        d < 4,
        ix < cols,
        iy < cols,
        v.can_toggle(index_of(v.cols, ix as int, iy as int)),
        attack == !v.queens[index_of(v.cols, ix as int, iy as int)],
        forall|p: int|
            0 <= p < old(cells)@.len() ==> (#[trigger] old(cells)@[p]).content() == (if p
                == index_of(v.cols, ix as int, iy as int) || swept(
                v.cols,
                d as int,
                index_of(v.cols, ix as int, iy as int),
                p,
            ) {
                v.toggled(index_of(v.cols, ix as int, iy as int)).content(p)
            } else {
                v.content(p)
            }),
    ensures
        final(cells)@.len() == old(cells)@.len(),
        forall|p: int|
            0 <= p < old(cells)@.len() ==> (#[trigger] final(cells)@[p]).xyi() == old(cells)@[p].xyi(),
        forall|p: int|
            0 <= p < old(cells)@.len() ==> (#[trigger] final(cells)@[p]).content() == (if p
                == index_of(v.cols, ix as int, iy as int) || swept(
                v.cols,
                d as int + 1,
                index_of(v.cols, ix as int, iy as int),
                p,
            ) {
                v.toggled(index_of(v.cols, ix as int, iy as int)).content(p)
            } else {
                v.content(p)
            }),
{
    let ghost i = index_of(v.cols, ix as int, iy as int);
    let ghost w = v.toggled(i);
    assert(2 * cols - 1 <= cols * cols) by (nonlinear_arith)
        requires
            cols >= 1,
    ;
    let lo: usize = if d == 2 && ix > iy {
        ix - iy
    } else if d == 3 && ix + iy >= cols {
        ix + iy - cols + 1
    } else {
        0
    };
    let hi: usize = if d == 2 && ix < iy {
        cols + ix - iy
    } else if d == 3 && ix + iy + 1 < cols {
        ix + iy + 1
    } else {
        cols
    };
    proof {
        lemma_index(v.cols, ix as int, iy as int);
        assert forall|p: int| 0 <= p < cells@.len() && aligned(v.cols, d as int, p, i) implies lo
            <= line_param(v.cols, d as int, p) by {
            lemma_line_covers(v.cols, d as int, ix as int, iy as int, p);
        }
    }
    let mut t: usize = lo;
    while t < hi
        invariant
            v.legal(),
            v.cols == cols,
            cols * cols <= usize::MAX,
            cells@.len() == cols * cols,
            cells@.len() == old(cells)@.len(),
            d < 4,
            ix < cols,
            iy < cols,
            i == index_of(v.cols, ix as int, iy as int),
            0 <= i < cols * cols,
            w == v.toggled(i),
            v.can_toggle(i),
            attack == !v.queens[i],
            lo == line_lo(v.cols, d as int, ix as int, iy as int),
            hi == line_hi(v.cols, d as int, ix as int, iy as int),
            lo <= t,
            hi <= cols,
            2 * cols - 1 <= usize::MAX,
            forall|p: int|
                0 <= p < cells@.len() ==> (#[trigger] cells@[p]).xyi() == old(cells)@[p].xyi(),
            forall|p: int|
                0 <= p < cells@.len() ==> (#[trigger] cells@[p]).content() == (if p == i || swept(
                    v.cols,
                    d as int,
                    i,
                    p,
                ) || (aligned(v.cols, d as int, p, i) && line_param(v.cols, d as int, p) < t) {
                    w.content(p)
                } else {
                    v.content(p)
                }),
        decreases hi - t,
    {
        let cx: usize = if d == 1 {
            ix
        } else {
            t
        };
        let cy: usize = if d == 0 {
            iy
        } else if d == 1 {
            t
        } else if d == 2 {
            iy + t - ix
        } else {
            ix + iy - t
        };
        proof {
            lemma_line_point(v.cols, d as int, ix as int, iy as int, t as int);
            lemma_index(v.cols, cx as int, cy as int);
            assert(cols * cy <= cols * (cols - 1)) by (nonlinear_arith)
                requires
                    cy <= cols - 1,
                    cols >= 1,
            ;
        }
        let p: usize = cx + cols * cy;
        let ghost before = cells@;
        if p != ix + cols * iy {
            proof {
                assert(p as int != i);
                assert(aligned(v.cols, d as int, p as int, i));
                if swept(v.cols, d as int, i, p as int) {
                    if d > 0 && aligned(v.cols, 0, p as int, i) {
                        lemma_lines_meet_once(v.cols, 0, d as int, p as int, i);
                    }
                    if d > 1 && aligned(v.cols, 1, p as int, i) {
                        lemma_lines_meet_once(v.cols, 1, d as int, p as int, i);
                    }
                    if d > 2 && aligned(v.cols, 2, p as int, i) {
                        lemma_lines_meet_once(v.cols, 2, d as int, p as int, i);
                    }
                }
                assert(before[p as int].content() == v.content(p as int));
                lemma_toggled_content(v, i, p as int);
                assert(attacks(v.cols, i, p as int));
            }
            let _ = cells[p].attack_or_relieve(&attack);
            assert(cells@[p as int].content() == w.content(p as int));
        }
        proof {
            assert forall|q: int| 0 <= q < cells@.len() implies (#[trigger] cells@[q]).content() == (
            if q == i || swept(v.cols, d as int, i, q) || (aligned(v.cols, d as int, q, i)
                && line_param(v.cols, d as int, q) < t + 1) {
                w.content(q)
            } else {
                v.content(q)
            }) by {
                if q == p as int {
                } else {
                    assert(cells@[q] == before[q]);
                    if aligned(v.cols, d as int, q, i) && line_param(v.cols, d as int, q) == t {
                        lemma_line_covers(v.cols, d as int, ix as int, iy as int, q);
                    }
                }
            }
        }
        t = t + 1;
    }
    proof {
        assert forall|q: int| 0 <= q < cells@.len() implies (#[trigger] cells@[q]).content() == (
        if q == i || swept(v.cols, d as int + 1, i, q) {
            w.content(q)
        } else {
            v.content(q)
        }) by {
            if aligned(v.cols, d as int, q, i) {
                lemma_line_covers(v.cols, d as int, ix as int, iy as int, q);
            }
        }
    }
}

impl Board {
    /// The cells of the board, in row-major order.
    pub closed spec fn cells_view(&self) -> Seq<Cell> {
        self.cells@
    }

    /// The bytes of the signature that the board carries.
    pub closed spec fn signature_view(&self) -> Seq<u8> {
        self.signature@
    }

    /// The board is consistent: its cells, its signature and its counters
    /// say what follows from the queens on it, and no queen attacks
    /// another.
    pub closed spec fn wf(&self) -> bool {
        &&& self@.legal()
        &&& self.cols * self.cols <= usize::MAX
        &&& self.cells@.len() == self.cols * self.cols
        &&& forall|p: int|
            0 <= p < self.cells@.len() ==> (#[trigger] self.cells@[p]).xyi() == cell_xyi(
                self.cols as nat,
                p,
            ) && self.cells@[p].content() == self@.content(p)
        &&& self.signature@ == self@.signature()
        &&& self.queens == self@.queen_count()
        &&& match self.rotated_signatures {
            Some(list) => views_of(list@) == self@.rotated_signatures(),
            None => true,
        }
    }

    /// What a consistent board says of its cells and its signature.
    pub proof fn lemma_wf(&self)
        requires
            self.wf(),
        ensures
            self@.legal(),
            self@.cols * self@.cols <= usize::MAX,
            self.cells_view().len() == self@.cols * self@.cols,
            forall|p: int|
                0 <= p < self.cells_view().len() ==> (#[trigger] self.cells_view()[p]).xyi()
                    == cell_xyi(self@.cols, p) && self.cells_view()[p].content() == self@.content(p),
            self.signature_view() == self@.signature(),
    {
    }

    /// An empty board of `cols` columns.
    pub fn new(cols: usize) -> (board: Board)
        requires
            cols >= 1,
            cols * cols <= usize::MAX,
        ensures
            board.wf(),
            board@ == BoardView::empty(cols as nat),
            board.signature_view() == Seq::new(
                signature_len((cols * cols) as nat),
                |k: int| 0u8,
            ),
    {
        let cells = Vec::new();
        let signature = Vec::new();
        let mut board = Board { cols, cells, signature, queens: 0, rotated_signatures: None };
        board.reset();
        board
    }

    /// The index of the cell at `(x, y)`; refused where the coordinates
    /// are off the board.
    fn get_i_from_xy(&self, x: &usize, y: &usize) -> (r: Result<usize, BoardError>)
        requires
            self.wf(),
        ensures
            match r {
                Ok(i) => on_board(self@.cols, *x as int, *y as int) && i == cell_index(
                    self@.cols,
                    *x as int,
                    *y as int,
                ) && i < self@.queens.len(),
                Err(e) => e == BoardError::OutOfBounds && !on_board(
                    self@.cols,
                    *x as int,
                    *y as int,
                ),
            },
    {
        if *x < 1 || *x > self.cols || *y < 1 || *y > self.cols {
            Err(BoardError::OutOfBounds)
        } else {
            proof {
                lemma_index(self.cols as nat, *x - 1, *y - 1);
                assert(self.cols * (*y - 1) <= self.cols * (self.cols - 1)) by (nonlinear_arith)
                    requires
                        *y - 1 <= self.cols - 1,
                        self.cols >= 1,
                ;
            }
            Ok(*x - 1 + self.cols * (*y - 1))
        }
    }

    /// The cell at `(x, y)`; refused where the coordinates are off the
    /// board.
    pub fn get_cell(&self, x: &usize, y: &usize) -> (r: Result<&Cell, BoardError>)
        requires
            self.wf(),
        ensures
            match r {
                Ok(c) => on_board(self@.cols, *x as int, *y as int) && *c == self.cells_view()[cell_index(
                    self@.cols,
                    *x as int,
                    *y as int,
                )] && c.xyi() == (*x, *y, cell_index(self@.cols, *x as int, *y as int) as usize)
                    && c.content() == self@.content(cell_index(self@.cols, *x as int, *y as int)),
                Err(e) => e == BoardError::OutOfBounds && !on_board(
                    self@.cols,
                    *x as int,
                    *y as int,
                ),
            },
    {
        match self.get_i_from_xy(x, y) {
            Ok(i) => {
                proof {
                    lemma_index(self.cols as nat, *x - 1, *y - 1);
                }
                Ok(&self.cells[i])
            },
            Err(e) => Err(e),
        }
    }

    /// The cell at `(x, y)`, to be changed in place; refused where the
    /// coordinates are off the board. The board answers for its
    /// consistency only as long as the cell is handed back as it was.
    pub fn get_mut_cell(&mut self, x: &usize, y: &usize) -> (r: Result<&mut Cell, BoardError>)
        requires
            old(self).wf(),
        ensures
            final(self)@.cols == old(self)@.cols,
            final(self).signature_view() == old(self).signature_view(),
            match r {
                Ok(c) => {
                    let i = cell_index(old(self)@.cols, *x as int, *y as int);
                    &&& on_board(old(self)@.cols, *x as int, *y as int)
                    &&& *c == old(self).cells_view()[i]
                    &&& final(self).cells_view() == old(self).cells_view().update(i, *final(c))
                    &&& *final(c) == *c ==> final(self).wf() && final(self)@ == old(self)@
                },
                Err(e) => {
                    &&& e == BoardError::OutOfBounds
                    &&& !on_board(old(self)@.cols, *x as int, *y as int)
                    &&& *final(self) == *old(self)
                },
            },
    {
        match self.get_i_from_xy(x, y) {
            Ok(i) => {
                proof {
                    assert(self.cells@.update(i as int, self.cells@[i as int]) =~= self.cells@);
                }
                Ok(&mut self.cells[i])
            },
            Err(e) => Err(e),
        }
    }

    /// The content of the cell at `(x, y)`; refused where the coordinates
    /// are off the board.
    pub fn get_cell_content(&self, x: &usize, y: &usize) -> (r: Result<&CellContent, BoardError>)
        requires
            self.wf(),
        ensures
            match r {
                Ok(c) => on_board(self@.cols, *x as int, *y as int) && *c == self@.content(
                    cell_index(self@.cols, *x as int, *y as int),
                ),
                Err(e) => e == BoardError::OutOfBounds && !on_board(
                    self@.cols,
                    *x as int,
                    *y as int,
                ),
            },
    {
        match self.get_cell(x, y) {
            Ok(c) => Ok(c.get_content()),
            Err(e) => Err(e),
        }
    }

    /// The number of queens attacking the cell at `(x, y)`, which is zero
    /// for an empty cell and for a queen; refused where the coordinates
    /// are off the board.
    pub fn get_cell_attacks(&self, x: &usize, y: &usize) -> (r: Result<&u8, BoardError>)
        requires
            self.wf(),
        ensures
            match r {
                Ok(n) => {
                    let i = cell_index(self@.cols, *x as int, *y as int);
                    &&& on_board(self@.cols, *x as int, *y as int)
                    &&& *n == self@.attackers(i)
                    &&& *n == self@.content(i).attack_count()
                },
                Err(e) => e == BoardError::OutOfBounds && !on_board(
                    self@.cols,
                    *x as int,
                    *y as int,
                ),
            },
    {
        match self.get_cell_content(x, y) {
            Ok(content) => {
                proof {
                    let i = cell_index(self@.cols, *x as int, *y as int);
                    lemma_index(self.cols as nat, *x - 1, *y - 1);
                    lemma_attackers_bound(self@, i);
                    if self@.queens[i] {
                        lemma_queen_unattacked(self@, i);
                    }
                }
                match content {
                    CellContent::Attack(n) => Ok(n),
                    _ => Ok(&NO_ATTACKS),
                }
            },
            Err(e) => Err(e),
        }
    }

    /// Puts a queen on the empty cell at `(x, y)`, or takes the queen of
    /// that cell off again, and brings the attack counters of its row, its
    /// column and its two diagonals, the signature and the number of queens
    /// up to date. Refused, with the board untouched, where the coordinates
    /// are off the board or the cell is attacked.
    pub fn toggle_cell(&mut self, x: &usize, y: &usize) -> (r: Result<(), BoardError>)
        requires
            old(self).wf(),
        ensures
            final(self).wf(),
            match r {
                Ok(()) => {
                    let i = cell_index(old(self)@.cols, *x as int, *y as int);
                    &&& on_board(old(self)@.cols, *x as int, *y as int)
                    &&& old(self)@.can_toggle(i)
                    &&& final(self)@ == old(self)@.toggled(i)
                    &&& final(self).signature_view() == old(self).signature_view().update(
                        i / 8,
                        old(self).signature_view()[i / 8] ^ bit_mask(i % 8),
                    )
                },
                Err(e) => {
                    let i = cell_index(old(self)@.cols, *x as int, *y as int);
                    &&& *final(self) == *old(self)
                    &&& if on_board(old(self)@.cols, *x as int, *y as int) {
                        e == BoardError::IllegalToggle && !old(self)@.can_toggle(i)
                    } else {
                        e == BoardError::OutOfBounds
                    }
                },
            },
    {
        let i = match self.get_i_from_xy(x, y) {
            Ok(i) => i,
            Err(e) => {
                return Err(e);
            },
        };
        let attack = match self.cells[i].get_content() {
            CellContent::Empty => true,
            CellContent::Queen => false,
            CellContent::Attack(_) => {
                return Err(BoardError::IllegalToggle);
            },
        };
        let ghost v = self@;
        let ghost w = v.toggled(i as int);
        let ix = *x - 1;
        let iy = *y - 1;
        proof {
            lemma_index(v.cols, ix as int, iy as int);
            lemma_toggled_legal(v, i as int);
            lemma_toggled_content(v, i as int, i as int);
            lemma_signature_toggled(v.queens, i as int);
            lemma_queens_toggled(v, i as int, v.queens.len() as int);
            lemma_queens_toggled(w, i as int, v.queens.len() as int);
        }
        let _ = self.cells[i].toggle();
        sweep_line(&mut self.cells, self.cols, 0, ix, iy, attack, Ghost(v));
        sweep_line(&mut self.cells, self.cols, 1, ix, iy, attack, Ghost(v));
        sweep_line(&mut self.cells, self.cols, 2, ix, iy, attack, Ghost(v));
        sweep_line(&mut self.cells, self.cols, 3, ix, iy, attack, Ghost(v));
        let k = i / 8;
        let flipped = self.signature[k] ^ mask_of(i % 8);
        self.signature.set(k, flipped);
        if attack {
            self.queens = self.queens + 1;
        } else {
            self.queens = self.queens - 1;
        }
        self.rotated_signatures = None;
        proof {
            assert forall|p: int| 0 <= p < self.cells@.len() implies (#[trigger] self.cells@[p]).content()
                == w.content(p) by {
                lemma_toggled_content(v, i as int, p);
            }
            assert(self@.queens =~= w.queens);
            assert(self@ == w);
        }
        Ok(())
    }

    /// Empties the board: every cell is made anew, the signature is zeroed
    /// and what was remembered of the symmetric signatures is forgotten.
    pub fn reset(&mut self)
        requires
            old(self)@.cols >= 1,
            old(self)@.cols * old(self)@.cols <= usize::MAX,
        ensures
            final(self).wf(),
            final(self)@ == BoardView::empty(old(self)@.cols),
            final(self).signature_view() == Seq::new(
                signature_len(old(self)@.cols * old(self)@.cols),
                |k: int| 0u8,
            ),
    {
        let cols = self.cols;
        assert(cols < usize::MAX) by (nonlinear_arith)
            requires
                cols >= 1,
                cols * cols <= usize::MAX,
                usize::MAX >= 2,
        ;
        self.cells.clear();
        let mut y: usize = 1;
        while y <= cols
            invariant
                cols == self.cols,
                cols >= 1,
                cols < usize::MAX,
                cols * cols <= usize::MAX,
                1 <= y <= cols + 1,
                self.cells@.len() == cols * (y - 1),
                forall|p: int|
                    0 <= p < self.cells@.len() ==> (#[trigger] self.cells@[p]).xyi() == cell_xyi(
                        cols as nat,
                        p,
                    ) && self.cells@[p].content() == CellContent::Empty,
            decreases cols + 1 - y,
        {
            let mut x: usize = 1;
            while x <= cols
                invariant
                    cols == self.cols,
                    cols >= 1,
                    cols < usize::MAX,
                    cols * cols <= usize::MAX,
                    1 <= y <= cols,
                    1 <= x <= cols + 1,
                    self.cells@.len() == cols * (y - 1) + (x - 1),
                    forall|p: int|
                        0 <= p < self.cells@.len() ==> (#[trigger] self.cells@[p]).xyi()
                            == cell_xyi(cols as nat, p) && self.cells@[p].content()
                            == CellContent::Empty,
                decreases cols + 1 - x,
            {
                let i = self.cells.len();
                proof {
                    lemma_index(cols as nat, x - 1, y - 1);
                }
                self.cells.push(Cell::new(x, y, i));
                x = x + 1;
            }
            proof {
                assert(cols * (y - 1) + cols == cols * ((y + 1) - 1)) by (nonlinear_arith);
            }
            y = y + 1;
        }
        assert(self.cells@.len() == cols * cols) by (nonlinear_arith)
            requires
                self.cells@.len() == cols * (y - 1),
                y == cols + 1,
        ;
        self.signature.clear();
        let n = self.cells.len();
        let size: usize = if n % 8 == 0 {
            n / 8
        } else {
            n / 8 + 1
        };
        let ghost made = self.cells@;
        let mut k: usize = 0;
        while k < size
            invariant
                k <= size,
                self.cols == cols,
                self.cells@ == made,
                self.signature@.len() == k,
                forall|j: int| 0 <= j < k ==> self.signature@[j] == 0u8,
            decreases size - k,
        {
            self.signature.push(0);
            k = k + 1;
        }
        self.queens = 0;
        self.rotated_signatures = None;
        proof {
            let e = BoardView::empty(cols as nat);
            assert(self@.queens =~= e.queens);
            lemma_signature_empty((cols * cols) as nat);
            assert(self.signature@ =~= Seq::new(
                signature_len((cols * cols) as nat),
                |k: int| 0u8,
            ));
            lemma_empty(cols as nat, 0, (cols * cols) as int);
            assert forall|p: int| 0 <= p < self.cells@.len() implies e.content(p)
                == CellContent::Empty by {
                lemma_empty(cols as nat, p, (cols * cols) as int);
            }
        }
    }

    /// The number of columns.
    pub fn get_cols(&self) -> (r: &usize)
        ensures
            *r == self@.cols,
    {
        &self.cols
    }

    /// The cells in row-major order.
    pub fn get_cells(&self) -> (r: &Vec<Cell>)
        ensures
            r@ == self.cells_view(),
    {
        &self.cells
    }

    /// The empty cells, in row-major order: the squares on which a queen
    /// can be put.
    pub fn get_available_cells(&self) -> (r: Vec<Cell>)
        requires
            self.wf(),
        ensures
            r@.len() == self@.available().len(),
            forall|j: int|
                0 <= j < r@.len() ==> #[trigger] r@[j] == self.cells_view()[self@.available()[j]],
    {
        let mut cells: Vec<Cell> = Vec::new();
        let ghost v = self@;
        let mut k: usize = 0;
        while k < self.cells.len()
            invariant
                self.wf(),
                v == self@,
                k <= self.cells@.len(),
                cells@.len() == v.available_below(k as int).len(),
                forall|j: int|
                    0 <= j < cells@.len() ==> #[trigger] cells@[j] == self.cells@[v.available_below(
                        k as int,
                    )[j]],
            decreases self.cells@.len() - k,
        {
            let c = &self.cells[k];
            if let CellContent::Empty = c.get_content() {
                cells.push(*c);
            }
            k = k + 1;
        }
        cells
    }

    /// The board reflected so that columns and rows change places: a queen
    /// of `(x, y)` stands on `(y, x)` of the new board.
    pub fn mirror(&self) -> (r: Result<Board, BoardError>)
        requires
            self.wf(),
        ensures
            r is Ok,
            r->Ok_0.wf(),
            r->Ok_0@ == self@.mirrored(),
    {
        let mut board = Board::new(self.cols);
        let ghost v = self@;
        let n = self.cells.len();
        let mut k: usize = 0;
        proof {
            lemma_mirrored_legal(v);
        }
        while k < n
            invariant
                self.wf(),
                v == self@,
                n == self.cells@.len(),
                k <= n,
                board.wf(),
                board@.cols == v.cols,
                board@.queens.len() == v.queens.len(),
                forall|m: int|
                    0 <= m < n ==> #[trigger] board@.queens[m] == (v.queens[mirror_index(v.cols, m)]
                        && mirror_index(v.cols, m) < k),
            decreases n - k,
        {
            let c = &self.cells[k];
            if c.is_queen() {
                let (x, y, _) = c.get_xyi();
                let ghost b = board@;
                let ghost t = mirror_index(v.cols, k as int);
                proof {
                    lemma_coords(v.cols, k as int);
                    lemma_mirror(v.cols, k as int, k as int);
                    assert(t == cell_index(v.cols, *y as int, *x as int));
                    assert(!b.queens[t]);
                    assert forall|q: int| 0 <= q < n implies !(#[trigger] b.queens[q] && attacks(
                        b.cols,
                        q,
                        t,
                    )) by {
                        if b.queens[q] {
                            lemma_mirror(v.cols, q, q);
                            lemma_mirror(v.cols, mirror_index(v.cols, q), k as int);
                            assert(v.has_queen(mirror_index(v.cols, q)) && v.has_queen(k as int));
                        }
                    }
                    lemma_attackers_none(b, t, n as int);
                }
                let _ = board.toggle_cell(y, x);
                proof {
                    assert forall|m: int| 0 <= m < n implies #[trigger] board@.queens[m] == (
                    v.queens[mirror_index(v.cols, m)] && mirror_index(v.cols, m) < k + 1) by {
                        lemma_mirror(v.cols, m, t);
                    }
                }
            }
            k = k + 1;
        }
        proof {
            assert forall|m: int| 0 <= m < n implies board@.queens[m] == v.mirrored().queens[m] by {
                lemma_mirror(v.cols, m, m);
            }
            assert(board@.queens =~= v.mirrored().queens);
        }
        Ok(board)
    }

    /// The coordinates `(x, y)` counted from the centre of the board, each
    /// kept within the numbers that the result can hold.
    pub fn to_relative_coord(&self, x: &usize, y: &usize) -> (r: (i32, i32))
        ensures
            r.0 == clamp_i32(relative_coord(self@.cols, *x as int)),
            r.1 == clamp_i32(relative_coord(self@.cols, *y as int)),
    {
        (self.relative(*x), self.relative(*y))
    }

    /// One coordinate counted from the centre of the board.
    fn relative(&self, x: usize) -> (r: i32)
        ensures
            r == clamp_i32(relative_coord(self@.cols, x as int)),
    {
        let half: i128 = (self.cols / 2) as i128;
        let fx: i128 = x as i128;
        let rx: i128 = if self.cols % 2 == 0 {
            if fx <= half {
                fx - half - 1
            } else {
                fx - half
            }
        } else {
            fx - half - 1
        };
        if rx < -0x8000_0000 {
            i32::MIN
        } else if rx > 0x7fff_ffff {
            i32::MAX
        } else {
            rx as i32
        }
    }

    /// The coordinates of the square that lies `(x, y)` away from the
    /// centre of the board.
    fn from_relative_coord(&self, x: &i32, y: &i32) -> (r: (usize, usize))
        requires
            self.wf(),
            1 <= absolute_coord(self@.cols, *x as int) <= self@.cols,
            1 <= absolute_coord(self@.cols, *y as int) <= self@.cols,
        ensures
            r.0 == absolute_coord(self@.cols, *x as int),
            r.1 == absolute_coord(self@.cols, *y as int),
    {
        assert(self.cols < 0x1_0000_0000) by (nonlinear_arith)
            requires
                self.cols * self.cols <= usize::MAX,
                usize::MAX <= 0xffff_ffff_ffff_ffff,
        ;
        let center: i64 = (self.cols / 2) as i64;
        let even_cols = self.cols % 2 == 0;
        let mut ax: i64 = *x as i64 + center;
        let mut ay: i64 = *y as i64 + center;
        if !even_cols || *x < 0 {
            ax = ax + 1;
        }
        if !even_cols || *y < 0 {
            ay = ay + 1;
        }
        (ax as usize, ay as usize)
    }

    /// Where a quarter turn counterclockwise about the centre of the board
    /// brings the square `(x, y)`: to `(cols + 1 - y, x)`.
    fn rotate_counterclockwise(&self, x: &usize, y: &usize) -> (r: (usize, usize))
        requires
            self.wf(),
            on_board(self@.cols, *x as int, *y as int),
        ensures
            r.0 == self@.cols + 1 - *y,
            r.1 == *x,
            on_board(self@.cols, r.0 as int, r.1 as int),
            cell_index(self@.cols, r.0 as int, r.1 as int) == rotate_index(
                self@.cols,
                cell_index(self@.cols, *x as int, *y as int),
            ),
    {
        let (rx, ry) = self.to_relative_coord(x, y);
        assert(self.cols < 0x1_0000_0000) by (nonlinear_arith)
            requires
                self.cols * self.cols <= usize::MAX,
                usize::MAX <= 0xffff_ffff_ffff_ffff,
        ;
        let fx: i32 = -ry;
        let fy: i32 = rx;
        proof {
            lemma_index(self@.cols, *x - 1, *y - 1);
        }
        self.from_relative_coord(&fx, &fy)
    }

    /// Puts a queen on each square of the list, on a board that carries
    /// none yet.
    fn place_queens(
        &mut self,
        list: &Vec<(usize, usize)>,
        Ghost(target): Ghost<BoardView>,
        Ghost(rank): Ghost<Seq<int>>,
    )
        requires
            old(self).wf(),
            old(self)@ == BoardView::empty(target.cols),
            target.legal(),
            enumerates(list@, target, rank),
        ensures
            final(self).wf(),
            final(self)@ == target,
    {
        let ghost n = target.queens.len() as int;
        let mut k: usize = 0;
        while k < list.len()
            invariant
                k <= list@.len(),
                self.wf(),
                target.legal(),
                enumerates(list@, target, rank),
                self@.cols == target.cols,
                n == target.queens.len(),
                self@.queens.len() == n,
                forall|p: int|
                    0 <= p < n ==> #[trigger] self@.queens[p] == (target.queens[p] && rank[p] < k),
            decreases list@.len() - k,
        {
            let x = list[k].0;
            let y = list[k].1;
            let ghost b = self@;
            let ghost t = cell_index(target.cols, x as int, y as int);
            proof {
                lemma_index(target.cols, x - 1, y - 1);
                assert(target.queens[t] && rank[t] == k);
                assert forall|q: int| 0 <= q < n implies !(#[trigger] b.queens[q] && attacks(
                    b.cols,
                    q,
                    t,
                )) by {
                    if b.queens[q] {
                        assert(target.has_queen(q) && target.has_queen(t));
                    }
                }
                lemma_attackers_none(b, t, n);
            }
            let _ = self.toggle_cell(&x, &y);
            k = k + 1;
        }
        proof {
            assert(self@.queens =~= target.queens);
        }
    }

    /// The signatures of the eight boards that the symmetries of the square
    /// make of this one: the board itself and its three successive quarter
    /// turns counterclockwise, then the same four of the reflected board.
    pub fn get_equivalent_signatures(&mut self) -> (r: Result<Vec<Vec<u8>>, BoardError>)
        requires
            old(self).wf(),
        ensures
            final(self).wf(),
            final(self)@ == old(self)@,
            final(self).signature_view() == old(self).signature_view(),
            r is Ok,
            views_of(r->Ok_0@) == old(self)@.equivalent_signatures(),
            r->Ok_0@.len() == 8,
            r->Ok_0@[0]@ == old(self).signature_view(),
    {
        let mut signatures = match self.get_rotated_signatures() {
            Ok(s) => s,
            Err(e) => {
                return Err(e);
            },
        };
        let mut mirror_board = match self.mirror() {
            Ok(b) => b,
            Err(e) => {
                return Err(e);
            },
        };
        let mut mirror_signatures = match mirror_board.get_rotated_signatures() {
            Ok(s) => s,
            Err(e) => {
                return Err(e);
            },
        };
        let ghost first = signatures@;
        let ghost second = mirror_signatures@;
        signatures.append(&mut mirror_signatures);
        proof {
            assert(signatures@ == first + second);
            assert(views_of(signatures@) =~= views_of(first) + views_of(second));
        }
        Ok(signatures)
    }

    /// The signatures of the board and of its three successive quarter
    /// turns counterclockwise. They are worked out once and remembered
    /// until the board changes.
    fn get_rotated_signatures(&mut self) -> (r: Result<Vec<Vec<u8>>, BoardError>)
        requires
            old(self).wf(),
        ensures
            final(self).wf(),
            final(self)@ == old(self)@,
            final(self).signature_view() == old(self).signature_view(),
            r is Ok,
            views_of(r->Ok_0@) == old(self)@.rotated_signatures(),
    {
        if let Some(list) = &self.rotated_signatures {
            return Ok(copy_list(list));
        }
        let ghost v = self@;
        let mut list: Vec<Vec<u8>> = Vec::new();
        list.push(copy_bytes(&self.signature));
        let mut fake_board = Board::new(self.cols);
        let mut fake_queens: Vec<(usize, usize)> = Vec::new();
        let n = self.cells.len();
        let mut k: usize = 0;
        while k < n
            invariant
                self.wf(),
                v == self@,
                n == self.cells@.len(),
                k <= n,
                fake_queens@.len() == v.queens_below(k as int),
                forall|j: int|
                    0 <= j < fake_queens@.len() ==> {
                        let p = cell_index(
                            v.cols,
                            (#[trigger] fake_queens@[j]).0 as int,
                            fake_queens@[j].1 as int,
                        );
                        on_board(v.cols, fake_queens@[j].0 as int, fake_queens@[j].1 as int) && 0
                            <= p < k && v.queens[p] && v.queens_below(p) == j
                    },
                forall|p: int|
                    0 <= p < k && #[trigger] v.queens[p] ==> 0 <= v.queens_below(p)
                        < fake_queens@.len() && cell_index(
                        v.cols,
                        fake_queens@[v.queens_below(p) as int].0 as int,
                        fake_queens@[v.queens_below(p) as int].1 as int,
                    ) == p,
            decreases n - k,
        {
            let c = &self.cells[k];
            if c.is_queen() {
                let (x, y, _) = c.get_xyi();
                proof {
                    lemma_coords(v.cols, k as int);
                }
                fake_queens.push((*x, *y));
            }
            k = k + 1;
        }
        let ghost mut target = v;
        let ghost mut rank = Seq::new(n as nat, |p: int| v.queens_below(p) as int);
        let mut turn: usize = 0;
        while turn < 3
            invariant
                self.wf(),
                v == self@,
                turn <= 3,
                fake_board.wf(),
                fake_board@.cols == v.cols,
                target.legal(),
                target.cols == v.cols,
                enumerates(fake_queens@, target, rank),
                list@.len() == turn + 1,
                list@[0]@ == v.signature(),
                turn >= 1 ==> list@[1]@ == v.rotated().signature() && (turn == 1 ==> target
                    == v.rotated()),
                turn >= 2 ==> list@[2]@ == v.rotated().rotated().signature() && (turn == 2
                    ==> target == v.rotated().rotated()),
                turn >= 3 ==> list@[3]@ == v.rotated().rotated().rotated().signature(),
                turn == 0 ==> target == v,
            decreases 3 - turn,
        {
            fake_board.reset();
            let ghost turned = target.rotated();
            let ghost turned_rank = Seq::new(
                rank.len(),
                |m: int| rank[unrotate_index(v.cols, m)],
            );
            let mut moved: Vec<(usize, usize)> = Vec::new();
            let mut j: usize = 0;
            while j < fake_queens.len()
                invariant
                    j <= fake_queens@.len(),
                    fake_board.wf(),
                    fake_board@ == BoardView::empty(v.cols),
                    target.legal(),
                    target.cols == v.cols,
                    enumerates(fake_queens@, target, rank),
                    moved@.len() == j,
                    forall|a: int|
                        0 <= a < j ==> on_board(
                            v.cols,
                            (#[trigger] moved@[a]).0 as int,
                            moved@[a].1 as int,
                        ) && cell_index(v.cols, moved@[a].0 as int, moved@[a].1 as int)
                            == rotate_index(
                            v.cols,
                            cell_index(v.cols, fake_queens@[a].0 as int, fake_queens@[a].1 as int),
                        ),
                decreases fake_queens@.len() - j,
            {
                let x = fake_queens[j].0;
                let y = fake_queens[j].1;
                let spot = fake_board.rotate_counterclockwise(&x, &y);
                moved.push(spot);
                j = j + 1;
            }
            proof {
                lemma_rotated_legal(target);
                assert forall|a: int| 0 <= a < moved@.len() implies {
                    let p = cell_index(turned.cols, (#[trigger] moved@[a]).0 as int, moved@[a].1 as int);
                    on_board(turned.cols, moved@[a].0 as int, moved@[a].1 as int) && turned.queens[p]
                        && turned_rank[p] == a
                } by {
                    let q = cell_index(v.cols, fake_queens@[a].0 as int, fake_queens@[a].1 as int);
                    lemma_index(v.cols, fake_queens@[a].0 - 1, fake_queens@[a].1 - 1);
                    lemma_rotate(v.cols, q, q);
                    lemma_unrotate(v.cols, q);
                }
                assert forall|p: int| 0 <= p < turned.queens.len() && #[trigger] turned.queens[p] implies 0
                    <= turned_rank[p] < moved@.len() && cell_index(
                    turned.cols,
                    moved@[turned_rank[p]].0 as int,
                    moved@[turned_rank[p]].1 as int,
                ) == p by {
                    lemma_unrotate(v.cols, p);
                    assert(target.queens[unrotate_index(v.cols, p)]);
                }
            }
            fake_queens = moved;
            proof {
                target = turned;
                rank = turned_rank;
            }
            fake_board.place_queens(&fake_queens, Ghost(target), Ghost(rank));
            list.push(copy_bytes(&fake_board.signature));
            turn = turn + 1;
        }
        proof {
            assert(views_of(list@) =~= v.rotated_signatures());
        }
        self.rotated_signatures = Some(copy_list(&list));
        Ok(list)
    }

    /// The board that a string of bits describes: see `decode`.
    fn from_bits(bits: &Vec<bool>) -> (r: Result<Board, BoardError>)
        ensures
            match r {
                Ok(b) => b.wf() && decode(bits@) == Ok::<BoardView, BoardError>(b@),
                Err(e) => decode(bits@) == Err::<BoardView, BoardError>(e),
            },
    {
        let cols = sqrt_floor_of(bits.len());
        let ghost v = BoardView {
            cols: cols as nat,
            queens: bits@.take((cols as nat * cols as nat) as int),
        };
        proof {
            lemma_sqrt_floor(cols as nat, bits@.len());
        }
        if cols == 0 {
            return Err(BoardError::OutOfBounds);
        }
        let mut board = Board::new(cols);
        let n = cols * cols;
        let mut i: usize = 0;
        while i < n
            invariant
                i <= n,
                n == cols * cols,
                n <= bits@.len(),
                cols >= 1,
                v.cols == cols,
                v.queens == bits@.take(n as int),
                board.wf(),
                board@.cols == cols,
                board@.queens.len() == n,
                decode(bits@) == (if !v.peaceful() {
                    Err::<BoardView, BoardError>(BoardError::IllegalToggle)
                } else if exists|i: int| n <= i < bits@.len() && bits@[i] {
                    Err::<BoardView, BoardError>(BoardError::OutOfBounds)
                } else {
                    Ok::<BoardView, BoardError>(v)
                }),
                forall|p: int|
                    0 <= p < n ==> #[trigger] board@.queens[p] == (v.queens[p] && p < i),
            decreases n - i,
        {
            if bits[i] {
                let ghost b = board@;
                proof {
                    board.lemma_wf();
                    lemma_coords(v.cols, i as int);
                }
                let x = *board.cells[i].get_xyi().0;
                let y = *board.cells[i].get_xyi().1;
                match board.toggle_cell(&x, &y) {
                    Ok(()) => {},
                    Err(e) => {
                        proof {
                            lemma_attackers_none(b, i as int, n as int);
                            let q = choose|q: int|
                                0 <= q < n && #[trigger] b.queens[q] && attacks(b.cols, q, i as int);
                            assert(v.has_queen(q) && v.has_queen(i as int));
                        }
                        return Err(e);
                    },
                }
            }
            i = i + 1;
        }
        proof {
            assert(board@.queens =~= v.queens);
            board.lemma_wf();
        }
        while i < bits.len()
            invariant
                n <= i <= bits@.len(),
                board.wf(),
                board@ == v,
                decode(bits@) == (if exists|i: int| n <= i < bits@.len() && bits@[i] {
                    Err::<BoardView, BoardError>(BoardError::OutOfBounds)
                } else {
                    Ok::<BoardView, BoardError>(v)
                }),
                forall|j: int| n <= j < i ==> !bits@[j],
            decreases bits@.len() - i,
        {
            if bits[i] {
                return Err(BoardError::OutOfBounds);
            }
            i = i + 1;
        }
        Ok(board)
    }

    /// The board with the given signature. The number of columns is the
    /// largest whose square is at most the number of bits; the queens are
    /// put down in row-major order. Refused where the signature is empty,
    /// where two of its queens attack each other, and where a bit beyond
    /// the last square is set.
    pub fn from_signature(signature: Vec<u8>) -> (r: Result<Board, BoardError>)
        requires
            8 * signature@.len() <= usize::MAX,
        ensures
            match r {
                Ok(b) => b.wf() && decode(bits_of(signature@)) == Ok::<BoardView, BoardError>(b@),
                Err(e) => decode(bits_of(signature@)) == Err::<BoardView, BoardError>(e),
            },
    {
        let bits = expand_bits(&signature);
        Board::from_bits(&bits)
    }

    /// The board that a string spells with one character per square: a
    /// queen for every `1`, none for any other character. Read as
    /// `from_signature` reads its bits.
    pub fn from_bit_string(string: &str) -> (r: Result<Board, BoardError>)
        ensures
            match r {
                Ok(b) => b.wf() && decode(bits_spelled(string.spec_bytes())) == Ok::<
                    BoardView,
                    BoardError,
                >(b@),
                Err(e) => decode(bits_spelled(string.spec_bytes())) == Err::<BoardView, BoardError>(
                    e,
                ),
            },
    {
        let bytes = string.as_bytes_vec();
        let mut bits: Vec<bool> = Vec::new();
        let mut k: usize = 0;
        while k < bytes.len()
            invariant
                k <= bytes@.len(),
                bits@ == bits_spelled(bytes@).take(k as int),
            decreases bytes@.len() - k,
        {
            bits.push(bytes[k] == 0x31u8);
            assert(bits_spelled(bytes@).take(k + 1) =~= bits_spelled(bytes@).take(k as int).push(
                bytes@[k as int] == 0x31u8,
            ));
            k = k + 1;
        }
        assert(bits_spelled(bytes@).take(k as int) =~= bits_spelled(bytes@));
        Board::from_bits(&bits)
    }

    /// The signature written with the characters `0` and `1`, square by
    /// square in row-major order, the unused bits of the last byte
    /// included.
    pub fn to_string(&self) -> (r: String)
        ensures
            r@ == bit_chars(self.signature_view()),
    {
        let mut text = String::new();
        let ghost all = bit_chars(self.signature@);
        let mut k: usize = 0;
        proof {
            reveal_strlit("0");
            reveal_strlit("1");
        }
        while k < self.signature.len()
            invariant
                k <= self.signature@.len(),
                all == bit_chars(self.signature@),
                "0"@ == seq!['0'],
                "1"@ == seq!['1'],
                text@ == all.take(8 * k),
            decreases self.signature@.len() - k,
        {
            let byte = self.signature[k];
            let mut j: usize = 0;
            while j < 8
                invariant
                    k < self.signature@.len(),
                    j <= 8,
                    byte == self.signature@[k as int],
                    all == bit_chars(self.signature@),
                    "0"@ == seq!['0'],
                    "1"@ == seq!['1'],
                    text@ == all.take(8 * k + j),
                decreases 8 - j,
            {
                if byte & mask_of(j) != 0 {
                    text.append("1");
                } else {
                    text.append("0");
                }
                assert(text@ =~= all.take(8 * k + j + 1));
                j = j + 1;
            }
            k = k + 1;
        }
        assert(all.take(8 * k) =~= all);
        text
    }

    /// The signature as lines of eight characters `0` and `1`, one line
    /// per byte, the last byte first. Each line carries eight squares in
    /// row-major order and ends with a line feed.
    pub fn to_multiline_string(&self) -> (r: String)
        ensures
            r@ == bit_lines(self.signature_view()),
    {
        let mut text = String::new();
        let ghost all = bit_lines(self.signature@);
        let len = self.signature.len();
        let mut k: usize = 0;
        proof {
            reveal_strlit("0");
            reveal_strlit("1");
            reveal_strlit("\n");
        }
        while k < len
            invariant
                len == self.signature@.len(),
                k <= len,
                all == bit_lines(self.signature@),
                "0"@ == seq!['0'],
                "1"@ == seq!['1'],
                "\n"@ == seq!['\n'],
                text@ == all.take(9 * k),
            decreases len - k,
        {
            let byte = self.signature[len - 1 - k];
            let mut j: usize = 0;
            while j < 8
                invariant
                    len == self.signature@.len(),
                    k < len,
                    j <= 8,
                    byte == self.signature@[len - 1 - k],
                    all == bit_lines(self.signature@),
                    "0"@ == seq!['0'],
                    "1"@ == seq!['1'],
                    text@ == all.take(9 * k + j),
                decreases 8 - j,
            {
                if byte & mask_of(j) != 0 {
                    text.append("1");
                } else {
                    text.append("0");
                }
                assert(text@ =~= all.take(9 * k + j + 1));
                j = j + 1;
            }
            text.append("\n");
            assert(text@ =~= all.take(9 * k + 9));
            k = k + 1;
        }
        assert(all.take(9 * k) =~= all);
        text
    }

    /// The packed signature: one bit per square in row-major order, the
    /// first square in the most significant bit of the first byte.
    pub fn get_signature(&self) -> (r: &Vec<u8>)
        ensures
            r@ == self.signature_view(),
    {
        &self.signature
    }

    /// Whether as many queens as columns stand on the board.
    pub fn is_solved(&self) -> (r: bool)
        requires
            self.wf(),
        ensures
            r == self@.solved(),
    {
        self.queens == self.cols
    }
}

} // verus!
