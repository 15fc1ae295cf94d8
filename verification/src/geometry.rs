//! Squares as row-major indices, the lines along which queens attack, and
//! the symmetries of the square board.

use vstd::prelude::*;
use vstd::arithmetic::div_mod::{lemma_fundamental_div_mod, lemma_fundamental_div_mod_converse};

verus! {

/// The 0-based column of the square with row-major index `i`.
pub open spec fn col_of(cols: nat, i: int) -> int {
    i % (cols as int)
}

/// The 0-based row of the square with row-major index `i`.
pub open spec fn row_of(cols: nat, i: int) -> int {
    i / (cols as int)
}

/// The row-major index of the square in 0-based column `col` and row `row`.
pub open spec fn index_of(cols: nat, col: int, row: int) -> int {
    col + cols * row
}

/// Both 1-based coordinates lie on a board of `cols` columns.
pub open spec fn on_board(cols: nat, x: int, y: int) -> bool {
    1 <= x <= cols && 1 <= y <= cols
}

/// The row-major index of the square with 1-based coordinates `(x, y)`.
pub open spec fn cell_index(cols: nat, x: int, y: int) -> int {
    index_of(cols, x - 1, y - 1)
}

/// The four lines through a square: its row (0), its column (1), and its
/// two diagonals (2 and 3). Says whether the squares `(ax, ay)` and
/// `(bx, by)` lie on one line of direction `d`.
pub open spec fn on_line(d: int, ax: int, ay: int, bx: int, by: int) -> bool {
    if d == 0 {
        ay == by
    } else if d == 1 {
        ax == bx
    } else if d == 2 {
        ax - bx == ay - by
    } else {
        ax - bx == by - ay
    }
}

/// The squares with indices `a` and `b` lie on one line of direction `d`.
pub open spec fn aligned(cols: nat, d: int, a: int, b: int) -> bool {
    on_line(d, col_of(cols, a), row_of(cols, a), col_of(cols, b), row_of(cols, b))
}

/// A queen on square `a` attacks square `b`: the squares differ and share a
/// row, a column or a diagonal.
pub open spec fn attacks(cols: nat, a: int, b: int) -> bool {
    a != b && (aligned(cols, 0, a, b) || aligned(cols, 1, a, b) || aligned(cols, 2, a, b)
        || aligned(cols, 3, a, b))
}

/// Where the square with index `i` goes under a quarter turn
/// counterclockwise: `(x, y)` goes to `(cols + 1 - y, x)`.
pub open spec fn rotate_index(cols: nat, i: int) -> int {
    index_of(cols, cols - 1 - row_of(cols, i), col_of(cols, i))
}

/// Where the square with index `i` goes under the reflection that swaps
/// columns and rows: `(x, y)` goes to `(y, x)`.
pub open spec fn mirror_index(cols: nat, i: int) -> int {
    index_of(cols, row_of(cols, i), col_of(cols, i))
}

/// Where the square that a quarter turn counterclockwise brings to index
/// `i` comes from.
pub open spec fn unrotate_index(cols: nat, i: int) -> int {
    index_of(cols, row_of(cols, i), cols - 1 - col_of(cols, i))
}

/// The position of the square `i` along a line of direction `d`: its row
/// on a column, its column on the other lines.
pub open spec fn line_param(cols: nat, d: int, i: int) -> int {
    if d == 1 {
        row_of(cols, i)
    } else {
        col_of(cols, i)
    }
}

/// Column and row of the square at position `t` on the line of direction
/// `d` through the square in column `ix` and row `iy`.
pub open spec fn line_point(d: int, ix: int, iy: int, t: int) -> (int, int) {
    if d == 0 {
        (t, iy)
    } else if d == 1 {
        (ix, t)
    } else if d == 2 {
        (t, iy + t - ix)
    } else {
        (t, ix + iy - t)
    }
}

/// The first position on the board along the line of direction `d`
/// through `(ix, iy)`.
pub open spec fn line_lo(cols: nat, d: int, ix: int, iy: int) -> int {
    if d == 2 && ix > iy {
        ix - iy
    } else if d == 3 && ix + iy >= cols {
        ix + iy - cols + 1
    } else {
        0
    }
}

/// The end of the positions on the board along the line of direction `d`
/// through `(ix, iy)`.
pub open spec fn line_hi(cols: nat, d: int, ix: int, iy: int) -> int {
    if d == 2 && ix < iy {
        cols + ix - iy
    } else if d == 3 && ix + iy + 1 < cols {
        ix + iy + 1
    } else {
        cols as int
    }
}

/// Square `p` is not `i` and lies on one of the lines through `i` with a
/// direction below `d`.
pub open spec fn swept(cols: nat, d: int, i: int, p: int) -> bool {
    p != i && ((d > 0 && aligned(cols, 0, p, i)) || (d > 1 && aligned(cols, 1, p, i)) || (d > 2
        && aligned(cols, 2, p, i)) || (d > 3 && aligned(cols, 3, p, i)))
}

/// The positions from `line_lo` to `line_hi` along a line through a square
/// are squares of the board on that line.
pub proof fn lemma_line_point(cols: nat, d: int, ix: int, iy: int, t: int)
    requires
        0 <= d < 4,
        0 <= ix < cols,
        0 <= iy < cols,
        line_lo(cols, d, ix, iy) <= t < line_hi(cols, d, ix, iy),
    ensures
        0 <= line_point(d, ix, iy, t).0 < cols,
        0 <= line_point(d, ix, iy, t).1 < cols,
        ({
            let p = index_of(cols, line_point(d, ix, iy, t).0, line_point(d, ix, iy, t).1);
            0 <= p < cols * cols && aligned(cols, d, p, index_of(cols, ix, iy)) && line_param(
                cols,
                d,
                p,
            ) == t
        }),
{
    lemma_index(cols, ix, iy);
    lemma_index(cols, line_point(d, ix, iy, t).0, line_point(d, ix, iy, t).1);
}

/// Every square of the board on a line through a square is met at its
/// position between `line_lo` and `line_hi`.
pub proof fn lemma_line_covers(cols: nat, d: int, ix: int, iy: int, p: int)
    requires
        0 <= d < 4,
        0 <= ix < cols,
        0 <= iy < cols,
        0 <= p < cols * cols,
        aligned(cols, d, p, index_of(cols, ix, iy)),
    ensures
        line_lo(cols, d, ix, iy) <= line_param(cols, d, p) < line_hi(cols, d, ix, iy),
        p == index_of(
            cols,
            line_point(d, ix, iy, line_param(cols, d, p)).0,
            line_point(d, ix, iy, line_param(cols, d, p)).1,
        ),
{
    lemma_index(cols, ix, iy);
    lemma_coords(cols, p);
}

/// Turning back undoes the quarter turn, and the other way round.
pub proof fn lemma_unrotate(cols: nat, a: int)
    requires
        0 <= a < cols * cols,
    ensures
        0 <= unrotate_index(cols, a) < cols * cols,
        rotate_index(cols, unrotate_index(cols, a)) == a,
        unrotate_index(cols, rotate_index(cols, a)) == a,
{
    lemma_coords(cols, a);
    lemma_index(cols, row_of(cols, a), cols - 1 - col_of(cols, a));
    lemma_index(cols, cols - 1 - row_of(cols, a), col_of(cols, a));
}

/// Column and row of a square determine its index and are recovered from it.
pub proof fn lemma_index(cols: nat, col: int, row: int)
    requires
        0 <= col < cols,
        0 <= row < cols,
    ensures
        0 <= index_of(cols, col, row) < cols * cols,
        col_of(cols, index_of(cols, col, row)) == col,
        row_of(cols, index_of(cols, col, row)) == row,
{
    let c = cols as int;
    assert(c * row == row * c) by (nonlinear_arith);
    lemma_fundamental_div_mod_converse(col + c * row, c, row, col);
    assert(c * row <= c * (c - 1)) by (nonlinear_arith)
        requires
            0 <= row <= c - 1,
            c >= 1,
    ;
    assert(c * (c - 1) == c * c - c) by (nonlinear_arith);
    assert(0 <= c * row) by (nonlinear_arith)
        requires
            0 <= row,
            c >= 1,
    ;
}

/// Every index on the board has a column and a row on the board, and is
/// the index of that column and row.
pub proof fn lemma_coords(cols: nat, i: int)
    requires
        0 <= i < cols * cols,
    ensures
        0 <= col_of(cols, i) < cols,
        0 <= row_of(cols, i) < cols,
        index_of(cols, col_of(cols, i), row_of(cols, i)) == i,
{
    let c = cols as int;
    assert(c >= 1) by (nonlinear_arith)
        requires
            0 <= i < c * c,
            c >= 0,
    ;
    lemma_fundamental_div_mod(i, c);
    assert(0 <= i % c < c);
    let r = i / c;
    assert(0 <= r < c) by (nonlinear_arith)
        requires
            i == c * r + i % c,
            0 <= i % c < c,
            0 <= i < c * c,
            c >= 1,
    ;
}

/// Two squares that share their column and their row are one square.
pub proof fn lemma_same_coords(cols: nat, a: int, b: int)
    requires
        0 <= a < cols * cols,
        0 <= b < cols * cols,
        col_of(cols, a) == col_of(cols, b),
        row_of(cols, a) == row_of(cols, b),
    ensures
        a == b,
{
    lemma_coords(cols, a);
    lemma_coords(cols, b);
}

/// Two different lines through a square meet in that square only.
pub proof fn lemma_lines_meet_once(cols: nat, d: int, e: int, a: int, b: int)
    requires
        0 <= a < cols * cols,
        0 <= b < cols * cols,
        0 <= d < 4,
        0 <= e < 4,
        d != e,
        aligned(cols, d, a, b),
        aligned(cols, e, a, b),
    ensures
        a == b,
{
    lemma_same_coords(cols, a, b);
}

/// Two squares on one line through a third lie on one line themselves.
pub proof fn lemma_aligned_transitive(cols: nat, d: int, a: int, b: int, p: int)
    requires
        aligned(cols, d, a, p),
        aligned(cols, d, b, p),
    ensures
        aligned(cols, d, a, b),
{
}

/// The quarter turn maps the board onto itself, and keeps the attacks.
pub proof fn lemma_rotate(cols: nat, a: int, b: int)
    requires
        0 <= a < cols * cols,
        0 <= b < cols * cols,
    ensures
        0 <= rotate_index(cols, a) < cols * cols,
        col_of(cols, rotate_index(cols, a)) == cols - 1 - row_of(cols, a),
        row_of(cols, rotate_index(cols, a)) == col_of(cols, a),
        attacks(cols, rotate_index(cols, a), rotate_index(cols, b)) == attacks(cols, a, b),
        (rotate_index(cols, a) == rotate_index(cols, b)) == (a == b),
{
    lemma_coords(cols, a);
    lemma_coords(cols, b);
    lemma_index(cols, cols - 1 - row_of(cols, a), col_of(cols, a));
    lemma_index(cols, cols - 1 - row_of(cols, b), col_of(cols, b));
    if rotate_index(cols, a) == rotate_index(cols, b) {
        lemma_same_coords(cols, a, b);
    }
}

/// The reflection maps the board onto itself, and keeps the attacks.
pub proof fn lemma_mirror(cols: nat, a: int, b: int)
    requires
        0 <= a < cols * cols,
        0 <= b < cols * cols,
    ensures
        0 <= mirror_index(cols, a) < cols * cols,
        col_of(cols, mirror_index(cols, a)) == row_of(cols, a),
        row_of(cols, mirror_index(cols, a)) == col_of(cols, a),
        attacks(cols, mirror_index(cols, a), mirror_index(cols, b)) == attacks(cols, a, b),
        (mirror_index(cols, a) == mirror_index(cols, b)) == (a == b),
        mirror_index(cols, mirror_index(cols, a)) == a,
{
    lemma_coords(cols, a);
    lemma_coords(cols, b);
    lemma_index(cols, row_of(cols, a), col_of(cols, a));
    lemma_index(cols, row_of(cols, b), col_of(cols, b));
    if mirror_index(cols, a) == mirror_index(cols, b) {
        lemma_same_coords(cols, a, b);
    }
}

} // verus!
