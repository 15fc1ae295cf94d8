//! What holds of every board, whatever was done to it.

use vstd::prelude::*;
use vstd::seq_lib::{to_multiset_build, to_multiset_insert};
use vstd::utf8::{encode_utf8, is_ascii_chars, is_ascii_chars_encode_utf8};
use crate::board::bits_spelled;
use crate::cell::CellContent;
use crate::classifier::{scores_below, weigths_below};
use crate::error::BoardError;
use crate::geometry::{attacks, cell_index, on_board};
use crate::heuristic::HeuristicView;
use crate::placement::{
    decode, lemma_queen_unattacked, lemma_toggled_content, lemma_toggled_legal,
    lemma_toggled_twice, BoardView,
};
use crate::signature::{
    bit_chars, bits_of, lemma_signature_bit, lemma_signature_empty, lemma_sqrt_floor,
    lemma_sqrt_of_signature, signature_len,
};
use crate::solver::{
    first_beaten, lemma_first_beaten, lemma_ranked_keeps, ranked_below, SolutionNode,
};

verus! {

/// Toggling a square that is not attacked twice in succession gives the
/// board back as it was, signature and attack counters included: the
/// second toggle is allowed, and it undoes the first.
pub proof fn law_toggle_twice(v: BoardView, x: int, y: int)
    requires
        v.legal(),
        on_board(v.cols, x, y),
        v.can_toggle(cell_index(v.cols, x, y)),
    ensures
        v.toggled(cell_index(v.cols, x, y)).legal(),
        v.toggled(cell_index(v.cols, x, y)).can_toggle(cell_index(v.cols, x, y)),
        v.toggled(cell_index(v.cols, x, y)).toggled(cell_index(v.cols, x, y)) == v,
        v.toggled(cell_index(v.cols, x, y)).toggled(cell_index(v.cols, x, y)).signature()
            == v.signature(),
        forall|p: int|
            v.toggled(cell_index(v.cols, x, y)).toggled(cell_index(v.cols, x, y)).content(p)
                == v.content(p),
{
    let i = cell_index(v.cols, x, y);
    lemma_toggled_legal(v, i);
    lemma_toggled_content(v, i, i);
    lemma_toggled_twice(v, i);
}

/// On a board with as many queens as columns no queen attacks another:
/// every queen stands on a square that no queen attacks, so that counting
/// the queens is enough to know the board solved.
pub proof fn law_solved_is_solution(v: BoardView)
    requires
        v.legal(),
        v.solved(),
    ensures
        v.queen_count() == v.cols,
        forall|a: int, b: int|
            #![trigger v.has_queen(a), v.has_queen(b)]
            v.has_queen(a) && v.has_queen(b) ==> !attacks(v.cols, a, b),
        forall|p: int|
            #![trigger v.has_queen(p)]
            v.has_queen(p) ==> v.attackers(p) == 0 && v.content(p) == CellContent::Queen,
{
    assert forall|p: int| #![trigger v.has_queen(p)] v.has_queen(p) implies v.attackers(p) == 0
        && v.content(p) == CellContent::Queen by {
        lemma_queen_unattacked(v, p);
    }
}

/// The signature of a board gives the board back, for every legal board
/// but those of one and of three columns: their signatures are as long as
/// those of the boards of two and of four columns, for which they are
/// taken.
pub proof fn law_signature_round_trip(v: BoardView)
    requires
        v.legal(),
        v.cols != 1,
        v.cols != 3,
    ensures
        decode(bits_of(v.signature())) == Ok::<BoardView, BoardError>(v),
{
    let sig = v.signature();
    let bits = bits_of(sig);
    let n = v.cols * v.cols;
    lemma_sqrt_of_signature(v.cols);
    lemma_sqrt_floor(v.cols, bits.len());
    assert forall|i: int| 0 <= i < bits.len() implies bits[i] == (i < n && v.queens[i]) by {
        lemma_signature_bit(v.queens, i);
    }
    assert(bits.take(n as int) =~= v.queens);
}

/// The signature written with the characters `0` and `1` gives the board
/// back, for every legal board but those of one and of three columns.
pub proof fn law_bit_string_round_trip(v: BoardView)
    requires
        v.legal(),
        v.cols != 1,
        v.cols != 3,
    ensures
        decode(bits_spelled(encode_utf8(bit_chars(v.signature())))) == Ok::<BoardView, BoardError>(
            v,
        ),
{
    let chars = bit_chars(v.signature());
    assert(is_ascii_chars(chars));
    is_ascii_chars_encode_utf8(chars);
    assert forall|i: int| 0 <= i < chars.len() implies (encode_utf8(chars)[i] == 0x31u8)
        == bits_of(v.signature())[i] by {
        assert(chars[i] as u8 == encode_utf8(chars)[i]);
    }
    assert(bits_spelled(encode_utf8(chars)) =~= bits_of(v.signature()));
    law_signature_round_trip(v);
}

/// A board has eight symmetric signatures, and its own is the first.
pub proof fn law_equivalent_signatures(v: BoardView)
    ensures
        v.equivalent_signatures().len() == 8,
        v.equivalent_signatures()[0] == v.signature(),
        v.equivalent_signatures().contains(v.signature()),
{
    assert(v.equivalent_signatures()[0] == v.signature());
}

/// The signature of a board without queens has one byte for every eight
/// squares, the last of them begun or full, and all its bytes are zero.
pub proof fn law_empty_signature(cols: nat)
    requires
        cols >= 1,
    ensures
        BoardView::empty(cols).signature() == Seq::new(
            signature_len(cols * cols),
            |k: int| 0u8,
        ),
        signature_len(cols * cols) == (cols * cols + 7) / 8,
{
    lemma_signature_empty(cols * cols);
}

/// The weighted sum of the scores of a candidate lies between the least
/// and the greatest value that a heuristic gives it, each times the sum of
/// the weights: the score of a classifier is a weighted average.
pub proof fn law_weighted_average(
    heuristics: Seq<HeuristicView>,
    board: BoardView,
    x: int,
    y: int,
    least: nat,
    greatest: nat,
    k: int,
)
    requires
        0 <= k <= heuristics.len(),
        forall|i: int|
            0 <= i < heuristics.len() ==> least <= (#[trigger] heuristics[i]).implementation.value(
                board,
                x,
                y,
            ) <= greatest,
    ensures
        least * weigths_below(heuristics, k) <= scores_below(heuristics, board, x, y, k),
        scores_below(heuristics, board, x, y, k) <= greatest * weigths_below(heuristics, k),
    decreases k,
{
    if k > 0 {
        law_weighted_average(heuristics, board, x, y, least, greatest, k - 1);
        let w = heuristics[k - 1].weigth as nat;
        let v = heuristics[k - 1].implementation.value(board, x, y);
        let below = weigths_below(heuristics, k - 1);
        assert(least * (below + w) == least * below + least * w) by (nonlinear_arith);
        assert(greatest * (below + w) == greatest * below + greatest * w) by (nonlinear_arith);
        assert(least * w <= w * v) by (nonlinear_arith)
            requires
                least <= v,
        ;
        assert(w * v <= greatest * w) by (nonlinear_arith)
            requires
                v <= greatest,
        ;
        assert(heuristics[k - 1].score(board, x, y) == w * v);
    } else {
        assert(least * 0 == 0 && greatest * 0 == 0) by (nonlinear_arith);
    }
}

/// Ranking nodes whose scores have one positive denominator keeps the
/// nodes, each as often as it was listed, and puts them in the order of
/// falling scores.
pub proof fn law_ranked_order(nodes: Seq<SolutionNode>, k: int)
    requires
        0 <= k <= nodes.len(),
        forall|j: int|
            0 <= j < nodes.len() ==> (#[trigger] nodes[j]).score.den == nodes[0].score.den
                && nodes[j].score.den > 0,
    ensures
        ranked_below(nodes, k).len() == k,
        ranked_below(nodes, k).to_multiset() == nodes.take(k).to_multiset(),
        forall|a: int, b: int|
            0 <= a < b < k ==> !(#[trigger] ranked_below(nodes, k)[b]).score.above(
                (#[trigger] ranked_below(nodes, k)[a]).score,
            ),
    decreases k,
{
    if k <= 0 {
        assert(nodes.take(0) =~= Seq::<SolutionNode>::empty());
    } else {
        law_ranked_order(nodes, k - 1);
        let before = ranked_below(nodes, k - 1);
        let node = nodes[k - 1];
        let at = first_beaten(before, node, 0);
        let after = ranked_below(nodes, k);
        let den = nodes[0].score.den;
        let same = |n: SolutionNode| n.score.den == den && den > 0;
        lemma_ranked_keeps(nodes, k - 1, same);
        lemma_first_beaten(before, node, 0);
        to_multiset_insert(before, at, node);
        to_multiset_build(nodes.take(k - 1), node);
        assert(nodes.take(k) =~= nodes.take(k - 1).push(node));
        assert forall|a: int, b: int| 0 <= a < b < k implies !(#[trigger] after[b]).score.above(
            (#[trigger] after[a]).score,
        ) by {
            let low = after[b];
            let high = after[a];
            assert(same(node));
            if a != at {
                assert(same(high));
            }
            if b != at {
                assert(same(low));
            }
            if b > at && at < before.len() {
                assert(same(before[at]));
            }
            if a < at && b > at {
                assert(!before[b - 1].score.above(before[a].score));
            } else if a < at && b < at {
                assert(!before[b].score.above(before[a].score));
            } else if a > at {
                assert(!before[b - 1].score.above(before[a - 1].score));
            } else if a == at {
                if b - 1 > at {
                    assert(!before[b - 1].score.above(before[at].score));
                }
                assert(node.score.above(before[at].score));
                assert(!low.score.above(high.score)) by (nonlinear_arith)
                    requires
                        node.score.num * before[at].score.den > before[at].score.num
                            * node.score.den,
                        !(low.score.num * before[at].score.den > before[at].score.num
                            * low.score.den),
                        high == node,
                        low.score.den == den,
                        node.score.den == den,
                        before[at].score.den == den,
                        den > 0,
                ;
            } else {
                assert(b == at);
                assert(!node.score.above(before[a].score));
            }
        }
    }
}

} // verus!
