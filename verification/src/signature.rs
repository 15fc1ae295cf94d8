//! The packed signature of a board: one bit per square in row-major
//! order, the first square in the most significant bit of the first byte.

use vstd::prelude::*;

verus! {

/// Whether a queen stands on square `i`; no queen stands beyond the board.
pub open spec fn queen_bit(queens: Seq<bool>, i: int) -> bool {
    0 <= i < queens.len() && queens[i]
}

/// The byte whose bits, from the most significant down, are `b0` to `b7`.
pub open spec fn pack(
    b0: bool,
    b1: bool,
    b2: bool,
    b3: bool,
    b4: bool,
    b5: bool,
    b6: bool,
    b7: bool,
) -> u8 {
    (if b0 { 0x80u8 } else { 0u8 }) | (if b1 { 0x40u8 } else { 0u8 }) | (if b2 { 0x20u8 } else { 0u8 })
        | (if b3 { 0x10u8 } else { 0u8 }) | (if b4 { 0x08u8 } else { 0u8 }) | (if b5 { 0x04u8 } else { 0u8 })
        | (if b6 { 0x02u8 } else { 0u8 }) | (if b7 { 0x01u8 } else { 0u8 })
}

/// The byte with only bit `j` set, counted from the most significant bit.
pub open spec fn bit_mask(j: int) -> u8 {
    if j == 0 {
        0x80u8
    } else if j == 1 {
        0x40u8
    } else if j == 2 {
        0x20u8
    } else if j == 3 {
        0x10u8
    } else if j == 4 {
        0x08u8
    } else if j == 5 {
        0x04u8
    } else if j == 6 {
        0x02u8
    } else {
        0x01u8
    }
}

/// Byte `k` of the signature: the squares `8k` to `8k + 7`.
pub open spec fn byte_of(queens: Seq<bool>, k: int) -> u8 {
    pack(
        queen_bit(queens, 8 * k),
        queen_bit(queens, 8 * k + 1),
        queen_bit(queens, 8 * k + 2),
        queen_bit(queens, 8 * k + 3),
        queen_bit(queens, 8 * k + 4),
        queen_bit(queens, 8 * k + 5),
        queen_bit(queens, 8 * k + 6),
        queen_bit(queens, 8 * k + 7),
    )
}

/// The number of bytes that hold `n` bits.
pub open spec fn signature_len(n: nat) -> nat {
    (n + 7) / 8
}

/// The signature of a board with the given queens.
pub open spec fn signature_of(queens: Seq<bool>) -> Seq<u8> {
    Seq::new(signature_len(queens.len()), |k: int| byte_of(queens, k))
}

/// Bit `i` of a byte string, counted from the most significant bit of the
/// first byte.
pub open spec fn bit_at(bytes: Seq<u8>, i: int) -> bool {
    bytes[i / 8] & bit_mask(i % 8) != 0
}

/// The bits of a byte string, the most significant bit of each byte first.
pub open spec fn bits_of(bytes: Seq<u8>) -> Seq<bool> {
    Seq::new(8 * bytes.len(), |i: int| bit_at(bytes, i))
}

/// The bits of a byte string written with the characters `0` and `1`.
pub open spec fn bit_chars(bytes: Seq<u8>) -> Seq<char> {
    Seq::new(
        8 * bytes.len(),
        |i: int|
            if bit_at(bytes, i) {
                '1'
            } else {
                '0'
            },
    )
}

/// The bytes of a string from the last to the first, each written with
/// the characters `0` and `1` and closed by a line feed.
pub open spec fn bit_lines(bytes: Seq<u8>) -> Seq<char> {
    Seq::new(
        9 * bytes.len(),
        |i: int|
            if i % 9 == 8 {
                '\n'
            } else if bit_at(bytes, 8 * (bytes.len() - 1 - i / 9) + i % 9) {
                '1'
            } else {
                '0'
            },
    )
}

/// `c` is the largest number whose square is at most `n`.
pub open spec fn is_sqrt_floor(c: nat, n: nat) -> bool {
    c * c <= n < (c + 1) * (c + 1)
}

/// The largest number whose square is at most `n`.
pub open spec fn sqrt_floor(n: nat) -> nat {
    choose|c: nat| is_sqrt_floor(c, n)
}

/// There is one largest number whose square is at most `n`.
pub proof fn lemma_sqrt_floor(c: nat, n: nat)
    requires
        is_sqrt_floor(c, n),
    ensures
        sqrt_floor(n) == c,
{
    let d = sqrt_floor(n);
    assert(is_sqrt_floor(d, n));
    assert(d == c) by (nonlinear_arith)
        requires
            c * c <= n < (c + 1) * (c + 1),
            d * d <= n < (d + 1) * (d + 1),
    ;
}

/// The signature of a board has as many bits as the board has squares,
/// rounded up to whole bytes; but for boards of one and of three columns
/// the number of columns is the largest whose square is at most that.
pub proof fn lemma_sqrt_of_signature(cols: nat)
    requires
        cols >= 1,
        cols != 1,
        cols != 3,
    ensures
        is_sqrt_floor(cols, 8 * signature_len(cols * cols)),
{
    let n = cols * cols;
    assert(n <= 8 * signature_len(n) <= n + 7);
    assert((cols + 1) * (cols + 1) == cols * cols + 2 * cols + 1) by (nonlinear_arith);
    if cols == 2 {
        assert(n == 4) by (nonlinear_arith)
            requires
                n == cols * cols,
                cols == 2,
        ;
    }
}

/// Flipping one bit of a packed byte is an exclusive or with its mask.
pub proof fn lemma_pack_flip(
    b0: bool,
    b1: bool,
    b2: bool,
    b3: bool,
    b4: bool,
    b5: bool,
    b6: bool,
    b7: bool,
)
    ensures
        pack(!b0, b1, b2, b3, b4, b5, b6, b7) == pack(b0, b1, b2, b3, b4, b5, b6, b7) ^ 0x80u8,
        pack(b0, !b1, b2, b3, b4, b5, b6, b7) == pack(b0, b1, b2, b3, b4, b5, b6, b7) ^ 0x40u8,
        pack(b0, b1, !b2, b3, b4, b5, b6, b7) == pack(b0, b1, b2, b3, b4, b5, b6, b7) ^ 0x20u8,
        pack(b0, b1, b2, !b3, b4, b5, b6, b7) == pack(b0, b1, b2, b3, b4, b5, b6, b7) ^ 0x10u8,
        pack(b0, b1, b2, b3, !b4, b5, b6, b7) == pack(b0, b1, b2, b3, b4, b5, b6, b7) ^ 0x08u8,
        pack(b0, b1, b2, b3, b4, !b5, b6, b7) == pack(b0, b1, b2, b3, b4, b5, b6, b7) ^ 0x04u8,
        pack(b0, b1, b2, b3, b4, b5, !b6, b7) == pack(b0, b1, b2, b3, b4, b5, b6, b7) ^ 0x02u8,
        pack(b0, b1, b2, b3, b4, b5, b6, !b7) == pack(b0, b1, b2, b3, b4, b5, b6, b7) ^ 0x01u8,
{
    assert(pack(!b0, b1, b2, b3, b4, b5, b6, b7) == pack(b0, b1, b2, b3, b4, b5, b6, b7) ^ 0x80u8
        && pack(b0, !b1, b2, b3, b4, b5, b6, b7) == pack(b0, b1, b2, b3, b4, b5, b6, b7) ^ 0x40u8
        && pack(b0, b1, !b2, b3, b4, b5, b6, b7) == pack(b0, b1, b2, b3, b4, b5, b6, b7) ^ 0x20u8
        && pack(b0, b1, b2, !b3, b4, b5, b6, b7) == pack(b0, b1, b2, b3, b4, b5, b6, b7) ^ 0x10u8
        && pack(b0, b1, b2, b3, !b4, b5, b6, b7) == pack(b0, b1, b2, b3, b4, b5, b6, b7) ^ 0x08u8
        && pack(b0, b1, b2, b3, b4, !b5, b6, b7) == pack(b0, b1, b2, b3, b4, b5, b6, b7) ^ 0x04u8
        && pack(b0, b1, b2, b3, b4, b5, !b6, b7) == pack(b0, b1, b2, b3, b4, b5, b6, b7) ^ 0x02u8
        && pack(b0, b1, b2, b3, b4, b5, b6, !b7) == pack(b0, b1, b2, b3, b4, b5, b6, b7) ^ 0x01u8)
        by (bit_vector);
}

/// The bits of a packed byte are the bits it was packed from.
pub proof fn lemma_pack_bits(
    b0: bool,
    b1: bool,
    b2: bool,
    b3: bool,
    b4: bool,
    b5: bool,
    b6: bool,
    b7: bool,
)
    ensures
        (pack(b0, b1, b2, b3, b4, b5, b6, b7) & 0x80u8 != 0) == b0,
        (pack(b0, b1, b2, b3, b4, b5, b6, b7) & 0x40u8 != 0) == b1,
        (pack(b0, b1, b2, b3, b4, b5, b6, b7) & 0x20u8 != 0) == b2,
        (pack(b0, b1, b2, b3, b4, b5, b6, b7) & 0x10u8 != 0) == b3,
        (pack(b0, b1, b2, b3, b4, b5, b6, b7) & 0x08u8 != 0) == b4,
        (pack(b0, b1, b2, b3, b4, b5, b6, b7) & 0x04u8 != 0) == b5,
        (pack(b0, b1, b2, b3, b4, b5, b6, b7) & 0x02u8 != 0) == b6,
        (pack(b0, b1, b2, b3, b4, b5, b6, b7) & 0x01u8 != 0) == b7,
        (pack(b0, b1, b2, b3, b4, b5, b6, b7) == 0) == (!b0 && !b1 && !b2 && !b3 && !b4 && !b5
            && !b6 && !b7),
{
    assert(((pack(b0, b1, b2, b3, b4, b5, b6, b7) & 0x80u8 != 0) == b0) && ((pack(
        b0,
        b1,
        b2,
        b3,
        b4,
        b5,
        b6,
        b7,
    ) & 0x40u8 != 0) == b1) && ((pack(b0, b1, b2, b3, b4, b5, b6, b7) & 0x20u8 != 0) == b2) && ((
    pack(b0, b1, b2, b3, b4, b5, b6, b7) & 0x10u8 != 0) == b3) && ((pack(
        b0,
        b1,
        b2,
        b3,
        b4,
        b5,
        b6,
        b7,
    ) & 0x08u8 != 0) == b4) && ((pack(b0, b1, b2, b3, b4, b5, b6, b7) & 0x04u8 != 0) == b5) && ((
    pack(b0, b1, b2, b3, b4, b5, b6, b7) & 0x02u8 != 0) == b6) && ((pack(
        b0,
        b1,
        b2,
        b3,
        b4,
        b5,
        b6,
        b7,
    ) & 0x01u8 != 0) == b7) && ((pack(b0, b1, b2, b3, b4, b5, b6, b7) == 0) == (!b0 && !b1 && !b2
        && !b3 && !b4 && !b5 && !b6 && !b7))) by (bit_vector);
}

/// Bit `i` of a signature says whether a queen stands on square `i`.
pub proof fn lemma_signature_bit(queens: Seq<bool>, i: int)
    requires
        0 <= i < 8 * signature_len(queens.len()),
    ensures
        bit_at(signature_of(queens), i) == queen_bit(queens, i),
{
    let k = i / 8;
    lemma_pack_bits(
        queen_bit(queens, 8 * k),
        queen_bit(queens, 8 * k + 1),
        queen_bit(queens, 8 * k + 2),
        queen_bit(queens, 8 * k + 3),
        queen_bit(queens, 8 * k + 4),
        queen_bit(queens, 8 * k + 5),
        queen_bit(queens, 8 * k + 6),
        queen_bit(queens, 8 * k + 7),
    );
}

/// Toggling square `i` flips bit `i` of the signature and no other.
pub proof fn lemma_signature_toggled(queens: Seq<bool>, i: int)
    requires
        0 <= i < queens.len(),
    ensures
        signature_of(queens.update(i, !queens[i])) == signature_of(queens).update(
            i / 8,
            signature_of(queens)[i / 8] ^ bit_mask(i % 8),
        ),
{
    let after = queens.update(i, !queens[i]);
    let flipped = signature_of(queens).update(i / 8, signature_of(queens)[i / 8] ^ bit_mask(i % 8));
    assert forall|k: int| 0 <= k < signature_len(queens.len()) implies signature_of(after)[k]
        == flipped[k] by {
        if k == i / 8 {
            lemma_pack_flip(
                queen_bit(queens, 8 * k),
                queen_bit(queens, 8 * k + 1),
                queen_bit(queens, 8 * k + 2),
                queen_bit(queens, 8 * k + 3),
                queen_bit(queens, 8 * k + 4),
                queen_bit(queens, 8 * k + 5),
                queen_bit(queens, 8 * k + 6),
                queen_bit(queens, 8 * k + 7),
            );
        }
    }
    assert(signature_of(after) =~= flipped);
}

/// The signature of a board without queens is all zero.
pub proof fn lemma_signature_empty(n: nat)
    ensures
        signature_of(Seq::new(n, |i: int| false)) == Seq::new(signature_len(n), |k: int| 0u8),
{
    let queens = Seq::new(n, |i: int| false);
    assert forall|k: int| 0 <= k < signature_len(n) implies byte_of(queens, k) == 0u8 by {
        lemma_pack_bits(false, false, false, false, false, false, false, false);
    }
    assert(signature_of(queens) =~= Seq::new(signature_len(n), |k: int| 0u8));
}

/// Whether two byte strings hold the same bytes.
pub fn same_bytes(a: &Vec<u8>, b: &Vec<u8>) -> (r: bool)
    ensures
        r == (a@ == b@),
{
    if a.len() != b.len() {
        return false;
    }
    let mut k: usize = 0;
    while k < a.len()
        invariant
            a@.len() == b@.len(),
            k <= a@.len(),
            forall|j: int| 0 <= j < k ==> a@[j] == b@[j],
        decreases a@.len() - k,
    {
        if a[k] != b[k] {
            return false;
        }
        k = k + 1;
    }
    assert(a@ =~= b@);
    true
}

/// A copy of a byte string.
pub fn copy_bytes(bytes: &Vec<u8>) -> (r: Vec<u8>)
    ensures
        r@ == bytes@,
{
    let mut r: Vec<u8> = Vec::new();
    let mut k: usize = 0;
    while k < bytes.len()
        invariant
            k <= bytes@.len(),
            r@ == bytes@.take(k as int),
        decreases bytes@.len() - k,
    {
        r.push(bytes[k]);
        assert(bytes@.take(k + 1) =~= bytes@.take(k as int).push(bytes@[k as int]));
        k = k + 1;
    }
    assert(bytes@.take(k as int) =~= bytes@);
    r
}

/// The mask of bit `j` of a byte.
pub fn mask_of(j: usize) -> (m: u8)
    requires
        j < 8,
    ensures
        m == bit_mask(j as int),
{
    let s: u8 = j as u8;
    assert(0x80u8 >> 0u8 == 0x80u8 && 0x80u8 >> 1u8 == 0x40u8 && 0x80u8 >> 2u8 == 0x20u8 && 0x80u8
        >> 3u8 == 0x10u8 && 0x80u8 >> 4u8 == 0x08u8 && 0x80u8 >> 5u8 == 0x04u8 && 0x80u8 >> 6u8
        == 0x02u8 && 0x80u8 >> 7u8 == 0x01u8) by (bit_vector);
    0x80u8 >> s
}

} // verus!
