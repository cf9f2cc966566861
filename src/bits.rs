//! The bitboard model: a `u64` seen as the set of board squares whose bit is set.
//!
//! Square `s` (0..64) is bit `s`; bit 0 is a1, bit 7 is h1, bit 63 is h8.
//! File `s % 8` runs a..h, rank `s / 8` runs 1..8.
use vstd::prelude::*;

verus! {

/// Whether square `s` is set in bitboard `b`; false for every `s` off the board.
pub open spec fn is_set(b: u64, s: int) -> bool {
    0 <= s < 64 && (b >> (s as u64)) & 1u64 == 1u64
}

/// The mask that holds square `s` alone.
pub open spec fn square_mask(s: int) -> u64 {
    1u64 << (s as u64)
}

/// Whether `m` is the mask of exactly one square.
pub open spec fn is_square_mask(m: u64) -> bool {
    exists|s: int| 0 <= s < 64 && m == square_mask(s)
}

/// File of a square, 0 for file a up to 7 for file h.
pub open spec fn file_of(s: int) -> int {
    s % 8
}

/// Rank of a square, 0 for rank 1 up to 7 for rank 8.
pub open spec fn rank_of(s: int) -> int {
    s / 8
}

/// Every square but those of file a.
pub const NOT_A_FILE: u64 = 0xfefefefefefefefe;

/// Every square but those of file b.
pub const NOT_B_FILE: u64 = 0xfdfdfdfdfdfdfdfd;

/// Every square but those of file g.
pub const NOT_G_FILE: u64 = 0xbfbfbfbfbfbfbfbf;

/// Every square but those of file h.
pub const NOT_H_FILE: u64 = 0x7f7f7f7f7f7f7f7f;

/// Every square but those of files a and b.
pub const NOT_AB_FILE: u64 = 0xfcfcfcfcfcfcfcfc;

/// Every square but those of files g and h.
pub const NOT_GH_FILE: u64 = 0x3f3f3f3f3f3f3f3f;

proof fn bv_and(a: u64, b: u64, i: u64) by (bit_vector)
    requires
        i < 64,
    ensures
        ((a & b) >> i) & 1u64 == 1u64 <==> ((a >> i) & 1u64 == 1u64 && (b >> i) & 1u64 == 1u64),
{
}

proof fn bv_or(a: u64, b: u64, i: u64) by (bit_vector)
    requires
        i < 64,
    ensures
        ((a | b) >> i) & 1u64 == 1u64 <==> ((a >> i) & 1u64 == 1u64 || (b >> i) & 1u64 == 1u64),
{
}

proof fn bv_not(a: u64, i: u64) by (bit_vector)
    requires
        i < 64,
    ensures
        ((!a) >> i) & 1u64 == 1u64 <==> !((a >> i) & 1u64 == 1u64),
{
}

proof fn bv_shl(a: u64, k: u64, i: u64) by (bit_vector)
    requires
        i < 64,
        k < 64,
    ensures
        ((a << k) >> i) & 1u64 == 1u64 <==> (i >= k && (a >> ((i - k) as u64)) & 1u64 == 1u64),
{
}

proof fn bv_shr(a: u64, k: u64, i: u64) by (bit_vector)
    requires
        i < 64,
        k < 64,
    ensures
        ((a >> k) >> i) & 1u64 == 1u64 <==> (i + k < 64 && (a >> ((i + k) as u64)) & 1u64
            == 1u64),
{
}

proof fn bv_single(j: u64, i: u64) by (bit_vector)
    requires
        i < 64,
        j < 64,
    ensures
        ((1u64 << j) >> i) & 1u64 == 1u64 <==> i == j,
{
}

proof fn bv_zero(i: u64) by (bit_vector)
    ensures
        (0u64 >> i) & 1u64 != 1u64,
{
}

proof fn bv_top(x: u64, i: u64) by (bit_vector)
    requires
        i == 63,
        (x >> i) & 1u64 != 1u64,
    ensures
        x >> i == 0,
{
}

proof fn bv_down(x: u64, i: u64) by (bit_vector)
    requires
        i < 63,
        x >> ((i + 1) as u64) == 0,
        (x >> i) & 1u64 != 1u64,
    ensures
        x >> i == 0,
{
}

proof fn bv_shr_zero(x: u64) by (bit_vector)
    ensures
        x >> 0u64 == x,
{
}

proof fn bv_not_a(i: u64) by (bit_vector)
    requires
        i < 64,
    ensures
        (0xfefefefefefefefeu64 >> i) & 1u64 == 1u64 <==> i % 8 != 0,
{
}

proof fn bv_not_h(i: u64) by (bit_vector)
    requires
        i < 64,
    ensures
        (0x7f7f7f7f7f7f7f7fu64 >> i) & 1u64 == 1u64 <==> i % 8 != 7,
{
}

proof fn bv_not_ab(i: u64) by (bit_vector)
    requires
        i < 64,
    ensures
        (0xfcfcfcfcfcfcfcfcu64 >> i) & 1u64 == 1u64 <==> i % 8 >= 2,
{
}

proof fn bv_not_gh(i: u64) by (bit_vector)
    requires
        i < 64,
    ensures
        (0x3f3f3f3f3f3f3f3fu64 >> i) & 1u64 == 1u64 <==> i % 8 < 6,
{
}

pub broadcast proof fn lemma_is_set_and(a: u64, b: u64, s: int)
    ensures
        #[trigger] is_set(a & b, s) == (is_set(a, s) && is_set(b, s)),
{
    if 0 <= s < 64 {
        bv_and(a, b, s as u64);
    }
}

pub broadcast proof fn lemma_is_set_or(a: u64, b: u64, s: int)
    ensures
        #[trigger] is_set(a | b, s) == (is_set(a, s) || is_set(b, s)),
{
    if 0 <= s < 64 {
        bv_or(a, b, s as u64);
    }
}

pub broadcast proof fn lemma_is_set_not(a: u64, s: int)
    requires
        0 <= s < 64,
    ensures
        #[trigger] is_set(!a, s) == !is_set(a, s),
{
    bv_not(a, s as u64);
}

/// Shifting left by `k` moves every square up by `k`; what passes bit 63 is lost.
pub broadcast proof fn lemma_is_set_shl(a: u64, k: u64, s: int)
    requires
        k < 64,
    ensures
        #[trigger] is_set(a << k, s) == (0 <= s < 64 && is_set(a, s - k)),
{
    if 0 <= s < 64 {
        bv_shl(a, k, s as u64);
    }
}

/// Shifting right by `k` moves every square down by `k`; what passes bit 0 is lost.
pub broadcast proof fn lemma_is_set_shr(a: u64, k: u64, s: int)
    requires
        k < 64,
    ensures
        #[trigger] is_set(a >> k, s) == (0 <= s < 64 && is_set(a, s + k)),
{
    if 0 <= s < 64 {
        bv_shr(a, k, s as u64);
    }
}

pub broadcast proof fn lemma_is_set_square(j: int, s: int)
    requires
        0 <= j < 64,
    ensures
        #[trigger] is_set(square_mask(j), s) == (s == j),
{
    if 0 <= s < 64 {
        bv_single(j as u64, s as u64);
    }
}

pub broadcast proof fn lemma_is_set_zero(s: int)
    ensures
        !#[trigger] is_set(0u64, s),
{
    if 0 <= s < 64 {
        bv_zero(s as u64);
    }
}

pub broadcast proof fn lemma_not_a_file(s: int)
    ensures
        #[trigger] is_set(NOT_A_FILE, s) == (0 <= s < 64 && file_of(s) != 0),
{
    if 0 <= s < 64 {
        bv_not_a(s as u64);
    }
}

pub broadcast proof fn lemma_not_h_file(s: int)
    ensures
        #[trigger] is_set(NOT_H_FILE, s) == (0 <= s < 64 && file_of(s) != 7),
{
    if 0 <= s < 64 {
        bv_not_h(s as u64);
    }
}

pub broadcast proof fn lemma_not_ab_file(s: int)
    ensures
        #[trigger] is_set(NOT_AB_FILE, s) == (0 <= s < 64 && file_of(s) >= 2),
{
    if 0 <= s < 64 {
        bv_not_ab(s as u64);
    }
}

pub broadcast proof fn lemma_not_gh_file(s: int)
    ensures
        #[trigger] is_set(NOT_GH_FILE, s) == (0 <= s < 64 && file_of(s) < 6),
{
    if 0 <= s < 64 {
        bv_not_gh(s as u64);
    }
}

proof fn lemma_high_bits_clear(x: u64, i: int)
    requires
        0 <= i < 64,
        forall|t: int| i <= t < 64 ==> !is_set(x, t),
    ensures
        x >> (i as u64) == 0,
    decreases 64 - i,
{
    assert(!is_set(x, i));
    if i == 63 {
        bv_top(x, i as u64);
    } else {
        lemma_high_bits_clear(x, i + 1);
        bv_down(x, i as u64);
    }
}

/// A bitboard with no square set is zero.
pub proof fn lemma_empty_is_zero(x: u64)
    requires
        forall|t: int| 0 <= t < 64 ==> !is_set(x, t),
    ensures
        x == 0,
{
    lemma_high_bits_clear(x, 0);
    bv_shr_zero(x);
}

/// A bitboard is zero exactly when no square is set in it.
pub proof fn lemma_zero_iff_empty(x: u64)
    ensures
        x == 0 <==> forall|t: int| 0 <= t < 64 ==> !is_set(x, t),
{
    broadcast use lemma_is_set_zero;

    if forall|t: int| 0 <= t < 64 ==> !is_set(x, t) {
        lemma_empty_is_zero(x);
    }
}

/// Whether mask `m` and square `s` share a bit: a bitwise and with the square's mask.
pub proof fn lemma_test_square(m: u64, s: int)
    requires
        0 <= s < 64,
    ensures
        (m & square_mask(s) != 0) == is_set(m, s),
{
    broadcast use lemma_is_set_and, lemma_is_set_square;

    lemma_zero_iff_empty(m & square_mask(s));
    lemma_is_set_zero(s);
}

pub broadcast group group_bits {
    lemma_is_set_and,
    lemma_is_set_or,
    lemma_is_set_not,
    lemma_is_set_shl,
    lemma_is_set_shr,
    lemma_is_set_square,
    lemma_is_set_zero,
    lemma_not_a_file,
    lemma_not_h_file,
    lemma_not_ab_file,
    lemma_not_gh_file,
}

} // verus!
