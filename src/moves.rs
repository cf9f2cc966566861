//! Pseudo-legal destination sets of single pieces, computed with shifts and file masks.
//!
//! Each generator takes the piece's square index and the occupancy of its own side and of
//! the enemy, and returns the bitboard of squares it may move to. The contracts state these
//! sets by board geometry: file and rank distances, rays and the squares between.
use vstd::prelude::*;
use crate::bits::{
    file_of, group_bits, is_set, rank_of, square_mask, NOT_AB_FILE, NOT_A_FILE, NOT_GH_FILE,
    NOT_H_FILE,
};

verus! {

broadcast use group_bits;

/// One of the eight compass directions, seen from White: north is towards rank 8,
/// east towards file h.
#[derive(Clone, Copy, PartialEq, Eq, Debug)]
pub enum Dir {
    North,
    South,
    East,
    West,
    NorthEast,
    NorthWest,
    SouthEast,
    SouthWest,
}

impl Dir {
    /// The change of file of one step.
    pub open spec fn df(self) -> int {
        match self {
            Dir::North | Dir::South => 0,
            Dir::East | Dir::NorthEast | Dir::SouthEast => 1,
            Dir::West | Dir::NorthWest | Dir::SouthWest => -1,
        }
    }

    /// The change of rank of one step.
    pub open spec fn dr(self) -> int {
        match self {
            Dir::East | Dir::West => 0,
            Dir::North | Dir::NorthEast | Dir::NorthWest => 1,
            Dir::South | Dir::SouthEast | Dir::SouthWest => -1,
        }
    }

    /// The change of square index of one step.
    pub open spec fn offset(self) -> int {
        self.df() + 8 * self.dr()
    }
}

/// Whether file `f` and rank `r` name a square of the board.
pub open spec fn on_board(f: int, r: int) -> bool {
    0 <= f < 8 && 0 <= r < 8
}

/// The square on file `f` and rank `r`.
pub open spec fn square_at(f: int, r: int) -> int {
    8 * r + f
}

/// Whether one step from square `s` in direction `d` stays on the board.
pub open spec fn can_step(s: int, d: Dir) -> bool {
    0 <= s < 64 && on_board(file_of(s) + d.df(), rank_of(s) + d.dr())
}

pub proof fn lemma_square_coords(f: int, r: int)
    requires
        on_board(f, r),
    ensures
        0 <= square_at(f, r) < 64,
        file_of(square_at(f, r)) == f,
        rank_of(square_at(f, r)) == r,
{
    vstd::arithmetic::div_mod::lemma_fundamental_div_mod_converse(square_at(f, r), 8, r, f);
}

pub proof fn lemma_square_split(s: int)
    requires
        0 <= s < 64,
    ensures
        s == square_at(file_of(s), rank_of(s)),
        on_board(file_of(s), rank_of(s)),
{
}

/// Moves every square of `m` one step in direction `d`, dropping those that would leave the
/// board (across a rank end or a file edge).
pub fn shift_one(m: u64, d: Dir) -> (r: u64)
    ensures
        forall|t: int|
            #![trigger is_set(r, t)]
            is_set(r, t) == (can_step(t - d.offset(), d) && is_set(m, t - d.offset())),
{
    let r = match d {
        Dir::North => m << 8u64,
        Dir::South => m >> 8u64,
        Dir::East => (m << 1u64) & NOT_A_FILE,
        Dir::West => (m >> 1u64) & NOT_H_FILE,
        Dir::NorthEast => (m << 9u64) & NOT_A_FILE,
        Dir::NorthWest => (m << 7u64) & NOT_H_FILE,
        Dir::SouthEast => (m >> 7u64) & NOT_A_FILE,
        Dir::SouthWest => (m >> 9u64) & NOT_H_FILE,
    };
    assert forall|t: int|
        #![trigger is_set(r, t)]
        is_set(r, t) == (can_step(t - d.offset(), d) && is_set(m, t - d.offset())) by {
        if 0 <= t - d.offset() < 64 {
            lemma_square_split(t - d.offset());
        }
    }
    r
}

/// The absolute value of `x`.
pub open spec fn abs(x: int) -> int {
    if x < 0 {
        -x
    } else {
        x
    }
}

/// The change of file from square `s` to square `t`.
pub open spec fn file_delta(s: int, t: int) -> int {
    file_of(t) - file_of(s)
}

/// The change of rank from square `s` to square `t`.
pub open spec fn rank_delta(s: int, t: int) -> int {
    rank_of(t) - rank_of(s)
}

/// Whether either side has a piece on square `t`.
pub open spec fn occupied(own: u64, enemy: u64, t: int) -> bool {
    is_set(own, t) || is_set(enemy, t)
}

/// Whether a knight on `s` jumps to `t`: two files and one rank away, or one file and two
/// ranks.
pub open spec fn knight_target(s: int, t: int) -> bool {
    &&& 0 <= t < 64
    &&& {
        ||| abs(file_delta(s, t)) == 1 && abs(rank_delta(s, t)) == 2
        ||| abs(file_delta(s, t)) == 2 && abs(rank_delta(s, t)) == 1
    }
}

/// Whether a king on `s` steps to `t`: another square at most one file and one rank away.
pub open spec fn king_target(s: int, t: int) -> bool {
    &&& 0 <= t < 64
    &&& t != s
    &&& abs(file_delta(s, t)) <= 1
    &&& abs(rank_delta(s, t)) <= 1
}

/// The rank on which the pawns of a side start: rank 2 for White, rank 7 for Black.
pub open spec fn pawn_home_rank(white: bool) -> int {
    if white {
        1
    } else {
        6
    }
}

/// The change of rank of a pawn's step forward: up for White, down for Black.
pub open spec fn pawn_forward(white: bool) -> int {
    if white {
        1
    } else {
        -1
    }
}

/// Whether a pawn of the given side on `s` moves to `t`: one square forward onto an empty
/// square; two squares forward from its home rank when both squares are empty; or one square
/// diagonally forward onto an enemy piece.
pub open spec fn pawn_target(s: int, t: int, white: bool, own: u64, enemy: u64) -> bool {
    let fwd = pawn_forward(white);
    &&& 0 <= t < 64
    &&& {
        ||| file_delta(s, t) == 0 && rank_delta(s, t) == fwd && !occupied(own, enemy, t)
        ||| file_delta(s, t) == 0 && rank_delta(s, t) == 2 * fwd && rank_of(s)
            == pawn_home_rank(white) && !occupied(own, enemy, s + 8 * fwd) && !occupied(
            own,
            enemy,
            t,
        )
        ||| abs(file_delta(s, t)) == 1 && rank_delta(s, t) == fwd && is_set(enemy, t)
    }
}

/// The squares a knight on square `s` may move to: its eight jumps that stay on the board,
/// but for those held by its own side.
pub fn knight_moves(s: u64, own: u64) -> (r: u64)
    requires
        s < 64,
    ensures
        forall|t: int|
            #![trigger is_set(r, t)]
            is_set(r, t) == (knight_target(s as int, t) && !is_set(own, t)),
{
    let m = 1u64 << s;
    let jumps = ((m << 6u64) & NOT_GH_FILE) | ((m << 10u64) & NOT_AB_FILE) | ((m << 15u64)
        & NOT_H_FILE) | ((m << 17u64) & NOT_A_FILE) | ((m >> 6u64) & NOT_AB_FILE) | ((m >> 10u64)
        & NOT_GH_FILE) | ((m >> 15u64) & NOT_A_FILE) | ((m >> 17u64) & NOT_H_FILE);
    let r = jumps & !own;
    assert forall|t: int|
        #![trigger is_set(r, t)]
        is_set(r, t) == (knight_target(s as int, t) && !is_set(own, t)) by {
        assert(m == square_mask(s as int));
        if 0 <= t < 64 {
            lemma_square_split(t);
            lemma_square_split(s as int);
        }
    }
    r
}

/// The squares a king on square `s` may move to: its eight neighbours on the board, but for
/// those held by its own side.
pub fn king_moves(s: u64, own: u64) -> (r: u64)
    requires
        s < 64,
    ensures
        forall|t: int|
            #![trigger is_set(r, t)]
            is_set(r, t) == (king_target(s as int, t) && !is_set(own, t)),
{
    let m = 1u64 << s;
    let steps = shift_one(m, Dir::North) | shift_one(m, Dir::South) | shift_one(m, Dir::East)
        | shift_one(m, Dir::West) | shift_one(m, Dir::NorthEast) | shift_one(m, Dir::NorthWest)
        | shift_one(m, Dir::SouthEast) | shift_one(m, Dir::SouthWest);
    let r = steps & !own;
    assert forall|t: int|
        #![trigger is_set(r, t)]
        is_set(r, t) == (king_target(s as int, t) && !is_set(own, t)) by {
        assert(m == square_mask(s as int));
        if 0 <= t < 64 {
            lemma_square_split(t);
            lemma_square_split(s as int);
        }
    }
    r
}

/// The squares a pawn of the given side on square `s` may move to: the step forward onto an
/// empty square, the double step from the home rank over an empty square onto an empty
/// square, and the two forward diagonals where an enemy piece stands.
pub fn pawn_moves(s: u64, white: bool, own: u64, enemy: u64) -> (r: u64)
    requires
        s < 64,
    ensures
        forall|t: int|
            #![trigger is_set(r, t)]
            is_set(r, t) == pawn_target(s as int, t, white, own, enemy),
{
    let m = 1u64 << s;
    let empty = !(own | enemy);
    let (forward, left, right) = if white {
        (Dir::North, Dir::NorthWest, Dir::NorthEast)
    } else {
        (Dir::South, Dir::SouthWest, Dir::SouthEast)
    };
    let single = shift_one(m, forward) & empty;
    let on_home_rank = if white {
        s / 8 == 1
    } else {
        s / 8 == 6
    };
    let double = if on_home_rank {
        shift_one(single, forward) & empty
    } else {
        0
    };
    let captures = (shift_one(m, left) | shift_one(m, right)) & enemy;
    let r = single | double | captures;
    assert forall|t: int|
        #![trigger is_set(r, t)]
        is_set(r, t) == pawn_target(s as int, t, white, own, enemy) by {
        assert(m == square_mask(s as int));
        lemma_square_split(s as int);
        if 0 <= t < 64 {
            lemma_square_split(t);
            if 0 <= t - forward.offset() < 64 {
                lemma_square_split(t - forward.offset());
            }
        }
    }
    r
}

} // verus!
