//! Properties of the move generators that hold for every square and every occupancy.
use vstd::prelude::*;
use crate::bits::{file_of, is_set, rank_of};
use crate::moves::{
    abs, file_delta, king_target, knight_target, pawn_forward, pawn_home_rank, pawn_target,
    rank_delta, Dir,
};
use crate::rays::{lemma_ray_direction_unique, lemma_ray_step, on_ray, ray_clear, ray_ok, ray_square};
use crate::position::{piece_target, MoveRejected, PieceKind, Position};

verus! {

/// A pawn that is not on its home rank never reaches the square two ranks ahead of it, even
/// when both squares in front of it are empty.
pub proof fn lemma_double_step_needs_home_rank(
    s: int,
    t: int,
    white: bool,
    own: u64,
    enemy: u64,
)
    requires
        0 <= s < 64,
        rank_of(s) != pawn_home_rank(white),
        rank_delta(s, t) == 2 * pawn_forward(white),
    ensures
        !pawn_target(s, t, white, own, enemy),
{
}

/// Knights and kings never wrap around the board's side edges: a knight changes file by at
/// most two and a king by at most one, so neither goes from file a to file h or from file h
/// to file a.
pub proof fn lemma_leapers_do_not_wrap(s: int, t: int)
    requires
        0 <= s < 64,
    ensures
        knight_target(s, t) ==> abs(file_delta(s, t)) <= 2,
        king_target(s, t) ==> abs(file_delta(s, t)) <= 1,
        file_of(s) == 0 && (knight_target(s, t) || king_target(s, t)) ==> file_of(t) != 7,
        file_of(s) == 7 && (knight_target(s, t) || king_target(s, t)) ==> file_of(t) != 0,
{
}

/// Along a ray whose first occupied square lies `k` steps away, a sliding piece may move to
/// that square exactly when an enemy piece stands there, and to no square beyond it,
/// whatever occupies those.
pub proof fn lemma_ray_capture_and_stop(s: int, d: Dir, own: u64, enemy: u64, k: int, m: int)
    requires
        0 <= s < 64,
        1 <= k,
        ray_ok(s, d, k),
        is_set(own | enemy, ray_square(s, d, k)),
        ray_clear(s, d, own | enemy, k),
        !(is_set(own, ray_square(s, d, k)) && is_set(enemy, ray_square(s, d, k))),
    ensures
        (on_ray(s, d, own | enemy, ray_square(s, d, k)) && !is_set(own, ray_square(s, d, k)))
            == is_set(enemy, ray_square(s, d, k)),
        k < m && ray_ok(s, d, m) ==> !on_ray(s, d, own | enemy, ray_square(s, d, m)),
{
    crate::bits::lemma_is_set_or(own, enemy, ray_square(s, d, k));
    lemma_ray_step(s, d, k);
    if k < m && ray_ok(s, d, m) {
        lemma_ray_step(s, d, m);
    }
}

/// Whether a piece of the given kind slides along direction `d`: a rook along files and
/// ranks, a bishop along diagonals, a queen along both.
pub open spec fn slides_along(kind: PieceKind, d: Dir) -> bool {
    match kind {
        PieceKind::Rook => d.df() == 0 || d.dr() == 0,
        PieceKind::Bishop => d.df() != 0 && d.dr() != 0,
        PieceKind::Queen => true,
        _ => false,
    }
}

/// The move set of a rook, bishop or queen holds the first occupied square along each of its
/// directions exactly when an enemy piece stands there, and no square beyond it.
pub proof fn lemma_slider_capture_and_stop(
    kind: PieceKind,
    white: bool,
    s: int,
    d: Dir,
    own: u64,
    enemy: u64,
    k: int,
    m: int,
)
    requires
        slides_along(kind, d),
        0 <= s < 64,
        1 <= k,
        ray_ok(s, d, k),
        is_set(own | enemy, ray_square(s, d, k)),
        ray_clear(s, d, own | enemy, k),
        !(is_set(own, ray_square(s, d, k)) && is_set(enemy, ray_square(s, d, k))),
    ensures
        piece_target(kind, white, s, ray_square(s, d, k), own, enemy) == is_set(
            enemy,
            ray_square(s, d, k),
        ),
        k < m && ray_ok(s, d, m) ==> !piece_target(kind, white, s, ray_square(s, d, m), own, enemy),
{
    let occ = own | enemy;
    lemma_ray_capture_and_stop(s, d, own, enemy, k, m);
    let b = ray_square(s, d, k);
    assert forall|e: Dir| e != d implies !on_ray(s, e, occ, b) by {
        lemma_ray_direction_unique(s, d, e, occ, k);
    }
    if k < m && ray_ok(s, d, m) {
        let t = ray_square(s, d, m);
        assert forall|e: Dir| e != d implies !on_ray(s, e, occ, t) by {
            lemma_ray_direction_unique(s, d, e, occ, m);
        }
    }
}

/// A move from or to the empty mask, or from a square to itself, is always refused as
/// degenerate; `attempt_move` then leaves the position as it was.
pub proof fn lemma_no_op_rejected(p: Position, x: u64)
    ensures
        p.rejection(0, x) == Some(MoveRejected::Degenerate),
        p.rejection(x, 0) == Some(MoveRejected::Degenerate),
        p.rejection(x, x) == Some(MoveRejected::Degenerate),
{
}

} // verus!
