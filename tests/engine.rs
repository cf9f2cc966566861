use chess::moves::{king_moves, knight_moves, pawn_moves};
use chess::position::{get_square_mask, square_index, ChessMove, MoveRejected, PieceKind, Position};
use chess::rays::{bishop_moves, queen_moves, rook_moves};

fn sq(name: &str) -> u64 {
    let b = name.as_bytes();
    let file = (b[0] - b'a') as u64;
    let rank = (b[1] - b'1') as u64;
    1u64 << (rank * 8 + file)
}

fn idx(name: &str) -> u64 {
    sq(name).trailing_zeros() as u64
}

fn squares(names: &[&str]) -> u64 {
    names.iter().fold(0u64, |m, n| m | sq(n))
}

#[test]
fn start_position_layout() {
    let p = Position::new();
    assert!(p.is_white_turn);
    assert_eq!(p.bitboards[0], 0xff00);
    assert_eq!(p.bitboards[4], sq("d1"));
    assert_eq!(p.bitboards[5], sq("e1"));
    assert_eq!(p.bitboards[10], sq("d8"));
    assert_eq!(p.bitboards[11], sq("e8"));
    assert_eq!(p.white_occupancy, 0xffff);
    assert_eq!(p.black_occupancy, 0xffff_0000_0000_0000);
    assert_eq!(p.all_occupancy, 0xffff_0000_0000_ffff);
}

#[test]
fn e2e4_then_e7e5() {
    let mut p = Position::new();
    let r = p.attempt_move(sq("e2"), sq("e4"));
    assert!(r.is_ok());
    assert_eq!(r.unwrap().moved, 0);
    assert_eq!(r.unwrap().captured, None);
    assert_eq!(p.bitboards[0] & sq("e4"), sq("e4"));
    assert_eq!(p.bitboards[0] & sq("e2"), 0);
    assert_eq!(p.all_occupancy & sq("e4"), sq("e4"));
    assert_eq!(p.all_occupancy & sq("e2"), 0);
    assert!(!p.is_white_turn);
    let r = p.attempt_move(sq("e7"), sq("e5"));
    assert!(r.is_ok());
    assert_eq!(p.bitboards[6] & sq("e5"), sq("e5"));
    assert_eq!(p.bitboards[6] & sq("e7"), 0);
    assert!(p.is_white_turn);
}

#[test]
fn rook_onto_own_pawn_is_rejected() {
    let mut p = Position::new();
    let before = p;
    assert_eq!(p.attempt_move(sq("a1"), sq("a2")), Err(MoveRejected::NotPseudoLegal));
    assert_eq!(p, before);
}

#[test]
fn degenerate_moves_are_rejected() {
    let mut p = Position::new();
    let before = p;
    for x in [0u64, sq("e2"), sq("a1"), sq("h8")] {
        assert_eq!(p.attempt_move(0, x), Err(MoveRejected::Degenerate));
        assert_eq!(p.attempt_move(x, 0), Err(MoveRejected::Degenerate));
        assert_eq!(p.attempt_move(x, x), Err(MoveRejected::Degenerate));
        assert_eq!(p, before);
    }
    assert_eq!(p.attempt_move(sq("e2") | sq("d2"), sq("e4")), Err(MoveRejected::Degenerate));
    assert_eq!(p, before);
}

#[test]
fn moving_the_other_side_or_an_empty_square_is_rejected() {
    let mut p = Position::new();
    let before = p;
    assert_eq!(p.attempt_move(sq("e7"), sq("e5")), Err(MoveRejected::NotOwnPiece));
    assert_eq!(p.attempt_move(sq("e4"), sq("e5")), Err(MoveRejected::NotOwnPiece));
    assert_eq!(p, before);
    assert!(p.is_white_turn);
}

#[test]
fn turn_flips_only_on_success() {
    let mut p = Position::new();
    assert!(p.attempt_move(sq("g1"), sq("g3")).is_err());
    assert!(p.is_white_turn);
    assert!(p.attempt_move(sq("g1"), sq("f3")).is_ok());
    assert!(!p.is_white_turn);
    assert!(p.attempt_move(sq("f3"), sq("e5")).is_err());
    assert!(!p.is_white_turn);
}

#[test]
fn capture_removes_the_enemy_piece() {
    let mut p = Position::new();
    assert!(p.attempt_move(sq("e2"), sq("e4")).is_ok());
    assert!(p.attempt_move(sq("d7"), sq("d5")).is_ok());
    let r = p.attempt_move(sq("e4"), sq("d5")).unwrap();
    assert_eq!(r.moved, 0);
    assert_eq!(r.captured, Some(6));
    assert_eq!(p.bitboards[6] & sq("d5"), 0);
    assert_eq!(p.bitboards[0] & sq("d5"), sq("d5"));
    assert_eq!(p.black_occupancy.count_ones(), 15);
    let total: u32 = p.bitboards.iter().map(|b| b.count_ones()).sum();
    assert_eq!(total, 31);
    assert_eq!(p.all_occupancy, p.white_occupancy | p.black_occupancy);
}

#[test]
fn is_move_pseudo_legal_matches_attempt() {
    let p = Position::new();
    assert!(p.is_move_pseudo_legal(ChessMove { from_square: sq("b1"), to_square: sq("c3") }));
    assert!(!p.is_move_pseudo_legal(ChessMove { from_square: sq("b1"), to_square: sq("d2") }));
    assert!(!p.is_move_pseudo_legal(ChessMove { from_square: sq("f1"), to_square: sq("c4") }));
}

#[test]
fn pawn_pushes_from_home_rank() {
    assert_eq!(pawn_moves(idx("e2"), true, 0, 0), squares(&["e3", "e4"]));
    assert_eq!(pawn_moves(idx("e7"), false, 0, 0), squares(&["e6", "e5"]));
    assert_eq!(pawn_moves(idx("e2"), true, 0, sq("e3")), 0);
    assert_eq!(pawn_moves(idx("e2"), true, 0, sq("e4")), sq("e3"));
}

#[test]
fn pawn_double_push_needs_home_rank() {
    assert_eq!(pawn_moves(idx("e3"), true, 0, 0), sq("e4"));
    assert_eq!(pawn_moves(idx("d6"), false, 0, 0), sq("d5"));
}

#[test]
fn pawn_captures_do_not_wrap() {
    let enemy = squares(&["b3", "h2"]);
    assert_eq!(pawn_moves(idx("a2"), true, 0, enemy), squares(&["a3", "a4", "b3"]));
    let enemy = squares(&["h3", "g3", "a4"]);
    assert_eq!(pawn_moves(idx("h2"), true, 0, enemy), squares(&["g3"]));
    assert_eq!(pawn_moves(idx("a7"), false, 0, sq("h5") | sq("b6")), squares(&["a6", "a5", "b6"]));
}

#[test]
fn knight_edges_do_not_wrap() {
    assert_eq!(knight_moves(idx("a1"), 0), squares(&["b3", "c2"]));
    assert_eq!(knight_moves(idx("h1"), 0), squares(&["g3", "f2"]));
    assert_eq!(knight_moves(idx("a4"), 0), squares(&["b6", "c5", "c3", "b2"]));
    assert_eq!(knight_moves(idx("h5"), 0), squares(&["g7", "f6", "f4", "g3"]));
    assert_eq!(knight_moves(idx("d4"), sq("e6")).count_ones(), 7);
}

#[test]
fn king_edges_do_not_wrap() {
    assert_eq!(king_moves(idx("a1"), 0), squares(&["a2", "b2", "b1"]));
    assert_eq!(king_moves(idx("h4"), sq("g4")), squares(&["h5", "g5", "g3", "h3"]));
    assert_eq!(king_moves(idx("e4"), 0).count_ones(), 8);
}

#[test]
fn rook_rays_stop_at_first_blocker() {
    let own = sq("d6");
    let enemy = sq("f4") | sq("h4");
    assert_eq!(
        rook_moves(idx("d4"), own, enemy),
        squares(&["d5", "d3", "d2", "d1", "e4", "f4", "c4", "b4", "a4"])
    );
}

#[test]
fn bishop_rays_stop_at_first_blocker() {
    let own = sq("b2");
    let enemy = sq("f6") | sq("g7");
    assert_eq!(
        bishop_moves(idx("d4"), own, enemy),
        squares(&["e5", "f6", "c3", "e3", "f2", "g1", "c5", "b6", "a7"])
    );
    assert_eq!(bishop_moves(idx("h1"), 0, 0), squares(&["g2", "f3", "e4", "d5", "c6", "b7", "a8"]));
}

#[test]
fn queen_is_rook_and_bishop() {
    let own = sq("d6");
    let enemy = sq("f6");
    assert_eq!(
        queen_moves(idx("d4"), own, enemy),
        rook_moves(idx("d4"), own, enemy) | bishop_moves(idx("d4"), own, enemy)
    );
    assert_eq!(queen_moves(idx("a1"), 0, 0).count_ones(), 21);
}

#[test]
fn square_mask_from_coordinates() {
    assert_eq!(get_square_mask(0, 0, 80), sq("a8"));
    assert_eq!(get_square_mask(639, 639, 80), sq("h1"));
    assert_eq!(get_square_mask(330, 500, 80), sq("e2"));
    assert_eq!(get_square_mask(640, 10, 80), 0);
    assert_eq!(get_square_mask(10, 640, 80), 0);
}

#[test]
fn square_index_of_masks() {
    assert_eq!(square_index(sq("e4")), Some(28));
    assert_eq!(square_index(0), None);
    assert_eq!(square_index(3), None);
}

#[test]
fn slot_kinds() {
    assert_eq!(chess::position::kind_of_slot(0), PieceKind::Pawn);
    assert_eq!(chess::position::kind_of_slot(9), PieceKind::Rook);
    assert_eq!(chess::position::kind_of_slot(11), PieceKind::King);
}

#[test]
fn candidate_moves_of_start_position() {
    let p = Position::new();
    assert_eq!(p.candidate_moves(0), 0x0000_0000_ffff_0000);
    assert_eq!(p.candidate_moves(1), squares(&["a3", "c3", "f3", "h3"]));
    assert_eq!(p.candidate_moves(2), 0);
    assert_eq!(p.candidate_moves(3), 0);
    assert_eq!(p.candidate_moves(4), 0);
    assert_eq!(p.candidate_moves(5), 0);
    assert_eq!(p.candidate_moves(6), 0x0000_ffff_0000_0000);
    assert_eq!(p.candidate_moves(7), squares(&["a6", "c6", "f6", "h6"]));
}

#[test]
fn possible_moves_follow_side_to_move() {
    let mut p = Position::new();
    let table = p.possible_moves();
    assert_eq!(table[0], 0x0000_0000_ffff_0000);
    assert_eq!(table[1], squares(&["a3", "c3", "f3", "h3"]));
    assert_eq!(table[6], 0);
    assert_eq!(table[7], 0);
    assert!(p.attempt_move(sq("e2"), sq("e4")).is_ok());
    let table = p.possible_moves();
    assert_eq!(table[0], 0);
    assert_eq!(table[6], 0x0000_ffff_0000_0000);
    assert_eq!(table[7], squares(&["a6", "c6", "f6", "h6"]));
    let white = Position { is_white_turn: true, ..p };
    assert_eq!(white.candidate_moves(2), squares(&["e2", "d3", "c4", "b5", "a6"]));
    assert_eq!(white.candidate_moves(4), squares(&["e2", "f3", "g4", "h5"]));
    assert_eq!(white.candidate_moves(5), sq("e2"));
}
