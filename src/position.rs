//! The position: twelve piece bitboards, their occupancy unions and the side to move, with
//! move validation and application.
use vstd::prelude::*;
use crate::bits::{group_bits, is_set, is_square_mask, square_mask, lemma_test_square};
use crate::moves::{king_moves, king_target, knight_moves, knight_target, pawn_moves, pawn_target};
use crate::rays::{bishop_moves, bishop_target, queen_moves, queen_target, rook_moves, rook_target};

verus! {

broadcast use group_bits;

/// The six kinds of piece. Each side has one bitboard per kind; the slots 0..6 hold White's
/// pieces in this order and the slots 6..12 Black's.
#[derive(Clone, Copy, PartialEq, Eq, Debug)]
pub enum PieceKind {
    Pawn,
    Knight,
    Bishop,
    Rook,
    Queen,
    King,
}

/// The kind of piece that slot `i` holds.
pub open spec fn slot_kind(i: int) -> PieceKind {
    let k = i % 6;
    if k == 0 {
        PieceKind::Pawn
    } else if k == 1 {
        PieceKind::Knight
    } else if k == 2 {
        PieceKind::Bishop
    } else if k == 3 {
        PieceKind::Rook
    } else if k == 4 {
        PieceKind::Queen
    } else {
        PieceKind::King
    }
}

/// Whether slot `i` holds White's pieces.
pub open spec fn slot_is_white(i: int) -> bool {
    i < 6
}

/// Whether a piece of the given kind and side on `s` may move to `t`, where `own` and
/// `enemy` are the squares held by its side and by the other.
pub open spec fn piece_target(
    kind: PieceKind,
    white: bool,
    s: int,
    t: int,
    own: u64,
    enemy: u64,
) -> bool {
    match kind {
        PieceKind::Pawn => pawn_target(s, t, white, own, enemy),
        PieceKind::Knight => knight_target(s, t) && !is_set(own, t),
        PieceKind::Bishop => bishop_target(s, t, own, enemy),
        PieceKind::Rook => rook_target(s, t, own, enemy),
        PieceKind::Queen => queen_target(s, t, own, enemy),
        PieceKind::King => king_target(s, t) && !is_set(own, t),
    }
}

/// The kind of piece that slot `i` holds.
pub fn kind_of_slot(i: usize) -> (k: PieceKind)
    requires
        i < 12,
    ensures
        k == slot_kind(i as int),
{
    match i % 6 {
        0 => PieceKind::Pawn,
        1 => PieceKind::Knight,
        2 => PieceKind::Bishop,
        3 => PieceKind::Rook,
        4 => PieceKind::Queen,
        _ => PieceKind::King,
    }
}

/// The squares a piece of the given kind and side on square `s` may move to.
pub fn piece_moves(kind: PieceKind, white: bool, s: u64, own: u64, enemy: u64) -> (r: u64)
    requires
        s < 64,
    ensures
        forall|t: int|
            #![trigger is_set(r, t)]
            is_set(r, t) == piece_target(kind, white, s as int, t, own, enemy),
{
    match kind {
        PieceKind::Pawn => pawn_moves(s, white, own, enemy),
        PieceKind::Knight => knight_moves(s, own),
        PieceKind::Bishop => bishop_moves(s, own, enemy),
        PieceKind::Rook => rook_moves(s, own, enemy),
        PieceKind::Queen => queen_moves(s, own, enemy),
        PieceKind::King => king_moves(s, own),
    }
}

/// A move as the two square masks it goes between.
#[derive(Debug, Clone, Copy, PartialEq, Eq)]
pub struct ChessMove {
    pub from_square: u64,
    pub to_square: u64,
}

/// Why a move was refused. A refused move leaves the position as it was.
#[derive(Debug, Clone, Copy, PartialEq, Eq)]
pub enum MoveRejected {
    /// A mask is not that of one square, or both name the same square.
    Degenerate,
    /// No piece of the side to move stands on the starting square.
    NotOwnPiece,
    /// The piece cannot reach the destination.
    NotPseudoLegal,
}

/// What an applied move did: the slot of the piece that moved, and that of the piece it
/// captured, if any.
#[derive(Debug, Clone, Copy, PartialEq, Eq)]
pub struct MoveOutcome {
    pub moved: usize,
    pub captured: Option<usize>,
}

/// A chess position as bitboards.
#[derive(Debug, Clone, Copy, PartialEq, Eq)]
pub struct Position {
    /// One bitboard per slot: White's pawn, knight, bishop, rook, queen, king, then Black's.
    pub bitboards: [u64; 12],
    /// The union of White's bitboards.
    pub white_occupancy: u64,
    /// The union of Black's bitboards.
    pub black_occupancy: u64,
    /// The union of both sides' occupancies.
    pub all_occupancy: u64,
    /// Whether White is to move.
    pub is_white_turn: bool,
}

/// The index of the square whose mask `m` is.
pub open spec fn mask_square(m: u64) -> int {
    choose|s: int| 0 <= s < 64 && m == square_mask(s)
}

pub proof fn lemma_mask_square(s: int)
    requires
        0 <= s < 64,
    ensures
        mask_square(square_mask(s)) == s,
{
    let c = mask_square(square_mask(s));
    assert(is_set(square_mask(s), s));
    assert(is_set(square_mask(c), s));
}

impl Position {
    /// Bitboard of slot `i`.
    pub open spec fn board(&self, i: int) -> u64 {
        self.bitboards@[i]
    }

    /// No square is set in two slots, and the occupancies are the unions of the slots.
    pub open spec fn wf(&self) -> bool {
        &&& forall|i: int, j: int, s: int|
            #![trigger is_set(self.board(i), s), is_set(self.board(j), s)]
            0 <= i < 12 && 0 <= j < 12 && i != j && is_set(self.board(i), s) ==> !is_set(
                self.board(j),
                s,
            )
        &&& self.white_occupancy == self.board(0) | self.board(1) | self.board(2) | self.board(3)
            | self.board(4) | self.board(5)
        &&& self.black_occupancy == self.board(6) | self.board(7) | self.board(8) | self.board(9)
            | self.board(10) | self.board(11)
        &&& self.all_occupancy == self.white_occupancy | self.black_occupancy
    }

    /// The squares held by the side to move.
    pub open spec fn own_occupancy(&self) -> u64 {
        if self.is_white_turn {
            self.white_occupancy
        } else {
            self.black_occupancy
        }
    }

    /// The squares held by the side not to move.
    pub open spec fn enemy_occupancy(&self) -> u64 {
        if self.is_white_turn {
            self.black_occupancy
        } else {
            self.white_occupancy
        }
    }

    /// The slot of the piece on square `s`, if a piece stands there.
    pub open spec fn slot_at(&self, s: int) -> Option<int> {
        if exists|i: int| 0 <= i < 12 && is_set(#[trigger] self.board(i), s) {
            Some(choose|i: int| 0 <= i < 12 && is_set(#[trigger] self.board(i), s))
        } else {
            None
        }
    }

    /// Whether the side to move may move the piece on square `fs` to square `ts`.
    pub open spec fn can_move(&self, fs: int, ts: int) -> bool {
        match self.slot_at(fs) {
            Some(i) => slot_is_white(i) == self.is_white_turn && piece_target(
                slot_kind(i),
                self.is_white_turn,
                fs,
                ts,
                self.own_occupancy(),
                self.enemy_occupancy(),
            ),
            None => false,
        }
    }

    /// The error, if any, with which a move between the masks `from` and `to` is refused.
    pub open spec fn rejection(&self, from: u64, to: u64) -> Option<MoveRejected> {
        if from == 0 || to == 0 || from == to || !is_square_mask(from) || !is_square_mask(to) {
            Some(MoveRejected::Degenerate)
        } else if !(self.slot_at(mask_square(from)) matches Some(i) && slot_is_white(i)
            == self.is_white_turn) {
            Some(MoveRejected::NotOwnPiece)
        } else if !self.can_move(mask_square(from), mask_square(to)) {
            Some(MoveRejected::NotPseudoLegal)
        } else {
            None
        }
    }

    proof fn lemma_slot_at(&self, s: int, i: int)
        requires
            self.wf(),
            0 <= i < 12,
            is_set(self.board(i), s),
        ensures
            self.slot_at(s) == Some(i),
    {
        let c = choose|c: int| 0 <= c < 12 && is_set(#[trigger] self.board(c), s);
        assert(is_set(self.board(i), s));
    }

    /// The standard starting position, White to move.
    pub fn new() -> (p: Position)
        ensures
            p.wf(),
            p.is_white_turn,
            p.bitboards@ == seq![
                0x000000000000ff00u64,
                0x0000000000000042u64,
                0x0000000000000024u64,
                0x0000000000000081u64,
                0x0000000000000008u64,
                0x0000000000000010u64,
                0x00ff000000000000u64,
                0x4200000000000000u64,
                0x2400000000000000u64,
                0x8100000000000000u64,
                0x0800000000000000u64,
                0x1000000000000000u64,
            ],
    {
        let bitboards: [u64; 12] = [
            0x000000000000ff00,
            0x0000000000000042,
            0x0000000000000024,
            0x0000000000000081,
            0x0000000000000008,
            0x0000000000000010,
            0x00ff000000000000,
            0x4200000000000000,
            0x2400000000000000,
            0x8100000000000000,
            0x0800000000000000,
            0x1000000000000000,
        ];
        let white_occupancy = bitboards[0] | bitboards[1] | bitboards[2] | bitboards[3]
            | bitboards[4] | bitboards[5];
        let black_occupancy = bitboards[6] | bitboards[7] | bitboards[8] | bitboards[9]
            | bitboards[10] | bitboards[11];
        let p = Position {
            bitboards,
            white_occupancy,
            black_occupancy,
            all_occupancy: white_occupancy | black_occupancy,
            is_white_turn: true,
        };
        proof {
            assert(p.bitboards@ =~= seq![
                0x000000000000ff00u64,
                0x0000000000000042u64,
                0x0000000000000024u64,
                0x0000000000000081u64,
                0x0000000000000008u64,
                0x0000000000000010u64,
                0x00ff000000000000u64,
                0x4200000000000000u64,
                0x2400000000000000u64,
                0x8100000000000000u64,
                0x0800000000000000u64,
                0x1000000000000000u64,
            ]);
            assert forall|i: int| 0 <= i < 12 implies p.board(i) == start_board(i) by {}
            assert forall|i: int, j: int, s: int|
                #![trigger is_set(p.board(i), s), is_set(p.board(j), s)]
                0 <= i < 12 && 0 <= j < 12 && i != j && is_set(p.board(i), s) implies !is_set(
                p.board(j),
                s,
            ) by {
                lemma_disjoint_start(i, j, s);
            }
        }
        p
    }

    /// The slot of the piece on square `s`, if any.
    pub fn piece_on(&self, s: u64) -> (r: Option<usize>)
        requires
            self.wf(),
            s < 64,
        ensures
            r matches Some(i) ==> self.slot_at(s as int) == Some(i as int) && i < 12,
            r is None ==> self.slot_at(s as int) is None,
    {
        let m = 1u64 << s;
        let mut i: usize = 0;
        while i < 12
            invariant
                i <= 12,
                s < 64,
                self.wf(),
                m == square_mask(s as int),
                forall|j: int| 0 <= j < i ==> !is_set(#[trigger] self.board(j), s as int),
            decreases 12 - i,
        {
            proof {
                lemma_test_square(self.bitboards[i as int], s as int);
            }
            if self.bitboards[i] & m != 0 {
                proof {
                    self.lemma_slot_at(s as int, i as int);
                }
                return Some(i);
            }
            i = i + 1;
        }
        None
    }

    /// Whether the side to move may make the move `mv`: both masks name squares, a piece of
    /// the side to move stands on the first, and it can reach the second.
    pub fn is_move_pseudo_legal(&self, mv: ChessMove) -> (r: bool)
        requires
            self.wf(),
        ensures
            r == (self.rejection(mv.from_square, mv.to_square) is None),
    {
        self.check_move(mv.from_square, mv.to_square).is_ok()
    }

    fn check_move(&self, from: u64, to: u64) -> (r: Result<(u64, u64, usize), MoveRejected>)
        requires
            self.wf(),
        ensures
            match r {
                Ok((fs, ts, i)) => self.rejection(from, to) is None && fs < 64 && ts < 64 && i
                    < 12 && from == square_mask(fs as int) && to == square_mask(ts as int)
                    && self.slot_at(fs as int) == Some(i as int),
                Err(e) => self.rejection(from, to) == Some(e),
            },
    {
        if from == 0 || to == 0 || from == to {
            return Err(MoveRejected::Degenerate);
        }
        let fs = match square_index(from) {
            Some(fs) => fs,
            None => {
                return Err(MoveRejected::Degenerate);
            },
        };
        let ts = match square_index(to) {
            Some(ts) => ts,
            None => {
                return Err(MoveRejected::Degenerate);
            },
        };
        proof {
            lemma_mask_square(fs as int);
            lemma_mask_square(ts as int);
        }
        let i = match self.piece_on(fs) {
            Some(i) => i,
            None => {
                return Err(MoveRejected::NotOwnPiece);
            },
        };
        let white = i < 6;
        if white != self.is_white_turn {
            return Err(MoveRejected::NotOwnPiece);
        }
        let (own, enemy) = if white {
            (self.white_occupancy, self.black_occupancy)
        } else {
            (self.black_occupancy, self.white_occupancy)
        };
        let dests = piece_moves(kind_of_slot(i), white, fs, own, enemy);
        proof {
            lemma_test_square(dests, ts as int);
        }
        if dests & to == 0 {
            return Err(MoveRejected::NotPseudoLegal);
        }
        Ok((fs, ts, i))
    }

    /// Attempts to move the piece on square mask `from` to square mask `to`. On success any
    /// piece on `to` is captured, the moving piece goes from `from` to `to`, the occupancies
    /// follow and the other side is to move. On refusal nothing changes.
    pub fn attempt_move(&mut self, from: u64, to: u64) -> (r: Result<MoveOutcome, MoveRejected>)
        requires
            old(self).wf(),
        ensures
            final(self).wf(),
            r is Err ==> *final(self) == *old(self),
            r matches Err(e) ==> old(self).rejection(from, to) == Some(e),
            r is Ok == (old(self).rejection(from, to) is None),
            final(self).is_white_turn == (if r is Ok {
                !old(self).is_white_turn
            } else {
                old(self).is_white_turn
            }),
            r matches Ok(o) ==> {
                let fs = mask_square(from);
                let ts = mask_square(to);
                &&& old(self).slot_at(fs) == Some(o.moved as int)
                &&& o.captured matches Some(c) ==> old(self).slot_at(ts) == Some(c as int)
                &&& o.captured is None ==> old(self).slot_at(ts) is None
                &&& forall|i: int, t: int|
                    #![trigger is_set(final(self).board(i), t)]
                    0 <= i < 12 ==> is_set(final(self).board(i), t) == if t == ts {
                        i == o.moved
                    } else if t == fs {
                        false
                    } else {
                        is_set(old(self).board(i), t)
                    }
            },
    {
        let (fs, ts, moved) = match self.check_move(from, to) {
            Ok(v) => v,
            Err(e) => {
                return Err(e);
            },
        };
        proof {
            lemma_mask_square(fs as int);
            lemma_mask_square(ts as int);
        }
        let captured = self.piece_on(ts);
        let ghost old_self = *self;
        let mut i: usize = 0;
        while i < 12
            invariant
                i <= 12,
                ts < 64,
                to == square_mask(ts as int),
                self.is_white_turn == old_self.is_white_turn,
                forall|j: int, t: int|
                    #![trigger is_set(self.board(j), t)]
                    0 <= j < 12 ==> is_set(self.board(j), t) == if j < i {
                        is_set(old_self.board(j), t) && t != ts
                    } else {
                        is_set(old_self.board(j), t)
                    },
            decreases 12 - i,
        {
            let ghost prev = *self;
            self.bitboards[i] = self.bitboards[i] & !to;
            proof {
                assert forall|j: int, t: int|
                    #![trigger is_set(self.board(j), t)]
                    0 <= j < 12 implies is_set(self.board(j), t) == if j < i + 1 {
                        is_set(old_self.board(j), t) && t != ts
                    } else {
                        is_set(old_self.board(j), t)
                    } by {
                    assert(is_set(prev.board(j), t) == if j < i {
                        is_set(old_self.board(j), t) && t != ts
                    } else {
                        is_set(old_self.board(j), t)
                    });
                    if j == i && 0 <= t < 64 {
                        crate::bits::lemma_is_set_not(to, t);
                    }
                }
            }
            i = i + 1;
        }
        let ghost mid = *self;
        self.bitboards[moved] = (self.bitboards[moved] & !from) | to;
        self.white_occupancy = self.bitboards[0] | self.bitboards[1] | self.bitboards[2]
            | self.bitboards[3] | self.bitboards[4] | self.bitboards[5];
        self.black_occupancy = self.bitboards[6] | self.bitboards[7] | self.bitboards[8]
            | self.bitboards[9] | self.bitboards[10] | self.bitboards[11];
        self.all_occupancy = self.white_occupancy | self.black_occupancy;
        self.is_white_turn = !self.is_white_turn;
        proof {
            assert forall|j: int, t: int|
                #![trigger is_set(self.board(j), t)]
                0 <= j < 12 implies is_set(self.board(j), t) == if t == ts as int {
                    j == moved as int
                } else if t == fs as int {
                    false
                } else {
                    is_set(old_self.board(j), t)
                } by {
                assert(is_set(mid.board(j), t) == (is_set(old_self.board(j), t) && t != ts));
                assert(is_set(old_self.board(moved as int), fs as int));
                if j == moved as int && 0 <= t < 64 {
                    crate::bits::lemma_is_set_not(from, t);
                }
                if j != moved as int && t == fs as int && is_set(old_self.board(j), t) {
                    assert(is_set(old_self.board(moved as int), t));
                }
            }
            assert forall|a: int, b: int, t: int|
                #![trigger is_set(self.board(a), t), is_set(self.board(b), t)]
                0 <= a < 12 && 0 <= b < 12 && a != b && is_set(self.board(a), t) implies !is_set(
                self.board(b),
                t,
            ) by {
                assert(is_set(old_self.board(a), t) ==> !is_set(old_self.board(b), t));
            }
        }
        Ok(MoveOutcome { moved, captured })
    }

    /// The squares held by the side of slot `i`.
    pub open spec fn slot_own(&self, i: int) -> u64 {
        if slot_is_white(i) {
            self.white_occupancy
        } else {
            self.black_occupancy
        }
    }

    /// The squares held by the side opposed to slot `i`.
    pub open spec fn slot_enemy(&self, i: int) -> u64 {
        if slot_is_white(i) {
            self.black_occupancy
        } else {
            self.white_occupancy
        }
    }

    /// Whether some piece of slot `i` on one of the squares below `n` may move to `t`.
    pub open spec fn slot_reaches(&self, i: int, n: int, t: int) -> bool {
        exists|q: int|
            #![trigger is_set(self.board(i), q)]
            0 <= q < n && is_set(self.board(i), q) && piece_target(
                slot_kind(i),
                slot_is_white(i),
                q,
                t,
                self.slot_own(i),
                self.slot_enemy(i),
            )
    }

    /// The candidate moves of slot `i`: every square that some piece of that slot may move
    /// to.
    pub fn candidate_moves(&self, i: usize) -> (r: u64)
        requires
            self.wf(),
            i < 12,
        ensures
            forall|t: int| #![trigger is_set(r, t)] is_set(r, t) == self.slot_reaches(i as int, 64, t),
    {
        let white = i < 6;
        let (own, enemy) = if white {
            (self.white_occupancy, self.black_occupancy)
        } else {
            (self.black_occupancy, self.white_occupancy)
        };
        let kind = kind_of_slot(i);
        let pieces = self.bitboards[i];
        let mut acc: u64 = 0;
        let mut s: u64 = 0;
        while s < 64
            invariant
                s <= 64,
                i < 12,
                pieces == self.board(i as int),
                kind == slot_kind(i as int),
                white == slot_is_white(i as int),
                own == self.slot_own(i as int),
                enemy == self.slot_enemy(i as int),
                forall|t: int|
                    #![trigger is_set(acc, t)]
                    is_set(acc, t) == self.slot_reaches(i as int, s as int, t),
            decreases 64 - s,
        {
            proof {
                lemma_test_square(pieces, s as int);
            }
            if pieces & (1u64 << s) != 0 {
                let moves = piece_moves(kind, white, s, own, enemy);
                let ghost prev = acc;
                acc = acc | moves;
                proof {
                    assert forall|t: int|
                        #![trigger is_set(acc, t)]
                        is_set(acc, t) == self.slot_reaches(i as int, s + 1, t) by {
                        assert(is_set(prev, t) == self.slot_reaches(i as int, s as int, t));
                        if is_set(moves, t) {
                            assert(is_set(self.board(i as int), s as int));
                        }
                    }
                }
            } else {
                proof {
                    assert forall|t: int|
                        #![trigger is_set(acc, t)]
                        is_set(acc, t) == self.slot_reaches(i as int, s + 1, t) by {
                        if self.slot_reaches(i as int, s + 1, t) {
                            let q = choose|q: int|
                                #![trigger is_set(self.board(i as int), q)]
                                0 <= q < s + 1 && is_set(self.board(i as int), q) && piece_target(
                                    slot_kind(i as int),
                                    slot_is_white(i as int),
                                    q,
                                    t,
                                    self.slot_own(i as int),
                                    self.slot_enemy(i as int),
                                );
                            assert(q != s);
                        }
                    }
                }
            }
            s = s + 1;
        }
        acc
    }

    /// The candidate-move table of the side to move: for each of its slots the squares that
    /// some piece of the slot may move to; the other side's slots are empty.
    pub fn possible_moves(&self) -> (r: [u64; 12])
        requires
            self.wf(),
        ensures
            forall|i: int, t: int|
                #![trigger is_set(r@[i], t)]
                0 <= i < 12 ==> is_set(r@[i], t) == (slot_is_white(i) == self.is_white_turn
                    && self.slot_reaches(i, 64, t)),
    {
        let mut table: [u64; 12] = [0; 12];
        let mut i: usize = 0;
        while i < 12
            invariant
                i <= 12,
                self.wf(),
                forall|j: int, t: int|
                    #![trigger is_set(table@[j], t)]
                    0 <= j < 12 ==> is_set(table@[j], t) == (j < i && slot_is_white(j)
                        == self.is_white_turn && self.slot_reaches(j, 64, t)),
            decreases 12 - i,
        {
            let ghost prev = table;
            if (i < 6) == self.is_white_turn {
                table[i] = self.candidate_moves(i);
            }
            proof {
                assert forall|j: int, t: int|
                    #![trigger is_set(table@[j], t)]
                    0 <= j < 12 implies is_set(table@[j], t) == (j < i + 1 && slot_is_white(j)
                        == self.is_white_turn && self.slot_reaches(j, 64, t)) by {
                    assert(is_set(prev@[j], t) == (j < i && slot_is_white(j) == self.is_white_turn
                        && self.slot_reaches(j, 64, t)));
                }
            }
            i = i + 1;
        }
        table
    }
}

/// The index of the square whose mask `m` is, or `None` where `m` is no square's mask.
pub fn square_index(m: u64) -> (r: Option<u64>)
    ensures
        r matches Some(s) ==> s < 64 && m == square_mask(s as int),
        r is None ==> !is_square_mask(m),
{
    let mut s: u64 = 0;
    while s < 64
        invariant
            s <= 64,
            forall|j: int| 0 <= j < s ==> m != #[trigger] square_mask(j),
        decreases 64 - s,
    {
        if m == 1u64 << s {
            return Some(s);
        }
        s = s + 1;
    }
    None
}

/// The bitboard of slot `i` in the standard starting position.
pub open spec fn start_board(i: int) -> u64 {
    if i == 0 {
        0x000000000000ff00u64
    } else if i == 1 {
        0x0000000000000042u64
    } else if i == 2 {
        0x0000000000000024u64
    } else if i == 3 {
        0x0000000000000081u64
    } else if i == 4 {
        0x0000000000000008u64
    } else if i == 5 {
        0x0000000000000010u64
    } else if i == 6 {
        0x00ff000000000000u64
    } else if i == 7 {
        0x4200000000000000u64
    } else if i == 8 {
        0x2400000000000000u64
    } else if i == 9 {
        0x8100000000000000u64
    } else if i == 10 {
        0x0800000000000000u64
    } else {
        0x1000000000000000u64
    }
}

proof fn bv_start_disjoint() by (bit_vector)
    ensures
        0x000000000000ff00u64 & 0x0000000000000042u64 == 0,
        0x000000000000ff00u64 & 0x0000000000000024u64 == 0,
        0x000000000000ff00u64 & 0x0000000000000081u64 == 0,
        0x000000000000ff00u64 & 0x0000000000000008u64 == 0,
        0x000000000000ff00u64 & 0x0000000000000010u64 == 0,
        0x000000000000ff00u64 & 0x00ff000000000000u64 == 0,
        0x000000000000ff00u64 & 0x4200000000000000u64 == 0,
        0x000000000000ff00u64 & 0x2400000000000000u64 == 0,
        0x000000000000ff00u64 & 0x8100000000000000u64 == 0,
        0x000000000000ff00u64 & 0x0800000000000000u64 == 0,
        0x000000000000ff00u64 & 0x1000000000000000u64 == 0,
        0x0000000000000042u64 & 0x0000000000000024u64 == 0,
        0x0000000000000042u64 & 0x0000000000000081u64 == 0,
        0x0000000000000042u64 & 0x0000000000000008u64 == 0,
        0x0000000000000042u64 & 0x0000000000000010u64 == 0,
        0x0000000000000042u64 & 0x00ff000000000000u64 == 0,
        0x0000000000000042u64 & 0x4200000000000000u64 == 0,
        0x0000000000000042u64 & 0x2400000000000000u64 == 0,
        0x0000000000000042u64 & 0x8100000000000000u64 == 0,
        0x0000000000000042u64 & 0x0800000000000000u64 == 0,
        0x0000000000000042u64 & 0x1000000000000000u64 == 0,
        0x0000000000000024u64 & 0x0000000000000081u64 == 0,
        0x0000000000000024u64 & 0x0000000000000008u64 == 0,
        0x0000000000000024u64 & 0x0000000000000010u64 == 0,
        0x0000000000000024u64 & 0x00ff000000000000u64 == 0,
        0x0000000000000024u64 & 0x4200000000000000u64 == 0,
        0x0000000000000024u64 & 0x2400000000000000u64 == 0,
        0x0000000000000024u64 & 0x8100000000000000u64 == 0,
        0x0000000000000024u64 & 0x0800000000000000u64 == 0,
        0x0000000000000024u64 & 0x1000000000000000u64 == 0,
        0x0000000000000081u64 & 0x0000000000000008u64 == 0,
        0x0000000000000081u64 & 0x0000000000000010u64 == 0,
        0x0000000000000081u64 & 0x00ff000000000000u64 == 0,
        0x0000000000000081u64 & 0x4200000000000000u64 == 0,
        0x0000000000000081u64 & 0x2400000000000000u64 == 0,
        0x0000000000000081u64 & 0x8100000000000000u64 == 0,
        0x0000000000000081u64 & 0x0800000000000000u64 == 0,
        0x0000000000000081u64 & 0x1000000000000000u64 == 0,
        0x0000000000000008u64 & 0x0000000000000010u64 == 0,
        0x0000000000000008u64 & 0x00ff000000000000u64 == 0,
        0x0000000000000008u64 & 0x4200000000000000u64 == 0,
        0x0000000000000008u64 & 0x2400000000000000u64 == 0,
        0x0000000000000008u64 & 0x8100000000000000u64 == 0,
        0x0000000000000008u64 & 0x0800000000000000u64 == 0,
        0x0000000000000008u64 & 0x1000000000000000u64 == 0,
        0x0000000000000010u64 & 0x00ff000000000000u64 == 0,
        0x0000000000000010u64 & 0x4200000000000000u64 == 0,
        0x0000000000000010u64 & 0x2400000000000000u64 == 0,
        0x0000000000000010u64 & 0x8100000000000000u64 == 0,
        0x0000000000000010u64 & 0x0800000000000000u64 == 0,
        0x0000000000000010u64 & 0x1000000000000000u64 == 0,
        0x00ff000000000000u64 & 0x4200000000000000u64 == 0,
        0x00ff000000000000u64 & 0x2400000000000000u64 == 0,
        0x00ff000000000000u64 & 0x8100000000000000u64 == 0,
        0x00ff000000000000u64 & 0x0800000000000000u64 == 0,
        0x00ff000000000000u64 & 0x1000000000000000u64 == 0,
        0x4200000000000000u64 & 0x2400000000000000u64 == 0,
        0x4200000000000000u64 & 0x8100000000000000u64 == 0,
        0x4200000000000000u64 & 0x0800000000000000u64 == 0,
        0x4200000000000000u64 & 0x1000000000000000u64 == 0,
        0x2400000000000000u64 & 0x8100000000000000u64 == 0,
        0x2400000000000000u64 & 0x0800000000000000u64 == 0,
        0x2400000000000000u64 & 0x1000000000000000u64 == 0,
        0x8100000000000000u64 & 0x0800000000000000u64 == 0,
        0x8100000000000000u64 & 0x1000000000000000u64 == 0,
        0x0800000000000000u64 & 0x1000000000000000u64 == 0,
{
}

proof fn lemma_disjoint_start(i: int, j: int, s: int)
    requires
        0 <= i < 12,
        0 <= j < 12,
        i != j,
    ensures
        !(is_set(start_board(i), s) && is_set(start_board(j), s)),
{
    bv_start_disjoint();
    crate::bits::lemma_is_set_and(start_board(i), start_board(j), s);
    crate::bits::lemma_is_set_and(start_board(j), start_board(i), s);
}

/// The mask of the square under the point (`x`, `y`) of a board drawn with White at the
/// bottom and squares `square_size` wide: the top row is rank 8 and the left column file a.
/// A point beyond the eighth row or column gives 0, the mask of no square.
pub fn get_square_mask(x: u64, y: u64, square_size: u64) -> (r: u64)
    requires
        square_size > 0,
    ensures
        r == if x / square_size > 7 || y / square_size > 7 {
            0
        } else {
            square_mask(8 * (7 - y / square_size) + x / square_size)
        },
{
    let col = x / square_size;
    let row = y / square_size;
    if col > 7 || row > 7 {
        return 0;
    }
    1u64 << ((7 - row) * 8 + col)
}

} // verus!
