//! Sliding pieces: rays that run until the board edge or the first occupied square.
use vstd::prelude::*;
use crate::bits::{file_of, group_bits, is_set, rank_of};
use crate::moves::{
    can_step, file_delta, lemma_square_coords, lemma_square_split, on_board, rank_delta,
    square_at, Dir,
};

verus! {

broadcast use group_bits;

/// `k` times the step component `c`, which is -1, 0 or 1.
pub open spec fn times(k: int, c: int) -> int {
    if c > 0 {
        k
    } else if c < 0 {
        -k
    } else {
        0
    }
}

/// The file reached after `k` steps from `s` in direction `d`.
pub open spec fn ray_file(s: int, d: Dir, k: int) -> int {
    file_of(s) + times(k, d.df())
}

/// The rank reached after `k` steps from `s` in direction `d`.
pub open spec fn ray_rank(s: int, d: Dir, k: int) -> int {
    rank_of(s) + times(k, d.dr())
}

/// Whether `k` steps from `s` in direction `d` stay on the board.
pub open spec fn ray_ok(s: int, d: Dir, k: int) -> bool {
    on_board(ray_file(s, d, k), ray_rank(s, d, k))
}

/// The square reached after `k` steps from `s` in direction `d`.
pub open spec fn ray_square(s: int, d: Dir, k: int) -> int {
    square_at(ray_file(s, d, k), ray_rank(s, d, k))
}

/// How many steps in direction `d` lead from `s` to `t`, if `t` lies that way.
pub open spec fn ray_steps(s: int, d: Dir, t: int) -> int {
    if d.df() != 0 {
        times(file_delta(s, t), d.df())
    } else {
        times(rank_delta(s, t), d.dr())
    }
}

/// Whether none of the first `k - 1` squares from `s` in direction `d` is set in `occ`.
pub open spec fn ray_clear(s: int, d: Dir, occ: u64, k: int) -> bool {
    forall|j: int| #![trigger ray_square(s, d, j)] 1 <= j < k ==> !is_set(occ, ray_square(s, d, j))
}

/// Whether `t` lies `k >= 1` steps from `s` in direction `d`, on the board.
pub open spec fn ray_hits(s: int, d: Dir, t: int, k: int) -> bool {
    1 <= k && ray_ok(s, d, k) && t == ray_square(s, d, k)
}

/// Whether a sliding piece on `s` reaches `t` along direction `d` over the occupancy `occ`:
/// `t` lies some `k >= 1` steps away on the board, and the `k - 1` squares before it are
/// empty. The first occupied square is reached; nothing beyond it is.
pub open spec fn on_ray(s: int, d: Dir, occ: u64, t: int) -> bool {
    let k = ray_steps(s, d, t);
    ray_hits(s, d, t, k) && ray_clear(s, d, occ, k)
}

/// Whether a bishop on `s` moves to `t`: along one of the four diagonals, not onto its own
/// side.
pub open spec fn bishop_target(s: int, t: int, own: u64, enemy: u64) -> bool {
    let occ = own | enemy;
    &&& !is_set(own, t)
    &&& {
        ||| on_ray(s, Dir::NorthEast, occ, t)
        ||| on_ray(s, Dir::NorthWest, occ, t)
        ||| on_ray(s, Dir::SouthEast, occ, t)
        ||| on_ray(s, Dir::SouthWest, occ, t)
    }
}

/// Whether a rook on `s` moves to `t`: along its file or its rank, not onto its own side.
pub open spec fn rook_target(s: int, t: int, own: u64, enemy: u64) -> bool {
    let occ = own | enemy;
    &&& !is_set(own, t)
    &&& {
        ||| on_ray(s, Dir::North, occ, t)
        ||| on_ray(s, Dir::South, occ, t)
        ||| on_ray(s, Dir::East, occ, t)
        ||| on_ray(s, Dir::West, occ, t)
    }
}

/// Whether a queen on `s` moves to `t`: as a bishop or as a rook.
pub open spec fn queen_target(s: int, t: int, own: u64, enemy: u64) -> bool {
    bishop_target(s, t, own, enemy) || rook_target(s, t, own, enemy)
}

/// The square `k` steps along a ray is on the board, one more step lands one offset further,
/// and the step count of that square is `k`.
pub proof fn lemma_ray_step(s: int, d: Dir, k: int)
    requires
        0 <= s < 64,
        ray_ok(s, d, k),
    ensures
        0 <= ray_square(s, d, k) < 64,
        can_step(ray_square(s, d, k), d) == ray_ok(s, d, k + 1),
        ray_square(s, d, k + 1) == ray_square(s, d, k) + d.offset(),
        ray_steps(s, d, ray_square(s, d, k)) == k,
{
    lemma_square_split(s);
    lemma_square_coords(ray_file(s, d, k), ray_rank(s, d, k));
}

/// A ray that is on the board after `k` steps was on it after every fewer step, and has at
/// most seven steps.
pub proof fn lemma_ray_convex(s: int, d: Dir, j: int, k: int)
    requires
        0 <= s < 64,
        0 <= j <= k,
        ray_ok(s, d, k),
    ensures
        ray_ok(s, d, j),
        k <= 7,
{
    lemma_square_split(s);
}

/// The moves of a ray are the first `k` squares, once the next step leaves the board.
proof fn lemma_ray_ends_at_edge(s: int, d: Dir, occ: u64, k: int, r: u64)
    requires
        0 <= s < 64,
        0 <= k,
        !ray_ok(s, d, k + 1),
        ray_clear(s, d, occ, k + 1),
        forall|t: int|
            #![trigger is_set(r, t)]
            is_set(r, t) == (ray_hits(s, d, t, ray_steps(s, d, t)) && ray_steps(s, d, t) <= k),
    ensures
        forall|t: int| #![trigger is_set(r, t)] is_set(r, t) == on_ray(s, d, occ, t),
{
    assert forall|t: int| #![trigger is_set(r, t)] is_set(r, t) == on_ray(s, d, occ, t) by {
        let kt = ray_steps(s, d, t);
        if ray_hits(s, d, t, kt) && kt > k {
            lemma_ray_convex(s, d, k + 1, kt);
        }
    }
}

/// The moves of a ray are the first `k` squares, once the `k`-th is occupied.
proof fn lemma_ray_ends_at_blocker(s: int, d: Dir, occ: u64, k: int, r: u64)
    requires
        0 <= s < 64,
        1 <= k,
        is_set(occ, ray_square(s, d, k)),
        ray_clear(s, d, occ, k),
        forall|t: int|
            #![trigger is_set(r, t)]
            is_set(r, t) == (ray_hits(s, d, t, ray_steps(s, d, t)) && ray_steps(s, d, t) <= k),
    ensures
        forall|t: int| #![trigger is_set(r, t)] is_set(r, t) == on_ray(s, d, occ, t),
{
    assert forall|t: int| #![trigger is_set(r, t)] is_set(r, t) == on_ray(s, d, occ, t) by {
        let kt = ray_steps(s, d, t);
        if on_ray(s, d, occ, t) && kt > k {
            assert(!is_set(occ, ray_square(s, d, k)));
        }
    }
}

/// Adding the square `k + 1` steps along the ray to the first `k` gives the first `k + 1`.
proof fn lemma_ray_extend(s: int, d: Dir, k: int, r0: u64, r1: u64, t0: int)
    requires
        0 <= s < 64,
        0 <= k,
        ray_ok(s, d, k + 1),
        t0 == ray_square(s, d, k + 1),
        forall|t: int|
            #![trigger is_set(r0, t)]
            is_set(r0, t) == (ray_hits(s, d, t, ray_steps(s, d, t)) && ray_steps(s, d, t) <= k),
        forall|t: int| #![trigger is_set(r1, t)] is_set(r1, t) == (is_set(r0, t) || t == t0),
    ensures
        forall|t: int|
            #![trigger is_set(r1, t)]
            is_set(r1, t) == (ray_hits(s, d, t, ray_steps(s, d, t)) && ray_steps(s, d, t) <= k
                + 1),
{
    lemma_ray_step(s, d, k + 1);
    assert forall|t: int|
        #![trigger is_set(r1, t)]
        is_set(r1, t) == (ray_hits(s, d, t, ray_steps(s, d, t)) && ray_steps(s, d, t) <= k + 1) by {
        assert(is_set(r0, t) == (ray_hits(s, d, t, ray_steps(s, d, t)) && ray_steps(s, d, t)
            <= k));
    }
}

/// The squares a sliding piece on `s` reaches along direction `d`, up to and including the
/// first square that is set in `occ`.
pub fn ray_moves(s: u64, d: Dir, occ: u64) -> (r: u64)
    requires
        s < 64,
    ensures
        forall|t: int| #![trigger is_set(r, t)] is_set(r, t) == on_ray(s as int, d, occ, t),
{
    let ghost si = s as int;
    let (df, dr): (i64, i64) = match d {
        Dir::North => (0, 1),
        Dir::South => (0, -1),
        Dir::East => (1, 0),
        Dir::West => (-1, 0),
        Dir::NorthEast => (1, 1),
        Dir::NorthWest => (-1, 1),
        Dir::SouthEast => (1, -1),
        Dir::SouthWest => (-1, -1),
    };
    let mut f: i64 = (s % 8) as i64;
    let mut rk: i64 = (s / 8) as i64;
    let mut r: u64 = 0;
    let mut k: i64 = 0;
    loop
        invariant_except_break
            forall|t: int|
                #![trigger is_set(r, t)]
                is_set(r, t) == (ray_hits(si, d, t, ray_steps(si, d, t)) && ray_steps(si, d, t)
                    <= k),
        invariant
            0 <= si < 64,
            df == d.df(),
            dr == d.dr(),
            0 <= k <= 7,
            f == ray_file(si, d, k as int),
            rk == ray_rank(si, d, k as int),
            ray_ok(si, d, k as int),
            ray_clear(si, d, occ, k + 1),
        ensures
            forall|t: int| #![trigger is_set(r, t)] is_set(r, t) == on_ray(si, d, occ, t),
        decreases 7 - k,
    {
        let nf = f + df;
        let nr = rk + dr;
        if nf < 0 || nf >= 8 || nr < 0 || nr >= 8 {
            proof {
                lemma_ray_ends_at_edge(si, d, occ, k as int, r);
            }
            break;
        }
        proof {
            lemma_ray_convex(si, d, k + 1, k + 1);
            lemma_square_coords(nf as int, nr as int);
        }
        let t = (nr * 8 + nf) as u64;
        let bit = 1u64 << t;
        let ghost r0 = r;
        r = r | bit;
        proof {
            assert(t as int == ray_square(si, d, k + 1));
            assert(bit == crate::bits::square_mask(t as int));
            lemma_ray_extend(si, d, k as int, r0, r, t as int);
        }
        if occ & bit != 0 {
            proof {
                crate::bits::lemma_test_square(occ, t as int);
                lemma_ray_ends_at_blocker(si, d, occ, k + 1, r);
            }
            break;
        }
        proof {
            crate::bits::lemma_test_square(occ, t as int);
        }
        f = nf;
        rk = nr;
        k = k + 1;
    }
    r
}

/// A square that lies `m >= 1` steps from `s` in direction `d` lies on no other ray from `s`.
pub proof fn lemma_ray_direction_unique(s: int, d: Dir, e: Dir, occ: u64, m: int)
    requires
        0 <= s < 64,
        1 <= m,
        ray_ok(s, d, m),
        d != e,
    ensures
        !on_ray(s, e, occ, ray_square(s, d, m)),
{
    let t = ray_square(s, d, m);
    if on_ray(s, e, occ, t) {
        let k = ray_steps(s, e, t);
        lemma_square_coords(ray_file(s, d, m), ray_rank(s, d, m));
        lemma_square_coords(ray_file(s, e, k), ray_rank(s, e, k));
        assert(d.df() == e.df() && d.dr() == e.dr());
    }
}

/// The squares a bishop on square `s` may move to.
pub fn bishop_moves(s: u64, own: u64, enemy: u64) -> (r: u64)
    requires
        s < 64,
    ensures
        forall|t: int|
            #![trigger is_set(r, t)]
            is_set(r, t) == bishop_target(s as int, t, own, enemy),
{
    let occ = own | enemy;
    let r = (ray_moves(s, Dir::NorthEast, occ) | ray_moves(s, Dir::NorthWest, occ) | ray_moves(
        s,
        Dir::SouthEast,
        occ,
    ) | ray_moves(s, Dir::SouthWest, occ)) & !own;
    assert forall|t: int|
        #![trigger is_set(r, t)]
        is_set(r, t) == bishop_target(s as int, t, own, enemy) by {
        if !(0 <= t < 64) {
            assert(!on_ray(s as int, Dir::NorthEast, occ, t));
            assert(!on_ray(s as int, Dir::NorthWest, occ, t));
            assert(!on_ray(s as int, Dir::SouthEast, occ, t));
            assert(!on_ray(s as int, Dir::SouthWest, occ, t));
        }
    }
    r
}

/// The squares a rook on square `s` may move to.
pub fn rook_moves(s: u64, own: u64, enemy: u64) -> (r: u64)
    requires
        s < 64,
    ensures
        forall|t: int|
            #![trigger is_set(r, t)]
            is_set(r, t) == rook_target(s as int, t, own, enemy),
{
    let occ = own | enemy;
    let r = (ray_moves(s, Dir::North, occ) | ray_moves(s, Dir::South, occ) | ray_moves(
        s,
        Dir::East,
        occ,
    ) | ray_moves(s, Dir::West, occ)) & !own;
    assert forall|t: int|
        #![trigger is_set(r, t)]
        is_set(r, t) == rook_target(s as int, t, own, enemy) by {
        if !(0 <= t < 64) {
            assert(!on_ray(s as int, Dir::North, occ, t));
            assert(!on_ray(s as int, Dir::South, occ, t));
            assert(!on_ray(s as int, Dir::East, occ, t));
            assert(!on_ray(s as int, Dir::West, occ, t));
        }
    }
    r
}

/// The squares a queen on square `s` may move to.
pub fn queen_moves(s: u64, own: u64, enemy: u64) -> (r: u64)
    requires
        s < 64,
    ensures
        forall|t: int|
            #![trigger is_set(r, t)]
            is_set(r, t) == queen_target(s as int, t, own, enemy),
{
    bishop_moves(s, own, enemy) | rook_moves(s, own, enemy)
}

} // verus!
