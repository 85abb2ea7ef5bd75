//! The move generators: one pure function per piece kind, dispatched by the
//! occupant's kind, each reading the board and yielding candidate moves.

use vstd::prelude::*;

use crate::board::Board;
use crate::board::Piece;
use crate::board::PieceKind;
use crate::board::Player;
use crate::board::Square;

verus! {

broadcast use vstd::seq_lib::lemma_seq_contains_after_push;

/// A candidate move. Moves are plain values; applying one to a board is an
/// external concern.
#[derive(Debug, Clone, Copy, PartialEq, Eq, Structural)]
pub enum Move {
    /// Castle toward the king side when true, the queen side when false, for
    /// the side to move.
    Castle(bool),
    /// An en-passant capture by the pawn at the given source square; the
    /// destination is implied by the board's en-passant target.
    EnPassant(Square),
    /// An ordinary move or capture: whether the move keeps the fifty-move
    /// counter running, then destination, then source.
    Step(bool, Square, Square),
}

/// The square at the given coordinates.
pub open spec fn sq(file: int, rank: int) -> Square {
    Square { rank: rank as u8, file: file as u8 }
}

/// Both coordinates lie on the board.
pub open spec fn on_board(file: int, rank: int) -> bool {
    0 <= file < 8 && 0 <= rank < 8
}

/// The occupant of the square at `(file, rank)`.
pub open spec fn occupant(b: Board, file: int, rank: int) -> Option<Piece> {
    b.spec_get_piece(sq(file, rank))
}

/// The square at `(file, rank)` is empty.
pub open spec fn empty_at(b: Board, file: int, rank: int) -> bool {
    occupant(b, file, rank) is None
}

/// The square at `(file, rank)` holds a piece of the side opposite to the
/// side to move (every generator decides captures against `b.turn`).
pub open spec fn opponent_at(b: Board, file: int, rank: int) -> bool {
    match occupant(b, file, rank) {
        Some(p) => p.owner != b.turn,
        None => false,
    }
}

/// The ordinary step from `src` onto the in-bounds square `dst`, decided by
/// occupancy: a reversible step onto an empty square, an irreversible capture
/// onto an opponent-held square, nothing onto an own-held square.
pub open spec fn step_move_onto(b: Board, src: Square, dst: Square) -> Option<Move> {
    if empty_at(b, dst.file as int, dst.rank as int) {
        Some(Move::Step(true, dst, src))
    } else if opponent_at(b, dst.file as int, dst.rank as int) {
        Some(Move::Step(false, dst, src))
    } else {
        None
    }
}

/// `m` is the step from `src` onto the in-bounds square `dst`.
pub open spec fn step_onto(b: Board, src: Square, dst: Square, m: Move) -> bool {
    step_move_onto(b, src, dst) == Some(m)
}

/// Pushing a fresh element keeps a sequence free of duplicates.
proof fn lemma_push_no_dup(s: Seq<Move>, x: Move)
    requires
        s.no_duplicates(),
        !s.contains(x),
    ensures
        s.push(x).no_duplicates(),
{
    let t = s.push(x);
    assert forall|i: int, j: int|
        0 <= i < t.len() && 0 <= j < t.len() && i != j implies t[i] != t[j] by {
        if i < s.len() && j < s.len() {
        } else if i < s.len() {
            if t[i] == x {
                assert(s[i] == x);
                assert(s.contains(x));
            }
        } else {
            if t[j] == x {
                assert(s[j] == x);
                assert(s.contains(x));
            }
        }
    }
}

/// The absolute difference of two coordinates.
pub open spec fn dist(a: u8, b: u8) -> int {
    if a >= b { a - b } else { b - a }
}

/// `dst` is one knight's jump away from `src`.
pub open spec fn knight_jump(src: Square, dst: Square) -> bool {
    (dist(src.file, dst.file) == 1 && dist(src.rank, dst.rank) == 2)
    || (dist(src.file, dst.file) == 2 && dist(src.rank, dst.rank) == 1)
}

/// `m` is a pseudo-legal knight move from `src`.
pub open spec fn knight_move_ok(b: Board, src: Square, m: Move) -> bool {
    match m {
        Move::Step(_, dst, s) => s == src && dst.wf() && knight_jump(src, dst)
            && step_onto(b, src, dst, m),
        _ => false,
    }
}

/// Classifies the candidate destination by occupancy and appends the step
/// move onto it, if there is one.
fn push_step(board: &Board, src: Square, dst: Square, moves: &mut Vec<Move>)
    requires
        dst.wf(),
    ensures
        forall|m: Move| final(moves)@.contains(m) <==> (old(moves)@.contains(m) || step_onto(
            *board,
            src,
            dst,
            m,
        )),
        (old(moves)@.no_duplicates() && (forall|m: Move|
            old(moves)@.contains(m) ==> !step_onto(*board, src, dst, m)))
            ==> final(moves)@.no_duplicates(),
{
    match board.get_piece(dst) {
        None => {
            moves.push(Move::Step(true, dst, src));
            proof {
                let mv = Move::Step(true, dst, src);
                if old(moves)@.no_duplicates() && (forall|m: Move|
                    old(moves)@.contains(m) ==> !step_onto(*board, src, dst, m)) {
                    assert(step_onto(*board, src, dst, mv));
                    lemma_push_no_dup(old(moves)@, mv);
                }
            }
        },
        Some(p) => {
            if p.owner != board.turn {
                moves.push(Move::Step(false, dst, src));
                proof {
                    let mv = Move::Step(false, dst, src);
                    if old(moves)@.no_duplicates() && (forall|m: Move|
                        old(moves)@.contains(m) ==> !step_onto(*board, src, dst, m)) {
                        assert(step_onto(*board, src, dst, mv));
                        lemma_push_no_dup(old(moves)@, mv);
                    }
                }
            }
        },
    }
}

/// All pseudo-legal knight moves from `src`: the eight L-shaped jumps that
/// stay on the board, filtered by occupancy.
fn knight(board: &Board, src: Square) -> (res: Vec<Move>)
    requires
        src.wf(),
    ensures
        forall|m: Move| res@.contains(m) <==> knight_move_ok(*board, src, m),
        res@.no_duplicates(),
{
    let mut res: Vec<Move> = Vec::new();
    if let Some(d) = src.translate(-1, 2) {
        push_step(board, src, d, &mut res);
    }
    if let Some(d) = src.translate(-2, 1) {
        push_step(board, src, d, &mut res);
    }
    if let Some(d) = src.translate(-2, -1) {
        push_step(board, src, d, &mut res);
    }
    if let Some(d) = src.translate(-1, -2) {
        push_step(board, src, d, &mut res);
    }
    if let Some(d) = src.translate(1, -2) {
        push_step(board, src, d, &mut res);
    }
    if let Some(d) = src.translate(2, -1) {
        push_step(board, src, d, &mut res);
    }
    if let Some(d) = src.translate(2, 1) {
        push_step(board, src, d, &mut res);
    }
    if let Some(d) = src.translate(1, 2) {
        push_step(board, src, d, &mut res);
    }
    res
}

/// `k` scaled by a direction component `d` drawn from `{-1, 0, 1}`.
pub open spec fn times_dir(k: int, d: int) -> int {
    if d == 1 {
        k
    } else if d == -1 {
        -k
    } else {
        0
    }
}

/// The file of the ray square `k` steps from `src` in direction `(dx, dy)`.
pub open spec fn ray_file(src: Square, dx: int, k: int) -> int {
    src.file + times_dir(k, dx)
}

/// The rank of the ray square `k` steps from `src` in direction `(dx, dy)`.
pub open spec fn ray_rank(src: Square, dy: int, k: int) -> int {
    src.rank + times_dir(k, dy)
}

/// `m` steps `src` onto the ray square at distance `k` in direction
/// `(dx, dy)`: that square is on the board, every strictly nearer ray square
/// is empty, and occupancy decides the step as usual.
pub open spec fn ray_move_at(b: Board, src: Square, dx: int, dy: int, k: int, m: Move) -> bool {
    1 <= k < 8
    && on_board(ray_file(src, dx, k), ray_rank(src, dy, k))
    && (forall|j: int| 1 <= j < k ==> empty_at(b, ray_file(src, dx, j), ray_rank(src, dy, j)))
    && step_onto(b, src, sq(ray_file(src, dx, k), ray_rank(src, dy, k)), m)
}

/// `m` is a move along the ray from `src` in direction `(dx, dy)`.
pub open spec fn ray_move_ok(b: Board, src: Square, dx: int, dy: int, m: Move) -> bool {
    exists|k: int| ray_move_at(b, src, dx, dy, k, m)
}

/// `m` is a pseudo-legal bishop move: a ray move along one of the four
/// diagonal directions.
pub open spec fn bishop_move_ok(b: Board, src: Square, m: Move) -> bool {
    ||| ray_move_ok(b, src, 1, 1, m)
    ||| ray_move_ok(b, src, 1, -1, m)
    ||| ray_move_ok(b, src, -1, 1, m)
    ||| ray_move_ok(b, src, -1, -1, m)
}

/// `m` is a pseudo-legal rook move: a ray move along one of the four
/// orthogonal directions.
pub open spec fn rook_move_ok(b: Board, src: Square, m: Move) -> bool {
    ||| ray_move_ok(b, src, 1, 0, m)
    ||| ray_move_ok(b, src, -1, 0, m)
    ||| ray_move_ok(b, src, 0, 1, m)
    ||| ray_move_ok(b, src, 0, -1, m)
}

/// `m` is a pseudo-legal queen move: a bishop move or a rook move.
pub open spec fn queen_move_ok(b: Board, src: Square, m: Move) -> bool {
    bishop_move_ok(b, src, m) || rook_move_ok(b, src, m)
}

/// A move lies on the ray of at most one direction: its destination fixes
/// both the direction and the distance.
proof fn lemma_ray_dir_unique(
    b: Board,
    src: Square,
    dx1: int,
    dy1: int,
    dx2: int,
    dy2: int,
    m: Move,
)
    requires
        -1 <= dx1 <= 1,
        -1 <= dy1 <= 1,
        !(dx1 == 0 && dy1 == 0),
        -1 <= dx2 <= 1,
        -1 <= dy2 <= 1,
        !(dx2 == 0 && dy2 == 0),
        !(dx1 == dx2 && dy1 == dy2),
        ray_move_ok(b, src, dx1, dy1, m),
    ensures
        !ray_move_ok(b, src, dx2, dy2, m),
{
    let k1 = choose|k: int| ray_move_at(b, src, dx1, dy1, k, m);
    if ray_move_ok(b, src, dx2, dy2, m) {
        let k2 = choose|k: int| ray_move_at(b, src, dx2, dy2, k, m);
        let d1 = sq(ray_file(src, dx1, k1), ray_rank(src, dy1, k1));
        let d2 = sq(ray_file(src, dx2, k2), ray_rank(src, dy2, k2));
        assert(d1 == d2);
        assert(ray_file(src, dx1, k1) == ray_file(src, dx2, k2));
        assert(ray_rank(src, dy1, k1) == ray_rank(src, dy2, k2));
        assert(false);
    }
}

/// Bishop moves and rook moves from one square never coincide.
proof fn lemma_bishop_rook_disjoint(b: Board, src: Square, m: Move)
    requires
        bishop_move_ok(b, src, m),
    ensures
        !rook_move_ok(b, src, m),
{
    if ray_move_ok(b, src, 1, 1, m) {
        lemma_ray_dir_unique(b, src, 1, 1, 1, 0, m);
        lemma_ray_dir_unique(b, src, 1, 1, -1, 0, m);
        lemma_ray_dir_unique(b, src, 1, 1, 0, 1, m);
        lemma_ray_dir_unique(b, src, 1, 1, 0, -1, m);
    }
    if ray_move_ok(b, src, 1, -1, m) {
        lemma_ray_dir_unique(b, src, 1, -1, 1, 0, m);
        lemma_ray_dir_unique(b, src, 1, -1, -1, 0, m);
        lemma_ray_dir_unique(b, src, 1, -1, 0, 1, m);
        lemma_ray_dir_unique(b, src, 1, -1, 0, -1, m);
    }
    if ray_move_ok(b, src, -1, 1, m) {
        lemma_ray_dir_unique(b, src, -1, 1, 1, 0, m);
        lemma_ray_dir_unique(b, src, -1, 1, -1, 0, m);
        lemma_ray_dir_unique(b, src, -1, 1, 0, 1, m);
        lemma_ray_dir_unique(b, src, -1, 1, 0, -1, m);
    }
    if ray_move_ok(b, src, -1, -1, m) {
        lemma_ray_dir_unique(b, src, -1, -1, 1, 0, m);
        lemma_ray_dir_unique(b, src, -1, -1, -1, 0, m);
        lemma_ray_dir_unique(b, src, -1, -1, 0, 1, m);
        lemma_ray_dir_unique(b, src, -1, -1, 0, -1, m);
    }
}

/// Appends every move along the ray from `src` in direction `(dx, dy)`:
/// walks outward square by square, emitting reversible steps over empty
/// squares, and stops at the board edge or at the first occupied square,
/// which yields one capture when opponent-held.
fn ray_moves(board: &Board, src: Square, dx: i32, dy: i32, moves: &mut Vec<Move>)
    requires
        src.wf(),
        -1 <= dx <= 1,
        -1 <= dy <= 1,
        !(dx == 0 && dy == 0),
    ensures
        forall|m: Move| final(moves)@.contains(m) <==> (old(moves)@.contains(m) || ray_move_ok(
            *board,
            src,
            dx as int,
            dy as int,
            m,
        )),
        (old(moves)@.no_duplicates() && (forall|m: Move|
            old(moves)@.contains(m) ==> !ray_move_ok(*board, src, dx as int, dy as int, m)))
            ==> final(moves)@.no_duplicates(),
{
    let mut k: usize = 0;
    let mut cur: Square = src;
    while k < 7
        invariant
            src.wf(),
            cur.wf(),
            -1 <= dx <= 1,
            -1 <= dy <= 1,
            !(dx == 0 && dy == 0),
            0 <= k <= 7,
            cur.file == ray_file(src, dx as int, k as int),
            cur.rank == ray_rank(src, dy as int, k as int),
            forall|j: int| 1 <= j <= k ==> on_board(
                ray_file(src, dx as int, j),
                ray_rank(src, dy as int, j),
            ) && empty_at(*board, ray_file(src, dx as int, j), ray_rank(src, dy as int, j)),
            forall|m: Move| moves@.contains(m) <==> (old(moves)@.contains(m) || exists|j: int|
                1 <= j <= k && ray_move_at(*board, src, dx as int, dy as int, j, m)),
            (old(moves)@.no_duplicates() && (forall|m: Move|
                old(moves)@.contains(m) ==> !ray_move_ok(*board, src, dx as int, dy as int, m)))
                ==> moves@.no_duplicates(),
        decreases 7 - k,
    {
        match cur.translate(0 - dx, 0 - dy) {
            None => {
                proof {
                    assert forall|j: int| #![trigger times_dir(j, dx as int)] k + 1 <= j < 8
                        implies !on_board(ray_file(src, dx as int, j), ray_rank(src, dy as int, j))
                    by {
                        assert(!on_board(
                            ray_file(src, dx as int, (k + 1) as int),
                            ray_rank(src, dy as int, (k + 1) as int),
                        ));
                    }
                }
                return ;
            },
            Some(next) => {
                match board.get_piece(next) {
                    None => {
                        let ghost pre = moves@;
                        moves.push(Move::Step(true, next, src));
                        proof {
                            let mv = Move::Step(true, next, src);
                            assert(ray_move_at(*board, src, dx as int, dy as int, k + 1, mv));
                            if old(moves)@.no_duplicates() && (forall|m: Move|
                                old(moves)@.contains(m) ==> !ray_move_ok(
                                    *board,
                                    src,
                                    dx as int,
                                    dy as int,
                                    m,
                                )) {
                                assert(ray_move_ok(*board, src, dx as int, dy as int, mv));
                                assert forall|j: int| 1 <= j <= k implies !ray_move_at(
                                    *board,
                                    src,
                                    dx as int,
                                    dy as int,
                                    j,
                                    mv,
                                ) by {
                                    if ray_move_at(*board, src, dx as int, dy as int, j, mv) {
                                        assert(next.file as int == ray_file(src, dx as int, j));
                                        assert(next.rank as int == ray_rank(src, dy as int, j));
                                        assert(false);
                                    }
                                }
                                assert(!pre.contains(mv));
                                lemma_push_no_dup(pre, mv);
                            }
                        }
                        cur = next;
                        k = k + 1;
                    },
                    Some(p) => {
                        if p.owner != board.turn {
                            let ghost pre = moves@;
                            moves.push(Move::Step(false, next, src));
                            proof {
                                let mv = Move::Step(false, next, src);
                                assert(ray_move_at(*board, src, dx as int, dy as int, k + 1, mv));
                                if old(moves)@.no_duplicates() && (forall|m: Move|
                                    old(moves)@.contains(m) ==> !ray_move_ok(
                                        *board,
                                        src,
                                        dx as int,
                                        dy as int,
                                        m,
                                    )) {
                                    assert(ray_move_ok(*board, src, dx as int, dy as int, mv));
                                    assert forall|j: int| 1 <= j <= k implies !ray_move_at(
                                        *board,
                                        src,
                                        dx as int,
                                        dy as int,
                                        j,
                                        mv,
                                    ) by {
                                        if ray_move_at(*board, src, dx as int, dy as int, j, mv) {
                                            assert(next.file as int == ray_file(
                                                src,
                                                dx as int,
                                                j,
                                            ));
                                            assert(next.rank as int == ray_rank(
                                                src,
                                                dy as int,
                                                j,
                                            ));
                                            assert(false);
                                        }
                                    }
                                    assert(!pre.contains(mv));
                                    lemma_push_no_dup(pre, mv);
                                }
                            }
                        }
                        proof {
                            assert forall|j: int, m: Move| k + 2 <= j < 8 implies !ray_move_at(
                                *board,
                                src,
                                dx as int,
                                dy as int,
                                j,
                                m,
                            ) by {
                                assert(!empty_at(
                                    *board,
                                    ray_file(src, dx as int, (k + 1) as int),
                                    ray_rank(src, dy as int, (k + 1) as int),
                                ));
                            }
                        }
                        return ;
                    },
                }
            },
        }
    }
}

/// All pseudo-legal bishop moves from `src`.
fn bishop(board: &Board, src: Square) -> (res: Vec<Move>)
    requires
        src.wf(),
    ensures
        forall|m: Move| res@.contains(m) <==> bishop_move_ok(*board, src, m),
        res@.no_duplicates(),
{
    let mut res: Vec<Move> = Vec::new();
    ray_moves(board, src, 1, 1, &mut res);
    proof {
        assert forall|m: Move| res@.contains(m) implies !ray_move_ok(*board, src, 1, -1, m) by {
            if ray_move_ok(*board, src, 1, 1, m) {
                lemma_ray_dir_unique(*board, src, 1, 1, 1, -1, m);
            }
        }
    }
    ray_moves(board, src, 1, -1, &mut res);
    proof {
        assert forall|m: Move| res@.contains(m) implies !ray_move_ok(*board, src, -1, 1, m) by {
            if ray_move_ok(*board, src, 1, 1, m) {
                lemma_ray_dir_unique(*board, src, 1, 1, -1, 1, m);
            }
            if ray_move_ok(*board, src, 1, -1, m) {
                lemma_ray_dir_unique(*board, src, 1, -1, -1, 1, m);
            }
        }
    }
    ray_moves(board, src, -1, 1, &mut res);
    proof {
        assert forall|m: Move| res@.contains(m) implies !ray_move_ok(*board, src, -1, -1, m) by {
            if ray_move_ok(*board, src, 1, 1, m) {
                lemma_ray_dir_unique(*board, src, 1, 1, -1, -1, m);
            }
            if ray_move_ok(*board, src, 1, -1, m) {
                lemma_ray_dir_unique(*board, src, 1, -1, -1, -1, m);
            }
            if ray_move_ok(*board, src, -1, 1, m) {
                lemma_ray_dir_unique(*board, src, -1, 1, -1, -1, m);
            }
        }
    }
    ray_moves(board, src, -1, -1, &mut res);
    res
}

/// All pseudo-legal rook moves from `src`.
fn rook(board: &Board, src: Square) -> (res: Vec<Move>)
    requires
        src.wf(),
    ensures
        forall|m: Move| res@.contains(m) <==> rook_move_ok(*board, src, m),
        res@.no_duplicates(),
{
    let mut res: Vec<Move> = Vec::new();
    ray_moves(board, src, 1, 0, &mut res);
    proof {
        assert forall|m: Move| res@.contains(m) implies !ray_move_ok(*board, src, -1, 0, m) by {
            if ray_move_ok(*board, src, 1, 0, m) {
                lemma_ray_dir_unique(*board, src, 1, 0, -1, 0, m);
            }
        }
    }
    ray_moves(board, src, -1, 0, &mut res);
    proof {
        assert forall|m: Move| res@.contains(m) implies !ray_move_ok(*board, src, 0, 1, m) by {
            if ray_move_ok(*board, src, 1, 0, m) {
                lemma_ray_dir_unique(*board, src, 1, 0, 0, 1, m);
            }
            if ray_move_ok(*board, src, -1, 0, m) {
                lemma_ray_dir_unique(*board, src, -1, 0, 0, 1, m);
            }
        }
    }
    ray_moves(board, src, 0, 1, &mut res);
    proof {
        assert forall|m: Move| res@.contains(m) implies !ray_move_ok(*board, src, 0, -1, m) by {
            if ray_move_ok(*board, src, 1, 0, m) {
                lemma_ray_dir_unique(*board, src, 1, 0, 0, -1, m);
            }
            if ray_move_ok(*board, src, -1, 0, m) {
                lemma_ray_dir_unique(*board, src, -1, 0, 0, -1, m);
            }
            if ray_move_ok(*board, src, 0, 1, m) {
                lemma_ray_dir_unique(*board, src, 0, 1, 0, -1, m);
            }
        }
    }
    ray_moves(board, src, 0, -1, &mut res);
    res
}

/// All pseudo-legal queen moves from `src`: the bishop moves followed by the
/// rook moves.
fn queen(board: &Board, src: Square) -> (res: Vec<Move>)
    requires
        src.wf(),
    ensures
        forall|m: Move| res@.contains(m) <==> queen_move_ok(*board, src, m),
        res@.no_duplicates(),
{
    let mut res = bishop(board, src);
    let mut r = rook(board, src);
    let ghost bmoves = res@;
    let ghost rmoves = r@;
    res.append(&mut r);
    proof {
        assert forall|i: int, j: int|
            0 <= i < bmoves.len() && 0 <= j < rmoves.len() implies bmoves[i] != rmoves[j] by {
            let m = bmoves[i];
            assert(bmoves.contains(m));
            if bmoves[i] == rmoves[j] {
                assert(rmoves.contains(m));
                lemma_bishop_rook_disjoint(*board, src, m);
            }
        }
        vstd::seq_lib::lemma_no_dup_in_concat(bmoves, rmoves);
        assert forall|m: Move| res@.contains(m) implies (bishop_move_ok(*board, src, m)
            || rook_move_ok(*board, src, m)) by {
            let i = choose|i: int| 0 <= i < res@.len() && res@[i] == m;
            if i < bmoves.len() {
                assert(bmoves[i] == m);
            } else {
                assert(rmoves[i - bmoves.len()] == m);
            }
        }
        assert forall|m: Move| (bishop_move_ok(*board, src, m) || rook_move_ok(*board, src, m))
            implies res@.contains(m) by {
            if bmoves.contains(m) {
                let i = choose|i: int| 0 <= i < bmoves.len() && bmoves[i] == m;
                assert(res@[i] == m);
            } else {
                let i = choose|i: int| 0 <= i < rmoves.len() && rmoves[i] == m;
                assert(res@[bmoves.len() + i] == m);
            }
        }
    }
    res
}

/// The rank a pawn of `p` starts on.
pub open spec fn pawn_init_rank(p: Player) -> int {
    if p == Player::White {
        1
    } else {
        6
    }
}

/// The rank direction a pawn of `p` advances in: White climbs the ranks,
/// Black descends them.
pub open spec fn pawn_dir(p: Player) -> int {
    if p == Player::White {
        1
    } else {
        -1
    }
}

/// `dst` is a forward push of the pawn at `src`: one step ahead onto an empty
/// square, or — from the initial rank, with the square one step ahead also
/// empty — two steps ahead onto an empty square.
pub open spec fn pawn_push_ok(b: Board, src: Square, dst: Square) -> bool {
    dst.file == src.file && empty_at(b, dst.file as int, dst.rank as int) && (dst.rank == src.rank
        + pawn_dir(b.turn) || (src.rank == pawn_init_rank(b.turn) && dst.rank == src.rank + 2
        * pawn_dir(b.turn) && empty_at(b, src.file as int, src.rank + pawn_dir(b.turn))))
}

/// `dst` is a diagonal pawn capture from `src`: one step ahead, one file to
/// either side, onto an opponent-held square.
pub open spec fn pawn_capture_ok(b: Board, src: Square, dst: Square) -> bool {
    dist(src.file, dst.file) == 1 && dst.rank == src.rank + pawn_dir(b.turn) && opponent_at(
        b,
        dst.file as int,
        dst.rank as int,
    )
}

/// `src` sits beside the board's recorded en-passant target: same rank, file
/// one apart.
pub open spec fn en_passant_adjacent(b: Board, src: Square) -> bool {
    match b.en_passant {
        Some(t) => t.rank == src.rank && dist(t.file, src.file) == 1,
        None => false,
    }
}

/// `m` is a pseudo-legal pawn move from `src`. Every pawn step is
/// irreversible; a push onto the last rank is an ordinary step, promotion
/// being left to a collaborator.
pub open spec fn pawn_move_ok(b: Board, src: Square, m: Move) -> bool {
    match m {
        Move::Step(rev, dst, s) => s == src && rev == false && dst.wf() && (pawn_push_ok(
            b,
            src,
            dst,
        ) || pawn_capture_ok(b, src, dst)),
        Move::EnPassant(s) => s == src && en_passant_adjacent(b, src),
        Move::Castle(_) => false,
    }
}

/// All pseudo-legal pawn moves from `src`: forward pushes, diagonal captures
/// and the en-passant capture.
#[verifier::rlimit(50)]
fn pawn(board: &Board, src: Square) -> (res: Vec<Move>)
    requires
        src.wf(),
    ensures
        forall|m: Move| res@.contains(m) <==> pawn_move_ok(*board, src, m),
        res@.no_duplicates(),
{
    let (init_rank, dir): (u8, i32) = match board.turn {
        Player::White => (1u8, 1i32),
        Player::Black => (6u8, -1i32),
    };
    let mut res: Vec<Move> = Vec::new();
    if let Some(one) = src.translate(0, 0 - dir) {
        if board.get_piece(one).is_none() {
            res.push(Move::Step(false, one, src));
            if src.rank == init_rank {
                if let Some(two) = src.translate(0, 0 - 2 * dir) {
                    if board.get_piece(two).is_none() {
                        let ghost pre = res@;
                        res.push(Move::Step(false, two, src));
                        proof {
                            assert(two.rank != one.rank);
                            lemma_push_no_dup(pre, Move::Step(false, two, src));
                        }
                    }
                }
            }
        }
    }
    if let Some(d) = src.translate(-1, 0 - dir) {
        if let Some(p) = board.get_piece(d) {
            if p.owner != board.turn {
                let ghost pre = res@;
                res.push(Move::Step(false, d, src));
                proof {
                    assert(d.file != src.file);
                    lemma_push_no_dup(pre, Move::Step(false, d, src));
                }
            }
        }
    }
    if let Some(d) = src.translate(1, 0 - dir) {
        if let Some(p) = board.get_piece(d) {
            if p.owner != board.turn {
                let ghost pre = res@;
                res.push(Move::Step(false, d, src));
                proof {
                    assert(d.file != src.file && d.file < src.file);
                    lemma_push_no_dup(pre, Move::Step(false, d, src));
                }
            }
        }
    }
    if let Some(t) = board.en_passant {
        if t.rank == src.rank && (if t.file >= src.file {
            t.file - src.file == 1
        } else {
            src.file - t.file == 1
        }) {
            let ghost pre = res@;
            res.push(Move::EnPassant(src));
            proof {
                lemma_push_no_dup(pre, Move::EnPassant(src));
            }
        }
    }
    res
}

/// `dst` is one king's step from `src`: at most one file and one rank away,
/// and not `src` itself.
pub open spec fn king_adjacent(src: Square, dst: Square) -> bool {
    dist(src.file, dst.file) <= 1 && dist(src.rank, dst.rank) <= 1 && dst != src
}

/// The kingside castling flag of the side to move.
pub open spec fn kingside_flag(b: Board) -> bool {
    if b.turn == Player::White {
        b.castling_rights.white_king
    } else {
        b.castling_rights.black_king
    }
}

/// The queenside castling flag of the side to move.
pub open spec fn queenside_flag(b: Board) -> bool {
    if b.turn == Player::White {
        b.castling_rights.white_queen
    } else {
        b.castling_rights.black_queen
    }
}

/// Kingside castling is generated from `src`: the flag of the side to move is
/// set and the two squares toward the kingside rook — rising files — are on
/// the board and empty. Only occupancy is checked; whether the king's path is
/// safe is a legality filter's concern, outside this crate.
pub open spec fn kingside_castle_ok(b: Board, src: Square) -> bool {
    kingside_flag(b) && src.file + 2 < 8 && empty_at(b, src.file + 1, src.rank as int) && empty_at(
        b,
        src.file + 2,
        src.rank as int,
    )
}

/// Queenside castling is generated from `src`: the flag of the side to move
/// is set and the three squares toward the queenside rook — falling files —
/// are on the board and empty.
pub open spec fn queenside_castle_ok(b: Board, src: Square) -> bool {
    queenside_flag(b) && src.file >= 3 && empty_at(b, src.file - 1, src.rank as int) && empty_at(
        b,
        src.file - 2,
        src.rank as int,
    ) && empty_at(b, src.file - 3, src.rank as int)
}

/// `m` is a pseudo-legal king move from `src`: a step onto an adjacent
/// square, or an available castle.
pub open spec fn king_move_ok(b: Board, src: Square, m: Move) -> bool {
    match m {
        Move::Step(_, dst, s) => s == src && dst.wf() && king_adjacent(src, dst) && step_onto(
            b,
            src,
            dst,
            m,
        ),
        Move::Castle(kingside) => if kingside {
            kingside_castle_ok(b, src)
        } else {
            queenside_castle_ok(b, src)
        },
        Move::EnPassant(_) => false,
    }
}

/// All pseudo-legal king moves from `src`: the adjacent steps, then whichever
/// castles are available.
fn king(board: &Board, src: Square) -> (res: Vec<Move>)
    requires
        src.wf(),
    ensures
        forall|m: Move| res@.contains(m) <==> king_move_ok(*board, src, m),
        res@.no_duplicates(),
{
    let mut res: Vec<Move> = Vec::new();
    if let Some(d) = src.translate(1, 0) {
        push_step(board, src, d, &mut res);
    }
    if let Some(d) = src.translate(-1, 0) {
        push_step(board, src, d, &mut res);
    }
    if let Some(d) = src.translate(1, 1) {
        push_step(board, src, d, &mut res);
    }
    if let Some(d) = src.translate(1, -1) {
        push_step(board, src, d, &mut res);
    }
    if let Some(d) = src.translate(0, -1) {
        push_step(board, src, d, &mut res);
    }
    if let Some(d) = src.translate(0, 1) {
        push_step(board, src, d, &mut res);
    }
    if let Some(d) = src.translate(-1, 1) {
        push_step(board, src, d, &mut res);
    }
    if let Some(d) = src.translate(-1, -1) {
        push_step(board, src, d, &mut res);
    }
    let kingside = match board.turn {
        Player::White => board.castling_rights.white_king,
        Player::Black => board.castling_rights.black_king,
    };
    let queenside = match board.turn {
        Player::White => board.castling_rights.white_queen,
        Player::Black => board.castling_rights.black_queen,
    };
    if kingside {
        if let Some(f2) = src.translate(-2, 0) {
            if let Some(f1) = src.translate(-1, 0) {
                if board.get_piece(f1).is_none() && board.get_piece(f2).is_none() {
                    let ghost pre = res@;
                    res.push(Move::Castle(true));
                    proof {
                        assert(!pre.contains(Move::Castle(true)));
                        lemma_push_no_dup(pre, Move::Castle(true));
                    }
                }
            }
        }
    }
    if queenside {
        if let Some(f3) = src.translate(3, 0) {
            if let Some(f1) = src.translate(1, 0) {
                if let Some(f2) = src.translate(2, 0) {
                    if board.get_piece(f1).is_none() && board.get_piece(f2).is_none()
                        && board.get_piece(f3).is_none() {
                        let ghost pre = res@;
                        res.push(Move::Castle(false));
                        proof {
                            assert(!pre.contains(Move::Castle(false)));
                            lemma_push_no_dup(pre, Move::Castle(false));
                        }
                    }
                }
            }
        }
    }
    res
}

/// `m` is a pseudo-legal move of a piece of kind `kind` standing at `src`.
pub open spec fn move_ok_for_kind(b: Board, src: Square, kind: PieceKind, m: Move) -> bool {
    match kind {
        PieceKind::Pawn => pawn_move_ok(b, src, m),
        PieceKind::Rook => rook_move_ok(b, src, m),
        PieceKind::Knight => knight_move_ok(b, src, m),
        PieceKind::Bishop => bishop_move_ok(b, src, m),
        PieceKind::Queen => queen_move_ok(b, src, m),
        PieceKind::King => king_move_ok(b, src, m),
    }
}

/// `m` is a pseudo-legal move of the occupant of `src`; an empty square has
/// none.
pub open spec fn move_ok(b: Board, src: Square, m: Move) -> bool {
    match b.spec_get_piece(src) {
        Some(p) => move_ok_for_kind(b, src, p.kind, m),
        None => false,
    }
}

/// The candidate moves of the piece at `src`: `None` exactly when the square
/// is empty — a valid outcome, not an error — and otherwise the pseudo-legal
/// moves of the occupant's kind. The dispatcher does not filter by the side
/// to move; the generators decide captures against `board.turn`.
pub fn get_move(board: &Board, src: Square) -> (r: Option<Vec<Move>>)
    requires
        src.wf(),
    ensures
        r is Some <==> board.spec_get_piece(src) is Some,
        r matches Some(moves) ==> (forall|m: Move| moves@.contains(m) <==> move_ok(
            *board,
            src,
            m,
        )) && moves@.no_duplicates(),
{
    match board.get_piece(src) {
        None => None,
        Some(p) => Some(
            match p.kind {
                PieceKind::Pawn => pawn(board, src),
                PieceKind::Rook => rook(board, src),
                PieceKind::Knight => knight(board, src),
                PieceKind::Bishop => bishop(board, src),
                PieceKind::Queen => queen(board, src),
                PieceKind::King => king(board, src),
            },
        ),
    }
}

/// Only an occupied square has moves, and every generated `Step` or
/// `EnPassant` names the queried square as its source.
pub proof fn lemma_move_source(b: Board, src: Square, m: Move)
    requires
        move_ok(b, src, m),
    ensures
        b.spec_get_piece(src) is Some,
        m matches Move::Step(_, _, s) ==> s == src,
        m matches Move::EnPassant(s) ==> s == src,
{
}

/// No generated step ever lands on a piece of the moving side: its
/// destination is empty or holds an opponent piece.
pub proof fn lemma_no_own_capture(b: Board, src: Square, m: Move, rev: bool, dst: Square)
    requires
        move_ok(b, src, m),
        m == Move::Step(rev, dst, src),
    ensures
        occupant(b, dst.file as int, dst.rank as int) matches Some(p) ==> p.owner != b.turn,
{
}

/// A ray yields nothing strictly beyond an occupied square: once the ray
/// square at distance `j` is occupied, no move exists at any greater
/// distance.
pub proof fn lemma_ray_stops_at_blocker(
    b: Board,
    src: Square,
    dx: int,
    dy: int,
    j: int,
    k: int,
    m: Move,
)
    requires
        1 <= j < k,
        !empty_at(b, ray_file(src, dx, j), ray_rank(src, dy, j)),
    ensures
        !ray_move_at(b, src, dx, dy, k, m),
{
}

/// An occupied ray square that does yield a move is opponent-held, and the
/// one move onto it is the capturing step.
pub proof fn lemma_ray_blocking_square(b: Board, src: Square, dx: int, dy: int, k: int, m: Move)
    requires
        ray_move_at(b, src, dx, dy, k, m),
        !empty_at(b, ray_file(src, dx, k), ray_rank(src, dy, k)),
    ensures
        opponent_at(b, ray_file(src, dx, k), ray_rank(src, dy, k)),
        m == Move::Step(false, sq(ray_file(src, dx, k), ray_rank(src, dy, k)), src),
{
}

/// On its initial rank with both squares ahead empty, a pawn has both the
/// single and the double push.
pub proof fn lemma_pawn_double_push(b: Board, src: Square)
    requires
        src.wf(),
        src.rank == pawn_init_rank(b.turn),
        empty_at(b, src.file as int, src.rank + pawn_dir(b.turn)),
        empty_at(b, src.file as int, src.rank + 2 * pawn_dir(b.turn)),
    ensures
        pawn_move_ok(
            b,
            src,
            Move::Step(false, sq(src.file as int, src.rank + pawn_dir(b.turn)), src),
        ),
        pawn_move_ok(
            b,
            src,
            Move::Step(false, sq(src.file as int, src.rank + 2 * pawn_dir(b.turn)), src),
        ),
{
}

/// With the square directly ahead occupied, a pawn has no forward push at
/// all, whatever stands two squares ahead.
pub proof fn lemma_pawn_push_blocked(b: Board, src: Square, dst: Square)
    requires
        !empty_at(b, src.file as int, src.rank + pawn_dir(b.turn)),
        dst.file == src.file,
    ensures
        !pawn_move_ok(b, src, Move::Step(false, dst, src)),
{
}

/// A pawn beside the recorded en-passant target always has the en-passant
/// move; a pawn not beside it never does.
pub proof fn lemma_en_passant_iff(b: Board, src: Square)
    ensures
        pawn_move_ok(b, src, Move::EnPassant(src)) <==> en_passant_adjacent(b, src),
{
}

/// Each castle is a king move exactly when its flag is set and the squares
/// between king and rook are empty.
pub proof fn lemma_castling_iff(b: Board, src: Square)
    ensures
        king_move_ok(b, src, Move::Castle(true)) <==> kingside_castle_ok(b, src),
        king_move_ok(b, src, Move::Castle(false)) <==> queenside_castle_ok(b, src),
{
}

} // verus!
