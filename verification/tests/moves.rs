use rhchess_engine::board::Board;
use rhchess_engine::board::CastlingRights;
use rhchess_engine::board::Piece;
use rhchess_engine::board::PieceKind;
use rhchess_engine::board::Player;
use rhchess_engine::board::Square;
use rhchess_engine::moves::get_move;
use rhchess_engine::moves::Move;

fn sq(file: u8, rank: u8) -> Square {
    Square::new(file, rank).unwrap()
}

fn empty_board(turn: Player) -> Board {
    Board {
        positions: [None; 64],
        turn,
        castling_rights: CastlingRights {
            white_queen: false,
            white_king: false,
            black_queen: false,
            black_king: false,
        },
        en_passant: None,
        reversible_moves: 0,
        full_moves: 1,
    }
}

fn put(b: &mut Board, file: u8, rank: u8, kind: PieceKind, owner: Player) {
    b.positions[(rank * 8 + file) as usize] = Some(Piece { kind, owner });
}

#[test]
fn empty_square_yields_none() {
    let b = empty_board(Player::White);
    for file in 0..8 {
        for rank in 0..8 {
            assert!(get_move(&b, sq(file, rank)).is_none());
        }
    }
}

#[test]
fn sources_match_queried_square() {
    let mut b = empty_board(Player::White);
    put(&mut b, 3, 3, PieceKind::Queen, Player::White);
    let moves = get_move(&b, sq(3, 3)).unwrap();
    assert!(!moves.is_empty());
    for m in moves {
        match m {
            Move::Step(_, _, s) => assert_eq!(s, sq(3, 3)),
            Move::EnPassant(s) => assert_eq!(s, sq(3, 3)),
            Move::Castle(_) => panic!("a queen cannot castle"),
        }
    }
}

#[test]
fn knight_full_circle() {
    let mut b = empty_board(Player::White);
    put(&mut b, 3, 3, PieceKind::Knight, Player::White);
    let moves = get_move(&b, sq(3, 3)).unwrap();
    let expected = [
        (4, 5),
        (5, 4),
        (5, 2),
        (4, 1),
        (2, 1),
        (1, 2),
        (1, 4),
        (2, 5),
    ];
    assert_eq!(moves.len(), 8);
    for (f, r) in expected {
        assert!(moves.contains(&Move::Step(true, sq(f, r), sq(3, 3))));
    }
}

#[test]
fn knight_corner_and_capture() {
    let mut b = empty_board(Player::White);
    put(&mut b, 0, 0, PieceKind::Knight, Player::White);
    put(&mut b, 1, 2, PieceKind::Pawn, Player::Black);
    put(&mut b, 2, 1, PieceKind::Pawn, Player::White);
    let moves = get_move(&b, sq(0, 0)).unwrap();
    // b3 is a capture, c2 is blocked by an own pawn, everything else is off
    // the board.
    assert_eq!(moves, vec![Move::Step(false, sq(1, 2), sq(0, 0))]);
}

#[test]
fn generators_never_capture_own_pieces() {
    let mut b = empty_board(Player::White);
    put(&mut b, 4, 4, PieceKind::Queen, Player::White);
    put(&mut b, 4, 6, PieceKind::Pawn, Player::White);
    put(&mut b, 2, 2, PieceKind::Knight, Player::White);
    put(&mut b, 4, 0, PieceKind::King, Player::White);
    for src in [sq(4, 4), sq(2, 2), sq(4, 0)] {
        for m in get_move(&b, src).unwrap() {
            if let Move::Step(_, dst, _) = m {
                let occupant = b.get_piece(dst);
                assert!(occupant.is_none() || occupant.unwrap().owner == Player::Black);
            }
        }
    }
}

#[test]
fn rook_stops_at_first_blocker() {
    // A white rook at d4; a black pawn at d7 caps the file: steps up to and
    // including a capture on d7, nothing beyond it.
    let mut b = empty_board(Player::White);
    put(&mut b, 3, 3, PieceKind::Rook, Player::White);
    put(&mut b, 3, 6, PieceKind::Pawn, Player::Black);
    let moves = get_move(&b, sq(3, 3)).unwrap();
    let d4 = sq(3, 3);
    let expected = vec![
        // up the d-file
        Move::Step(true, sq(3, 4), d4),
        Move::Step(true, sq(3, 5), d4),
        Move::Step(false, sq(3, 6), d4),
        // down the d-file
        Move::Step(true, sq(3, 2), d4),
        Move::Step(true, sq(3, 1), d4),
        Move::Step(true, sq(3, 0), d4),
        // toward the a-file
        Move::Step(true, sq(2, 3), d4),
        Move::Step(true, sq(1, 3), d4),
        Move::Step(true, sq(0, 3), d4),
        // toward the h-file
        Move::Step(true, sq(4, 3), d4),
        Move::Step(true, sq(5, 3), d4),
        Move::Step(true, sq(6, 3), d4),
        Move::Step(true, sq(7, 3), d4),
    ];
    assert_eq!(moves.len(), expected.len());
    for m in &expected {
        assert!(moves.contains(m));
    }
    assert!(!moves.contains(&Move::Step(true, sq(3, 7), d4)));
    assert!(!moves.contains(&Move::Step(false, sq(3, 7), d4)));
}

#[test]
fn sliding_own_blocker_yields_nothing_on_its_square() {
    let mut b = empty_board(Player::White);
    put(&mut b, 0, 0, PieceKind::Rook, Player::White);
    put(&mut b, 0, 2, PieceKind::Pawn, Player::White);
    let moves = get_move(&b, sq(0, 0)).unwrap();
    // one step up, then blocked; the whole first rank to the right
    assert_eq!(moves.len(), 8);
    assert!(moves.contains(&Move::Step(true, sq(0, 1), sq(0, 0))));
    assert!(!moves.contains(&Move::Step(true, sq(0, 2), sq(0, 0))));
    assert!(!moves.contains(&Move::Step(false, sq(0, 2), sq(0, 0))));
}

#[test]
fn queen_is_bishop_plus_rook() {
    let mut b = empty_board(Player::White);
    put(&mut b, 0, 0, PieceKind::Queen, Player::White);
    let moves = get_move(&b, sq(0, 0)).unwrap();
    // 7 up, 7 right, 7 along the long diagonal
    assert_eq!(moves.len(), 21);
    assert!(moves.contains(&Move::Step(true, sq(7, 7), sq(0, 0))));
    assert!(moves.contains(&Move::Step(true, sq(7, 0), sq(0, 0))));
    assert!(moves.contains(&Move::Step(true, sq(0, 7), sq(0, 0))));
}

#[test]
fn white_pawn_double_push_from_initial_rank() {
    let mut b = empty_board(Player::White);
    put(&mut b, 4, 1, PieceKind::Pawn, Player::White);
    let moves = get_move(&b, sq(4, 1)).unwrap();
    assert_eq!(moves.len(), 2);
    assert!(moves.contains(&Move::Step(false, sq(4, 2), sq(4, 1))));
    assert!(moves.contains(&Move::Step(false, sq(4, 3), sq(4, 1))));
}

#[test]
fn black_pawn_double_push_from_initial_rank() {
    // A black pawn on e7 with e6 and e5 empty: both pushes, as irreversible
    // steps.
    let mut b = empty_board(Player::Black);
    put(&mut b, 4, 6, PieceKind::Pawn, Player::Black);
    let moves = get_move(&b, sq(4, 6)).unwrap();
    assert_eq!(moves.len(), 2);
    assert!(moves.contains(&Move::Step(false, sq(4, 5), sq(4, 6))));
    assert!(moves.contains(&Move::Step(false, sq(4, 4), sq(4, 6))));
}

#[test]
fn blocked_pawn_has_no_push_at_all() {
    let mut b = empty_board(Player::White);
    put(&mut b, 4, 1, PieceKind::Pawn, Player::White);
    put(&mut b, 4, 2, PieceKind::Knight, Player::Black);
    let moves = get_move(&b, sq(4, 1)).unwrap();
    assert!(moves.is_empty());
}

#[test]
fn pawn_double_square_blocked_leaves_single_push() {
    let mut b = empty_board(Player::White);
    put(&mut b, 4, 1, PieceKind::Pawn, Player::White);
    put(&mut b, 4, 3, PieceKind::Knight, Player::Black);
    let moves = get_move(&b, sq(4, 1)).unwrap();
    assert_eq!(moves, vec![Move::Step(false, sq(4, 2), sq(4, 1))]);
}

#[test]
fn pawn_diagonal_captures_only_opponents() {
    let mut b = empty_board(Player::White);
    put(&mut b, 4, 3, PieceKind::Pawn, Player::White);
    put(&mut b, 3, 4, PieceKind::Pawn, Player::Black);
    put(&mut b, 5, 4, PieceKind::Pawn, Player::White);
    put(&mut b, 4, 4, PieceKind::Pawn, Player::Black);
    let moves = get_move(&b, sq(4, 3)).unwrap();
    // forward is blocked, d5 is a capture, f5 is an own piece
    assert_eq!(moves, vec![Move::Step(false, sq(3, 4), sq(4, 3))]);
}

#[test]
fn en_passant_for_adjacent_pawn_only() {
    let mut b = empty_board(Player::White);
    put(&mut b, 4, 4, PieceKind::Pawn, Player::White);
    put(&mut b, 6, 4, PieceKind::Pawn, Player::White);
    b.en_passant = Some(sq(3, 4));
    let adjacent = get_move(&b, sq(4, 4)).unwrap();
    assert!(adjacent.contains(&Move::EnPassant(sq(4, 4))));
    let distant = get_move(&b, sq(6, 4)).unwrap();
    assert!(!distant.iter().any(|m| matches!(m, Move::EnPassant(_))));
}

#[test]
fn king_steps_and_both_castles() {
    // White king on e1, both flags set, b1 through g1 empty: every adjacent
    // step plus both castles.
    let mut b = empty_board(Player::White);
    put(&mut b, 4, 0, PieceKind::King, Player::White);
    b.castling_rights.white_king = true;
    b.castling_rights.white_queen = true;
    let moves = get_move(&b, sq(4, 0)).unwrap();
    assert!(moves.contains(&Move::Castle(true)));
    assert!(moves.contains(&Move::Castle(false)));
    for (f, r) in [(3, 0), (5, 0), (3, 1), (4, 1), (5, 1)] {
        assert!(moves.contains(&Move::Step(true, sq(f, r), sq(4, 0))));
    }
    assert_eq!(moves.len(), 7);
}

#[test]
fn castle_needs_flag_and_empty_squares() {
    let mut b = empty_board(Player::White);
    put(&mut b, 4, 0, PieceKind::King, Player::White);
    // no flags: no castle at all
    let moves = get_move(&b, sq(4, 0)).unwrap();
    assert!(!moves.iter().any(|m| matches!(m, Move::Castle(_))));
    // flags set but f1 occupied: queenside only
    b.castling_rights.white_king = true;
    b.castling_rights.white_queen = true;
    put(&mut b, 5, 0, PieceKind::Bishop, Player::White);
    let moves = get_move(&b, sq(4, 0)).unwrap();
    assert!(!moves.contains(&Move::Castle(true)));
    assert!(moves.contains(&Move::Castle(false)));
}

#[test]
fn black_castling_uses_black_flags() {
    let mut b = empty_board(Player::Black);
    put(&mut b, 4, 7, PieceKind::King, Player::Black);
    b.castling_rights.black_king = true;
    let moves = get_move(&b, sq(4, 7)).unwrap();
    assert!(moves.contains(&Move::Castle(true)));
    assert!(!moves.contains(&Move::Castle(false)));
}

#[test]
fn captures_are_decided_against_the_side_to_move() {
    // The dispatcher enumerates for either side's piece, but occupancy
    // decisions compare against the board's turn.
    let mut b = empty_board(Player::White);
    put(&mut b, 0, 0, PieceKind::Rook, Player::Black);
    put(&mut b, 0, 3, PieceKind::Pawn, Player::Black);
    let moves = get_move(&b, sq(0, 0)).unwrap();
    // with White to move, the black pawn counts as a capturable opponent
    assert!(moves.contains(&Move::Step(false, sq(0, 3), sq(0, 0))));
}

#[test]
fn square_new_bounds() {
    assert_eq!(Square::new(0, 0), Some(Square { file: 0, rank: 0 }));
    assert_eq!(Square::new(7, 7), Some(Square { file: 7, rank: 7 }));
    assert_eq!(Square::new(8, 0), None);
    assert_eq!(Square::new(0, 8), None);
    assert_eq!(Square::new(255, 255), None);
}

#[test]
fn translate_subtracts_and_checks_bounds() {
    let e4 = sq(4, 3);
    assert_eq!(e4.translate(1, 2), Some(sq(3, 1)));
    assert_eq!(e4.translate(-3, -4), Some(sq(7, 7)));
    assert_eq!(e4.translate(5, 0), None);
    assert_eq!(e4.translate(-4, 0), None);
    assert_eq!(e4.translate(0, 4), None);
    assert_eq!(e4.translate(i32::MIN, 0), None);
    assert_eq!(e4.translate(0, i32::MAX), None);
}

#[test]
fn text_renders_algebraic_notation() {
    assert_eq!(sq(4, 3).text(), "e4");
    assert_eq!(sq(0, 0).text(), "a1");
    assert_eq!(sq(7, 7).text(), "h8");
    assert_eq!(sq(3, 6).text(), "d7");
}

#[test]
fn get_piece_reads_the_expected_slot() {
    let mut b = empty_board(Player::White);
    put(&mut b, 2, 5, PieceKind::Bishop, Player::Black);
    assert_eq!(
        b.get_piece(sq(2, 5)),
        Some(Piece { kind: PieceKind::Bishop, owner: Player::Black })
    );
    assert_eq!(b.get_piece(sq(5, 2)), None);
}
