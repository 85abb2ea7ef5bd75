//! The textual position parser behind [`crate::board::Board::new`].
//!
//! A position description holds six space-separated fields: piece placement
//! (ranks 8 down to 1, `/`-separated, letters for pieces and digits for runs
//! of empty squares), side to move (`w` or `b`), castling availability (`-`
//! or letters from `KQkq`), en-passant target (`-` or a square label), and
//! the two move counters. [`fen_fields`] states the grammar; [`parse`] is
//! proved to follow it exactly.

use vstd::prelude::*;
use vstd::string::StrSliceExecFns;

use crate::board::Board;
use crate::board::CastlingRights;
use crate::board::Piece;
use crate::board::PieceKind;
use crate::board::Player;
use crate::board::Square;

verus! {

/// Why a position description failed to parse.
#[derive(Debug, Clone, Copy, PartialEq, Eq, Structural)]
pub enum Error {
    /// The description does not split into the six expected fields.
    Structure,
    /// The piece-placement field is malformed.
    Placement,
    /// The side-to-move field is neither `w` nor `b`.
    Turn,
    /// The castling field holds a character outside `KQkq` and is not `-`.
    Castling,
    /// The en-passant field is neither `-` nor a square label.
    EnPassant,
    /// A move counter is empty, non-numeric, or too large.
    Counter,
}

/// The piece a placement letter stands for: upper case White, lower case
/// Black.
pub open spec fn piece_of_char(c: char) -> Option<Piece> {
    if c == 'P' {
        Some(Piece { kind: PieceKind::Pawn, owner: Player::White })
    } else if c == 'N' {
        Some(Piece { kind: PieceKind::Knight, owner: Player::White })
    } else if c == 'B' {
        Some(Piece { kind: PieceKind::Bishop, owner: Player::White })
    } else if c == 'R' {
        Some(Piece { kind: PieceKind::Rook, owner: Player::White })
    } else if c == 'Q' {
        Some(Piece { kind: PieceKind::Queen, owner: Player::White })
    } else if c == 'K' {
        Some(Piece { kind: PieceKind::King, owner: Player::White })
    } else if c == 'p' {
        Some(Piece { kind: PieceKind::Pawn, owner: Player::Black })
    } else if c == 'n' {
        Some(Piece { kind: PieceKind::Knight, owner: Player::Black })
    } else if c == 'b' {
        Some(Piece { kind: PieceKind::Bishop, owner: Player::Black })
    } else if c == 'r' {
        Some(Piece { kind: PieceKind::Rook, owner: Player::Black })
    } else if c == 'q' {
        Some(Piece { kind: PieceKind::Queen, owner: Player::Black })
    } else if c == 'k' {
        Some(Piece { kind: PieceKind::King, owner: Player::Black })
    } else {
        None
    }
}

/// A digit from `1` to `8`, by code point.
pub open spec fn is_skip_digit(c: char) -> bool {
    49 <= c as int <= 56
}

/// Walks the placement field with a cursor at `(file, rank)`, filling `acc`:
/// a letter places its piece and advances one file, a digit skips that many
/// files, `/` closes a full rank and opens the one below. The walk succeeds
/// when the input ends with the first rank just completed.
pub open spec fn place_rec(
    s: Seq<char>,
    file: int,
    rank: int,
    acc: Seq<Option<Piece>>,
) -> Option<Seq<Option<Piece>>>
    decreases s.len(),
{
    if s.len() == 0 {
        if file == 8 && rank == 0 {
            Some(acc)
        } else {
            None
        }
    } else {
        let c = s[0];
        if c == '/' {
            if file == 8 && rank >= 1 {
                place_rec(s.subrange(1, s.len() as int), 0, rank - 1, acc)
            } else {
                None
            }
        } else if is_skip_digit(c) {
            if file + (c as int - 48) <= 8 {
                place_rec(s.subrange(1, s.len() as int), file + (c as int - 48), rank, acc)
            } else {
                None
            }
        } else {
            match piece_of_char(c) {
                Some(p) => if file < 8 {
                    place_rec(
                        s.subrange(1, s.len() as int),
                        file + 1,
                        rank,
                        acc.update(rank * 8 + file, Some(p)),
                    )
                } else {
                    None
                },
                None => None,
            }
        }
    }
}

/// The placement a placement field describes, over an initially empty board.
pub open spec fn placement_of(s: Seq<char>) -> Option<Seq<Option<Piece>>> {
    place_rec(s, 0, 7, Seq::new(64, |i: int| None::<Piece>))
}

/// The side to move a turn field describes.
pub open spec fn turn_of(s: Seq<char>) -> Option<Player> {
    if s.len() == 1 && s[0] == 'w' {
        Some(Player::White)
    } else if s.len() == 1 && s[0] == 'b' {
        Some(Player::Black)
    } else {
        None
    }
}

/// A castling-availability letter.
pub open spec fn is_castle_char(c: char) -> bool {
    c == 'K' || c == 'Q' || c == 'k' || c == 'q'
}

/// The castling rights a castling field describes: `-` clears every flag;
/// otherwise each letter present sets its flag.
pub open spec fn castling_of(s: Seq<char>) -> Option<CastlingRights> {
    if s.len() == 1 && s[0] == '-' {
        Some(
            CastlingRights {
                white_queen: false,
                white_king: false,
                black_queen: false,
                black_king: false,
            },
        )
    } else if s.len() >= 1 && (forall|i: int| 0 <= i < s.len() ==> is_castle_char(s[i])) {
        Some(
            CastlingRights {
                white_queen: s.contains('Q'),
                white_king: s.contains('K'),
                black_queen: s.contains('q'),
                black_king: s.contains('k'),
            },
        )
    } else {
        None
    }
}

/// The en-passant target an en-passant field describes: `-` for none, else a
/// file letter `a` to `h` followed by a rank digit `1` to `8`.
pub open spec fn ep_of(s: Seq<char>) -> Option<Option<Square>> {
    if s.len() == 1 && s[0] == '-' {
        Some(None)
    } else if s.len() == 2 && 97 <= s[0] as int <= 104 && 49 <= s[1] as int <= 56 {
        Some(Some(Square { rank: (s[1] as int - 49) as u8, file: (s[0] as int - 97) as u8 }))
    } else {
        None
    }
}

/// A decimal digit, by code point.
pub open spec fn is_digit(c: char) -> bool {
    48 <= c as int <= 57
}

/// Every character is a decimal digit.
pub open spec fn all_digits(s: Seq<char>) -> bool {
    forall|i: int| 0 <= i < s.len() ==> is_digit(s[i])
}

/// The value of a string of decimal digits.
pub open spec fn dec_val(s: Seq<char>) -> int
    decreases s.len(),
{
    if s.len() == 0 {
        0
    } else {
        dec_val(s.drop_last()) * 10 + (s.last() as int - 48)
    }
}

/// The counter a counter field describes: one or more digits whose value
/// fits the counter's width.
pub open spec fn counter_of(s: Seq<char>) -> Option<u16> {
    if s.len() >= 1 && all_digits(s) && dec_val(s) <= 65535 {
        Some(dec_val(s) as u16)
    } else {
        None
    }
}

/// A digit string's value is never negative.
pub proof fn lemma_dec_val_nonneg(s: Seq<char>)
    requires
        all_digits(s),
    ensures
        dec_val(s) >= 0,
    decreases s.len(),
{
    if s.len() > 0 {
        assert(all_digits(s.drop_last()));
        lemma_dec_val_nonneg(s.drop_last());
    }
}

/// The position of the first space at or after `i`, or the end of the input.
pub open spec fn token_end(s: Seq<char>, i: int) -> int
    decreases s.len() - i,
    when 0 <= i <= s.len()
{
    if i == s.len() || s[i] == ' ' {
        i
    } else {
        token_end(s, i + 1)
    }
}

/// What a position description denotes: either the six parsed fields —
/// placement, side to move, castling rights, en-passant target and the two
/// counters — or the error of the first field that fails, structure errors
/// first.
pub open spec fn fen_fields(s: Seq<char>) -> Result<
    (Seq<Option<Piece>>, Player, CastlingRights, Option<Square>, u16, u16),
    Error,
> {
    let e0 = token_end(s, 0);
    if e0 == s.len() {
        Err(Error::Structure)
    } else {
        let e1 = token_end(s, e0 + 1);
        if e1 == s.len() {
            Err(Error::Structure)
        } else {
            let e2 = token_end(s, e1 + 1);
            if e2 == s.len() {
                Err(Error::Structure)
            } else {
                let e3 = token_end(s, e2 + 1);
                if e3 == s.len() {
                    Err(Error::Structure)
                } else {
                    let e4 = token_end(s, e3 + 1);
                    if e4 == s.len() {
                        Err(Error::Structure)
                    } else {
                        let e5 = token_end(s, e4 + 1);
                        if e5 != s.len() {
                            Err(Error::Structure)
                        } else {
                            match placement_of(s.subrange(0, e0)) {
                                None => Err(Error::Placement),
                                Some(pos) => match turn_of(s.subrange(e0 + 1, e1)) {
                                    None => Err(Error::Turn),
                                    Some(turn) => match castling_of(s.subrange(e1 + 1, e2)) {
                                        None => Err(Error::Castling),
                                        Some(cr) => match ep_of(s.subrange(e2 + 1, e3)) {
                                            None => Err(Error::EnPassant),
                                            Some(ep) => match counter_of(s.subrange(e3 + 1, e4)) {
                                                None => Err(Error::Counter),
                                                Some(rev) => match counter_of(
                                                    s.subrange(e4 + 1, e5),
                                                ) {
                                                    None => Err(Error::Counter),
                                                    Some(full) => Ok(
                                                        (pos, turn, cr, ep, rev, full),
                                                    ),
                                                },
                                            },
                                        },
                                    },
                                },
                            }
                        }
                    }
                }
            }
        }
    }
}

/// Finds the first space at or after `start`.
fn token_end_exec(s: &str, start: usize) -> (e: usize)
    requires
        start <= s@.len(),
    ensures
        e == token_end(s@, start as int),
        start <= e <= s@.len(),
{
    let n = s.unicode_len();
    let mut i = start;
    while i < n
        invariant
            start <= i <= n,
            n == s@.len(),
            token_end(s@, start as int) == token_end(s@, i as int),
        decreases n - i,
    {
        if s.get_char(i) == ' ' {
            return i;
        }
        i = i + 1;
    }
    i
}

/// Parses the side-to-move field.
fn parse_turn(t: &str) -> (r: Result<Player, Error>)
    ensures
        r == (match turn_of(t@) {
            Some(p) => Ok::<Player, Error>(p),
            None => Err(Error::Turn),
        }),
{
    if t.unicode_len() == 1 {
        let c = t.get_char(0);
        if c == 'w' {
            Ok(Player::White)
        } else if c == 'b' {
            Ok(Player::Black)
        } else {
            Err(Error::Turn)
        }
    } else {
        Err(Error::Turn)
    }
}

/// Parses the castling field.
fn parse_castling(t: &str) -> (r: Result<CastlingRights, Error>)
    ensures
        r == (match castling_of(t@) {
            Some(c) => Ok::<CastlingRights, Error>(c),
            None => Err(Error::Castling),
        }),
{
    let n = t.unicode_len();
    if n == 1 {
        let c0 = t.get_char(0);
        if c0 == '-' {
            return Ok(
                CastlingRights {
                    white_queen: false,
                    white_king: false,
                    black_queen: false,
                    black_king: false,
                },
            );
        }
    }
    if n == 0 {
        return Err(Error::Castling);
    }
    let mut wq = false;
    let mut wk = false;
    let mut bq = false;
    let mut bk = false;
    let mut i: usize = 0;
    while i < n
        invariant
            0 <= i <= n,
            n == t@.len(),
            n == 1 ==> t@[0] != '-',
            forall|j: int| 0 <= j < i ==> is_castle_char(t@[j]),
            wk <==> (exists|j: int| 0 <= j < i && t@[j] == 'K'),
            wq <==> (exists|j: int| 0 <= j < i && t@[j] == 'Q'),
            bk <==> (exists|j: int| 0 <= j < i && t@[j] == 'k'),
            bq <==> (exists|j: int| 0 <= j < i && t@[j] == 'q'),
        decreases n - i,
    {
        let c = t.get_char(i);
        if c == 'K' {
            wk = true;
        } else if c == 'Q' {
            wq = true;
        } else if c == 'k' {
            bk = true;
        } else if c == 'q' {
            bq = true;
        } else {
            proof {
                assert(!is_castle_char(t@[i as int]));
            }
            return Err(Error::Castling);
        }
        i = i + 1;
    }
    Ok(CastlingRights { white_queen: wq, white_king: wk, black_queen: bq, black_king: bk })
}

/// Parses the en-passant field.
fn parse_ep(t: &str) -> (r: Result<Option<Square>, Error>)
    ensures
        r == (match ep_of(t@) {
            Some(x) => Ok::<Option<Square>, Error>(x),
            None => Err(Error::EnPassant),
        }),
{
    let n = t.unicode_len();
    if n == 1 {
        let c0 = t.get_char(0);
        if c0 == '-' {
            return Ok(None);
        }
    }
    if n != 2 {
        return Err(Error::EnPassant);
    }
    let f = t.get_char(0) as u32;
    let rk = t.get_char(1) as u32;
    if 97 <= f && f <= 104 && 49 <= rk && rk <= 56 {
        Ok(Some(Square { rank: (rk - 49) as u8, file: (f - 97) as u8 }))
    } else {
        Err(Error::EnPassant)
    }
}

/// Parses a move-counter field.
fn parse_counter(t: &str) -> (r: Result<u16, Error>)
    ensures
        r == (match counter_of(t@) {
            Some(v) => Ok::<u16, Error>(v),
            None => Err(Error::Counter),
        }),
{
    let n = t.unicode_len();
    if n == 0 {
        return Err(Error::Counter);
    }
    let mut acc: u32 = 0;
    let mut i: usize = 0;
    while i < n
        invariant
            0 <= i <= n,
            n == t@.len(),
            all_digits(t@.subrange(0, i as int)),
            dec_val(t@.subrange(0, i as int)) <= 65535 ==> acc == dec_val(
                t@.subrange(0, i as int),
            ),
            dec_val(t@.subrange(0, i as int)) > 65535 ==> acc == 65536,
            acc <= 65536,
        decreases n - i,
    {
        let c = t.get_char(i);
        let cv = c as u32;
        if cv < 48 || cv > 57 {
            return Err(Error::Counter);
        }
        proof {
            lemma_dec_val_nonneg(t@.subrange(0, i as int));
            assert(t@.subrange(0, i as int + 1).drop_last() =~= t@.subrange(0, i as int));
            assert(all_digits(t@.subrange(0, i as int + 1)));
        }
        let nv = acc * 10 + (cv - 48);
        acc = if nv > 65535 {
            65536
        } else {
            nv
        };
        i = i + 1;
    }
    proof {
        assert(t@.subrange(0, n as int) =~= t@);
        lemma_dec_val_nonneg(t@);
    }
    if acc <= 65535 {
        Ok(acc as u16)
    } else {
        Err(Error::Counter)
    }
}

/// Parses the piece-placement field.
fn parse_placement(t: &str) -> (r: Result<[Option<Piece>; 64], Error>)
    ensures
        (r matches Ok(arr) ==> placement_of(t@) == Some(arr@)),
        (r matches Err(e) ==> placement_of(t@) is None && e == Error::Placement),
{
    let n = t.unicode_len();
    let mut arr: [Option<Piece>; 64] = [None;64];
    let mut file: u8 = 0;
    let mut rank: u8 = 7;
    let mut i: usize = 0;
    proof {
        assert(arr@ =~= Seq::new(64, |k: int| None::<Piece>));
        assert(t@.subrange(0, n as int) =~= t@);
    }
    while i < n
        invariant
            0 <= i <= n,
            n == t@.len(),
            file <= 8,
            rank <= 7,
            placement_of(t@) == place_rec(
                t@.subrange(i as int, n as int),
                file as int,
                rank as int,
                arr@,
            ),
        decreases n - i,
    {
        let ghost pre = t@.subrange(i as int, n as int);
        proof {
            assert(pre.subrange(1, pre.len() as int) =~= t@.subrange(i as int + 1, n as int));
            assert(pre[0] == t@[i as int]);
        }
        let c = t.get_char(i);
        if c == '/' {
            if file == 8 && rank >= 1 {
                rank = rank - 1;
                file = 0;
                i = i + 1;
            } else {
                return Err(Error::Placement);
            }
        } else {
            let cv = c as u32;
            if 49 <= cv && cv <= 56 {
                let d = (cv - 48) as u8;
                if file + d <= 8 {
                    file = file + d;
                    i = i + 1;
                } else {
                    return Err(Error::Placement);
                }
            } else {
                let p: Option<Piece> = if c == 'P' {
                    Some(Piece { kind: PieceKind::Pawn, owner: Player::White })
                } else if c == 'N' {
                    Some(Piece { kind: PieceKind::Knight, owner: Player::White })
                } else if c == 'B' {
                    Some(Piece { kind: PieceKind::Bishop, owner: Player::White })
                } else if c == 'R' {
                    Some(Piece { kind: PieceKind::Rook, owner: Player::White })
                } else if c == 'Q' {
                    Some(Piece { kind: PieceKind::Queen, owner: Player::White })
                } else if c == 'K' {
                    Some(Piece { kind: PieceKind::King, owner: Player::White })
                } else if c == 'p' {
                    Some(Piece { kind: PieceKind::Pawn, owner: Player::Black })
                } else if c == 'n' {
                    Some(Piece { kind: PieceKind::Knight, owner: Player::Black })
                } else if c == 'b' {
                    Some(Piece { kind: PieceKind::Bishop, owner: Player::Black })
                } else if c == 'r' {
                    Some(Piece { kind: PieceKind::Rook, owner: Player::Black })
                } else if c == 'q' {
                    Some(Piece { kind: PieceKind::Queen, owner: Player::Black })
                } else if c == 'k' {
                    Some(Piece { kind: PieceKind::King, owner: Player::Black })
                } else {
                    None
                };
                match p {
                    Some(piece) => {
                        if file < 8 {
                            arr[(rank * 8 + file) as usize] = Some(piece);
                            file = file + 1;
                            i = i + 1;
                        } else {
                            return Err(Error::Placement);
                        }
                    },
                    None => {
                        return Err(Error::Placement);
                    },
                }
            }
        }
    }
    proof {
        assert(t@.subrange(n as int, n as int) =~= Seq::<char>::empty());
    }
    if file == 8 && rank == 0 {
        Ok(arr)
    } else {
        Err(Error::Placement)
    }
}

/// Parses a whole position description, following [`fen_fields`] exactly: six
/// space-separated fields, each handed to its field parser, the first failure
/// deciding the error.
pub fn parse(s: &str) -> (r: Result<Board, Error>)
    ensures
        (r matches Ok(b) ==> fen_fields(s@) == Ok::<_, Error>(
            (b.positions@, b.turn, b.castling_rights, b.en_passant, b.reversible_moves,
            b.full_moves),
        )),
        (r matches Err(e) ==> fen_fields(s@) matches Err(e2) && e2 == e),
{
    let n = s.unicode_len();
    let e0 = token_end_exec(s, 0);
    if e0 == n {
        return Err(Error::Structure);
    }
    let e1 = token_end_exec(s, e0 + 1);
    if e1 == n {
        return Err(Error::Structure);
    }
    let e2 = token_end_exec(s, e1 + 1);
    if e2 == n {
        return Err(Error::Structure);
    }
    let e3 = token_end_exec(s, e2 + 1);
    if e3 == n {
        return Err(Error::Structure);
    }
    let e4 = token_end_exec(s, e3 + 1);
    if e4 == n {
        return Err(Error::Structure);
    }
    let e5 = token_end_exec(s, e4 + 1);
    if e5 != n {
        return Err(Error::Structure);
    }
    let positions = match parse_placement(s.substring_char(0, e0)) {
        Ok(a) => a,
        Err(e) => {
            return Err(e);
        },
    };
    let turn = match parse_turn(s.substring_char(e0 + 1, e1)) {
        Ok(p) => p,
        Err(e) => {
            return Err(e);
        },
    };
    let castling_rights = match parse_castling(s.substring_char(e1 + 1, e2)) {
        Ok(c) => c,
        Err(e) => {
            return Err(e);
        },
    };
    let en_passant = match parse_ep(s.substring_char(e2 + 1, e3)) {
        Ok(x) => x,
        Err(e) => {
            return Err(e);
        },
    };
    let reversible_moves = match parse_counter(s.substring_char(e3 + 1, e4)) {
        Ok(v) => v,
        Err(e) => {
            return Err(e);
        },
    };
    let full_moves = match parse_counter(s.substring_char(e4 + 1, e5)) {
        Ok(v) => v,
        Err(e) => {
            return Err(e);
        },
    };
    Ok(Board { positions, turn, castling_rights, en_passant, reversible_moves, full_moves })
}

} // verus!
