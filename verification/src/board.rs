//! The position model: squares, pieces and the board snapshot, together with
//! the one occupancy query every move generator depends on.

use vstd::prelude::*;
use vstd::string::StrSliceExecFns;
use vstd::string::StringExecFns;

verus! {

/// The kind of a chess piece.
#[derive(Debug, Clone, Copy, PartialEq, Eq, Structural)]
pub enum PieceKind {
    Pawn,
    Rook,
    Knight,
    Bishop,
    Queen,
    King,
}

/// The two players.
#[derive(Debug, Clone, Copy, PartialEq, Eq, Structural)]
pub enum Player {
    White,
    Black,
}

/// A piece: what it is and who owns it.
#[derive(Debug, Clone, Copy, PartialEq, Eq, Structural)]
pub struct Piece {
    pub kind: PieceKind,
    pub owner: Player,
}

/// A board coordinate, 0-indexed from the a-file / first rank.
///
/// The intended invariant is [`Square::wf`]: both components strictly below 8.
/// [`Square::new`] and [`Square::translate`] only ever build such squares.
#[derive(Debug, Clone, Copy, PartialEq, Eq, Structural)]
pub struct Square {
    pub rank: u8,
    pub file: u8,
}

impl Square {
    /// Both coordinates are on the board.
    pub open spec fn wf(self) -> bool {
        self.file < 8 && self.rank < 8
    }

    /// The square at `(file, rank)`, or `None` when either coordinate is off
    /// the board.
    pub fn new(file: u8, rank: u8) -> (r: Option<Square>)
        ensures
            r == (if file < 8 && rank < 8 {
                Some(Square { rank, file })
            } else {
                None::<Square>
            }),
    {
        if file < 8 && rank < 8 {
            Some(Square { rank, file })
        } else {
            None
        }
    }

    /// What [`Square::translate`] returns: the square at
    /// `(self.file - file, self.rank - rank)` when that stays on the board.
    pub open spec fn spec_translate(self, file: int, rank: int) -> Option<Square> {
        if 0 <= self.file - file < 8 && 0 <= self.rank - rank < 8 {
            Some(Square { rank: (self.rank - rank) as u8, file: (self.file - file) as u8 })
        } else {
            None
        }
    }

    /// The file letter of `file`: `a` for 0 up to `h` for 7.
    pub open spec fn file_char(file: int) -> char {
        if file == 0 {
            'a'
        } else if file == 1 {
            'b'
        } else if file == 2 {
            'c'
        } else if file == 3 {
            'd'
        } else if file == 4 {
            'e'
        } else if file == 5 {
            'f'
        } else if file == 6 {
            'g'
        } else {
            'h'
        }
    }

    /// The digit of `rank + 1`: `1` for rank 0 up to `8` for rank 7.
    pub open spec fn rank_char(rank: int) -> char {
        if rank == 0 {
            '1'
        } else if rank == 1 {
            '2'
        } else if rank == 2 {
            '3'
        } else if rank == 3 {
            '4'
        } else if rank == 4 {
            '5'
        } else if rank == 5 {
            '6'
        } else if rank == 6 {
            '7'
        } else {
            '8'
        }
    }

    /// The square's algebraic notation: its file letter followed by its rank
    /// number.
    pub fn text(&self) -> (r: String)
        requires
            self.wf(),
        ensures
            r@ =~= seq![
                Square::file_char(self.file as int),
                Square::rank_char(self.rank as int),
            ],
    {
        let files: &str = "abcdefgh";
        let ranks: &str = "12345678";
        proof {
            reveal_strlit("abcdefgh");
            reveal_strlit("12345678");
        }
        let mut out = String::from_str(
            files.substring_char(self.file as usize, self.file as usize + 1),
        );
        out.append(ranks.substring_char(self.rank as usize, self.rank as usize + 1));
        out
    }

    /// Moves the square by the given vector, under a subtraction convention:
    /// the result sits at `(self.file - file, self.rank - rank)`. Out of
    /// bounds, underflow included, yields `None`.
    pub fn translate(self, file: i32, rank: i32) -> (r: Option<Square>)
        ensures
            r == self.spec_translate(file as int, rank as int),
    {
        let f: i64 = self.file as i64 - file as i64;
        let rk: i64 = self.rank as i64 - rank as i64;
        if 0 <= f && f < 8 && 0 <= rk && rk < 8 {
            Some(Square { rank: rk as u8, file: f as u8 })
        } else {
            None
        }
    }
}

/// The four castling flags. A set flag records only that the corresponding
/// king and rook have not moved in prior play; whether the squares between
/// them are currently empty is checked at generation time.
#[derive(Debug, Clone, Copy, PartialEq, Eq, Structural)]
pub struct CastlingRights {
    pub white_queen: bool,
    pub white_king: bool,
    pub black_queen: bool,
    pub black_king: bool,
}

/// A position snapshot. Move generation reads a board and never mutates it.
#[derive(Debug, Clone, PartialEq, Eq)]
pub struct Board {
    /// The piece placement: one slot per square, indexed by `rank * 8 + file`.
    pub positions: [Option<Piece>; 64],
    /// The side to move.
    pub turn: Player,
    /// Castling availability for both sides.
    pub castling_rights: CastlingRights,
    /// The square skipped by the immediately preceding double pawn push, if
    /// any.
    pub en_passant: Option<Square>,
    /// Moves since the last capture or pawn move.
    pub reversible_moves: u16,
    /// The move number.
    pub full_moves: u16,
}

/// The supported textual position notations.
#[derive(Debug, Clone, Copy, PartialEq, Eq, Structural)]
pub enum BoardStringKind {
    Fen,
}

/// Why a board could not be built from a position description.
#[derive(Debug, Clone, Copy, PartialEq, Eq, Structural)]
pub enum Error {
    /// The description failed to parse; the underlying parse failure is
    /// passed on unaltered.
    FenError(crate::fen::Error),
}

impl Board {
    /// Builds a board from a position description in the given notation, or
    /// surfaces the parse failure unaltered.
    pub fn new(s: &str, kind: &BoardStringKind) -> (r: Result<Board, Error>)
        ensures
            (r matches Ok(b) ==> crate::fen::fen_fields(s@) matches Ok(t) && t == (
                b.positions@,
                b.turn,
                b.castling_rights,
                b.en_passant,
                b.reversible_moves,
                b.full_moves,
            )),
            (r matches Err(e) ==> e matches Error::FenError(fe) && crate::fen::fen_fields(s@)
                matches Err(fe2) && fe2 == fe),
    {
        match kind {
            BoardStringKind::Fen => match crate::fen::parse(s) {
                Ok(b) => Ok(b),
                Err(e) => Err(Error::FenError(e)),
            },
        }
    }

    /// The occupant of `s`.
    pub open spec fn spec_get_piece(self, s: Square) -> Option<Piece> {
        self.positions@[s.rank * 8 + s.file]
    }

    /// Pure occupancy lookup; the square invariant makes a bounds check
    /// unnecessary.
    pub fn get_piece(&self, s: Square) -> (r: Option<Piece>)
        requires
            s.wf(),
        ensures
            r == self.spec_get_piece(s),
    {
        self.positions[(s.rank * 8 + s.file) as usize]
    }
}

} // verus!
