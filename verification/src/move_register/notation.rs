use vstd::prelude::*;

use crate::board_setup::fen::{square_printable, square_text};
use crate::board_setup::models::{BoardError, FenPieceType};
use crate::move_generator::models::{push_char, push_str, ChessPiece, Color, PieceType, Square};
use crate::move_register::models::{ChessMove, MoveType, PromotedPieceType};
use crate::text::{int_dec, push_int_dec};

verus! {

/// The letter of a file as moves write it: the character whose code is the file plus 97.
pub open spec fn file_letter(x: i8) -> char {
    ((x as u8) as int + 97) as char
}

/// Whether a file can be written: its letter's code is a byte.
pub open spec fn file_letter_ok(x: i8) -> bool {
    (x as u8) as int + 97 <= 255
}

fn file_letter_exec(x: i8) -> (res: char)
    requires
        file_letter_ok(x),
    ensures
        res == file_letter(x),
{
    ((x as u8) + 97) as char
}

/// The rank of a square as moves write it: one more than its index, in decimal.
pub open spec fn rank_text(y: i8) -> Seq<char> {
    int_dec(y + 1)
}

/// The letter of a promotion piece.
pub open spec fn promotion_char(p: PromotedPieceType) -> char {
    match p {
        PromotedPieceType::Queen => 'Q',
        PromotedPieceType::Knight => 'N',
        PromotedPieceType::Bishop => 'B',
        PromotedPieceType::Rook => 'R',
    }
}

impl PromotedPieceType {
    /// The letter of the piece.
    pub fn to_string(&self) -> (res: String)
        ensures
            res@ == seq![promotion_char(*self)],
    {
        let mut s = String::new();
        push_char(
            &mut s,
            match self {
                PromotedPieceType::Queen => 'Q',
                PromotedPieceType::Knight => 'N',
                PromotedPieceType::Bishop => 'B',
                PromotedPieceType::Rook => 'R',
            },
        );
        s
    }

    /// The promotion piece a letter of `NRBQ` names; an error for any other text.
    pub fn try_from(val: &str) -> (res: Result<PromotedPieceType, BoardError>)
        ensures
            res == if val@ == seq!['N'] {
                Ok(PromotedPieceType::Knight)
            } else if val@ == seq!['R'] {
                Ok(PromotedPieceType::Rook)
            } else if val@ == seq!['B'] {
                Ok(PromotedPieceType::Bishop)
            } else if val@ == seq!['Q'] {
                Ok(PromotedPieceType::Queen)
            } else {
                Err(BoardError::ConversionFailure)
            },
    {
        let c = single_char(val);
        match c {
            Some('N') => Ok(PromotedPieceType::Knight),
            Some('R') => Ok(PromotedPieceType::Rook),
            Some('B') => Ok(PromotedPieceType::Bishop),
            Some('Q') => Ok(PromotedPieceType::Queen),
            _ => Err(BoardError::ConversionFailure),
        }
    }
}

/// The only character of a text of one character.
fn single_char(val: &str) -> (res: Option<char>)
    ensures
        match res {
            Some(c) => val@ == seq![c] && forall|l: char| (val@ == seq![l]) <==> (c == l),
            None => forall|l: char| val@ != seq![l],
        },
{
    let cs = crate::text::chars_of(val);
    if cs.len() == 1 {
        let c = cs[0];
        assert(cs@ =~= seq![c]);
        assert forall|l: char| (val@ == seq![l]) <==> (c == l) by {
            if val@ == seq![l] {
                assert(val@[0] == seq![l][0]);
            }
        }
        Some(c)
    } else {
        assert forall|l: char| val@ != seq![l] by {
            if val@ == seq![l] {
                assert(val@.len() == seq![l].len());
            }
        }
        None
    }
}

impl PieceType {
    /// The kind of piece a letter of `PNKRBQ` names; an error for any other text.
    pub fn try_from(val: &str) -> (res: Result<PieceType, BoardError>)
        ensures
            res == if val@ == seq!['P'] {
                Ok(PieceType::Pawn)
            } else if val@ == seq!['N'] {
                Ok(PieceType::Knight)
            } else if val@ == seq!['K'] {
                Ok(PieceType::King)
            } else if val@ == seq!['R'] {
                Ok(PieceType::Rook)
            } else if val@ == seq!['B'] {
                Ok(PieceType::Bishop)
            } else if val@ == seq!['Q'] {
                Ok(PieceType::Queen)
            } else {
                Err(BoardError::ConversionFailure)
            },
    {
        match single_char(val) {
            Some('P') => Ok(PieceType::Pawn),
            Some('N') => Ok(PieceType::Knight),
            Some('K') => Ok(PieceType::King),
            Some('R') => Ok(PieceType::Rook),
            Some('B') => Ok(PieceType::Bishop),
            Some('Q') => Ok(PieceType::Queen),
            _ => Err(BoardError::ConversionFailure),
        }
    }
}

/// The FEN letter of a piece kind of a side.
pub open spec fn fen_char(t: FenPieceType) -> char {
    match t {
        FenPieceType::WhitePawn => 'P',
        FenPieceType::WhiteKnight => 'N',
        FenPieceType::WhiteBishop => 'B',
        FenPieceType::WhiteRook => 'R',
        FenPieceType::WhiteQueen => 'Q',
        FenPieceType::WhiteKing => 'K',
        FenPieceType::BlackPawn => 'p',
        FenPieceType::BlackKnight => 'n',
        FenPieceType::BlackBishop => 'b',
        FenPieceType::BlackRook => 'r',
        FenPieceType::BlackQueen => 'q',
        FenPieceType::BlackKing => 'k',
    }
}

fn fen_char_exec(t: FenPieceType) -> (res: char)
    ensures
        res == fen_char(t),
{
    match t {
        FenPieceType::WhitePawn => 'P',
        FenPieceType::WhiteKnight => 'N',
        FenPieceType::WhiteBishop => 'B',
        FenPieceType::WhiteRook => 'R',
        FenPieceType::WhiteQueen => 'Q',
        FenPieceType::WhiteKing => 'K',
        FenPieceType::BlackPawn => 'p',
        FenPieceType::BlackKnight => 'n',
        FenPieceType::BlackBishop => 'b',
        FenPieceType::BlackRook => 'r',
        FenPieceType::BlackQueen => 'q',
        FenPieceType::BlackKing => 'k',
    }
}

impl FenPieceType {
    /// The FEN letter.
    pub fn to_string(&self) -> (res: String)
        ensures
            res@ == seq![fen_char(*self)],
    {
        let mut s = String::new();
        push_char(&mut s, fen_char_exec(*self));
        s
    }

    /// The piece kind and side a FEN letter names; an error for any other text.
    pub fn try_from(val: &str) -> (res: Result<FenPieceType, BoardError>)
        ensures
            match res {
                Ok(t) => val@ == seq![fen_char(t)],
                Err(_) => forall|t: FenPieceType| val@ != seq![fen_char(t)],
            },
    {
        let r = match single_char(val) {
            Some('P') => Ok(FenPieceType::WhitePawn),
            Some('N') => Ok(FenPieceType::WhiteKnight),
            Some('K') => Ok(FenPieceType::WhiteKing),
            Some('R') => Ok(FenPieceType::WhiteRook),
            Some('B') => Ok(FenPieceType::WhiteBishop),
            Some('Q') => Ok(FenPieceType::WhiteQueen),
            Some('p') => Ok(FenPieceType::BlackPawn),
            Some('n') => Ok(FenPieceType::BlackKnight),
            Some('k') => Ok(FenPieceType::BlackKing),
            Some('r') => Ok(FenPieceType::BlackRook),
            Some('b') => Ok(FenPieceType::BlackBishop),
            Some('q') => Ok(FenPieceType::BlackQueen),
            _ => Err(BoardError::ConversionFailure),
        };
        proof {
            if r is Err {
                assert forall|t: FenPieceType| val@ != seq![fen_char(t)] by {
                    if val@ == seq![fen_char(t)] {
                        assert(val@.len() == 1 && val@[0] == fen_char(t));
                    }
                }
            }
        }
        r
    }
}

impl ChessPiece {
    /// The piece a FEN letter names, on a square: white for an upper-case letter, black
    /// for a lower-case one; an error for a character that names no piece.
    pub fn try_from(val: (char, Square)) -> (res: Result<ChessPiece, BoardError>)
        ensures
            match crate::board_setup::fen::piece_of_char(val.0) {
                Some((t, c)) => res == Ok::<ChessPiece, BoardError>(
                    ChessPiece { piece_type: t, color: c, position: val.1 },
                ),
                None => res == Err::<ChessPiece, BoardError>(BoardError::ConversionFailure),
            },
    {
        crate::board_setup::fen::piece_from_char(val.0, val.1)
    }
}

impl Square {
    /// Reads a square such as `e3`: the file is the low byte of the first character's code
    /// minus 97, the rank the second character's digit minus one; an error for a text that
    /// is not two bytes long or whose second character is not a digit.
    pub fn try_from(val: &str) -> (res: Result<Square, BoardError>)
        requires
            crate::board_setup::fen::square_of_word(val@) is Some,
        ensures
            crate::board_setup::fen::square_of_word(val@) == Some(res),
    {
        let cs = crate::text::chars_of(val);
        match crate::board_setup::fen::square_from_word(&cs) {
            Some(r) => r,
            None => Err(BoardError::ConversionFailure),
        }
    }

    /// The square as moves write it: its file letter and its rank number.
    pub fn to_text(&self) -> (res: String)
        requires
            square_printable(*self),
        ensures
            res@ == square_text(*self),
    {
        let mut s = String::new();
        push_char(&mut s, ((self.0 as u8) + 97) as char);
        push_int_dec(&mut s, self.1 as i32 + 1);
        assert(s@ =~= square_text(*self));
        s
    }
}

/// Whether a move can be written: its squares' letters and numbers fit, and a castling move
/// goes to the c- or g-file.
pub open spec fn move_printable(m: ChessMove) -> bool {
    &&& m.to.1 < 127
    &&& file_letter_ok(m.to.0)
    &&& file_letter_ok(m.from.0)
    &&& (m.move_type is CastleMove ==> m.to.0 == 2 || m.to.0 == 6)
}

/// The letter of a kind of piece in a move, nothing for a pawn.
pub open spec fn piece_text(t: PieceType) -> Seq<char> {
    if t == PieceType::Pawn {
        Seq::empty()
    } else {
        seq![t.spec_letter()]
    }
}

/// A move in the notation the engine prints: `Nf3`, `exd5`, `Bxc6`, `b8=Q`, `bxc8=Q`,
/// `O-O`, `O-O-O` (no disambiguation and no check signs).
pub open spec fn move_text(m: ChessMove) -> Seq<char> {
    let target = seq![file_letter(m.to.0)] + rank_text(m.to.1);
    match m.move_type {
        MoveType::Move(p) => piece_text(p) + target,
        MoveType::Capture(p) => seq![
            if p == PieceType::Pawn {
                file_letter(m.from.0)
            } else {
                p.spec_letter()
            },
            'x',
        ] + target,
        MoveType::CastleMove(_) => if m.to.0 == 2 {
            seq!['O', '-', 'O', '-', 'O']
        } else {
            seq!['O', '-', 'O']
        },
        MoveType::EnPassantMove => seq![file_letter(m.from.0), 'x'] + target,
        MoveType::PromotionMove(p) => target + seq!['=', promotion_char(p)],
        MoveType::PromotionCapture(p) => seq![file_letter(m.from.0), 'x'] + target + seq![
            '=',
            promotion_char(p),
        ],
    }
}

impl ChessMove {
    /// Whether the move can be written in the notation the engine prints, checked at run
    /// time.
    pub fn can_print(&self) -> (res: bool)
        ensures
            res == move_printable(*self),
    {
        self.to.1 < 127 && (self.to.0 as u8) as u32 + 97 <= 255 && (self.from.0 as u8) as u32 + 97
            <= 255 && (!matches!(self.move_type, MoveType::CastleMove(_)) || self.to.0 == 2
            || self.to.0 == 6)
    }

    /// The move in the notation the engine prints.
    pub fn to_string(&self) -> (res: String)
        requires
            move_printable(*self),
        ensures
            res@ == move_text(*self),
    {
        let mut s = String::new();
        match self.move_type {
            MoveType::Move(p) => {
                if !matches!(p, PieceType::Pawn) {
                    push_char(&mut s, p.to_char());
                }
            },
            MoveType::Capture(p) => {
                if matches!(p, PieceType::Pawn) {
                    push_char(&mut s, file_letter_exec(self.from.0));
                } else {
                    push_char(&mut s, p.to_char());
                }
                push_char(&mut s, 'x');
            },
            MoveType::CastleMove(_) => {
                if self.to.0 == 2 {
                    push_str(&mut s, "O-O-O");
                } else {
                    push_str(&mut s, "O-O");
                }
                proof {
                    reveal_strlit("O-O-O");
                    reveal_strlit("O-O");
                }
                assert(s@ =~= move_text(*self));
                return s;
            },
            MoveType::EnPassantMove | MoveType::PromotionCapture(_) => {
                push_char(&mut s, file_letter_exec(self.from.0));
                push_char(&mut s, 'x');
            },
            MoveType::PromotionMove(_) => {},
        }
        let ghost before = s@;
        push_char(&mut s, file_letter_exec(self.to.0));
        push_int_dec(&mut s, self.to.1 as i32 + 1);
        match self.move_type {
            MoveType::PromotionMove(p) | MoveType::PromotionCapture(p) => {
                push_char(&mut s, '=');
                push_char(
                    &mut s,
                    match p {
                        PromotedPieceType::Queen => 'Q',
                        PromotedPieceType::Knight => 'N',
                        PromotedPieceType::Bishop => 'B',
                        PromotedPieceType::Rook => 'R',
                    },
                );
            },
            _ => {},
        }
        assert(s@ =~= move_text(*self));
        s
    }
}

} // verus!
