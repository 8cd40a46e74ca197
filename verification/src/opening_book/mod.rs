pub mod move_parser;

use rand::seq::SliceRandom;
use vstd::prelude::*;

use self::move_parser::{parse_move_checked, spec_parse_move, MoveParseError};
use crate::board_setup::fen::{draw_key, fen_text, parse_fen, spec_parse_fen, square_printable};
use crate::board_setup::models::{Board, BoardModel, FenNotation};
use crate::move_register::models::ChessMove;
use crate::text::words;

verus! {

/// The least number of master games in which a move must have been played for the book.
pub const MIN_MOVE_POPULARITY: u32 = 2000;

/// Opening moves by position: for the first three FEN fields of a position, the moves
/// played there (in algebraic notation) with how often each was played.
#[derive(Clone, Debug)]
pub struct OpeningBook(pub Vec<(String, Vec<(String, u32)>)>);

/// The sum of the popularity of a list of book moves.
pub open spec fn popularity_sum(s: Seq<(String, u32)>) -> int
    decreases s.len(),
{
    if s.len() == 0 {
        0
    } else {
        popularity_sum(s.drop_last()) + s.last().1
    }
}

/// Whether a book entry is for a position.
pub open spec fn entry_for(e: (String, Vec<(String, u32)>), key: Seq<char>) -> bool {
    e.0@ == key
}

/// The index of the first entry for a position at or after index `i`.
pub open spec fn first_entry_from(s: Seq<(String, Vec<(String, u32)>)>, key: Seq<char>, i: int) -> Option<int>
    decreases s.len() - i,
{
    if i >= s.len() || i < 0 {
        None
    } else if entry_for(s[i], key) {
        Some(i)
    } else {
        first_entry_from(s, key, i + 1)
    }
}

proof fn lemma_first_entry_found(s: Seq<(String, Vec<(String, u32)>)>, key: Seq<char>, i: int)
    requires
        0 <= i,
    ensures
        first_entry_from(s, key, i) matches Some(k) ==> i <= k < s.len() && entry_for(s[k], key),
    decreases s.len() - i,
{
    if i < s.len() && !entry_for(s[i], key) {
        lemma_first_entry_found(s, key, i + 1);
    }
}

/// Whether every position has at most one entry in the book, as in a map.
pub open spec fn keys_distinct(s: Seq<(String, Vec<(String, u32)>)>) -> bool {
    forall|i: int, j: int| 0 <= i < j < s.len() ==> (#[trigger] s[i]).0@ != (#[trigger] s[j]).0@
}

proof fn lemma_no_entry(s: Seq<(String, Vec<(String, u32)>)>, key: Seq<char>, i: int)
    requires
        0 <= i,
        first_entry_from(s, key, i) is None,
    ensures
        forall|j: int| i <= j < s.len() ==> (#[trigger] s[j]).0@ != key,
    decreases s.len() - i,
{
    if i < s.len() {
        lemma_no_entry(s, key, i + 1);
    }
}

/// Adding a move to a book whose positions each have one entry keeps them so.
pub proof fn lemma_added_keeps_keys_distinct(
    o: Seq<(String, Vec<(String, u32)>)>,
    f: Seq<(String, Vec<(String, u32)>)>,
    key: Seq<char>,
    san: String,
    popularity: u32,
)
    requires
        keys_distinct(o),
        book_added(o, f, key, san, popularity),
    ensures
        keys_distinct(f),
{
    if first_entry_from(o, key, 0) is None {
        lemma_no_entry(o, key, 0);
        assert forall|i: int, j: int| 0 <= i < j < f.len() implies (#[trigger] f[i]).0@ != (
        #[trigger] f[j]).0@ by {
            if j == o.len() {
                assert(f[i].0@ == o[i].0@);
            } else {
                assert(f[i].0@ == o[i].0@ && f[j].0@ == o[j].0@);
            }
        }
    } else {
        assert forall|i: int, j: int| 0 <= i < j < f.len() implies (#[trigger] f[i]).0@ != (
        #[trigger] f[j]).0@ by {
            assert(f[i].0@ == o[i].0@ && f[j].0@ == o[j].0@);
        }
    }
}

/// The book `f` is the book `o` with a move added to the first entry of a position, or a
/// new entry for it at the end if it has none.
pub open spec fn book_added(
    o: Seq<(String, Vec<(String, u32)>)>,
    f: Seq<(String, Vec<(String, u32)>)>,
    key: Seq<char>,
    san: String,
    popularity: u32,
) -> bool {
    match first_entry_from(o, key, 0) {
        Some(k) => f.len() == o.len() && forall|j: int|
            0 <= j < o.len() ==> (#[trigger] f[j]).0@ == o[j].0@ && f[j].1@ == if j == k {
                o[j].1@.push((san, popularity))
            } else {
                o[j].1@
            },
        None => f.len() == o.len() + 1 && (forall|j: int|
            0 <= j < o.len() ==> (#[trigger] f[j]).0@ == o[j].0@ && f[j].1@ == o[j].1@)
            && f.last().0@ == key && f.last().1@ == seq![(san, popularity)],
    }
}

impl OpeningBook {
    /// The index of the first entry for a position, if there is one.
    pub open spec fn spec_find(&self, key: Seq<char>) -> Option<int> {
        first_entry_from(self.0@, key, 0)
    }

    fn find(&self, key: &String) -> (res: Option<usize>)
        ensures
            match res {
                Some(i) => self.spec_find(key@) == Some(i as int) && i < self.0@.len() && entry_for(
                    self.0@[i as int],
                    key@,
                ),
                None => self.spec_find(key@) is None,
            },
    {
        proof {
            lemma_first_entry_found(self.0@, key@, 0);
        }
        let mut i: usize = 0;
        while i < self.0.len()
            invariant
                i <= self.0@.len(),
                first_entry_from(self.0@, key@, 0) == first_entry_from(self.0@, key@, i as int),
            decreases self.0@.len() - i,
        {
            if self.0[i].0 == *key {
                return Some(i);
            }
            i = i + 1;
        }
        None
    }

    /// The moves of the first entry for a position, if there is one.
    pub fn get(&self, key: &String) -> (res: Option<&Vec<(String, u32)>>)
        ensures
            match self.spec_find(key@) {
                Some(k) => res matches Some(v) && v@ == self.0@[k].1@,
                None => res is None,
            },
    {
        match self.find(key) {
            Some(i) => {
                let e = &self.0[i];
                Some(&e.1)
            },
            None => None,
        }
    }

    /// Adds a move to the first entry of a position, or a new entry at the end if the
    /// position has none.
    pub fn add_move(&mut self, key: String, san: String, popularity: u32)
        ensures
            book_added(old(self).0@, final(self).0@, key@, san, popularity),
    {
        let ghost o = self.0@;
        match self.find(&key) {
            Some(i) => {
                let mut entry = self.0.remove(i);
                entry.1.push((san, popularity));
                let ghost e2 = entry;
                self.0.insert(i, entry);
                assert(self.0@ =~= o.update(i as int, e2));
            },
            None => {
                let mut moves = Vec::new();
                moves.push((san, popularity));
                self.0.push((key, moves));
            },
        }
    }
}

/// Picks one of the book moves at random, each with a probability proportional to its
/// popularity, with `rand`'s `SliceRandom::choose_weighted`; `None` when that fails. The
/// popularities are summed in `u32`, so the sum must fit. The contract claims that a list
/// with a positive sum gives a move, and that the move given is one of the list with a
/// positive popularity; which one is left unsaid, as it is drawn at random.
#[verifier::external_body]
pub(crate) fn choose_weighted_san(moves: &Vec<(String, u32)>) -> (res: Option<String>)
    requires
        popularity_sum(moves@) <= u32::MAX,
    ensures
        moves@.len() > 0 && popularity_sum(moves@) > 0 ==> res is Some,
        res matches Some(s) ==> exists|i: int|
            0 <= i < moves@.len() && (#[trigger] moves@[i]).0@ == s@ && moves@[i].1 > 0,
{
    moves.choose_weighted(&mut rand::thread_rng(), |e| e.1).ok().map(|e| e.0.clone())
}

/// What the opening explorer tells of a position: the moves played there.
pub struct PositionDescription {
    pub moves: Vec<MoveDescription>,
}

/// A move in the opening explorer, with the number of games won by white, drawn and won
/// by black after it.
pub struct MoveDescription {
    pub san: String,
    pub white: u32,
    pub draws: u32,
    pub black: u32,
}

/// Why the opening book could not be built.
#[derive(Debug, Clone, Copy, PartialEq, Eq, Structural)]
pub enum OpeningBookError {
    MoveParseError(MoveParseError),
    Unexpected,
}

impl MoveDescription {
    /// The number of games with the move; `None` if it does not fit in `u32`.
    pub fn popularity(&self) -> (res: Option<u32>)
        ensures
            match res {
                Some(p) => p == self.white + self.draws + self.black,
                None => self.white + self.draws + self.black > u32::MAX,
            },
    {
        if self.white > u32::MAX - self.draws {
            return None;
        }
        let wd = self.white + self.draws;
        if wd > u32::MAX - self.black {
            return None;
        }
        Some(wd + self.black)
    }
}

/// Whether the en passant target of a position, if any, can be written.
pub open spec fn ep_printable(b: BoardModel) -> bool {
    b.en_passant_square matches Some(sq) ==> square_printable(sq)
}

/// What recording a move of the explorer gives, from the FEN text of the position, the
/// move's notation and how often it was played: `None` where the book cannot be built on
/// (the popularity leaves `u32`, the FEN text has fewer than three fields, the move cannot
/// be read or played, or the position after it cannot be written); for a move played too rarely,
/// nothing to explore; an error where the move cannot be read or the position cannot be;
/// else the FEN text of the position after the move.
pub open spec fn record_outcome(fen: Seq<char>, san: Seq<char>, popularity: int) -> Option<
    Result<Option<Seq<char>>, OpeningBookError>,
> {
    if popularity > u32::MAX {
        None
    } else if popularity < MIN_MOVE_POPULARITY {
        Some(Ok(None))
    } else if words(fen).len() < 3 {
        None
    } else {
        match spec_parse_move(fen, san) {
            None => None,
            Some(Err(pe)) => Some(Err(OpeningBookError::MoveParseError(pe))),
            Some(Ok(m)) => match spec_parse_fen(fen) {
                None => None,
                Some(Err(_)) => Some(Err(OpeningBookError::Unexpected)),
                Some(Ok(b)) => match b.spec_register_move(m) {
                    Some((b2, Ok(_))) => if ep_printable(b2) {
                        Some(Ok(Some(fen_text(b2))))
                    } else {
                        None
                    },
                    _ => None,
                },
            },
        }
    }
}

/// Whether the result of recording a move is the outcome, the position given by its FEN
/// text.
pub open spec fn recorded_as(
    res: Option<Result<Option<FenNotation>, OpeningBookError>>,
    v: Option<Result<Option<Seq<char>>, OpeningBookError>>,
) -> bool {
    match (res, v) {
        (Some(Ok(Some(next))), Some(Ok(Some(t)))) => next.0@ == t,
        (Some(Ok(None)), Some(Ok(None))) => true,
        (Some(Err(e)), Some(Err(e2))) => e == e2,
        (None, None) => true,
        _ => false,
    }
}

/// Records a move of the explorer in the book, if it was played often enough, and gives
/// the position after it, for the explorer to be asked about next (see `record_outcome`).
/// The move is added to the book's entry for the position as soon as it is known to be
/// played often enough and the position's key can be taken, whatever follows; otherwise
/// the book is unchanged.
pub fn record_book_move(book: &mut OpeningBook, fen: &FenNotation, mv: &MoveDescription) -> (res:
    Option<Result<Option<FenNotation>, OpeningBookError>>)
    ensures
        recorded_as(res, record_outcome(fen.0@, mv.san@, mv.white + mv.draws + mv.black)),
        ({
            let pop = mv.white + mv.draws + mv.black;
            if pop <= u32::MAX && pop >= MIN_MOVE_POPULARITY && words(fen.0@).len() >= 3 {
                book_added(old(book).0@, final(book).0@, draw_key(fen.0@), mv.san, pop as u32)
            } else {
                final(book).0@ == old(book).0@
            }
        }),
{
    let popularity = match mv.popularity() {
        Some(p) => p,
        None => return None,
    };
    if popularity < MIN_MOVE_POPULARITY {
        return Some(Ok(None));
    }
    let draw_fen = match fen.to_draw_fen_checked() {
        Some(d) => d,
        None => return None,
    };
    book.add_move(draw_fen, mv.san.clone(), popularity);
    let played_move = match parse_move_checked(fen, &mv.san) {
        None => return None,
        Some(Err(e)) => return Some(Err(OpeningBookError::MoveParseError(e))),
        Some(Ok(m)) => m,
    };
    let mut board = match parse_fen(fen.0.as_str()) {
        Some(Ok(b)) => b,
        Some(Err(_)) => return Some(Err(OpeningBookError::Unexpected)),
        None => return None,
    };
    if !board.can_register_exec(played_move) {
        return None;
    }
    match board.register_move(played_move) {
        Ok(()) => {},
        Err(_) => return None,
    }
    let printable = match board.en_passant_square {
        Some(sq) => sq.1 < 127 && (sq.0 as u8) as u32 + 97 <= 255,
        None => true,
    };
    if !printable {
        return None;
    }
    Some(Ok(Some(FenNotation::from(&board))))
}

} // verus!
