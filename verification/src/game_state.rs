use vstd::prelude::*;

use crate::board_setup::models::{Board, BoardModel};
use crate::chess_bot::is_in_check;
use crate::chess_bot::zobrist::{hash_of, hashable};
use crate::move_generator::models::{move_gen_ok, spec_all_moves, Color, Moves};
use crate::move_generator::restrictions::spec_checks_amount;
use crate::chess_bot::search::rep_count;
use std::collections::BTreeMap;

verus! {

/// Whether a game goes on, or how it ended.
pub enum GameState {
    Ongoing,
    Done(String),
}

impl GameState {
    /// Whether the game goes on.
    pub fn is_ongoing(&self) -> (res: bool)
        ensures
            res == (*self is Ongoing),
    {
        match self {
            GameState::Ongoing => true,
            GameState::Done(_) => false,
        }
    }

    /// Whether the game has ended.
    pub fn is_done(&self) -> (res: bool)
        ensures
            res == (*self is Done),
    {
        match self {
            GameState::Ongoing => false,
            GameState::Done(_) => true,
        }
    }
}

/// How a game ends.
#[derive(Debug, Clone, Copy, PartialEq, Eq, Structural)]
pub enum GameEnd {
    FiftyMoveRule,
    InsufficientMaterial,
    Checkmate(Color),
    Stalemate,
    ThreefoldRepetition,
}

/// How the game has ended in a position that has occurred `position_count` times, if it
/// has: by the fifty-move rule (more than a hundred half moves without capture or pawn
/// move), by insufficient material (both sides under three points), by checkmate (the
/// other side wins) or stalemate, or by threefold repetition; checked in that order.
pub open spec fn spec_game_end(b: BoardModel, position_count: int) -> Option<GameEnd> {
    if b.half_move_timer_50 > 100 {
        Some(GameEnd::FiftyMoveRule)
    } else if b.mating_material.0 < 3 && b.mating_material.1 < 3 {
        Some(GameEnd::InsufficientMaterial)
    } else if spec_all_moves(b, b.turn).len() == 0 {
        if spec_checks_amount(b, b.turn) != 0 {
            Some(GameEnd::Checkmate(b.turn.spec_opp()))
        } else {
            Some(GameEnd::Stalemate)
        }
    } else if position_count >= 3 {
        Some(GameEnd::ThreefoldRepetition)
    } else {
        None
    }
}

/// The fifty-move rule ends the game whenever more than a hundred half moves have passed
/// without a capture or a pawn move, whatever else holds of the position.
pub proof fn lemma_fifty_move_rule_ends(b: BoardModel, position_count: int)
    requires
        b.half_move_timer_50 > 100,
    ensures
        spec_game_end(b, position_count) == Some(GameEnd::FiftyMoveRule),
{
}

/// Within the fifty-move limit, the game is over by insufficient material exactly when
/// both sides have fewer than three points of mating material, and by checkmate of the
/// side to move (won by the other side) exactly when, with enough material, that side has
/// no move and is in check.
pub proof fn lemma_game_end_reasons(b: BoardModel, position_count: int)
    requires
        b.half_move_timer_50 <= 100,
    ensures
        spec_game_end(b, position_count) == Some(GameEnd::InsufficientMaterial) <==> (b.mating_material.0 < 3
            && b.mating_material.1 < 3),
        !(b.mating_material.0 < 3 && b.mating_material.1 < 3) ==> (spec_game_end(b, position_count) == Some(
            GameEnd::Checkmate(b.turn.spec_opp()),
        ) <==> (spec_all_moves(b, b.turn).len() == 0 && spec_checks_amount(b, b.turn) != 0)),
        spec_game_end(b, position_count) is None ==> spec_all_moves(b, b.turn).len() > 0 && position_count < 3,
        !(b.mating_material.0 < 3 && b.mating_material.1 < 3) && spec_all_moves(b, b.turn).len() == 0
            && spec_checks_amount(b, b.turn) == 0 ==> spec_game_end(b, position_count) == Some(GameEnd::Stalemate),
        !(b.mating_material.0 < 3 && b.mating_material.1 < 3) && spec_all_moves(b, b.turn).len() > 0 ==> {
            &&& spec_game_end(b, position_count) == Some(GameEnd::ThreefoldRepetition) <==> position_count >= 3
            &&& spec_game_end(b, position_count) is None <==> position_count < 3
        },
{
}

/// How the game has ended in a position that has occurred `position_count` times, if it
/// has.
pub fn game_end(board: &Board, position_count: u8) -> (res: Option<GameEnd>)
    requires
        move_gen_ok(board@, board.turn),
    ensures
        res == spec_game_end(board@, position_count as int),
{
    if board.half_move_timer_50 > 100 {
        return Some(GameEnd::FiftyMoveRule);
    }
    if board.mating_material.0 < 3 && board.mating_material.1 < 3 {
        return Some(GameEnd::InsufficientMaterial);
    }
    let legal_moves = Moves::get_all_moves(board, board.turn);
    if legal_moves.0.len() == 0 {
        if is_in_check(board) {
            return Some(GameEnd::Checkmate(board.turn.opp()));
        } else {
            return Some(GameEnd::Stalemate);
        }
    }
    if position_count >= 3 {
        return Some(GameEnd::ThreefoldRepetition);
    }
    None
}

/// Counts one more occurrence of the position and tells whether the game is over. `None`
/// where the count would overflow.
pub fn is_completed(board: &Board, rep_map: &mut BTreeMap<u64, u8>) -> (res: Option<bool>)
    requires
        move_gen_ok(board@, board.turn),
        hashable(board@),
    ensures
        res matches Some(done) ==> {
            let n = rep_count(old(rep_map)@, hash_of(board@)) + 1;
            &&& final(rep_map)@ == old(rep_map)@.insert(hash_of(board@), n as u8)
            &&& done == (spec_game_end(board@, n) is Some)
        },
        res is None <==> rep_count(old(rep_map)@, hash_of(board@)) == 255,
        res is None ==> final(rep_map)@ == old(rep_map)@,
{
    let h = board.hash_board();
    let cur = crate::chess_bot::search::rep_get(rep_map, h);
    if cur == 255 {
        return None;
    }
    crate::chess_bot::search::rep_set(rep_map, h, cur + 1);
    Some(game_end(board, cur + 1).is_some())
}

} // verus!
