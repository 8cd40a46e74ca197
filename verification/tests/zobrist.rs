use backend::board_setup::models::Board;
use backend::chess_bot::zobrist::hash_with_move;
use backend::move_generator::models::{PieceType, Square};
use backend::move_register::models::{ChessMove, MoveType};

#[test]
fn hash_with_test() {
    let mut board = Board::new_game();
    let played_move = ChessMove {
        move_type: MoveType::Move(PieceType::Pawn),
        from: Square(0, 6),
        to: Square(0, 5),
    };
    let hash_1 = board.hash_board();
    let hash_3 = hash_with_move(hash_1, &board, played_move);
    board.register_move(played_move).unwrap();
    let hash_2 = board.hash_board();
    assert_eq!(hash_2, hash_3);
}
