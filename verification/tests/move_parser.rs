use backend::board_setup::models::FenNotation;
use backend::move_generator::models::{PieceType, Square};
use backend::move_register::models::{CastleType, ChessMove, MoveType, PromotedPieceType};
use backend::opening_book::move_parser::parse_move;

#[test]
fn pawn_move_test() {
    let res = parse_move(
        FenNotation("rnbqkbnr/pppppppp/8/8/8/8/PPPPPPPP/RNBQKBNR w KQkq - 0 1".into()),
        "e4".to_string(),
    );
    assert_eq!(
        res.unwrap(),
        ChessMove {
            move_type: MoveType::Move(PieceType::Pawn),
            from: Square(4, 1),
            to: Square(4, 3),
        }
    )
}

#[test]
fn piece_move_test() {
    let res = parse_move(
        FenNotation("rnbqkbnr/pppppppp/8/8/8/8/PPPPPPPP/RNBQKBNR w KQkq - 0 1".into()),
        "Nf3".to_string(),
    );
    assert_eq!(
        res.unwrap(),
        ChessMove {
            move_type: MoveType::Move(PieceType::Knight),
            from: Square(6, 0),
            to: Square(5, 2),
        }
    )
}

#[test]
fn pawn_capture_test() {
    let res = parse_move(
        FenNotation("rnbqkbnr/ppp1pppp/8/3p4/4P3/8/PPPP1PPP/RNBQKBNR w KQkq - 0 2".into()),
        "exd5".to_string(),
    );
    assert_eq!(
        res.unwrap(),
        ChessMove {
            move_type: MoveType::Capture(PieceType::Pawn),
            from: Square(4, 3),
            to: Square(3, 4),
        }
    )
}

#[test]
fn en_passant_test() {
    let res = parse_move(
        FenNotation("rnbqkbnr/pp1ppppp/8/8/2pPP3/5N2/PPP2PPP/RNBQKB1R b KQkq d3 0 3".into()),
        "cxd3".to_string(),
    );
    assert_eq!(
        res.unwrap(),
        ChessMove {
            move_type: MoveType::EnPassantMove,
            from: Square(2, 3),
            to: Square(3, 2),
        }
    )
}

#[test]
fn piece_move_with_file_test() {
    let res = parse_move(
        FenNotation(
            "r4rk1/pppq1ppp/2npbn2/2b1p3/2B1P3/2NPBN2/PPPQ1PPP/R4RK1 w - - 10 9".into(),
        ),
        "Rad1".to_string(),
    );
    assert_eq!(
        res.unwrap(),
        ChessMove {
            move_type: MoveType::Move(PieceType::Rook),
            from: Square(0, 0),
            to: Square(3, 0),
        }
    )
}

#[test]
fn piece_move_with_rank_test() {
    let res = parse_move(
        FenNotation("1r4k1/p1pq1ppp/Brnpbn2/4p3/4P3/bRNPBN2/P1PQ1PPP/1R4K1 w - - 8 15".into()),
        "R3b2".to_string(),
    );
    assert_eq!(
        res.unwrap(),
        ChessMove {
            move_type: MoveType::Move(PieceType::Rook),
            from: Square(1, 2),
            to: Square(1, 1),
        }
    )
}

#[test]
fn piece_capture_with_file_test() {
    let res = parse_move(
        FenNotation("r1B2rk1/p1pq1ppp/2npbn2/4p3/4P3/2NPBN2/PbPQ1PPP/R4RK1 b - - 1 11".into()),
        "Rfxc8".to_string(),
    );
    assert_eq!(
        res.unwrap(),
        ChessMove {
            move_type: MoveType::Capture(PieceType::Rook),
            from: Square(5, 7),
            to: Square(2, 7),
        }
    )
}

#[test]
fn piece_capture_with_rank_test() {
    let res = parse_move(
        FenNotation("1r4k1/pBpq1ppp/1rnpbn2/4p3/4P3/bRNPBN2/P1PQ1PPP/1R4K1 b - - 9 15".into()),
        "R8xb7".to_string(),
    );
    assert_eq!(
        res.unwrap(),
        ChessMove {
            move_type: MoveType::Capture(PieceType::Rook),
            from: Square(1, 7),
            to: Square(1, 6),
        }
    )
}

#[test]
fn promotion_test() {
    let res = parse_move(
        FenNotation("r1bqkb1r/pPpp2pp/2n2n2/4pp2/8/8/PP1PPPPP/RNBQKBNR w KQkq - 1 5".into()),
        "b8=Q".to_string(),
    );
    assert_eq!(
        res.unwrap(),
        ChessMove {
            move_type: MoveType::PromotionMove(PromotedPieceType::Queen),
            from: Square(1, 6),
            to: Square(1, 7),
        }
    )
}

#[test]
fn promotion_capture_test() {
    let res = parse_move(
        FenNotation("r1bqkb1r/pPpp2pp/2n2n2/4pp2/8/8/PP1PPPPP/RNBQKBNR w KQkq - 1 5".into()),
        "bxc8=Q".to_string(),
    );
    assert_eq!(
        res.unwrap(),
        ChessMove {
            move_type: MoveType::PromotionCapture(PromotedPieceType::Queen),
            from: Square(1, 6),
            to: Square(2, 7),
        }
    )
}

#[test]
fn castle_test() {
    let res = parse_move(
        FenNotation(
            "r1bqk1nr/pppp1ppp/2n5/2b1p3/2B1P3/5N2/PPPP1PPP/RNBQK2R w KQkq - 4 4".into(),
        ),
        "O-O".to_string(),
    );
    assert_eq!(
        res.unwrap(),
        ChessMove {
            move_type: MoveType::CastleMove(CastleType::WhiteShort),
            from: Square(4, 0),
            to: Square(6, 0),
        }
    )
}
