use otus::board::Board;
use otus::models::Color::{Black, White};
use otus::models::File::{self, A, B, C, D, E, F, G, H};
use otus::models::PieceType::{self, Bishop, King, Knight, Pawn, Queen, Rook};
use otus::models::Rank::{self, _1, _2, _3, _4, _5, _6, _7, _8};
use otus::models::{Color, Move, Piece, PromotionPieceType, Square};
use otus::models::ColorProps;
use otus::move_checking::{apply_move, is_move_legal};

const A2: Square = Square(A, _2);
const A4: Square = Square(A, _4);
const A8: Square = Square(A, _8);
const B7: Square = Square(B, _7);
const C5: Square = Square(C, _5);
const D5: Square = Square(D, _5);
const D6: Square = Square(D, _6);
const E1: Square = Square(E, _1);
const E2: Square = Square(E, _2);
const E3: Square = Square(E, _3);
const E4: Square = Square(E, _4);
const E5: Square = Square(E, _5);
const F1: Square = Square(F, _1);
const F2: Square = Square(F, _2);
const F3: Square = Square(F, _3);
const F6: Square = Square(F, _6);
const F7: Square = Square(F, _7);
const G2: Square = Square(G, _2);

#[test]
fn test_blocked_pawn() {
    let mut board = Board::from_fen("k7/8/8/8/8/8/8/K7 b - - 0 1").unwrap();
    board.active_player = Black;
    board.set_piece_at(F7, Piece(Pawn, Black));
    board.set_piece_at(F6, Piece(Pawn, White));
    let move1 = Move::Normal { src: Square(F, _7), dest: Square(F, _6) };
    let move2 = Move::Normal { src: Square(F, _7), dest: Square(F, _5) };

    assert!(!is_move_legal(&board, &move1));
    assert!(!is_move_legal(&board, &move2));
}

#[test]
fn test_en_passant_target() {
    let mut board = Board::from_fen("k7/8/8/8/8/8/8/K7 b - - 0 1").unwrap();
    board.active_player = White;
    board.set_piece_at(A2, Piece(Pawn, White));
    let move_ = Move::Normal { src: A2, dest: A4 };

    let result = apply_move(&board, &move_).unwrap();

    assert_eq!(result.en_passant_target, Some(Square(A, _3)));
}

#[test]
fn test_en_passant_capture() {
    let mut board = Board::from_fen("k7/8/8/8/8/8/8/K7 b - - 0 1").unwrap();
    board.active_player = White;
    board.en_passant_target = Some(Square(D, _6));
    board.set_piece_at(D5, Piece(Pawn, Black));
    board.set_piece_at(E5, Piece(Pawn, White));
    let move_ = Move::Normal { src: Square(E, _5), dest: Square(D, _6) };

    let result = apply_move(&board, &move_).unwrap();

    assert_eq!(result.get_piece(E, _5), None);
    assert_eq!(result.get_piece(D, _5), None);
    assert_eq!(result.get_piece(D, _6), Some(Piece(Pawn, White)));
    assert!(result.en_passant_target.is_none());
}

#[test]
fn test_invalid_en_passant() {
    let mut board = Board::from_fen("k7/8/8/8/8/8/8/K7 b - - 0 1").unwrap();
    board.active_player = White;
    board.en_passant_target = None;
    board.set_piece_at(D5, Piece(Pawn, Black));
    board.set_piece_at(E5, Piece(Pawn, White));
    let move_ = Move::Normal { src: E5, dest: D6 };

    assert!(!is_move_legal(&board, &move_));
}

#[test]
fn test_no_normal_pawn_move_to_board_end() {
    let board = Board::from_fen("k7/8/8/8/8/8/5p2/8 b - - 0 1").unwrap();
    let move_ = Move::Normal { src: Square(F, _2), dest: Square(F, _1) };

    assert!(!is_move_legal(&board, &move_));
}

#[test]
fn test_promotion_move() {
    let board = Board::from_fen("k7/8/8/8/8/8/5p2/8 b - - 0 1").unwrap();
    let move_ = Move::Promotion { src: F2, dest: F1, promotion: PromotionPieceType::Queen };

    let result = apply_move(&board, &move_).unwrap();

    assert_eq!(result.get_piece(F, _2), None);
    assert_eq!(result.get_piece(F, _1), Some(Piece(Queen, Black)));
}

#[test]
fn test_promotion_capture() {
    let board = Board::from_fen("r7/1P6/8/8/8/8/8/K7 w - - 0 1").unwrap();
    let move_ = Move::Promotion { src: B7, dest: A8, promotion: PromotionPieceType::Knight };

    let result = apply_move(&board, &move_).unwrap();

    assert_eq!(result.get_piece(B, _7), None);
    assert_eq!(result.get_piece(A, _8), Some(Piece(Knight, White)));
}

#[test]
fn test_must_not_move_king_into_check() {
    let board = Board::from_fen("5r2/8/8/8/8/8/8/4K3 w - - 0 1").unwrap();
    let move_ = Move::Normal { src: E1, dest: F2 };

    assert!(!is_move_legal(&board, &move_));
}

#[test]
fn test_must_not_leave_king_in_check() {
    let board = Board::from_fen("4r3/8/8/8/8/8/6B1/4K3 w - - 0 1").unwrap();
    let move_ = Move::Normal { src: G2, dest: F3 };

    assert!(!is_move_legal(&board, &move_));
}

#[test]
fn test_must_not_put_king_in_check() {
    let board = Board::from_fen("4r3/8/8/8/4B3/8/8/4K3 w - - 0 1").unwrap();
    let move_ = Move::Normal { src: E4, dest: F3 };

    assert!(!is_move_legal(&board, &move_));
}

#[test]
fn test_en_passant_must_not_put_king_in_check() {
    let board = Board::from_fen("8/8/8/r1Pp3K/8/8/8/8 w - d6 0 1").unwrap();
    let move_ = Move::Normal { src: C5, dest: D6 };

    assert!(!is_move_legal(&board, &move_));
}

#[test]
fn test_king_side_castling_must_not_put_king_in_check() {
    let board = Board::from_fen("6r1/8/8/8/8/8/8/4K2R w K - 0 1").unwrap();
    let move_ = Move::CastleKingside;

    assert!(!is_move_legal(&board, &move_));
}

#[test]
fn test_queen_side_castling_must_not_put_king_in_check() {
    let board = Board::from_fen("r3k3/8/8/8/8/8/8/2Q5 b q - 0 1").unwrap();
    let move_ = Move::CastleQueenside;

    assert!(!is_move_legal(&board, &move_));
}

#[test]
fn test_king_side_castling_must_not_move_king_through_check() {
    let board = Board::from_fen("4k2r/8/8/8/8/B7/8/8 b K - 0 1").unwrap();
    let move_ = Move::CastleKingside;

    assert!(!is_move_legal(&board, &move_));
}

#[test]
fn test_queen_side_castling_must_not_move_king_through_check() {
    let board = Board::from_fen("8/8/8/8/8/5b2/8/R3K3 w Q - 0 1").unwrap();
    let move_ = Move::CastleQueenside;

    assert!(!is_move_legal(&board, &move_));
}

#[test]
fn test_cannot_castle_out_of_check() {
    let board = Board::from_fen("4r3/8/8/8/8/8/8/4K2R w K - 0 1").unwrap();
    let move_ = Move::CastleKingside;

    assert!(!is_move_legal(&board, &move_));
}

#[test]
fn test_valid_king_side_castling() {
    let board = Board::from_fen("8/8/8/8/8/8/8/R3K2R w KQ - 0 1").unwrap();
    let move_ = Move::CastleKingside;

    let result = apply_move(&board, &move_).unwrap();

    assert_eq!(result.get_piece(E, _1), None);
    assert_eq!(result.get_piece(H, _1), None);
    assert_eq!(result.get_piece(G, _1), Some(Piece(King, White)));
    assert_eq!(result.get_piece(F, _1), Some(Piece(Rook, White)));
}

#[test]
fn test_valid_queen_side_castling() {
    let board = Board::from_fen("rr6/8/8/8/8/8/8/R3K2R w KQ - 0 1").unwrap();
    let move_ = Move::CastleQueenside;

    let result = apply_move(&board, &move_).unwrap();

    assert_eq!(result.get_piece(E, _1), None);
    assert_eq!(result.get_piece(A, _1), None);
    assert_eq!(result.get_piece(C, _1), Some(Piece(King, White)));
    assert_eq!(result.get_piece(D, _1), Some(Piece(Rook, White)));
}

#[test]
fn test_missing_castling_rights() {
    let board = Board::from_fen("8/8/8/8/8/8/8/R3K2R w - - 0 1").unwrap();
    let move_ = Move::CastleKingside;

    assert!(!is_move_legal(&board, &move_));
}

#[test]
fn test_king_move_voids_white_castling_rights() {
    let board = Board::from_fen("8/8/8/8/8/8/8/R3K2R w KQkq - 0 1").unwrap();
    let move_ = Move::Normal { src: Square(E, _1), dest: E2 };

    let result = apply_move(&board, &move_).unwrap();

    assert!(
        !(result.has_kingside_castling_rights(Color::White)
            || result.has_queenside_castling_rights(Color::White))
    );
}

#[test]
fn test_king_move_voids_black_castling_rights() {
    let board = Board::from_fen("r3k2r/8/8/8/8/8/8/8 b KQkq - 0 1").unwrap();
    let move_ = Move::Normal { src: Square(E, _8), dest: Square(E, _7) };

    let result = apply_move(&board, &move_).unwrap();

    assert!(
        !(result.has_kingside_castling_rights(Color::Black)
            || result.has_queenside_castling_rights(Color::Black))
    );
}

#[test]
fn test_rook_move_voids_castling_rights() {
    let board = Board::from_fen("8/8/8/8/8/8/8/R3K2R w KQ - 0 1").unwrap();
    let move_ = Move::Normal { src: Square(H, _1), dest: Square(H, _2) };

    let result = apply_move(&board, &move_).unwrap();

    assert!(result.has_queenside_castling_rights(Color::White));
    assert!(!result.has_kingside_castling_rights(Color::White));
}

#[test]
fn test_rook_capture_voids_castling_rights() {
    let board = Board::from_fen("6kb/8/8/8/8/8/8/R3K2R b KQ - 0 1").unwrap();
    let move_ = Move::Normal { src: Square(H, _8), dest: Square(A, _1) };

    let result = apply_move(&board, &move_).unwrap();

    assert!(!result.has_queenside_castling_rights(Color::White));
    assert!(result.has_kingside_castling_rights(Color::White));
}

#[test]
fn test_movement_patterns_from_e2() {
    let mut board = Board::from_fen("8/8/8/8/8/8/8/K7 w - - 0 1").unwrap();
    board.active_player = White;
    let good: [(PieceType, File, Rank); 9] = [
        (Pawn, E, _3),
        (Pawn, E, _4),
        (Knight, C, _3),
        (Bishop, C, _4),
        (Rook, E, _5),
        (Rook, A, _2),
        (Queen, D, _1),
        (Queen, H, _2),
        (King, F, _3),
    ];
    for (piece, dst_file, dst_rank) in good {
        let mut b = board;
        b.set_piece_at(E2, Piece(piece, White));
        let move_ = Move::Normal { src: E2, dest: Square(dst_file, dst_rank) };
        assert!(is_move_legal(&b, &move_));
    }
    let bad: [(PieceType, File, Rank); 5] = [
        (Pawn, E, _5),
        (Knight, E, _4),
        (Bishop, E, _3),
        (Queen, G, _3),
        (King, E, _4),
    ];
    for (piece, dst_file, dst_rank) in bad {
        let mut b = board;
        b.set_piece_at(E2, Piece(piece, White));
        let move_ = Move::Normal { src: E2, dest: Square(dst_file, dst_rank) };
        assert!(!is_move_legal(&b, &move_));
    }
}

#[test]
fn test_cannot_move_opponents_piece_or_own_capture() {
    for player in [White, Black] {
        let mut board = Board::from_fen("k7/8/8/8/8/8/8/K7 b - - 0 1").unwrap();
        board.active_player = player;
        board.set_piece_at(E2, Piece(Queen, player.opponent()));
        assert!(!is_move_legal(&board, &Move::Normal { src: E2, dest: E4 }));

        let mut board = Board::from_fen("k7/8/8/8/8/8/8/K7 b - - 0 1").unwrap();
        board.active_player = player;
        board.set_piece_at(E2, Piece(Queen, player));
        board.set_piece_at(E3, Piece(Queen, player));
        assert!(!is_move_legal(&board, &Move::Normal { src: E2, dest: E3 }));
        assert!(!is_move_legal(&board, &Move::Normal { src: E2, dest: E2 }));
    }
}
