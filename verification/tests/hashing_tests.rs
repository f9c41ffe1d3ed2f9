use otus::board::Board;
use otus::hashing::{get_zobrist_hash, update_zobrist_hash};
use otus::models::{LegalMove, Square};
use otus::move_checking::apply_legal_move;

#[test]
pub fn test_transposition_hashes_match() {
    let board: Board = Board::default();
    let init_hash = get_zobrist_hash(&board);
    let (pawn_move_w, knight_move_w, pawn_move_b, knight_move_b) = (
        LegalMove::Normal {
            src: Square::from_string("e2").unwrap(),
            dest: Square::from_string("e3").unwrap(),
            castle_mask: 0,
            captured_piece: None,
            prior_en_passant: None,
        },
        LegalMove::Normal {
            src: Square::from_string("b1").unwrap(),
            dest: Square::from_string("c3").unwrap(),
            castle_mask: 0,
            captured_piece: None,
            prior_en_passant: None,
        },
        LegalMove::Normal {
            src: Square::from_string("e7").unwrap(),
            dest: Square::from_string("e6").unwrap(),
            castle_mask: 0,
            captured_piece: None,
            prior_en_passant: None,
        },
        LegalMove::Normal {
            src: Square::from_string("b8").unwrap(),
            dest: Square::from_string("c6").unwrap(),
            castle_mask: 0,
            captured_piece: None,
            prior_en_passant: None,
        },
    );
    let (board_1, hash_1) = [
        pawn_move_w.clone(),
        pawn_move_b.clone(),
        knight_move_w.clone(),
        knight_move_b.clone(),
    ]
    .iter()
    .fold((board, init_hash), |(board, hash), mv| {
        let new_hash = update_zobrist_hash(&board, hash, mv);
        let new_board = apply_legal_move(&board, mv);
        (new_board, new_hash)
    });
    let (board_2, hash_2) = [knight_move_w, knight_move_b, pawn_move_w, pawn_move_b]
        .iter()
        .fold((board, init_hash), |(board, hash), mv| {
            let new_hash = update_zobrist_hash(&board, hash, mv);
            let new_board = apply_legal_move(&board, mv);
            (new_board, new_hash)
        });

    assert_eq!(hash_1, get_zobrist_hash(&board_1));
    assert_eq!(hash_2, get_zobrist_hash(&board_2));
    assert_eq!(hash_1, hash_2);
}

#[test]
fn test_incremental_update_matches_full_hash() {
    let board =
        Board::from_fen("r3k2r/p1ppqpb1/bn2pnp1/3PN3/1p2P3/2N2Q1p/PPPBBPPP/R3K2R w KQkq - 0 1")
            .unwrap();
    let hash = get_zobrist_hash(&board);
    for mv in board.get_legal_moves() {
        let updated = update_zobrist_hash(&board, hash, &mv);
        let after = apply_legal_move(&board, &mv);
        assert_eq!(updated, get_zobrist_hash(&after));
    }
}

#[test]
fn test_en_passant_state_changes_hash() {
    let with_target = Board::from_fen("8/2p5/3p4/KP5r/1R2Pp1k/8/6P1/8 b - e3 0 1").unwrap();
    let without_target = Board::from_fen("8/2p5/3p4/KP5r/1R2Pp1k/8/6P1/8 b - - 0 1").unwrap();
    assert_ne!(get_zobrist_hash(&with_target), get_zobrist_hash(&without_target));
}

#[test]
fn test_side_to_move_changes_hash() {
    let white = Board::from_fen("4k3/8/8/8/8/8/8/4K3 w - - 0 1").unwrap();
    let black = Board::from_fen("4k3/8/8/8/8/8/8/4K3 b - - 0 1").unwrap();
    assert_ne!(get_zobrist_hash(&white), get_zobrist_hash(&black));
}
