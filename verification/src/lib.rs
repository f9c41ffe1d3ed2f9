pub mod board;
pub mod board_utils;
pub mod eval;
pub mod fen;
pub mod generation;
pub mod hashing;
pub mod minimax;
pub mod models;
pub mod move_checking;
pub mod perft;
pub mod players;
pub mod square_utils;
pub mod transposition_table;
pub mod uci;

pub use models::{
    Color, ColorProps, File, GameState, LegalMove, Move, Piece, PieceToPromotion, PieceType,
    PromotionPieceType, PromotionToPiece, Rank, Square,
};
