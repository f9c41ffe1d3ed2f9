//! Long-algebraic move strings and the replay of a whole move list, as the
//! UCI `position` command hands them over.

use vstd::prelude::*;

use crate::board::{make_spec, Board, BoardView};
use crate::minimax::{check_position, search_pre};
use crate::models::{
    spec_file_of_char, spec_rank_of_char, Color, File, LegalMove, Move, Piece, PieceToPromotion,
    PieceType, PromotionPieceType, Rank, Square,
};
use crate::move_checking::{apply_move, legal_from_move_spec};

verus! {

/// The move a long-algebraic string of four or five characters names on
/// this position. A king's two-file step off its home square reads as
/// castling; a fifth character names the piece promoted to.
pub open spec fn uci_move_spec(v: BoardView, s: Seq<char>) -> Option<Move> {
    if s.len() < 4 {
        None
    } else {
        let f0 = spec_file_of_char(s[0]);
        let r0 = spec_rank_of_char(s[1]);
        let f1 = spec_file_of_char(s[2]);
        let r1 = spec_rank_of_char(s[3]);
        if f0 is Some && r0 is Some && f1 is Some && r1 is Some {
            let from = Square(f0->0, r0->0);
            let to = Square(f1->0, r1->0);
            if from == Square(File::E, Rank::_1) && to == Square(File::G, Rank::_1) && v.at(from)
                == Some(Piece(PieceType::King, Color::White)) {
                Some(Move::CastleKingside)
            } else if from == Square(File::E, Rank::_1) && to == Square(File::C, Rank::_1) && v.at(
                from,
            ) == Some(Piece(PieceType::King, Color::White)) {
                Some(Move::CastleQueenside)
            } else if from == Square(File::E, Rank::_8) && to == Square(File::G, Rank::_8) && v.at(
                from,
            ) == Some(Piece(PieceType::King, Color::Black)) {
                Some(Move::CastleKingside)
            } else if from == Square(File::E, Rank::_8) && to == Square(File::C, Rank::_8) && v.at(
                from,
            ) == Some(Piece(PieceType::King, Color::Black)) {
                Some(Move::CastleQueenside)
            } else if s.len() == 5 {
                if s[4] == 'n' {
                    Some(Move::Promotion { src: from, dest: to, promotion: PromotionPieceType::Knight })
                } else if s[4] == 'b' {
                    Some(Move::Promotion { src: from, dest: to, promotion: PromotionPieceType::Bishop })
                } else if s[4] == 'r' {
                    Some(Move::Promotion { src: from, dest: to, promotion: PromotionPieceType::Rook })
                } else if s[4] == 'q' {
                    Some(Move::Promotion { src: from, dest: to, promotion: PromotionPieceType::Queen })
                } else {
                    None
                }
            } else {
                Some(Move::Normal { src: from, dest: to })
            }
        } else {
            None
        }
    }
}

impl Move {
    /// Reads a long-algebraic move string against the given position.
    pub fn from_uci_string(board: &Board, move_str: &str) -> (r: Result<Move, String>)
        ensures
            match r {
                Ok(m) => uci_move_spec(board@, move_str@) == Some(m),
                Err(_) => uci_move_spec(board@, move_str@) is None,
            },
    {
        let n = move_str.unicode_len();
        if n < 4 {
            return Err("Error parsing move".to_owned());
        }
        let f0 = move_str.get_char(0);
        let r0 = move_str.get_char(1);
        let f1 = move_str.get_char(2);
        let r1 = move_str.get_char(3);
        let from = match parse_square_chars(f0, r0) {
            Some(sq) => sq,
            None => {
                return Err("Error parsing move".to_owned());
            },
        };
        let to = match parse_square_chars(f1, r1) {
            Some(sq) => sq,
            None => {
                return Err("Error parsing move".to_owned());
            },
        };
        let from_piece = board.get_piece_at(from);
        if from == Square(File::E, Rank::_1) && to == Square(File::G, Rank::_1) && (match
            from_piece {
            Some(p) => p == Piece(PieceType::King, Color::White),
            None => false,
        }) {
            return Ok(Move::CastleKingside);
        }
        if from == Square(File::E, Rank::_1) && to == Square(File::C, Rank::_1) && (match
            from_piece {
            Some(p) => p == Piece(PieceType::King, Color::White),
            None => false,
        }) {
            return Ok(Move::CastleQueenside);
        }
        if from == Square(File::E, Rank::_8) && to == Square(File::G, Rank::_8) && (match
            from_piece {
            Some(p) => p == Piece(PieceType::King, Color::Black),
            None => false,
        }) {
            return Ok(Move::CastleKingside);
        }
        if from == Square(File::E, Rank::_8) && to == Square(File::C, Rank::_8) && (match
            from_piece {
            Some(p) => p == Piece(PieceType::King, Color::Black),
            None => false,
        }) {
            return Ok(Move::CastleQueenside);
        }
        if n == 5 {
            let promotion = match move_str.get_char(4) {
                'n' => PromotionPieceType::Knight,
                'b' => PromotionPieceType::Bishop,
                'r' => PromotionPieceType::Rook,
                'q' => PromotionPieceType::Queen,
                _ => {
                    return Err("Invalid promotion piece".to_owned());
                },
            };
            Ok(Move::Promotion { src: from, dest: to, promotion })
        } else {
            Ok(Move::Normal { src: from, dest: to })
        }
    }
}

/// Reads a square from its file letter and rank digit.
fn parse_square_chars(fc: char, rc: char) -> (r: Option<Square>)
    ensures
        ({
            let f = spec_file_of_char(fc);
            let k = spec_rank_of_char(rc);
            match r {
                Some(sq) => f is Some && k is Some && sq == Square(f->0, k->0),
                None => f is None || k is None,
            }
        }),
{
    let file = match fc {
        'a' | 'A' => File::A,
        'b' | 'B' => File::B,
        'c' | 'C' => File::C,
        'd' | 'D' => File::D,
        'e' | 'E' => File::E,
        'f' | 'F' => File::F,
        'g' | 'G' => File::G,
        'h' | 'H' => File::H,
        _ => {
            return None;
        },
    };
    let rank = match rc {
        '1' => Rank::_1,
        '2' => Rank::_2,
        '3' => Rank::_3,
        '4' => Rank::_4,
        '5' => Rank::_5,
        '6' => Rank::_6,
        '7' => Rank::_7,
        '8' => Rank::_8,
        _ => {
            return None;
        },
    };
    Some(Square(file, rank))
}

/// The user move a validated move reads back as on the position it came
/// from.
pub open spec fn to_move_spec(lm: LegalMove, v: BoardView) -> Move {
    match lm {
        LegalMove::Normal { src, dest, .. } => Move::Normal { src, dest },
        LegalMove::CastleKingside { .. } => Move::CastleKingside,
        LegalMove::CastleQueenside { .. } => Move::CastleQueenside,
        LegalMove::Promotion { src, dest, promotion, .. } => Move::Promotion {
            src,
            dest,
            promotion: promotion.to_promotion_spec(),
        },
        LegalMove::EnPassantCapture { src, dest, .. } => Move::Normal { src, dest },
        LegalMove::DoublePawnPush { file, .. } => match v.active_player {
            Color::White => Move::Normal {
                src: Square(file, Rank::_2),
                dest: Square(file, Rank::_4),
            },
            Color::Black => Move::Normal {
                src: Square(file, Rank::_7),
                dest: Square(file, Rank::_5),
            },
        },
    }
}

impl LegalMove {
    /// Forgets the bookkeeping: the user move this validated move stands
    /// for, on the board it was produced from.
    pub fn to_move(&self, board: &Board) -> (r: Move)
        requires
            self matches LegalMove::Promotion { promotion, .. } ==> promotion
                != PieceType::Pawn && promotion != PieceType::King,
        ensures
            r == to_move_spec(*self, board@),
    {
        match self {
            LegalMove::Normal { src, dest, .. } => Move::Normal { src: *src, dest: *dest },
            LegalMove::CastleKingside { .. } => Move::CastleKingside,
            LegalMove::CastleQueenside { .. } => Move::CastleQueenside,
            LegalMove::Promotion { src, dest, promotion, .. } => Move::Promotion {
                src: *src,
                dest: *dest,
                promotion: promotion.to_promotion(),
            },
            LegalMove::EnPassantCapture { src, dest, .. } => Move::Normal { src: *src, dest: *dest },
            LegalMove::DoublePawnPush { file, .. } => match board.active_player {
                Color::White => Move::Normal {
                    src: Square(*file, Rank::_2),
                    dest: Square(*file, Rank::_4),
                },
                Color::Black => Move::Normal {
                    src: Square(*file, Rank::_7),
                    dest: Square(*file, Rank::_5),
                },
            },
        }
    }
}

/// Replays a list of move strings from a starting position: each token must
/// read as a move, each move must be legal in the position reached so far,
/// and each intermediate position must be one the legality rules accept.
pub open spec fn process_spec(v: BoardView, toks: Seq<Seq<char>>, i: int) -> Option<BoardView>
    decreases toks.len() - i,
{
    if i < 0 || i >= toks.len() {
        Some(v)
    } else {
        match uci_move_spec(v, toks[i]) {
            None => None,
            Some(m) => {
                if !search_pre(v) {
                    None
                } else {
                    match legal_from_move_spec(v, m) {
                        None => None,
                        Some(lm) => process_spec(make_spec(v, lm), toks, i + 1),
                    }
                }
            },
        }
    }
}

/// The character sequences of a list of tokens.
pub open spec fn token_views(ts: Seq<&str>) -> Seq<Seq<char>> {
    ts.map_values(|t: &str| t@)
}

/// Applies a list of long-algebraic moves to a copy of the board and
/// returns the resulting position, or the reason the replay stopped.
pub fn process_moves_list(initial_board: &Board, move_tokens: Vec<&str>) -> (r: Result<
    Board,
    String,
>)
    ensures
        ({
            let toks = token_views(move_tokens@);
            match r {
                Ok(b) => process_spec(initial_board@, toks, 0) == Some(b@),
                Err(_) => process_spec(initial_board@, toks, 0) is None,
            }
        }),
{
    let ghost v0 = initial_board@;
    let ghost toks = token_views(move_tokens@);
    let mut board = *initial_board;
    let mut i: usize = 0;
    while i < move_tokens.len()
        invariant
            i <= move_tokens@.len(),
            v0 == initial_board@,
            toks == token_views(move_tokens@),
            toks.len() == move_tokens@.len(),
            process_spec(v0, toks, 0) == process_spec(board@, toks, i as int),
        decreases move_tokens@.len() - i,
    {
        let token = move_tokens[i];
        proof {
            assert(toks[i as int] == token@);
        }
        let move_ = match Move::from_uci_string(&board, token) {
            Ok(m) => m,
            Err(_) => {
                return Err("Invalid move syntax".to_owned());
            },
        };
        if !check_position(&board) {
            return Err("Illegal move".to_owned());
        }
        board = match apply_move(&board, &move_) {
            Ok(b) => b,
            Err(_) => {
                return Err("Illegal move".to_owned());
            },
        };
        i = i + 1;
    }
    Ok(board)
}

} // verus!
