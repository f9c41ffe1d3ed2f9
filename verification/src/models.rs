//! The value types of the engine: colors, piece kinds, board coordinates,
//! user moves, validated moves and game outcomes.

use vstd::prelude::*;

verus! {

#[derive(Debug, Copy, Clone, PartialEq, Eq, Structural)]
pub enum Color {
    White,
    Black,
}

#[derive(Debug, Copy, Clone, PartialEq, Eq, Structural)]
pub enum PieceType {
    Pawn,
    Knight,
    Bishop,
    Rook,
    Queen,
    King,
}

#[derive(Debug, Copy, Clone, PartialEq, Eq, Structural)]
pub enum PromotionPieceType {
    Knight,
    Bishop,
    Rook,
    Queen,
}

#[derive(Debug, Copy, Clone, PartialEq, Eq, Structural)]
pub enum Rank {
    _1,
    _2,
    _3,
    _4,
    _5,
    _6,
    _7,
    _8,
}

#[derive(Debug, Copy, Clone, PartialEq, Eq, Structural)]
pub enum File {
    A,
    B,
    C,
    D,
    E,
    F,
    G,
    H,
}

#[derive(Debug, Copy, Clone, PartialEq, Eq, Structural)]
pub struct Piece(pub PieceType, pub Color);

#[derive(Debug, Copy, Clone, PartialEq, Eq, Structural)]
pub struct Square(pub File, pub Rank);

/// A move as the user intends it, before any legality check.
#[derive(Debug, Copy, Clone, PartialEq, Eq, Structural)]
pub enum Move {
    Normal { src: Square, dest: Square },
    CastleKingside,
    CastleQueenside,
    Promotion { src: Square, dest: Square, promotion: PromotionPieceType },
}

/// A validated move. It carries the deltas needed to apply it and to take it
/// back without re-checking legality: the castling bits it toggles, the kind
/// of piece it captures, if any, and the en-passant target of the position
/// it was produced from, so unmaking restores it.
///
/// A `LegalMove` is only meaningful on the exact board that produced it.
#[derive(Debug, Copy, Clone, PartialEq, Eq, Structural)]
pub enum LegalMove {
    Normal {
        src: Square,
        dest: Square,
        castle_mask: u8,
        captured_piece: Option<PieceType>,
        prior_en_passant: Option<Square>,
    },
    DoublePawnPush { file: File, prior_en_passant: Option<Square> },
    CastleKingside { castle_mask: u8, prior_en_passant: Option<Square> },
    CastleQueenside { castle_mask: u8, prior_en_passant: Option<Square> },
    Promotion {
        src: Square,
        dest: Square,
        castle_mask: u8,
        promotion: PieceType,
        captured_piece: Option<PieceType>,
        prior_en_passant: Option<Square>,
    },
    EnPassantCapture { src: Square, dest: Square, prior_en_passant: Option<Square> },
}

#[derive(Debug, Clone, PartialEq, Eq, Structural)]
pub enum GameState {
    InProgress,
    Mated(Color),
    Stalemate,
}

impl Rank {
    pub open spec fn as_int(self) -> int {
        match self {
            Rank::_1 => 0,
            Rank::_2 => 1,
            Rank::_3 => 2,
            Rank::_4 => 3,
            Rank::_5 => 4,
            Rank::_6 => 5,
            Rank::_7 => 6,
            Rank::_8 => 7,
        }
    }

    pub fn to_i8(self) -> (r: i8)
        ensures
            r as int == self.as_int(),
    {
        match self {
            Rank::_1 => 0,
            Rank::_2 => 1,
            Rank::_3 => 2,
            Rank::_4 => 3,
            Rank::_5 => 4,
            Rank::_6 => 5,
            Rank::_7 => 6,
            Rank::_8 => 7,
        }
    }

    pub fn from_i8(i: i8) -> (r: Option<Rank>)
        ensures
            r is Some <==> 0 <= i < 8,
            r is Some ==> r->0.as_int() == i as int,
    {
        match i {
            0 => Some(Rank::_1),
            1 => Some(Rank::_2),
            2 => Some(Rank::_3),
            3 => Some(Rank::_4),
            4 => Some(Rank::_5),
            5 => Some(Rank::_6),
            6 => Some(Rank::_7),
            7 => Some(Rank::_8),
            _ => None,
        }
    }
}

impl File {
    pub open spec fn as_int(self) -> int {
        match self {
            File::A => 0,
            File::B => 1,
            File::C => 2,
            File::D => 3,
            File::E => 4,
            File::F => 5,
            File::G => 6,
            File::H => 7,
        }
    }

    pub fn to_i8(self) -> (r: i8)
        ensures
            r as int == self.as_int(),
    {
        match self {
            File::A => 0,
            File::B => 1,
            File::C => 2,
            File::D => 3,
            File::E => 4,
            File::F => 5,
            File::G => 6,
            File::H => 7,
        }
    }

    pub fn from_i8(i: i8) -> (r: Option<File>)
        ensures
            r is Some <==> 0 <= i < 8,
            r is Some ==> r->0.as_int() == i as int,
    {
        match i {
            0 => Some(File::A),
            1 => Some(File::B),
            2 => Some(File::C),
            3 => Some(File::D),
            4 => Some(File::E),
            5 => Some(File::F),
            6 => Some(File::G),
            7 => Some(File::H),
            _ => None,
        }
    }
}

/// The rank with the given index; the inverse of `Rank::as_int` on `0..8`.
pub open spec fn rank_of_int(i: int) -> Rank {
    if i == 0 { Rank::_1 }
    else if i == 1 { Rank::_2 }
    else if i == 2 { Rank::_3 }
    else if i == 3 { Rank::_4 }
    else if i == 4 { Rank::_5 }
    else if i == 5 { Rank::_6 }
    else if i == 6 { Rank::_7 }
    else { Rank::_8 }
}

/// The file with the given index; the inverse of `File::as_int` on `0..8`.
pub open spec fn file_of_int(i: int) -> File {
    if i == 0 { File::A }
    else if i == 1 { File::B }
    else if i == 2 { File::C }
    else if i == 3 { File::D }
    else if i == 4 { File::E }
    else if i == 5 { File::F }
    else if i == 6 { File::G }
    else { File::H }
}

impl Square {
    /// Position of this square in a rank-major array of the 64 squares.
    pub open spec fn as_index(self) -> int {
        self.1.as_int() * 8 + self.0.as_int()
    }

    pub fn to_index(self) -> (r: usize)
        ensures
            r as int == self.as_index(),
            r < 64,
    {
        (self.1.to_i8() as usize) * 8 + (self.0.to_i8() as usize)
    }
}

/// The square whose rank-major index is `i`; the inverse of `Square::as_index`.
pub open spec fn square_of_index(i: int) -> Square {
    Square(file_of_int(i % 8), rank_of_int(i / 8))
}

pub broadcast proof fn lemma_square_index_bijective(s: Square)
    ensures
        0 <= #[trigger] s.as_index() < 64,
        square_of_index(s.as_index()) == s,
{
}

pub broadcast proof fn lemma_index_square_roundtrip(i: int)
    requires
        0 <= i < 64,
    ensures
        #[trigger] square_of_index(i).as_index() == i,
{
}

pub trait ColorProps: Sized {
    /// The other side.
    spec fn opponent_spec(&self) -> Color;

    /// First rank for White, eighth for Black: where the king and rooks start.
    spec fn home_rank_spec(&self) -> Rank;

    /// The rank a pawn crosses on its double push.
    spec fn hop_rank_spec(&self) -> Rank;

    /// The rank a pawn lands on after its double push.
    spec fn double_push_rank_spec(&self) -> Rank;

    /// The rank this side's pawns start on.
    spec fn pawn_start_rank_spec(&self) -> Rank;

    /// The opponent's home rank.
    spec fn opp_home_rank_spec(&self) -> Rank;

    /// Both castling-rights bits of this side.
    spec fn castle_bit_mask_spec(&self) -> u8;

    /// The square this side's king starts on.
    spec fn king_home_square_spec(&self) -> Square;

    fn opponent(&self) -> (r: Color)
        ensures
            r == self.opponent_spec(),
    ;

    fn home_rank(&self) -> (r: Rank)
        ensures
            r == self.home_rank_spec(),
    ;

    fn hop_rank(&self) -> (r: Rank)
        ensures
            r == self.hop_rank_spec(),
    ;

    fn double_push_rank(&self) -> (r: Rank)
        ensures
            r == self.double_push_rank_spec(),
    ;

    fn pawn_start_rank(&self) -> (r: Rank)
        ensures
            r == self.pawn_start_rank_spec(),
    ;

    fn opp_home_rank(&self) -> (r: Rank)
        ensures
            r == self.opp_home_rank_spec(),
    ;

    fn castle_bit_mask(&self) -> (r: u8)
        ensures
            r == self.castle_bit_mask_spec(),
    ;

    fn king_home_square(&self) -> (r: Square)
        ensures
            r == self.king_home_square_spec(),
    ;
}

impl ColorProps for Color {
    open spec fn opponent_spec(&self) -> Color {
        match *self {
            Color::White => Color::Black,
            Color::Black => Color::White,
        }
    }

    open spec fn home_rank_spec(&self) -> Rank {
        match *self {
            Color::White => Rank::_1,
            Color::Black => Rank::_8,
        }
    }

    open spec fn hop_rank_spec(&self) -> Rank {
        match *self {
            Color::White => Rank::_3,
            Color::Black => Rank::_6,
        }
    }

    open spec fn double_push_rank_spec(&self) -> Rank {
        match *self {
            Color::White => Rank::_4,
            Color::Black => Rank::_5,
        }
    }

    open spec fn pawn_start_rank_spec(&self) -> Rank {
        match *self {
            Color::White => Rank::_2,
            Color::Black => Rank::_7,
        }
    }

    open spec fn opp_home_rank_spec(&self) -> Rank {
        match *self {
            Color::White => Rank::_8,
            Color::Black => Rank::_1,
        }
    }

    open spec fn castle_bit_mask_spec(&self) -> u8 {
        match *self {
            Color::White => 0b1100u8,
            Color::Black => 0b0011u8,
        }
    }

    open spec fn king_home_square_spec(&self) -> Square {
        match *self {
            Color::White => Square(File::E, Rank::_1),
            Color::Black => Square(File::E, Rank::_8),
        }
    }

    fn opponent(&self) -> Color {
        match *self {
            Color::White => Color::Black,
            Color::Black => Color::White,
        }
    }

    fn home_rank(&self) -> Rank {
        match *self {
            Color::White => Rank::_1,
            Color::Black => Rank::_8,
        }
    }

    fn hop_rank(&self) -> Rank {
        match *self {
            Color::White => Rank::_3,
            Color::Black => Rank::_6,
        }
    }

    fn double_push_rank(&self) -> Rank {
        match *self {
            Color::White => Rank::_4,
            Color::Black => Rank::_5,
        }
    }

    fn pawn_start_rank(&self) -> Rank {
        match *self {
            Color::White => Rank::_2,
            Color::Black => Rank::_7,
        }
    }

    fn opp_home_rank(&self) -> Rank {
        match *self {
            Color::White => Rank::_8,
            Color::Black => Rank::_1,
        }
    }

    fn castle_bit_mask(&self) -> u8 {
        match *self {
            Color::White => 0b1100,
            Color::Black => 0b0011,
        }
    }

    fn king_home_square(&self) -> Square {
        match *self {
            Color::White => Square(File::E, Rank::_1),
            Color::Black => Square(File::E, Rank::_8),
        }
    }
}

pub trait PromotionToPiece: Sized {
    spec fn to_piece_spec(&self) -> PieceType;

    fn to_piece(&self) -> (r: PieceType)
        ensures
            r == self.to_piece_spec(),
    ;
}

impl PromotionToPiece for PromotionPieceType {
    open spec fn to_piece_spec(&self) -> PieceType {
        match *self {
            PromotionPieceType::Knight => PieceType::Knight,
            PromotionPieceType::Bishop => PieceType::Bishop,
            PromotionPieceType::Rook => PieceType::Rook,
            PromotionPieceType::Queen => PieceType::Queen,
        }
    }

    fn to_piece(&self) -> PieceType {
        match *self {
            PromotionPieceType::Knight => PieceType::Knight,
            PromotionPieceType::Bishop => PieceType::Bishop,
            PromotionPieceType::Rook => PieceType::Rook,
            PromotionPieceType::Queen => PieceType::Queen,
        }
    }
}

pub trait PieceToPromotion: Sized {
    /// Whether a pawn may promote to this kind of piece.
    spec fn promotable(&self) -> bool;

    spec fn to_promotion_spec(&self) -> PromotionPieceType;

    fn to_promotion(&self) -> (r: PromotionPieceType)
        requires
            self.promotable(),
        ensures
            r == self.to_promotion_spec(),
    ;
}

impl PieceToPromotion for PieceType {
    open spec fn promotable(&self) -> bool {
        *self != PieceType::Pawn && *self != PieceType::King
    }

    open spec fn to_promotion_spec(&self) -> PromotionPieceType {
        match *self {
            PieceType::Knight => PromotionPieceType::Knight,
            PieceType::Bishop => PromotionPieceType::Bishop,
            PieceType::Rook => PromotionPieceType::Rook,
            _ => PromotionPieceType::Queen,
        }
    }

    fn to_promotion(&self) -> PromotionPieceType {
        match *self {
            PieceType::Knight => PromotionPieceType::Knight,
            PieceType::Bishop => PromotionPieceType::Bishop,
            PieceType::Rook => PromotionPieceType::Rook,
            _ => PromotionPieceType::Queen,
        }
    }
}

impl Square {
    /// Reads a square from its two-character algebraic name, such as `e4`.
    pub fn from_string(s: &str) -> (r: Result<Square, String>)
        ensures
            s@.len() == 2 ==> {
                let f = spec_file_of_char(s@[0]);
                let k = spec_rank_of_char(s@[1]);
                match r {
                    Ok(sq) => f is Some && k is Some && sq == Square(f->0, k->0),
                    Err(_) => f is None || k is None,
                }
            },
            s@.len() != 2 ==> r is Err,
    {
        if s.unicode_len() != 2 {
            return Err("Expected 2 characters".to_owned());
        }
        let file = match s.get_char(0) {
            'a' | 'A' => File::A,
            'b' | 'B' => File::B,
            'c' | 'C' => File::C,
            'd' | 'D' => File::D,
            'e' | 'E' => File::E,
            'f' | 'F' => File::F,
            'g' | 'G' => File::G,
            'h' | 'H' => File::H,
            _ => return Err("Invalid file".to_owned()),
        };
        let rank = match s.get_char(1) {
            '1' => Rank::_1,
            '2' => Rank::_2,
            '3' => Rank::_3,
            '4' => Rank::_4,
            '5' => Rank::_5,
            '6' => Rank::_6,
            '7' => Rank::_7,
            '8' => Rank::_8,
            _ => return Err("Invalid rank".to_owned()),
        };
        Ok(Square(file, rank))
    }
}

/// The file named by an algebraic file letter, either case.
pub open spec fn spec_file_of_char(c: char) -> Option<File> {
    if c == 'a' || c == 'A' { Some(File::A) }
    else if c == 'b' || c == 'B' { Some(File::B) }
    else if c == 'c' || c == 'C' { Some(File::C) }
    else if c == 'd' || c == 'D' { Some(File::D) }
    else if c == 'e' || c == 'E' { Some(File::E) }
    else if c == 'f' || c == 'F' { Some(File::F) }
    else if c == 'g' || c == 'G' { Some(File::G) }
    else if c == 'h' || c == 'H' { Some(File::H) }
    else { None }
}

/// The rank named by an algebraic rank digit.
pub open spec fn spec_rank_of_char(c: char) -> Option<Rank> {
    if c == '1' { Some(Rank::_1) }
    else if c == '2' { Some(Rank::_2) }
    else if c == '3' { Some(Rank::_3) }
    else if c == '4' { Some(Rank::_4) }
    else if c == '5' { Some(Rank::_5) }
    else if c == '6' { Some(Rank::_6) }
    else if c == '7' { Some(Rank::_7) }
    else if c == '8' { Some(Rank::_8) }
    else { None }
}

} // verus!
