//! Static evaluation in centipawns, from the side to move's point of view:
//! material, piece-square refinements for pawns and knights, and a
//! phase-aware king-safety term.

use vstd::prelude::*;

use crate::board::{Board, BoardView};
use crate::models::{square_of_index, Color, ColorProps, File, Piece, PieceType, Square};
use crate::move_checking::{
    has_king, in_check, is_king_in_check, king_square, lemma_king_square_of, seek_king,
    unique_king,
};
use crate::square_utils::{on_board, sq_at, SquareIter};

verus! {

broadcast use crate::models::lemma_square_index_bijective, crate::models::lemma_index_square_roundtrip;

/// The material worth of a piece kind, in centipawns; kings count nothing.
pub open spec fn plain_value_spec(p: PieceType) -> int {
    match p {
        PieceType::Pawn => 100,
        PieceType::Knight => 300,
        PieceType::Bishop => 300,
        PieceType::Rook => 500,
        PieceType::Queen => 900,
        PieceType::King => 0,
    }
}

/// The signed material balance over the first `n` squares: the mover's
/// pieces count positive, the opponent's negative.
pub open spec fn material_spec(sq: Seq<Option<Piece>>, me: Color, n: int) -> int
    decreases n,
{
    if n <= 0 {
        0
    } else {
        material_spec(sq, me, n - 1) + (match sq[n - 1] {
            Some(p) => if p.1 == me {
                plain_value_spec(p.0)
            } else {
                -plain_value_spec(p.0)
            },
            None => 0,
        })
    }
}

proof fn lemma_material_bounds(sq: Seq<Option<Piece>>, me: Color, n: int)
    requires
        n >= 0,
    ensures
        -900 * n <= material_spec(sq, me, n) <= 900 * n,
    decreases n,
{
    if n > 0 {
        lemma_material_bounds(sq, me, n - 1);
    }
}

/// The signed material balance of the position, in centipawns, positive
/// when the side to move stands better.
pub fn get_material_eval(board: &Board) -> (r: i64)
    ensures
        r as int == material_spec(board@.squares, board.active_player, 64),
{
    let ghost v = board@;
    let mut material_balance: i64 = 0;
    let mut square_iter = SquareIter::new();
    loop
        invariant
            v == board@,
            square_iter.current <= 64,
            material_balance as int == material_spec(
                v.squares,
                v.active_player,
                square_iter.current as int,
            ),
            -900 * square_iter.current <= material_balance <= 900 * square_iter.current,
        ensures
            material_balance as int == material_spec(v.squares, v.active_player, 64),
        decreases 64 - square_iter.current,
    {
        let square = match square_iter.next() {
            Some(s) => s,
            None => {
                break ;
            },
        };
        if let Some(Piece(piece, owner)) = board.get_piece_at(square) {
            let value: i64 = match piece {
                PieceType::Pawn => 100,
                PieceType::Knight => 300,
                PieceType::Bishop => 300,
                PieceType::Rook => 500,
                PieceType::Queen => 900,
                PieceType::King => 0,
            };
            if owner == board.active_player {
                material_balance = material_balance + value;
            } else {
                material_balance = material_balance - value;
            }
        }
    }
    material_balance
}

/// A knight's worth by mobility: lower toward the board's edge, measured
/// by the distance of both coordinates from it.
pub open spec fn knight_value_spec(square: Square) -> int {
    let f = square.0.as_int();
    let r = square.1.as_int();
    let dx = if f < 7 - f { f } else { 7 - f };
    let dy = if r < 7 - r { r } else { 7 - r };
    let num_jumps: int = if dx == 0 && dy == 0 { 2 }
    else if (dx == 1 && dy == 0) || (dx == 0 && dy == 1) { 3 }
    else if (dx == 1 && dy == 1) || (dx == 0 && dy == 2) || (dx == 2 && dy == 0) || (dx == 0 && dy
        == 3) || (dx == 3 && dy == 0) { 4 }
    else if (dx == 1 && dy == 2) || (dx == 2 && dy == 1) || (dx == 1 && dy == 3) || (dx == 3 && dy
        == 1) { 6 }
    else { 8 };
    250 + 10 * num_jumps
}

fn get_knight_value(square: Square) -> (r: i64)
    ensures
        r as int == knight_value_spec(square),
{
    let f = square.0.to_i8() as i64;
    let rk = square.1.to_i8() as i64;
    let dx: i64 = if f < 7 - f { f } else { 7 - f };
    let dy: i64 = if rk < 7 - rk { rk } else { 7 - rk };
    let num_jumps: i64 = if dx == 0 && dy == 0 { 2 }
    else if (dx == 1 && dy == 0) || (dx == 0 && dy == 1) { 3 }
    else if (dx == 1 && dy == 1) || (dx == 0 && dy == 2) || (dx == 2 && dy == 0) || (dx == 0 && dy
        == 3) || (dx == 3 && dy == 0) { 4 }
    else if (dx == 1 && dy == 2) || (dx == 2 && dy == 1) || (dx == 1 && dy == 3) || (dx == 3 && dy
        == 1) { 6 }
    else { 8 };
    250 + 10 * num_jumps
}

/// A pawn's worth: base value, a bonus for ground gained, and a bonus for
/// central files.
pub open spec fn pawn_value_spec(square: Square, color: Color) -> int {
    let dist = crate::square_utils::abs_of(
        square.1.as_int() - color.pawn_start_rank_spec().as_int(),
    );
    let dist_bonus: int = if dist == 0 { 0 }
    else if dist == 1 { 10 }
    else if dist == 2 { 20 }
    else if dist == 3 { 30 }
    else if dist == 4 { 40 }
    else { 220 };
    let file_bonus: int = match square.0 {
        File::A | File::H => 0,
        File::B | File::G => 5,
        File::C | File::F => 10,
        File::D | File::E => 20,
    };
    100 + dist_bonus + file_bonus
}

fn get_pawn_value(square: Square, color: Color) -> (r: i64)
    ensures
        r as int == pawn_value_spec(square, color),
{
    let rank = square.1.to_i8() as i64;
    let home_rank = color.pawn_start_rank().to_i8() as i64;
    let diff = rank - home_rank;
    let dist: i64 = if diff < 0 { -diff } else { diff };
    let dist_bonus: i64 = if dist == 0 { 0 }
    else if dist == 1 { 10 }
    else if dist == 2 { 20 }
    else if dist == 3 { 30 }
    else if dist == 4 { 40 }
    else { 220 };
    let file_bonus: i64 = match square.0 {
        File::A | File::H => 0,
        File::B | File::G => 5,
        File::C | File::F => 10,
        File::D | File::E => 20,
    };
    100 + dist_bonus + file_bonus
}

/// The refined worth of a piece on its square.
pub open spec fn refined_value_spec(p: Piece, square: Square) -> int {
    match p.0 {
        PieceType::Pawn => pawn_value_spec(square, p.1),
        PieceType::Knight => knight_value_spec(square),
        PieceType::Bishop => 310,
        PieceType::Rook => 500,
        PieceType::Queen => 900,
        PieceType::King => 0,
    }
}

/// The refined material of one side over the first `n` squares.
pub open spec fn refined_material_spec(sq: Seq<Option<Piece>>, side: Color, n: int) -> int
    decreases n,
{
    if n <= 0 {
        0
    } else {
        refined_material_spec(sq, side, n - 1) + (match sq[n - 1] {
            Some(p) => if p.1 == side {
                refined_value_spec(p, square_of_index(n - 1))
            } else {
                0
            },
            None => 0,
        })
    }
}

proof fn lemma_refined_bounds(sq: Seq<Option<Piece>>, side: Color, n: int)
    requires
        n >= 0,
    ensures
        0 <= refined_material_spec(sq, side, n) <= 900 * n,
    decreases n,
{
    if n > 0 {
        lemma_refined_bounds(sq, side, n - 1);
    }
}

/// One square of the mover's pawn shield: a friendly pawn on it counts one.
pub open spec fn shield_at(v: BoardView, f: int, r: int) -> int {
    if on_board(f, r) && v.at(sq_at(f, r)) == Some(Piece(PieceType::Pawn, v.active_player)) {
        1
    } else {
        0
    }
}

/// The king-safety bonus of the middlegame: a penalty for a king on the
/// central files, and a bonus for pawns shielding a king on its back rank.
pub open spec fn middlegame_spec(v: BoardView) -> int {
    let ks = king_square(v, v.active_player);
    let center: int = match ks.0 {
        File::E | File::D => -20,
        File::F => -10,
        _ => 20,
    };
    let shield_rank = v.active_player.pawn_start_rank_spec().as_int();
    let pawn_shield = shield_at(v, ks.0.as_int() - 1, shield_rank) + shield_at(
        v,
        ks.0.as_int(),
        shield_rank,
    ) + shield_at(v, ks.0.as_int() + 1, shield_rank);
    let shield_bonus: int = if ks.1 == v.active_player.home_rank_spec() {
        if pawn_shield >= 2 {
            100
        } else if pawn_shield == 1 {
            30
        } else {
            0
        }
    } else {
        0
    };
    center + shield_bonus
}

/// The endgame bonus: the opponent's king driven toward the board's edge,
/// measured by the nearer of its file and rank distances to it.
pub open spec fn endgame_spec(v: BoardView) -> int {
    let ek = king_square(v, v.active_player.opponent_spec());
    let f = ek.0.as_int();
    let r = ek.1.as_int();
    let dx = if f < 7 - f { f } else { 7 - f };
    let dy = if r < 7 - r { r } else { 7 - r };
    (3 - (if dx < dy { dx } else { dy })) * 10
}

/// The full static evaluation: a check penalty, refined material for both
/// sides, and the phase's king-safety term.
pub open spec fn smart_eval_spec(v: BoardView) -> int {
    let check_penalty: int = if in_check(v) { -30 } else { 0 };
    let my_material = refined_material_spec(v.squares, v.active_player, 64);
    let opp_material = refined_material_spec(v.squares, v.active_player.opponent_spec(), 64);
    let phase_bonus: int = if my_material + opp_material < 3300 {
        endgame_spec(v)
    } else {
        middlegame_spec(v)
    };
    check_penalty + my_material - opp_material + phase_bonus
}

fn middlegame_bonuses(board: &Board) -> (r: i64)
    requires
        unique_king(board@, board.active_player),
    ensures
        r as int == middlegame_spec(board@),
{
    let ghost v = board@;
    let active_player = board.active_player;
    let mut score: i64 = 0;
    let king_sq = seek_king(board, active_player);
    proof {
        lemma_king_square_of(v, active_player, king_sq);
    }
    match king_sq.0 {
        File::E | File::D => {
            score = score - 20;
        },
        File::F => {
            score = score - 10;
        },
        _ => {
            score = score + 20;
        },
    }
    if king_sq.1 == active_player.home_rank() {
        let mut pawn_shield: i64 = 0;
        let shield_rank = active_player.pawn_start_rank();
        let base = Square(king_sq.0, shield_rank);
        let mut di: usize = 0;
        while di < 3
            invariant
                di <= 3,
                v == board@,
                active_player == v.active_player,
                base == Square(king_square(v, v.active_player).0, v.active_player.pawn_start_rank_spec()),
                ({
                    let ks = king_square(v, v.active_player);
                    let shield_rank_i = v.active_player.pawn_start_rank_spec().as_int();
                    pawn_shield as int == (if di >= 1 {
                        shield_at(v, ks.0.as_int() - 1, shield_rank_i)
                    } else {
                        0
                    }) + (if di >= 2 {
                        shield_at(v, ks.0.as_int(), shield_rank_i)
                    } else {
                        0
                    }) + (if di >= 3 {
                        shield_at(v, ks.0.as_int() + 1, shield_rank_i)
                    } else {
                        0
                    })
                }),
            decreases 3 - di,
        {
            let step: (i8, i8) = match di {
                0 => (-1, 0),
                1 => (0, 0),
                _ => (1, 0),
            };
            if let Some(pos) = crate::square_utils::pos_plus(base, step) {
                if let Some(Piece(PieceType::Pawn, owner)) = board.get_piece_at(pos) {
                    if owner == active_player {
                        pawn_shield = pawn_shield + 1;
                    }
                }
            }
            di = di + 1;
        }
        if pawn_shield >= 2 {
            score = score + 100;
        } else if pawn_shield == 1 {
            score = score + 30;
        }
    }
    score
}

fn endgame_bonuses(board: &Board) -> (r: i64)
    requires
        unique_king(board@, board.active_player.opponent_spec()),
    ensures
        r as int == endgame_spec(board@),
{
    let king_sq = seek_king(board, board.active_player.opponent());
    proof {
        lemma_king_square_of(board@, board.active_player.opponent_spec(), king_sq);
    }
    let f = king_sq.0.to_i8() as i64;
    let rk = king_sq.1.to_i8() as i64;
    let dx: i64 = if f < 7 - f { f } else { 7 - f };
    let dy: i64 = if rk < 7 - rk { rk } else { 7 - rk };
    (3 - (if dx < dy { dx } else { dy })) * 10
}

/// The refined, phase-aware evaluation of the position, in centipawns from
/// the mover's point of view.
pub fn smart_eval(board: &Board) -> (r: i64)
    requires
        unique_king(board@, board.active_player),
        unique_king(board@, board.active_player.opponent_spec()),
    ensures
        r as int == smart_eval_spec(board@),
{
    let ghost v = board@;
    let mut score: i64 = 0;
    if is_king_in_check(board) {
        score = score - 30;
    }
    let mut my_material: i64 = 0;
    let mut opp_material: i64 = 0;
    let mut square_iter = SquareIter::new();
    loop
        invariant
            v == board@,
            square_iter.current <= 64,
            my_material as int == refined_material_spec(
                v.squares,
                v.active_player,
                square_iter.current as int,
            ),
            opp_material as int == refined_material_spec(
                v.squares,
                v.active_player.opponent_spec(),
                square_iter.current as int,
            ),
            0 <= my_material <= 900 * square_iter.current,
            0 <= opp_material <= 900 * square_iter.current,
        ensures
            my_material as int == refined_material_spec(v.squares, v.active_player, 64),
            opp_material as int == refined_material_spec(
                v.squares,
                v.active_player.opponent_spec(),
                64,
            ),
            0 <= my_material <= 57600,
            0 <= opp_material <= 57600,
        decreases 64 - square_iter.current,
    {
        let square = match square_iter.next() {
            Some(s) => s,
            None => {
                break ;
            },
        };
        if let Some(Piece(piece, owner)) = board.get_piece_at(square) {
            let value: i64 = match piece {
                PieceType::Pawn => get_pawn_value(square, owner),
                PieceType::Knight => get_knight_value(square),
                PieceType::Bishop => 310,
                PieceType::Rook => 500,
                PieceType::Queen => 900,
                PieceType::King => 0,
            };
            proof {
                assert(0 <= pawn_value_spec(square, owner) <= 340);
                assert(0 <= knight_value_spec(square) <= 330);
            }
            if owner == board.active_player {
                my_material = my_material + value;
            } else {
                opp_material = opp_material + value;
            }
        }
    }
    score = score + my_material - opp_material;
    let is_endgame = my_material + opp_material < 3300;
    if is_endgame {
        score = score + endgame_bonuses(board);
    } else {
        score = score + middlegame_bonuses(board);
    }
    score
}

} // verus!
