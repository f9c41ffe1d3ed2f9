//! Move legality: check detection, blocking rules, castling preconditions,
//! and the promotion of pseudo-legal candidates to validated moves.

use vstd::prelude::*;

use crate::board::{make_applicable, make_spec, Board, BoardView};
use crate::board_utils::{attacked, is_square_attacked};
use crate::models::{
    Color, ColorProps, File, LegalMove, Move, Piece, PieceType, PromotionPieceType,
    PromotionToPiece, Rank, Square,
};
use crate::square_utils::{
    between_sq, is_bishop_pattern, is_pattern, is_rook_pattern, path_clear, slide_dist, SlideIter,
};

verus! {

broadcast use crate::models::lemma_square_index_bijective;

/// A king of color `c` stands on `s`.
pub open spec fn is_king_sq(v: BoardView, c: Color, s: Square) -> bool {
    v.at(s) == Some(Piece(PieceType::King, c))
}

pub open spec fn has_king(v: BoardView, c: Color) -> bool {
    exists|s: Square| #[trigger] is_king_sq(v, c, s)
}

/// Exactly one king of color `c` stands on the board.
pub open spec fn unique_king(v: BoardView, c: Color) -> bool {
    &&& has_king(v, c)
    &&& forall|s1: Square, s2: Square|
        #[trigger] is_king_sq(v, c, s1) && #[trigger] is_king_sq(v, c, s2) ==> s1 == s2
}

/// The square of the king of color `c`.
pub open spec fn king_square(v: BoardView, c: Color) -> Square {
    choose|s: Square| #[trigger] is_king_sq(v, c, s)
}

pub proof fn lemma_king_square_of(v: BoardView, c: Color, s: Square)
    requires
        unique_king(v, c),
        is_king_sq(v, c, s),
    ensures
        king_square(v, c) == s,
{
}

/// The side to move stands in check.
pub open spec fn in_check(v: BoardView) -> bool {
    attacked(
        v.squares,
        v.active_player.opponent_spec(),
        king_square(v, v.active_player),
    )
}

/// A set castling right of the side to move is backed by its king and rook
/// standing where castling assumes them.
pub open spec fn active_castling_sound(v: BoardView) -> bool {
    let me = v.active_player;
    let home = me.home_rank_spec();
    &&& v.has_kingside_rights(me) ==> is_king_sq(v, me, Square(File::E, home)) && v.at(
        Square(File::H, home),
    ) == Some(Piece(PieceType::Rook, me))
    &&& v.has_queenside_rights(me) ==> is_king_sq(v, me, Square(File::E, home)) && v.at(
        Square(File::A, home),
    ) == Some(Piece(PieceType::Rook, me))
}

/// What the legality routines assume of a position: one king a side for the
/// mover, and castling rights that stand for real pieces.
pub open spec fn position_invariant(v: BoardView) -> bool {
    &&& unique_king(v, v.active_player)
    &&& active_castling_sound(v)
}

/// The order in which `seek_king` scans the ranks: the home rank first,
/// where the king most often stands.
pub open spec fn scan_rank_spec(c: Color, i: int) -> Rank {
    if i == 0 { c.home_rank_spec() }
    else if i == 1 { Rank::_2 }
    else if i == 2 { Rank::_7 }
    else if i == 3 { Rank::_3 }
    else if i == 4 { Rank::_4 }
    else if i == 5 { Rank::_5 }
    else if i == 6 { Rank::_6 }
    else { c.opp_home_rank_spec() }
}

proof fn lemma_scan_rank_covers(c: Color, r: Rank)
    ensures
        exists|i: int| 0 <= i < 8 && #[trigger] scan_rank_spec(c, i) == r,
{
    assert(scan_rank_spec(c, 0) == c.home_rank_spec());
    assert(scan_rank_spec(c, 1) == Rank::_2);
    assert(scan_rank_spec(c, 2) == Rank::_7);
    assert(scan_rank_spec(c, 3) == Rank::_3);
    assert(scan_rank_spec(c, 4) == Rank::_4);
    assert(scan_rank_spec(c, 5) == Rank::_5);
    assert(scan_rank_spec(c, 6) == Rank::_6);
    assert(scan_rank_spec(c, 7) == c.opp_home_rank_spec());
}

fn scan_rank(c: Color, i: usize) -> (r: Rank)
    requires
        i < 8,
    ensures
        r == scan_rank_spec(c, i as int),
{
    match i {
        0 => c.home_rank(),
        1 => Rank::_2,
        2 => Rank::_7,
        3 => Rank::_3,
        4 => Rank::_4,
        5 => Rank::_5,
        6 => Rank::_6,
        _ => c.opp_home_rank(),
    }
}

/// Finds the king of the given color, scanning the likeliest ranks first.
pub fn seek_king(board: &Board, color: Color) -> (r: Square)
    requires
        has_king(board@, color),
    ensures
        is_king_sq(board@, color, r),
{
    let ghost v = board@;
    let mut ri: usize = 0;
    while ri < 8
        invariant
            ri <= 8,
            v == board@,
            has_king(v, color),
            forall|s: Square, j: int|
                0 <= j < ri && s.1 == #[trigger] scan_rank_spec(color, j) ==> !(
                #[trigger] is_king_sq(v, color, s)),
        decreases 8 - ri,
    {
        let rank = scan_rank(color, ri);
        let mut file: usize = 0;
        while file < 8
            invariant
                ri < 8,
                file <= 8,
                v == board@,
                rank == scan_rank_spec(color, ri as int),
                forall|s: Square| s.1 == rank && s.0.as_int() < file ==> !(
                #[trigger] is_king_sq(v, color, s)),
            decreases 8 - file,
        {
            let pos = Square(File::from_i8(file as i8).unwrap(), rank);
            if let Some(Piece(piece, c)) = board.get_piece_at(pos) {
                if piece == PieceType::King && c == color {
                    return pos;
                }
            }
            proof {
                assert(!is_king_sq(v, color, Square(crate::models::file_of_int(file as int), rank)));
                assert(forall|s: Square| s.1 == rank && s.0.as_int() == file ==> s == Square(
                    crate::models::file_of_int(file as int),
                    rank,
                ));
            }
            file = file + 1;
        }
        ri = ri + 1;
    }
    proof {
        let ks = choose|s: Square| #[trigger] is_king_sq(v, color, s);
        lemma_scan_rank_covers(color, ks.1);
        assert(false);
    }
    vstd::pervasive::unreached()
}

/// Is the mover's king attacked? Asked of boards where the move just made is
/// already on the squares but the turn has not yet passed.
pub fn is_king_in_check(new_board: &Board) -> (r: bool)
    requires
        unique_king(new_board@, new_board.active_player),
    ensures
        r == in_check(new_board@),
{
    let king_pos = seek_king(new_board, new_board.active_player);
    proof {
        lemma_king_square_of(new_board@, new_board.active_player, king_pos);
    }
    is_square_attacked(new_board, king_pos)
}

/// Why or whether a piece may travel from `src` to `dest`: the destination
/// holds no friendly piece; a pawn only steps sideways onto a capture or the
/// en-passant target and only forward onto emptiness; and sliding pieces
/// find the squares between free.
pub open spec fn move_not_blocked(
    v: BoardView,
    piece: PieceType,
    src: Square,
    dest: Square,
) -> bool {
    if v.at(dest) is Some && (v.at(dest)->0).1 == v.active_player {
        false
    } else if piece == PieceType::Knight || piece == PieceType::King {
        true
    } else {
        let pawn_ok = if piece == PieceType::Pawn {
            &&& !(src.0 != dest.0 && v.at(dest) is None && v.en_passant_target != Some(dest))
            &&& !(src.0 == dest.0 && v.at(dest) is Some)
        } else {
            true
        };
        pawn_ok && path_clear(v.squares, src, dest)
    }
}

#[verifier::rlimit(30)]
fn check_move_blocked(piece: PieceType, src: Square, dest: Square, board: &Board) -> (r: Result<
    (),
    String,
>)
    requires
        board@.at(src) == Some(Piece(piece, board.active_player)),
        is_pattern(src, dest, piece, board.active_player),
    ensures
        r is Ok <==> move_not_blocked(board@, piece, src, dest),
{
    let ghost v = board@;
    if let Some(dest_piece) = board.get_piece_at(dest) {
        if dest_piece.1 == board.active_player {
            return Err("Tried to move to a square occupied by a piece of the same color".to_owned(
            ));
        }
    }

    if piece == PieceType::Knight || piece == PieceType::King {
        return Ok(());
    }

    if piece == PieceType::Pawn {
        let sideways = src.0 != dest.0;
        if sideways && board.get_piece_at(dest).is_none() && !(board.en_passant_target == Some(
            dest,
        )) {
            return Err("Pawn cannot move sideways without capturing".to_owned());
        }
        if !sideways && board.get_piece_at(dest).is_some() {
            return Err("Pawn cannot move forward through occupied square".to_owned());
        }
    }

    proof {
        assert(src != dest);
    }
    let mut slide_iter = SlideIter::new(src, dest);
    loop
        invariant
            v == board@,
            piece != PieceType::Knight && piece != PieceType::King,
            slide_iter.wf(),
            slide_iter.source() == src,
            slide_iter.target() == dest,
            1 <= slide_iter.position() <= slide_dist(src, dest),
            path_clear(v.squares, src, dest) ==> move_not_blocked(v, piece, src, dest),
            forall|k: int| 1 <= k < slide_iter.position() ==> v.squares[#[trigger] crate::square_utils::between_sq(
                src,
                dest,
                k,
            ).as_index()] is None,
        decreases slide_dist(src, dest) - slide_iter.position(),
    {
        let ghost pos_k = slide_iter.position();
        match slide_iter.next() {
            Some(pos) => {
                if board.get_piece_at(pos).is_some() {
                    proof {
                        assert(v.squares[crate::square_utils::between_sq(
                            src,
                            dest,
                            pos_k,
                        ).as_index()] is Some);
                        assert(!path_clear(v.squares, src, dest));
                    }
                    return Err("Sliding move is blocked".to_owned());
                }
            },
            None => {
                proof {
                    assert(path_clear(v.squares, src, dest));
                }
                return Ok(());
            },
        }
    }
}


/// The square a pawn captured en passant actually stands on: behind the
/// target square, on the opponent's double-push rank.
pub open spec fn ep_captured_square(active: Color, ep: Square) -> Square {
    match active {
        Color::White => Square(ep.0, Rank::_5),
        Color::Black => Square(ep.0, Rank::_4),
    }
}

/// The en-passant target, when set, lies behind an opponent pawn that just
/// pushed two squares, on an empty square of the proper rank.
pub open spec fn ep_sound(v: BoardView) -> bool {
    v.en_passant_target matches Some(t) ==> {
        &&& t.1 == (match v.active_player {
            Color::White => Rank::_6,
            Color::Black => Rank::_3,
        })
        &&& v.at(t) is None
        &&& v.at(ep_captured_square(v.active_player, t)) == Some(
            Piece(PieceType::Pawn, v.active_player.opponent_spec()),
        )
    }
}

/// Whether the move just placed on the board was an en-passant capture: the
/// moved piece is a pawn standing on the en-passant target.
pub open spec fn ep_capture_move(vt: BoardView, src: Square) -> Option<LegalMove> {
    match vt.en_passant_target {
        None => None,
        Some(ep) => {
            if vt.at(ep) is Some && (vt.at(ep)->0).0 == PieceType::Pawn {
                Some(
                    LegalMove::EnPassantCapture {
                        src,
                        dest: ep,
                        prior_en_passant: vt.en_passant_target,
                    },
                )
            } else {
                None
            }
        },
    }
}

/// Detects an en-passant capture on the tentative board and, when it finds
/// one, removes the captured pawn so the ensuing check test sees it gone.
fn try_get_en_passant_capture(new_board: &mut Board, src: Square) -> (r: Option<LegalMove>)
    ensures
        r == ep_capture_move(old(new_board)@, src),
        r is Some ==> final(new_board)@ == (BoardView {
            squares: old(new_board)@.squares.update(
                ep_captured_square(
                    old(new_board).active_player,
                    old(new_board)@.en_passant_target->0,
                ).as_index(),
                None,
            ),
            ..old(new_board)@
        }),
        r is None ==> *final(new_board) == *old(new_board),
{
    let en_passant_target = match new_board.en_passant_target {
        Some(pos) => pos,
        None => {
            return None;
        },
    };

    let is_pawn = match new_board.get_piece_at(en_passant_target) {
        Some(p) => p.0 == PieceType::Pawn,
        None => false,
    };
    if !is_pawn {
        return None;
    }

    let captured_pawn_pos = match new_board.active_player {
        Color::White => Square(en_passant_target.0, Rank::_5),
        Color::Black => Square(en_passant_target.0, Rank::_4),
    };
    new_board.clear_square(captured_pawn_pos);

    Some(
        LegalMove::EnPassantCapture {
            src,
            dest: en_passant_target,
            prior_en_passant: Some(en_passant_target),
        },
    )
}

/// The castling-rights bits a move from `src` to `dest` clears: capturing a
/// rook on its corner costs the opponent that side's right, and moving
/// one's own king or rook costs one's own. Only bits actually held enter
/// the mask, so the XOR in `make_move` never grants a right.
pub open spec fn castling_mask_spec(v: BoardView, src: Square, dest: Square) -> u8 {
    if v.castling_rights == 0 {
        0u8
    } else {
        let me = v.active_player;
        let opp = me.opponent_spec();
        let home = me.home_rank_spec();
        let opp_home = me.opp_home_rank_spec();
        let m1: u8 = if dest == Square(File::A, opp_home) && v.has_queenside_rights(opp) {
            0u8 | (match me {
                Color::White => 0b0001u8,
                Color::Black => 0b0100u8,
            })
        } else if dest == Square(File::H, opp_home) && v.has_kingside_rights(opp) {
            0u8 | (match me {
                Color::White => 0b0010u8,
                Color::Black => 0b1000u8,
            })
        } else {
            0u8
        };
        if v.has_kingside_rights(me) || v.has_queenside_rights(me) {
            if src == Square(File::E, home) {
                m1 | (v.castling_rights & me.castle_bit_mask_spec())
            } else if src == Square(File::H, home) && v.has_kingside_rights(me) {
                m1 | (match me {
                    Color::White => 0b1000u8,
                    Color::Black => 0b0010u8,
                })
            } else if src == Square(File::A, home) && v.has_queenside_rights(me) {
                m1 | (match me {
                    Color::White => 0b0100u8,
                    Color::Black => 0b0001u8,
                })
            } else {
                m1
            }
        } else {
            m1
        }
    }
}

fn get_castling_mask(old_board: &Board, src: Square, dest: Square) -> (r: u8)
    ensures
        r == castling_mask_spec(old_board@, src, dest),
{
    if old_board.castling_rights == 0 {
        return 0;
    }
    let me = old_board.active_player;
    let opp = me.opponent();
    let home = me.home_rank();
    let opp_home = me.opp_home_rank();
    let mut mask: u8 = 0;
    if dest == Square(File::A, opp_home) && old_board.has_queenside_castling_rights(opp) {
        mask = mask | (match me {
            Color::White => 0b0001,
            Color::Black => 0b0100,
        });
    } else if dest == Square(File::H, opp_home) && old_board.has_kingside_castling_rights(opp) {
        mask = mask | (match me {
            Color::White => 0b0010,
            Color::Black => 0b1000,
        });
    }
    if old_board.has_kingside_castling_rights(me) || old_board.has_queenside_castling_rights(me) {
        if src == Square(File::E, home) {
            mask = mask | (old_board.castling_rights & me.castle_bit_mask());
        } else if src == Square(File::H, home) && old_board.has_kingside_castling_rights(me) {
            mask = mask | (match me {
                Color::White => 0b1000,
                Color::Black => 0b0010,
            });
        } else if src == Square(File::A, home) && old_board.has_queenside_castling_rights(me) {
            mask = mask | (match me {
                Color::White => 0b0100,
                Color::Black => 0b0001,
            });
        }
    }
    mask
}

/// The castle mask clears and never grants: every bit of the mask is a bit
/// the position actually holds, so XOR-ing it against the rights can only
/// switch rights off.
pub proof fn lemma_castle_mask_subset(v: BoardView, src: Square, dest: Square)
    ensures
        castling_mask_spec(v, src, dest) & v.castling_rights == castling_mask_spec(v, src, dest),
{
    let c = v.castling_rights;
    let m = castling_mask_spec(v, src, dest);
    if c == 0 {
        assert(0u8 & c == 0u8) by (bit_vector);
    } else {
        let me = v.active_player;
        let opp = me.opponent_spec();
        let ok_bit: u8 = match opp {
            Color::White => 0b1000u8,
            Color::Black => 0b0010u8,
        };
        let oq_bit: u8 = match opp {
            Color::White => 0b0100u8,
            Color::Black => 0b0001u8,
        };
        let mk_bit: u8 = match me {
            Color::White => 0b1000u8,
            Color::Black => 0b0010u8,
        };
        let mq_bit: u8 = match me {
            Color::White => 0b0100u8,
            Color::Black => 0b0001u8,
        };
        let my_mask: u8 = me.castle_bit_mask_spec();
        let m1: u8 = if dest == Square(File::A, me.opp_home_rank_spec()) && v.has_queenside_rights(
            opp,
        ) {
            0u8 | oq_bit
        } else if dest == Square(File::H, me.opp_home_rank_spec()) && v.has_kingside_rights(opp) {
            0u8 | ok_bit
        } else {
            0u8
        };
        assert(v.has_queenside_rights(opp) == (c & oq_bit != 0));
        assert(v.has_kingside_rights(opp) == (c & ok_bit != 0));
        let cap_q = dest == Square(File::A, me.opp_home_rank_spec()) && c & oq_bit != 0;
        let cap_k = !cap_q && dest == Square(File::H, me.opp_home_rank_spec()) && c & ok_bit != 0;
        assert(m1 == if cap_q {
            0u8 | oq_bit
        } else if cap_k {
            0u8 | ok_bit
        } else {
            0u8
        });
        assert(m1 & c == m1) by (bit_vector)
            requires
                m1 == (if cap_q {
                    0u8 | oq_bit
                } else if cap_k {
                    0u8 | ok_bit
                } else {
                    0u8
                }),
                cap_q ==> c & oq_bit != 0,
                cap_k ==> c & ok_bit != 0,
                ok_bit == 0b1000u8 || ok_bit == 0b0010u8,
                oq_bit == 0b0100u8 || oq_bit == 0b0001u8,
        ;
        if v.has_kingside_rights(me) || v.has_queenside_rights(me) {
            if src == Square(File::E, me.home_rank_spec()) {
                assert(m == m1 | (c & my_mask));
                assert((m1 | (c & my_mask)) & c == (m1 | (c & my_mask))) by (bit_vector)
                    requires
                        m1 & c == m1,
                ;
            } else if src == Square(File::H, me.home_rank_spec()) && v.has_kingside_rights(me) {
                assert(m == m1 | mk_bit);
                assert(c & mk_bit != 0);
                assert((m1 | mk_bit) & c == (m1 | mk_bit)) by (bit_vector)
                    requires
                        m1 & c == m1,
                        c & mk_bit != 0,
                        mk_bit == 0b1000u8 || mk_bit == 0b0010u8,
                ;
            } else if src == Square(File::A, me.home_rank_spec()) && v.has_queenside_rights(me) {
                assert(m == m1 | mq_bit);
                assert(c & mq_bit != 0);
                assert((m1 | mq_bit) & c == (m1 | mq_bit)) by (bit_vector)
                    requires
                        m1 & c == m1,
                        c & mq_bit != 0,
                        mq_bit == 0b0100u8 || mq_bit == 0b0001u8,
                ;
            } else {
                assert(m == m1);
            }
        } else {
            assert(m == m1);
        }
    }
}

/// A pawn stepping from its start rank to the double-push rank.
pub open spec fn double_push_spec(v: BoardView, src: Square, dest: Square) -> bool {
    &&& (v.at(src)->0).0 == PieceType::Pawn
    &&& src.1 == v.active_player.pawn_start_rank_spec()
    &&& dest.1 == v.active_player.double_push_rank_spec()
}

fn is_double_pawn_push(board: &Board, src: Square, dest: Square) -> (r: bool)
    requires
        board@.at(src) is Some,
    ensures
        r == double_push_spec(board@, src, dest),
{
    if board.get_piece_at(src).unwrap().0 != PieceType::Pawn {
        return false;
    }
    let home_rank = board.active_player.pawn_start_rank();
    let hop_rank = board.active_player.double_push_rank();
    src.1 == home_rank && dest.1 == hop_rank
}

/// The tentative board: the moving piece set down on `dest` and lifted off
/// `src`, nothing else touched yet.
pub open spec fn tentative_board(v: BoardView, src: Square, dest: Square) -> BoardView {
    BoardView {
        squares: v.squares.update(dest.as_index(), v.at(src)).update(src.as_index(), None),
        ..v
    }
}

/// The tentative board with an en-passant victim removed, when the move was
/// such a capture.
pub open spec fn tentative_after_ep(v: BoardView, src: Square, dest: Square) -> BoardView {
    let tent = tentative_board(v, src, dest);
    if ep_capture_move(tent, src) is Some {
        BoardView {
            squares: tent.squares.update(
                ep_captured_square(v.active_player, tent.en_passant_target->0).as_index(),
                None,
            ),
            ..tent
        }
    } else {
        tent
    }
}

/// How a candidate from `src` to `dest` is judged and classified: the mover
/// must own the piece, the path must be free, and the mover's king must not
/// be attacked once the piece has tentatively moved. A legal candidate comes
/// back as an en-passant capture, a double push, or a plain move carrying
/// its castling-mask and capture bookkeeping.
pub open spec fn classify_normal(v: BoardView, src: Square, dest: Square) -> Option<LegalMove> {
    if !(v.at(src) is Some) {
        None
    } else {
        let sp = v.at(src)->0;
        if sp.1 != v.active_player {
            None
        } else if !move_not_blocked(v, sp.0, src, dest) {
            None
        } else {
            let tent2 = tentative_after_ep(v, src, dest);
            let epm = ep_capture_move(tentative_board(v, src, dest), src);
            if in_check(tent2) {
                None
            } else if epm is Some {
                epm
            } else if double_push_spec(v, src, dest) {
                Some(
                    LegalMove::DoublePawnPush {
                        file: src.0,
                        prior_en_passant: v.en_passant_target,
                    },
                )
            } else {
                Some(
                    LegalMove::Normal {
                        src,
                        dest,
                        castle_mask: castling_mask_spec(v, src, dest),
                        captured_piece: match v.at(dest) {
                            Some(p) => Some(p.0),
                            None => None,
                        },
                        prior_en_passant: v.en_passant_target,
                    },
                )
            }
        }
    }
}

/// After the tentative move the mover still has exactly one king.
proof fn lemma_tentative_unique_king(v: BoardView, src: Square, dest: Square)
    requires
        v.squares.len() == 64,
        unique_king(v, v.active_player),
        ep_sound(v),
        v.at(src) is Some,
        (v.at(src)->0).1 == v.active_player,
        !(v.at(dest) is Some && (v.at(dest)->0).1 == v.active_player),
    ensures
        unique_king(tentative_after_ep(v, src, dest), v.active_player),
{
    let me = v.active_player;
    let tent = tentative_board(v, src, dest);
    let t2 = tentative_after_ep(v, src, dest);
    let sp = v.at(src)->0;
    assert(src != dest);

    // When the tentative move reads as an en-passant capture, the moved
    // piece is a pawn standing on the target, and the removed square held
    // the opponent's pawn.
    if v.en_passant_target is Some {
        let ep = v.en_passant_target->0;
        let captured = ep_captured_square(me, ep);
        assert(v.at(ep) is None);
        assert(src != ep);
        assert(src != captured);
        assert(captured != ep);
        if ep != dest {
            assert(tent.at(ep) == v.at(ep));
            assert(ep_capture_move(tent, src) is None);
        }
    }

    if sp.0 == PieceType::King {
        assert(ep_capture_move(tent, src) is None);
        assert(t2 == tent);
        assert(is_king_sq(t2, me, dest));
        assert forall|s1: Square, s2: Square|
            #[trigger] is_king_sq(t2, me, s1) && #[trigger] is_king_sq(t2, me, s2) implies s1
            == s2 by {
            assert forall|s: Square| #[trigger] is_king_sq(t2, me, s) implies s == dest by {
                if s != dest && s != src {
                    assert(is_king_sq(v, me, s));
                    assert(is_king_sq(v, me, src));
                }
            }
        }
    } else {
        let ks = choose|s: Square| #[trigger] is_king_sq(v, me, s);
        assert(ks != src);
        assert(ks != dest);
        if ep_capture_move(tent, src) is Some {
            let ep = v.en_passant_target->0;
            let captured = ep_captured_square(me, ep);
            assert(v.at(captured) == Some(Piece(PieceType::Pawn, me.opponent_spec())));
            assert(ks != captured);
            assert(t2.at(ks) == v.at(ks));
        } else {
            assert(t2.at(ks) == v.at(ks));
        }
        assert(is_king_sq(t2, me, ks));
        assert forall|s1: Square, s2: Square|
            #[trigger] is_king_sq(t2, me, s1) && #[trigger] is_king_sq(t2, me, s2) implies s1
            == s2 by {
            assert forall|s: Square| #[trigger] is_king_sq(t2, me, s) implies s == ks by {
                if s != src && s != dest {
                    if ep_capture_move(tent, src) is Some && s == ep_captured_square(
                        me,
                        v.en_passant_target->0,
                    ) {
                        assert(t2.at(s) is None);
                    } else {
                        assert(t2.at(s) == v.at(s));
                        assert(is_king_sq(v, me, s));
                    }
                }
            }
        }
    }
}

/// Judges and classifies a candidate move whose movement pattern is already
/// known to fit the piece.
pub(crate) fn get_normal_legal_move_from_pseudolegal(board: &Board, src: Square, dest: Square) -> (
    r: Option<LegalMove>)
    requires
        unique_king(board@, board.active_player),
        ep_sound(board@),
        (board@.at(src) matches Some(p) && p.1 == board.active_player) ==> is_pattern(
            src,
            dest,
            (board@.at(src)->0).0,
            board.active_player,
        ),
    ensures
        r == classify_normal(board@, src, dest),
{
    let ghost v = board@;
    let src_piece = match board.get_piece_at(src) {
        Some(piece) => piece,
        None => {
            return None;
        },
    };

    if src_piece.1 != board.active_player {
        return None;
    }

    if check_move_blocked(src_piece.0, src, dest, board).is_err() {
        return None;
    }

    let mut new_board = *board;
    new_board.set_piece_at(dest, src_piece);
    new_board.clear_square(src);
    proof {
        assert(new_board@ =~= tentative_board(v, src, dest));
    }

    let en_passant = try_get_en_passant_capture(&mut new_board, src);
    proof {
        assert(new_board@ =~= tentative_after_ep(v, src, dest));
        lemma_tentative_unique_king(v, src, dest);
    }

    if is_king_in_check(&new_board) {
        return None;
    }

    if en_passant.is_some() {
        return en_passant;
    }

    if is_double_pawn_push(board, src, dest) {
        return Some(
            LegalMove::DoublePawnPush { file: src.0, prior_en_passant: board.en_passant_target },
        );
    }

    let castle_mask = get_castling_mask(board, src, dest);
    let captured_piece = match board.get_piece_at(dest) {
        Some(p) => Some(p.0),
        None => None,
    };

    Some(
        LegalMove::Normal {
            src,
            dest,
            castle_mask,
            captured_piece,
            prior_en_passant: board.en_passant_target,
        },
    )
}

/// The classification of a candidate that ends on the promotion rank: judged
/// as a plain move, then re-labelled with the piece promoted to.
pub open spec fn classify_promotion(
    v: BoardView,
    src: Square,
    dest: Square,
    promotion: PromotionPieceType,
) -> Option<LegalMove> {
    match classify_normal(v, src, dest) {
        Some(LegalMove::Normal { castle_mask, captured_piece, .. }) => Some(
            LegalMove::Promotion {
                src,
                dest,
                castle_mask,
                promotion: promotion.to_piece_spec(),
                captured_piece,
                prior_en_passant: v.en_passant_target,
            },
        ),
        _ => None,
    }
}

pub(crate) fn get_promotion_legal_move_from_pseudolegal(
    board: &Board,
    src: Square,
    dest: Square,
    promotion: PromotionPieceType,
) -> (r: Option<LegalMove>)
    requires
        unique_king(board@, board.active_player),
        ep_sound(board@),
        (board@.at(src) matches Some(p) && p.1 == board.active_player) ==> is_pattern(
            src,
            dest,
            (board@.at(src)->0).0,
            board.active_player,
        ),
    ensures
        r == classify_promotion(board@, src, dest, promotion),
{
    let (castle_mask, captured_piece) = match get_normal_legal_move_from_pseudolegal(
        board,
        src,
        dest,
    ) {
        Some(LegalMove::Normal { castle_mask, captured_piece, .. }) => (
            castle_mask,
            captured_piece,
        ),
        _ => {
            return None;
        },
    };
    Some(
        LegalMove::Promotion {
            src,
            dest,
            castle_mask,
            promotion: promotion.to_piece(),
            captured_piece,
            prior_en_passant: board.en_passant_target,
        },
    )
}


/// The castle squares of the side to move: its home rank crossed E to H.
pub open spec fn home_sq(v: BoardView, f: File) -> Square {
    Square(f, v.active_player.home_rank_spec())
}

/// The king may castle short: the right is held, the king is not in check,
/// and the two squares it crosses are empty and safe.
pub open spec fn can_castle_kingside_spec(v: BoardView) -> bool {
    let me = v.active_player;
    let king = Piece(PieceType::King, me);
    let e = home_sq(v, File::E);
    let f = home_sq(v, File::F);
    let g = home_sq(v, File::G);
    let s1 = v.squares.update(e.as_index(), None).update(f.as_index(), Some(king));
    let s2 = s1.update(f.as_index(), None).update(g.as_index(), Some(king));
    &&& v.has_kingside_rights(me)
    &&& !in_check(v)
    &&& v.at(f) is None
    &&& !attacked(s1, me.opponent_spec(), f)
    &&& v.at(g) is None
    &&& !attacked(s2, me.opponent_spec(), g)
}

/// The king may castle long: the right is held, the king is not in check,
/// the two squares it crosses are empty and safe, and the rook's passing
/// square is empty.
pub open spec fn can_castle_queenside_spec(v: BoardView) -> bool {
    let me = v.active_player;
    let king = Piece(PieceType::King, me);
    let e = home_sq(v, File::E);
    let d = home_sq(v, File::D);
    let c = home_sq(v, File::C);
    let b = home_sq(v, File::B);
    let s1 = v.squares.update(e.as_index(), None).update(d.as_index(), Some(king));
    let s2 = s1.update(d.as_index(), None).update(c.as_index(), Some(king));
    &&& v.has_queenside_rights(me)
    &&& !in_check(v)
    &&& v.at(d) is None
    &&& !attacked(s1, me.opponent_spec(), d)
    &&& v.at(c) is None
    &&& !attacked(s2, me.opponent_spec(), c)
    &&& v.at(b) is None
}

/// A board whose only king of color `c` was lifted off `from` and planted on
/// `to` has exactly one king: the planted one.
proof fn lemma_plant_king(
    v: BoardView,
    sqs: Seq<Option<Piece>>,
    c: Color,
    from: Square,
    to: Square,
)
    requires
        v.squares.len() == 64,
        sqs.len() == 64,
        unique_king(v, c),
        is_king_sq(v, c, from),
        sqs[to.as_index()] == Some(Piece(PieceType::King, c)),
        forall|s: Square| s != to ==> (#[trigger] sqs[s.as_index()] == v.squares[s.as_index()]
            || sqs[s.as_index()] is None),
        from != to ==> sqs[from.as_index()] is None,
    ensures
        forall|s: Square| (#[trigger] sqs[s.as_index()] == Some(Piece(PieceType::King, c))) <==> s
            == to,
{
    assert forall|s: Square| (#[trigger] sqs[s.as_index()] == Some(
        Piece(PieceType::King, c),
    )) implies s == to by {
        if s != to {
            assert(is_king_sq(v, c, s));
            assert(s == from);
        }
    }
}

pub fn can_castle_kingside(board: &Board) -> (r: bool)
    requires
        position_invariant(board@),
    ensures
        r == can_castle_kingside_spec(board@),
{
    let ghost v = board@;
    let me = board.active_player;
    if !board.has_kingside_castling_rights(me) {
        return false;
    }
    if is_king_in_check(board) {
        return false;
    }
    let home_rank = me.home_rank();
    let king_pos = Square(File::E, home_rank);
    let f_square = Square(File::F, home_rank);
    let g_square = Square(File::G, home_rank);
    let mut new_board = *board;
    new_board.clear_square(king_pos);
    if board.get_piece_at(f_square).is_some() {
        return false;
    }
    new_board.set_piece_at(f_square, Piece(PieceType::King, me));
    proof {
        assert(is_king_sq(v, me, king_pos));
        lemma_plant_king(v, new_board@.squares, me, king_pos, f_square);
        assert(is_king_sq(new_board@, me, f_square));
        assert(unique_king(new_board@, me));
        lemma_king_square_of(new_board@, me, f_square);
    }
    if is_king_in_check(&new_board) {
        return false;
    }
    new_board.clear_square(f_square);
    if board.get_piece_at(g_square).is_some() {
        return false;
    }
    new_board.set_piece_at(g_square, Piece(PieceType::King, me));
    proof {
        assert(is_king_sq(v, me, king_pos));
        lemma_plant_king(v, new_board@.squares, me, king_pos, g_square);
        assert(is_king_sq(new_board@, me, g_square));
        assert(unique_king(new_board@, me));
        lemma_king_square_of(new_board@, me, g_square);
    }
    if is_king_in_check(&new_board) {
        return false;
    }
    true
}

pub fn can_castle_queenside(board: &Board) -> (r: bool)
    requires
        position_invariant(board@),
    ensures
        r == can_castle_queenside_spec(board@),
{
    let ghost v = board@;
    let me = board.active_player;
    if !board.has_queenside_castling_rights(me) {
        return false;
    }
    if is_king_in_check(board) {
        return false;
    }
    let home_rank = me.home_rank();
    let king_pos = Square(File::E, home_rank);
    let d_square = Square(File::D, home_rank);
    let c_square = Square(File::C, home_rank);
    let b_square = Square(File::B, home_rank);
    let mut new_board = *board;
    new_board.clear_square(king_pos);
    if board.get_piece_at(d_square).is_some() {
        return false;
    }
    new_board.set_piece_at(d_square, Piece(PieceType::King, me));
    proof {
        assert(is_king_sq(v, me, king_pos));
        lemma_plant_king(v, new_board@.squares, me, king_pos, d_square);
        assert(is_king_sq(new_board@, me, d_square));
        assert(unique_king(new_board@, me));
        lemma_king_square_of(new_board@, me, d_square);
    }
    if is_king_in_check(&new_board) {
        return false;
    }
    new_board.clear_square(d_square);
    if board.get_piece_at(c_square).is_some() {
        return false;
    }
    new_board.set_piece_at(c_square, Piece(PieceType::King, me));
    proof {
        assert(is_king_sq(v, me, king_pos));
        lemma_plant_king(v, new_board@.squares, me, king_pos, c_square);
        assert(is_king_sq(new_board@, me, c_square));
        assert(unique_king(new_board@, me));
        lemma_king_square_of(new_board@, me, c_square);
    }
    if is_king_in_check(&new_board) {
        return false;
    }
    if board.get_piece_at(b_square).is_some() {
        return false;
    }
    true
}

/// A pawn stands on `src` and `dest` lies on its promotion rank.
pub open spec fn is_promotion_move_spec(v: BoardView, src: Square, dest: Square) -> bool {
    match v.at(src) {
        Some(p) => p == Piece(PieceType::Pawn, Color::White) && dest.1 == Rank::_8 || p == Piece(
            PieceType::Pawn,
            Color::Black,
        ) && dest.1 == Rank::_1,
        None => false,
    }
}

/// Whether this move would carry the pawn on `src` onto its last rank, so
/// that only a promotion move may express it.
pub fn is_promotion_move(board: &Board, src: Square, dest: Square) -> (r: bool)
    ensures
        r == is_promotion_move_spec(board@, src, dest),
{
    match board.get_piece_at(src) {
        Some(Piece(PieceType::Pawn, Color::White)) => dest.1 == Rank::_8,
        Some(Piece(PieceType::Pawn, Color::Black)) => dest.1 == Rank::_1,
        _ => false,
    }
}

/// Whether the piece on `src` may move by its pattern: the guard both user
/// paths check before judging a candidate.
pub open spec fn pattern_fits(v: BoardView, src: Square, dest: Square) -> bool {
    v.at(src) matches Some(p) && is_pattern(src, dest, p.0, p.1)
}

/// The judgement of a user move: `None` when it is not legal, otherwise the
/// validated move that carries it out. A promotion move is accepted only
/// onto the promotion rank; a plain move never reaches it.
pub open spec fn legal_from_move_spec(v: BoardView, m: Move) -> Option<LegalMove> {
    match m {
        Move::Normal { src, dest } => {
            if is_promotion_move_spec(v, src, dest) {
                None
            } else if pattern_fits(v, src, dest) {
                classify_normal(v, src, dest)
            } else {
                None
            }
        },
        Move::CastleKingside => {
            if can_castle_kingside_spec(v) {
                Some(
                    LegalMove::CastleKingside {
                        castle_mask: v.castling_rights & v.active_player.castle_bit_mask_spec(),
                        prior_en_passant: v.en_passant_target,
                    },
                )
            } else {
                None
            }
        },
        Move::CastleQueenside => {
            if can_castle_queenside_spec(v) {
                Some(
                    LegalMove::CastleQueenside {
                        castle_mask: v.castling_rights & v.active_player.castle_bit_mask_spec(),
                        prior_en_passant: v.en_passant_target,
                    },
                )
            } else {
                None
            }
        },
        Move::Promotion { src, dest, promotion } => {
            if is_promotion_move_spec(v, src, dest) && pattern_fits(v, src, dest) {
                classify_promotion(v, src, dest, promotion)
            } else {
                None
            }
        },
    }
}

/// Judges a user move against the position.
pub fn get_legal_move_from_move(board: &Board, move_: &Move) -> (r: Option<LegalMove>)
    requires
        position_invariant(board@),
        ep_sound(board@),
    ensures
        r == legal_from_move_spec(board@, *move_),
{
    match move_ {
        Move::Normal { src, dest } => {
            if is_promotion_move(board, *src, *dest) {
                None
            } else if let Some(Piece(src_piece, owner)) = board.get_piece_at(*src) {
                if crate::square_utils::is_move_pseudo_legal(*src, *dest, src_piece, owner) {
                    get_normal_legal_move_from_pseudolegal(board, *src, *dest)
                } else {
                    None
                }
            } else {
                None
            }
        },
        Move::CastleKingside => {
            if can_castle_kingside(board) {
                Some(
                    LegalMove::CastleKingside {
                        castle_mask: board.castling_rights & board.active_player.castle_bit_mask(),
                        prior_en_passant: board.en_passant_target,
                    },
                )
            } else {
                None
            }
        },
        Move::CastleQueenside => {
            if can_castle_queenside(board) {
                Some(
                    LegalMove::CastleQueenside {
                        castle_mask: board.castling_rights & board.active_player.castle_bit_mask(),
                        prior_en_passant: board.en_passant_target,
                    },
                )
            } else {
                None
            }
        },
        Move::Promotion { src, dest, promotion } => {
            if !is_promotion_move(board, *src, *dest) {
                None
            } else if let Some(Piece(src_piece, owner)) = board.get_piece_at(*src) {
                if crate::square_utils::is_move_pseudo_legal(*src, *dest, src_piece, owner) {
                    get_promotion_legal_move_from_pseudolegal(board, *src, *dest, *promotion)
                } else {
                    None
                }
            } else {
                None
            }
        },
    }
}

/// The judgement of a candidate already known to follow its piece's
/// movement pattern.
pub open spec fn legal_from_pseudolegal_spec(v: BoardView, m: Move) -> Option<LegalMove> {
    match m {
        Move::Normal { src, dest } => {
            if is_promotion_move_spec(v, src, dest) {
                None
            } else {
                classify_normal(v, src, dest)
            }
        },
        Move::CastleKingside => legal_from_move_spec(v, Move::CastleKingside),
        Move::CastleQueenside => legal_from_move_spec(v, Move::CastleQueenside),
        Move::Promotion { src, dest, promotion } => {
            if is_promotion_move_spec(v, src, dest) {
                classify_promotion(v, src, dest, promotion)
            } else {
                None
            }
        },
    }
}

/// The pattern obligation the pseudo-legal entry point places on its caller.
pub open spec fn pseudolegal_pre(v: BoardView, m: Move) -> bool {
    match m {
        Move::Normal { src, dest } => (v.at(src) matches Some(p) && p.1 == v.active_player)
            ==> is_pattern(src, dest, (v.at(src)->0).0, v.active_player),
        Move::Promotion { src, dest, .. } => (v.at(src) matches Some(p) && p.1
            == v.active_player) ==> is_pattern(src, dest, (v.at(src)->0).0, v.active_player),
        _ => true,
    }
}

/// Judges a candidate whose movement pattern is already known to fit; the
/// generator calls this on the squares it enumerates.
pub fn get_legal_move_from_pseudolegal_move(board: &Board, move_: &Move) -> (r: Option<LegalMove>)
    requires
        position_invariant(board@),
        ep_sound(board@),
        pseudolegal_pre(board@, *move_),
    ensures
        r == legal_from_pseudolegal_spec(board@, *move_),
{
    match move_ {
        Move::Normal { src, dest } => {
            if is_promotion_move(board, *src, *dest) {
                None
            } else {
                get_normal_legal_move_from_pseudolegal(board, *src, *dest)
            }
        },
        Move::CastleKingside => {
            if can_castle_kingside(board) {
                Some(
                    LegalMove::CastleKingside {
                        castle_mask: board.castling_rights & board.active_player.castle_bit_mask(),
                        prior_en_passant: board.en_passant_target,
                    },
                )
            } else {
                None
            }
        },
        Move::CastleQueenside => {
            if can_castle_queenside(board) {
                Some(
                    LegalMove::CastleQueenside {
                        castle_mask: board.castling_rights & board.active_player.castle_bit_mask(),
                        prior_en_passant: board.en_passant_target,
                    },
                )
            } else {
                None
            }
        },
        Move::Promotion { src, dest, promotion } => {
            if is_promotion_move(board, *src, *dest) {
                get_promotion_legal_move_from_pseudolegal(board, *src, *dest, *promotion)
            } else {
                None
            }
        },
    }
}

/// Every validated move a position hands out can be applied to it: the
/// squares `make_move` reads are occupied.
pub proof fn lemma_classified_applicable(v: BoardView, src: Square, dest: Square)
    requires
        classify_normal(v, src, dest) is Some,
    ensures
        make_applicable(v, classify_normal(v, src, dest)->0),
{
}

pub proof fn lemma_move_applicable(v: BoardView, m: Move)
    requires
        v.squares.len() == 64,
        position_invariant(v),
        legal_from_move_spec(v, m) is Some,
    ensures
        make_applicable(v, legal_from_move_spec(v, m)->0),
{
    let lm = legal_from_move_spec(v, m)->0;
    match m {
        Move::Normal { src, dest } => {
            lemma_classified_applicable(v, src, dest);
        },
        Move::CastleKingside => {
            assert(v.has_kingside_rights(v.active_player));
        },
        Move::CastleQueenside => {
            assert(v.has_queenside_rights(v.active_player));
        },
        Move::Promotion { .. } => {
        },
    }
}

pub proof fn lemma_pseudolegal_applicable(v: BoardView, m: Move)
    requires
        v.squares.len() == 64,
        position_invariant(v),
        legal_from_pseudolegal_spec(v, m) is Some,
    ensures
        make_applicable(v, legal_from_pseudolegal_spec(v, m)->0),
{
    match m {
        Move::Normal { src, dest } => {
            lemma_classified_applicable(v, src, dest);
        },
        Move::CastleKingside => {
            assert(v.has_kingside_rights(v.active_player));
        },
        Move::CastleQueenside => {
            assert(v.has_queenside_rights(v.active_player));
        },
        Move::Promotion { .. } => {
        },
    }
}

/// Applies a validated move to a copy of the board and returns the copy.
pub fn apply_legal_move(board: &Board, move_: &LegalMove) -> (r: Board)
    requires
        make_applicable(board@, *move_),
    ensures
        r@ == make_spec(board@, *move_),
{
    let mut new_board = *board;
    new_board.make_move(move_);
    new_board
}

/// Judges a user move and, when it is legal, returns the position after it.
pub fn apply_move(board: &Board, move_: &Move) -> (r: Result<Board, String>)
    requires
        position_invariant(board@),
        ep_sound(board@),
    ensures
        match legal_from_move_spec(board@, *move_) {
            Some(lm) => r matches Ok(b) && b@ == make_spec(board@, lm),
            None => r is Err,
        },
{
    match get_legal_move_from_move(board, move_) {
        Some(legal_move) => {
            proof {
                lemma_move_applicable(board@, *move_);
            }
            Ok(apply_legal_move(board, &legal_move))
        },
        None => Err("Move is not legal".to_owned()),
    }
}

/// Judges a user move against the board and returns the position after it;
/// the board itself is left unchanged.
pub fn make_move(board: &mut Board, move_: &Move) -> (r: Result<Board, String>)
    requires
        position_invariant(old(board)@),
        ep_sound(old(board)@),
    ensures
        *final(board) == *old(board),
        match legal_from_move_spec(old(board)@, *move_) {
            Some(lm) => r matches Ok(b) && b@ == make_spec(old(board)@, lm),
            None => r is Err,
        },
{
    match get_legal_move_from_move(board, move_) {
        Some(legal_move) => {
            proof {
                lemma_move_applicable(board@, *move_);
            }
            Ok(apply_legal_move(board, &legal_move))
        },
        None => Err("Move is not legal".to_owned()),
    }
}

/// Whether the user move is legal in this position.
pub fn is_move_legal(board: &Board, move_: &Move) -> (r: bool)
    requires
        position_invariant(board@),
        ep_sound(board@),
    ensures
        r == (legal_from_move_spec(board@, *move_) is Some),
{
    match get_legal_move_from_move(board, move_) {
        Some(_) => true,
        None => false,
    }
}



/// The candidate `m` is one the judging routines accept: its pattern fits
/// and its classification succeeds.
pub open spec fn emits(v: BoardView, m: Move) -> bool {
    pseudolegal_pre(v, m) && legal_from_pseudolegal_spec(v, m) is Some
}

/// The square a user move moves from, where it names one.
pub open spec fn move_src(m: Move) -> Option<Square> {
    match m {
        Move::Normal { src, .. } => Some(src),
        Move::Promotion { src, .. } => Some(src),
        Move::CastleKingside => None,
        Move::CastleQueenside => None,
    }
}

/// Every accepted move of the list's position appears in the list.
pub open spec fn list_complete(v: BoardView, s: Seq<LegalMove>) -> bool {
    forall|m: Move| #[trigger] emits(v, m) ==> s.contains(legal_from_pseudolegal_spec(v, m)->0)
}

/// What acceptance says about the named source square: it holds the
/// mover's piece, the pattern fits, and the move goes somewhere else.
pub proof fn lemma_emits_src_facts(v: BoardView, m: Move)
    requires
        emits(v, m),
        move_src(m) is Some,
    ensures
        ({
            let src = move_src(m)->0;
            &&& v.at(src) is Some
            &&& (v.at(src)->0).1 == v.active_player
            &&& (match m {
                Move::Normal { src: s2, dest } => is_pattern(
                    s2,
                    dest,
                    (v.at(src)->0).0,
                    v.active_player,
                ) && dest != src,
                Move::Promotion { src: s2, dest, .. } => is_pattern(
                    s2,
                    dest,
                    (v.at(src)->0).0,
                    v.active_player,
                ) && dest != src && (v.at(src)->0).0 == PieceType::Pawn
                    && is_promotion_move_spec(v, s2, dest),
                _ => true,
            })
        }),
{
    let src = move_src(m)->0;
    match m {
        Move::Normal { src: s2, dest } => {
            assert(classify_normal(v, s2, dest) is Some);
            if dest == src {
                assert(!move_not_blocked(v, (v.at(src)->0).0, s2, dest));
            }
        },
        Move::Promotion { src: s2, dest, promotion } => {
            assert(classify_promotion(v, s2, dest, promotion) is Some);
            assert(classify_normal(v, s2, dest) is Some);
            if dest == src {
                assert(!move_not_blocked(v, (v.at(src)->0).0, s2, dest));
            }
            assert(is_promotion_move_spec(v, s2, dest));
            assert((v.at(src)->0).0 == PieceType::Pawn);
        },
        _ => {
        },
    }
}

/// The move list hands out only moves the judging routines themselves
/// produce on this position: each emitted move is the classification of some
/// candidate whose pattern fits.
pub open spec fn emitted_ok(v: BoardView, lm: LegalMove) -> bool {
    exists|m: Move|
        #[trigger] legal_from_pseudolegal_spec(v, m) == Some(lm) && pseudolegal_pre(v, m)
}

/// Every move of a list is an emitted move of the position.
pub open spec fn all_emitted_ok(v: BoardView, s: Seq<LegalMove>) -> bool {
    forall|i: int| 0 <= i < s.len() ==> #[trigger] emitted_ok(v, s[i])
}


/// The mover's king stands unattacked once the move is made.
pub open spec fn mover_king_safe(v: BoardView, lm: LegalMove) -> bool {
    let w = make_spec(v, lm);
    !attacked(w.squares, v.active_player.opponent_spec(), king_square(w, v.active_player))
}

/// Extracts what a successful classification says about its candidate.
proof fn lemma_classify_facts(v: BoardView, src: Square, dest: Square)
    requires
        v.squares.len() == 64,
        ep_sound(v),
        classify_normal(v, src, dest) is Some,
    ensures
        v.at(src) is Some,
        (v.at(src)->0).1 == v.active_player,
        move_not_blocked(v, (v.at(src)->0).0, src, dest),
        !in_check(tentative_after_ep(v, src, dest)),
        src != dest,
        crate::board::prior_ep_of(classify_normal(v, src, dest)->0) == v.en_passant_target,
        match classify_normal(v, src, dest)->0 {
            LegalMove::Normal { src: s2, dest: d2, castle_mask, captured_piece, .. } => {
                &&& s2 == src && d2 == dest
                &&& castle_mask == castling_mask_spec(v, src, dest)
                &&& captured_piece == (match v.at(dest) {
                    Some(p) => Some(p.0),
                    None => None::<PieceType>,
                })
            },
            LegalMove::DoublePawnPush { file, .. } => file == src.0 && double_push_spec(
                v,
                src,
                dest,
            ),
            LegalMove::EnPassantCapture { src: s2, dest: d2, .. } => s2 == src && d2 == dest
                && v.en_passant_target == Some(dest) && (v.at(src)->0).0 == PieceType::Pawn,
            _ => false,
        },
{
    broadcast use crate::models::lemma_square_index_bijective;

    let sp = v.at(src)->0;
    if src == dest {
        assert(v.at(dest) is Some && (v.at(dest)->0).1 == v.active_player);
        assert(!move_not_blocked(v, sp.0, src, dest));
    }
    let tent = tentative_board(v, src, dest);
    if ep_capture_move(tent, src) is Some {
        let ep = v.en_passant_target->0;
        assert(v.at(ep) is None);
        assert(src != ep);
        if ep != dest {
            assert(tent.at(ep) == v.at(ep));
        }
        assert(ep == dest);
        assert(tent.at(dest) == v.at(src));
    }
}

/// Generator soundness: an emitted move captures no friendly piece. A plain
/// or promoting move lands on an empty or enemy square, an en-passant
/// capture lands on an empty square and lifts an enemy pawn, a double push
/// lands on an empty square, and castling touches only empty squares.
pub proof fn lemma_emitted_no_friendly_capture(v: BoardView, lm: LegalMove)
    requires
        v.squares.len() == 64,
        position_invariant(v),
        ep_sound(v),
        emitted_ok(v, lm),
    ensures
        ({
            let me = v.active_player;
            match lm {
                LegalMove::Normal { dest, .. } => !(v.at(dest) is Some && (v.at(dest)->0).1
                    == me),
                LegalMove::Promotion { dest, .. } => !(v.at(dest) is Some && (v.at(dest)->0).1
                    == me),
                LegalMove::EnPassantCapture { dest, .. } => v.at(dest) is None && v.at(
                    ep_captured_square(me, dest),
                ) == Some(Piece(PieceType::Pawn, me.opponent_spec())),
                LegalMove::DoublePawnPush { file, .. } => v.at(
                    Square(file, me.double_push_rank_spec()),
                ) is None,
                LegalMove::CastleKingside { .. } => v.at(home_sq(v, File::F)) is None && v.at(
                    home_sq(v, File::G),
                ) is None,
                LegalMove::CastleQueenside { .. } => v.at(home_sq(v, File::C)) is None && v.at(
                    home_sq(v, File::D),
                ) is None,
            }
        }),
{
    let m = choose|m: Move|
        #[trigger] legal_from_pseudolegal_spec(v, m) == Some(lm) && pseudolegal_pre(v, m);
    match m {
        Move::Normal { src, dest } => {
            lemma_classify_facts(v, src, dest);
            if lm is DoublePawnPush {
                assert(src.0 == dest.0) by {
                    assert(is_pattern(src, dest, PieceType::Pawn, v.active_player));
                    assert(double_push_spec(v, src, dest));
                }
            }
        },
        Move::Promotion { src, dest, .. } => {
            lemma_classify_facts(v, src, dest);
        },
        Move::CastleKingside => {
        },
        Move::CastleQueenside => {
        },
    }
}

/// Attack detection agrees on two boards that differ only in the identity
/// of pieces that are not the attacker's: the same squares block, and no
/// changed piece could be an attacker.
proof fn lemma_attacked_agree(
    sq1: Seq<Option<Piece>>,
    sq2: Seq<Option<Piece>>,
    att: Color,
    t: Square,
)
    requires
        sq1.len() == 64,
        sq2.len() == 64,
        forall|i: int| 0 <= i < sq1.len() ==> (#[trigger] sq1[i] == sq2[i] || (sq1[i] is Some
            && sq2[i] is Some && (sq1[i]->0).1 == (sq2[i]->0).1 && (sq1[i]->0).1 != att)),
    ensures
        attacked(sq1, att, t) == attacked(sq2, att, t),
{
    broadcast use crate::models::lemma_square_index_bijective;

    assert forall|s: Square, d: Square| crate::square_utils::path_clear(sq1, s, d) == #[trigger] crate::square_utils::path_clear(
        sq2,
        s,
        d,
    ) by {
        if crate::square_utils::path_clear(sq1, s, d) {
            assert forall|k: int| 1 <= k < crate::square_utils::slide_dist(s, d) implies sq2[#[trigger] crate::square_utils::between_sq(
                s,
                d,
                k,
            ).as_index()] is None by {
                assert(sq1[crate::square_utils::between_sq(s, d, k).as_index()] is None);
            }
        }
        if crate::square_utils::path_clear(sq2, s, d) {
            assert forall|k: int| 1 <= k < crate::square_utils::slide_dist(s, d) implies sq1[#[trigger] crate::square_utils::between_sq(
                s,
                d,
                k,
            ).as_index()] is None by {
                assert(sq2[crate::square_utils::between_sq(s, d, k).as_index()] is None);
            }
        }
    }
    if attacked(sq1, att, t) {
        let s = choose|s: Square|
            {
                &&& #[trigger] sq1[s.as_index()] is Some
                &&& (sq1[s.as_index()]->0).1 == att
                &&& crate::board_utils::piece_attacks(sq1, s, sq1[s.as_index()]->0, t)
            };
        assert(sq2[s.as_index()] == sq1[s.as_index()]);
        assert(crate::board_utils::piece_attacks(sq2, s, sq2[s.as_index()]->0, t));
        assert(attacked(sq2, att, t));
    }
    if attacked(sq2, att, t) {
        let s = choose|s: Square|
            {
                &&& #[trigger] sq2[s.as_index()] is Some
                &&& (sq2[s.as_index()]->0).1 == att
                &&& crate::board_utils::piece_attacks(sq2, s, sq2[s.as_index()]->0, t)
            };
        assert(sq1[s.as_index()] == sq2[s.as_index()]);
        assert(crate::board_utils::piece_attacks(sq1, s, sq1[s.as_index()]->0, t));
        assert(attacked(sq1, att, t));
    }
}

/// Generator soundness: making an emitted plain, pushing, promoting or
/// en-passant move leaves the mover's king out of check. The check test the
/// classification ran on the tentative board is exactly a test on the made
/// board, whose squares are the same.
pub proof fn lemma_emitted_king_safe(v: BoardView, lm: LegalMove)
    requires
        v.squares.len() == 64,
        position_invariant(v),
        ep_sound(v),
        emitted_ok(v, lm),
        !(lm is CastleKingside),
        !(lm is CastleQueenside),
    ensures
        mover_king_safe(v, lm),
{
    broadcast use crate::models::lemma_square_index_bijective;

    let me = v.active_player;
    let m = choose|m: Move|
        #[trigger] legal_from_pseudolegal_spec(v, m) == Some(lm) && pseudolegal_pre(v, m);
    let w = make_spec(v, lm);
    match m {
        Move::Normal { src, dest } => {
            lemma_classify_facts(v, src, dest);
            let t2 = tentative_after_ep(v, src, dest);
            match lm {
                LegalMove::Normal { .. } => {
                    assert(w.squares =~= t2.squares);
                },
                LegalMove::DoublePawnPush { file, .. } => {
                    assert(src.0 == dest.0 && src == Square(file, me.pawn_start_rank_spec())
                        && dest == Square(file, me.double_push_rank_spec())) by {
                        assert(is_pattern(src, dest, PieceType::Pawn, me));
                        assert(double_push_spec(v, src, dest));
                    }
                    assert(v.at(src) == Some(Piece(PieceType::Pawn, me)));
                    assert(w.squares =~= t2.squares);
                },
                LegalMove::EnPassantCapture { .. } => {
                    assert(w.squares =~= t2.squares);
                },
                _ => {
                },
            }
            lemma_tentative_unique_king(v, src, dest);
            let ks = king_square(t2, me);
            lemma_king_square_of(t2, me, ks);
            assert(is_king_sq(w, me, ks));
            assert forall|s1: Square, s2: Square|
                #[trigger] is_king_sq(w, me, s1) && #[trigger] is_king_sq(w, me, s2) implies s1
                == s2 by {
                assert(is_king_sq(t2, me, s1) && is_king_sq(t2, me, s2));
            }
            lemma_king_square_of(w, me, ks);
            assert(!in_check(t2));
        },
        Move::Promotion { src, dest, .. } => {
            lemma_classify_facts(v, src, dest);
            let t2 = tentative_after_ep(v, src, dest);
            assert(is_promotion_move_spec(v, src, dest));
            assert(v.at(src) == Some(Piece(PieceType::Pawn, me)));
            let tent = tentative_board(v, src, dest);
            assert(ep_capture_move(tent, src) is None) by {
                if v.en_passant_target is Some {
                    let ep = v.en_passant_target->0;
                    assert(v.at(ep) is None);
                    assert(src != ep);
                    if ep != dest {
                        assert(tent.at(ep) == v.at(ep));
                    } else {
                        assert(is_promotion_move_spec(v, src, dest));
                        assert(dest.1 == Rank::_8 || dest.1 == Rank::_1);
                        assert(ep.1 == Rank::_6 || ep.1 == Rank::_3);
                    }
                }
            }
            assert(t2 == tent);
            lemma_tentative_unique_king(v, src, dest);
            let ks = king_square(t2, me);
            lemma_king_square_of(t2, me, ks);
            assert(is_king_sq(t2, me, ks));
            let promoted = (match lm {
                LegalMove::Promotion { promotion, .. } => promotion,
                _ => PieceType::Pawn,
            });
            assert(promoted != PieceType::King && promoted != PieceType::Pawn);
            assert(t2.at(dest) == Some(Piece(PieceType::Pawn, me)));
            assert(ks != dest);
            assert(w.squares =~= t2.squares.update(dest.as_index(), Some(Piece(promoted, me))));
            assert(is_king_sq(w, me, ks));
            assert forall|s1: Square, s2: Square|
                #[trigger] is_king_sq(w, me, s1) && #[trigger] is_king_sq(w, me, s2) implies s1
                == s2 by {
                assert(s1 != dest && s2 != dest);
                assert(is_king_sq(t2, me, s1) && is_king_sq(t2, me, s2));
            }
            lemma_king_square_of(w, me, ks);
            assert(!in_check(t2));
            lemma_attacked_agree(t2.squares, w.squares, me.opponent_spec(), ks);
        },
        Move::CastleKingside => {
            assert(false);
        },
        Move::CastleQueenside => {
            assert(false);
        },
    }
}

/// Generator soundness: an emitted castling move passed every castling
/// precondition of the position it came from.
pub proof fn lemma_emitted_castle_preconditions(v: BoardView, lm: LegalMove)
    requires
        v.squares.len() == 64,
        emitted_ok(v, lm),
    ensures
        lm is CastleKingside ==> can_castle_kingside_spec(v),
        lm is CastleQueenside ==> can_castle_queenside_spec(v),
{
    let m = choose|m: Move|
        #[trigger] legal_from_pseudolegal_spec(v, m) == Some(lm) && pseudolegal_pre(v, m);
    match m {
        Move::Normal { src, dest } => {
            if classify_normal(v, src, dest) is Some {
            }
        },
        _ => {
        },
    }
}

/// Every emitted move meets the bookkeeping conditions under which making
/// and unmaking it restores the position.
pub proof fn lemma_emitted_reversible(v: BoardView, lm: LegalMove)
    requires
        v.squares.len() == 64,
        position_invariant(v),
        ep_sound(v),
        emitted_ok(v, lm),
    ensures
        crate::board::reversible_pre(v, lm),
{
    let me = v.active_player;
    let m = choose|m: Move|
        #[trigger] legal_from_pseudolegal_spec(v, m) == Some(lm) && pseudolegal_pre(v, m);
    match m {
        Move::Normal { src, dest } => {
            lemma_classify_facts(v, src, dest);
            match lm {
                LegalMove::Normal { captured_piece, .. } => {
                    if v.at(dest) is Some {
                        assert((v.at(dest)->0).1 == me.opponent_spec());
                    }
                },
                LegalMove::DoublePawnPush { file, .. } => {
                    assert(src.0 == dest.0 && src == Square(file, me.pawn_start_rank_spec())
                        && dest == Square(file, me.double_push_rank_spec())) by {
                        assert(is_pattern(src, dest, PieceType::Pawn, me));
                        assert(double_push_spec(v, src, dest));
                    }
                    assert(v.at(dest) is None);
                },
                LegalMove::EnPassantCapture { .. } => {
                    let cap = ep_captured_square(me, dest);
                    assert(v.at(dest) is None);
                    assert(v.at(cap) == Some(Piece(PieceType::Pawn, me.opponent_spec())));
                    assert(cap != dest);
                    assert(cap != src);
                    assert(cap == Square(dest.0, me.opponent_spec().double_push_rank_spec()));
                },
                _ => {
                },
            }
        },
        Move::Promotion { src, dest, .. } => {
            lemma_classify_facts(v, src, dest);
            assert(v.at(src) == Some(Piece(PieceType::Pawn, me)));
            if v.at(dest) is Some {
                assert((v.at(dest)->0).1 == me.opponent_spec());
            }
        },
        Move::CastleKingside => {
        },
        Move::CastleQueenside => {
        },
    }
}

/// Make, then unmake, of any emitted move restores the position exactly:
/// the move carries the prior en-passant target and unmake writes it back.
pub proof fn lemma_emitted_make_unmake(v: BoardView, lm: LegalMove)
    requires
        v.squares.len() == 64,
        position_invariant(v),
        ep_sound(v),
        emitted_ok(v, lm),
    ensures
        crate::board::unmake_spec(make_spec(v, lm), lm) == v,
{
    lemma_emitted_reversible(v, lm);
    crate::board::lemma_make_unmake(v, lm);
}


/// Every emitted move reads off the board exactly what the incremental
/// hash update assumes of it.
pub proof fn lemma_emitted_hash_pre(v: BoardView, lm: LegalMove)
    requires
        v.squares.len() == 64,
        position_invariant(v),
        ep_sound(v),
        emitted_ok(v, lm),
    ensures
        crate::hashing::hash_update_pre(v, lm),
{
    let me = v.active_player;
    let m = choose|m: Move|
        #[trigger] legal_from_pseudolegal_spec(v, m) == Some(lm) && pseudolegal_pre(v, m);
    match m {
        Move::Normal { src, dest } => {
            lemma_classify_facts(v, src, dest);
            match lm {
                LegalMove::Normal { captured_piece, .. } => {
                    if v.at(dest) is Some {
                        assert((v.at(dest)->0).1 == me.opponent_spec());
                    }
                },
                LegalMove::DoublePawnPush { file, .. } => {
                    assert(src.0 == dest.0 && src == Square(file, me.pawn_start_rank_spec())
                        && dest == Square(file, me.double_push_rank_spec())) by {
                        assert(is_pattern(src, dest, PieceType::Pawn, me));
                        assert(double_push_spec(v, src, dest));
                    }
                    assert(v.at(dest) is None);
                },
                LegalMove::EnPassantCapture { .. } => {
                    let cap = ep_captured_square(me, dest);
                    assert(v.at(src) == Some(Piece(PieceType::Pawn, me)));
                    assert(v.at(dest) is None);
                    assert(v.at(cap) == Some(Piece(PieceType::Pawn, me.opponent_spec())));
                    assert(cap != dest && cap != src);
                    assert(cap == Square(dest.0, me.opponent_spec().double_push_rank_spec()));
                },
                _ => {
                },
            }
        },
        Move::Promotion { src, dest, .. } => {
            lemma_classify_facts(v, src, dest);
            assert(v.at(src) == Some(Piece(PieceType::Pawn, me)));
            if v.at(dest) is Some {
                assert((v.at(dest)->0).1 == me.opponent_spec());
            }
        },
        Move::CastleKingside => {
            assert(v.has_kingside_rights(me));
        },
        Move::CastleQueenside => {
            assert(v.has_queenside_rights(me));
        },
    }
}


/// After making an emitted move, taking it back reads only occupied
/// squares: unmake applies.
pub proof fn lemma_emitted_unmake_applicable(v: BoardView, lm: LegalMove)
    requires
        v.squares.len() == 64,
        position_invariant(v),
        ep_sound(v),
        emitted_ok(v, lm),
    ensures
        crate::board::unmake_applicable(make_spec(v, lm), lm),
{
    broadcast use crate::models::lemma_square_index_bijective;

    lemma_emitted_hash_pre(v, lm);
    let w = make_spec(v, lm);
    match lm {
        LegalMove::CastleKingside { .. } => {
            let home = v.active_player.home_rank_spec();
            assert(w.at(Square(File::G, home)) == v.at(Square(File::E, home)));
        },
        LegalMove::CastleQueenside { .. } => {
            let home = v.active_player.home_rank_spec();
            assert(w.at(Square(File::C, home)) == v.at(Square(File::E, home)));
        },
        LegalMove::EnPassantCapture { src, dest, .. } => {
            assert(w.at(dest) == v.at(src));
        },
        _ => {
        },
    }
}


/// Every emitted move can be made: the squares `make_move` reads are
/// occupied.
pub proof fn lemma_emitted_make_applicable(v: BoardView, lm: LegalMove)
    requires
        v.squares.len() == 64,
        position_invariant(v),
        emitted_ok(v, lm),
    ensures
        make_applicable(v, lm),
{
    let m = choose|m: Move|
        #[trigger] legal_from_pseudolegal_spec(v, m) == Some(lm) && pseudolegal_pre(v, m);
    lemma_pseudolegal_applicable(v, m);
}


/// The rook's corner square never lies strictly between a sliding attacker
/// and the square the castling king lands on: the corner sits past the
/// landing square, at the edge of the board.
proof fn lemma_corner_not_between(s: Square, g: Square, corner: Square, k: int)
    requires
        s != g,
        is_rook_pattern(s, g) || is_bishop_pattern(s, g),
        1 <= k < slide_dist(s, g),
        (g.0 == File::G && corner.0 == File::H) || (g.0 == File::C && corner.0 == File::A),
    ensures
        between_sq(s, g, k) != corner,
{
    let sf = s.0.as_int();
    let gf = g.0.as_int();
    let cf = corner.0.as_int();
    let t = crate::square_utils::toward(sf, gf, k);
    assert(0 <= t < 8);
    assert(t != cf);
    assert(between_sq(s, g, k).0 == crate::models::file_of_int(t));
    assert(crate::models::file_of_int(t) != corner.0);
}

/// Generator soundness, completed for castling: making an emitted castling
/// move leaves the mover's king unattacked on its landing square. The
/// castling test already cleared that square with the king alone moved;
/// the rook's own move only adds a friendly blocker beside the king and
/// empties the corner, which no attack on the landing square runs through.
pub proof fn lemma_emitted_castle_king_safe(v: BoardView, lm: LegalMove)
    requires
        v.squares.len() == 64,
        position_invariant(v),
        emitted_ok(v, lm),
        lm is CastleKingside || lm is CastleQueenside,
    ensures
        mover_king_safe(v, lm),
{
    broadcast use crate::models::lemma_square_index_bijective;

    let me = v.active_player;
    let opp = me.opponent_spec();
    let home = me.home_rank_spec();
    let kingside = lm is CastleKingside;
    lemma_emitted_castle_preconditions(v, lm);

    let e = Square(File::E, home);
    let g = if kingside { Square(File::G, home) } else { Square(File::C, home) };
    let f = if kingside { Square(File::F, home) } else { Square(File::D, home) };
    let h = if kingside { Square(File::H, home) } else { Square(File::A, home) };
    assert(v.has_kingside_rights(me) || v.has_queenside_rights(me));
    assert(is_king_sq(v, me, e));
    assert(v.at(h) == Some(Piece(PieceType::Rook, me)));
    assert(v.at(f) is None && v.at(g) is None);

    let w = make_spec(v, lm);
    let s1 = v.squares.update(g.as_index(), v.at(e)).update(e.as_index(), None);
    assert(w.squares == s1.update(f.as_index(), s1[h.as_index()]).update(h.as_index(), None));
    assert(s1[h.as_index()] == Some(Piece(PieceType::Rook, me)));

    let t2 = v.squares.update(e.as_index(), None).update(f.as_index(), Some(
        Piece(PieceType::King, me),
    )).update(f.as_index(), None).update(g.as_index(), Some(Piece(PieceType::King, me)));
    assert(!attacked(t2, opp, g));

    assert(is_king_sq(w, me, g));
    assert forall|s: Square| #[trigger] is_king_sq(w, me, s) implies s == g by {
        if s != g && s != e && s != f && s != h {
            assert(is_king_sq(v, me, s));
        }
    }
    assert(unique_king(w, me));
    lemma_king_square_of(w, me, g);

    if attacked(w.squares, opp, g) {
        let s = choose|s: Square|
            {
                &&& #[trigger] w.squares[s.as_index()] is Some
                &&& (w.squares[s.as_index()]->0).1 == opp
                &&& crate::board_utils::piece_attacks(w.squares, s, w.squares[s.as_index()]->0, g)
            };
        let p = w.squares[s.as_index()]->0;
        assert(s != e && s != f && s != g && s != h);
        assert(t2[s.as_index()] == w.squares[s.as_index()]);
        match p.0 {
            PieceType::Bishop | PieceType::Rook | PieceType::Queen => {
                assert forall|k: int| 1 <= k < slide_dist(s, g) implies t2[#[trigger] between_sq(
                    s,
                    g,
                    k,
                ).as_index()] is None by {
                    let b = between_sq(s, g, k);
                    assert(w.squares[b.as_index()] is None);
                    assert(b != f && b != g);
                    lemma_corner_not_between(s, g, h, k);
                    if b != e {
                        assert(t2[b.as_index()] == v.squares[b.as_index()]);
                        assert(v.squares[b.as_index()] == w.squares[b.as_index()]);
                    }
                }
                assert(crate::square_utils::path_clear(t2, s, g));
                assert(crate::board_utils::piece_attacks(t2, s, p, g));
            },
            _ => {
                assert(crate::board_utils::piece_attacks(t2, s, p, g));
            },
        }
        assert(attacked(t2, opp, g));
        assert(false);
    }
}

} // verus!








