//! Zobrist hashing: a 64-bit identity for positions, computed whole or
//! updated incrementally as a move is made, with the update proved equal to
//! hashing the position after the move.

use vstd::prelude::*;

use crate::board::{make_spec, Board, BoardView};
use crate::models::{square_of_index, Color, ColorProps, File, LegalMove, Piece, PieceType, Square};
use crate::square_utils::SquareIter;

verus! {

broadcast use crate::models::lemma_square_index_bijective, crate::models::lemma_index_square_roundtrip;

/// One round of the splitmix64 mixing function: the deterministic source of
/// every key, so hashes are reproducible across runs.
#[verifier::opaque]
pub closed spec fn mix64(z0: u64) -> u64 {
    let z1 = vstd::wrapping::u64_specs::wrapping_add(z0, 0x9E3779B97F4A7C15);
    let z2 = vstd::wrapping::u64_specs::wrapping_mul(z1 ^ (z1 >> 30), 0xBF58476D1CE4E5B9);
    let z3 = vstd::wrapping::u64_specs::wrapping_mul(z2 ^ (z2 >> 27), 0x94D049BB133111EB);
    z3 ^ (z3 >> 31)
}

fn mix64_exec(z0: u64) -> (r: u64)
    ensures
        r == mix64(z0),
{
    proof {
        reveal(mix64);
    }
    let z1 = z0.wrapping_add(0x9E3779B97F4A7C15);
    let z2 = (z1 ^ (z1 >> 30)).wrapping_mul(0xBF58476D1CE4E5B9);
    let z3 = (z2 ^ (z2 >> 27)).wrapping_mul(0x94D049BB133111EB);
    z3 ^ (z3 >> 31)
}

pub open spec fn color_index(c: Color) -> int {
    match c {
        Color::White => 0,
        Color::Black => 1,
    }
}

pub open spec fn piece_type_index(p: PieceType) -> int {
    match p {
        PieceType::Pawn => 0,
        PieceType::Knight => 1,
        PieceType::Bishop => 2,
        PieceType::Rook => 3,
        PieceType::Queen => 4,
        PieceType::King => 5,
    }
}

/// The key of a piece standing on a square.
pub open spec fn piece_square_key_spec(piece: Piece, square: Square) -> u64 {
    mix64(((color_index(piece.1) * 6 + piece_type_index(piece.0)) * 64 + square.as_index()) as u64)
}

/// The key of a castling-rights mask.
pub open spec fn castling_key_spec(mask: u8) -> u64 {
    mix64((1024 + mask as u64) as u64)
}

/// The key of an en-passant file.
pub open spec fn en_passant_key_spec(file: File) -> u64 {
    mix64((2048 + file.as_int()) as u64)
}

/// The key toggled when Black is to move.
pub open spec fn black_to_move_key_spec() -> u64 {
    mix64(4096u64)
}

fn get_piece_square_key(piece: Piece, square: Square) -> (r: u64)
    ensures
        r == piece_square_key_spec(piece, square),
{
    let ci: u64 = match piece.1 {
        Color::White => 0,
        Color::Black => 1,
    };
    let pi: u64 = match piece.0 {
        PieceType::Pawn => 0,
        PieceType::Knight => 1,
        PieceType::Bishop => 2,
        PieceType::Rook => 3,
        PieceType::Queen => 4,
        PieceType::King => 5,
    };
    mix64_exec((ci * 6 + pi) * 64 + square.to_index() as u64)
}

fn get_castling_key(mask: u8) -> (r: u64)
    ensures
        r == castling_key_spec(mask),
{
    mix64_exec(1024 + mask as u64)
}

fn get_en_passant_key(file: File) -> (r: u64)
    ensures
        r == en_passant_key_spec(file),
{
    mix64_exec(2048 + file.to_i8() as u64)
}

fn get_black_to_move_key() -> (r: u64)
    ensures
        r == black_to_move_key_spec(),
{
    mix64_exec(4096)
}

/// What one square adds to the hash: its piece's key, or nothing.
pub open spec fn square_contrib(o: Option<Piece>, idx: int) -> u64 {
    match o {
        Some(p) => piece_square_key_spec(p, square_of_index(idx)),
        None => 0,
    }
}

/// The hash of the first `n` squares.
pub open spec fn squares_hash(sq: Seq<Option<Piece>>, n: int) -> u64
    decreases n,
{
    if n <= 0 {
        0u64
    } else {
        squares_hash(sq, n - 1) ^ square_contrib(sq[n - 1], n - 1)
    }
}

/// The hash of a position: every piece's key, the castling key, the
/// Black-to-move key when it applies, and the en-passant file key if a
/// target is set.
pub open spec fn zobrist_spec(v: BoardView) -> u64 {
    let h1 = squares_hash(v.squares, 64) ^ castling_key_spec(v.castling_rights);
    let h2 = if v.active_player == Color::Black {
        h1 ^ black_to_move_key_spec()
    } else {
        h1
    };
    match v.en_passant_target {
        Some(t) => h2 ^ en_passant_key_spec(t.0),
        None => h2,
    }
}

proof fn lemma_xor_zero(a: u64)
    by (bit_vector)
    ensures
        a ^ 0 == a,
{
}

/// Boards that agree on their first `n` squares hash alike there.
proof fn lemma_squares_hash_congruence(sq1: Seq<Option<Piece>>, sq2: Seq<Option<Piece>>, n: int)
    requires
        forall|i: int| 0 <= i < n ==> sq1[i] == sq2[i],
    ensures
        squares_hash(sq1, n) == squares_hash(sq2, n),
    decreases n,
{
    if n > 0 {
        lemma_squares_hash_congruence(sq1, sq2, n - 1);
    }
}

/// Writing one square changes the hash by that square's old and new
/// contributions.
proof fn lemma_squares_hash_update(sq: Seq<Option<Piece>>, j: int, x: Option<Piece>, n: int)
    requires
        0 <= j < n <= sq.len(),
    ensures
        squares_hash(sq.update(j, x), n) == squares_hash(sq, n) ^ square_contrib(sq[j], j)
            ^ square_contrib(x, j),
    decreases n,
{
    let upd = sq.update(j, x);
    let cj = square_contrib(sq[j], j);
    let cx = square_contrib(x, j);
    if j == n - 1 {
        lemma_squares_hash_congruence(upd, sq, n - 1);
        let h = squares_hash(sq, n - 1);
        assert((h ^ cj ^ cj) ^ cx == h ^ cx) by (bit_vector);
        assert(squares_hash(sq, n) == h ^ cj);
        assert(squares_hash(upd, n) == h ^ cx);
        assert(h ^ cx == ((h ^ cj) ^ cj) ^ cx) by (bit_vector);
    } else {
        lemma_squares_hash_update(sq, j, x, n - 1);
        let h = squares_hash(sq, n - 1);
        let c = square_contrib(sq[n - 1], n - 1);
        assert(upd[n - 1] == sq[n - 1]);
        assert(squares_hash(upd, n) == ((h ^ cj) ^ cx) ^ c);
        assert(((h ^ cj) ^ cx) ^ c == ((h ^ c) ^ cj) ^ cx) by (bit_vector);
    }
}

/// Hashes the position from scratch.
pub fn get_zobrist_hash(board: &Board) -> (r: u64)
    ensures
        r == zobrist_spec(board@),
{
    let ghost v = board@;
    let mut hash: u64 = 0;
    let mut square_iter = SquareIter::new();
    loop
        invariant
            v == board@,
            square_iter.current <= 64,
            hash == squares_hash(v.squares, square_iter.current as int),
        ensures
            v == board@,
            hash == squares_hash(v.squares, 64),
        decreases 64 - square_iter.current,
    {
        let ghost n = square_iter.current as int;
        let square = match square_iter.next() {
            Some(s) => s,
            None => {
                break ;
            },
        };
        if let Some(piece) = board.get_piece_at(square) {
            hash = hash ^ get_piece_square_key(piece, square);
        } else {
            proof {
                lemma_xor_zero(hash);
                assert(hash ^ square_contrib(v.squares[n], n) == hash);
            }
        }
    }
    proof {
        assert(hash == squares_hash(v.squares, 64));
    }
    hash = hash ^ get_castling_key(board.castling_rights);
    proof {
        assert(hash == squares_hash(v.squares, 64) ^ castling_key_spec(v.castling_rights));
    }
    if board.active_player == Color::Black {
        hash = hash ^ get_black_to_move_key();
    }
    if let Some(en_passant_square) = board.en_passant_target {
        hash = hash ^ get_en_passant_key(en_passant_square.0);
    }
    proof {
        assert(hash == zobrist_spec(v));
    }
    hash
}


/// The Black-to-move term of a hash: the key, or zero.
pub open spec fn btm_term(v: BoardView) -> u64 {
    if v.active_player == Color::Black {
        black_to_move_key_spec()
    } else {
        0u64
    }
}

/// The en-passant term of a hash: the file key, or zero.
pub open spec fn ep_term(v: BoardView) -> u64 {
    match v.en_passant_target {
        Some(t) => en_passant_key_spec(t.0),
        None => 0u64,
    }
}

/// The hash, written as one unconditional exclusive-or of four terms.
proof fn lemma_zobrist_flat(v: BoardView)
    ensures
        zobrist_spec(v) == squares_hash(v.squares, 64) ^ castling_key_spec(v.castling_rights)
            ^ btm_term(v) ^ ep_term(v),
{
    let b = squares_hash(v.squares, 64);
    let ck = castling_key_spec(v.castling_rights);
    let bt = btm_term(v);
    let ep = ep_term(v);
    if v.active_player == Color::Black {
        if v.en_passant_target is Some {
        } else {
            assert((b ^ ck ^ bt) == b ^ ck ^ bt ^ 0) by (bit_vector);
        }
    } else {
        if v.en_passant_target is Some {
            assert((b ^ ck) ^ ep == b ^ ck ^ 0 ^ ep) by (bit_vector);
        } else {
            assert((b ^ ck) == b ^ ck ^ 0 ^ 0) by (bit_vector);
        }
    }
}

/// Passing the turn toggles the Black-to-move term.
proof fn lemma_btm_flip(v: BoardView, w: BoardView)
    requires
        w.active_player == v.active_player.opponent_spec(),
    ensures
        btm_term(w) == btm_term(v) ^ black_to_move_key_spec(),
{
    let b = black_to_move_key_spec();
    if v.active_player == Color::Black {
        assert(b ^ b == 0) by (bit_vector);
    } else {
        assert(0u64 ^ b == b) by (bit_vector);
    }
}

/// What the incremental update reads off the board: the squares the move
/// touches must hold what the move's bookkeeping says.
pub open spec fn hash_update_pre(v: BoardView, m: LegalMove) -> bool {
    let me = v.active_player;
    match m {
        LegalMove::Normal { src, dest, captured_piece, .. } => {
            &&& src != dest
            &&& v.at(src) is Some
            &&& v.at(dest) == (match captured_piece {
                Some(p) => Some(Piece(p, me.opponent_spec())),
                None => None::<Piece>,
            })
        },
        LegalMove::Promotion { src, dest, captured_piece, .. } => {
            &&& src != dest
            &&& v.at(src) == Some(Piece(PieceType::Pawn, me))
            &&& v.at(dest) == (match captured_piece {
                Some(p) => Some(Piece(p, me.opponent_spec())),
                None => None::<Piece>,
            })
        },
        LegalMove::CastleKingside { .. } => {
            let home = me.home_rank_spec();
            &&& v.at(Square(File::E, home)) == Some(Piece(PieceType::King, me))
            &&& v.at(Square(File::H, home)) == Some(Piece(PieceType::Rook, me))
            &&& v.at(Square(File::F, home)) is None
            &&& v.at(Square(File::G, home)) is None
        },
        LegalMove::CastleQueenside { .. } => {
            let home = me.home_rank_spec();
            &&& v.at(Square(File::E, home)) == Some(Piece(PieceType::King, me))
            &&& v.at(Square(File::A, home)) == Some(Piece(PieceType::Rook, me))
            &&& v.at(Square(File::C, home)) is None
            &&& v.at(Square(File::D, home)) is None
        },
        LegalMove::DoublePawnPush { file, .. } => {
            &&& v.at(Square(file, me.pawn_start_rank_spec())) == Some(
                Piece(PieceType::Pawn, me),
            )
            &&& v.at(Square(file, me.double_push_rank_spec())) is None
        },
        LegalMove::EnPassantCapture { src, dest, .. } => {
            let cap = Square(dest.0, me.opponent_spec().double_push_rank_spec());
            &&& src != dest
            &&& cap != dest
            &&& cap != src
            &&& v.at(src) == Some(Piece(PieceType::Pawn, me))
            &&& v.at(dest) is None
            &&& v.at(cap) == Some(Piece(PieceType::Pawn, me.opponent_spec()))
        },
    }
}

/// The hash of the board after two square writes, in exclusive-or terms.
proof fn lemma_two_writes(
    sq: Seq<Option<Piece>>,
    i1: int,
    x1: Option<Piece>,
    i2: int,
    x2: Option<Piece>,
)
    requires
        0 <= i1 < 64,
        0 <= i2 < 64,
        i1 != i2,
        sq.len() == 64,
    ensures
        squares_hash(sq.update(i1, x1).update(i2, x2), 64) == squares_hash(sq, 64)
            ^ square_contrib(sq[i1], i1) ^ square_contrib(x1, i1) ^ square_contrib(sq[i2], i2)
            ^ square_contrib(x2, i2),
{
    lemma_squares_hash_update(sq, i1, x1, 64);
    lemma_squares_hash_update(sq.update(i1, x1), i2, x2, 64);
    assert(sq.update(i1, x1)[i2] == sq[i2]);
}

/// The hash delta of a plain move: its piece keys, the capture key, and the
/// castling keys out and in.
proof fn lemma_update_normal(
    v: BoardView,
    src: Square,
    dest: Square,
    castle_mask: u8,
    captured_piece: Option<PieceType>,
    prior_en_passant: Option<Square>,
)
    requires
        v.squares.len() == 64,
        hash_update_pre(
            v,
            LegalMove::Normal { src, dest, castle_mask, captured_piece, prior_en_passant },
        ),
    ensures
        ({
            let m = LegalMove::Normal { src, dest, castle_mask, captured_piece, prior_en_passant };
            let sp = v.at(src)->0;
            zobrist_spec(make_spec(v, m)) == zobrist_spec(v) ^ ep_term(v) ^ piece_square_key_spec(
                sp,
                dest,
            ) ^ piece_square_key_spec(sp, src) ^ square_contrib(v.at(dest), dest.as_index())
                ^ castling_key_spec(v.castling_rights) ^ castling_key_spec(
                v.castling_rights ^ castle_mask,
            ) ^ black_to_move_key_spec()
        }),
{
    let m = LegalMove::Normal { src, dest, castle_mask, captured_piece, prior_en_passant };
    let w = make_spec(v, m);
    let sp = v.at(src)->0;
    let base = squares_hash(v.squares, 64);
    let wbase = squares_hash(w.squares, 64);
    let kd = piece_square_key_spec(sp, dest);
    let ks = piece_square_key_spec(sp, src);
    let kcap = square_contrib(v.at(dest), dest.as_index());
    let ckv = castling_key_spec(v.castling_rights);
    let ckw = castling_key_spec(w.castling_rights);
    let btm = black_to_move_key_spec();
    let btmv = btm_term(v);
    let btmw = btm_term(w);
    let epv = ep_term(v);
    let zv = zobrist_spec(v);
    let zw = zobrist_spec(w);
    lemma_zobrist_flat(v);
    lemma_zobrist_flat(w);
    assert(btmw == btmv ^ btm) by {
        lemma_btm_flip(v, w);
    }
    lemma_two_writes(v.squares, dest.as_index(), v.at(src), src.as_index(), None);
    assert(wbase == base ^ kcap ^ kd ^ ks) by {
        assert(square_contrib(v.at(src), dest.as_index()) == kd);
        assert(square_contrib(
            v.squares.update(dest.as_index(), v.at(src))[src.as_index()],
            src.as_index(),
        ) == ks);
        lemma_xor_zero(base ^ kcap ^ kd ^ ks);
    }
    assert(zw == zv ^ epv ^ kd ^ ks ^ kcap ^ ckv ^ ckw ^ btm) by (bit_vector)
        requires
            zv == base ^ ckv ^ btmv ^ epv,
            zw == wbase ^ ckw ^ btmw ^ 0u64,
            btmw == btmv ^ btm,
            wbase == base ^ kcap ^ kd ^ ks,
    ;
}

/// The hash delta of a double pawn push: the pawn out and in, and the new
/// en-passant file key.
proof fn lemma_update_double_push(v: BoardView, file: File, prior_en_passant: Option<Square>)
    requires
        v.squares.len() == 64,
        hash_update_pre(v, LegalMove::DoublePawnPush { file, prior_en_passant }),
    ensures
        ({
            let m = LegalMove::DoublePawnPush { file, prior_en_passant };
            let me = v.active_player;
            zobrist_spec(make_spec(v, m)) == zobrist_spec(v) ^ ep_term(v) ^ piece_square_key_spec(
                Piece(PieceType::Pawn, me),
                Square(file, me.pawn_start_rank_spec()),
            ) ^ piece_square_key_spec(
                Piece(PieceType::Pawn, me),
                Square(file, me.double_push_rank_spec()),
            ) ^ en_passant_key_spec(file) ^ black_to_move_key_spec()
        }),
{
    let m = LegalMove::DoublePawnPush { file, prior_en_passant };
    let w = make_spec(v, m);
    let me = v.active_player;
    let start_sq = Square(file, me.pawn_start_rank_spec());
    let push_sq = Square(file, me.double_push_rank_spec());
    let base = squares_hash(v.squares, 64);
    let wbase = squares_hash(w.squares, 64);
    let ks = piece_square_key_spec(Piece(PieceType::Pawn, me), start_sq);
    let kd = piece_square_key_spec(Piece(PieceType::Pawn, me), push_sq);
    let ke = en_passant_key_spec(file);
    let ckv = castling_key_spec(v.castling_rights);
    let btm = black_to_move_key_spec();
    let btmv = btm_term(v);
    let btmw = btm_term(w);
    let epv = ep_term(v);
    let zv = zobrist_spec(v);
    let zw = zobrist_spec(w);
    lemma_zobrist_flat(v);
    lemma_zobrist_flat(w);
    assert(btmw == btmv ^ btm) by {
        lemma_btm_flip(v, w);
    }
    assert(start_sq != push_sq);
    lemma_two_writes(
        v.squares,
        push_sq.as_index(),
        Some(Piece(PieceType::Pawn, me)),
        start_sq.as_index(),
        None,
    );
    assert(wbase == base ^ kd ^ ks) by {
        assert(square_contrib(v.at(push_sq), push_sq.as_index()) == 0);
        assert(square_contrib(Some(Piece(PieceType::Pawn, me)), push_sq.as_index()) == kd);
        assert(square_contrib(
            v.squares.update(push_sq.as_index(), Some(Piece(PieceType::Pawn, me)))[start_sq.as_index()],
            start_sq.as_index(),
        ) == ks);
        lemma_xor_zero(base);
        lemma_xor_zero(base ^ kd ^ ks);
    }
    assert(w.castling_rights == v.castling_rights);
    assert(ep_term(w) == ke);
    assert(zw == zv ^ epv ^ ks ^ kd ^ ke ^ btm) by (bit_vector)
        requires
            zv == base ^ ckv ^ btmv ^ epv,
            zw == wbase ^ ckv ^ btmw ^ ke,
            btmw == btmv ^ btm,
            wbase == base ^ kd ^ ks,
    ;
}

/// The hash delta of castling: king and rook each out and in, plus the
/// castling keys out and in.
#[verifier::rlimit(100)]
proof fn lemma_update_castle(
    v: BoardView,
    kingside: bool,
    castle_mask: u8,
    prior_en_passant: Option<Square>,
)
    requires
        v.squares.len() == 64,
        kingside ==> hash_update_pre(
            v,
            LegalMove::CastleKingside { castle_mask, prior_en_passant },
        ),
        !kingside ==> hash_update_pre(
            v,
            LegalMove::CastleQueenside { castle_mask, prior_en_passant },
        ),
    ensures
        ({
            let m = if kingside {
                LegalMove::CastleKingside { castle_mask, prior_en_passant }
            } else {
                LegalMove::CastleQueenside { castle_mask, prior_en_passant }
            };
            let me = v.active_player;
            let home = me.home_rank_spec();
            let king_to = if kingside { Square(File::G, home) } else { Square(File::C, home) };
            let rook_from = if kingside { Square(File::H, home) } else { Square(File::A, home) };
            let rook_to = if kingside { Square(File::F, home) } else { Square(File::D, home) };
            zobrist_spec(make_spec(v, m)) == zobrist_spec(v) ^ ep_term(v) ^ piece_square_key_spec(
                Piece(PieceType::King, me),
                Square(File::E, home),
            ) ^ piece_square_key_spec(Piece(PieceType::King, me), king_to)
                ^ piece_square_key_spec(Piece(PieceType::Rook, me), rook_from)
                ^ piece_square_key_spec(Piece(PieceType::Rook, me), rook_to)
                ^ castling_key_spec(v.castling_rights) ^ castling_key_spec(
                v.castling_rights ^ castle_mask,
            ) ^ black_to_move_key_spec()
        }),
{
    let m = if kingside {
        LegalMove::CastleKingside { castle_mask, prior_en_passant }
    } else {
        LegalMove::CastleQueenside { castle_mask, prior_en_passant }
    };
    let w = make_spec(v, m);
    let me = v.active_player;
    let home = me.home_rank_spec();
    let e_sq = Square(File::E, home);
    let king_to = if kingside { Square(File::G, home) } else { Square(File::C, home) };
    let rook_from = if kingside { Square(File::H, home) } else { Square(File::A, home) };
    let rook_to = if kingside { Square(File::F, home) } else { Square(File::D, home) };
    let base = squares_hash(v.squares, 64);
    let wbase = squares_hash(w.squares, 64);
    let ke = piece_square_key_spec(Piece(PieceType::King, me), e_sq);
    let kg = piece_square_key_spec(Piece(PieceType::King, me), king_to);
    let kh = piece_square_key_spec(Piece(PieceType::Rook, me), rook_from);
    let kf = piece_square_key_spec(Piece(PieceType::Rook, me), rook_to);
    let ckv = castling_key_spec(v.castling_rights);
    let ckw = castling_key_spec(w.castling_rights);
    let btm = black_to_move_key_spec();
    let btmv = btm_term(v);
    let btmw = btm_term(w);
    let epv = ep_term(v);
    let zv = zobrist_spec(v);
    let zw = zobrist_spec(w);
    lemma_zobrist_flat(v);
    lemma_zobrist_flat(w);
    assert(btmw == btmv ^ btm) by {
        lemma_btm_flip(v, w);
    }
    let s1 = v.squares.update(king_to.as_index(), v.at(e_sq)).update(e_sq.as_index(), None);
    lemma_two_writes(v.squares, king_to.as_index(), v.at(e_sq), e_sq.as_index(), None);
    lemma_two_writes(s1, rook_to.as_index(), s1[rook_from.as_index()], rook_from.as_index(), None);
    assert(s1[rook_from.as_index()] == v.at(rook_from));
    assert(s1[rook_to.as_index()] == v.at(rook_to));
    let mid1 = squares_hash(s1, 64);
    assert(mid1 == base ^ 0 ^ kg ^ ke ^ 0) by {
        assert(square_contrib(v.at(king_to), king_to.as_index()) == 0);
        assert(square_contrib(v.at(e_sq), king_to.as_index()) == kg);
        assert(square_contrib(v.at(e_sq), e_sq.as_index()) == ke);
    }
    assert(wbase == mid1 ^ 0 ^ kf ^ kh ^ 0) by {
        assert(square_contrib(s1[rook_to.as_index()], rook_to.as_index()) == 0);
        assert(square_contrib(s1[rook_from.as_index()], rook_to.as_index()) == kf);
        assert(square_contrib(s1[rook_from.as_index()], rook_from.as_index()) == kh);
    }
    assert(zw == zv ^ epv ^ ke ^ kg ^ kh ^ kf ^ ckv ^ ckw ^ btm) by (bit_vector)
        requires
            zv == base ^ ckv ^ btmv ^ epv,
            zw == wbase ^ ckw ^ btmw ^ 0u64,
            btmw == btmv ^ btm,
            mid1 == base ^ 0 ^ kg ^ ke ^ 0,
            wbase == mid1 ^ 0 ^ kf ^ kh ^ 0,
    ;
}

/// The hash delta of a promotion: the pawn out, the promoted piece in, the
/// capture key, and the castling keys out and in.
proof fn lemma_update_promotion(
    v: BoardView,
    src: Square,
    dest: Square,
    castle_mask: u8,
    promotion: PieceType,
    captured_piece: Option<PieceType>,
    prior_en_passant: Option<Square>,
)
    requires
        v.squares.len() == 64,
        hash_update_pre(
            v,
            LegalMove::Promotion {
                src,
                dest,
                castle_mask,
                promotion,
                captured_piece,
                prior_en_passant,
            },
        ),
    ensures
        ({
            let m = LegalMove::Promotion {
                src,
                dest,
                castle_mask,
                promotion,
                captured_piece,
                prior_en_passant,
            };
            let me = v.active_player;
            zobrist_spec(make_spec(v, m)) == zobrist_spec(v) ^ ep_term(v) ^ piece_square_key_spec(
                Piece(PieceType::Pawn, me),
                src,
            ) ^ piece_square_key_spec(Piece(promotion, me), dest) ^ square_contrib(
                v.at(dest),
                dest.as_index(),
            ) ^ castling_key_spec(v.castling_rights) ^ castling_key_spec(
                v.castling_rights ^ castle_mask,
            ) ^ black_to_move_key_spec()
        }),
{
    let m = LegalMove::Promotion { src, dest, castle_mask, promotion, captured_piece, prior_en_passant };
    let w = make_spec(v, m);
    let me = v.active_player;
    let base = squares_hash(v.squares, 64);
    let wbase = squares_hash(w.squares, 64);
    let ks = piece_square_key_spec(Piece(PieceType::Pawn, me), src);
    let kd = piece_square_key_spec(Piece(promotion, me), dest);
    let kcap = square_contrib(v.at(dest), dest.as_index());
    let ckv = castling_key_spec(v.castling_rights);
    let ckw = castling_key_spec(w.castling_rights);
    let btm = black_to_move_key_spec();
    let btmv = btm_term(v);
    let btmw = btm_term(w);
    let epv = ep_term(v);
    let zv = zobrist_spec(v);
    let zw = zobrist_spec(w);
    lemma_zobrist_flat(v);
    lemma_zobrist_flat(w);
    assert(btmw == btmv ^ btm) by {
        lemma_btm_flip(v, w);
    }
    lemma_two_writes(
        v.squares,
        dest.as_index(),
        Some(Piece(promotion, me)),
        src.as_index(),
        None,
    );
    assert(wbase == base ^ kcap ^ kd ^ ks) by {
        assert(square_contrib(Some(Piece(promotion, me)), dest.as_index()) == kd);
        assert(square_contrib(
            v.squares.update(dest.as_index(), Some(Piece(promotion, me)))[src.as_index()],
            src.as_index(),
        ) == ks);
        lemma_xor_zero(base ^ kcap ^ kd ^ ks);
    }
    assert(zw == zv ^ epv ^ ks ^ kd ^ kcap ^ ckv ^ ckw ^ btm) by (bit_vector)
        requires
            zv == base ^ ckv ^ btmv ^ epv,
            zw == wbase ^ ckw ^ btmw ^ 0u64,
            btmw == btmv ^ btm,
            wbase == base ^ kcap ^ kd ^ ks,
    ;
}

/// The hash delta of an en-passant capture: three pawn keys.
#[verifier::rlimit(100)]
proof fn lemma_update_en_passant(
    v: BoardView,
    src: Square,
    dest: Square,
    prior_en_passant: Option<Square>,
)
    requires
        v.squares.len() == 64,
        hash_update_pre(v, LegalMove::EnPassantCapture { src, dest, prior_en_passant }),
    ensures
        ({
            let m = LegalMove::EnPassantCapture { src, dest, prior_en_passant };
            let me = v.active_player;
            let cap = Square(dest.0, me.opponent_spec().double_push_rank_spec());
            zobrist_spec(make_spec(v, m)) == zobrist_spec(v) ^ ep_term(v) ^ piece_square_key_spec(
                Piece(PieceType::Pawn, me),
                src,
            ) ^ piece_square_key_spec(Piece(PieceType::Pawn, me), dest) ^ piece_square_key_spec(
                Piece(PieceType::Pawn, me.opponent_spec()),
                cap,
            ) ^ black_to_move_key_spec()
        }),
{
    let m = LegalMove::EnPassantCapture { src, dest, prior_en_passant };
    let w = make_spec(v, m);
    let me = v.active_player;
    let cap = Square(dest.0, me.opponent_spec().double_push_rank_spec());
    let base = squares_hash(v.squares, 64);
    let wbase = squares_hash(w.squares, 64);
    let ks = piece_square_key_spec(Piece(PieceType::Pawn, me), src);
    let kd = piece_square_key_spec(Piece(PieceType::Pawn, me), dest);
    let kc = piece_square_key_spec(Piece(PieceType::Pawn, me.opponent_spec()), cap);
    let ckv = castling_key_spec(v.castling_rights);
    let btm = black_to_move_key_spec();
    let btmv = btm_term(v);
    let btmw = btm_term(w);
    let epv = ep_term(v);
    let zv = zobrist_spec(v);
    let zw = zobrist_spec(w);
    lemma_zobrist_flat(v);
    lemma_zobrist_flat(w);
    assert(btmw == btmv ^ btm) by {
        lemma_btm_flip(v, w);
    }
    let s2 = v.squares.update(dest.as_index(), v.at(src)).update(src.as_index(), None);
    lemma_two_writes(v.squares, dest.as_index(), v.at(src), src.as_index(), None);
    lemma_squares_hash_update(s2, cap.as_index(), None, 64);
    assert(s2[cap.as_index()] == v.at(cap));
    let mid2 = squares_hash(s2, 64);
    assert(mid2 == base ^ 0 ^ kd ^ ks ^ 0) by {
        assert(square_contrib(v.at(dest), dest.as_index()) == 0);
        assert(square_contrib(v.at(src), dest.as_index()) == kd);
        assert(square_contrib(v.at(src), src.as_index()) == ks);
    }
    assert(wbase == mid2 ^ kc ^ 0) by {
        assert(square_contrib(s2[cap.as_index()], cap.as_index()) == kc);
    }
    assert(w.castling_rights == v.castling_rights);
    assert(zw == zv ^ epv ^ ks ^ kd ^ kc ^ btm) by (bit_vector)
        requires
            zv == base ^ ckv ^ btmv ^ epv,
            zw == wbase ^ ckv ^ btmw ^ 0u64,
            btmw == btmv ^ btm,
            mid2 == base ^ 0 ^ kd ^ ks ^ 0,
            wbase == mid2 ^ kc ^ 0,
    ;
}

/// Updates a position's hash for a validated move before the move is made.
/// Fed the hash of the position, it returns the hash of the position after
/// the move: the hash stays consistent under incremental maintenance.
pub fn update_zobrist_hash(board: &Board, board_hash: u64, move_: &LegalMove) -> (r: u64)
    requires
        hash_update_pre(board@, *move_),
    ensures
        board_hash == zobrist_spec(board@) ==> r == zobrist_spec(make_spec(board@, *move_)),
{
    let ghost v = board@;
    let mut hash = board_hash;
    if let Some(target) = board.en_passant_target {
        hash = hash ^ get_en_passant_key(target.0);
    }
    proof {
        if v.en_passant_target is None {
            lemma_xor_zero(board_hash);
        }
        assert(hash == board_hash ^ ep_term(v));
    }
    let ghost mid = hash;
    let active = board.active_player;
    match move_ {
        LegalMove::Normal { src, dest, castle_mask, captured_piece, prior_en_passant } => {
            let src_piece = board.get_piece_at(*src).unwrap();
            hash = hash ^ get_piece_square_key(src_piece, *dest);
            hash = hash ^ get_piece_square_key(src_piece, *src);
            if let Some(captured) = captured_piece {
                hash = hash ^ get_piece_square_key(Piece(*captured, active.opponent()), *dest);
            }
            hash = hash ^ get_castling_key(board.castling_rights);
            hash = hash ^ get_castling_key(board.castling_rights ^ *castle_mask);
            proof {
                let kd = piece_square_key_spec(src_piece, *dest);
                let ks = piece_square_key_spec(src_piece, *src);
                let kcap = square_contrib(v.at(*dest), dest.as_index());
                if captured_piece is None {
                    lemma_xor_zero(mid ^ kd ^ ks);
                }
                assert(hash == mid ^ kd ^ ks ^ kcap ^ castling_key_spec(v.castling_rights)
                    ^ castling_key_spec(v.castling_rights ^ *castle_mask));
                lemma_update_normal(v, *src, *dest, *castle_mask, *captured_piece, *prior_en_passant);
            }
        },
        LegalMove::DoublePawnPush { file, prior_en_passant } => {
            let start_sq = Square(*file, active.pawn_start_rank());
            let push_sq = Square(*file, active.double_push_rank());
            hash = hash ^ get_piece_square_key(Piece(PieceType::Pawn, active), start_sq);
            hash = hash ^ get_piece_square_key(Piece(PieceType::Pawn, active), push_sq);
            hash = hash ^ get_en_passant_key(*file);
            proof {
                lemma_update_double_push(v, *file, *prior_en_passant);
            }
        },
        LegalMove::CastleKingside { castle_mask, prior_en_passant } => {
            hash = hash ^ get_piece_square_key(
                Piece(PieceType::King, active),
                Square(File::E, active.home_rank()),
            );
            hash = hash ^ get_piece_square_key(
                Piece(PieceType::King, active),
                Square(File::G, active.home_rank()),
            );
            hash = hash ^ get_piece_square_key(
                Piece(PieceType::Rook, active),
                Square(File::H, active.home_rank()),
            );
            hash = hash ^ get_piece_square_key(
                Piece(PieceType::Rook, active),
                Square(File::F, active.home_rank()),
            );
            hash = hash ^ get_castling_key(board.castling_rights);
            hash = hash ^ get_castling_key(board.castling_rights ^ *castle_mask);
            proof {
                lemma_update_castle(v, true, *castle_mask, *prior_en_passant);
            }
        },
        LegalMove::CastleQueenside { castle_mask, prior_en_passant } => {
            hash = hash ^ get_piece_square_key(
                Piece(PieceType::King, active),
                Square(File::E, active.home_rank()),
            );
            hash = hash ^ get_piece_square_key(
                Piece(PieceType::King, active),
                Square(File::C, active.home_rank()),
            );
            hash = hash ^ get_piece_square_key(
                Piece(PieceType::Rook, active),
                Square(File::A, active.home_rank()),
            );
            hash = hash ^ get_piece_square_key(
                Piece(PieceType::Rook, active),
                Square(File::D, active.home_rank()),
            );
            hash = hash ^ get_castling_key(board.castling_rights);
            hash = hash ^ get_castling_key(board.castling_rights ^ *castle_mask);
            proof {
                lemma_update_castle(v, false, *castle_mask, *prior_en_passant);
            }
        },
        LegalMove::Promotion { src, dest, castle_mask, promotion, captured_piece, prior_en_passant } => {
            hash = hash ^ get_piece_square_key(Piece(PieceType::Pawn, active), *src);
            hash = hash ^ get_piece_square_key(Piece(*promotion, active), *dest);
            if let Some(captured) = captured_piece {
                hash = hash ^ get_piece_square_key(Piece(*captured, active.opponent()), *dest);
            }
            hash = hash ^ get_castling_key(board.castling_rights);
            hash = hash ^ get_castling_key(board.castling_rights ^ *castle_mask);
            proof {
                let ks = piece_square_key_spec(Piece(PieceType::Pawn, active), *src);
                let kd = piece_square_key_spec(Piece(*promotion, active), *dest);
                let kcap = square_contrib(v.at(*dest), dest.as_index());
                if captured_piece is None {
                    lemma_xor_zero(mid ^ ks ^ kd);
                }
                assert(hash == mid ^ ks ^ kd ^ kcap ^ castling_key_spec(v.castling_rights)
                    ^ castling_key_spec(v.castling_rights ^ *castle_mask));
                lemma_update_promotion(
                    v,
                    *src,
                    *dest,
                    *castle_mask,
                    *promotion,
                    *captured_piece,
                    *prior_en_passant,
                );
            }
        },
        LegalMove::EnPassantCapture { src, dest, prior_en_passant } => {
            hash = hash ^ get_piece_square_key(Piece(PieceType::Pawn, active), *src);
            hash = hash ^ get_piece_square_key(Piece(PieceType::Pawn, active), *dest);
            hash = hash ^ get_piece_square_key(
                Piece(PieceType::Pawn, active.opponent()),
                Square(dest.0, active.opponent().double_push_rank()),
            );
            proof {
                lemma_update_en_passant(v, *src, *dest, *prior_en_passant);
            }
        },
    }
    hash = hash ^ get_black_to_move_key();
    hash
}

} // verus!


