//! The position: an 8×8 mailbox of optional pieces together with the side to
//! move, the castling-rights bits and the en-passant target square.

use vstd::prelude::*;

use crate::models::{Color, ColorProps, File, LegalMove, Piece, PieceType, Rank, Square};

verus! {

/// The mathematical model of a position: contracts speak of this.
#[verifier::ext_equal]
pub ghost struct BoardView {
    pub squares: Seq<Option<Piece>>,
    pub active_player: Color,
    pub castling_rights: u8,
    pub en_passant_target: Option<Square>,
}

impl BoardView {
    /// The piece standing on `s`, if any.
    pub open spec fn at(self, s: Square) -> Option<Piece> {
        self.squares[s.as_index()]
    }

    pub open spec fn has_kingside_rights(self, color: Color) -> bool {
        self.castling_rights & (match color {
            Color::White => 0b1000u8,
            Color::Black => 0b0010u8,
        }) != 0
    }

    pub open spec fn has_queenside_rights(self, color: Color) -> bool {
        self.castling_rights & (match color {
            Color::White => 0b0100u8,
            Color::Black => 0b0001u8,
        }) != 0
    }
}

/// The castling-rights bit layout: White kingside, White queenside, Black
/// kingside, Black queenside, from the highest of the four bits down.
pub open spec fn kingside_bit(color: Color) -> u8 {
    match color {
        Color::White => 0b1000u8,
        Color::Black => 0b0010u8,
    }
}

pub open spec fn queenside_bit(color: Color) -> u8 {
    match color {
        Color::White => 0b0100u8,
        Color::Black => 0b0001u8,
    }
}

#[derive(Debug, Copy, Clone)]
pub struct Board {
    pub squares: [Option<Piece>; 64],
    pub active_player: Color,
    pub castling_rights: u8,
    pub en_passant_target: Option<Square>,
}

impl View for Board {
    type V = BoardView;

    open spec fn view(&self) -> BoardView {
        BoardView {
            squares: self.squares@,
            active_player: self.active_player,
            castling_rights: self.castling_rights,
            en_passant_target: self.en_passant_target,
        }
    }
}

/// How a validated move rewrites the position model. Mirrors `make_move`.
pub open spec fn make_spec(v: BoardView, m: LegalMove) -> BoardView {
    let me = v.active_player;
    match m {
        LegalMove::Normal { src, dest, castle_mask, .. } => BoardView {
            squares: v.squares.update(dest.as_index(), v.at(src)).update(src.as_index(), None),
            active_player: me.opponent_spec(),
            castling_rights: v.castling_rights ^ castle_mask,
            en_passant_target: None,
        },
        LegalMove::Promotion { src, dest, castle_mask, promotion, .. } => BoardView {
            squares: v.squares.update(dest.as_index(), Some(Piece(promotion, me))).update(
                src.as_index(),
                None,
            ),
            active_player: me.opponent_spec(),
            castling_rights: v.castling_rights ^ castle_mask,
            en_passant_target: None,
        },
        LegalMove::CastleKingside { castle_mask, .. } => {
            let home = me.home_rank_spec();
            let e = Square(File::E, home);
            let f = Square(File::F, home);
            let g = Square(File::G, home);
            let h = Square(File::H, home);
            let s1 = v.squares.update(g.as_index(), v.at(e)).update(e.as_index(), None);
            BoardView {
                squares: s1.update(f.as_index(), s1[h.as_index()]).update(h.as_index(), None),
                active_player: me.opponent_spec(),
                castling_rights: v.castling_rights ^ castle_mask,
                en_passant_target: None,
            }
        },
        LegalMove::CastleQueenside { castle_mask, .. } => {
            let home = me.home_rank_spec();
            let a = Square(File::A, home);
            let c = Square(File::C, home);
            let d = Square(File::D, home);
            let e = Square(File::E, home);
            let s1 = v.squares.update(c.as_index(), v.at(e)).update(e.as_index(), None);
            BoardView {
                squares: s1.update(d.as_index(), s1[a.as_index()]).update(a.as_index(), None),
                active_player: me.opponent_spec(),
                castling_rights: v.castling_rights ^ castle_mask,
                en_passant_target: None,
            }
        },
        LegalMove::DoublePawnPush { file, .. } => {
            let src = Square(file, me.pawn_start_rank_spec());
            let dest = Square(file, me.double_push_rank_spec());
            BoardView {
                squares: v.squares.update(dest.as_index(), Some(Piece(PieceType::Pawn, me)))
                    .update(src.as_index(), None),
                active_player: me.opponent_spec(),
                castling_rights: v.castling_rights,
                en_passant_target: Some(Square(file, me.hop_rank_spec())),
            }
        },
        LegalMove::EnPassantCapture { src, dest, .. } => {
            let captured = Square(dest.0, me.opponent_spec().double_push_rank_spec());
            BoardView {
                squares: v.squares.update(dest.as_index(), v.at(src)).update(src.as_index(), None)
                    .update(captured.as_index(), None),
                active_player: me.opponent_spec(),
                castling_rights: v.castling_rights,
                en_passant_target: None,
            }
        },
    }
}

/// How taking a validated move back rewrites the model. Mirrors
/// `unmake_move`: the move carries the en-passant target of the position it
/// was produced from, and taking it back writes that target back.
pub open spec fn unmake_spec(v: BoardView, m: LegalMove) -> BoardView {
    let me = v.active_player.opponent_spec();
    match m {
        LegalMove::Normal { src, dest, castle_mask, captured_piece, prior_en_passant } => BoardView {
            squares: v.squares.update(
                dest.as_index(),
                match captured_piece {
                    Some(p) => Some(Piece(p, me.opponent_spec())),
                    None => None,
                },
            ).update(src.as_index(), v.at(dest)),
            active_player: me,
            castling_rights: v.castling_rights ^ castle_mask,
            en_passant_target: prior_en_passant,
        },
        LegalMove::Promotion { src, dest, castle_mask, captured_piece, prior_en_passant, .. } => BoardView {
            squares: v.squares.update(src.as_index(), Some(Piece(PieceType::Pawn, me))).update(
                dest.as_index(),
                match captured_piece {
                    Some(p) => Some(Piece(p, me.opponent_spec())),
                    None => None,
                },
            ),
            active_player: me,
            castling_rights: v.castling_rights ^ castle_mask,
            en_passant_target: prior_en_passant,
        },
        LegalMove::CastleKingside { castle_mask, prior_en_passant } => {
            let home = me.home_rank_spec();
            let e = Square(File::E, home);
            let f = Square(File::F, home);
            let g = Square(File::G, home);
            let h = Square(File::H, home);
            let s1 = v.squares.update(e.as_index(), v.at(g)).update(g.as_index(), None);
            BoardView {
                squares: s1.update(h.as_index(), s1[f.as_index()]).update(f.as_index(), None),
                active_player: me,
                castling_rights: v.castling_rights ^ castle_mask,
                en_passant_target: prior_en_passant,
            }
        },
        LegalMove::CastleQueenside { castle_mask, prior_en_passant } => {
            let home = me.home_rank_spec();
            let a = Square(File::A, home);
            let c = Square(File::C, home);
            let d = Square(File::D, home);
            let e = Square(File::E, home);
            let s1 = v.squares.update(e.as_index(), v.at(c)).update(c.as_index(), None);
            BoardView {
                squares: s1.update(a.as_index(), s1[d.as_index()]).update(d.as_index(), None),
                active_player: me,
                castling_rights: v.castling_rights ^ castle_mask,
                en_passant_target: prior_en_passant,
            }
        },
        LegalMove::DoublePawnPush { file, prior_en_passant } => {
            let src = Square(file, me.pawn_start_rank_spec());
            let dest = Square(file, me.double_push_rank_spec());
            BoardView {
                squares: v.squares.update(src.as_index(), Some(Piece(PieceType::Pawn, me)))
                    .update(dest.as_index(), None),
                active_player: me,
                castling_rights: v.castling_rights,
                en_passant_target: prior_en_passant,
            }
        },
        LegalMove::EnPassantCapture { src, dest, prior_en_passant } => {
            let captured = Square(dest.0, me.opponent_spec().double_push_rank_spec());
            BoardView {
                squares: v.squares.update(src.as_index(), v.at(dest)).update(
                    dest.as_index(),
                    None,
                ).update(captured.as_index(), Some(Piece(PieceType::Pawn, me.opponent_spec()))),
                active_player: me,
                castling_rights: v.castling_rights,
                en_passant_target: prior_en_passant,
            }
        },
    }
}

/// The en-passant target a validated move carries: the target of the
/// position it was produced from, written back when the move is unmade.
pub open spec fn prior_ep_of(m: LegalMove) -> Option<Square> {
    match m {
        LegalMove::Normal { prior_en_passant, .. } => prior_en_passant,
        LegalMove::DoublePawnPush { prior_en_passant, .. } => prior_en_passant,
        LegalMove::CastleKingside { prior_en_passant, .. } => prior_en_passant,
        LegalMove::CastleQueenside { prior_en_passant, .. } => prior_en_passant,
        LegalMove::Promotion { prior_en_passant, .. } => prior_en_passant,
        LegalMove::EnPassantCapture { prior_en_passant, .. } => prior_en_passant,
    }
}

/// The squares `make_move` would read with `unwrap`: they must be occupied.
pub open spec fn make_applicable(v: BoardView, m: LegalMove) -> bool {
    let me = v.active_player;
    match m {
        LegalMove::Normal { src, .. } => v.at(src) is Some,
        LegalMove::Promotion { .. } => true,
        LegalMove::CastleKingside { .. } => {
            &&& v.at(me.king_home_square_spec()) is Some
            &&& v.at(Square(File::H, me.home_rank_spec())) is Some
        },
        LegalMove::CastleQueenside { .. } => {
            &&& v.at(me.king_home_square_spec()) is Some
            &&& v.at(Square(File::A, me.home_rank_spec())) is Some
        },
        LegalMove::DoublePawnPush { .. } => true,
        LegalMove::EnPassantCapture { src, .. } => v.at(src) is Some,
    }
}

/// The squares `unmake_move` would read with `unwrap`.
pub open spec fn unmake_applicable(v: BoardView, m: LegalMove) -> bool {
    let me = v.active_player.opponent_spec();
    match m {
        LegalMove::CastleKingside { .. } => {
            let home = me.home_rank_spec();
            &&& v.at(Square(File::G, home)) is Some
            &&& v.squares.update(
                Square(File::E, home).as_index(),
                v.at(Square(File::G, home)),
            ).update(Square(File::G, home).as_index(), None)[Square(File::F, home).as_index()]
                is Some
        },
        LegalMove::CastleQueenside { .. } => {
            let home = me.home_rank_spec();
            &&& v.at(Square(File::C, home)) is Some
            &&& v.squares.update(
                Square(File::E, home).as_index(),
                v.at(Square(File::C, home)),
            ).update(Square(File::C, home).as_index(), None)[Square(File::D, home).as_index()]
                is Some
        },
        LegalMove::EnPassantCapture { dest, .. } => v.at(dest) is Some,
        _ => true,
    }
}

impl Board {
    pub fn get_piece(&self, file: File, rank: Rank) -> (r: Option<Piece>)
        ensures
            r == self@.at(Square(file, rank)),
    {
        self.squares[Square(file, rank).to_index()]
    }

    pub fn get_piece_at(&self, pos: Square) -> (r: Option<Piece>)
        ensures
            r == self@.at(pos),
    {
        self.squares[pos.to_index()]
    }

    pub fn set_piece_at(&mut self, pos: Square, piece: Piece)
        ensures
            final(self)@ == (BoardView {
                squares: old(self)@.squares.update(pos.as_index(), Some(piece)),
                ..old(self)@
            }),
    {
        self.squares[pos.to_index()] = Some(piece);
    }

    /// Places `piece` on the named square; the builder the tests use.
    pub fn set_piece(&mut self, file: File, rank: Rank, piece: Piece)
        ensures
            final(self)@ == (BoardView {
                squares: old(self)@.squares.update(Square(file, rank).as_index(), Some(piece)),
                ..old(self)@
            }),
    {
        self.set_piece_at(Square(file, rank), piece);
    }

    pub fn set_square(&mut self, pos: Square, piece: Option<Piece>)
        ensures
            final(self)@ == (BoardView {
                squares: old(self)@.squares.update(pos.as_index(), piece),
                ..old(self)@
            }),
    {
        self.squares[pos.to_index()] = piece;
    }

    pub fn clear_square(&mut self, pos: Square)
        ensures
            final(self)@ == (BoardView {
                squares: old(self)@.squares.update(pos.as_index(), None),
                ..old(self)@
            }),
    {
        self.squares[pos.to_index()] = None;
    }

    /// A board with no pieces: White to move, no castling rights, no
    /// en-passant target.
    pub fn empty() -> (r: Board)
        ensures
            forall|s: Square| #[trigger] r@.at(s) is None,
            r@.active_player == Color::White,
            r@.castling_rights == 0,
            r@.en_passant_target is None,
    {
        Board {
            squares: [None;64],
            active_player: Color::White,
            castling_rights: 0,
            en_passant_target: None,
        }
    }

    pub fn has_kingside_castling_rights(&self, color: Color) -> (r: bool)
        ensures
            r == self@.has_kingside_rights(color),
    {
        self.castling_rights & (match color {
            Color::White => 0b1000,
            Color::Black => 0b0010,
        }) != 0
    }

    pub fn has_queenside_castling_rights(&self, color: Color) -> (r: bool)
        ensures
            r == self@.has_queenside_rights(color),
    {
        self.castling_rights & (match color {
            Color::White => 0b0100,
            Color::Black => 0b0001,
        }) != 0
    }

    fn move_piece(&mut self, src: Square, dest: Square)
        requires
            old(self)@.at(src) is Some,
        ensures
            final(self)@ == (BoardView {
                squares: old(self)@.squares.update(dest.as_index(), old(self)@.at(src)).update(
                    src.as_index(),
                    None,
                ),
                ..old(self)@
            }),
    {
        let piece = self.get_piece_at(src).unwrap();
        self.set_piece_at(dest, piece);
        self.clear_square(src);
    }

    /// Applies a validated move in place: rewrites the touched squares,
    /// toggles the castling bits in the move's mask, sets or clears the
    /// en-passant target, and passes the turn.
    pub fn make_move(&mut self, move_: &LegalMove)
        requires
            make_applicable(old(self)@, *move_),
        ensures
            final(self)@ == make_spec(old(self)@, *move_),
    {
        let active_player = self.active_player;
        self.en_passant_target = None;
        match move_ {
            LegalMove::Normal { src, dest, castle_mask, .. } => {
                self.move_piece(*src, *dest);
                self.castling_rights = self.castling_rights ^ *castle_mask;
            },
            LegalMove::Promotion { src, dest, castle_mask, promotion, .. } => {
                self.set_piece_at(*dest, Piece(*promotion, active_player));
                self.clear_square(*src);
                self.castling_rights = self.castling_rights ^ *castle_mask;
            },
            LegalMove::CastleKingside { castle_mask, .. } => {
                self.move_piece(
                    active_player.king_home_square(),
                    Square(File::G, active_player.home_rank()),
                );
                self.move_piece(
                    Square(File::H, active_player.home_rank()),
                    Square(File::F, active_player.home_rank()),
                );
                self.castling_rights = self.castling_rights ^ *castle_mask;
            },
            LegalMove::CastleQueenside { castle_mask, .. } => {
                self.move_piece(
                    active_player.king_home_square(),
                    Square(File::C, active_player.home_rank()),
                );
                self.move_piece(
                    Square(File::A, active_player.home_rank()),
                    Square(File::D, active_player.home_rank()),
                );
                self.castling_rights = self.castling_rights ^ *castle_mask;
            },
            LegalMove::DoublePawnPush { file, .. } => {
                let src_rank = active_player.pawn_start_rank();
                let target_rank = active_player.hop_rank();
                let dst_rank = active_player.double_push_rank();
                self.set_piece_at(Square(*file, dst_rank), Piece(PieceType::Pawn, active_player));
                self.clear_square(Square(*file, src_rank));
                self.en_passant_target = Some(Square(*file, target_rank));
            },
            LegalMove::EnPassantCapture { src, dest, .. } => {
                self.move_piece(*src, *dest);
                self.clear_square(Square(dest.0, active_player.opponent().double_push_rank()));
            },
        }
        self.active_player = active_player.opponent();
    }

    /// Reverses `make_move`: restores the touched squares, the turn, the
    /// castling bits and the en-passant target the move carries.
    pub fn unmake_move(&mut self, move_: &LegalMove)
        requires
            unmake_applicable(old(self)@, *move_),
        ensures
            final(self)@ == unmake_spec(old(self)@, *move_),
    {
        self.active_player = self.active_player.opponent();
        let active_player = self.active_player;
        self.en_passant_target = match move_ {
            LegalMove::Normal { prior_en_passant, .. } => *prior_en_passant,
            LegalMove::DoublePawnPush { prior_en_passant, .. } => *prior_en_passant,
            LegalMove::CastleKingside { prior_en_passant, .. } => *prior_en_passant,
            LegalMove::CastleQueenside { prior_en_passant, .. } => *prior_en_passant,
            LegalMove::Promotion { prior_en_passant, .. } => *prior_en_passant,
            LegalMove::EnPassantCapture { prior_en_passant, .. } => *prior_en_passant,
        };
        match move_ {
            LegalMove::Normal { src, dest, castle_mask, captured_piece, .. } => {
                let my_piece = self.get_piece_at(*dest);
                self.set_square(
                    *dest,
                    match captured_piece {
                        Some(p) => Some(Piece(*p, active_player.opponent())),
                        None => None,
                    },
                );
                self.set_square(*src, my_piece);
                self.castling_rights = self.castling_rights ^ *castle_mask;
            },
            LegalMove::Promotion { src, dest, castle_mask, captured_piece, .. } => {
                self.set_piece_at(*src, Piece(PieceType::Pawn, active_player));
                self.set_square(
                    *dest,
                    match captured_piece {
                        Some(p) => Some(Piece(*p, active_player.opponent())),
                        None => None,
                    },
                );
                self.castling_rights = self.castling_rights ^ *castle_mask;
            },
            LegalMove::CastleKingside { castle_mask, .. } => {
                self.move_piece(
                    Square(File::G, active_player.home_rank()),
                    active_player.king_home_square(),
                );
                self.move_piece(
                    Square(File::F, active_player.home_rank()),
                    Square(File::H, active_player.home_rank()),
                );
                self.castling_rights = self.castling_rights ^ *castle_mask;
            },
            LegalMove::CastleQueenside { castle_mask, .. } => {
                self.move_piece(
                    Square(File::C, active_player.home_rank()),
                    active_player.king_home_square(),
                );
                self.move_piece(
                    Square(File::D, active_player.home_rank()),
                    Square(File::A, active_player.home_rank()),
                );
                self.castling_rights = self.castling_rights ^ *castle_mask;
            },
            LegalMove::DoublePawnPush { file, .. } => {
                self.set_piece_at(
                    Square(*file, active_player.pawn_start_rank()),
                    Piece(PieceType::Pawn, active_player),
                );
                self.clear_square(Square(*file, active_player.double_push_rank()));
            },
            LegalMove::EnPassantCapture { src, dest, .. } => {
                let piece = self.get_piece_at(*dest).unwrap();
                self.set_piece_at(*src, piece);
                self.clear_square(*dest);
                self.set_piece_at(
                    Square(dest.0, active_player.opponent().double_push_rank()),
                    Piece(PieceType::Pawn, active_player.opponent()),
                );
            },
        }
    }
}


/// Exclusive-or with the same mask twice gives the bits back.
pub proof fn lemma_xor_involutive(c: u8, m: u8)
    by (bit_vector)
    ensures
        (c ^ m) ^ m == c,
{
}

/// What must hold of a position for a validated move on it to be exactly
/// reversible: the move's recorded en-passant target is the position's, and
/// the squares the move writes back hold today what its bookkeeping says.
pub open spec fn reversible_pre(v: BoardView, m: LegalMove) -> bool {
    let me = v.active_player;
    prior_ep_of(m) == v.en_passant_target && match m {
        LegalMove::Normal { src, dest, captured_piece, .. } => {
            &&& src != dest
            &&& v.at(src) is Some
            &&& v.at(dest) == (match captured_piece {
                Some(p) => Some(Piece(p, me.opponent_spec())),
                None => None::<Piece>,
            })
        },
        LegalMove::Promotion { src, dest, captured_piece, .. } => {
            &&& src != dest
            &&& v.at(src) == Some(Piece(PieceType::Pawn, me))
            &&& v.at(dest) == (match captured_piece {
                Some(p) => Some(Piece(p, me.opponent_spec())),
                None => None::<Piece>,
            })
        },
        LegalMove::CastleKingside { .. } => {
            let home = me.home_rank_spec();
            &&& v.at(Square(File::F, home)) is None
            &&& v.at(Square(File::G, home)) is None
        },
        LegalMove::CastleQueenside { .. } => {
            let home = me.home_rank_spec();
            &&& v.at(Square(File::C, home)) is None
            &&& v.at(Square(File::D, home)) is None
        },
        LegalMove::DoublePawnPush { file, .. } => {
            &&& v.at(Square(file, me.pawn_start_rank_spec())) == Some(
                Piece(PieceType::Pawn, me),
            )
            &&& v.at(Square(file, me.double_push_rank_spec())) is None
        },
        LegalMove::EnPassantCapture { src, dest, .. } => {
            let cap = Square(dest.0, me.opponent_spec().double_push_rank_spec());
            &&& src != dest
            &&& cap != dest
            &&& cap != src
            &&& v.at(src) is Some
            &&& v.at(dest) is None
            &&& v.at(cap) == Some(Piece(PieceType::Pawn, me.opponent_spec()))
        },
    }
}

/// Make, then unmake, restores the position exactly: squares, turn,
/// castling bits and the en-passant target the move carries.
pub proof fn lemma_make_unmake(v: BoardView, m: LegalMove)
    requires
        v.squares.len() == 64,
        reversible_pre(v, m),
    ensures
        unmake_spec(make_spec(v, m), m) == v,
{
    broadcast use crate::models::lemma_square_index_bijective;

    let w = make_spec(v, m);
    let u = unmake_spec(w, m);
    let goal = v;
    match m {
        LegalMove::Normal { src, dest, castle_mask, captured_piece, .. } => {
            lemma_xor_involutive(v.castling_rights, castle_mask);
            assert(u.squares =~= goal.squares);
            assert(u =~= goal);
        },
        LegalMove::Promotion { src, dest, castle_mask, .. } => {
            lemma_xor_involutive(v.castling_rights, castle_mask);
            assert(u.squares =~= goal.squares);
            assert(u =~= goal);
        },
        LegalMove::CastleKingside { castle_mask, .. } => {
            lemma_xor_involutive(v.castling_rights, castle_mask);
            assert(u.squares =~= goal.squares);
            assert(u =~= goal);
        },
        LegalMove::CastleQueenside { castle_mask, .. } => {
            lemma_xor_involutive(v.castling_rights, castle_mask);
            assert(u.squares =~= goal.squares);
            assert(u =~= goal);
        },
        LegalMove::DoublePawnPush { .. } => {
            assert(u.squares =~= goal.squares);
            assert(u =~= goal);
        },
        LegalMove::EnPassantCapture { src, dest, .. } => {
            assert(u.squares =~= goal.squares);
            assert(u =~= goal);
        },
    }
}

} // verus!

