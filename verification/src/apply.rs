//! Move application: promotion on arrival, the castling rook shuffle,
//! the one-way moved-flags, the king caches, and capture by overwrite.

use vstd::prelude::*;

use crate::board::{Board, BoardModel};
use crate::moves::{home_row, move_allowed};
use crate::piece::{Color, Piece, PieceKind};

verus! {

/// The moved piece after any promotion: a pawn reaching the farthest
/// rank becomes a queen of its color.
pub open spec fn promoted(p: Piece, tr: int) -> Piece {
    if p == Piece::Occupied(Color::White, PieceKind::Pawn) && tr == 0 {
        Piece::Occupied(Color::White, PieceKind::Queen)
    } else if p == Piece::Occupied(Color::Black, PieceKind::Pawn) && tr == 7 {
        Piece::Occupied(Color::Black, PieceKind::Queen)
    } else {
        p
    }
}

/// The grid after the castling side effect, when the move has the
/// shape of a castle (a king leaving its home square two columns
/// sideways): the corresponding rook lands beside the king and its
/// home corner is cleared.  Any other move leaves the grid alone here.
pub open spec fn castle_shuffled(
    g: Seq<Piece>,
    p: Piece,
    sc: int,
    sr: int,
    tc: int,
    tr: int,
) -> Seq<Piece> {
    match p {
        Piece::Occupied(col, PieceKind::King) => {
            if sc == 4 && sr == home_row(col) && tr == sr {
                if tc == 6 {
                    g.update(tr * 8 + 5, Piece::Occupied(col, PieceKind::Rook)).update(
                        tr * 8 + 7,
                        Piece::Empty,
                    )
                } else if tc == 2 {
                    g.update(tr * 8 + 3, Piece::Occupied(col, PieceKind::Rook)).update(
                        tr * 8 + 0,
                        Piece::Empty,
                    )
                } else {
                    g
                }
            } else {
                g
            }
        },
        _ => g,
    }
}

/// The board after applying the move from `(sc, sr)` to `(tc, tr)`:
/// promotion, castling side effect, moved-flags, king cache, then the
/// source square cleared and the destination overwritten (capture by
/// overwrite).
pub open spec fn apply_move_spec(m: BoardModel, sc: int, sr: int, tc: int, tr: int) -> BoardModel {
    let p = promoted(m.at(sc, sr), tr);
    let g = castle_shuffled(m.grid, p, sc, sr, tc, tr).update(tr * 8 + tc, p).update(
        sr * 8 + sc,
        Piece::Empty,
    );
    BoardModel {
        grid: g,
        white_king: if p == Piece::Occupied(Color::White, PieceKind::King) {
            (tc, tr)
        } else {
            m.white_king
        },
        black_king: if p == Piece::Occupied(Color::Black, PieceKind::King) {
            (tc, tr)
        } else {
            m.black_king
        },
        white_king_moved: m.white_king_moved || p == Piece::Occupied(Color::White, PieceKind::King),
        black_king_moved: m.black_king_moved || p == Piece::Occupied(Color::Black, PieceKind::King),
        white_queenside_rook_moved: m.white_queenside_rook_moved || (p == Piece::Occupied(
            Color::White,
            PieceKind::Rook,
        ) && sc == 0),
        white_kingside_rook_moved: m.white_kingside_rook_moved || (p == Piece::Occupied(
            Color::White,
            PieceKind::Rook,
        ) && sc == 7),
        black_queenside_rook_moved: m.black_queenside_rook_moved || (p == Piece::Occupied(
            Color::Black,
            PieceKind::Rook,
        ) && sc == 0),
        black_kingside_rook_moved: m.black_kingside_rook_moved || (p == Piece::Occupied(
            Color::Black,
            PieceKind::Rook,
        ) && sc == 7),
    }
}

/// Applying the move would overwrite or clear a square holding a
/// king: capturing a king, or a castle shuffle clearing a corner on
/// which a king stands.  Such a move signals a violated internal
/// invariant instead of being applied.
pub open spec fn move_would_erase_king(m: BoardModel, sc: int, sr: int, tc: int, tr: int) -> bool {
    ||| m.at(tc, tr).spec_kind() == Some(PieceKind::King)
    ||| (m.at(sc, sr).spec_kind() == Some(PieceKind::King) && tc == sc + 2 && m.at(7, tr).spec_kind()
        == Some(PieceKind::King))
    ||| (m.at(sc, sr).spec_kind() == Some(PieceKind::King) && tc == sc - 2 && m.at(0, tr).spec_kind()
        == Some(PieceKind::King))
}

impl Board {
    /// Applies a generated move.  The caller has already checked that
    /// the move is in the legal set and erases no king, so the board
    /// invariant is preserved.
    pub(crate) fn apply_move(&mut self, sc: usize, sr: usize, tc: usize, tr: usize)
        requires
            old(self)@.wf(),
            sc < 8,
            sr < 8,
            tc < 8,
            tr < 8,
            move_allowed(old(self)@, sc as int, sr as int, tc as int, tr as int),
            !move_would_erase_king(old(self)@, sc as int, sr as int, tc as int, tr as int),
        ensures
            final(self)@ == apply_move_spec(old(self)@, sc as int, sr as int, tc as int, tr as int),
            final(self)@.wf(),
    {
        let ghost m = self@;
        let mut p = self.piece_at(sc, sr);
        // Promotion on arrival at the farthest rank.
        if p == Piece::Occupied(Color::White, PieceKind::Pawn) && tr == 0 {
            p = Piece::Occupied(Color::White, PieceKind::Queen);
        } else if p == Piece::Occupied(Color::Black, PieceKind::Pawn) && tr == 7 {
            p = Piece::Occupied(Color::Black, PieceKind::Queen);
        }
        proof {
            assert(p == promoted(m.at(sc as int, sr as int), tr as int));
        }
        // Castling side effect: the rook jumps over to flank the king.
        if let Piece::Occupied(col, PieceKind::King) = p {
            let hr: usize = match col {
                Color::White => 7,
                Color::Black => 0,
            };
            if sc == 4 && sr == hr && tr == sr {
                if tc == 6 {
                    self.set_square(5, tr, Piece::Occupied(col, PieceKind::Rook));
                    self.set_square(7, tr, Piece::Empty);
                } else if tc == 2 {
                    self.set_square(3, tr, Piece::Occupied(col, PieceKind::Rook));
                    self.set_square(0, tr, Piece::Empty);
                }
            }
        }
        proof {
            assert(self@.grid =~= castle_shuffled(
                m.grid,
                p,
                sc as int,
                sr as int,
                tc as int,
                tr as int,
            ));
        }
        // Moved-flags and king cache.
        if let Piece::Occupied(col, PieceKind::King) = p {
            self.mark_king_moved(col);
            self.set_king_pos(col, tc, tr);
        }
        if let Piece::Occupied(col, PieceKind::Rook) = p {
            if sc == 0 {
                self.mark_queenside_rook_moved(col);
            }
            if sc == 7 {
                self.mark_kingside_rook_moved(col);
            }
        }
        // Capture by overwrite, then clear the source.
        self.set_square(tc, tr, p);
        self.set_square(sc, sr, Piece::Empty);
        proof {
            let mf = apply_move_spec(m, sc as int, sr as int, tc as int, tr as int);
            assert(self@.grid =~= mf.grid);
            assert(self@ =~= mf);
            lemma_apply_preserves_wf(m, sc as int, sr as int, tc as int, tr as int);
        }
    }
}

/// Applying an allowed, king-preserving move keeps the board
/// invariant: the grid still holds exactly one king of each color, on
/// the cached squares.
proof fn lemma_apply_preserves_wf(m: BoardModel, sc: int, sr: int, tc: int, tr: int)
    requires
        m.wf(),
        crate::board::in_bounds(sc, sr),
        crate::board::in_bounds(tc, tr),
        move_allowed(m, sc, sr, tc, tr),
        !move_would_erase_king(m, sc, sr, tc, tr),
    ensures
        apply_move_spec(m, sc, sr, tc, tr).wf(),
{
    let p0 = m.at(sc, sr);
    let p = promoted(p0, tr);
    let mf = apply_move_spec(m, sc, sr, tc, tr);
    assert(mf.grid.len() == 64);
    assert(sc != tc || sr != tr) by {
        if sc == tc && sr == tr {
            // A move onto its own square is neither a pattern move nor
            // a castle.
            assert(!move_allowed(m, sc, sr, tc, tr));
        }
    }
    assert(mf.king_ok(Color::White)) by {
        lemma_apply_king_ok(m, sc, sr, tc, tr, Color::White);
    }
    assert(mf.king_ok(Color::Black)) by {
        lemma_apply_king_ok(m, sc, sr, tc, tr, Color::Black);
    }
}

/// No square of the shuffled-and-moved grid holds a piece that the
/// original grid did not show there, other than the moved piece's
/// destination, cleared squares, and the castled rook.
proof fn lemma_apply_grid_cases(m: BoardModel, sc: int, sr: int, tc: int, tr: int, c: int, r: int)
    requires
        m.grid_ok(),
        crate::board::in_bounds(sc, sr),
        crate::board::in_bounds(tc, tr),
        crate::board::in_bounds(c, r),
        c != tc || r != tr,
    ensures
        ({
            let v = crate::board::grid_at(apply_move_spec(m, sc, sr, tc, tr).grid, c, r);
            v == crate::board::grid_at(m.grid, c, r) || v == Piece::Empty || v.spec_kind()
                == Some(PieceKind::Rook)
        }),
{
}

/// The king of `col` is still unique and correctly cached after an
/// allowed, king-preserving move.
proof fn lemma_apply_king_ok(m: BoardModel, sc: int, sr: int, tc: int, tr: int, col: Color)
    requires
        m.wf(),
        crate::board::in_bounds(sc, sr),
        crate::board::in_bounds(tc, tr),
        move_allowed(m, sc, sr, tc, tr),
        !move_would_erase_king(m, sc, sr, tc, tr),
        sc != tc || sr != tr,
    ensures
        apply_move_spec(m, sc, sr, tc, tr).king_ok(col),
{
    let p0 = m.at(sc, sr);
    let p = promoted(p0, tr);
    let k = Piece::Occupied(col, PieceKind::King);
    let mf = apply_move_spec(m, sc, sr, tc, tr);
    let kp = m.king_pos(col);
    if p == k {
        // The mover is `col`'s king; `m`'s cache already named the
        // source square, and the new cache names the destination.
        assert(p0 == k);
        assert(kp.0 == sc && kp.1 == sr);
        assert(mf.king_pos(col) == (tc, tr));
        assert(mf.at(tc, tr) == k);
        assert forall|c: int, r: int|
            crate::board::in_bounds(c, r) && #[trigger] crate::board::grid_at(mf.grid, c, r) == k
                implies c == tc && r == tr by {
            if c != tc || r != tr {
                lemma_apply_grid_cases(m, sc, sr, tc, tr, c, r);
                assert(crate::board::grid_at(m.grid, c, r) != k);
            }
        }
    } else {
        // The mover is not `col`'s king, so that king stays where it
        // was.
        assert(p0 != k);
        assert(mf.king_pos(col) == kp);
        assert(m.at(kp.0, kp.1) == k);
        assert(kp != (sc, sr));
        assert(kp != (tc, tr));
        // When the move has the shape of a castle it is allowed only
        // as one, so the squares the shuffle writes were empty or are
        // kept king-free by the caller's check: none of them is the
        // king's square.
        match p {
            Piece::Occupied(col2, PieceKind::King) => {
                if sc == 4 && sr == home_row(col2) && tr == sr && (tc == 6 || tc == 2) {
                    assert(p0 == p);
                    assert(!crate::attack::king_step(sc, sr, tc, tr));
                    assert(crate::moves::castle_dest(m, sc, sr, tc, tr));
                }
            },
            _ => {},
        }
        assert(mf.at(kp.0, kp.1) == k);
        assert forall|c: int, r: int|
            crate::board::in_bounds(c, r) && #[trigger] crate::board::grid_at(mf.grid, c, r) == k
                implies c == kp.0 && r == kp.1 by {
            if c != kp.0 || r != kp.1 {
                if c != tc || r != tr {
                    lemma_apply_grid_cases(m, sc, sr, tc, tr, c, r);
                    assert(crate::board::grid_at(m.grid, c, r) != k);
                } else {
                    assert(crate::board::grid_at(mf.grid, c, r) == p);
                }
            }
        }
    }
}

} // verus!
