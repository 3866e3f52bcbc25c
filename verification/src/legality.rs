//! The legality filter: a trial-apply / detect / undo probe that
//! decides whether a move would leave the mover's own king attacked,
//! and restores the board exactly afterwards.

use vstd::prelude::*;

use crate::attack::attacked;
use crate::board::{Board, BoardModel};
use crate::piece::{Color, Piece, PieceKind};

verus! {

/// The board after tentatively moving the piece on `(sc, sr)` to
/// `(tc, tr)`: the destination is overwritten, the source cleared, and
/// the king cache follows a moved king; the flags stay put.
pub open spec fn trial_board(m: BoardModel, sc: int, sr: int, tc: int, tr: int) -> BoardModel {
    let p = m.at(sc, sr);
    BoardModel {
        grid: m.grid.update(tr * 8 + tc, p).update(sr * 8 + sc, Piece::Empty),
        white_king: if p == Piece::Occupied(Color::White, PieceKind::King) {
            (tc, tr)
        } else {
            m.white_king
        },
        black_king: if p == Piece::Occupied(Color::Black, PieceKind::King) {
            (tc, tr)
        } else {
            m.black_king
        },
        ..m
    }
}

/// After the trial application of the move, `col`'s own king stands on
/// a square attacked by the opponent.
pub open spec fn leaves_king_attacked(
    m: BoardModel,
    sc: int,
    sr: int,
    tc: int,
    tr: int,
    col: Color,
) -> bool {
    let m2 = trial_board(m, sc, sr, tc, tr);
    attacked(m2.grid, m2.king_pos(col).0, m2.king_pos(col).1, col.spec_opposite())
}

/// What the legality probe reports: a move onto a square held by the
/// mover's own color is refused outright; otherwise the move is legal
/// exactly when it does not leave the mover's own king attacked.  An
/// empty source has no mover and nothing to refuse.
pub open spec fn legal_move_spec(m: BoardModel, sc: int, sr: int, tc: int, tr: int) -> bool {
    match m.at(sc, sr).spec_color() {
        None => true,
        Some(col) => !m.at(tc, tr).spec_has_color(col) && !leaves_king_attacked(
            m,
            sc,
            sr,
            tc,
            tr,
            col,
        ),
    }
}

impl Board {
    /// The legality probe.  Tentatively applies the move, asks the
    /// attack detector about the mover's own king, and undoes the
    /// trial unconditionally: the board afterwards equals the board
    /// before in every square, every flag and every cached king
    /// position, however often the probe is run.
    pub fn is_legal_move(&mut self, sc: usize, sr: usize, tc: usize, tr: usize) -> (r: bool)
        requires
            old(self)@.wf(),
            sc < 8,
            sr < 8,
            tc < 8,
            tr < 8,
        ensures
            final(self)@ == old(self)@,
            r == legal_move_spec(old(self)@, sc as int, sr as int, tc as int, tr as int),
    {
        let ghost m = self@;
        let moving = self.piece_at(sc, sr);
        let captured = self.piece_at(tc, tr);
        let col = match moving.color() {
            None => {
                return true;
            },
            Some(col) => col,
        };
        if captured.has_color(col) {
            return false;
        }
        let is_king = moving == Piece::Occupied(col, PieceKind::King);
        // Trial application.
        self.set_square(tc, tr, moving);
        self.set_square(sc, sr, Piece::Empty);
        if is_king {
            self.set_king_pos(col, tc, tr);
        }
        proof {
            assert(self@.grid =~= trial_board(m, sc as int, sr as int, tc as int, tr as int).grid);
            assert(self@ =~= trial_board(m, sc as int, sr as int, tc as int, tr as int));
        }
        let (kc, kr) = self.king_coords(col);
        proof {
            if !is_king {
                assert(self@.king_pos(col) == m.king_pos(col));
            }
            assert(crate::board::in_bounds(self@.king_pos(col).0, self@.king_pos(col).1));
        }
        let danger = self.is_square_attacked(kc, kr, col.opposite());
        // Unconditional undo, symmetric with the trial above.
        self.set_square(sc, sr, moving);
        self.set_square(tc, tr, captured);
        if is_king {
            self.set_king_pos(col, sc, sr);
        }
        proof {
            if is_king {
                // The source square held `col`'s king, so the old cache
                // already named it.
                assert(m.king_pos(col).0 == sc as int && m.king_pos(col).1 == sr as int);
            }
            assert(self@.grid =~= m.grid);
            assert(self@ =~= m);
            assert(danger == leaves_king_attacked(m, sc as int, sr as int, tc as int, tr as int, col));
        }
        !danger
    }
}

} // verus!
