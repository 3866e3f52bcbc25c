//! Engine-wide laws, stated over the same spec functions the public
//! contracts use and proved once for all boards.

use vstd::prelude::*;

use crate::apply::{apply_move_spec, promoted};
use crate::attack::{
    attacked, diag_line, king_step, ortho_line, piece_attacks, strictly_between,
};
use crate::board::{grid_at, in_bounds, BoardModel};
use crate::legality::{leaves_king_attacked, legal_move_spec, trial_board};
use crate::moves::{castle_dest, home_row, move_allowed, pseudo_dest};
use crate::piece::{Color, Piece, PieceKind};

verus! {

/// Squares are empty in `g1` exactly where they are empty in `g2`.
pub open spec fn same_emptiness(g1: Seq<Piece>, g2: Seq<Piece>) -> bool {
    forall|c: int, r: int|
        in_bounds(c, r) ==> ((#[trigger] grid_at(g1, c, r) == Piece::Empty) <==> (#[trigger]
        grid_at(g2, c, r) == Piece::Empty))
}

/// Every square of `g1` holding a piece of color `by` shows the same
/// piece in `g2`.
pub open spec fn same_pieces_of(g1: Seq<Piece>, g2: Seq<Piece>, by: Color) -> bool {
    forall|c: int, r: int|
        in_bounds(c, r) && #[trigger] grid_at(g1, c, r).spec_has_color(by) ==> grid_at(g2, c, r)
            == grid_at(g1, c, r)
}

/// A clear rank or file stays clear on a grid with the same
/// emptiness pattern.
proof fn lemma_ortho_line_congruent(
    g1: Seq<Piece>,
    g2: Seq<Piece>,
    sc: int,
    sr: int,
    tc: int,
    tr: int,
)
    requires
        same_emptiness(g1, g2),
        in_bounds(sc, sr),
        in_bounds(tc, tr),
        ortho_line(g1, sc, sr, tc, tr),
    ensures
        ortho_line(g2, sc, sr, tc, tr),
{
    if sr == tr && sc != tc {
        assert forall|c: int| strictly_between(sc, c, tc) implies #[trigger] grid_at(g2, c, tr)
            == Piece::Empty by {
            assert(grid_at(g1, c, tr) == Piece::Empty);
        }
    } else {
        assert forall|r: int| strictly_between(sr, r, tr) implies #[trigger] grid_at(g2, tc, r)
            == Piece::Empty by {
            assert(grid_at(g1, tc, r) == Piece::Empty);
        }
    }
}

/// A clear diagonal stays clear on a grid with the same emptiness
/// pattern.
proof fn lemma_diag_line_congruent(
    g1: Seq<Piece>,
    g2: Seq<Piece>,
    sc: int,
    sr: int,
    tc: int,
    tr: int,
)
    requires
        same_emptiness(g1, g2),
        in_bounds(sc, sr),
        in_bounds(tc, tr),
        diag_line(g1, sc, sr, tc, tr),
    ensures
        diag_line(g2, sc, sr, tc, tr),
{
    if sr - sc == tr - tc {
        assert forall|c: int, r: int|
            strictly_between(sc, c, tc) && r - c == tr - tc implies #[trigger] grid_at(g2, c, r)
            == Piece::Empty by {
            assert(in_bounds(c, r));
            assert(grid_at(g1, c, r) == Piece::Empty);
        }
        assert(diag_line(g2, sc, sr, tc, tr));
    } else {
        assert forall|c: int, r: int|
            strictly_between(sc, c, tc) && r + c == tr + tc implies #[trigger] grid_at(g2, c, r)
            == Piece::Empty by {
            assert(in_bounds(c, r));
            assert(grid_at(g1, c, r) == Piece::Empty);
        }
        assert(diag_line(g2, sc, sr, tc, tr));
    }
}

/// An attack by `by` carries over to any grid with the same emptiness
/// pattern and the same `by`-colored pieces: attacks depend only on
/// the attacker's own square and on which squares block.
proof fn lemma_attacked_carries(g1: Seq<Piece>, g2: Seq<Piece>, tc: int, tr: int, by: Color)
    requires
        same_emptiness(g1, g2),
        same_pieces_of(g1, g2, by),
        in_bounds(tc, tr),
        attacked(g1, tc, tr, by),
    ensures
        attacked(g2, tc, tr, by),
{
    let (sc, sr) = choose|sc: int, sr: int|
        in_bounds(sc, sr) && grid_at(g1, sc, sr).spec_has_color(by) && #[trigger] piece_attacks(
            g1,
            sc,
            sr,
            tc,
            tr,
        );
    assert(grid_at(g2, sc, sr) == grid_at(g1, sc, sr));
    match grid_at(g1, sc, sr) {
        Piece::Empty => {},
        Piece::Occupied(_, k) => {
            match k {
                PieceKind::King => {},
                PieceKind::Knight => {},
                PieceKind::Pawn => {},
                PieceKind::Rook => {
                    lemma_ortho_line_congruent(g1, g2, sc, sr, tc, tr);
                },
                PieceKind::Bishop => {
                    lemma_diag_line_congruent(g1, g2, sc, sr, tc, tr);
                },
                PieceKind::Queen => {
                    if ortho_line(g1, sc, sr, tc, tr) {
                        lemma_ortho_line_congruent(g1, g2, sc, sr, tc, tr);
                    } else {
                        lemma_diag_line_congruent(g1, g2, sc, sr, tc, tr);
                    }
                },
            }
        },
    }
    assert(piece_attacks(g2, sc, sr, tc, tr));
}

/// No self-capture: a destination holding a piece of the mover's own
/// color never appears in the legal-move set.
pub proof fn no_self_capture(m: BoardModel, col: Color, sc: int, sr: int, tc: int, tr: int)
    requires
        m.wf(),
        in_bounds(sc, sr),
        in_bounds(tc, tr),
        m.at(sc, sr).spec_has_color(col),
        m.at(tc, tr).spec_has_color(col),
    ensures
        !move_allowed(m, sc, sr, tc, tr),
{
    if move_allowed(m, sc, sr, tc, tr) {
        if castle_dest(m, sc, sr, tc, tr) {
            // A castling destination is required to be empty.
            assert(m.at(tc, tr) == Piece::Empty);
        } else {
            // The legality filter refuses a same-color destination
            // outright.
            assert(legal_move_spec(m, sc, sr, tc, tr));
            assert(false);
        }
    }
}

/// King safety: a move whose trial application leaves the mover's own
/// king on an attacked square never appears in the legal-move set.
pub proof fn king_safety(m: BoardModel, col: Color, sc: int, sr: int, tc: int, tr: int)
    requires
        m.wf(),
        in_bounds(sc, sr),
        in_bounds(tc, tr),
        m.at(sc, sr).spec_has_color(col),
        leaves_king_attacked(m, sc, sr, tc, tr, col),
    ensures
        !move_allowed(m, sc, sr, tc, tr),
{
    if move_allowed(m, sc, sr, tc, tr) {
        if castle_dest(m, sc, sr, tc, tr) {
            // Castling demands that the king's trial step onto the
            // landing square passes the legality filter, and that
            // trial is exactly the one this law speaks of.
            if tc == 6 {
                assert(legal_move_spec(m, 4, sr, 6, sr));
            } else {
                assert(legal_move_spec(m, 4, sr, 2, sr));
            }
            assert(false);
        } else {
            assert(legal_move_spec(m, sc, sr, tc, tr));
            assert(false);
        }
    }
}

/// King safety over actual move application: an ordinary (non-
/// castling) move whose application, promotion included, would
/// place the mover's own king on an attacked square never appears in
/// the legal set.  The applied board attacks the king exactly when
/// the legality filter's trial board does, since the two differ only
/// in the kind of the moved piece.
pub proof fn king_safety_applied(m: BoardModel, col: Color, sc: int, sr: int, tc: int, tr: int)
    requires
        m.wf(),
        in_bounds(sc, sr),
        in_bounds(tc, tr),
        m.at(sc, sr).spec_has_color(col),
        !castle_dest(m, sc, sr, tc, tr),
        ({
            let ma = apply_move_spec(m, sc, sr, tc, tr);
            attacked(ma.grid, ma.king_pos(col).0, ma.king_pos(col).1, col.spec_opposite())
        }),
    ensures
        !move_allowed(m, sc, sr, tc, tr),
{
    if move_allowed(m, sc, sr, tc, tr) {
        assert(pseudo_dest(m, sc, sr, tc, tr) && legal_move_spec(m, sc, sr, tc, tr));
        let p0 = m.at(sc, sr);
        let p = promoted(p0, tr);
        let ma = apply_move_spec(m, sc, sr, tc, tr);
        let mt = trial_board(m, sc, sr, tc, tr);
        assert(p0 != Piece::Empty);
        // A king leaving its home square two columns sideways is no
        // pattern move, so here the castle shuffle leaves the grid
        // alone.
        match p {
            Piece::Occupied(col2, PieceKind::King) => {
                if sc == 4 && sr == home_row(col2) && tr == sr && (tc == 6 || tc == 2) {
                    assert(p0 == p);
                    assert(!king_step(sc, sr, tc, tr));
                    assert(false);
                }
            },
            _ => {},
        }
        assert(crate::apply::castle_shuffled(m.grid, p, sc, sr, tc, tr) == m.grid);
        // Promotion never produces or consumes a king, so both boards
        // cache the same king square.
        assert(p == Piece::Occupied(col, PieceKind::King) <==> p0 == Piece::Occupied(
            col,
            PieceKind::King,
        ));
        assert(ma.king_pos(col) == mt.king_pos(col));
        let kc = mt.king_pos(col).0;
        let kr = mt.king_pos(col).1;
        assert(in_bounds(kc, kr));
        // The applied and the trial grid agree on emptiness and on
        // every opposing piece: they differ only in the moved piece's
        // kind on the destination square.
        assert forall|c: int, r: int|
            in_bounds(c, r) implies ((#[trigger] grid_at(ma.grid, c, r) == Piece::Empty) <==> (
        #[trigger] grid_at(mt.grid, c, r) == Piece::Empty)) by {
            if c == sc && r == sr {
            } else if c == tc && r == tr {
                assert(grid_at(ma.grid, c, r) == p);
                assert(grid_at(mt.grid, c, r) == p0);
                assert(p != Piece::Empty);
            } else {
                assert(grid_at(ma.grid, c, r) == grid_at(m.grid, c, r));
                assert(grid_at(mt.grid, c, r) == grid_at(m.grid, c, r));
            }
        }
        assert forall|c: int, r: int|
            in_bounds(c, r) && #[trigger] grid_at(ma.grid, c, r).spec_has_color(
                col.spec_opposite(),
            ) implies grid_at(mt.grid, c, r) == grid_at(ma.grid, c, r) by {
            if c == tc && r == tr {
                assert(grid_at(ma.grid, c, r) == p);
                assert(p.spec_has_color(col));
            }
        }
        lemma_attacked_carries(ma.grid, mt.grid, kc, kr, col.spec_opposite());
        assert(leaves_king_attacked(m, sc, sr, tc, tr, col));
        assert(false);
    }
}

/// King safety over actual castling: an allowed castle never lands
/// the king on a square attacked on the board as actually produced,
/// rook shuffle included.  The shuffle only adds a blocker beside the
/// king and empties a corner no ray to the king passes through, so an
/// attack on the applied board would already show on the castling
/// trial that the legality filter cleared.
pub proof fn castle_applied_king_safe(m: BoardModel, col: Color, tc: int)
    requires
        m.wf(),
        tc == 2 || tc == 6,
        castle_dest(m, 4, home_row(col), tc, home_row(col)),
    ensures
        !attacked(
            apply_move_spec(m, 4, home_row(col), tc, home_row(col)).grid,
            tc,
            home_row(col),
            col.spec_opposite(),
        ),
{
    let hr = home_row(col);
    let opp = col.spec_opposite();
    let k = Piece::Occupied(col, PieceKind::King);
    // The piece castling is `col`'s own king: the two home rows
    // differ.
    assert(m.at(4, hr) == k) by {
        match m.at(4, hr) {
            Piece::Occupied(cx, PieceKind::King) => {
                assert(hr == home_row(cx));
            },
            _ => {},
        }
    }
    let ma = apply_move_spec(m, 4, hr, tc, hr);
    let mt = trial_board(m, 4, hr, tc, hr);
    // The legality filter cleared the king's trial step onto the
    // landing square.
    assert(legal_move_spec(m, 4, hr, tc, hr));
    assert(!attacked(mt.grid, tc, hr, opp));
    // The rook's landing column and the emptied corner column.
    let rc: int = if tc == 6 { 5 } else { 3 };
    let cc: int = if tc == 6 { 7 } else { 0 };
    assert(grid_at(ma.grid, rc, hr) == Piece::Occupied(col, PieceKind::Rook));
    assert(grid_at(ma.grid, cc, hr) == Piece::Empty);
    assert(grid_at(ma.grid, tc, hr) == k);
    assert(grid_at(ma.grid, 4, hr) == Piece::Empty);
    if attacked(ma.grid, tc, hr, opp) {
        let (ac, ar) = choose|ac: int, ar: int|
            in_bounds(ac, ar) && grid_at(ma.grid, ac, ar).spec_has_color(opp) && #[trigger]
            piece_attacks(ma.grid, ac, ar, tc, hr);
        // The attacker stands on none of the four squares the castle
        // touches, so the trial board shows the same piece there.
        assert(grid_at(mt.grid, ac, ar) == grid_at(ma.grid, ac, ar));
        match grid_at(ma.grid, ac, ar) {
            Piece::Empty => {},
            Piece::Occupied(_, kind) => {
                match kind {
                    PieceKind::King => {},
                    PieceKind::Knight => {},
                    PieceKind::Pawn => {},
                    PieceKind::Rook => {
                        lemma_castle_ray_carries(m, col, tc, ac, ar);
                    },
                    PieceKind::Bishop => {
                        lemma_castle_diag_carries(m, col, tc, ac, ar);
                    },
                    PieceKind::Queen => {
                        if ortho_line(ma.grid, ac, ar, tc, hr) {
                            lemma_castle_ray_carries(m, col, tc, ac, ar);
                        } else {
                            lemma_castle_diag_carries(m, col, tc, ac, ar);
                        }
                    },
                }
            },
        }
        assert(piece_attacks(mt.grid, ac, ar, tc, hr));
        assert(false);
    }
}

/// A clear rank or file to the castled king's landing square on the
/// applied board is clear on the castling trial board too.
proof fn lemma_castle_ray_carries(m: BoardModel, col: Color, tc: int, ac: int, ar: int)
    requires
        m.wf(),
        tc == 2 || tc == 6,
        castle_dest(m, 4, home_row(col), tc, home_row(col)),
        in_bounds(ac, ar),
        ortho_line(
            apply_move_spec(m, 4, home_row(col), tc, home_row(col)).grid,
            ac,
            ar,
            tc,
            home_row(col),
        ),
    ensures
        ortho_line(trial_board(m, 4, home_row(col), tc, home_row(col)).grid, ac, ar, tc, home_row(col)),
{
    let hr = home_row(col);
    let ma = apply_move_spec(m, 4, hr, tc, hr);
    let mt = trial_board(m, 4, hr, tc, hr);
    let rc: int = if tc == 6 { 5 } else { 3 };
    if ar == hr && ac != tc {
        // Along the home rank: the rook's landing square blocks in
        // the applied board, so the ray cannot cross it; the emptied
        // corner lies beyond the board's edge of any such ray; the
        // king's origin is empty on both boards.
        assert forall|c: int| strictly_between(ac, c, tc) implies #[trigger] grid_at(
            mt.grid,
            c,
            hr,
        ) == Piece::Empty by {
            assert(grid_at(ma.grid, c, hr) == Piece::Empty);
            assert(c != rc);
            if tc == 6 {
                assert(c != 7);
            } else {
                assert(c != 0);
            }
        }
        assert(ortho_line(mt.grid, ac, ar, tc, hr));
    } else {
        // Along the king's file: every square strictly between lies
        // off the home rank, which is the only rank either board
        // changes.
        assert forall|r: int| strictly_between(ar, r, hr) implies #[trigger] grid_at(
            mt.grid,
            tc,
            r,
        ) == Piece::Empty by {
            assert(grid_at(ma.grid, tc, r) == Piece::Empty);
        }
        assert(ortho_line(mt.grid, ac, ar, tc, hr));
    }
}

/// A clear diagonal to the castled king's landing square on the
/// applied board is clear on the castling trial board too: its
/// strictly-between squares all lie off the home rank.
proof fn lemma_castle_diag_carries(m: BoardModel, col: Color, tc: int, ac: int, ar: int)
    requires
        m.wf(),
        tc == 2 || tc == 6,
        castle_dest(m, 4, home_row(col), tc, home_row(col)),
        in_bounds(ac, ar),
        diag_line(
            apply_move_spec(m, 4, home_row(col), tc, home_row(col)).grid,
            ac,
            ar,
            tc,
            home_row(col),
        ),
    ensures
        diag_line(trial_board(m, 4, home_row(col), tc, home_row(col)).grid, ac, ar, tc, home_row(col)),
{
    let hr = home_row(col);
    let ma = apply_move_spec(m, 4, hr, tc, hr);
    let mt = trial_board(m, 4, hr, tc, hr);
    if ar - ac == hr - tc {
        assert forall|c: int, r: int|
            strictly_between(ac, c, tc) && r - c == hr - tc implies #[trigger] grid_at(
                mt.grid,
                c,
                r,
            ) == Piece::Empty by {
            assert(grid_at(ma.grid, c, r) == Piece::Empty);
            assert(r != hr);
        }
        assert(diag_line(mt.grid, ac, ar, tc, hr));
    } else {
        assert forall|c: int, r: int|
            strictly_between(ac, c, tc) && r + c == hr + tc implies #[trigger] grid_at(
                mt.grid,
                c,
                r,
            ) == Piece::Empty by {
            assert(grid_at(ma.grid, c, r) == Piece::Empty);
            assert(r != hr);
        }
        assert(diag_line(mt.grid, ac, ar, tc, hr));
    }
}

/// Castling gating: a king whose moved-flag is set, or whose
/// corresponding rook's moved-flag is set, or with any occupied
/// square between king and rook, never receives that castling
/// destination.
pub proof fn castling_gating(m: BoardModel, col: Color, tc: int)
    requires
        m.wf(),
        m.at(4, home_row(col)) == Piece::Occupied(col, PieceKind::King),
        tc == 2 || tc == 6,
        m.king_moved(col) || (tc == 6 && m.kingside_rook_moved(col)) || (tc == 2
            && m.queenside_rook_moved(col)) || (tc == 6 && (m.at(5, home_row(col)) != Piece::Empty
            || m.at(6, home_row(col)) != Piece::Empty)) || (tc == 2 && (m.at(1, home_row(col))
            != Piece::Empty || m.at(2, home_row(col)) != Piece::Empty || m.at(3, home_row(col))
            != Piece::Empty)),
    ensures
        !move_allowed(m, 4, home_row(col), tc, home_row(col)),
{
    let hr = home_row(col);
    if move_allowed(m, 4, hr, tc, hr) {
        // Two columns sideways is not a king step, so only the
        // castling clause could admit the destination, and every one
        // of the gating conditions contradicts it.
        assert(!king_step(4, hr, tc, hr));
        assert(castle_dest(m, 4, hr, tc, hr));
        assert(false);
    }
}

} // verus!
