//! The attack detector: whether any piece of a given color could reach
//! a given square in one step, ignoring turn order and pins.

use vstd::prelude::*;

use crate::board::{grid_at, in_bounds, Board};
use crate::piece::{Color, Piece, PieceKind};

verus! {

/// The row direction a pawn of color `col` advances in: White pawns
/// move toward row 0, Black pawns toward row 7.
pub open spec fn pawn_forward(col: Color) -> int {
    match col {
        Color::White => -1,
        Color::Black => 1,
    }
}

/// One king step from `(sc, sr)` to `(tc, tr)`.
pub open spec fn king_step(sc: int, sr: int, tc: int, tr: int) -> bool {
    &&& (sc != tc || sr != tr)
    &&& -1 <= sc - tc <= 1
    &&& -1 <= sr - tr <= 1
}

/// One knight jump from `(sc, sr)` to `(tc, tr)`.
pub open spec fn knight_step(sc: int, sr: int, tc: int, tr: int) -> bool {
    let dc = sc - tc;
    let dr = sr - tr;
    ||| ((dc == 1 || dc == -1) && (dr == 2 || dr == -2))
    ||| ((dc == 2 || dc == -2) && (dr == 1 || dr == -1))
}

/// A pawn of color `col` standing on `(sc, sr)` attacks `(tc, tr)`:
/// one row forward, one column to either side.
pub open spec fn pawn_attack_step(col: Color, sc: int, sr: int, tc: int, tr: int) -> bool {
    &&& tr == sr + pawn_forward(col)
    &&& (tc == sc + 1 || tc == sc - 1)
}

/// `x` lies strictly between `a` and `b`.
pub open spec fn strictly_between(a: int, x: int, b: int) -> bool {
    (a < x && x < b) || (b < x && x < a)
}

/// `(sc, sr)` and `(tc, tr)` share a rank or a file, are distinct, and
/// every square strictly between them is empty.
pub open spec fn ortho_line(g: Seq<Piece>, sc: int, sr: int, tc: int, tr: int) -> bool {
    ||| (sr == tr && sc != tc && forall|c: int|
        strictly_between(sc, c, tc) ==> #[trigger] grid_at(g, c, tr) == Piece::Empty)
    ||| (sc == tc && sr != tr && forall|r: int|
        strictly_between(sr, r, tr) ==> #[trigger] grid_at(g, tc, r) == Piece::Empty)
}

/// `(sc, sr)` and `(tc, tr)` share a diagonal, are distinct, and every
/// square strictly between them is empty.
pub open spec fn diag_line(g: Seq<Piece>, sc: int, sr: int, tc: int, tr: int) -> bool {
    sc != tc && {
        ||| (sr - sc == tr - tc && forall|c: int, r: int|
            strictly_between(sc, c, tc) && r - c == tr - tc ==> #[trigger] grid_at(g, c, r)
                == Piece::Empty)
        ||| (sr + sc == tr + tc && forall|c: int, r: int|
            strictly_between(sc, c, tc) && r + c == tr + tc ==> #[trigger] grid_at(g, c, r)
                == Piece::Empty)
    }
}

/// The piece standing on `(sc, sr)` could capture on `(tc, tr)` in one
/// step, by its own movement rule, on the current grid.
pub open spec fn piece_attacks(g: Seq<Piece>, sc: int, sr: int, tc: int, tr: int) -> bool {
    match grid_at(g, sc, sr) {
        Piece::Empty => false,
        Piece::Occupied(col, k) => match k {
            PieceKind::King => king_step(sc, sr, tc, tr),
            PieceKind::Queen => ortho_line(g, sc, sr, tc, tr) || diag_line(g, sc, sr, tc, tr),
            PieceKind::Rook => ortho_line(g, sc, sr, tc, tr),
            PieceKind::Bishop => diag_line(g, sc, sr, tc, tr),
            PieceKind::Knight => knight_step(sc, sr, tc, tr),
            PieceKind::Pawn => pawn_attack_step(col, sc, sr, tc, tr),
        },
    }
}

/// Square `(tc, tr)` is attacked by some piece of color `by`.  A pinned
/// attacker still attacks: legality of the attacking move is not
/// considered.
pub open spec fn attacked(g: Seq<Piece>, tc: int, tr: int, by: Color) -> bool {
    exists|sc: int, sr: int|
        in_bounds(sc, sr) && grid_at(g, sc, sr).spec_has_color(by) && #[trigger] piece_attacks(
            g,
            sc,
            sr,
            tc,
            tr,
        )
}

/// A rook or queen of color `by` stands on `(sc, sr)` with a clear
/// rank or file to `(tc, tr)`.
pub open spec fn straight_attacker_at(
    g: Seq<Piece>,
    sc: int,
    sr: int,
    tc: int,
    tr: int,
    by: Color,
) -> bool {
    &&& (grid_at(g, sc, sr) == Piece::Occupied(by, PieceKind::Rook) || grid_at(g, sc, sr)
        == Piece::Occupied(by, PieceKind::Queen))
    &&& ortho_line(g, sc, sr, tc, tr)
}

/// A bishop or queen of color `by` stands on `(sc, sr)` with a clear
/// diagonal to `(tc, tr)`.
pub open spec fn diag_attacker_at(
    g: Seq<Piece>,
    sc: int,
    sr: int,
    tc: int,
    tr: int,
    by: Color,
) -> bool {
    &&& (grid_at(g, sc, sr) == Piece::Occupied(by, PieceKind::Bishop) || grid_at(g, sc, sr)
        == Piece::Occupied(by, PieceKind::Queen))
    &&& diag_line(g, sc, sr, tc, tr)
}

impl Board {
    /// Whether square `(c, r)` holds exactly the piece `p`.
    fn piece_is(&self, c: usize, r: usize, p: Piece) -> (b: bool)
        requires
            self@.grid_ok(),
            c < 8,
            r < 8,
        ensures
            b == (grid_at(self@.grid, c as int, r as int) == p),
    {
        self.grid[r * 8 + c] == p
    }

    /// Scans the rank leftward (decreasing column) for a rook or queen
    /// of `by` with a clear line to `(tc, tr)`.
    #[verifier::loop_isolation(false)]
    fn straight_left(&self, tc: usize, tr: usize, by: Color) -> (hit: bool)
        requires
            self@.grid_ok(),
            tc < 8,
            tr < 8,
        ensures
            hit ==> attacked(self@.grid, tc as int, tr as int, by),
            !hit ==> forall|sc: int|
                0 <= sc < tc ==> !straight_attacker_at(
                    self@.grid,
                    sc,
                    tr as int,
                    tc as int,
                    tr as int,
                    by,
                ),
    {
        let ghost g = self@.grid;
        let mut c: usize = tc;
        while c > 0
            invariant
                c <= tc,
                forall|x: int| c <= x < tc ==> #[trigger] grid_at(g, x, tr as int) == Piece::Empty,
            decreases c,
        {
            c = c - 1;
            let p = self.grid[tr * 8 + c];
            if p != Piece::Empty {
                if p == Piece::Occupied(by, PieceKind::Rook) || p == Piece::Occupied(
                    by,
                    PieceKind::Queen,
                ) {
                    proof {
                        assert(ortho_line(g, c as int, tr as int, tc as int, tr as int));
                        assert(piece_attacks(g, c as int, tr as int, tc as int, tr as int));
                    }
                    return true;
                } else {
                    proof {
                        assert forall|sc: int| 0 <= sc < tc implies !straight_attacker_at(
                            g,
                            sc,
                            tr as int,
                            tc as int,
                            tr as int,
                            by,
                        ) by {
                            if sc < c {
                                assert(strictly_between(sc, c as int, tc as int));
                                assert(grid_at(g, c as int, tr as int) != Piece::Empty);
                            }
                        }
                    }
                    return false;
                }
            }
        }
        proof {
            assert forall|sc: int| 0 <= sc < tc implies !straight_attacker_at(
                g,
                sc,
                tr as int,
                tc as int,
                tr as int,
                by,
            ) by {
                assert(grid_at(g, sc, tr as int) == Piece::Empty);
            }
        }
        false
    }

    /// Scans the rank rightward (increasing column).
    #[verifier::loop_isolation(false)]
    fn straight_right(&self, tc: usize, tr: usize, by: Color) -> (hit: bool)
        requires
            self@.grid_ok(),
            tc < 8,
            tr < 8,
        ensures
            hit ==> attacked(self@.grid, tc as int, tr as int, by),
            !hit ==> forall|sc: int|
                tc < sc < 8 ==> !straight_attacker_at(
                    self@.grid,
                    sc,
                    tr as int,
                    tc as int,
                    tr as int,
                    by,
                ),
    {
        let ghost g = self@.grid;
        let mut c: usize = tc;
        while c < 7
            invariant
                tc <= c < 8,
                forall|x: int| tc < x <= c ==> #[trigger] grid_at(g, x, tr as int) == Piece::Empty,
            decreases 7 - c,
        {
            c = c + 1;
            let p = self.grid[tr * 8 + c];
            if p != Piece::Empty {
                if p == Piece::Occupied(by, PieceKind::Rook) || p == Piece::Occupied(
                    by,
                    PieceKind::Queen,
                ) {
                    proof {
                        assert(ortho_line(g, c as int, tr as int, tc as int, tr as int));
                        assert(piece_attacks(g, c as int, tr as int, tc as int, tr as int));
                    }
                    return true;
                } else {
                    proof {
                        assert forall|sc: int| tc < sc < 8 implies !straight_attacker_at(
                            g,
                            sc,
                            tr as int,
                            tc as int,
                            tr as int,
                            by,
                        ) by {
                            if sc > c {
                                assert(strictly_between(sc, c as int, tc as int));
                                assert(grid_at(g, c as int, tr as int) != Piece::Empty);
                            }
                        }
                    }
                    return false;
                }
            }
        }
        proof {
            assert forall|sc: int| tc < sc < 8 implies !straight_attacker_at(
                g,
                sc,
                tr as int,
                tc as int,
                tr as int,
                by,
            ) by {
                assert(grid_at(g, sc, tr as int) == Piece::Empty);
            }
        }
        false
    }

    /// Scans the file upward (decreasing row).
    #[verifier::loop_isolation(false)]
    fn straight_up(&self, tc: usize, tr: usize, by: Color) -> (hit: bool)
        requires
            self@.grid_ok(),
            tc < 8,
            tr < 8,
        ensures
            hit ==> attacked(self@.grid, tc as int, tr as int, by),
            !hit ==> forall|sr: int|
                0 <= sr < tr ==> !straight_attacker_at(
                    self@.grid,
                    tc as int,
                    sr,
                    tc as int,
                    tr as int,
                    by,
                ),
    {
        let ghost g = self@.grid;
        let mut r: usize = tr;
        while r > 0
            invariant
                r <= tr,
                forall|y: int| r <= y < tr ==> #[trigger] grid_at(g, tc as int, y) == Piece::Empty,
            decreases r,
        {
            r = r - 1;
            let p = self.grid[r * 8 + tc];
            if p != Piece::Empty {
                if p == Piece::Occupied(by, PieceKind::Rook) || p == Piece::Occupied(
                    by,
                    PieceKind::Queen,
                ) {
                    proof {
                        assert(ortho_line(g, tc as int, r as int, tc as int, tr as int));
                        assert(piece_attacks(g, tc as int, r as int, tc as int, tr as int));
                    }
                    return true;
                } else {
                    proof {
                        assert forall|sr: int| 0 <= sr < tr implies !straight_attacker_at(
                            g,
                            tc as int,
                            sr,
                            tc as int,
                            tr as int,
                            by,
                        ) by {
                            if sr < r {
                                assert(strictly_between(sr, r as int, tr as int));
                                assert(grid_at(g, tc as int, r as int) != Piece::Empty);
                            }
                        }
                    }
                    return false;
                }
            }
        }
        proof {
            assert forall|sr: int| 0 <= sr < tr implies !straight_attacker_at(
                g,
                tc as int,
                sr,
                tc as int,
                tr as int,
                by,
            ) by {
                assert(grid_at(g, tc as int, sr) == Piece::Empty);
            }
        }
        false
    }

    /// Scans the file downward (increasing row).
    #[verifier::loop_isolation(false)]
    fn straight_down(&self, tc: usize, tr: usize, by: Color) -> (hit: bool)
        requires
            self@.grid_ok(),
            tc < 8,
            tr < 8,
        ensures
            hit ==> attacked(self@.grid, tc as int, tr as int, by),
            !hit ==> forall|sr: int|
                tr < sr < 8 ==> !straight_attacker_at(
                    self@.grid,
                    tc as int,
                    sr,
                    tc as int,
                    tr as int,
                    by,
                ),
    {
        let ghost g = self@.grid;
        let mut r: usize = tr;
        while r < 7
            invariant
                tr <= r < 8,
                forall|y: int| tr < y <= r ==> #[trigger] grid_at(g, tc as int, y) == Piece::Empty,
            decreases 7 - r,
        {
            r = r + 1;
            let p = self.grid[r * 8 + tc];
            if p != Piece::Empty {
                if p == Piece::Occupied(by, PieceKind::Rook) || p == Piece::Occupied(
                    by,
                    PieceKind::Queen,
                ) {
                    proof {
                        assert(ortho_line(g, tc as int, r as int, tc as int, tr as int));
                        assert(piece_attacks(g, tc as int, r as int, tc as int, tr as int));
                    }
                    return true;
                } else {
                    proof {
                        assert forall|sr: int| tr < sr < 8 implies !straight_attacker_at(
                            g,
                            tc as int,
                            sr,
                            tc as int,
                            tr as int,
                            by,
                        ) by {
                            if sr > r {
                                assert(strictly_between(sr, r as int, tr as int));
                                assert(grid_at(g, tc as int, r as int) != Piece::Empty);
                            }
                        }
                    }
                    return false;
                }
            }
        }
        proof {
            assert forall|sr: int| tr < sr < 8 implies !straight_attacker_at(
                g,
                tc as int,
                sr,
                tc as int,
                tr as int,
                by,
            ) by {
                assert(grid_at(g, tc as int, sr) == Piece::Empty);
            }
        }
        false
    }

    /// Scans the diagonal toward decreasing column and decreasing row.
    #[verifier::loop_isolation(false)]
    fn diag_up_left(&self, tc: usize, tr: usize, by: Color) -> (hit: bool)
        requires
            self@.grid_ok(),
            tc < 8,
            tr < 8,
        ensures
            hit ==> attacked(self@.grid, tc as int, tr as int, by),
            !hit ==> forall|sc: int, sr: int|
                in_bounds(sc, sr) && sc < tc && sr - sc == tr as int - tc as int
                    ==> !diag_attacker_at(self@.grid, sc, sr, tc as int, tr as int, by),
    {
        let ghost g = self@.grid;
        let mut c: usize = tc;
        let mut r: usize = tr;
        while c > 0 && r > 0
            invariant
                c <= tc,
                r <= tr,
                tc - c == tr - r,
                forall|x: int, y: int|
                    c <= x < tc && y - x == tr as int - tc as int ==> #[trigger] grid_at(g, x, y)
                        == Piece::Empty,
            decreases c,
        {
            c = c - 1;
            r = r - 1;
            let p = self.grid[r * 8 + c];
            if p != Piece::Empty {
                if p == Piece::Occupied(by, PieceKind::Bishop) || p == Piece::Occupied(
                    by,
                    PieceKind::Queen,
                ) {
                    proof {
                        assert(diag_line(g, c as int, r as int, tc as int, tr as int));
                        assert(piece_attacks(g, c as int, r as int, tc as int, tr as int));
                    }
                    return true;
                } else {
                    proof {
                        assert forall|sc: int, sr: int|
                            in_bounds(sc, sr) && sc < tc && sr - sc == tr as int - tc as int
                                implies !diag_attacker_at(g, sc, sr, tc as int, tr as int, by) by {
                            if sc < c {
                                assert(strictly_between(sc, c as int, tc as int));
                                assert(grid_at(g, c as int, r as int) != Piece::Empty);
                            }
                        }
                    }
                    return false;
                }
            }
        }
        proof {
            assert forall|sc: int, sr: int|
                in_bounds(sc, sr) && sc < tc && sr - sc == tr as int - tc as int
                    implies !diag_attacker_at(g, sc, sr, tc as int, tr as int, by) by {
                assert(grid_at(g, sc, sr) == Piece::Empty);
            }
        }
        false
    }

    /// Scans the diagonal toward increasing column and decreasing row.
    #[verifier::loop_isolation(false)]
    fn diag_up_right(&self, tc: usize, tr: usize, by: Color) -> (hit: bool)
        requires
            self@.grid_ok(),
            tc < 8,
            tr < 8,
        ensures
            hit ==> attacked(self@.grid, tc as int, tr as int, by),
            !hit ==> forall|sc: int, sr: int|
                in_bounds(sc, sr) && sc > tc && sr + sc == tr as int + tc as int
                    ==> !diag_attacker_at(self@.grid, sc, sr, tc as int, tr as int, by),
    {
        let ghost g = self@.grid;
        let mut c: usize = tc;
        let mut r: usize = tr;
        while c < 7 && r > 0
            invariant
                tc <= c < 8,
                r <= tr,
                c - tc == tr - r,
                forall|x: int, y: int|
                    tc < x <= c && y + x == tr as int + tc as int ==> #[trigger] grid_at(g, x, y)
                        == Piece::Empty,
            decreases 7 - c,
        {
            c = c + 1;
            r = r - 1;
            let p = self.grid[r * 8 + c];
            if p != Piece::Empty {
                if p == Piece::Occupied(by, PieceKind::Bishop) || p == Piece::Occupied(
                    by,
                    PieceKind::Queen,
                ) {
                    proof {
                        assert(diag_line(g, c as int, r as int, tc as int, tr as int));
                        assert(piece_attacks(g, c as int, r as int, tc as int, tr as int));
                    }
                    return true;
                } else {
                    proof {
                        assert forall|sc: int, sr: int|
                            in_bounds(sc, sr) && sc > tc && sr + sc == tr as int + tc as int
                                implies !diag_attacker_at(g, sc, sr, tc as int, tr as int, by) by {
                            if sc > c {
                                assert(strictly_between(sc, c as int, tc as int));
                                assert(grid_at(g, c as int, r as int) != Piece::Empty);
                            }
                        }
                    }
                    return false;
                }
            }
        }
        proof {
            assert forall|sc: int, sr: int|
                in_bounds(sc, sr) && sc > tc && sr + sc == tr as int + tc as int
                    implies !diag_attacker_at(g, sc, sr, tc as int, tr as int, by) by {
                assert(grid_at(g, sc, sr) == Piece::Empty);
            }
        }
        false
    }

    /// Scans the diagonal toward decreasing column and increasing row.
    #[verifier::loop_isolation(false)]
    fn diag_down_left(&self, tc: usize, tr: usize, by: Color) -> (hit: bool)
        requires
            self@.grid_ok(),
            tc < 8,
            tr < 8,
        ensures
            hit ==> attacked(self@.grid, tc as int, tr as int, by),
            !hit ==> forall|sc: int, sr: int|
                in_bounds(sc, sr) && sc < tc && sr + sc == tr as int + tc as int
                    ==> !diag_attacker_at(self@.grid, sc, sr, tc as int, tr as int, by),
    {
        let ghost g = self@.grid;
        let mut c: usize = tc;
        let mut r: usize = tr;
        while c > 0 && r < 7
            invariant
                c <= tc,
                tr <= r < 8,
                tc - c == r - tr,
                forall|x: int, y: int|
                    c <= x < tc && y + x == tr as int + tc as int ==> #[trigger] grid_at(g, x, y)
                        == Piece::Empty,
            decreases c,
        {
            c = c - 1;
            r = r + 1;
            let p = self.grid[r * 8 + c];
            if p != Piece::Empty {
                if p == Piece::Occupied(by, PieceKind::Bishop) || p == Piece::Occupied(
                    by,
                    PieceKind::Queen,
                ) {
                    proof {
                        assert(diag_line(g, c as int, r as int, tc as int, tr as int));
                        assert(piece_attacks(g, c as int, r as int, tc as int, tr as int));
                    }
                    return true;
                } else {
                    proof {
                        assert forall|sc: int, sr: int|
                            in_bounds(sc, sr) && sc < tc && sr + sc == tr as int + tc as int
                                implies !diag_attacker_at(g, sc, sr, tc as int, tr as int, by) by {
                            if sc < c {
                                assert(strictly_between(sc, c as int, tc as int));
                                assert(grid_at(g, c as int, r as int) != Piece::Empty);
                            }
                        }
                    }
                    return false;
                }
            }
        }
        proof {
            assert forall|sc: int, sr: int|
                in_bounds(sc, sr) && sc < tc && sr + sc == tr as int + tc as int
                    implies !diag_attacker_at(g, sc, sr, tc as int, tr as int, by) by {
                assert(grid_at(g, sc, sr) == Piece::Empty);
            }
        }
        false
    }

    /// Scans the diagonal toward increasing column and increasing row.
    #[verifier::loop_isolation(false)]
    fn diag_down_right(&self, tc: usize, tr: usize, by: Color) -> (hit: bool)
        requires
            self@.grid_ok(),
            tc < 8,
            tr < 8,
        ensures
            hit ==> attacked(self@.grid, tc as int, tr as int, by),
            !hit ==> forall|sc: int, sr: int|
                in_bounds(sc, sr) && sc > tc && sr - sc == tr as int - tc as int
                    ==> !diag_attacker_at(self@.grid, sc, sr, tc as int, tr as int, by),
    {
        let ghost g = self@.grid;
        let mut c: usize = tc;
        let mut r: usize = tr;
        while c < 7 && r < 7
            invariant
                tc <= c < 8,
                tr <= r < 8,
                c - tc == r - tr,
                forall|x: int, y: int|
                    tc < x <= c && y - x == tr as int - tc as int ==> #[trigger] grid_at(g, x, y)
                        == Piece::Empty,
            decreases 7 - c,
        {
            c = c + 1;
            r = r + 1;
            let p = self.grid[r * 8 + c];
            if p != Piece::Empty {
                if p == Piece::Occupied(by, PieceKind::Bishop) || p == Piece::Occupied(
                    by,
                    PieceKind::Queen,
                ) {
                    proof {
                        assert(diag_line(g, c as int, r as int, tc as int, tr as int));
                        assert(piece_attacks(g, c as int, r as int, tc as int, tr as int));
                    }
                    return true;
                } else {
                    proof {
                        assert forall|sc: int, sr: int|
                            in_bounds(sc, sr) && sc > tc && sr - sc == tr as int - tc as int
                                implies !diag_attacker_at(g, sc, sr, tc as int, tr as int, by) by {
                            if sc > c {
                                assert(strictly_between(sc, c as int, tc as int));
                                assert(grid_at(g, c as int, r as int) != Piece::Empty);
                            }
                        }
                    }
                    return false;
                }
            }
        }
        proof {
            assert forall|sc: int, sr: int|
                in_bounds(sc, sr) && sc > tc && sr - sc == tr as int - tc as int
                    implies !diag_attacker_at(g, sc, sr, tc as int, tr as int, by) by {
                assert(grid_at(g, sc, sr) == Piece::Empty);
            }
        }
        false
    }

    /// Tests the eight knight-jump squares for a knight of `by`.
    fn knight_attack_on(&self, tc: usize, tr: usize, by: Color) -> (hit: bool)
        requires
            self@.grid_ok(),
            tc < 8,
            tr < 8,
        ensures
            hit ==> attacked(self@.grid, tc as int, tr as int, by),
            !hit ==> forall|sc: int, sr: int|
                in_bounds(sc, sr) && grid_at(self@.grid, sc, sr) == Piece::Occupied(
                    by,
                    PieceKind::Knight,
                ) ==> !knight_step(sc, sr, tc as int, tr as int),
    {
        let ghost g = self@.grid;
        let n = Piece::Occupied(by, PieceKind::Knight);
        if tc >= 2 && tr >= 1 && self.piece_is(tc - 2, tr - 1, n) {
            proof {
                assert(piece_attacks(g, tc - 2, tr - 1, tc as int, tr as int));
            }
            return true;
        }
        if tc >= 2 && tr <= 6 && self.piece_is(tc - 2, tr + 1, n) {
            proof {
                assert(piece_attacks(g, tc - 2, tr + 1, tc as int, tr as int));
            }
            return true;
        }
        if tc <= 5 && tr >= 1 && self.piece_is(tc + 2, tr - 1, n) {
            proof {
                assert(piece_attacks(g, tc + 2, tr - 1, tc as int, tr as int));
            }
            return true;
        }
        if tc <= 5 && tr <= 6 && self.piece_is(tc + 2, tr + 1, n) {
            proof {
                assert(piece_attacks(g, tc + 2, tr + 1, tc as int, tr as int));
            }
            return true;
        }
        if tc >= 1 && tr >= 2 && self.piece_is(tc - 1, tr - 2, n) {
            proof {
                assert(piece_attacks(g, tc - 1, tr - 2, tc as int, tr as int));
            }
            return true;
        }
        if tc >= 1 && tr <= 5 && self.piece_is(tc - 1, tr + 2, n) {
            proof {
                assert(piece_attacks(g, tc - 1, tr + 2, tc as int, tr as int));
            }
            return true;
        }
        if tc <= 6 && tr >= 2 && self.piece_is(tc + 1, tr - 2, n) {
            proof {
                assert(piece_attacks(g, tc + 1, tr - 2, tc as int, tr as int));
            }
            return true;
        }
        if tc <= 6 && tr <= 5 && self.piece_is(tc + 1, tr + 2, n) {
            proof {
                assert(piece_attacks(g, tc + 1, tr + 2, tc as int, tr as int));
            }
            return true;
        }
        false
    }

    /// Tests the eight adjacent squares for the opposing king.
    fn king_attack_on(&self, tc: usize, tr: usize, by: Color) -> (hit: bool)
        requires
            self@.grid_ok(),
            tc < 8,
            tr < 8,
        ensures
            hit ==> attacked(self@.grid, tc as int, tr as int, by),
            !hit ==> forall|sc: int, sr: int|
                in_bounds(sc, sr) && grid_at(self@.grid, sc, sr) == Piece::Occupied(
                    by,
                    PieceKind::King,
                ) ==> !king_step(sc, sr, tc as int, tr as int),
    {
        let ghost g = self@.grid;
        let k = Piece::Occupied(by, PieceKind::King);
        if tc >= 1 && tr >= 1 && self.piece_is(tc - 1, tr - 1, k) {
            proof {
                assert(piece_attacks(g, tc - 1, tr - 1, tc as int, tr as int));
            }
            return true;
        }
        if tc >= 1 && self.piece_is(tc - 1, tr, k) {
            proof {
                assert(piece_attacks(g, tc - 1, tr as int, tc as int, tr as int));
            }
            return true;
        }
        if tc >= 1 && tr <= 6 && self.piece_is(tc - 1, tr + 1, k) {
            proof {
                assert(piece_attacks(g, tc - 1, tr + 1, tc as int, tr as int));
            }
            return true;
        }
        if tr >= 1 && self.piece_is(tc, tr - 1, k) {
            proof {
                assert(piece_attacks(g, tc as int, tr - 1, tc as int, tr as int));
            }
            return true;
        }
        if tr <= 6 && self.piece_is(tc, tr + 1, k) {
            proof {
                assert(piece_attacks(g, tc as int, tr + 1, tc as int, tr as int));
            }
            return true;
        }
        if tc <= 6 && tr >= 1 && self.piece_is(tc + 1, tr - 1, k) {
            proof {
                assert(piece_attacks(g, tc + 1, tr - 1, tc as int, tr as int));
            }
            return true;
        }
        if tc <= 6 && self.piece_is(tc + 1, tr, k) {
            proof {
                assert(piece_attacks(g, tc + 1, tr as int, tc as int, tr as int));
            }
            return true;
        }
        if tc <= 6 && tr <= 6 && self.piece_is(tc + 1, tr + 1, k) {
            proof {
                assert(piece_attacks(g, tc + 1, tr + 1, tc as int, tr as int));
            }
            return true;
        }
        false
    }

    /// Tests the two squares a pawn of `by` would attack `(tc, tr)`
    /// from.
    fn pawn_attack_on(&self, tc: usize, tr: usize, by: Color) -> (hit: bool)
        requires
            self@.grid_ok(),
            tc < 8,
            tr < 8,
        ensures
            hit ==> attacked(self@.grid, tc as int, tr as int, by),
            !hit ==> forall|sc: int, sr: int|
                in_bounds(sc, sr) && grid_at(self@.grid, sc, sr) == Piece::Occupied(
                    by,
                    PieceKind::Pawn,
                ) ==> !pawn_attack_step(by, sc, sr, tc as int, tr as int),
    {
        let ghost g = self@.grid;
        let p = Piece::Occupied(by, PieceKind::Pawn);
        let ar: usize;
        match by {
            Color::White => {
                if tr >= 7 {
                    return false;
                }
                ar = tr + 1;
            },
            Color::Black => {
                if tr == 0 {
                    return false;
                }
                ar = tr - 1;
            },
        }
        if tc >= 1 && self.piece_is(tc - 1, ar, p) {
            proof {
                assert(piece_attacks(g, tc - 1, ar as int, tc as int, tr as int));
            }
            return true;
        }
        if tc <= 6 && self.piece_is(tc + 1, ar, p) {
            proof {
                assert(piece_attacks(g, tc + 1, ar as int, tc as int, tr as int));
            }
            return true;
        }
        false
    }

    /// Whether any piece of color `by` attacks square `(tc, tr)`: the
    /// color-parametrized check detector behind every check, legality
    /// and castling-safety question.
    pub fn is_square_attacked(&self, tc: usize, tr: usize, by: Color) -> (r: bool)
        requires
            self@.grid_ok(),
            tc < 8,
            tr < 8,
        ensures
            r == attacked(self@.grid, tc as int, tr as int, by),
    {
        if self.straight_left(tc, tr, by) {
            return true;
        }
        if self.straight_right(tc, tr, by) {
            return true;
        }
        if self.straight_up(tc, tr, by) {
            return true;
        }
        if self.straight_down(tc, tr, by) {
            return true;
        }
        if self.diag_up_left(tc, tr, by) {
            return true;
        }
        if self.diag_up_right(tc, tr, by) {
            return true;
        }
        if self.diag_down_left(tc, tr, by) {
            return true;
        }
        if self.diag_down_right(tc, tr, by) {
            return true;
        }
        if self.knight_attack_on(tc, tr, by) {
            return true;
        }
        if self.king_attack_on(tc, tr, by) {
            return true;
        }
        if self.pawn_attack_on(tc, tr, by) {
            return true;
        }
        proof {
            let g = self@.grid;
            let tci = tc as int;
            let tri = tr as int;
            assert forall|sc: int, sr: int|
                !(in_bounds(sc, sr) && grid_at(g, sc, sr).spec_has_color(by)
                    && #[trigger] piece_attacks(g, sc, sr, tci, tri)) by {
                if in_bounds(sc, sr) && grid_at(g, sc, sr).spec_has_color(by) && piece_attacks(
                    g,
                    sc,
                    sr,
                    tci,
                    tri,
                ) {
                    match grid_at(g, sc, sr) {
                        Piece::Empty => {},
                        Piece::Occupied(col, k) => {
                            match k {
                                PieceKind::King => {},
                                PieceKind::Knight => {},
                                PieceKind::Pawn => {},
                                PieceKind::Rook => {
                                    assert(straight_attacker_at(g, sc, sr, tci, tri, by));
                                    assert(false);
                                },
                                PieceKind::Bishop => {
                                    assert(diag_attacker_at(g, sc, sr, tci, tri, by));
                                    assert(false);
                                },
                                PieceKind::Queen => {
                                    if ortho_line(g, sc, sr, tci, tri) {
                                        assert(straight_attacker_at(g, sc, sr, tci, tri, by));
                                    } else {
                                        assert(diag_attacker_at(g, sc, sr, tci, tri, by));
                                    }
                                    assert(false);
                                },
                            }
                        },
                    }
                }
            }
        }
        false
    }
}

} // verus!
