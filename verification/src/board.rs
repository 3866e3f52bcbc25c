//! The 8x8 board: the piece grid, the cached king positions, and the
//! castling moved-flags, together with the structural invariant that
//! ties the caches to the grid.

use vstd::prelude::*;

use crate::piece::{Color, Piece, PieceKind};

verus! {

/// Whether `(c, r)` names a square of the 8x8 grid.
pub open spec fn in_bounds(c: int, r: int) -> bool {
    0 <= c < 8 && 0 <= r < 8
}

/// The piece on square `(c, r)` of a row-major grid sequence.
pub open spec fn grid_at(g: Seq<Piece>, c: int, r: int) -> Piece {
    g[r * 8 + c]
}

/// `col`'s king stands on `(kc, kr)` and nowhere else.
pub open spec fn unique_king_at(g: Seq<Piece>, col: Color, kc: int, kr: int) -> bool {
    &&& in_bounds(kc, kr)
    &&& grid_at(g, kc, kr) == Piece::Occupied(col, PieceKind::King)
    &&& forall|c: int, r: int|
        in_bounds(c, r) && #[trigger] grid_at(g, c, r) == Piece::Occupied(col, PieceKind::King)
            ==> c == kc && r == kr
}

/// The grid holds exactly one king of color `col`.
pub open spec fn has_unique_king(g: Seq<Piece>, col: Color) -> bool {
    exists|kc: int, kr: int| #[trigger] unique_king_at(g, col, kc, kr)
}

/// A grid that a board can be built from: 64 squares and exactly one
/// king of each color.
pub open spec fn grid_admissible(g: Seq<Piece>) -> bool {
    &&& g.len() == 64
    &&& has_unique_king(g, Color::White)
    &&& has_unique_king(g, Color::Black)
}

/// The mathematical value of a board: the grid as a sequence plus the
/// cached king positions (column, row) and the six moved-flags.
#[verifier::ext_equal]
pub ghost struct BoardModel {
    pub grid: Seq<Piece>,
    pub white_king: (int, int),
    pub black_king: (int, int),
    pub white_king_moved: bool,
    pub black_king_moved: bool,
    pub white_queenside_rook_moved: bool,
    pub white_kingside_rook_moved: bool,
    pub black_queenside_rook_moved: bool,
    pub black_kingside_rook_moved: bool,
}

impl BoardModel {
    /// The grid has its 64 squares.
    pub open spec fn grid_ok(self) -> bool {
        self.grid.len() == 64
    }

    /// The piece on square `(c, r)`.
    pub open spec fn at(self, c: int, r: int) -> Piece {
        grid_at(self.grid, c, r)
    }

    /// The cached position of `col`'s king.
    pub open spec fn king_pos(self, col: Color) -> (int, int) {
        match col {
            Color::White => self.white_king,
            Color::Black => self.black_king,
        }
    }

    /// Whether `col`'s king has ever moved.
    pub open spec fn king_moved(self, col: Color) -> bool {
        match col {
            Color::White => self.white_king_moved,
            Color::Black => self.black_king_moved,
        }
    }

    /// Whether `col`'s queenside rook (home column 0) has ever moved.
    pub open spec fn queenside_rook_moved(self, col: Color) -> bool {
        match col {
            Color::White => self.white_queenside_rook_moved,
            Color::Black => self.black_queenside_rook_moved,
        }
    }

    /// Whether `col`'s kingside rook (home column 7) has ever moved.
    pub open spec fn kingside_rook_moved(self, col: Color) -> bool {
        match col {
            Color::White => self.white_kingside_rook_moved,
            Color::Black => self.black_kingside_rook_moved,
        }
    }

    /// The cached king position of `col` is the one square holding that
    /// king.
    pub open spec fn king_ok(self, col: Color) -> bool {
        unique_king_at(self.grid, col, self.king_pos(col).0, self.king_pos(col).1)
    }

    /// The board invariant: full grid, and each king cache names the
    /// unique square holding that king.
    pub open spec fn wf(self) -> bool {
        &&& self.grid_ok()
        &&& self.king_ok(Color::White)
        &&& self.king_ok(Color::Black)
    }
}

/// Everything but the grid agrees between the two models.
pub open spec fn same_except_grid(a: BoardModel, b: BoardModel) -> bool {
    &&& a.white_king == b.white_king
    &&& a.black_king == b.black_king
    &&& a.white_king_moved == b.white_king_moved
    &&& a.black_king_moved == b.black_king_moved
    &&& a.white_queenside_rook_moved == b.white_queenside_rook_moved
    &&& a.white_kingside_rook_moved == b.white_kingside_rook_moved
    &&& a.black_queenside_rook_moved == b.black_queenside_rook_moved
    &&& a.black_kingside_rook_moved == b.black_kingside_rook_moved
}

/// The 8x8 board with its caches.  Row 0 is Black's home side, row 7 is
/// White's; a square is addressed as (column, row).
pub struct Board {
    pub grid: Vec<Piece>,
    pub white_king_col: usize,
    pub white_king_row: usize,
    pub black_king_col: usize,
    pub black_king_row: usize,
    pub white_king_moved: bool,
    pub black_king_moved: bool,
    pub white_queenside_rook_moved: bool,
    pub white_kingside_rook_moved: bool,
    pub black_queenside_rook_moved: bool,
    pub black_kingside_rook_moved: bool,
}

impl View for Board {
    type V = BoardModel;

    open spec fn view(&self) -> BoardModel {
        BoardModel {
            grid: self.grid@,
            white_king: (self.white_king_col as int, self.white_king_row as int),
            black_king: (self.black_king_col as int, self.black_king_row as int),
            white_king_moved: self.white_king_moved,
            black_king_moved: self.black_king_moved,
            white_queenside_rook_moved: self.white_queenside_rook_moved,
            white_kingside_rook_moved: self.white_kingside_rook_moved,
            black_queenside_rook_moved: self.black_queenside_rook_moved,
            black_kingside_rook_moved: self.black_kingside_rook_moved,
        }
    }
}

/// The piece of the standard starting layout on square `(c, r)`.
pub open spec fn start_piece(c: int, r: int) -> Piece {
    if r == 0 {
        back_rank_piece(Color::Black, c)
    } else if r == 1 {
        Piece::Occupied(Color::Black, PieceKind::Pawn)
    } else if r == 6 {
        Piece::Occupied(Color::White, PieceKind::Pawn)
    } else if r == 7 {
        back_rank_piece(Color::White, c)
    } else {
        Piece::Empty
    }
}

/// The back-rank piece of color `col` on column `c`.
pub open spec fn back_rank_piece(col: Color, c: int) -> Piece {
    Piece::Occupied(
        col,
        if c == 0 || c == 7 {
            PieceKind::Rook
        } else if c == 1 || c == 6 {
            PieceKind::Knight
        } else if c == 2 || c == 5 {
            PieceKind::Bishop
        } else if c == 3 {
            PieceKind::Queen
        } else {
            PieceKind::King
        },
    )
}

/// The starting-layout piece, computed at run time.
fn start_piece_at(c: usize, r: usize) -> (p: Piece)
    requires
        c < 8,
        r < 8,
    ensures
        p == start_piece(c as int, r as int),
{
    if r == 1 {
        Piece::Occupied(Color::Black, PieceKind::Pawn)
    } else if r == 6 {
        Piece::Occupied(Color::White, PieceKind::Pawn)
    } else if r == 0 || r == 7 {
        let col = if r == 0 { Color::Black } else { Color::White };
        let kind = if c == 0 || c == 7 {
            PieceKind::Rook
        } else if c == 1 || c == 6 {
            PieceKind::Knight
        } else if c == 2 || c == 5 {
            PieceKind::Bishop
        } else if c == 3 {
            PieceKind::Queen
        } else {
            PieceKind::King
        };
        Piece::Occupied(col, kind)
    } else {
        Piece::Empty
    }
}

impl Board {
    /// A fresh board in the standard starting position, with every
    /// moved-flag clear.
    pub fn new() -> (b: Board)
        ensures
            b@.wf(),
            forall|c: int, r: int| in_bounds(c, r) ==> #[trigger] b@.at(c, r) == start_piece(c, r),
            b@.white_king == (4int, 7int),
            b@.black_king == (4int, 0int),
            !b@.white_king_moved,
            !b@.black_king_moved,
            !b@.white_queenside_rook_moved,
            !b@.white_kingside_rook_moved,
            !b@.black_queenside_rook_moved,
            !b@.black_kingside_rook_moved,
    {
        let mut g: Vec<Piece> = Vec::new();
        let mut i: usize = 0;
        while i < 64
            invariant
                i <= 64,
                g@.len() == i,
                forall|c: int, r: int|
                    in_bounds(c, r) && r * 8 + c < i ==> #[trigger] grid_at(g@, c, r)
                        == start_piece(c, r),
            decreases 64 - i,
        {
            let c: usize = i % 8;
            let r: usize = i / 8;
            let ghost pre = g@;
            g.push(start_piece_at(c, r));
            proof {
                assert(r * 8 + c == i);
                assert forall|c2: int, r2: int|
                    in_bounds(c2, r2) && r2 * 8 + c2 < i + 1 implies #[trigger] grid_at(g@, c2, r2)
                    == start_piece(c2, r2) by {
                    if r2 * 8 + c2 == i {
                        assert(c2 == c && r2 == r);
                        assert(grid_at(g@, c2, r2) == g@[i as int]);
                    } else {
                        assert(grid_at(g@, c2, r2) == grid_at(pre, c2, r2));
                    }
                }
            }
            i = i + 1;
        }
        let b = Board {
            grid: g,
            white_king_col: 4,
            white_king_row: 7,
            black_king_col: 4,
            black_king_row: 0,
            white_king_moved: false,
            black_king_moved: false,
            white_queenside_rook_moved: false,
            white_kingside_rook_moved: false,
            black_queenside_rook_moved: false,
            black_kingside_rook_moved: false,
        };
        proof {
            assert(b@.at(4, 7) == start_piece(4, 7));
            assert(b@.at(4, 0) == start_piece(4, 0));
        }
        b
    }

    /// Builds a board from an arbitrary 64-square grid and the six
    /// moved-flags.  Returns `None` unless the grid holds exactly one
    /// king of each color; the king caches are derived from the grid.
    pub fn from_grid(
        cells: Vec<Piece>,
        white_king_moved: bool,
        black_king_moved: bool,
        white_queenside_rook_moved: bool,
        white_kingside_rook_moved: bool,
        black_queenside_rook_moved: bool,
        black_kingside_rook_moved: bool,
    ) -> (r: Option<Board>)
        ensures
            r is Some <==> grid_admissible(cells@),
            r matches Some(b) ==> {
                &&& b@.wf()
                &&& b@.grid == cells@
                &&& b@.white_king_moved == white_king_moved
                &&& b@.black_king_moved == black_king_moved
                &&& b@.white_queenside_rook_moved == white_queenside_rook_moved
                &&& b@.white_kingside_rook_moved == white_kingside_rook_moved
                &&& b@.black_queenside_rook_moved == black_queenside_rook_moved
                &&& b@.black_kingside_rook_moved == black_kingside_rook_moved
            },
    {
        if cells.len() != 64 {
            return None;
        }
        let mut white: Option<(usize, usize)> = None;
        let mut black: Option<(usize, usize)> = None;
        let mut i: usize = 0;
        while i < 64
            invariant
                i <= 64,
                cells@.len() == 64,
                match white {
                    None => forall|c: int, r: int|
                        in_bounds(c, r) && r * 8 + c < i ==> #[trigger] grid_at(cells@, c, r)
                            != Piece::Occupied(Color::White, PieceKind::King),
                    Some((kc, kr)) => {
                        &&& kc < 8
                        &&& kr < 8
                        &&& kr * 8 + kc < i
                        &&& grid_at(cells@, kc as int, kr as int) == Piece::Occupied(
                            Color::White,
                            PieceKind::King,
                        )
                        &&& forall|c: int, r: int|
                            in_bounds(c, r) && r * 8 + c < i && #[trigger] grid_at(cells@, c, r)
                                == Piece::Occupied(Color::White, PieceKind::King) ==> c == kc && r
                                == kr
                    },
                },
                match black {
                    None => forall|c: int, r: int|
                        in_bounds(c, r) && r * 8 + c < i ==> #[trigger] grid_at(cells@, c, r)
                            != Piece::Occupied(Color::Black, PieceKind::King),
                    Some((kc, kr)) => {
                        &&& kc < 8
                        &&& kr < 8
                        &&& kr * 8 + kc < i
                        &&& grid_at(cells@, kc as int, kr as int) == Piece::Occupied(
                            Color::Black,
                            PieceKind::King,
                        )
                        &&& forall|c: int, r: int|
                            in_bounds(c, r) && r * 8 + c < i && #[trigger] grid_at(cells@, c, r)
                                == Piece::Occupied(Color::Black, PieceKind::King) ==> c == kc && r
                                == kr
                    },
                },
            decreases 64 - i,
        {
            let c: usize = i % 8;
            let r: usize = i / 8;
            proof {
                assert(r * 8 + c == i);
            }
            let p = cells[i];
            if p == Piece::Occupied(Color::White, PieceKind::King) {
                if let Some((kc, kr)) = white {
                    proof {
                        lemma_no_unique_king_with_two(
                            cells@,
                            Color::White,
                            kc as int,
                            kr as int,
                            c as int,
                            r as int,
                        );
                    }
                    return None;
                }
                white = Some((c, r));
            }
            if p == Piece::Occupied(Color::Black, PieceKind::King) {
                if let Some((kc, kr)) = black {
                    proof {
                        lemma_no_unique_king_with_two(
                            cells@,
                            Color::Black,
                            kc as int,
                            kr as int,
                            c as int,
                            r as int,
                        );
                    }
                    return None;
                }
                black = Some((c, r));
            }
            i = i + 1;
        }
        match (white, black) {
            (Some((wc, wr)), Some((bc, br))) => {
                let b = Board {
                    grid: cells,
                    white_king_col: wc,
                    white_king_row: wr,
                    black_king_col: bc,
                    black_king_row: br,
                    white_king_moved,
                    black_king_moved,
                    white_queenside_rook_moved,
                    white_kingside_rook_moved,
                    black_queenside_rook_moved,
                    black_kingside_rook_moved,
                };
                proof {
                    assert(unique_king_at(b@.grid, Color::White, wc as int, wr as int));
                    assert(unique_king_at(b@.grid, Color::Black, bc as int, br as int));
                }
                Some(b)
            },
            (None, _) => {
                proof {
                    lemma_no_unique_king_without_one(cells@, Color::White);
                }
                None
            },
            (_, None) => {
                proof {
                    lemma_no_unique_king_without_one(cells@, Color::Black);
                }
                None
            },
        }
    }

    /// The piece on square `(c, r)`: the read-only grid query of the
    /// public interface.
    pub fn piece_at(&self, c: usize, r: usize) -> (p: Piece)
        requires
            self@.grid_ok(),
            c < 8,
            r < 8,
        ensures
            p == self@.at(c as int, r as int),
    {
        self.grid[r * 8 + c]
    }

    /// Overwrites square `(c, r)`, leaving every cache and flag alone.
    pub(crate) fn set_square(&mut self, c: usize, r: usize, p: Piece)
        requires
            old(self)@.grid_ok(),
            c < 8,
            r < 8,
        ensures
            final(self)@.grid == old(self)@.grid.update(r as int * 8 + c as int, p),
            same_except_grid(final(self)@, old(self)@),
            final(self)@.grid_ok(),
    {
        self.grid.set(r * 8 + c, p);
    }

    /// Sets `col`'s king moved-flag; it is never cleared.
    pub(crate) fn mark_king_moved(&mut self, col: Color)
        ensures
            final(self)@ == (match col {
                Color::White => BoardModel { white_king_moved: true, ..old(self)@ },
                Color::Black => BoardModel { black_king_moved: true, ..old(self)@ },
            }),
    {
        match col {
            Color::White => {
                self.white_king_moved = true;
            },
            Color::Black => {
                self.black_king_moved = true;
            },
        }
    }

    /// Sets `col`'s queenside-rook moved-flag; it is never cleared.
    pub(crate) fn mark_queenside_rook_moved(&mut self, col: Color)
        ensures
            final(self)@ == (match col {
                Color::White => BoardModel { white_queenside_rook_moved: true, ..old(self)@ },
                Color::Black => BoardModel { black_queenside_rook_moved: true, ..old(self)@ },
            }),
    {
        match col {
            Color::White => {
                self.white_queenside_rook_moved = true;
            },
            Color::Black => {
                self.black_queenside_rook_moved = true;
            },
        }
    }

    /// Sets `col`'s kingside-rook moved-flag; it is never cleared.
    pub(crate) fn mark_kingside_rook_moved(&mut self, col: Color)
        ensures
            final(self)@ == (match col {
                Color::White => BoardModel { white_kingside_rook_moved: true, ..old(self)@ },
                Color::Black => BoardModel { black_kingside_rook_moved: true, ..old(self)@ },
            }),
    {
        match col {
            Color::White => {
                self.white_kingside_rook_moved = true;
            },
            Color::Black => {
                self.black_kingside_rook_moved = true;
            },
        }
    }

    /// Whether `col`'s king has ever moved.
    pub fn king_has_moved(&self, col: Color) -> (b: bool)
        ensures
            b == self@.king_moved(col),
    {
        match col {
            Color::White => self.white_king_moved,
            Color::Black => self.black_king_moved,
        }
    }

    /// Whether `col`'s queenside rook (home column 0) has ever moved.
    pub fn queenside_rook_has_moved(&self, col: Color) -> (b: bool)
        ensures
            b == self@.queenside_rook_moved(col),
    {
        match col {
            Color::White => self.white_queenside_rook_moved,
            Color::Black => self.black_queenside_rook_moved,
        }
    }

    /// Whether `col`'s kingside rook (home column 7) has ever moved.
    pub fn kingside_rook_has_moved(&self, col: Color) -> (b: bool)
        ensures
            b == self@.kingside_rook_moved(col),
    {
        match col {
            Color::White => self.white_kingside_rook_moved,
            Color::Black => self.black_kingside_rook_moved,
        }
    }

    /// The cached (column, row) of `col`'s king.
    pub fn king_coords(&self, col: Color) -> (k: (usize, usize))
        ensures
            k.0 as int == self@.king_pos(col).0,
            k.1 as int == self@.king_pos(col).1,
    {
        match col {
            Color::White => (self.white_king_col, self.white_king_row),
            Color::Black => (self.black_king_col, self.black_king_row),
        }
    }

    /// Points `col`'s king cache at `(c, r)`, leaving the grid alone.
    pub(crate) fn set_king_pos(&mut self, col: Color, c: usize, r: usize)
        ensures
            final(self)@ == (match col {
                Color::White => BoardModel { white_king: (c as int, r as int), ..old(self)@ },
                Color::Black => BoardModel { black_king: (c as int, r as int), ..old(self)@ },
            }),
    {
        match col {
            Color::White => {
                self.white_king_col = c;
                self.white_king_row = r;
            },
            Color::Black => {
                self.black_king_col = c;
                self.black_king_row = r;
            },
        }
    }
}

/// If two distinct squares hold a `col` king, no square is its unique
/// holder.
proof fn lemma_no_unique_king_with_two(g: Seq<Piece>, col: Color, c1: int, r1: int, c2: int, r2: int)
    requires
        in_bounds(c1, r1),
        in_bounds(c2, r2),
        c1 != c2 || r1 != r2,
        grid_at(g, c1, r1) == Piece::Occupied(col, PieceKind::King),
        grid_at(g, c2, r2) == Piece::Occupied(col, PieceKind::King),
    ensures
        !has_unique_king(g, col),
{
    if has_unique_king(g, col) {
        let (kc, kr) = choose|kc: int, kr: int| #[trigger] unique_king_at(g, col, kc, kr);
        assert(c1 == kc && r1 == kr);
        assert(c2 == kc && r2 == kr);
    }
}

/// If no square holds a `col` king, none holds it uniquely.
proof fn lemma_no_unique_king_without_one(g: Seq<Piece>, col: Color)
    requires
        forall|c: int, r: int|
            in_bounds(c, r) ==> #[trigger] grid_at(g, c, r) != Piece::Occupied(col, PieceKind::King),
    ensures
        !has_unique_king(g, col),
{
    if has_unique_king(g, col) {
        let (kc, kr) = choose|kc: int, kr: int| #[trigger] unique_king_at(g, col, kc, kr);
        assert(grid_at(g, kc, kr) != Piece::Occupied(col, PieceKind::King));
    }
}

} // verus!
