//! The mathematics of a Reversi board: cells, rays and captured lines.
//!
//! A board is a `Seq` of eight rows of eight cells. A cell is a number:
//! 0 for an empty cell, 1 for a white disc, 2 for a black disc. Coordinates
//! are zero-based, `x` counts columns and `y` counts rows, so the cell at
//! `(x, y)` is `board[y][x]`.

use vstd::prelude::*;

verus! {

/// An empty cell.
pub const EMPTY: u8 = 0;

/// A cell with a white disc.
pub const WHITE: u8 = 1;

/// A cell with a black disc.
pub const BLACK: u8 = 2;

/// The rows of a board held in vectors.
pub open spec fn rows(cells: Vec<Vec<u8>>) -> Seq<Seq<u8>> {
    Seq::new(cells.len() as nat, |y: int| cells[y]@)
}

/// Eight rows of eight cells.
pub open spec fn well_shaped(b: Seq<Seq<u8>>) -> bool {
    &&& b.len() == 8
    &&& forall|y: int| 0 <= y < 8 ==> (#[trigger] b[y]).len() == 8
}

/// Every cell is empty, white or black.
pub open spec fn cells_valid(b: Seq<Seq<u8>>) -> bool {
    forall|x: int, y: int| on_board(x, y) ==> #[trigger] cell_at(b, x, y) <= 2
}

/// `(x, y)` is a cell of the board.
pub open spec fn on_board(x: int, y: int) -> bool {
    0 <= x < 8 && 0 <= y < 8
}

/// What the cell at column `x`, row `y` holds.
pub open spec fn cell_at(b: Seq<Seq<u8>>, x: int, y: int) -> u8 {
    b[y][x]
}

/// A disc colour, as opposed to an empty cell.
pub open spec fn is_color(c: u8) -> bool {
    c == WHITE || c == BLACK
}

/// The colour that plays against `color`.
pub open spec fn opponent(color: u8) -> u8 {
    if color == WHITE {
        BLACK
    } else {
        WHITE
    }
}

/// The board with no disc on it.
pub open spec fn empty_board() -> Seq<Seq<u8>> {
    Seq::new(8, |y: int| Seq::new(8, |x: int| EMPTY))
}

/// What the cell at `(x, y)` holds when a game starts.
pub open spec fn initial_cell(x: int, y: int) -> u8 {
    if (x == 3 && y == 3) || (x == 4 && y == 4) {
        WHITE
    } else if (x == 4 && y == 3) || (x == 3 && y == 4) {
        BLACK
    } else {
        EMPTY
    }
}

/// The board at the start of a game: four discs in the centre.
pub open spec fn initial_board() -> Seq<Seq<u8>> {
    Seq::new(8, |y: int| Seq::new(8, |x: int| initial_cell(x, y)))
}

/// The step along the columns of direction `d`. The eight compass
/// directions are numbered 0 to 7: east, west, south, north, south-east,
/// north-west, north-east, south-west, rows counting downwards.
pub open spec fn dir_x(d: int) -> int {
    if d == 0 || d == 4 || d == 6 {
        1
    } else if d == 1 || d == 5 || d == 7 {
        -1
    } else {
        0
    }
}

/// The step along the rows of direction `d`.
pub open spec fn dir_y(d: int) -> int {
    if d == 2 || d == 4 || d == 7 {
        1
    } else if d == 3 || d == 5 || d == 6 {
        -1
    } else {
        0
    }
}

/// `k` steps of size `step`, where `step` is -1, 0 or 1.
pub open spec fn along(k: int, step: int) -> int {
    if step > 0 {
        k
    } else if step < 0 {
        -k
    } else {
        0
    }
}

/// The column of the cell `k` steps from `(x, _)` in direction `d`.
pub open spec fn ray_x(x: int, d: int, k: int) -> int {
    x + along(k, dir_x(d))
}

/// The row of the cell `k` steps from `(_, y)` in direction `d`.
pub open spec fn ray_y(y: int, d: int, k: int) -> int {
    y + along(k, dir_y(d))
}

/// The cell `k` steps from `(x, y)` in direction `d` lies on the board and
/// holds `v`.
pub open spec fn ray_holds(b: Seq<Seq<u8>>, x: int, y: int, d: int, k: int, v: u8) -> bool {
    &&& on_board(ray_x(x, d, k), ray_y(y, d, k))
    &&& cell_at(b, ray_x(x, d, k), ray_y(y, d, k)) == v
}

/// A disc of `color` put at `(x, y)` captures the line in direction `d`, and
/// the disc that closes the line lies `n` steps away: the `n - 1` cells
/// before it all hold the opposing colour, and there is at least one.
pub open spec fn closes_at(b: Seq<Seq<u8>>, color: u8, x: int, y: int, d: int, n: int) -> bool {
    &&& n >= 2
    &&& ray_holds(b, x, y, d, n, color)
    &&& forall|j: int| 1 <= j < n ==> #[trigger] ray_holds(b, x, y, d, j, opponent(color))
}

/// `(cx, cy)` is one of the cells `lo`, .., `hi - 1` steps from `(x, y)` in
/// direction `d`.
pub open spec fn on_ray(x: int, y: int, d: int, lo: int, hi: int, cx: int, cy: int) -> bool {
    exists|k: int| lo <= k < hi && (#[trigger] ray_x(x, d, k)) == cx && ray_y(y, d, k) == cy
}

/// A disc of `color` put at `(x, y)` turns the disc at `(cx, cy)` over
/// because of the line in direction `d`.
pub open spec fn flips_in(
    b: Seq<Seq<u8>>,
    color: u8,
    x: int,
    y: int,
    d: int,
    cx: int,
    cy: int,
) -> bool {
    exists|n: int| #[trigger] closes_at(b, color, x, y, d, n) && on_ray(x, y, d, 1, n, cx, cy)
}

/// A disc of `color` put at `(x, y)` turns the disc at `(cx, cy)` over
/// because of the line in one of the directions below `hi`.
pub open spec fn flips_below(
    b: Seq<Seq<u8>>,
    color: u8,
    x: int,
    y: int,
    hi: int,
    cx: int,
    cy: int,
) -> bool {
    exists|d: int| 0 <= d < hi && #[trigger] flips_in(b, color, x, y, d, cx, cy)
}

/// A disc of `color` put at `(x, y)` turns the disc at `(cx, cy)` over.
pub open spec fn flips(b: Seq<Seq<u8>>, color: u8, x: int, y: int, cx: int, cy: int) -> bool {
    flips_below(b, color, x, y, 8, cx, cy)
}

/// What a look along direction `d` finds: `n` is the distance of the disc
/// that closes the line, or 0 where the line is not captured.
pub open spec fn found(b: Seq<Seq<u8>>, color: u8, x: int, y: int, d: int, n: int) -> bool {
    if n == 0 {
        forall|m: int| !#[trigger] closes_at(b, color, x, y, d, m)
    } else {
        closes_at(b, color, x, y, d, n)
    }
}

/// A disc of `color` put at `(x, y)` captures at least one line.
pub open spec fn captures_any(b: Seq<Seq<u8>>, color: u8, x: int, y: int) -> bool {
    exists|d: int, n: int| 0 <= d < 8 && #[trigger] closes_at(b, color, x, y, d, n)
}

/// The board after a disc of `color` was put at `(x, y)`: the new disc, every
/// captured disc turned over, and every other cell as it was.
pub open spec fn after_move(b: Seq<Seq<u8>>, color: u8, x: int, y: int) -> Seq<Seq<u8>> {
    Seq::new(
        8,
        |cy: int|
            Seq::new(
                8,
                |cx: int|
                    if (cx == x && cy == y) || flips(b, color, x, y, cx, cy) {
                        color
                    } else {
                        cell_at(b, cx, cy)
                    },
            ),
    )
}

/// A line is closed at one distance at most.
pub proof fn lemma_closes_at_unique(b: Seq<Seq<u8>>, color: u8, x: int, y: int, d: int, n: int, m: int)
    requires
        is_color(color),
        closes_at(b, color, x, y, d, n),
        closes_at(b, color, x, y, d, m),
    ensures
        n == m,
{
    if n < m {
        assert(ray_holds(b, x, y, d, n, opponent(color)));
    } else if m < n {
        assert(ray_holds(b, x, y, d, m, opponent(color)));
    }
}

/// The move leaves the board eight by eight, and its cells valid.
pub proof fn lemma_after_move_shape(b: Seq<Seq<u8>>, color: u8, x: int, y: int)
    requires
        well_shaped(b),
        cells_valid(b),
        is_color(color),
    ensures
        well_shaped(after_move(b, color, x, y)),
        cells_valid(after_move(b, color, x, y)),
{
    let a = after_move(b, color, x, y);
    assert forall|cx: int, cy: int| on_board(cx, cy) implies #[trigger] cell_at(a, cx, cy) <= 2 by {
        assert(cell_at(b, cx, cy) <= 2);
    }
}

/// The move changes no cell but the one played and those it captures, and
/// each captured cell held the opposing colour.
pub proof fn lemma_after_move_cells(b: Seq<Seq<u8>>, color: u8, x: int, y: int, cx: int, cy: int)
    requires
        well_shaped(b),
        is_color(color),
        on_board(cx, cy),
    ensures
        cell_at(after_move(b, color, x, y), cx, cy) == color || cell_at(
            after_move(b, color, x, y),
            cx,
            cy,
        ) == cell_at(b, cx, cy),
        flips(b, color, x, y, cx, cy) ==> cell_at(b, cx, cy) == opponent(color),
{
    if flips(b, color, x, y, cx, cy) {
        let d = choose|d: int| 0 <= d < 8 && #[trigger] flips_in(b, color, x, y, d, cx, cy);
        assert(flips_in(b, color, x, y, d, cx, cy));
        let n = choose|n: int| #[trigger]
            closes_at(b, color, x, y, d, n) && on_ray(x, y, d, 1, n, cx, cy);
        let k = choose|k: int| 1 <= k < n && (#[trigger] ray_x(x, d, k)) == cx && ray_y(y, d, k) == cy;
        assert(ray_holds(b, x, y, d, k, opponent(color)));
    }
}

/// Where a look along direction `d` found `n`, the discs turned over in that
/// direction are those less than `n` steps away.
pub proof fn lemma_flips_in_found(
    b: Seq<Seq<u8>>,
    color: u8,
    x: int,
    y: int,
    d: int,
    n: int,
    cx: int,
    cy: int,
)
    requires
        is_color(color),
        found(b, color, x, y, d, n),
    ensures
        flips_in(b, color, x, y, d, cx, cy) == on_ray(x, y, d, 1, n, cx, cy),
{
    if flips_in(b, color, x, y, d, cx, cy) {
        let m = choose|m: int| #[trigger]
            closes_at(b, color, x, y, d, m) && on_ray(x, y, d, 1, m, cx, cy);
        assert(n != 0);
        lemma_closes_at_unique(b, color, x, y, d, n, m);
    }
    if on_ray(x, y, d, 1, n, cx, cy) {
        assert(n != 0);
        assert(closes_at(b, color, x, y, d, n));
    }
}

} // verus!
