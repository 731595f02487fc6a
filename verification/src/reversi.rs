//! The game engine of one room: the board, the two player slots and the
//! turn state machine.

use crate::board::{
    after_move, captures_any, cell_at, cells_valid, closes_at, dir_x, dir_y, empty_board,
    flips_below, flips_in, found, initial_board, initial_cell, is_color, lemma_after_move_cells,
    lemma_after_move_shape, lemma_flips_in_found, on_board, on_ray, opponent, ray_holds, ray_x,
    ray_y, rows, well_shaped, BLACK, EMPTY, WHITE,
};
use vstd::prelude::*;

verus! {

/// Whose turn it is, if the game runs.
#[derive(Clone, Copy, Debug, PartialEq, Eq, Structural)]
pub enum States {
    /// The game was created and never started.
    AwaitingStart,
    TurnPlayer1,
    TurnPlayer2,
    /// The game was ended.
    End,
}

/// What a board cell holds.
#[derive(Clone, Copy, Debug, PartialEq, Eq, Structural)]
pub enum Disc {
    Empty,
    White,
    Black,
}

/// One of the two player slots of a game. Player one plays white and moves
/// first.
#[derive(Clone, Copy, Debug, PartialEq, Eq, Structural)]
pub enum Player {
    One,
    Two,
}

/// Why a move was refused.
#[derive(Clone, Copy, Debug, PartialEq, Eq, Structural)]
pub enum MoveError {
    /// A coordinate is not in 0..=7.
    OutOfBounds,
    /// The game was not started, or has ended.
    GameNotActive,
    /// The session holds neither player slot.
    NotAPlayer,
    /// It is the other player's turn.
    WrongTurn,
    /// The cell already holds a disc.
    CellOccupied,
    /// The game requires every move to capture, and this one captures nothing.
    NoCapture,
}

impl Disc {
    /// The number that stands for this disc on a board.
    pub open spec fn code(self) -> u8 {
        match self {
            Disc::Empty => EMPTY,
            Disc::White => WHITE,
            Disc::Black => BLACK,
        }
    }

    /// The number that stands for this disc on a board.
    pub fn u8(&self) -> (n: u8)
        ensures
            n == self.code(),
    {
        match self {
            Disc::Empty => EMPTY,
            Disc::White => WHITE,
            Disc::Black => BLACK,
        }
    }
}

impl Player {
    /// The colour this player's discs have.
    pub open spec fn color(self) -> u8 {
        match self {
            Player::One => WHITE,
            Player::Two => BLACK,
        }
    }

    /// The turn state in which this player may move.
    pub open spec fn turn(self) -> States {
        match self {
            Player::One => States::TurnPlayer1,
            Player::Two => States::TurnPlayer2,
        }
    }

    /// The disc that this player puts on the board.
    pub fn disc(&self) -> (disc: Disc)
        ensures
            disc.code() == self.color(),
    {
        match self {
            Player::One => Disc::White,
            Player::Two => Disc::Black,
        }
    }

    /// The player on the other side.
    pub open spec fn other(self) -> Player {
        match self {
            Player::One => Player::Two,
            Player::Two => Player::One,
        }
    }
}

/// A game as a mathematical value.
pub struct Game {
    /// The session in slot one, if the slot is assigned.
    pub player1: Option<usize>,
    /// The session in slot two, if the slot is assigned.
    pub player2: Option<usize>,
    pub state: States,
    pub board: Seq<Seq<u8>>,
    /// Whether a move that captures nothing is refused.
    pub require_capture: bool,
}

impl Game {
    /// The board is eight by eight, its cells are valid, and the two slots
    /// do not hold the same session.
    pub open spec fn valid(self) -> bool {
        &&& well_shaped(self.board)
        &&& cells_valid(self.board)
        &&& self.player1 is Some && self.player2 is Some ==> self.player1 != self.player2
    }

    /// The session in the slot of `player`, if the slot is assigned.
    pub open spec fn slot(self, player: Player) -> Option<usize> {
        match player {
            Player::One => self.player1,
            Player::Two => self.player2,
        }
    }

    /// The slot that session `id` holds, if it holds one.
    pub open spec fn player_of(self, id: usize) -> Option<Player> {
        if self.player1 == Some(id) {
            Some(Player::One)
        } else if self.player2 == Some(id) {
            Some(Player::Two)
        } else {
            None
        }
    }

    /// The game runs: it is one player's turn.
    pub open spec fn active(self) -> bool {
        self.state == States::TurnPlayer1 || self.state == States::TurnPlayer2
    }

    /// Why session `id` may not put a disc at `(x, y)`, or `None` where it
    /// may. The checks come in this order.
    pub open spec fn move_error(self, id: usize, x: int, y: int) -> Option<MoveError> {
        if !on_board(x, y) {
            Some(MoveError::OutOfBounds)
        } else if !self.active() {
            Some(MoveError::GameNotActive)
        } else if self.player_of(id) is None {
            Some(MoveError::NotAPlayer)
        } else if self.player_of(id).unwrap().turn() != self.state {
            Some(MoveError::WrongTurn)
        } else if cell_at(self.board, x, y) != EMPTY {
            Some(MoveError::CellOccupied)
        } else if self.require_capture && !captures_any(
            self.board,
            self.player_of(id).unwrap().color(),
            x,
            y,
        ) {
            Some(MoveError::NoCapture)
        } else {
            None
        }
    }

    /// The game after `player` put a disc at `(x, y)`.
    pub open spec fn moved(self, player: Player, x: int, y: int) -> Game {
        Game {
            state: player.other().turn(),
            board: after_move(self.board, player.color(), x, y),
            ..self
        }
    }

    /// The game after a (re)start.
    pub open spec fn started(self) -> Game {
        Game { state: States::TurnPlayer1, board: initial_board(), ..self }
    }

    /// The game after it was ended.
    pub open spec fn ended(self) -> Game {
        Game { state: States::End, board: empty_board(), ..self }
    }

    /// Whether session `id` may get the slot of `player`: the slot is free
    /// and `id` does not hold the other slot.
    pub open spec fn may_register(self, player: Player, id: usize) -> bool {
        self.slot(player) is None && self.slot(player.other()) != Some(id)
    }

    /// The game after session `id` was put in the slot of `player`.
    pub open spec fn registered(self, player: Player, id: usize) -> Game {
        match player {
            Player::One => Game { player1: Some(id), ..self },
            Player::Two => Game { player2: Some(id), ..self },
        }
    }

    /// The game after session `id` was taken out of every slot it held.
    pub open spec fn without(self, id: usize) -> Game {
        Game {
            player1: if self.player1 == Some(id) {
                None
            } else {
                self.player1
            },
            player2: if self.player2 == Some(id) {
                None
            } else {
                self.player2
            },
            ..self
        }
    }
}

/// A move to a cell off the board is refused as out of bounds, whatever the
/// state of the game.
pub proof fn lemma_off_board_refused(game: Game, id: usize, x: int, y: int)
    requires
        !(0 <= x <= 7) || !(0 <= y <= 7),
    ensures
        game.move_error(id, x, y) == Some(MoveError::OutOfBounds),
{
}

/// A game that was not started, or was ended, refuses every move to a cell
/// of the board as not active.
pub proof fn lemma_inactive_refused(game: Game, id: usize, x: int, y: int)
    requires
        on_board(x, y),
        game.state == States::AwaitingStart || game.state == States::End,
    ensures
        game.move_error(id, x, y) == Some(MoveError::GameNotActive),
{
}

/// In a running game, a move by the player who does not hold the turn is
/// refused as out of turn.
pub proof fn lemma_wrong_turn_refused(game: Game, id: usize, x: int, y: int)
    requires
        on_board(x, y),
        game.active(),
        game.player_of(id) matches Some(player) && player.turn() != game.state,
    ensures
        game.move_error(id, x, y) == Some(MoveError::WrongTurn),
{
}

/// A move by the player who holds the turn to a cell that holds a disc is
/// refused as occupied.
pub proof fn lemma_occupied_refused(game: Game, id: usize, x: int, y: int)
    requires
        on_board(x, y),
        game.player_of(id) matches Some(player) && player.turn() == game.state,
        cell_at(game.board, x, y) != EMPTY,
    ensures
        game.move_error(id, x, y) == Some(MoveError::CellOccupied),
{
}

/// A move that is accepted passes the turn to the other player, and only
/// once: the mover may not move again at once, wherever it tries.
pub proof fn lemma_turn_passes(game: Game, id: usize, x: int, y: int, x2: int, y2: int)
    requires
        game.valid(),
        game.move_error(id, x, y) is None,
        on_board(x2, y2),
    ensures
        game.state == game.player_of(id).unwrap().turn(),
        game.moved(game.player_of(id).unwrap(), x, y).state == game.player_of(
            id,
        ).unwrap().other().turn(),
        game.moved(game.player_of(id).unwrap(), x, y).state != game.state,
        game.moved(game.player_of(id).unwrap(), x, y).move_error(id, x2, y2) == Some(
            MoveError::WrongTurn,
        ),
{
}

/// A move that is accepted leaves the game valid and puts the mover's colour
/// on the cell played. Every other cell is as it was, or held the opposing
/// colour and now holds the mover's.
pub proof fn lemma_move_keeps_valid(game: Game, id: usize, x: int, y: int)
    requires
        game.valid(),
        game.move_error(id, x, y) is None,
    ensures
        game.moved(game.player_of(id).unwrap(), x, y).valid(),
        cell_at(game.moved(game.player_of(id).unwrap(), x, y).board, x, y) == game.player_of(
            id,
        ).unwrap().color(),
        forall|cx: int, cy: int|
            on_board(cx, cy) ==> {
                let after = #[trigger] cell_at(
                    game.moved(game.player_of(id).unwrap(), x, y).board,
                    cx,
                    cy,
                );
                ||| after == cell_at(game.board, cx, cy)
                ||| (cx == x && cy == y)
                ||| (after == game.player_of(id).unwrap().color() && cell_at(game.board, cx, cy)
                    == opponent(game.player_of(id).unwrap().color()))
            },
{
    let player = game.player_of(id).unwrap();
    lemma_after_move_shape(game.board, player.color(), x, y);
    assert forall|cx: int, cy: int| on_board(cx, cy) implies {
        let after = #[trigger] cell_at(game.moved(player, x, y).board, cx, cy);
        ||| after == cell_at(game.board, cx, cy)
        ||| (cx == x && cy == y)
        ||| (after == player.color() && cell_at(game.board, cx, cy) == opponent(player.color()))
    } by {
        lemma_after_move_cells(game.board, player.color(), x, y, cx, cy);
    }
}

/// One room's game of Reversi.
#[derive(Debug)]
pub struct Reversi {
    player1_id: Option<usize>,
    player2_id: Option<usize>,
    state: States,
    discs: Vec<Vec<u8>>,
    require_capture: bool,
}

impl View for Reversi {
    type V = Game;

    closed spec fn view(&self) -> Game {
        Game {
            player1: self.player1_id,
            player2: self.player2_id,
            state: self.state,
            board: rows(self.discs),
            require_capture: self.require_capture,
        }
    }
}

/// A row of eight cells, the cell in column `x` holding `cell(x)`.
fn make_row(y: usize, initial: bool) -> (row: Vec<u8>)
    requires
        y < 8,
    ensures
        row@ == Seq::new(
            8,
            |x: int|
                if initial {
                    initial_cell(x, y as int)
                } else {
                    EMPTY
                },
        ),
{
    let mut row: Vec<u8> = Vec::new();
    let mut x: usize = 0;
    while x < 8
        invariant
            x <= 8,
            y < 8,
            row@.len() == x,
            forall|i: int|
                0 <= i < x ==> row@[i] == (if initial {
                    initial_cell(i, y as int)
                } else {
                    EMPTY
                }),
        decreases 8 - x,
    {
        let cell: u8 = if !initial {
            EMPTY
        } else if (x == 3 && y == 3) || (x == 4 && y == 4) {
            WHITE
        } else if (x == 4 && y == 3) || (x == 3 && y == 4) {
            BLACK
        } else {
            EMPTY
        };
        row.push(cell);
        x += 1;
    }
    row
}

/// A fresh board: the starting position if `initial`, else an empty board.
fn make_board(initial: bool) -> (cells: Vec<Vec<u8>>)
    ensures
        rows(cells) == (if initial {
            initial_board()
        } else {
            empty_board()
        }),
{
    let mut cells: Vec<Vec<u8>> = Vec::new();
    let mut y: usize = 0;
    while y < 8
        invariant
            y <= 8,
            cells@.len() == y,
            forall|j: int|
                0 <= j < y ==> (#[trigger] cells@[j])@ == Seq::new(
                    8,
                    |x: int|
                        if initial {
                            initial_cell(x, j)
                        } else {
                            EMPTY
                        },
                ),
        decreases 8 - y,
    {
        let row = make_row(y, initial);
        cells.push(row);
        y += 1;
    }
    assert(rows(cells) =~~= (if initial {
        initial_board()
    } else {
        empty_board()
    }));
    cells
}

/// A copy of a board.
fn copy_board(cells: &Vec<Vec<u8>>) -> (copy: Vec<Vec<u8>>)
    ensures
        rows(copy) == rows(*cells),
{
    let mut copy: Vec<Vec<u8>> = Vec::new();
    let mut y: usize = 0;
    while y < cells.len()
        invariant
            y <= cells.len(),
            copy@.len() == y,
            forall|j: int| 0 <= j < y ==> (#[trigger] copy@[j])@ == cells@[j]@,
        decreases cells.len() - y,
    {
        let mut row: Vec<u8> = Vec::new();
        let mut x: usize = 0;
        while x < cells[y].len()
            invariant
                y < cells.len(),
                x <= cells@[y as int]@.len(),
                row@.len() == x,
                forall|i: int| 0 <= i < x ==> row@[i] == cells@[y as int]@[i],
            decreases cells@[y as int]@.len() - x,
        {
            row.push(cells[y][x]);
            x += 1;
        }
        assert(row@ =~= cells@[y as int]@);
        copy.push(row);
        y += 1;
    }
    assert(rows(copy) =~~= rows(*cells));
    copy
}

/// What a look along all eight directions finds, direction by direction.
spec fn looked(b: Seq<Seq<u8>>, color: u8, x: int, y: int, ends: Seq<usize>) -> bool {
    &&& ends.len() == 8
    &&& forall|d: int|
        0 <= d < 8 ==> (#[trigger] ends[d]) < 8 && found(b, color, x, y, d, ends[d] as int)
}

/// Whether a line was found in any direction.
fn any_line(ends: &Vec<usize>) -> (any: bool)
    ensures
        any == (exists|i: int| 0 <= i < ends@.len() && #[trigger] ends@[i] != 0),
{
    let mut i: usize = 0;
    while i < ends.len()
        invariant
            i <= ends.len(),
            forall|j: int| 0 <= j < i ==> ends@[j] == 0,
        decreases ends.len() - i,
    {
        if ends[i] != 0 {
            return true;
        }
        i += 1;
    }
    false
}

/// Whether a slot holds session `id`.
fn slot_holds(slot: &Option<usize>, id: usize) -> (r: bool)
    ensures
        r == (*slot == Some(id)),
{
    match slot {
        Some(held) => *held == id,
        None => false,
    }
}

/// The step of direction `d`, along the columns and along the rows.
fn direction(d: usize) -> (step: (i32, i32))
    requires
        d < 8,
    ensures
        step.0 == dir_x(d as int),
        step.1 == dir_y(d as int),
{
    if d == 0 {
        (1, 0)
    } else if d == 1 {
        (-1, 0)
    } else if d == 2 {
        (0, 1)
    } else if d == 3 {
        (0, -1)
    } else if d == 4 {
        (1, 1)
    } else if d == 5 {
        (-1, -1)
    } else if d == 6 {
        (1, -1)
    } else {
        (-1, 1)
    }
}

/// Whether `(cx, cy)` lies on the board and holds `v`.
fn holds(cells: &Vec<Vec<u8>>, cx: i32, cy: i32, v: u8) -> (r: bool)
    requires
        well_shaped(rows(*cells)),
    ensures
        r == (on_board(cx as int, cy as int) && cell_at(rows(*cells), cx as int, cy as int) == v),
{
    if 0 <= cx && cx < 8 && 0 <= cy && cy < 8 {
        assert(rows(*cells)[cy as int].len() == 8);
        cells[cy as usize][cx as usize] == v
    } else {
        false
    }
}

/// Looks from `(x, y)` along direction `d` for a line that a disc of `color`
/// put at `(x, y)` captures, and changes nothing. Gives the distance of the
/// disc that closes the line, or 0 where the cells of the opposing colour
/// end at an empty cell, at the edge of the board, or at once.
fn scan(cells: &Vec<Vec<u8>>, color: u8, x: usize, y: usize, d: usize) -> (n: usize)
    requires
        well_shaped(rows(*cells)),
        is_color(color),
        x < 8,
        y < 8,
        d < 8,
    ensures
        n < 8,
        found(rows(*cells), color, x as int, y as int, d as int, n as int),
{
    let ghost b = rows(*cells);
    let (dx, dy) = direction(d);
    let other: u8 = if color == WHITE {
        BLACK
    } else {
        WHITE
    };
    let mut k: usize = 1;
    let mut cx: i32 = x as i32 + dx;
    let mut cy: i32 = y as i32 + dy;
    while holds(cells, cx, cy, other)
        invariant
            b == rows(*cells),
            well_shaped(b),
            x < 8,
            y < 8,
            d < 8,
            dx == dir_x(d as int),
            dy == dir_y(d as int),
            other == opponent(color),
            1 <= k <= 8,
            cx == ray_x(x as int, d as int, k as int),
            cy == ray_y(y as int, d as int, k as int),
            forall|j: int| 1 <= j < k ==> #[trigger] ray_holds(b, x as int, y as int, d as int, j, other),
        decreases 8 - k,
    {
        assert(ray_holds(b, x as int, y as int, d as int, k as int, other));
        k += 1;
        cx += dx;
        cy += dy;
    }
    if k >= 2 && holds(cells, cx, cy, color) {
        assert(ray_holds(b, x as int, y as int, d as int, k as int, color));
        k
    } else {
        assert forall|m: int| !#[trigger] closes_at(b, color, x as int, y as int, d as int, m) by {
            if closes_at(b, color, x as int, y as int, d as int, m) {
                if m < k {
                    assert(ray_holds(b, x as int, y as int, d as int, m, other));
                } else if m > k {
                    assert(ray_holds(b, x as int, y as int, d as int, k as int, other));
                }
            }
        }
        0
    }
}

/// Turns over the discs of one captured line: the cells less than `n` steps
/// from `(x, y)` in direction `d` get `color`, and no other cell changes.
fn turn_over(cells: &mut Vec<Vec<u8>>, color: u8, x: usize, y: usize, d: usize, n: usize)
    requires
        well_shaped(rows(*old(cells))),
        x < 8,
        y < 8,
        d < 8,
        n < 8,
        forall|j: int|
            1 <= j < n ==> on_board(
                #[trigger] ray_x(x as int, d as int, j),
                ray_y(y as int, d as int, j),
            ),
    ensures
        well_shaped(rows(*final(cells))),
        forall|cx: int, cy: int|
            on_board(cx, cy) ==> #[trigger] cell_at(rows(*final(cells)), cx, cy) == (if on_ray(
                x as int,
                y as int,
                d as int,
                1,
                n as int,
                cx,
                cy,
            ) {
                color
            } else {
                cell_at(rows(*old(cells)), cx, cy)
            }),
{
    let ghost b = rows(*cells);
    let (dx, dy) = direction(d);
    let mut k: usize = 1;
    let mut px: i32 = x as i32 + dx;
    let mut py: i32 = y as i32 + dy;
    while k < n
        invariant
            well_shaped(rows(*cells)),
            well_shaped(b),
            x < 8,
            y < 8,
            d < 8,
            n < 8,
            1 <= k,
            k <= n || k == 1,
            dx == dir_x(d as int),
            dy == dir_y(d as int),
            px == ray_x(x as int, d as int, k as int),
            py == ray_y(y as int, d as int, k as int),
            forall|j: int|
                1 <= j < n ==> on_board(
                    #[trigger] ray_x(x as int, d as int, j),
                    ray_y(y as int, d as int, j),
                ),
            forall|cx: int, cy: int|
                on_board(cx, cy) ==> #[trigger] cell_at(rows(*cells), cx, cy) == (if on_ray(
                    x as int,
                    y as int,
                    d as int,
                    1,
                    k as int,
                    cx,
                    cy,
                ) {
                    color
                } else {
                    cell_at(b, cx, cy)
                }),
        decreases n - k,
    {
        let ghost before = rows(*cells);
        assert(on_board(ray_x(x as int, d as int, k as int), ray_y(y as int, d as int, k as int)));
        assert(before[py as int].len() == 8);
        cells[py as usize][px as usize] = color;
        assert forall|cx: int, cy: int| on_board(cx, cy) implies #[trigger] cell_at(
            rows(*cells),
            cx,
            cy,
        ) == (if on_ray(x as int, y as int, d as int, 1, k as int + 1, cx, cy) {
            color
        } else {
            cell_at(b, cx, cy)
        }) by {
            assert(cell_at(before, cx, cy) == (if on_ray(
                x as int,
                y as int,
                d as int,
                1,
                k as int,
                cx,
                cy,
            ) {
                color
            } else {
                cell_at(b, cx, cy)
            }));
            if cx == px && cy == py {
                assert(ray_x(x as int, d as int, k as int) == cx);
            } else {
                assert(cell_at(rows(*cells), cx, cy) == cell_at(before, cx, cy));
            }
        }
        assert(well_shaped(rows(*cells))) by {
            assert forall|r: int| 0 <= r < 8 implies (#[trigger] rows(*cells)[r]).len() == 8 by {
                assert(before[r].len() == 8);
            }
        }
        k += 1;
        px += dx;
        py += dy;
    }
    proof {
        if n == 0 {
            assert forall|cx: int, cy: int| !on_ray(x as int, y as int, d as int, 1, 0, cx, cy) by {}
        }
        assert(n != 0 ==> k == n);
        assert forall|cx: int, cy: int|
            on_ray(x as int, y as int, d as int, 1, n as int, cx, cy) == on_ray(
                x as int,
                y as int,
                d as int,
                1,
                k as int,
                cx,
                cy,
            ) by {
            if n == 0 {
                assert(k == 1);
            }
        }
    }
}

impl Reversi {
    /// The game is well formed: see [`Game::valid`].
    pub open spec fn wf(&self) -> bool {
        self@.valid()
    }

    /// A game that waits for its start, with an empty board and no player,
    /// in which a move need not capture.
    pub fn new() -> (game: Reversi)
        ensures
            game.wf(),
            game@ == (Game {
                player1: None,
                player2: None,
                state: States::AwaitingStart,
                board: empty_board(),
                require_capture: false,
            }),
    {
        Reversi::with_rules(false)
    }

    /// As [`Reversi::new`], and `require_capture` says whether the game
    /// refuses a move that captures nothing.
    pub fn with_rules(require_capture: bool) -> (game: Reversi)
        ensures
            game.wf(),
            game@ == (Game {
                player1: None,
                player2: None,
                state: States::AwaitingStart,
                board: empty_board(),
                require_capture,
            }),
    {
        let discs = make_board(false);
        Reversi { player1_id: None, player2_id: None, state: States::AwaitingStart, discs, require_capture }
    }

    /// Puts the four starting discs on the board and gives player one the
    /// turn.
    pub fn init(&mut self)
        ensures
            final(self)@ == old(self)@.started(),
            old(self).wf() ==> final(self).wf(),
    {
        self.discs = make_board(true);
        self.state = States::TurnPlayer1;
    }

    /// Clears the board and ends the game.
    pub fn end(&mut self)
        ensures
            final(self)@ == old(self)@.ended(),
            old(self).wf() ==> final(self).wf(),
    {
        self.discs = make_board(false);
        self.state = States::End;
    }

    /// A copy of the board, row by row.
    pub fn get_discs(&self) -> (snapshot: Vec<Vec<u8>>)
        ensures
            rows(snapshot) == self@.board,
    {
        copy_board(&self.discs)
    }

    /// Puts session `id` in the slot of `player`, if that slot is free and
    /// `id` does not hold the other slot; else changes nothing. Says whether
    /// it did.
    pub fn regist_player(&mut self, player: Player, id: usize) -> (done: bool)
        ensures
            done == old(self)@.may_register(player, id),
            final(self)@ == (if done {
                old(self)@.registered(player, id)
            } else {
                old(self)@
            }),
            old(self).wf() ==> final(self).wf(),
    {
        match player {
            Player::One => {
                if self.player1_id.is_none() && !slot_holds(&self.player2_id, id) {
                    self.player1_id = Some(id);
                    true
                } else {
                    false
                }
            },
            Player::Two => {
                if self.player2_id.is_none() && !slot_holds(&self.player1_id, id) {
                    self.player2_id = Some(id);
                    true
                } else {
                    false
                }
            },
        }
    }

    /// Takes session `id` out of every slot that it holds.
    pub fn unregist_player(&mut self, id: usize)
        ensures
            final(self)@ == old(self)@.without(id),
            old(self).wf() ==> final(self).wf(),
    {
        if slot_holds(&self.player1_id, id) {
            self.player1_id = None;
        }
        if slot_holds(&self.player2_id, id) {
            self.player2_id = None;
        }
    }

    /// Session `id` puts a disc at column `x`, row `y`.
    ///
    /// The move is refused, and nothing changes, for the first of these
    /// reasons that holds: a coordinate is off the board; the game does not
    /// run; `id` holds no slot; it is the other player's turn; the cell is
    /// taken; the game requires a capture and the move makes none. Else the
    /// disc is placed, in each of the eight directions the line of opposing
    /// discs that ends at a disc of the mover's colour is turned over, the
    /// turn passes to the other player, and the new board is handed back.
    pub fn set_disc(&mut self, id: usize, x: usize, y: usize) -> (r: Result<Vec<Vec<u8>>, MoveError>)
        requires
            old(self).wf(),
        ensures
            final(self).wf(),
            match r {
                Ok(snapshot) => {
                    &&& old(self)@.move_error(id, x as int, y as int) is None
                    &&& final(self)@ == old(self)@.moved(
                        old(self)@.player_of(id).unwrap(),
                        x as int,
                        y as int,
                    )
                    &&& rows(snapshot) == final(self)@.board
                },
                Err(e) => {
                    &&& old(self)@.move_error(id, x as int, y as int) == Some(e)
                    &&& final(self)@ == old(self)@
                },
            },
    {
        if x > 7 || y > 7 {
            return Err(MoveError::OutOfBounds);
        }
        let turn = match self.state {
            States::TurnPlayer1 => Player::One,
            States::TurnPlayer2 => Player::Two,
            _ => {
                return Err(MoveError::GameNotActive);
            },
        };
        let player = if slot_holds(&self.player1_id, id) {
            Player::One
        } else if slot_holds(&self.player2_id, id) {
            Player::Two
        } else {
            return Err(MoveError::NotAPlayer);
        };
        if player != turn {
            return Err(MoveError::WrongTurn);
        }
        let ghost b = self@.board;
        assert(b[y as int].len() == 8);
        if self.discs[y][x] != EMPTY {
            return Err(MoveError::CellOccupied);
        }
        let color = player.disc().u8();
        let ends = self.look(color, x, y);
        if self.require_capture && !any_line(&ends) {
            proof {
                if captures_any(b, color, x as int, y as int) {
                    let (i, m) = choose|i: int, m: int|
                        0 <= i < 8 && #[trigger] closes_at(b, color, x as int, y as int, i, m);
                    assert(ends@[i] == 0);
                }
            }
            return Err(MoveError::NoCapture);
        }
        proof {
            if self.require_capture {
                let i = choose|i: int| 0 <= i < ends@.len() && #[trigger] ends@[i] != 0;
                assert(closes_at(b, color, x as int, y as int, i, ends@[i] as int));
            }
        }
        self.update_discs(x, y, color, &ends);
        self.state = match player {
            Player::One => States::TurnPlayer2,
            Player::Two => States::TurnPlayer1,
        };
        Ok(copy_board(&self.discs))
    }

    /// Looks from `(x, y)` along each of the eight directions for a line
    /// that a disc of `color` put there captures, and changes nothing.
    fn look(&self, color: u8, x: usize, y: usize) -> (ends: Vec<usize>)
        requires
            self.wf(),
            is_color(color),
            x < 8,
            y < 8,
        ensures
            looked(self@.board, color, x as int, y as int, ends@),
    {
        let ghost b = self@.board;
        let mut ends: Vec<usize> = Vec::new();
        let mut d: usize = 0;
        while d < 8
            invariant
                d <= 8,
                x < 8,
                y < 8,
                is_color(color),
                b == rows(self.discs),
                well_shaped(b),
                ends@.len() == d,
                forall|i: int|
                    0 <= i < d ==> (#[trigger] ends@[i]) < 8 && found(
                        b,
                        color,
                        x as int,
                        y as int,
                        i,
                        ends@[i] as int,
                    ),
            decreases 8 - d,
        {
            let n = scan(&self.discs, color, x, y, d);
            ends.push(n);
            d += 1;
        }
        ends
    }

    /// Puts a disc of `color` at `(x, y)` and turns over every line that it
    /// captures: the lines that `ends` tells of, which were looked for
    /// before any cell changed.
    fn update_discs(&mut self, x: usize, y: usize, color: u8, ends: &Vec<usize>)
        requires
            old(self).wf(),
            is_color(color),
            x < 8,
            y < 8,
            looked(old(self)@.board, color, x as int, y as int, ends@),
        ensures
            final(self).wf(),
            final(self)@ == (Game {
                board: after_move(old(self)@.board, color, x as int, y as int),
                ..old(self)@
            }),
    {
        let ghost b = self@.board;
        assert(b[y as int].len() == 8);
        self.discs[y][x] = color;
        proof {
            assert forall|r: int| 0 <= r < 8 implies (#[trigger] rows(self.discs)[r]).len() == 8 by {
                assert(b[r].len() == 8);
            }
            assert forall|cx: int, cy: int| on_board(cx, cy) implies #[trigger] cell_at(
                rows(self.discs),
                cx,
                cy,
            ) == (if cx == x && cy == y {
                color
            } else {
                cell_at(b, cx, cy)
            }) by {
                assert(b[cy].len() == 8);
            }
        }
        let mut d: usize = 0;
        while d < 8
            invariant
                d <= 8,
                x < 8,
                y < 8,
                is_color(color),
                well_shaped(b),
                well_shaped(rows(self.discs)),
                looked(b, color, x as int, y as int, ends@),
                forall|cx: int, cy: int|
                    on_board(cx, cy) ==> #[trigger] cell_at(rows(self.discs), cx, cy) == (if (cx
                        == x && cy == y) || flips_below(b, color, x as int, y as int, d as int, cx, cy) {
                        color
                    } else {
                        cell_at(b, cx, cy)
                    }),
                self.player1_id == old(self).player1_id,
                self.player2_id == old(self).player2_id,
                self.state == old(self).state,
                self.require_capture == old(self).require_capture,
            decreases 8 - d,
        {
            let n = ends[d];
            let ghost before = rows(self.discs);
            proof {
                assert(found(b, color, x as int, y as int, d as int, ends@[d as int] as int));
                assert forall|j: int| 1 <= j < n implies on_board(
                    #[trigger] ray_x(x as int, d as int, j),
                    ray_y(y as int, d as int, j),
                ) by {
                    assert(ray_holds(b, x as int, y as int, d as int, j, opponent(color)));
                }
            }
            turn_over(&mut self.discs, color, x, y, d, n);
            proof {
                assert forall|cx: int, cy: int| on_board(cx, cy) implies #[trigger] cell_at(
                    rows(self.discs),
                    cx,
                    cy,
                ) == (if (cx == x && cy == y) || flips_below(
                    b,
                    color,
                    x as int,
                    y as int,
                    d as int + 1,
                    cx,
                    cy,
                ) {
                    color
                } else {
                    cell_at(b, cx, cy)
                }) by {
                    lemma_flips_in_found(b, color, x as int, y as int, d as int, n as int, cx, cy);
                    assert(cell_at(before, cx, cy) == (if (cx == x && cy == y) || flips_below(
                        b,
                        color,
                        x as int,
                        y as int,
                        d as int,
                        cx,
                        cy,
                    ) {
                        color
                    } else {
                        cell_at(b, cx, cy)
                    }));
                    if flips_below(b, color, x as int, y as int, d as int + 1, cx, cy) {
                        let i = choose|i: int|
                            0 <= i < d + 1 && #[trigger] flips_in(
                                b,
                                color,
                                x as int,
                                y as int,
                                i,
                                cx,
                                cy,
                            );
                        if i < d {
                            assert(flips_below(b, color, x as int, y as int, d as int, cx, cy));
                        }
                    }
                    if flips_in(b, color, x as int, y as int, d as int, cx, cy) {
                        assert(flips_below(b, color, x as int, y as int, d as int + 1, cx, cy));
                    }
                    if flips_below(b, color, x as int, y as int, d as int, cx, cy) {
                        let i = choose|i: int|
                            0 <= i < d && #[trigger] flips_in(b, color, x as int, y as int, i, cx, cy);
                        assert(flips_below(b, color, x as int, y as int, d as int + 1, cx, cy));
                    }
                }
            }
            d += 1;
        }
        proof {
            let a = after_move(b, color, x as int, y as int);
            assert forall|cy: int| 0 <= cy < 8 implies #[trigger] rows(self.discs)[cy] =~= a[cy] by {
                assert forall|cx: int| 0 <= cx < 8 implies rows(self.discs)[cy][cx] == a[cy][cx] by {
                    assert(cell_at(rows(self.discs), cx, cy) == a[cy][cx]);
                }
            }
            assert(rows(self.discs) =~= a);
            lemma_after_move_shape(b, color, x as int, y as int);
        }
    }

    /// Whose turn it is, or why it is no one's.
    pub fn state(&self) -> (state: States)
        ensures
            state == self@.state,
    {
        self.state
    }

    /// The session in the slot of `player`, if the slot is assigned.
    pub fn player(&self, player: Player) -> (id: Option<usize>)
        ensures
            id == self@.slot(player),
    {
        match player {
            Player::One => self.player1_id,
            Player::Two => self.player2_id,
        }
    }
}

} // verus!
