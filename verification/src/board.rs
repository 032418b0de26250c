//! The grid board model: cell kinds, coordinates, directions, and a single
//! board with its player position and coin-collection semantics.
use vstd::prelude::*;
use vstd::string::StrSliceExecFns;

verus! {

use crate::H;
use crate::W;

/// What a single grid cell holds.  `Wall` and `Hazard` are permanent; a `Coin`
/// turns into `Empty` exactly once, when it is collected; `Empty` is stable.
#[derive(Clone, Copy, Debug, PartialEq, Eq, Structural)]
pub enum CellKind {
    Wall,
    Coin,
    Hazard,
    Empty,
}

/// One of the four joint move commands, applied to every board at once.
#[derive(Clone, Copy, Debug, PartialEq, Eq, Structural)]
pub enum Direction {
    Up,
    Down,
    Right,
    Left,
}

/// A (row, column) coordinate pair.  Signed, so that a tentative move target
/// one step outside the grid can be represented before the bounds check.
#[derive(Clone, Copy, Debug)]
pub struct Coord {
    pub y: isize,
    pub x: isize,
}

impl Coord {
    pub fn new(y: isize, x: isize) -> (r: Self)
        ensures
            r.y == y,
            r.x == x,
    {
        Self { y, x }
    }
}

/// Row delta of a direction: `Up` decreases the row index.
pub open spec fn dy(d: Direction) -> int {
    match d {
        Direction::Up => -1,
        Direction::Down => 1,
        Direction::Right => 0,
        Direction::Left => 0,
    }
}

/// Column delta of a direction: `Right` increases the column index.
pub open spec fn dx(d: Direction) -> int {
    match d {
        Direction::Up => 0,
        Direction::Down => 0,
        Direction::Right => 1,
        Direction::Left => -1,
    }
}

pub fn dy_step(d: Direction) -> (r: isize)
    ensures
        r as int == dy(d),
{
    match d {
        Direction::Up => -1,
        Direction::Down => 1,
        Direction::Right => 0,
        Direction::Left => 0,
    }
}

pub fn dx_step(d: Direction) -> (r: isize)
    ensures
        r as int == dx(d),
{
    match d {
        Direction::Up => 0,
        Direction::Down => 0,
        Direction::Right => 1,
        Direction::Left => -1,
    }
}

impl Direction {
    /// The one-letter command used to render a move sequence.
    pub fn command_char(&self) -> (r: char)
        ensures
            r == command_char_of(*self),
    {
        match self {
            Direction::Up => 'U',
            Direction::Down => 'D',
            Direction::Right => 'R',
            Direction::Left => 'L',
        }
    }
}

pub open spec fn command_char_of(d: Direction) -> char {
    match d {
        Direction::Up => 'U',
        Direction::Down => 'D',
        Direction::Right => 'R',
        Direction::Left => 'L',
    }
}

/// The cell kind a map symbol denotes.  `#` is a wall, `o` a coin, `x` a
/// hazard; every other symbol, including the start marker `@`, is empty
/// (unrecognized symbols are deliberately tolerated as empty cells).
pub open spec fn cell_of_char(c: char) -> CellKind {
    if c == '#' {
        CellKind::Wall
    } else if c == 'o' {
        CellKind::Coin
    } else if c == 'x' {
        CellKind::Hazard
    } else {
        CellKind::Empty
    }
}

pub fn kind_of_char(c: char) -> (k: CellKind)
    ensures
        k == cell_of_char(c),
{
    if c == '#' {
        CellKind::Wall
    } else if c == 'o' {
        CellKind::Coin
    } else if c == 'x' {
        CellKind::Hazard
    } else {
        CellKind::Empty
    }
}

/// Why a map text was rejected.
#[derive(Clone, Copy, Debug, PartialEq, Eq, Structural)]
pub enum ParseError {
    /// The map does not have exactly `H` rows.
    WrongRowCount,
    /// Some row does not have exactly `W` symbols.
    WrongColumnCount,
    /// No row holds the start marker `@`.
    MissingStart,
}

/// The mathematical value of a `Board`.
#[verifier::ext_equal]
pub ghost struct BoardV {
    pub id: int,
    pub grid: Seq<Seq<CellKind>>,
    pub y: int,
    pub x: int,
}

/// One maze board: an identifier, an `H` x `W` grid of cells (mutable only by
/// coin collection) and the player's current position.
#[derive(Debug)]
pub struct Board {
    pub id: usize,
    pub cell: Vec<Vec<CellKind>>,
    pub character: Coord,
}

impl View for Board {
    type V = BoardV;

    open spec fn view(&self) -> BoardV {
        BoardV {
            id: self.id as int,
            grid: self.cell@.map_values(|row: Vec<CellKind>| row@),
            y: self.character.y as int,
            x: self.character.x as int,
        }
    }
}

pub open spec fn in_bounds(y: int, x: int) -> bool {
    0 <= y < H && 0 <= x < W
}

pub open spec fn grid_wf(g: Seq<Seq<CellKind>>) -> bool {
    &&& g.len() == H
    &&& forall|y: int| 0 <= y < H ==> (#[trigger] g[y]).len() == W
}

/// Board invariant: a well-shaped grid, and a position that is in bounds and
/// never on a wall or hazard cell.
pub open spec fn board_wf(b: BoardV) -> bool {
    &&& grid_wf(b.grid)
    &&& in_bounds(b.y, b.x)
    &&& b.grid[b.y][b.x] != CellKind::Wall
    &&& b.grid[b.y][b.x] != CellKind::Hazard
}

/// A direction is acceptable on one board iff its target cell is in bounds and
/// is not a hazard.  A wall target is acceptable: it merely leaves this board
/// in place.
pub open spec fn board_dir_ok(b: BoardV, d: Direction) -> bool {
    &&& in_bounds(b.y + dy(d), b.x + dx(d))
    &&& b.grid[b.y + dy(d)][b.x + dx(d)] != CellKind::Hazard
}

/// How many coins one step of `d` collects on this board: 1 iff the target
/// cell holds a coin, else 0 (a wall target collects nothing).
pub open spec fn board_gain(b: BoardV, d: Direction) -> int {
    if b.grid[b.y + dy(d)][b.x + dx(d)] == CellKind::Coin {
        1
    } else {
        0
    }
}

/// The board after one step of `d`: unchanged if the target is a wall;
/// otherwise the player moves there, and a coin on the target turns empty.
pub open spec fn board_after(b: BoardV, d: Direction) -> BoardV {
    let ty = b.y + dy(d);
    let tx = b.x + dx(d);
    if b.grid[ty][tx] == CellKind::Wall {
        b
    } else {
        BoardV {
            id: b.id,
            grid: if b.grid[ty][tx] == CellKind::Coin {
                b.grid.update(ty, b.grid[ty].update(tx, CellKind::Empty))
            } else {
                b.grid
            },
            y: ty,
            x: tx,
        }
    }
}

/// One step of an acceptable direction preserves the board invariant, and the
/// new position is never on a hazard cell.
pub proof fn lemma_board_after_wf(b: BoardV, d: Direction)
    requires
        board_wf(b),
        board_dir_ok(b, d),
    ensures
        board_wf(board_after(b, d)),
        board_after(b, d).grid[board_after(b, d).y][board_after(b, d).x] != CellKind::Hazard,
{
}

/// Coin collection happens at most once per cell: a cell that is empty stays
/// empty across any step, and stepping onto an empty cell collects nothing.
pub proof fn lemma_coin_collected_once(b: BoardV, d: Direction, y: int, x: int)
    requires
        board_wf(b),
        board_dir_ok(b, d),
        in_bounds(y, x),
        b.grid[y][x] == CellKind::Empty,
    ensures
        board_after(b, d).grid[y][x] == CellKind::Empty,
        b.y + dy(d) == y && b.x + dx(d) == x ==> board_gain(b, d) == 0,
{
}

/// Any step changes cells only from `Coin` to `Empty`; walls and hazards are
/// permanent and empty cells stay empty.
pub proof fn lemma_step_changes_only_coins(b: BoardV, d: Direction, y: int, x: int)
    requires
        board_wf(b),
        board_dir_ok(b, d),
        in_bounds(y, x),
    ensures
        board_after(b, d).grid[y][x] == b.grid[y][x] || (b.grid[y][x] == CellKind::Coin
            && board_after(b, d).grid[y][x] == CellKind::Empty),
{
}

/// `(y2, x2)` comes strictly after `(y1, x1)` in row-major order.
pub open spec fn later_rm(y1: int, x1: int, y2: int, x2: int) -> bool {
    y2 > y1 || (y2 == y1 && x2 > x1)
}

/// A map text is well formed: `H` rows of `W` symbols holding a start marker.
pub open spec fn map_text_ok(rv: Seq<Seq<char>>) -> bool {
    &&& rv.len() == H
    &&& forall|y: int| 0 <= y < H ==> (#[trigger] rv[y]).len() == W
    &&& exists|y: int, x: int| 0 <= y < H && 0 <= x < W && rv[y][x] == '@'
}

/// The error a malformed map text is rejected with: row count first, then
/// column count, then the missing start marker.
pub open spec fn text_err(rv: Seq<Seq<char>>) -> ParseError {
    if rv.len() != H {
        ParseError::WrongRowCount
    } else if exists|y: int| 0 <= y < H && (#[trigger] rv[y]).len() != W {
        ParseError::WrongColumnCount
    } else {
        ParseError::MissingStart
    }
}

/// The board a well-formed map text denotes: the given id, the symbol-wise
/// translation of the text, and the position of the last start marker in
/// row-major order (every `@`, including earlier ones, reads as an empty cell).
pub open spec fn board_matches_rows(b: BoardV, rv: Seq<Seq<char>>, id: int) -> bool {
    &&& b.id == id
    &&& grid_wf(b.grid)
    &&& forall|y: int, x: int|
        0 <= y < H && 0 <= x < W ==> b.grid[y][x] == cell_of_char(#[trigger] rv[y][x])
    &&& in_bounds(b.y, b.x)
    &&& rv[b.y][b.x] == '@'
    &&& forall|y: int, x: int|
        0 <= y < H && 0 <= x < W && later_rm(b.y, b.x, y, x) ==> #[trigger] rv[y][x] != '@'
}

impl Board {
    /// Parses `H` rows of `W` symbols into a board.  `#` is a wall, `o` a
    /// coin, `x` a hazard, `@` the start (recorded, then read as empty); any
    /// other symbol is tolerated as an empty cell.  If `@` occurs repeatedly,
    /// the last occurrence in row-major order is the start.
    pub fn from_map(id: usize, rows: &Vec<String>) -> (r: Result<Board, ParseError>)
        ensures
            r is Ok <==> map_text_ok(rows.deep_view()),
            r matches Ok(b) ==> board_matches_rows(b@, rows.deep_view(), id as int) && board_wf(
                b@,
            ),
            r matches Err(e) ==> e == text_err(rows.deep_view()),
    {
        let ghost rv = rows.deep_view();
        if rows.len() != H {
            return Err(ParseError::WrongRowCount);
        }
        let mut cell: Vec<Vec<CellKind>> = Vec::new();
        let mut found: bool = false;
        let mut sy: usize = 0;
        let mut sx: usize = 0;
        let mut y: usize = 0;
        while y < H
            invariant
                rows@.len() == H,
                rv == rows.deep_view(),
                y <= H,
                cell@.len() == y,
                forall|yy: int| 0 <= yy < y ==> (#[trigger] cell@[yy])@.len() == W,
                forall|yy: int, xx: int|
                    0 <= yy < y && 0 <= xx < W ==> cell@[yy]@[xx] == cell_of_char(rv[yy][xx]),
                forall|yy: int| 0 <= yy < y ==> (#[trigger] rv[yy]).len() == W,
                found ==> 0 <= sy < y && sx < W && rv[sy as int][sx as int] == '@',
                forall|yy: int, xx: int|
                    0 <= yy < y && 0 <= xx < W && (!found || later_rm(
                        sy as int,
                        sx as int,
                        yy,
                        xx,
                    )) ==> #[trigger] rv[yy][xx] != '@',
            decreases H - y,
        {
            let row: &String = &rows[y];
            assert(row@ == rv[y as int]);
            if row.as_str().unicode_len() != W {
                assert(rv[y as int].len() != W);
                return Err(ParseError::WrongColumnCount);
            }
            let mut line: Vec<CellKind> = Vec::new();
            let mut x: usize = 0;
            while x < W
                invariant
                    y < H,
                    x <= W,
                    row@ == rv[y as int],
                    row@.len() == W,
                    line@.len() == x,
                    forall|xx: int| 0 <= xx < x ==> line@[xx] == cell_of_char(rv[y as int][xx]),
                    forall|yy: int| 0 <= yy < y ==> (#[trigger] rv[yy]).len() == W,
                    found ==> (sy < y || (sy == y && sx < x)) && sy < H && sx < W && rv[sy as int][sx as int]
                        == '@',
                    forall|yy: int, xx: int|
                        0 <= yy && 0 <= xx < W && (yy < y || (yy == y && xx < x)) && (!found
                            || later_rm(sy as int, sx as int, yy, xx)) ==> #[trigger] rv[yy][xx]
                            != '@',
                decreases W - x,
            {
                let c = row.as_str().get_char(x);
                line.push(kind_of_char(c));
                if c == '@' {
                    found = true;
                    sy = y;
                    sx = x;
                }
                x += 1;
            }
            cell.push(line);
            y += 1;
        }
        if !found {
            assert(!map_text_ok(rv));
            return Err(ParseError::MissingStart);
        }
        let b = Board { id, cell, character: Coord { y: sy as isize, x: sx as isize } };
        assert(map_text_ok(rv)) by {
            assert(0 <= sy < H && 0 <= sx < W && rv[sy as int][sx as int] == '@');
        }
        assert(b@.grid[sy as int][sx as int] == cell_of_char('@'));
        Ok(b)
    }

    /// True iff `pos` is in bounds and the cell there is not a wall.
    pub fn is_passable(&self, pos: Coord) -> (r: bool)
        requires
            grid_wf(self@.grid),
        ensures
            r == (in_bounds(pos.y as int, pos.x as int) && self@.grid[pos.y as int][pos.x as int]
                != CellKind::Wall),
    {
        if pos.y >= 0 && pos.y < H as isize && pos.x >= 0 && pos.x < W as isize {
            self.cell[pos.y as usize][pos.x as usize] != CellKind::Wall
        } else {
            false
        }
    }

    /// True iff `pos` is in bounds and the cell there is a hazard.
    pub fn is_hazard(&self, pos: Coord) -> (r: bool)
        requires
            grid_wf(self@.grid),
        ensures
            r == (in_bounds(pos.y as int, pos.x as int) && self@.grid[pos.y as int][pos.x as int]
                == CellKind::Hazard),
    {
        if pos.y >= 0 && pos.y < H as isize && pos.x >= 0 && pos.x < W as isize {
            self.cell[pos.y as usize][pos.x as usize] == CellKind::Hazard
        } else {
            false
        }
    }

    /// Takes one step of an acceptable direction: a wall target is a no-op,
    /// otherwise the player moves and a coin on the target is collected
    /// (turned empty).  Returns whether a coin was collected.
    pub fn step(&mut self, d: Direction) -> (collected: bool)
        requires
            board_wf(old(self)@),
            board_dir_ok(old(self)@, d),
        ensures
            final(self)@ == board_after(old(self)@, d),
            board_wf(final(self)@),
            collected == (board_gain(old(self)@, d) == 1),
    {
        proof {
            lemma_board_after_wf(old(self)@, d);
        }
        let ty = self.character.y + dy_step(d);
        let tx = self.character.x + dx_step(d);
        let c = self.cell[ty as usize][tx as usize];
        if c == CellKind::Wall {
            assert(self@ =~= board_after(old(self)@, d));
            false
        } else {
            if c == CellKind::Coin {
                self.cell[ty as usize][tx as usize] = CellKind::Empty;
            }
            self.character.y = ty;
            self.character.x = tx;
            proof {
                assert(self@.grid =~= board_after(old(self)@, d).grid);
                assert(self@ =~= board_after(old(self)@, d));
            }
            c == CellKind::Coin
        }
    }
}

impl Clone for Board {
    /// A deep copy: the clone has the same mathematical value.
    fn clone(&self) -> (r: Self)
        ensures
            r@ == self@,
    {
        let mut cell: Vec<Vec<CellKind>> = Vec::new();
        let mut y: usize = 0;
        while y < self.cell.len()
            invariant
                y <= self.cell@.len(),
                cell@.len() == y,
                forall|yy: int| 0 <= yy < y ==> (#[trigger] cell@[yy])@ == self.cell@[yy]@,
            decreases self.cell@.len() - y,
        {
            let src_row: &Vec<CellKind> = &self.cell[y];
            let mut row: Vec<CellKind> = Vec::new();
            let mut x: usize = 0;
            while x < src_row.len()
                invariant
                    x <= src_row@.len(),
                    row@.len() == x,
                    forall|xx: int| 0 <= xx < x ==> row@[xx] == src_row@[xx],
                decreases src_row@.len() - x,
            {
                row.push(src_row[x]);
                x += 1;
            }
            assert(row@ =~= src_row@);
            cell.push(row);
            y += 1;
        }
        let r = Board { id: self.id, cell, character: self.character };
        proof {
            assert(r@.grid =~= self@.grid);
            assert(r@ =~= self@);
        }
        r
    }
}

} // verus!
