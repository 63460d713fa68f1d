//! The dense board: how it is laid out from the pieces and how it is drawn.

use vstd::prelude::*;
use crate::state::{all_on_board, GameState, Piece};

verus! {

/// Number of rows and of columns of the board.
pub const BOARD_SIZE: usize = 8;

/// The board as rows of cells; a cell holds 0 when empty, else the number of
/// the player who owns it.
pub type Cells = Seq<Seq<u8>>;

/// Whether column `x` and row `y` name a cell of the board.
pub open spec fn on_board(x: int, y: int) -> bool {
    0 <= x < BOARD_SIZE && 0 <= y < BOARD_SIZE
}

/// Whether the cell in column `x` and row `y` exists and holds `v`.
pub open spec fn holds(cells: Cells, x: int, y: int, v: u8) -> bool {
    on_board(x, y) && cells[y][x] == v
}

/// How a cell is drawn: a bar and the owner's mark.
pub open spec fn glyph(v: u8) -> Seq<char> {
    if v == 2 {
        "|X"@
    } else if v == 1 {
        "|O"@
    } else {
        "| "@
    }
}

/// What a drawn row begins with: its index and three blanks.
pub open spec fn row_label(y: int) -> Seq<char> {
    if y == 0 {
        "0   "@
    } else if y == 1 {
        "1   "@
    } else if y == 2 {
        "2   "@
    } else if y == 3 {
        "3   "@
    } else if y == 4 {
        "4   "@
    } else if y == 5 {
        "5   "@
    } else if y == 6 {
        "6   "@
    } else {
        "7   "@
    }
}

/// The first `n` cells of row `y` as drawn.
pub open spec fn row_cells(cells: Cells, y: int, n: int) -> Seq<char>
    decreases n,
{
    if n <= 0 {
        Seq::empty()
    } else {
        row_cells(cells, y, n - 1) + glyph(cells[y][n - 1])
    }
}

/// Row `y` as drawn: label, cells, closing bar and line end.
pub open spec fn row_text(cells: Cells, y: int) -> Seq<char> {
    row_label(y) + row_cells(cells, y, BOARD_SIZE as int) + "|\n"@
}

/// The first `n` rows as drawn.
pub open spec fn rows_text(cells: Cells, n: int) -> Seq<char>
    decreases n,
{
    if n <= 0 {
        Seq::empty()
    } else {
        rows_text(cells, n - 1) + row_text(cells, n - 1)
    }
}

/// The board as drawn: a heading that numbers the columns, then the rows.
pub open spec fn board_text(cells: Cells) -> Seq<char> {
    "  x  0 1 2 3 4 5 6 7\ny\n"@ + rows_text(cells, BOARD_SIZE as int)
}

/// The dense grid, indexed by row and then by column.
pub struct Board(pub [[u8; BOARD_SIZE]; BOARD_SIZE]);

impl View for Board {
    type V = Cells;

    open spec fn view(&self) -> Cells {
        Seq::new(BOARD_SIZE as nat, |y: int| self.0@[y]@)
    }
}

/// A piece is among the first `i + 1` of `s` when it is among the first `i`
/// or is the one at `i`.
proof fn lemma_take_contains(s: Seq<Piece>, i: int, p: Piece)
    requires
        0 <= i < s.len(),
    ensures
        s.take(i + 1).contains(p) <==> (s.take(i).contains(p) || s[i] == p),
{
    let longer = s.take(i + 1);
    let shorter = s.take(i);
    if longer.contains(p) {
        let k = choose|k: int| 0 <= k < longer.len() && longer[k] == p;
        if k < i {
            assert(shorter[k] == p);
        }
    }
    if shorter.contains(p) {
        let k = choose|k: int| 0 <= k < shorter.len() && shorter[k] == p;
        assert(longer[k] == p);
    }
    if s[i] == p {
        assert(longer[i] == p);
    }
}

impl Board {
    /// Writes `number` into the cell of each piece of `pieces` and leaves
    /// the other cells as they are.
    fn lay(&mut self, pieces: &Vec<Piece>, number: u8)
        requires
            all_on_board(pieces@),
        ensures
            forall|x: int, y: int|
                on_board(x, y) ==> #[trigger] final(self)@[y][x] == (if pieces@.contains(
                    Piece { x: x as usize, y: y as usize },
                ) {
                    number
                } else {
                    old(self)@[y][x]
                }),
    {
        let ghost list = pieces@;
        let ghost start = self@;
        let mut i: usize = 0;
        while i < pieces.len()
            invariant
                i <= list.len(),
                list == pieces@,
                all_on_board(list),
                forall|x: int, y: int|
                    on_board(x, y) ==> #[trigger] self@[y][x] == (if list.take(i as int).contains(
                        Piece { x: x as usize, y: y as usize },
                    ) {
                        number
                    } else {
                        start[y][x]
                    }),
            decreases list.len() - i,
        {
            let p = pieces[i];
            assert(on_board(list[i as int].x as int, list[i as int].y as int));
            let ghost before = self@;
            self.0[p.y][p.x] = number;
            proof {
                assert forall|x: int, y: int| on_board(x, y) implies #[trigger] self@[y][x] == (
                if list.take(i + 1).contains(Piece { x: x as usize, y: y as usize }) {
                    number
                } else {
                    start[y][x]
                }) by {
                    lemma_take_contains(list, i as int, Piece { x: x as usize, y: y as usize });
                    assert(before[y][x] == (if list.take(i as int).contains(
                        Piece { x: x as usize, y: y as usize },
                    ) {
                        number
                    } else {
                        start[y][x]
                    }));
                }
            }
            i = i + 1;
        }
        assert(list.take(list.len() as int) =~= list);
    }

    /// Lays the pieces of both players out on an empty grid: first those of
    /// the first player, then over them those of the second.
    pub fn set(game_state: &GameState) -> (board: Board)
        requires
            game_state@.pieces_on_board(),
        ensures
            board@ == game_state@.board(),
    {
        let mut board = Board([[0u8; BOARD_SIZE]; BOARD_SIZE]);
        assert(forall|x: int, y: int| on_board(x, y) ==> #[trigger] board@[y][x] == 0);
        board.lay(&game_state.player_1_pieces, 1);
        board.lay(&game_state.player_2_pieces, 2);
        assert(board@ =~~= game_state@.board());
        board
    }
}

/// What a drawn row begins with.
fn row_label_of(y: usize) -> (label: &'static str)
    requires
        y < BOARD_SIZE,
    ensures
        label@ == row_label(y as int),
{
    if y == 0 {
        "0   "
    } else if y == 1 {
        "1   "
    } else if y == 2 {
        "2   "
    } else if y == 3 {
        "3   "
    } else if y == 4 {
        "4   "
    } else if y == 5 {
        "5   "
    } else if y == 6 {
        "6   "
    } else {
        "7   "
    }
}

impl Board {
    /// Draws the board as text, one line for each row.
    pub fn render(&self) -> (lines: String)
        ensures
            lines@ == board_text(self@),
    {
        let mut lines = String::from_str("  x  0 1 2 3 4 5 6 7\ny\n");
        let mut row: usize = 0;
        while row < BOARD_SIZE
            invariant
                row <= BOARD_SIZE,
                lines@ == "  x  0 1 2 3 4 5 6 7\ny\n"@ + rows_text(self@, row as int),
            decreases BOARD_SIZE - row,
        {
            let ghost above = lines@;
            lines.append(row_label_of(row));
            let mut col: usize = 0;
            while col < BOARD_SIZE
                invariant
                    col <= BOARD_SIZE,
                    row < BOARD_SIZE,
                    lines@ == above + row_label(row as int) + row_cells(self@, row as int, col as int),
                decreases BOARD_SIZE - col,
            {
                let ghost left = lines@;
                let v = self.0[row][col];
                if v == 2 {
                    lines.append("|X");
                } else if v == 1 {
                    lines.append("|O");
                } else {
                    lines.append("| ");
                }
                assert(lines@ == left + glyph(self@[row as int][col as int]));
                assert(lines@ =~= above + row_label(row as int) + row_cells(
                    self@,
                    row as int,
                    col + 1,
                ));
                col = col + 1;
            }
            lines.append("|\n");
            assert(lines@ =~= above + row_text(self@, row as int));
            assert(lines@ =~= "  x  0 1 2 3 4 5 6 7\ny\n"@ + rows_text(self@, row + 1));
            row = row + 1;
        }
        lines
    }
}

} // verus!
