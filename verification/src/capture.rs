//! Flanking capture: which cells a newly placed piece takes, and the scan
//! of the board that finds them.

use vstd::prelude::*;
use crate::board::{holds, on_board, Board, Cells, BOARD_SIZE};
use crate::state::Piece;

verus! {

/// The number of the player who plays against `player`.
pub open spec fn opponent_of(player: u8) -> u8 {
    if player == 1 {
        2
    } else {
        1
    }
}

/// The coordinate reached from `c` by `i` steps of `d`, where `d` is -1, 0
/// or 1.
pub open spec fn offset(c: int, d: int, i: int) -> int {
    if d > 0 {
        c + i
    } else if d < 0 {
        c - i
    } else {
        c
    }
}

/// Whether `(dx, dy)` is a step to one of the eight neighbours of a cell.
pub open spec fn is_direction(dx: int, dy: int) -> bool {
    -1 <= dx <= 1 && -1 <= dy <= 1 && !(dx == 0 && dy == 0)
}

/// The eight directions in the order in which they are scanned: along the
/// row onward and back, along the column onward and back, then the four
/// diagonals.
pub open spec fn direction(k: int) -> (int, int) {
    if k == 0 {
        (1, 0)
    } else if k == 1 {
        (-1, 0)
    } else if k == 2 {
        (0, 1)
    } else if k == 3 {
        (0, -1)
    } else if k == 4 {
        (1, 1)
    } else if k == 5 {
        (-1, -1)
    } else if k == 6 {
        (1, -1)
    } else {
        (-1, 1)
    }
}

/// The cell `i` steps from `(x, y)` in direction `(dx, dy)`.
pub open spec fn cell_at(x: int, y: int, dx: int, dy: int, i: int) -> Piece {
    Piece { x: offset(x, dx, i) as usize, y: offset(y, dy, i) as usize }
}

/// Whether the cell `i` steps from `(x, y)` in direction `(dx, dy)` exists
/// and holds `v`.
pub open spec fn along(cells: Cells, x: int, y: int, dx: int, dy: int, i: int, v: u8) -> bool {
    holds(cells, offset(x, dx, i), offset(y, dy, i), v)
}

/// Whether a piece of `player` placed at `(x, y)` brackets a run of exactly
/// `n` opposing pieces in direction `(dx, dy)`: the next `n` cells are the
/// opponent's and the cell after them is the player's own.
pub open spec fn brackets(cells: Cells, x: int, y: int, dx: int, dy: int, player: u8, n: int) -> bool {
    &&& n >= 1
    &&& forall|i: int| 1 <= i <= n ==> #[trigger] along(cells, x, y, dx, dy, i, opponent_of(player))
    &&& along(cells, x, y, dx, dy, n + 1, player)
}

/// The length of the run that a piece of `player` at `(x, y)` brackets in
/// direction `(dx, dy)`, or 0 when it brackets none there.
pub open spec fn flank_len(cells: Cells, x: int, y: int, dx: int, dy: int, player: u8) -> int {
    if exists|n: int| brackets(cells, x, y, dx, dy, player, n) {
        choose|n: int| brackets(cells, x, y, dx, dy, player, n)
    } else {
        0
    }
}

/// The cells of the bracketed run in direction `(dx, dy)`, nearest first.
pub open spec fn flanked(cells: Cells, x: int, y: int, dx: int, dy: int, player: u8) -> Seq<Piece> {
    Seq::new(
        flank_len(cells, x, y, dx, dy, player) as nat,
        |i: int| cell_at(x, y, dx, dy, i + 1),
    )
}

/// The runs bracketed in the first `k` directions, one after the other.
pub open spec fn captured_upto(cells: Cells, x: int, y: int, player: u8, k: int) -> Seq<Piece>
    decreases k,
{
    if k <= 0 {
        Seq::empty()
    } else {
        captured_upto(cells, x, y, player, k - 1) + flanked(
            cells,
            x,
            y,
            direction(k - 1).0,
            direction(k - 1).1,
            player,
        )
    }
}

/// Every cell that a piece of `player` placed at `(x, y)` captures: the runs
/// bracketed in the eight directions, in scanning order.
pub open spec fn captured(cells: Cells, x: int, y: int, player: u8) -> Seq<Piece> {
    captured_upto(cells, x, y, player, 8)
}

/// A run of opposing pieces that ends after exactly `n` cells is bracketed
/// when the cell behind it is the player's own, and no other length is.
pub proof fn lemma_run_decides(cells: Cells, x: int, y: int, dx: int, dy: int, player: u8, n: int)
    requires
        player == 1 || player == 2,
        n >= 0,
        forall|i: int| 1 <= i <= n ==> #[trigger] along(cells, x, y, dx, dy, i, opponent_of(player)),
        !along(cells, x, y, dx, dy, n + 1, opponent_of(player)),
    ensures
        forall|m: int| brackets(cells, x, y, dx, dy, player, m) ==> m == n,
        brackets(cells, x, y, dx, dy, player, n) <==> (n >= 1 && along(cells, x, y, dx, dy, n + 1, player)),
        flank_len(cells, x, y, dx, dy, player) == (if n >= 1 && along(
            cells,
            x,
            y,
            dx,
            dy,
            n + 1,
            player,
        ) {
            n
        } else {
            0
        }),
{
    assert forall|m: int| brackets(cells, x, y, dx, dy, player, m) implies m == n by {
        if m < n {
            assert(along(cells, x, y, dx, dy, m + 1, opponent_of(player)));
            assert(along(cells, x, y, dx, dy, m + 1, player));
        } else if m > n {
            assert(along(cells, x, y, dx, dy, n + 1, opponent_of(player)));
        }
    }
    if n >= 1 && along(cells, x, y, dx, dy, n + 1, player) {
        assert(brackets(cells, x, y, dx, dy, player, n));
        let m = choose|m: int| brackets(cells, x, y, dx, dy, player, m);
        assert(brackets(cells, x, y, dx, dy, player, m));
        assert(m == n);
    } else {
        assert(!brackets(cells, x, y, dx, dy, player, n));
        assert forall|m: int| !brackets(cells, x, y, dx, dy, player, m) by {
            if brackets(cells, x, y, dx, dy, player, m) {
                assert(m == n);
            }
        }
    }
}

/// A placed piece brackets at most one length of run in a direction.
pub proof fn lemma_bracket_unique(
    cells: Cells,
    x: int,
    y: int,
    dx: int,
    dy: int,
    player: u8,
    n: int,
    m: int,
)
    requires
        player == 1 || player == 2,
        brackets(cells, x, y, dx, dy, player, n),
        brackets(cells, x, y, dx, dy, player, m),
    ensures
        n == m,
        flank_len(cells, x, y, dx, dy, player) == n,
{
    if n < m {
        assert(along(cells, x, y, dx, dy, n + 1, opponent_of(player)));
    }
    if m < n {
        assert(along(cells, x, y, dx, dy, m + 1, opponent_of(player)));
    }
    let c = choose|c: int| brackets(cells, x, y, dx, dy, player, c);
    assert(brackets(cells, x, y, dx, dy, player, c));
    if c < n {
        assert(along(cells, x, y, dx, dy, c + 1, opponent_of(player)));
    }
    if n < c {
        assert(along(cells, x, y, dx, dy, n + 1, opponent_of(player)));
    }
}

/// Whether `p` is the `i`-th cell of the run that a piece of `player` at
/// `(x, y)` brackets in the `j`-th direction.
pub open spec fn in_run(cells: Cells, x: int, y: int, player: u8, j: int, i: int, p: Piece) -> bool {
    &&& 0 <= j < 8
    &&& 1 <= i <= flank_len(cells, x, y, direction(j).0, direction(j).1, player)
    &&& p == cell_at(x, y, direction(j).0, direction(j).1, i)
}

/// The cells of a bracketed run lie on the board and hold pieces of the
/// opponent.
pub proof fn lemma_run_cells(cells: Cells, x: int, y: int, player: u8, j: int, i: int, p: Piece)
    requires
        in_run(cells, x, y, player, j, i, p),
    ensures
        brackets(
            cells,
            x,
            y,
            direction(j).0,
            direction(j).1,
            player,
            flank_len(cells, x, y, direction(j).0, direction(j).1, player),
        ),
        along(cells, x, y, direction(j).0, direction(j).1, i, opponent_of(player)),
        p.x == offset(x, direction(j).0, i),
        p.y == offset(y, direction(j).1, i),
        holds(cells, p.x as int, p.y as int, opponent_of(player)),
{
    let dx = direction(j).0;
    let dy = direction(j).1;
    let n = flank_len(cells, x, y, dx, dy, player);
    assert(n >= 1);
    assert(brackets(cells, x, y, dx, dy, player, n));
    assert(along(cells, x, y, dx, dy, i, opponent_of(player)));
}

/// Cells at different places of the eight rays from `(x, y)` differ.
pub proof fn lemma_rays_apart(x: int, y: int, j1: int, i1: int, j2: int, i2: int)
    requires
        0 <= j1 < 8,
        0 <= j2 < 8,
        i1 >= 1,
        i2 >= 1,
        j1 != j2 || i1 != i2,
        on_board(offset(x, direction(j1).0, i1), offset(y, direction(j1).1, i1)),
        on_board(offset(x, direction(j2).0, i2), offset(y, direction(j2).1, i2)),
    ensures
        cell_at(x, y, direction(j1).0, direction(j1).1, i1) != cell_at(
            x,
            y,
            direction(j2).0,
            direction(j2).1,
            i2,
        ),
{
}

/// A cell is among the runs of the first `k` directions exactly when it is a
/// cell of the run bracketed in one of them.
pub proof fn lemma_captured_members(cells: Cells, x: int, y: int, player: u8, k: int, p: Piece)
    requires
        0 <= k <= 8,
    ensures
        captured_upto(cells, x, y, player, k).contains(p) <==> exists|j: int, i: int|
            j < k && in_run(cells, x, y, player, j, i, p),
    decreases k,
{
    if k > 0 {
        lemma_captured_members(cells, x, y, player, k - 1, p);
        let before = captured_upto(cells, x, y, player, k - 1);
        let dx = direction(k - 1).0;
        let dy = direction(k - 1).1;
        let run = flanked(cells, x, y, dx, dy, player);
        let all = captured_upto(cells, x, y, player, k);
        assert(all == before + run);
        if all.contains(p) {
            let t = choose|t: int| 0 <= t < all.len() && all[t] == p;
            if t < before.len() {
                assert(before[t] == p);
                assert(before.contains(p));
                let (j, i) = choose|j: int, i: int| j < k - 1 && in_run(cells, x, y, player, j, i, p);
                assert(j < k && in_run(cells, x, y, player, j, i, p));
            } else {
                assert(run[t - before.len()] == p);
                assert(in_run(cells, x, y, player, k - 1, t - before.len() + 1, p));
            }
        }
        if exists|j: int, i: int| j < k && in_run(cells, x, y, player, j, i, p) {
            let (j, i) = choose|j: int, i: int| j < k && in_run(cells, x, y, player, j, i, p);
            if j < k - 1 {
                assert(before.contains(p));
                let t = choose|t: int| 0 <= t < before.len() && before[t] == p;
                assert(all[t] == p);
            } else {
                assert(run[i - 1] == p);
                assert(all[before.len() + i - 1] == p);
            }
        }
    } else {
        assert(captured_upto(cells, x, y, player, k).len() == 0);
    }
}

/// No cell is captured twice.
pub proof fn lemma_captured_no_duplicates(cells: Cells, x: int, y: int, player: u8, k: int)
    requires
        0 <= k <= 8,
    ensures
        captured_upto(cells, x, y, player, k).no_duplicates(),
    decreases k,
{
    if k > 0 {
        lemma_captured_no_duplicates(cells, x, y, player, k - 1);
        let before = captured_upto(cells, x, y, player, k - 1);
        let dx = direction(k - 1).0;
        let dy = direction(k - 1).1;
        let run = flanked(cells, x, y, dx, dy, player);
        assert forall|a: int, b: int| 0 <= a < run.len() && 0 <= b < run.len() && a != b implies run[a]
            != run[b] by {
            lemma_run_cells(cells, x, y, player, k - 1, a + 1, run[a]);
            lemma_run_cells(cells, x, y, player, k - 1, b + 1, run[b]);
            lemma_rays_apart(x, y, k - 1, a + 1, k - 1, b + 1);
        }
        assert forall|a: int, b: int| 0 <= a < before.len() && 0 <= b < run.len() implies before[a]
            != run[b] by {
            let p = before[a];
            assert(before.contains(p));
            lemma_captured_members(cells, x, y, player, k - 1, p);
            let (j, i) = choose|j: int, i: int| j < k - 1 && in_run(cells, x, y, player, j, i, p);
            lemma_run_cells(cells, x, y, player, j, i, p);
            lemma_run_cells(cells, x, y, player, k - 1, b + 1, run[b]);
            lemma_rays_apart(x, y, j, i, k - 1, b + 1);
        }
        vstd::seq_lib::lemma_no_dup_in_concat(before, run);
    }
}

/// Nothing is captured exactly when no direction holds a bracketed run.
pub proof fn lemma_captured_none(cells: Cells, x: int, y: int, player: u8)
    ensures
        captured(cells, x, y, player).len() == 0 <==> forall|j: int|
            0 <= j < 8 ==> flank_len(cells, x, y, #[trigger] direction(j).0, direction(j).1, player)
                == 0,
{
    let all = captured(cells, x, y, player);
    if all.len() > 0 {
        let p = all[0];
        assert(all.contains(p));
        lemma_captured_members(cells, x, y, player, 8, p);
        let (j, i) = choose|j: int, i: int| j < 8 && in_run(cells, x, y, player, j, i, p);
        assert(flank_len(cells, x, y, direction(j).0, direction(j).1, player) > 0);
    }
    if exists|j: int|
        0 <= j < 8 && flank_len(cells, x, y, #[trigger] direction(j).0, direction(j).1, player) != 0 {
        let j = choose|j: int|
            0 <= j < 8 && flank_len(cells, x, y, #[trigger] direction(j).0, direction(j).1, player)
                != 0;
        let dx = direction(j).0;
        let dy = direction(j).1;
        let n = flank_len(cells, x, y, dx, dy, player);
        assert(brackets(cells, x, y, dx, dy, player, n));
        let p = cell_at(x, y, dx, dy, 1);
        assert(in_run(cells, x, y, player, j, 1, p));
        lemma_captured_members(cells, x, y, player, 8, p);
    }
}

/// The runs of the first directions are a prefix of those of more
/// directions.
pub proof fn lemma_captured_grows(cells: Cells, x: int, y: int, player: u8, j: int, k: int)
    requires
        0 <= j <= k,
    ensures
        captured_upto(cells, x, y, player, j).len() <= captured_upto(cells, x, y, player, k).len(),
    decreases k - j,
{
    if j < k {
        lemma_captured_grows(cells, x, y, player, j, k - 1);
    }
}

/// The coordinate `i` steps of `d` from `c`, unless that leaves the board.
fn shifted(c: usize, d: i8, i: usize) -> (r: Option<usize>)
    requires
        c < BOARD_SIZE,
        i <= BOARD_SIZE,
        -1 <= d <= 1,
    ensures
        match r {
            Some(v) => v == offset(c as int, d as int, i as int) && v < BOARD_SIZE,
            None => !(0 <= offset(c as int, d as int, i as int) < BOARD_SIZE),
        },
{
    if d > 0 {
        if c + i < BOARD_SIZE {
            Some(c + i)
        } else {
            None
        }
    } else if d < 0 {
        if c >= i {
            Some(c - i)
        } else {
            None
        }
    } else {
        Some(c)
    }
}

/// The `k`-th of the eight directions.
fn direction_of(k: usize) -> (d: (i8, i8))
    requires
        k < 8,
    ensures
        (d.0 as int, d.1 as int) == direction(k as int),
        is_direction(d.0 as int, d.1 as int),
{
    if k == 0 {
        (1, 0)
    } else if k == 1 {
        (-1, 0)
    } else if k == 2 {
        (0, 1)
    } else if k == 3 {
        (0, -1)
    } else if k == 4 {
        (1, 1)
    } else if k == 5 {
        (-1, -1)
    } else if k == 6 {
        (1, -1)
    } else {
        (-1, 1)
    }
}

impl Board {
    /// What the cell `i` steps from `(x, y)` holds, if there is such a cell.
    fn peek(&self, x: usize, y: usize, dx: i8, dy: i8, i: usize) -> (v: Option<u8>)
        requires
            on_board(x as int, y as int),
            -1 <= dx <= 1,
            -1 <= dy <= 1,
            i <= BOARD_SIZE,
        ensures
            match v {
                Some(c) => along(self@, x as int, y as int, dx as int, dy as int, i as int, c),
                None => !on_board(offset(x as int, dx as int, i as int), offset(y as int, dy as int, i as int)),
            },
    {
        match shifted(x, dx, i) {
            Some(cx) => match shifted(y, dy, i) {
                Some(cy) => Some(self.0[cy][cx]),
                None => None,
            },
            None => None,
        }
    }

    /// Walks from `(x, y)` in one direction over the opponent's pieces and
    /// says how many of them a piece of `player` placed at `(x, y)` brackets.
    fn flank_length(&self, x: usize, y: usize, dx: i8, dy: i8, player: u8) -> (n: usize)
        requires
            on_board(x as int, y as int),
            is_direction(dx as int, dy as int),
            player == 1 || player == 2,
        ensures
            n == flank_len(self@, x as int, y as int, dx as int, dy as int, player),
            n < BOARD_SIZE,
            n > 0 ==> brackets(self@, x as int, y as int, dx as int, dy as int, player, n as int),
    {
        let opponent = 3 - player;
        let mut n: usize = 0;
        loop
            invariant
                n < BOARD_SIZE,
                on_board(x as int, y as int),
                is_direction(dx as int, dy as int),
                player == 1 || player == 2,
                opponent == opponent_of(player),
                forall|i: int|
                    1 <= i <= n ==> #[trigger] along(
                        self@,
                        x as int,
                        y as int,
                        dx as int,
                        dy as int,
                        i,
                        opponent,
                    ),
            decreases BOARD_SIZE - n,
        {
            let next = self.peek(x, y, dx, dy, n + 1);
            match next {
                Some(v) => {
                    if v == opponent {
                        n = n + 1;
                    } else {
                        proof {
                            lemma_run_decides(
                                self@,
                                x as int,
                                y as int,
                                dx as int,
                                dy as int,
                                player,
                                n as int,
                            );
                        }
                        if v == player {
                            return n;
                        } else {
                            return 0;
                        }
                    }
                },
                None => {
                    proof {
                        lemma_run_decides(
                            self@,
                            x as int,
                            y as int,
                            dx as int,
                            dy as int,
                            player,
                            n as int,
                        );
                    }
                    return 0;
                },
            }
        }
    }

    /// Scans the eight directions from `(x, y)` for runs that a piece of
    /// `player` placed there brackets. With `do_capture` it returns the
    /// cells of all those runs and `false`; without, it returns no cells and
    /// whether there is such a run at all.
    pub fn may_capture(&self, x: usize, y: usize, player: u8, do_capture: bool) -> (found: (
        Vec<Piece>,
        bool,
    ))
        requires
            on_board(x as int, y as int),
            player == 1 || player == 2,
        ensures
            do_capture ==> found.0@ == captured(self@, x as int, y as int, player) && !found.1,
            !do_capture ==> found.0@.len() == 0 && found.1 == (captured(
                self@,
                x as int,
                y as int,
                player,
            ).len() > 0),
    {
        let mut flipped: Vec<Piece> = Vec::new();
        let mut k: usize = 0;
        while k < 8
            invariant
                k <= 8,
                on_board(x as int, y as int),
                player == 1 || player == 2,
                do_capture ==> flipped@ == captured_upto(self@, x as int, y as int, player, k as int),
                !do_capture ==> flipped@.len() == 0 && captured_upto(
                    self@,
                    x as int,
                    y as int,
                    player,
                    k as int,
                ).len() == 0,
            decreases 8 - k,
        {
            let (dx, dy) = direction_of(k);
            let n = self.flank_length(x, y, dx, dy, player);
            let ghost run = flanked(self@, x as int, y as int, dx as int, dy as int, player);
            let ghost base = flipped@;
            if n > 0 {
                if do_capture {
                    let mut i: usize = 1;
                    while i <= n
                        invariant
                            1 <= i <= n + 1,
                            n < BOARD_SIZE,
                            on_board(x as int, y as int),
                            is_direction(dx as int, dy as int),
                            brackets(self@, x as int, y as int, dx as int, dy as int, player, n as int),
                            run == flanked(self@, x as int, y as int, dx as int, dy as int, player),
                            run.len() == n,
                            flipped@ == base + run.take(i - 1),
                        decreases n + 1 - i,
                    {
                        assert(along(
                            self@,
                            x as int,
                            y as int,
                            dx as int,
                            dy as int,
                            i as int,
                            opponent_of(player),
                        ));
                        let cx = shifted(x, dx, i);
                        let cy = shifted(y, dy, i);
                        flipped.push(Piece { x: cx.unwrap(), y: cy.unwrap() });
                        assert(run.take(i as int) =~= run.take(i - 1).push(run[i - 1]));
                        assert(flipped@ =~= base + run.take(i as int));
                        i = i + 1;
                    }
                    assert(run.take(n as int) =~= run);
                } else {
                    proof {
                        lemma_captured_grows(self@, x as int, y as int, player, k + 1, 8);
                    }
                    return (flipped, true);
                }
            } else {
                assert(base + run =~= base);
            }
            k = k + 1;
        }
        (flipped, false)
    }

    /// Whether a piece of `player` placed at `(x, y)` would capture anything.
    pub fn can_capture(&self, x: usize, y: usize, player: u8) -> (any: bool)
        requires
            on_board(x as int, y as int),
            player == 1 || player == 2,
        ensures
            any == (captured(self@, x as int, y as int, player).len() > 0),
    {
        self.may_capture(x, y, player, false).1
    }

    /// The cells that a piece of `player` placed at `(x, y)` captures. The
    /// board itself stays as it is.
    pub fn do_capture(&mut self, x: usize, y: usize, player: u8) -> (taken: Vec<Piece>)
        requires
            on_board(x as int, y as int),
            player == 1 || player == 2,
        ensures
            taken@ == captured(old(self)@, x as int, y as int, player),
            *final(self) == *old(self),
    {
        self.may_capture(x, y, player, true).0
    }
}

} // verus!
