use crate::line::{slid_left, slid_right, squash_line, total, BoardLine};
use crate::rng::{next_draw, seeded_rng};
use vstd::prelude::*;

verus! {

/// The 4×4 board: four rows of four tile values, `0` for an empty cell.
pub type Board = [BoardLine; 4];

/// The board as four rows of values.
pub open spec fn grid(b: Board) -> Seq<Seq<u16>> {
    Seq::new(4, |i: int| b[i]@)
}

/// The sum of all values on the board.
pub open spec fn board_total(b: Board) -> int {
    total(b[0]@) + total(b[1]@) + total(b[2]@) + total(b[3]@)
}

/// The board has a cell holding `v`.
pub open spec fn holds_value(b: Board, v: u16) -> bool {
    exists|i: int, j: int| 0 <= i < 4 && 0 <= j < 4 && #[trigger] b[i][j] == v
}

/// The board has an empty cell.
pub open spec fn has_empty(b: Board) -> bool {
    holds_value(b, 0)
}

/// `new` is `old` with one of its empty cells, at row `i` and column `j`, set to `2`.
pub open spec fn spawned_at(old: Board, new: Board, i: int, j: int) -> bool {
    &&& 0 <= i < 4
    &&& 0 <= j < 4
    &&& old[i][j] == 0
    &&& grid(new) == grid(old).update(i, grid(old)[i].update(j, 2))
}

/// `new` is `old` with one of its empty cells set to `2`.
pub open spec fn spawned(old: Board, new: Board) -> bool {
    exists|i: int, j: int| spawned_at(old, new, i, j)
}

/// A board rotated a quarter turn: the last column becomes the first row.
pub open spec fn rotated(g: Seq<Seq<u16>>) -> Seq<Seq<u16>> {
    Seq::new(4, |r: int| Seq::new(4, |c: int| g[3 - c][r]))
}

/// Every value on the board can be doubled within `u16`.
pub open spec fn board_doubles_fit(b: Board) -> bool {
    forall|i: int, j: int| 0 <= i < 4 && 0 <= j < 4 ==> #[trigger] b[i][j] < 0x8000
}

/// Whether the board has an empty cell.
pub fn has_empty_cell(board: &Board) -> (r: bool)
    ensures
        r == has_empty(*board),
{
    let mut i: usize = 0;
    while i < 4
        invariant
            i <= 4,
            forall|a: int, c: int| 0 <= a < i && 0 <= c < 4 ==> #[trigger] board[a][c] != 0,
        decreases 4 - i,
    {
        let row = board[i];
        let mut j: usize = 0;
        while j < 4
            invariant
                i < 4,
                j <= 4,
                row == board[i as int],
                forall|c: int| 0 <= c < j ==> #[trigger] row[c] != 0,
            decreases 4 - j,
        {
            if row[j] == 0 {
                assert(board[i as int][j as int] == 0);
                return true;
            }
            j = j + 1;
        }
        i = i + 1;
    }
    false
}

proof fn lemma_total_prefix(s: Seq<u16>, j: int)
    requires
        0 <= j < s.len(),
    ensures
        total(s.subrange(0, j + 1)) == total(s.subrange(0, j)) + s[j],
{
    let a = s.subrange(0, j);
    let b = seq![s[j]];
    assert(s.subrange(0, j + 1) =~= a + b);
    crate::line::lemma_total_add(a, b);
    crate::line::lemma_single(s[j]);
}

/// The sum of all values on the board.
pub fn board_sum(board: &Board) -> (r: u64)
    ensures
        r == board_total(*board),
{
    let mut sum: u64 = 0;
    let mut i: usize = 0;
    while i < 4
        invariant
            i <= 4,
            sum <= i * 0x40000,
            sum == (if i > 0 { total(board[0]@) } else { 0 }) + (if i > 1 { total(board[1]@) } else { 0 })
                + (if i > 2 { total(board[2]@) } else { 0 }) + (if i > 3 { total(board[3]@) } else { 0 }),
        decreases 4 - i,
    {
        let row = board[i];
        let mut row_sum: u64 = 0;
        let mut j: usize = 0;
        while j < 4
            invariant
                j <= 4,
                row_sum <= j * 0x10000,
                row_sum == total(row@.subrange(0, j as int)),
            decreases 4 - j,
        {
            proof {
                lemma_total_prefix(row@, j as int);
            }
            row_sum = row_sum + row[j] as u64;
            j = j + 1;
        }
        assert(row@.subrange(0, 4) =~= row@);
        sum = sum + row_sum;
        i = i + 1;
    }
    sum
}

/// How many cells a spawn draws at random before it takes the first empty
/// cell in reading order.
pub const MAX_DRAWS: u32 = 1000;

/// A tile was asked for on a board without an empty cell.
#[derive(Debug, Clone, Copy, PartialEq, Eq)]
pub struct BoardFullError;

/// The board with the cell at row `i` and column `j` set to `v`.
fn set_cell(board: &mut Board, i: usize, j: usize, v: u16)
    requires
        i < 4,
        j < 4,
    ensures
        grid(*final(board)) == grid(*old(board)).update(i as int, grid(*old(board))[i as int].update(j as int, v)),
        forall|r: int, c: int| 0 <= r < 4 && 0 <= c < 4 ==> #[trigger] final(board)[r][c] == (if r == i && c == j {
            v
        } else {
            old(board)[r][c]
        }),
{
    let mut row = board[i];
    row[j] = v;
    board[i] = row;
    assert(grid(*board) =~= grid(*old(board)).update(i as int, grid(*old(board))[i as int].update(j as int, v)));
}

/// Places a `2` at the cell that two drawn numbers pick, row `i % 4` and
/// column `j % 4`, if that cell is empty; returns whether it was.
pub fn place_tile(board: &mut Board, i: u32, j: u32) -> (placed: bool)
    ensures
        placed == (old(board)[(i % 4) as int][(j % 4) as int] == 0),
        placed ==> spawned_at(*old(board), *final(board), (i % 4) as int, (j % 4) as int),
        !placed ==> *final(board) == *old(board),
{
    let r = (i % 4) as usize;
    let c = (j % 4) as usize;
    if board[r][c] == 0 {
        set_cell(board, r, c, 2);
        true
    } else {
        false
    }
}

/// Places a `2` at the first empty cell in reading order.
fn fill_first_empty(board: &mut Board)
    requires
        has_empty(*old(board)),
    ensures
        spawned(*old(board), *final(board)),
{
    let mut i: usize = 0;
    while i < 4
        invariant
            i <= 4,
            *board == *old(board),
            has_empty(*board),
            forall|a: int, c: int| 0 <= a < i && 0 <= c < 4 ==> #[trigger] board[a][c] != 0,
        decreases 4 - i,
    {
        let mut j: usize = 0;
        while j < 4
            invariant
                i < 4,
                j <= 4,
                *board == *old(board),
                forall|c: int| 0 <= c < j ==> #[trigger] board[i as int][c] != 0,
            decreases 4 - j,
        {
            if board[i][j] == 0 {
                set_cell(board, i, j, 2);
                assert(spawned_at(*old(board), *board, i as int, j as int));
                return;
            }
            j = j + 1;
        }
        i = i + 1;
    }
    assert(false);
}

/// Places a `2` on an empty cell that a generator seeded with `seed` picks;
/// fails, leaving the board as it is, when no cell is empty.
pub fn add_random_tile(board: &mut Board, seed: u64) -> (r: Result<(), BoardFullError>)
    ensures
        r is Ok <==> has_empty(*old(board)),
        r is Ok ==> spawned(*old(board), *final(board)),
        r is Err ==> *final(board) == *old(board),
{
    if !has_empty_cell(board) {
        return Err(BoardFullError);
    }
    let mut rng = seeded_rng(seed);
    let mut draws: u32 = 0;
    while draws < MAX_DRAWS
        invariant
            *board == *old(board),
            has_empty(*board),
        decreases MAX_DRAWS - draws,
    {
        let i = next_draw(&mut rng);
        let j = next_draw(&mut rng);
        if place_tile(board, i, j) {
            return Ok(());
        }
        draws = draws + 1;
    }
    fill_first_empty(board);
    Ok(())
}

/// A 2048 game: the board and the seed that the spawns draw from.
pub struct Game {
    pub board: Board,
    /// The seed of the next spawn, before the board's sum is added to it.
    pub rng_seed: u64,
}

impl Game {
    /// An empty board with seed `0`.
    pub fn create() -> (g: Self)
        ensures
            forall|i: int, j: int| 0 <= i < 4 && 0 <= j < 4 ==> #[trigger] g.board[i][j] == 0,
            g.rng_seed == 0,
    {
        Self { board: [[0; 4]; 4], rng_seed: 0 }
    }

    /// Adds the board's sum to the seed (wrapping at `u64`) and places a `2` on
    /// an empty cell drawn from it; fails, changing nothing, on a full board.
    pub fn add_tile(&mut self) -> (r: Result<(), BoardFullError>)
        ensures
            r is Ok <==> has_empty(old(self).board),
            r is Ok ==> spawned(old(self).board, final(self).board),
            r is Ok ==> final(self).rng_seed == (old(self).rng_seed + board_total(old(self).board)) % 0x1_0000_0000_0000_0000,
            r is Err ==> *final(self) == *old(self),
    {
        if !has_empty_cell(&self.board) {
            return Err(BoardFullError);
        }
        let sum = board_sum(&self.board);
        self.rng_seed = self.rng_seed.wrapping_add(sum);
        add_random_tile(&mut self.board, self.rng_seed)
    }

    /// Moves every row towards its first cell, merging equal neighbours once.
    pub fn move_left(&mut self)
        requires
            board_doubles_fit(old(self).board),
        ensures
            forall|i: int| 0 <= i < 4 ==> #[trigger] final(self).board[i]@ == slid_left(old(self).board[i]@),
            final(self).rng_seed == old(self).rng_seed,
    {
        let mut i: usize = 0;
        while i < 4
            invariant
                i <= 4,
                self.rng_seed == old(self).rng_seed,
                forall|k: int| 0 <= k < i ==> #[trigger] self.board[k]@ == slid_left(old(self).board[k]@),
                forall|k: int| i <= k < 4 ==> #[trigger] self.board[k] == old(self).board[k],
                board_doubles_fit(old(self).board),
            decreases 4 - i,
        {
            let mut line = self.board[i];
            assert(crate::line::doubles_fit(line@)) by {
                assert forall|c: int| 0 <= c < line@.len() implies line@[c] < 0x8000 by {
                    assert(old(self).board[i as int][c] < 0x8000);
                }
            }
            squash_line(&mut line);
            self.board[i] = line;
            i = i + 1;
        }
    }

    /// Moves every row towards its last cell, merging equal neighbours once:
    /// the mirror of `move_left`.
    pub fn move_right(&mut self)
        requires
            board_doubles_fit(old(self).board),
        ensures
            forall|i: int| 0 <= i < 4 ==> #[trigger] final(self).board[i]@ == slid_right(old(self).board[i]@),
            final(self).rng_seed == old(self).rng_seed,
    {
        let mut i: usize = 0;
        while i < 4
            invariant
                i <= 4,
                self.rng_seed == old(self).rng_seed,
                forall|k: int| 0 <= k < i ==> #[trigger] self.board[k]@ == slid_right(old(self).board[k]@),
                forall|k: int| i <= k < 4 ==> #[trigger] self.board[k] == old(self).board[k],
                board_doubles_fit(old(self).board),
            decreases 4 - i,
        {
            let mut line = reversed(&self.board[i]);
            assert(crate::line::doubles_fit(line@)) by {
                assert forall|c: int| 0 <= c < line@.len() implies line@[c] < 0x8000 by {
                    assert(old(self).board[i as int][3 - c] < 0x8000);
                }
            }
            squash_line(&mut line);
            let line = reversed(&line);
            self.board[i] = line;
            i = i + 1;
        }
    }

    /// Turns the board a quarter: the last column becomes the first row.
    pub fn rotate(&mut self)
        ensures
            grid(final(self).board) == rotated(grid(old(self).board)),
            final(self).rng_seed == old(self).rng_seed,
    {
        let mut new_board: Board = [[0; 4]; 4];
        let mut i: usize = 0;
        while i < 4
            invariant
                i <= 4,
                forall|r: int, c: int| 0 <= r < 4 && 4 - i <= c < 4 ==> #[trigger] new_board[r][c] == self.board[3 - c][r],
            decreases 4 - i,
        {
            let mut j: usize = 0;
            while j < 4
                invariant
                    i < 4,
                    j <= 4,
                    forall|r: int, c: int| 0 <= r < 4 && 4 - i <= c < 4 ==> #[trigger] new_board[r][c] == self.board[3 - c][r],
                    forall|r: int| 0 <= r < j ==> #[trigger] new_board[r][3 - i as int] == self.board[i as int][r],
                decreases 4 - j,
            {
                set_cell(&mut new_board, j, 3 - i, self.board[i][j]);
                j = j + 1;
            }
            assert forall|r: int, c: int| 0 <= r < 4 && 4 - (i + 1) <= c < 4 implies #[trigger] new_board[r][c] == self.board[3 - c][r] by {
                if c == 3 - i {
                    assert(new_board[r][3 - i as int] == self.board[i as int][r]);
                }
            }
            i = i + 1;
        }
        let ghost g = rotated(grid(self.board));
        self.board = new_board;
        assert forall|r: int| 0 <= r < 4 implies grid(self.board)[r] =~= g[r] by {
            assert forall|c: int| 0 <= c < 4 implies grid(self.board)[r][c] == g[r][c] by {
                assert(new_board[r][c] == old(self).board[3 - c][r]);
            }
        }
        assert(grid(self.board) =~= rotated(grid(old(self).board)));
    }

    /// `Some(true)` when a cell holds 2048, else `None` while a cell is empty,
    /// else `Some(false)`.
    pub fn check_win_loss(&self) -> (r: Option<bool>)
        ensures
            r == (if holds_value(self.board, 2048) {
                Some(true)
            } else if has_empty(self.board) {
                None
            } else {
                Some(false)
            }),
    {
        let mut has_empty_seen = false;
        let mut i: usize = 0;
        while i < 4
            invariant
                i <= 4,
                forall|a: int, c: int| 0 <= a < i && 0 <= c < 4 ==> #[trigger] self.board[a][c] != 2048,
                has_empty_seen == exists|a: int, c: int| 0 <= a < i && 0 <= c < 4 && #[trigger] self.board[a][c] == 0,
            decreases 4 - i,
        {
            let mut j: usize = 0;
            while j < 4
                invariant
                    i < 4,
                    j <= 4,
                    forall|a: int, c: int| 0 <= a < i && 0 <= c < 4 ==> #[trigger] self.board[a][c] != 2048,
                    forall|c: int| 0 <= c < j ==> #[trigger] self.board[i as int][c] != 2048,
                    has_empty_seen == exists|a: int, c: int| ((0 <= a < i && 0 <= c < 4) || (a == i && 0 <= c < j)) && #[trigger] self.board[a][c] == 0,
                decreases 4 - j,
            {
                let v = self.board[i][j];
                if v == 2048 {
                    assert(self.board[i as int][j as int] == 2048);
                    return Some(true);
                }
                if v == 0 {
                    assert(self.board[i as int][j as int] == 0);
                    has_empty_seen = true;
                }
                j = j + 1;
            }
            i = i + 1;
        }
        if has_empty_seen {
            None
        } else {
            Some(false)
        }
    }
}

/// The row read from its last cell to its first.
fn reversed(line: &BoardLine) -> (r: BoardLine)
    ensures
        r@ == line@.reverse(),
{
    let r = [line[3], line[2], line[1], line[0]];
    assert(r@ =~= line@.reverse());
    r
}

/// Four quarter turns give back the board that they started from.
pub proof fn lemma_rotate_four_times(b: Board)
    ensures
        rotated(rotated(rotated(rotated(grid(b))))) == grid(b),
{
    let g = grid(b);
    let g4 = rotated(rotated(rotated(rotated(g))));
    assert forall|r: int| 0 <= r < 4 implies g4[r] =~= g[r] by {
        assert forall|c: int| 0 <= c < 4 implies g4[r][c] == g[r][c] by {
            assert(rotated(rotated(g))[3 - c][3 - r] == g[c][r]);
        }
    }
    assert(g4 =~= g);
}

proof fn lemma_total_update(s: Seq<u16>, j: int, v: u16)
    requires
        0 <= j < s.len(),
    ensures
        total(s.update(j, v)) == total(s) - s[j] + v,
{
    let a = s.subrange(0, j);
    let z = s.subrange(j + 1, s.len() as int);
    assert(s =~= a + seq![s[j]] + z);
    assert(s.update(j, v) =~= a + seq![v] + z);
    crate::line::lemma_total_add(a + seq![s[j]], z);
    crate::line::lemma_total_add(a, seq![s[j]]);
    crate::line::lemma_total_add(a + seq![v], z);
    crate::line::lemma_total_add(a, seq![v]);
    crate::line::lemma_single(s[j]);
    crate::line::lemma_single(v);
}

/// A spawn adds exactly 2 to the sum of the board.
pub proof fn lemma_spawn_adds_two(before: Board, after: Board)
    requires
        spawned(before, after),
    ensures
        board_total(after) == board_total(before) + 2,
{
    let (i, j) = choose|i: int, j: int| spawned_at(before, after, i, j);
    assert(grid(after)[i] == grid(before)[i].update(j, 2));
    lemma_total_update(before[i]@, j, 2);
    assert forall|k: int| 0 <= k < 4 && k != i implies after[k]@ == before[k]@ by {
        assert(grid(after)[k] == grid(before)[k]);
    }
}

/// On an empty board a spawn leaves exactly one tile, a `2`, and a second
/// spawn brings the sum of the board to `4`.
pub proof fn lemma_two_spawns_from_empty(b0: Board, b1: Board, b2: Board)
    requires
        forall|i: int, j: int| 0 <= i < 4 && 0 <= j < 4 ==> #[trigger] b0[i][j] == 0,
        spawned(b0, b1),
        spawned(b1, b2),
    ensures
        exists|i: int, j: int|
            0 <= i < 4 && 0 <= j < 4 && #[trigger] b1[i][j] == 2 && forall|a: int, c: int|
                0 <= a < 4 && 0 <= c < 4 && (a != i || c != j) ==> #[trigger] b1[a][c] == 0,
        board_total(b1) == 2,
        board_total(b2) == 4,
{
    let (i, j) = choose|i: int, j: int| spawned_at(b0, b1, i, j);
    assert forall|a: int, c: int| 0 <= a < 4 && 0 <= c < 4 implies #[trigger] b1[a][c] == (if a == i && c == j { 2u16 } else { 0u16 }) by {
        assert(grid(b1)[a][c] == b1[a][c]);
    }
    assert(b1[i][j] == 2);
    assert forall|k: int| 0 <= k < 4 implies crate::line::total(b0[k]@) == 0 by {
        crate::line::lemma_total_zeros(b0[k]@);
    }
    lemma_spawn_adds_two(b0, b1);
    lemma_spawn_adds_two(b1, b2);
}

} // verus!
