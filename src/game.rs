use vstd::prelude::*;

use crate::matrix::{Matrix, is_default};

verus! {

/// Rows of the board of a new game.
pub const BOARD_ROWS: usize = 4;

/// Columns of the board of a new game.
pub const BOARD_COLS: usize = 4;

/// A direction in which the tiles can be slid.
pub enum Direction {
    Left,
    Right,
    Up,
    Down,
}

/// A game played by sliding tiles, with a score of type `S`.
pub trait Game<S> {
    /// The score of the game.
    fn score(&self) -> S;

    /// The game after a slide in direction `dir`.
    fn slide(self, dir: Direction) -> Self;
}

/// Sum of the values in `s`.
pub open spec fn total(s: Seq<u32>) -> int
    decreases s.len(),
{
    if s.len() == 0 {
        0
    } else {
        total(s.drop_last()) + s.last()
    }
}

/// A prefix never sums to more than the whole.
proof fn lemma_total_prefix(s: Seq<u32>, k: int)
    requires
        0 <= k <= s.len(),
    ensures
        0 <= total(s.take(k)) <= total(s),
    decreases s.len(),
{
    if s.len() > 0 {
        if k == s.len() {
            assert(s.take(k) == s);
            lemma_total_prefix(s.drop_last(), k - 1);
            assert(s.drop_last().take(k - 1) == s.drop_last());
        } else {
            lemma_total_prefix(s.drop_last(), k);
            assert(s.drop_last().take(k) == s.take(k));
        }
    }
}

/// Values that are all zero sum to zero.
proof fn lemma_total_zero(s: Seq<u32>)
    requires
        forall|k: int| 0 <= k < s.len() ==> s[k] == 0,
    ensures
        total(s) == 0,
    decreases s.len(),
{
    if s.len() > 0 {
        lemma_total_zero(s.drop_last());
    }
}

/// A sliding game on a board of `u32` tiles.
pub struct SlideGame {
    board: Matrix<u32>,
    turns: usize,
}

impl SlideGame {
    /// The board has the game's shape and its tiles sum to a `u32`.
    #[verifier::type_invariant]
    spec fn inv(self) -> bool {
        &&& self.board.wf()
        &&& self.board.nrows() == BOARD_ROWS
        &&& self.board.ncols() == BOARD_COLS
        &&& total(self.board.cells()) <= u32::MAX
    }

    /// The tiles of the board, in row-major order.
    pub closed spec fn tiles(self) -> Seq<u32> {
        self.board.cells()
    }

    /// Number of slides made so far.
    pub closed spec fn turn_count(self) -> nat {
        self.turns as nat
    }

    /// A board of the game's shape with every tile `0`.
    fn empty_board() -> (r: Matrix<u32>)
        ensures
            r.wf(),
            r.nrows() == BOARD_ROWS,
            r.ncols() == BOARD_COLS,
            forall|k: int| 0 <= k < r.cells().len() ==> #[trigger] r.cells()[k] == 0,
    {
        let r = Matrix::<u32>::new(BOARD_ROWS, BOARD_COLS);
        proof {
            assert forall|k: int| 0 <= k < r.cells().len() implies #[trigger] r.cells()[k] == 0 by {
                crate::views::lemma_row_major(BOARD_ROWS as int, BOARD_COLS as int, k);
                let c = BOARD_COLS as int;
                assert(is_default(r.at(k / c, k % c)));
            }
            lemma_total_zero(r.cells());
        }
        r
    }
}

impl Default for SlideGame {
    /// A new game: a board of `0` tiles, and no slide made yet.
    fn default() -> (r: Self)
        ensures
            r.turn_count() == 0,
            r.tiles().len() == BOARD_ROWS * BOARD_COLS,
            forall|k: int| 0 <= k < r.tiles().len() ==> #[trigger] r.tiles()[k] == 0,
    {
        let board = Self::empty_board();
        proof {
            lemma_total_zero(board.cells());
        }
        SlideGame { board, turns: 0 }
    }
}

impl Game<u32> for SlideGame {
    /// The sum of the tiles.
    fn score(&self) -> (r: u32)
        ensures
            r == total(self.tiles()),
    {
        proof {
            use_type_invariant(self);
        }
        let mut it = self.board.iter();
        let mut sum: u32 = 0;
        let ghost n = self.board.cells().len();
        loop
            invariant
                it.wf(),
                it.source() == self.board,
                self.board.wf(),
                n == self.board.cells().len(),
                n == self.board.nrows() * self.board.ncols(),
                total(self.board.cells()) <= u32::MAX,
                it.pos() <= n,
                sum == total(self.board.cells().take(it.pos() as int)),
            ensures
                sum == total(self.board.cells()),
            decreases n - it.pos(),
        {
            let ghost k = it.pos() as int;
            match it.next() {
                Some(v) => {
                    proof {
                        let s = self.board.cells();
                        assert(s.take(k + 1).drop_last() == s.take(k));
                        lemma_total_prefix(s, k + 1);
                    }
                    sum = sum + *v;
                },
                None => {
                    assert(self.board.cells().take(n as int) == self.board.cells());
                    break;
                },
            }
        }
        sum
    }

    /// The game after a slide: the tiles of a fresh board moved by
    /// `dir`, and one more turn.
    fn slide(self, dir: Direction) -> (r: Self)
        ensures
            r.turn_count() == if self.turn_count() < usize::MAX {
                self.turn_count() + 1
            } else {
                self.turn_count()
            },
            forall|k: int| 0 <= k < r.tiles().len() ==> #[trigger] r.tiles()[k] == 0,
    {
        proof {
            use_type_invariant(&self);
        }
        let mut buf = Self::empty_board();
        match dir {
            Direction::Left => slide_left(&self.board, &mut buf),
            Direction::Right => slide_right(&self.board, &mut buf),
            Direction::Up => slide_up(&self.board, &mut buf),
            Direction::Down => slide_down(&self.board, &mut buf),
        }
        proof {
            lemma_total_zero(buf.cells());
        }
        SlideGame { board: buf, turns: self.turns.saturating_add(1) }
    }
}

/// Slides the tiles of `source` left into `dest`. The merge rule is not
/// settled yet: `dest` is left as it is.
fn slide_left(source: &Matrix<u32>, dest: &mut Matrix<u32>)
    ensures
        *final(dest) == *old(dest),
{
}

/// Slides the tiles of `source` right into `dest`. The merge rule is not
/// settled yet: `dest` is left as it is.
fn slide_right(source: &Matrix<u32>, dest: &mut Matrix<u32>)
    ensures
        *final(dest) == *old(dest),
{
}

/// Slides the tiles of `source` up into `dest`. The merge rule is not
/// settled yet: `dest` is left as it is.
fn slide_up(source: &Matrix<u32>, dest: &mut Matrix<u32>)
    ensures
        *final(dest) == *old(dest),
{
}

/// Slides the tiles of `source` down into `dest`. The merge rule is not
/// settled yet: `dest` is left as it is.
fn slide_down(source: &Matrix<u32>, dest: &mut Matrix<u32>)
    ensures
        *final(dest) == *old(dest),
{
}

} // verus!
