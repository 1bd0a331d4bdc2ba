//! Threshold matrices: square grids of random thresholds that tile an image.
//!
//! A threshold is a fixed-point number with 24 fractional bits, held in a
//! `u32`: the value `t` stands for `t / 2^24`, so thresholds range over
//! `[0, 256)` in steps of `2^-24`. A generated threshold is a random
//! fraction of 24 bits times 255, and so lies in `[0, 255)`.

use vstd::prelude::*;
use crate::entropy::{next_word, thread_rng};
use crate::error::DitherError;

verus! {

/// The threshold 1.0 in fixed point.
pub const ONE: u32 = 0x0100_0000;

/// The bound below which every generated threshold lies: 255.0 in fixed point.
pub const LIMIT: u32 = 0xff00_0000;

/// A grid is square and not empty.
pub open spec fn square(g: Seq<Seq<u32>>) -> bool {
    &&& g.len() >= 1
    &&& forall|i: int| 0 <= i < g.len() ==> (#[trigger] g[i]).len() == g.len()
}

/// The threshold that the tiled grid puts on the coordinate `(x, y)`.
pub open spec fn threshold_at(g: Seq<Seq<u32>>, x: int, y: int) -> u32 {
    g[x % (g.len() as int)][y % (g.len() as int)]
}

/// The grid `g` with each cell blown up into a block of `r` by `r` equal cells.
pub open spec fn replicated(g: Seq<Seq<u32>>, r: nat) -> Seq<Seq<u32>> {
    Seq::new(g.len() * r, |i: int| Seq::new(g.len() * r, |j: int| g[i / (r as int)][j / (r as int)]))
}

/// The threshold made from a random 32-bit word: the word's upper 24 bits,
/// read as a fraction in `[0, 1)`, times 255.
pub open spec fn scaled(word: u32) -> int {
    255 * (word / 256)
}

/// The `n` by `n` grid of the thresholds made from `n * n` random words,
/// row by row: the cell `[a][b]` comes of the word `a * n + b` and of no
/// other.
pub open spec fn grid_from_words(words: Seq<u32>, n: nat) -> Seq<Seq<u32>> {
    Seq::new(n, |a: int| Seq::new(n, |b: int| scaled(words[a * n + b]) as u32))
}

/// What holds of every matrix generated with dimension `n` and resolution `r`:
/// it has `n * r` rows of `n * r` thresholds, each threshold lies in
/// `[0, 255)`, and the cells of one `r` by `r` block are equal.
pub open spec fn generated(g: Seq<Seq<u32>>, n: nat, r: nat) -> bool {
    &&& g.len() == n * r
    &&& forall|i: int| 0 <= i < g.len() ==> (#[trigger] g[i]).len() == n * r
    &&& forall|i: int, j: int| 0 <= i < n * r && 0 <= j < n * r ==> #[trigger] g[i][j] < LIMIT
    &&& forall|i: int, j: int, k: int, l: int|
        0 <= i < n * r && 0 <= j < n * r && 0 <= k < n * r && 0 <= l < n * r
            && i / (r as int) == k / (r as int) && j / (r as int) == l / (r as int)
            ==> #[trigger] g[i][j] == #[trigger] g[k][l]
}

/// The rows of a vector of vectors, each as a sequence.
pub open spec fn grid_of(cells: Seq<Vec<u32>>) -> Seq<Seq<u32>> {
    Seq::new(cells.len(), |i: int| cells[i]@)
}

/// A square, non-empty grid of thresholds.
pub struct Matrix {
    cells: Vec<Vec<u32>>,
}

impl View for Matrix {
    type V = Seq<Seq<u32>>;

    closed spec fn view(&self) -> Seq<Seq<u32>> {
        grid_of(self.cells@)
    }
}

impl Matrix {
    #[verifier::type_invariant]
    spec fn inv(self) -> bool {
        square(self@)
    }

    /// Makes a matrix of the given rows, if they form a square.
    pub fn from_cells(cells: Vec<Vec<u32>>) -> (m: Option<Matrix>)
        ensures
            m.is_some() == square(grid_of(cells@)),
            m matches Some(mat) ==> mat@ == grid_of(cells@),
    {
        let n = cells.len();
        if n == 0 {
            return None;
        }
        let mut i: usize = 0;
        while i < n
            invariant
                n == cells@.len(),
                i <= n,
                forall|k: int| 0 <= k < i ==> (#[trigger] cells@[k])@.len() == n,
            decreases n - i,
        {
            if cells[i].len() != n {
                assert(grid_of(cells@)[i as int].len() != grid_of(cells@).len());
                return None;
            }
            i += 1;
        }
        assert(square(grid_of(cells@)));
        Some(Matrix { cells })
    }

    /// The number of rows, which is the number of columns.
    pub fn side(&self) -> (n: usize)
        ensures
            n == self@.len(),
            n >= 1,
            square(self@),
    {
        proof {
            use_type_invariant(self);
        }
        self.cells.len()
    }

    /// The threshold that the tiled matrix puts on the pixel at `(x, y)`.
    pub fn threshold(&self, x: u32, y: u32) -> (t: u32)
        ensures
            t == threshold_at(self@, x as int, y as int),
    {
        proof {
            use_type_invariant(self);
        }
        let n = self.cells.len();
        let i = x as usize % n;
        let j = y as usize % n;
        assert(self@[i as int].len() == n);
        self.cells[i][j]
    }

    /// Blows each cell up into a block of `mres` by `mres` equal cells.
    pub fn replicate(&self, mres: usize) -> (m: Matrix)
        requires
            mres >= 1,
            self@.len() * mres <= usize::MAX,
        ensures
            m@ == replicated(self@, mres as nat),
            square(m@),
    {
        proof {
            use_type_invariant(self);
        }
        let n = self.cells.len();
        let side = n * mres;
        assert(side >= 1) by (nonlinear_arith)
            requires
                side == n * mres,
                n >= 1,
                mres >= 1,
        ;
        let mut cells: Vec<Vec<u32>> = Vec::new();
        let mut i: usize = 0;
        while i < side
            invariant
                square(self@),
                self@ == grid_of(self.cells@),
                n == self.cells@.len(),
                mres >= 1,
                side == n * mres,
                i <= side,
                cells@.len() == i,
                forall|k: int| 0 <= k < i ==> (#[trigger] cells@[k])@ == replicated(self@, mres as nat)[k],
            decreases side - i,
        {
            proof {
                lemma_block_index(i as int, n as int, mres as int);
            }
            let src = &self.cells[i / mres];
            assert(src@ == self@[i as int / mres as int]);
            let mut row: Vec<u32> = Vec::new();
            let mut j: usize = 0;
            while j < side
                invariant
                    mres >= 1,
                    side == n * mres,
                    src@.len() == n,
                    j <= side,
                    row@.len() == j,
                    forall|l: int| 0 <= l < j ==> #[trigger] row@[l] == src@[l / mres as int],
                decreases side - j,
            {
                proof {
                    lemma_block_index(j as int, n as int, mres as int);
                }
                row.push(src[j / mres]);
                j += 1;
            }
            assert(row@ =~= replicated(self@, mres as nat)[i as int]);
            cells.push(row);
            i += 1;
        }
        assert(grid_of(cells@) =~= replicated(self@, mres as nat));
        Matrix { cells }
    }
}

/// An index below `n * r` falls into one of the `n` blocks of length `r`.
proof fn lemma_block_index(i: int, n: int, r: int)
    by (nonlinear_arith)
    requires
        0 <= i < n * r,
        r >= 1,
    ensures
        0 <= i / r < n,
{
}

/// Scales the upper 24 bits of a random word, read as a fraction in
/// `[0, 1)`, by 255.
pub fn threshold_from_word(word: u32) -> (t: u32)
    ensures
        t == scaled(word),
        t < LIMIT,
{
    255 * (word / 256)
}

/// Makes the matrix of dimension `msize` and resolution `mres` that the
/// given random words stand for: the word `a * msize + b` gives the
/// threshold of the logical cell `[a][b]`, which fills a block of `mres` by
/// `mres` cells.
pub fn matrix_from_words(words: &Vec<u32>, msize: usize, mres: usize) -> (m: Matrix)
    requires
        msize >= 1,
        mres >= 1,
        msize * mres <= usize::MAX,
        words@.len() == msize * msize,
    ensures
        m@ == replicated(grid_from_words(words@, msize as nat), mres as nat),
        generated(m@, msize as nat, mres as nat),
        square(m@),
{
    let ghost grid = grid_from_words(words@, msize as nat);
    let total = words.len();
    let mut cells: Vec<Vec<u32>> = Vec::new();
    let mut k: usize = 0;
    let mut a: usize = 0;
    while a < msize
        invariant
            a <= msize,
            words@.len() == msize * msize,
            total == words@.len(),
            grid == grid_from_words(words@, msize as nat),
            k == a * msize,
            cells@.len() == a,
            forall|i: int| 0 <= i < a ==> (#[trigger] cells@[i])@ == grid[i],
        decreases msize - a,
    {
        let mut row: Vec<u32> = Vec::new();
        let mut b: usize = 0;
        while b < msize
            invariant
                b <= msize,
                a < msize,
                words@.len() == msize * msize,
                total == words@.len(),
                k == a * msize + b,
                row@.len() == b,
                forall|j: int| 0 <= j < b ==> #[trigger] row@[j] == scaled(words@[a * msize + j]),
            decreases msize - b,
        {
            proof {
                lemma_cell_index(a as int, b as int, msize as int);
            }
            row.push(threshold_from_word(words[k]));
            k += 1;
            b += 1;
        }
        assert(row@ =~= grid[a as int]);
        cells.push(row);
        assert(a * msize + msize == (a + 1) * msize) by (nonlinear_arith);
        a += 1;
    }
    assert(grid_of(cells@) =~= grid);
    let base = Matrix { cells };
    let m = base.replicate(mres);
    proof {
        lemma_replicated_is_generated(grid, mres as nat);
    }
    m
}

/// The cell `[a][b]` of a grid of side `n` has a word of its own among
/// the `n * n`.
proof fn lemma_cell_index(a: int, b: int, n: int)
    by (nonlinear_arith)
    requires
        0 <= a < n,
        0 <= b < n,
    ensures
        0 <= a * n + b < n * n,
{
}

/// Generates a matrix of `msize * mres` rows and columns: one random
/// threshold in `[0, 255)` for each of the `msize * msize` logical cells,
/// each written into a block of `mres` by `mres` cells. One word is drawn
/// from the random source for each logical cell, and the matrix is the one
/// that `matrix_from_words` makes of the words drawn.
pub fn create_matrix(msize: usize, mres: usize) -> (out: Result<Matrix, DitherError>)
    requires
        msize * mres <= usize::MAX,
    ensures
        out.is_err() == (msize == 0 || mres == 0),
        out matches Err(e) ==> e == DitherError::ZeroDimension,
        out matches Ok(m) ==> {
            &&& generated(m@, msize as nat, mres as nat)
            &&& square(m@)
            &&& exists|words: Seq<u32>|
                words.len() == msize * msize && m@ == replicated(
                    #[trigger] grid_from_words(words, msize as nat),
                    mres as nat,
                )
        },
{
    if msize == 0 || mres == 0 {
        return Err(DitherError::ZeroDimension);
    }
    let mut rng = thread_rng();
    let mut words: Vec<u32> = Vec::new();
    let mut a: usize = 0;
    while a < msize
        invariant
            a <= msize,
            words@.len() == a * msize,
        decreases msize - a,
    {
        let mut b: usize = 0;
        while b < msize
            invariant
                b <= msize,
                words@.len() == a * msize + b,
            decreases msize - b,
        {
            words.push(next_word(&mut rng));
            b += 1;
        }
        assert(a * msize + msize == (a + 1) * msize) by (nonlinear_arith);
        a += 1;
    }
    Ok(matrix_from_words(&words, msize, mres))
}

/// Replicating a square grid of thresholds below the limit gives a grid
/// with all that holds of a generated matrix.
pub proof fn lemma_replicated_is_generated(g: Seq<Seq<u32>>, r: nat)
    requires
        square(g),
        r >= 1,
        forall|i: int, j: int| 0 <= i < g.len() && 0 <= j < g.len() ==> #[trigger] g[i][j] < LIMIT,
    ensures
        generated(replicated(g, r), g.len(), r),
{
    let n = g.len();
    let out = replicated(g, r);
    assert forall|i: int, j: int| 0 <= i < n * r && 0 <= j < n * r implies #[trigger] out[i][j] < LIMIT by {
        lemma_block_index(i, n as int, r as int);
        lemma_block_index(j, n as int, r as int);
    }
    assert forall|i: int, j: int, k: int, l: int|
        0 <= i < n * r && 0 <= j < n * r && 0 <= k < n * r && 0 <= l < n * r
            && i / (r as int) == k / (r as int) && j / (r as int) == l / (r as int)
        implies #[trigger] out[i][j] == #[trigger] out[k][l] by {
    }
}

} // verus!
