use vstd::prelude::*;

verus! {

use vstd::arithmetic::div_mod::{lemma_basic_div, lemma_div_multiples_vanish,
    lemma_div_nonincreasing, lemma_fundamental_div_mod, lemma_mod_multiples_basic,
    lemma_mod_multiples_vanish, lemma_multiply_divide_lt, lemma_small_mod};
use vstd::arithmetic::mul::lemma_mul_inequality;

use crate::align::{lemma_align_symmetric, lemma_nw_bound, lemma_step_bound, max3_i32, nw_score,
    score_mag, spec_align};
use crate::layout::{push_word_le, read_word_le, word_bytes, word_of_bytes, lemma_word_codec,
    WDevToHost, WHostToDev, WScalars};
use crate::sequence::{Nucleotide, Sequence};

/// First valid row index on anti-diagonal `d` of an `(n+1) x (m+1)` grid.
pub open spec fn diag_lo(d: int, m: int) -> int {
    if d - m > 0 {
        d - m
    } else {
        0
    }
}

/// Last valid row index on anti-diagonal `d` of an `(n+1) x (m+1)` grid.
pub open spec fn diag_hi(d: int, n: int) -> int {
    if n <= d {
        n
    } else {
        d
    }
}

/// Wavefront engine: computes the alignment score in `n + m + 1` passes,
/// one per anti-diagonal, keeping only the last two diagonals of state in a
/// fixed arena of three rotating buffers indexed by `pass mod 3`.  Cells on
/// one anti-diagonal have no mutual dependency, which is what lets a
/// dispatch pass compute them all in parallel; this function performs the
/// exact per-cell transform the compute kernel is contracted to apply, so
/// its postcondition — agreement with the scalar oracle's recurrence on
/// every input — is the correctness statement of the schedule itself.
///
/// The two preconditions are machine limits: every cell and every
/// intermediate sum must fit in a signed 32-bit word.
#[verifier::loop_isolation(false)]
#[verifier::rlimit(60)]
pub fn needleman_wunsch_wavefront(
    seq1: &Sequence,
    seq2: &Sequence,
    gap_penalty: i32,
    mismatch_penalty: i32,
    match_score: i32,
) -> (score: i32)
    requires
        seq1@.len() + seq2@.len() <= 0x7fff_ffff,
        (seq1@.len() + seq2@.len()) * score_mag(
            gap_penalty as int,
            mismatch_penalty as int,
            match_score as int,
        ) <= 0x7fff_ffff,
    ensures
        score as int == spec_align(
            seq1@,
            seq2@,
            gap_penalty as int,
            mismatch_penalty as int,
            match_score as int,
        ),
{
    // Normalize operand order so the buffer width is bounded by
    // `min(n, m) + 1`; symmetry says this cannot change the score.
    let swapped = seq1.len() >= seq2.len();
    let (a, b) = if swapped {
        (seq2, seq1)
    } else {
        (seq1, seq2)
    };
    proof {
        if swapped {
            lemma_align_symmetric(
                seq1@,
                seq2@,
                gap_penalty as int,
                mismatch_penalty as int,
                match_score as int,
            );
        }
    }

    let ghost g = gap_penalty as int;
    let ghost mm = mismatch_penalty as int;
    let ghost ms = match_score as int;
    let ghost c = score_mag(g, mm, ms);
    let ghost total = a@.len() + b@.len();
    let n = a.len();
    let m = b.len();
    let width = n + 1;

    // Pre-seed the arena with the boundary diagonals 0 and 1 before the
    // first computed pass.
    let mut diag0: Vec<i32> = Vec::new();
    let mut k: usize = 0;
    while k < width
        invariant
            k <= width,
            diag0@.len() == k,
            forall|q: int| 0 <= q < k ==> diag0@[q] == 0i32,
        decreases width - k,
    {
        diag0.push(0);
        k += 1;
    }
    let mut diag1 = diag0.clone();
    if m >= 1 {
        // cell (0, 1) carries one gap
        diag1.set(0, gap_penalty);
    }
    if n >= 1 {
        // cell (1, 0) carries one gap
        diag1.set(1, gap_penalty);
    }
    let mut bufs: Vec<Vec<i32>> = Vec::new();
    bufs.push(diag0);
    bufs.push(diag1);
    let mut slot2: Vec<i32> = Vec::new();
    let mut k: usize = 0;
    while k < width
        invariant
            k <= width,
            slot2@.len() == k,
        decreases width - k,
    {
        slot2.push(0);
        k += 1;
    }
    bufs.push(slot2);

    assert(nw_score(a@, b@, 0, 1, g, mm, ms) == 1 * g);
    assert(nw_score(a@, b@, 1, 0, g, mm, ms) == 1 * g);

    // One pass per remaining anti-diagonal; pass `d` writes buffer
    // `d mod 3` and reads buffers `(d - 1) mod 3` and `(d - 2) mod 3`.
    let mut d: usize = 2;
    while d <= n + m
        invariant
            2 <= d,
            n + m >= 2 ==> d <= n + m + 1,
            n + m < 2 ==> d == 2,
            bufs@.len() == 3,
            forall|s: int| 0 <= s < 3 ==> (#[trigger] bufs@[s])@.len() == width,
            forall|q: int|
                diag_lo(d - 1, m as int) <= q <= diag_hi(d - 1, n as int) ==> #[trigger] bufs@[(
                d - 1) % 3]@[q] as int == nw_score(a@, b@, q, d - 1 - q, g, mm, ms),
            forall|q: int|
                diag_lo(d - 2, m as int) <= q <= diag_hi(d - 2, n as int) ==> #[trigger] bufs@[(
                d - 2) % 3]@[q] as int == nw_score(a@, b@, q, d - 2 - q, g, mm, ms),
        decreases n + m + 1 - d,
    {
        let lo = if d > m {
            d - m
        } else {
            0
        };
        let hi = if n <= d {
            n
        } else {
            d
        };
        proof {
            // the arena indices of the two source diagonals
            lemma_mod_multiples_vanish(1, d as int - 2, 3);
            lemma_mod_multiples_vanish(1, d as int - 1, 3);
            assert((d as int + 1) % 3 == (d as int - 2) % 3);
            assert((d as int + 2) % 3 == (d as int - 1) % 3);
        }
        let mut new_diag: Vec<i32> = Vec::new();
        let mut i: usize = 0;
        while i < width
            invariant
                i <= width,
                new_diag@.len() == i,
                lo == diag_lo(d as int, m as int),
                hi == diag_hi(d as int, n as int),
                forall|q: int|
                    diag_lo(d as int, m as int) <= q <= diag_hi(d as int, n as int) && q < i
                        ==> #[trigger] new_diag@[q] as int == nw_score(a@, b@, q, d - q, g, mm, ms),
            decreases width - i,
        {
            let v: i32;
            if i < lo || i > hi {
                v = 0;
            } else if i == 0 {
                // boundary row: j = d
                proof {
                    lemma_nw_bound(a@, b@, 0, d as int, g, mm, ms);
                    lemma_mul_inequality(d as int, total as int, c);
                }
                v = (d as i32) * gap_penalty;
            } else if i == d {
                // boundary column: j = 0
                proof {
                    lemma_nw_bound(a@, b@, i as int, 0, g, mm, ms);
                    lemma_mul_inequality(i as int, total as int, c);
                }
                v = (i as i32) * gap_penalty;
            } else {
                let j = d - i;
                let sc = if a.0[i - 1] == b.0[j - 1] {
                    match_score
                } else {
                    mismatch_penalty
                };
                proof {
                    lemma_nw_bound(a@, b@, i as int - 1, j as int - 1, g, mm, ms);
                    lemma_nw_bound(a@, b@, i as int - 1, j as int, g, mm, ms);
                    lemma_nw_bound(a@, b@, i as int, j as int - 1, g, mm, ms);
                    lemma_step_bound(i + j - 2, total as int, c);
                    lemma_step_bound(i + j - 1, total as int, c);
                }
                let prev1 = &bufs[(d + 2) % 3];
                let prev2 = &bufs[(d + 1) % 3];
                let diag = prev2[i - 1] + sc;
                let up = prev1[i - 1] + gap_penalty;
                let left = prev1[i] + gap_penalty;
                v = max3_i32(diag, up, left);
            }
            new_diag.push(v);
            i += 1;
        }
        let slot = d % 3;
        bufs.set(slot, new_diag);
        proof {
            // the written slot is distinct from the younger source diagonal
            lemma_fundamental_div_mod(d as int, 3);
            lemma_fundamental_div_mod(d as int - 1, 3);
            assert((d as int) % 3 != (d as int - 1) % 3);
        }
        d += 1;
    }

    // The final diagonal holds the single cell (n, m); the score is the
    // last element of the buffer selected by `(n + m) mod 3`.
    let last = (n + m) % 3;
    bufs[last][n]
}

// ----------------------------------------------------------------------
// The per-block dispatch schedule.
//
// When the compute backend dispatches in fixed 2-D tiles, sequences are
// tiled into blocks and one pass covers one diagonal of blocks.  The
// functions below are the decisions of that schedule: the dispatch loop
// itself performs device work and consumes these through plain values.
// ----------------------------------------------------------------------

/// The smaller of two integers.
pub open spec fn min2(a: int, b: int) -> int {
    if a <= b {
        a
    } else {
        b
    }
}

/// The number of live blocks on block-diagonal `p` of an
/// `n_blocks x m_blocks` grid: the blocks `(x, y)` with `x + y == p`.
pub open spec fn blocks_on_diag(p: int, n_blocks: int, m_blocks: int) -> int {
    min2(min2(p + 1, n_blocks), min2(m_blocks, n_blocks + m_blocks - 1 - p))
}

/// Ceiling division: the number of tiles of size `denominator` needed to
/// cover `numerator` items.
pub fn round_up(numerator: u32, denominator: u32) -> (r: u32)
    requires
        denominator >= 1,
    ensures
        numerator == 0 ==> r == 0,
        numerator >= 1 ==> (r as int - 1) * denominator < numerator <= r as int * denominator,
{
    if numerator == 0 {
        0
    } else {
        let q = (numerator - 1) / denominator;
        proof {
            let x = (numerator - 1) as int;
            let d = denominator as int;
            lemma_fundamental_div_mod(x, d);
            lemma_div_nonincreasing(x, d);
            assert((q as int + 1) * d == d * (x / d) + d && q as int * d == d * (x / d))
                by (nonlinear_arith)
                requires
                    q == x / d,
            ;
        }
        q + 1
    }
}

/// The number of sequential passes needed for an `n_blocks x m_blocks`
/// grid: one per diagonal of blocks.
pub fn pass_count(n_blocks: u32, m_blocks: u32) -> (r: u32)
    requires
        1 <= n_blocks,
        1 <= m_blocks,
        n_blocks + m_blocks <= 0xffff_ffff,
    ensures
        r == n_blocks + m_blocks - 1,
{
    n_blocks + m_blocks - 1
}

/// The number of live blocks dispatched on pass `pass`.
pub fn live_blocks(pass: u32, n_blocks: u32, m_blocks: u32) -> (r: u32)
    requires
        1 <= n_blocks,
        1 <= m_blocks,
        n_blocks + m_blocks <= 0xffff_ffff,
        pass < n_blocks + m_blocks - 1,
    ensures
        r as int == blocks_on_diag(pass as int, n_blocks as int, m_blocks as int),
        1 <= r,
{
    let a = if pass + 1 <= n_blocks {
        pass + 1
    } else {
        n_blocks
    };
    let b = n_blocks + m_blocks - 1 - pass;
    let c = if m_blocks <= b {
        m_blocks
    } else {
        b
    };
    if a <= c {
        a
    } else {
        c
    }
}

/// The block that live index `block_on_diag` names on block-diagonal
/// `pass`: the blocks `(bx, by)` with `bx + by == pass`, walked from the
/// top-right of the diagonal.  This is the indexing every dispatch
/// invocation performs to find its block.
pub fn block_coords(pass: u32, block_on_diag: u32, n_blocks: u32, m_blocks: u32) -> (r: (u32, u32))
    requires
        1 <= n_blocks,
        1 <= m_blocks,
        n_blocks + m_blocks <= 0xffff_ffff,
        pass < n_blocks + m_blocks - 1,
        block_on_diag < blocks_on_diag(pass as int, n_blocks as int, m_blocks as int),
    ensures
        r.0 as int + r.1 as int == pass,
        r.0 < n_blocks,
        r.1 < m_blocks,
{
    if pass < n_blocks {
        (pass - block_on_diag, block_on_diag)
    } else {
        (n_blocks - 1 - block_on_diag, pass - n_blocks + 1 + block_on_diag)
    }
}

/// The grid cell that invocation `cell` of block `(bx, by)` computes:
/// column-major within a `wg_cols x wg_rows` tile.
pub fn cell_coords(bx: u32, by: u32, cell: u32, wg_cols: u32, wg_rows: u32) -> (r: (u32, u32))
    requires
        1 <= wg_cols,
        1 <= wg_rows,
        cell < wg_cols * wg_rows,
        (bx + 1) * wg_cols <= 0xffff_ffff,
        (by + 1) * wg_rows <= 0xffff_ffff,
    ensures
        r.0 as int == bx * wg_cols + (cell as int) % (wg_cols as int),
        r.1 as int == by * wg_rows + (cell as int) / (wg_cols as int),
        r.0 < (bx + 1) * wg_cols,
        r.1 < (by + 1) * wg_rows,
{
    proof {
        assert(bx * wg_cols + wg_cols == (bx + 1) * wg_cols && by * wg_rows + wg_rows == (by + 1)
            * wg_rows) by (nonlinear_arith);
        assert(cell as int % (wg_cols as int) < wg_cols);
        assert(cell as int / (wg_cols as int) < wg_rows) by {
            lemma_multiply_divide_lt(cell as int, wg_cols as int, wg_rows as int);
            assert(wg_cols as int * wg_rows as int == wg_rows as int * wg_cols as int)
                by (nonlinear_arith);
        }
        assert(bx as int * wg_cols >= 0 && by as int * wg_rows >= 0) by (nonlinear_arith)
            requires
                bx >= 0 && wg_cols >= 0 && by >= 0 && wg_rows >= 0,
        ;
    }
    (bx * wg_cols + cell % wg_cols, by * wg_rows + cell / wg_cols)
}

/// The number of logical cells dispatched for `live` blocks of
/// `wg_cols x wg_rows` invocations each.
pub fn dispatch_size(live: u32, wg_cols: u32, wg_rows: u32) -> (r: u32)
    requires
        1 <= wg_cols,
        1 <= wg_rows,
        live as int * wg_cols * wg_rows <= 0xffff_ffff,
    ensures
        r as int == live as int * wg_cols * wg_rows,
{
    proof {
        assert(live as int * wg_cols <= live as int * wg_cols * wg_rows) by (nonlinear_arith)
            requires
                wg_rows >= 1,
                live as int * wg_cols >= 0,
        ;
    }
    live * wg_cols * wg_rows
}

/// The flat score grid the block schedule starts from: row 0 holds
/// `i * gap`, column 0 holds `j * gap`, every interior cell starts at zero.
pub open spec fn seeded_scores(n: int, m: int, gap: int) -> Seq<i32> {
    Seq::new(
        ((n + 1) * (m + 1)) as nat,
        |k: int|
            if k <= n {
                (k * gap) as i32
            } else if k % (n + 1) == 0 {
                ((k / (n + 1)) * gap) as i32
            } else {
                0i32
            },
    )
}

/// Build the seeded `(n+1) * (m+1)` score grid, row-major with width
/// `n + 1`, exactly as `seeded_scores` describes it.
#[verifier::loop_isolation(false)]
#[verifier::rlimit(60)]
pub fn seed_scores(n: usize, m: usize, gap_penalty: i32) -> (s: Vec<i32>)
    requires
        (n + 1) * (m + 1) <= usize::MAX,
        n + m <= 0x7fff_ffff,
        (n + m) * crate::align::mag(gap_penalty as int) <= 0x7fff_ffff,
    ensures
        s@ == seeded_scores(n as int, m as int, gap_penalty as int),
{
    let ghost g = gap_penalty as int;
    let ghost magg = crate::align::mag(g);
    let width = n + 1;
    proof {
        assert(width as int <= width as int * (m + 1)) by (nonlinear_arith)
            requires
                m >= 0,
                width >= 1,
        ;
    }
    let size = width * (m + 1);
    let mut s: Vec<i32> = Vec::new();
    let mut k: usize = 0;
    while k < size
        invariant
            k <= size,
            s@.len() == k,
            forall|q: int| 0 <= q < k ==> s@[q] == 0i32,
        decreases size - k,
    {
        s.push(0);
        k += 1;
    }

    // Row 0: one gap per column index.
    let mut i: usize = 0;
    while i <= n
        invariant
            i <= n + 1,
            s@.len() == size,
            forall|q: int| 0 <= q < i ==> #[trigger] s@[q] as int == q * g,
            forall|q: int| i <= q < size ==> s@[q] == 0i32,
        decreases n + 1 - i,
    {
        proof {
            assert(i * g <= i as int * magg && -(i as int * magg) <= i * g) by (nonlinear_arith)
                requires
                    0 <= i,
                    -magg <= g <= magg,
            ;
            lemma_mul_inequality(i as int, (n + m) as int, magg);
        }
        s.set(i, (i as i32) * gap_penalty);
        i += 1;
    }

    // Column 0: one gap per row index.
    let mut j: usize = 1;
    while j <= m
        invariant
            1 <= j <= m + 1,
            s@.len() == size,
            forall|q: int| 0 <= q <= n ==> #[trigger] s@[q] as int == q * g,
            forall|q: int|
                n < q < size && q % (width as int) == 0 && q / (width as int) < j
                    ==> #[trigger] s@[q] as int == (q / (width as int)) * g,
            forall|q: int|
                n < q < size && (q % (width as int) != 0 || q / (width as int) >= j) ==> s@[q]
                    == 0i32,
        decreases m + 1 - j,
    {
        proof {
            assert(j * g <= j as int * magg && -(j as int * magg) <= j * g) by (nonlinear_arith)
                requires
                    0 <= j,
                    -magg <= g <= magg,
            ;
            lemma_mul_inequality(j as int, (n + m) as int, magg);
            lemma_mul_inequality(j as int, m as int, width as int);
            assert(m as int * width < (m + 1) * width) by (nonlinear_arith)
                requires
                    width >= 1,
                    m >= 0,
            ;
            assert((m + 1) * width == width as int * (m + 1)) by (nonlinear_arith);
            assert((j as int * width) % (width as int) == 0 && (j as int * width) / (width as int)
                == j as int) by {
                lemma_mod_multiples_basic(j as int, width as int);
                lemma_div_multiples_vanish(j as int, width as int);
                assert(j as int * width == width as int * j) by (nonlinear_arith);
            }
            assert(n < j as int * width) by (nonlinear_arith)
                requires
                    width == n + 1,
                    j >= 1,
                    n >= 0,
            ;
        }
        s.set(j * width, (j as i32) * gap_penalty);
        proof {
            assert forall|q: int|
                n < q < size && q % (width as int) == 0 && q / (width as int) < j + 1 implies #[trigger] s@[q]
                as int == (q / (width as int)) * g by {
                lemma_fundamental_div_mod(q, width as int);
                assert(q == width as int * (q / (width as int)));
                if q / (width as int) == j as int {
                    assert(width as int * (j as int) == j as int * width) by (nonlinear_arith);
                }
            }
        }
        j += 1;
    }

    proof {
        assert forall|q: int| 0 <= q < size implies #[trigger] s@[q] == seeded_scores(
            n as int,
            m as int,
            g,
        )[q] by {
            if q > n && q % (width as int) == 0 {
                lemma_multiply_divide_lt(q, width as int, (m + 1) as int);
                assert(width as int * (m + 1) == (n + 1) * (m + 1)) by (nonlinear_arith)
                    requires
                        width == n + 1,
                ;
            }
        }
        assert(s@ =~= seeded_scores(n as int, m as int, g));
    }
    s
}

/// Every pre-seeded cell of the flat score grid already holds the value
/// the recurrence assigns it: the grid's row 0 carries `nw_score(0, i)`
/// and its column 0 carries `nw_score(j, 0)`, so the block schedule need
/// only compute interior cells.  Here `n` indexes the grid's columns along
/// `s2` and `m` its rows along `s1`.
pub proof fn lemma_seed_matches_recurrence(
    s1: Seq<Nucleotide>,
    s2: Seq<Nucleotide>,
    gap: int,
    mismatch: int,
    match_score: int,
)
    requires
        (s1.len() + s2.len()) * score_mag(gap, mismatch, match_score) <= 0x7fff_ffff,
    ensures
        forall|k: int|
            0 <= k < (s2.len() + 1) * (s1.len() + 1) && (k <= s2.len() || k % (s2.len() as int + 1)
                == 0) ==> #[trigger] seeded_scores(s2.len() as int, s1.len() as int, gap)[k] as int
                == nw_score(
                s1,
                s2,
                k / (s2.len() as int + 1),
                k % (s2.len() as int + 1),
                gap,
                mismatch,
                match_score,
            ),
{
    let n = s2.len() as int;
    let m = s1.len() as int;
    let c = score_mag(gap, mismatch, match_score);
    assert forall|k: int|
        0 <= k < (n + 1) * (m + 1) && (k <= n || k % (n + 1) == 0) implies #[trigger] seeded_scores(
        n,
        m,
        gap,
    )[k] as int == nw_score(s1, s2, k / (n + 1), k % (n + 1), gap, mismatch, match_score) by {
        if k <= n {
            lemma_basic_div(k, n + 1);
            lemma_small_mod(k as nat, (n + 1) as nat);
            lemma_nw_bound(s1, s2, 0, k, gap, mismatch, match_score);
            lemma_mul_inequality(k, n + m, c);
        } else {
            let j = k / (n + 1);
            lemma_fundamental_div_mod(k, n + 1);
            lemma_multiply_divide_lt(k, n + 1, m + 1);
            assert(1 <= j) by (nonlinear_arith)
                requires
                    k == (n + 1) * j,
                    k > n,
                    n >= 0,
            ;
            assert(j <= m);
            lemma_nw_bound(s1, s2, j, 0, gap, mismatch, match_score);
            lemma_mul_inequality(j, n + m, c);
            assert(j * gap == nw_score(s1, s2, j, 0, gap, mismatch, match_score));
        }
    }
}

// ----------------------------------------------------------------------
// The per-alignment parameter block.
// ----------------------------------------------------------------------

/// The fixed-order parameter block uploaded once per alignment and read by
/// every pass: both sequence lengths and the three scoring constants.
#[derive(Clone, Copy, Debug, PartialEq, Eq, Structural)]
pub struct NWInfo {
    pub seq1_len: u32,
    pub seq2_len: u32,
    pub gap_penalty: i32,
    pub mismatch_penalty: i32,
    pub match_score: i32,
}

impl Default for NWInfo {
    /// The all-zero parameter block.
    fn default() -> (r: Self)
        ensures
            r.seq1_len == 0 && r.seq2_len == 0 && r.gap_penalty == 0 && r.mismatch_penalty == 0
                && r.match_score == 0,
    {
        NWInfo { seq1_len: 0, seq2_len: 0, gap_penalty: 0, mismatch_penalty: 0, match_score: 0 }
    }
}

impl WHostToDev for NWInfo {
    open spec fn encodable(&self) -> bool {
        true
    }

    /// Five words, packed in field order with no implicit padding.
    open spec fn spec_bytes(&self) -> Seq<u8> {
        word_bytes(self.seq1_len) + word_bytes(self.seq2_len) + word_bytes(
            self.gap_penalty.as_word(),
        ) + word_bytes(self.mismatch_penalty.as_word()) + word_bytes(self.match_score.as_word())
    }

    fn bytes(&self) -> (b: Vec<u8>) {
        let mut b: Vec<u8> = Vec::new();
        push_word_le(&mut b, self.seq1_len);
        push_word_le(&mut b, self.seq2_len);
        push_word_le(&mut b, self.gap_penalty.to_word());
        push_word_le(&mut b, self.mismatch_penalty.to_word());
        push_word_le(&mut b, self.match_score.to_word());
        proof {
            assert(b@ =~= self.spec_bytes());
        }
        b
    }
}

impl WDevToHost for NWInfo {
    /// The parameter block reads back from exactly its five packed words.
    open spec fn decodable(bytes: Seq<u8>) -> bool {
        bytes.len() == 20
    }

    open spec fn is_decoding_of(&self, bytes: Seq<u8>) -> bool {
        &&& self.seq1_len == word_of_bytes(bytes[0], bytes[1], bytes[2], bytes[3])
        &&& self.seq2_len == word_of_bytes(bytes[4], bytes[5], bytes[6], bytes[7])
        &&& self.gap_penalty == <i32 as WScalars>::of_word(
            word_of_bytes(bytes[8], bytes[9], bytes[10], bytes[11]),
        )
        &&& self.mismatch_penalty == <i32 as WScalars>::of_word(
            word_of_bytes(bytes[12], bytes[13], bytes[14], bytes[15]),
        )
        &&& self.match_score == <i32 as WScalars>::of_word(
            word_of_bytes(bytes[16], bytes[17], bytes[18], bytes[19]),
        )
    }

    open spec fn shape_matches(&self, bytes: Seq<u8>) -> bool {
        bytes.len() == 20
    }

    open spec fn is_reread_of(&self, from: Self, bytes: Seq<u8>) -> bool {
        self.is_decoding_of(bytes)
    }

    fn from_bytes_new(bytes: &Vec<u8>) -> (r: Self) {
        NWInfo {
            seq1_len: read_word_le(bytes, 0),
            seq2_len: read_word_le(bytes, 4),
            gap_penalty: i32::from_word(read_word_le(bytes, 8)),
            mismatch_penalty: i32::from_word(read_word_le(bytes, 12)),
            match_score: i32::from_word(read_word_le(bytes, 16)),
        }
    }

    fn from_bytes(&mut self, bytes: &Vec<u8>) {
        self.seq1_len = read_word_le(bytes, 0);
        self.seq2_len = read_word_le(bytes, 4);
        self.gap_penalty = i32::from_word(read_word_le(bytes, 8));
        self.mismatch_penalty = i32::from_word(read_word_le(bytes, 12));
        self.match_score = i32::from_word(read_word_le(bytes, 16));
    }
}

/// Round trip for the parameter block: its 20-byte image decodes back to
/// the very block that was encoded.
pub proof fn lemma_nw_info_round_trip(info: NWInfo)
    ensures
        info.spec_bytes().len() == 20,
        forall|r: NWInfo| r.is_decoding_of(info.spec_bytes()) ==> r == info,
{
    let b = info.spec_bytes();
    lemma_word_codec(info.seq1_len);
    lemma_word_codec(info.seq2_len);
    lemma_word_codec(info.gap_penalty.as_word());
    lemma_word_codec(info.mismatch_penalty.as_word());
    lemma_word_codec(info.match_score.as_word());
    info.gap_penalty.lemma_codec();
    info.mismatch_penalty.lemma_codec();
    info.match_score.lemma_codec();
    assert(word_of_bytes(b[0], b[1], b[2], b[3]) == info.seq1_len);
    assert(word_of_bytes(b[4], b[5], b[6], b[7]) == info.seq2_len);
    assert(word_of_bytes(b[8], b[9], b[10], b[11]) == info.gap_penalty.as_word());
    assert(word_of_bytes(b[12], b[13], b[14], b[15]) == info.mismatch_penalty.as_word());
    assert(word_of_bytes(b[16], b[17], b[18], b[19]) == info.match_score.as_word());
}

} // verus!
