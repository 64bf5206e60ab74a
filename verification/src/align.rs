use vstd::prelude::*;

verus! {

use vstd::arithmetic::mul::lemma_mul_inequality;

use crate::sequence::{Nucleotide, Sequence};

/// The larger of two integers.
pub open spec fn max2(a: int, b: int) -> int {
    if a >= b {
        a
    } else {
        b
    }
}

/// The largest of three integers.
pub open spec fn max3(a: int, b: int, c: int) -> int {
    max2(max2(a, b), c)
}

/// The magnitude of an integer.
pub open spec fn mag(x: int) -> int {
    if x >= 0 {
        x
    } else {
        -x
    }
}

/// The largest magnitude among the three scoring constants.  Every cell of
/// the score matrix for sequences of total length `L` lies within
/// `L * score_mag(..)`, which is what makes 32-bit arithmetic safe.
pub open spec fn score_mag(gap: int, mismatch: int, match_score: int) -> int {
    max3(mag(gap), mag(mismatch), mag(match_score))
}

/// The score contributed by pairing two symbols.
pub open spec fn cell_score(a: Nucleotide, b: Nucleotide, mismatch: int, match_score: int) -> int {
    if a == b {
        match_score
    } else {
        mismatch
    }
}

/// The Needleman-Wunsch score of cell `(i, j)`: the best global alignment
/// score of the first `i` symbols of `s1` against the first `j` symbols of
/// `s2`.  Row 0 and column 0 carry the boundary `i * gap` / `j * gap`; every
/// other cell depends only on its diagonal, upper and left neighbours.
pub open spec fn nw_score(
    s1: Seq<Nucleotide>,
    s2: Seq<Nucleotide>,
    i: int,
    j: int,
    gap: int,
    mismatch: int,
    match_score: int,
) -> int
    decreases i + j,
{
    if i <= 0 && j <= 0 {
        0
    } else if i <= 0 {
        j * gap
    } else if j <= 0 {
        i * gap
    } else {
        max3(
            nw_score(s1, s2, i - 1, j - 1, gap, mismatch, match_score) + cell_score(
                s1[i - 1],
                s2[j - 1],
                mismatch,
                match_score,
            ),
            nw_score(s1, s2, i - 1, j, gap, mismatch, match_score) + gap,
            nw_score(s1, s2, i, j - 1, gap, mismatch, match_score) + gap,
        )
    }
}

/// The final alignment score of two whole sequences.
pub open spec fn spec_align(
    s1: Seq<Nucleotide>,
    s2: Seq<Nucleotide>,
    gap: int,
    mismatch: int,
    match_score: int,
) -> int {
    nw_score(s1, s2, s1.len() as int, s2.len() as int, gap, mismatch, match_score)
}

/// Helper: adding one more step's score keeps a cell bound below the
/// total-length bound.
pub proof fn lemma_step_bound(k: int, n: int, c: int)
    requires
        0 <= k,
        k + 1 <= n,
        0 <= c,
    ensures
        k * c + c <= n * c,
        -(n * c) <= -(k * c) - c,
{
    assert(k * c + c == (k + 1) * c) by (nonlinear_arith);
    lemma_mul_inequality(k + 1, n, c);
}

/// Every cell of the score matrix is bounded in magnitude by the number of
/// steps taken times the largest scoring magnitude.
pub proof fn lemma_nw_bound(
    s1: Seq<Nucleotide>,
    s2: Seq<Nucleotide>,
    i: int,
    j: int,
    gap: int,
    mismatch: int,
    match_score: int,
)
    requires
        0 <= i,
        0 <= j,
    ensures
        -((i + j) * score_mag(gap, mismatch, match_score)) <= nw_score(
            s1,
            s2,
            i,
            j,
            gap,
            mismatch,
            match_score,
        ) <= (i + j) * score_mag(gap, mismatch, match_score),
    decreases i + j,
{
    let c = score_mag(gap, mismatch, match_score);
    if i == 0 && j == 0 {
        assert((i + j) * c == 0);
    } else if i == 0 {
        assert(j * gap <= j * c && -(j * c) <= j * gap) by (nonlinear_arith)
            requires
                0 <= j,
                -c <= gap <= c,
        ;
    } else if j == 0 {
        assert(i * gap <= i * c && -(i * c) <= i * gap) by (nonlinear_arith)
            requires
                0 <= i,
                -c <= gap <= c,
        ;
    } else {
        lemma_nw_bound(s1, s2, i - 1, j - 1, gap, mismatch, match_score);
        lemma_nw_bound(s1, s2, i - 1, j, gap, mismatch, match_score);
        lemma_nw_bound(s1, s2, i, j - 1, gap, mismatch, match_score);
        lemma_step_bound(i + j - 2, i + j, c);
        lemma_step_bound(i + j - 1, i + j, c);
    }
}

/// Cell-level symmetry: swapping the two sequences transposes the score
/// matrix without changing any value.
pub proof fn lemma_nw_symmetric(
    s1: Seq<Nucleotide>,
    s2: Seq<Nucleotide>,
    i: int,
    j: int,
    gap: int,
    mismatch: int,
    match_score: int,
)
    requires
        0 <= i <= s1.len(),
        0 <= j <= s2.len(),
    ensures
        nw_score(s1, s2, i, j, gap, mismatch, match_score) == nw_score(
            s2,
            s1,
            j,
            i,
            gap,
            mismatch,
            match_score,
        ),
    decreases i + j,
{
    if i > 0 && j > 0 {
        lemma_nw_symmetric(s1, s2, i - 1, j - 1, gap, mismatch, match_score);
        lemma_nw_symmetric(s1, s2, i - 1, j, gap, mismatch, match_score);
        lemma_nw_symmetric(s1, s2, i, j - 1, gap, mismatch, match_score);
    }
}

/// The alignment score is symmetric in the two sequences, for all sequences
/// and all scoring constants.
pub proof fn lemma_align_symmetric(
    s1: Seq<Nucleotide>,
    s2: Seq<Nucleotide>,
    gap: int,
    mismatch: int,
    match_score: int,
)
    ensures
        spec_align(s1, s2, gap, mismatch, match_score) == spec_align(
            s2,
            s1,
            gap,
            mismatch,
            match_score,
        ),
{
    lemma_nw_symmetric(s1, s2, s1.len() as int, s2.len() as int, gap, mismatch, match_score);
}

/// Aligning the empty sequence against `s` costs exactly one gap per symbol
/// of `s`; the recurrence yields this from the boundary row alone.
pub proof fn lemma_align_empty(s: Seq<Nucleotide>, gap: int, mismatch: int, match_score: int)
    ensures
        spec_align(Seq::<Nucleotide>::empty(), s, gap, mismatch, match_score) == s.len() * gap,
{
}

/// The largest of three 32-bit scores.
pub fn max3_i32(a: i32, b: i32, c: i32) -> (r: i32)
    ensures
        r as int == max3(a as int, b as int, c as int),
{
    let m = if a >= b {
        a
    } else {
        b
    };
    if m >= c {
        m
    } else {
        c
    }
}

/// Sequential reference engine: computes the full `(n+1) x (m+1)` score
/// matrix row by row and returns the final alignment score.  This is the
/// correctness oracle for the wavefront scheduler.
///
/// The two preconditions are machine limits: every cell and every
/// intermediate sum must fit in a signed 32-bit word.
pub fn needleman_wunsch_cpu(
    seq1: &Sequence,
    seq2: &Sequence,
    gap_penalty: i32,
    mismatch_penalty: i32,
    match_score: i32,
) -> (score: i32)
    requires
        seq1@.len() + seq2@.len() <= 0x7fff_ffff,
        (seq1@.len() + seq2@.len()) * score_mag(
            gap_penalty as int,
            mismatch_penalty as int,
            match_score as int,
        ) <= 0x7fff_ffff,
    ensures
        score as int == spec_align(
            seq1@,
            seq2@,
            gap_penalty as int,
            mismatch_penalty as int,
            match_score as int,
        ),
{
    // Normalize operand order (shorter sequence first) to bound the
    // intermediate row width; symmetry says this cannot change the score.
    let swapped = seq1.len() >= seq2.len();
    let (a, b) = if swapped {
        (seq2, seq1)
    } else {
        (seq1, seq2)
    };
    let score = nw_full_matrix(a, b, gap_penalty, mismatch_penalty, match_score);
    proof {
        if swapped {
            lemma_align_symmetric(
                seq1@,
                seq2@,
                gap_penalty as int,
                mismatch_penalty as int,
                match_score as int,
            );
        }
    }
    score
}

/// The full-matrix scalar engine proper, without operand normalization.
#[verifier::loop_isolation(false)]
fn nw_full_matrix(
    s1: &Sequence,
    s2: &Sequence,
    gap_penalty: i32,
    mismatch_penalty: i32,
    match_score: i32,
) -> (score: i32)
    requires
        s1@.len() + s2@.len() <= 0x7fff_ffff,
        (s1@.len() + s2@.len()) * score_mag(
            gap_penalty as int,
            mismatch_penalty as int,
            match_score as int,
        ) <= 0x7fff_ffff,
    ensures
        score as int == spec_align(
            s1@,
            s2@,
            gap_penalty as int,
            mismatch_penalty as int,
            match_score as int,
        ),
{
    let ghost g = gap_penalty as int;
    let ghost mm = mismatch_penalty as int;
    let ghost ms = match_score as int;
    let ghost c = score_mag(g, mm, ms);
    let ghost total = s1@.len() + s2@.len();
    let n = s1.len();
    let m = s2.len();

    // Row 0: the boundary `j * gap`.
    let mut row0: Vec<i32> = Vec::new();
    let mut j: usize = 0;
    while j <= m
        invariant
            j <= m + 1,
            row0@.len() == j,
            forall|q: int| 0 <= q < j ==> row0@[q] as int == nw_score(s1@, s2@, 0, q, g, mm, ms),
        decreases m + 1 - j,
    {
        proof {
            lemma_nw_bound(s1@, s2@, 0, j as int, g, mm, ms);
            lemma_mul_inequality(j as int, total as int, c);
        }
        row0.push((j as i32) * gap_penalty);
        j += 1;
    }
    let mut matrix: Vec<Vec<i32>> = Vec::new();
    matrix.push(row0);

    // Each later row depends only on the previous row and its own prefix.
    let mut i: usize = 1;
    while i <= n
        invariant
            1 <= i <= n + 1,
            matrix@.len() == i,
            forall|r: int| 0 <= r < i ==> (#[trigger] matrix@[r])@.len() == m + 1,
            forall|r: int, q: int|
                0 <= r < i && 0 <= q <= m ==> #[trigger] matrix@[r]@[q] as int == nw_score(
                    s1@,
                    s2@,
                    r,
                    q,
                    g,
                    mm,
                    ms,
                ),
        decreases n + 1 - i,
    {
        let mut row: Vec<i32> = Vec::new();
        proof {
            lemma_nw_bound(s1@, s2@, i as int, 0, g, mm, ms);
            lemma_mul_inequality(i as int, total as int, c);
        }
        row.push((i as i32) * gap_penalty);
        let mut j: usize = 1;
        while j <= m
            invariant
                1 <= i <= n,
                1 <= j <= m + 1,
                row@.len() == j,
                forall|q: int|
                    0 <= q < j ==> row@[q] as int == nw_score(s1@, s2@, i as int, q, g, mm, ms),
            decreases m + 1 - j,
        {
            let sc = if s1.0[i - 1] == s2.0[j - 1] {
                match_score
            } else {
                mismatch_penalty
            };
            proof {
                lemma_nw_bound(s1@, s2@, i as int - 1, j as int - 1, g, mm, ms);
                lemma_nw_bound(s1@, s2@, i as int - 1, j as int, g, mm, ms);
                lemma_nw_bound(s1@, s2@, i as int, j as int - 1, g, mm, ms);
                lemma_step_bound(i + j - 2, total as int, c);
                lemma_step_bound(i + j - 1, total as int, c);
            }
            let diag = matrix[i - 1][j - 1] + sc;
            let up = matrix[i - 1][j] + gap_penalty;
            let left = row[j - 1] + gap_penalty;
            let v = max3_i32(diag, up, left);
            row.push(v);
            j += 1;
        }
        matrix.push(row);
        i += 1;
    }
    matrix[n][m]
}

} // verus!
