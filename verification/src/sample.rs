use vstd::prelude::*;

verus! {

use crate::layout::WScalars;
use crate::sequence::{Nucleotide, Sequence};
use crate::wavefront::NWInfo;

/// Relies on rand::random: a fresh value from the thread-local generator.
/// Nothing is assumed of the value drawn.
pub assume_specification<T>[ rand::random::<T> ]() -> (r: T)
    where
        rand::distributions::Standard: rand::distributions::Distribution<T>,
;

/// A uniformly drawn symbol: the verified decision is the mapping from a
/// drawn word to a symbol, which covers every residue class.
pub fn random_nucleotide() -> Nucleotide {
    let w = rand::random::<u32>();
    match Nucleotide::from_code(w % 4) {
        Ok(n) => n,
        Err(_) => {
            proof {
                assert(false);
            }
            Nucleotide::A
        },
    }
}

/// A random sequence of the given length.
pub fn random_sequence(len: usize) -> (s: Sequence)
    ensures
        s@.len() == len,
{
    let mut symbols: Vec<Nucleotide> = Vec::new();
    let mut k: usize = 0;
    while k < len
        invariant
            k <= len,
            symbols@.len() == k,
        decreases len - k,
    {
        symbols.push(random_nucleotide());
        k += 1;
    }
    Sequence(symbols)
}

/// `n` scalars decoded from fresh random words, as conformance samples.
pub fn random_scalars<T: WScalars>(n: usize) -> (v: Vec<T>)
    ensures
        v@.len() == n,
{
    let mut v: Vec<T> = Vec::new();
    let mut k: usize = 0;
    while k < n
        invariant
            k <= n,
            v@.len() == k,
        decreases n - k,
    {
        v.push(T::from_word(rand::random::<u32>()));
        k += 1;
    }
    v
}

/// A parameter block with every field drawn fresh.
pub fn random_nw_info() -> NWInfo {
    NWInfo {
        seq1_len: rand::random::<u32>(),
        seq2_len: rand::random::<u32>(),
        gap_penalty: i32::from_word(rand::random::<u32>()),
        mismatch_penalty: i32::from_word(rand::random::<u32>()),
        match_score: i32::from_word(rand::random::<u32>()),
    }
}

} // verus!
