use vstd::prelude::*;

verus! {

use vstd::string::StrSliceExecFns;

use crate::error::WarpError;

/// One symbol of the four-letter alphabet.
#[derive(Clone, Copy, Debug, PartialEq, Eq, Structural)]
pub enum Nucleotide {
    A,
    C,
    G,
    T,
}

impl Nucleotide {
    /// The integer code used for device transfer: A=0, C=1, G=2, T=3.
    pub open spec fn spec_code(self) -> u32 {
        match self {
            Nucleotide::A => 0,
            Nucleotide::C => 1,
            Nucleotide::G => 2,
            Nucleotide::T => 3,
        }
    }

    /// The symbol a given character stands for, case-insensitively.
    pub open spec fn spec_of_char(c: char) -> Option<Nucleotide> {
        if c == 'a' || c == 'A' {
            Some(Nucleotide::A)
        } else if c == 'c' || c == 'C' {
            Some(Nucleotide::C)
        } else if c == 'g' || c == 'G' {
            Some(Nucleotide::G)
        } else if c == 't' || c == 'T' {
            Some(Nucleotide::T)
        } else {
            None
        }
    }

    /// Encode the symbol as its device integer code.
    pub fn code(self) -> (c: u32)
        ensures
            c == self.spec_code(),
            c < 4,
    {
        match self {
            Nucleotide::A => 0,
            Nucleotide::C => 1,
            Nucleotide::G => 2,
            Nucleotide::T => 3,
        }
    }

    /// Decode a device integer code; codes 4 and above are rejected.
    pub fn from_code(code: u32) -> (r: Result<Nucleotide, WarpError>)
        ensures
            code < 4 <==> r is Ok,
            r is Ok ==> r->Ok_0.spec_code() == code,
            r is Err ==> r->Err_0 == WarpError::InvalidNucleotide,
    {
        match code {
            0 => Ok(Nucleotide::A),
            1 => Ok(Nucleotide::C),
            2 => Ok(Nucleotide::G),
            3 => Ok(Nucleotide::T),
            _ => Err(WarpError::InvalidNucleotide),
        }
    }

    /// Parse one character, case-insensitively; anything outside
    /// `{a,c,g,t,A,C,G,T}` is rejected.
    pub fn from_symbol(c: char) -> (r: Result<Nucleotide, WarpError>)
        ensures
            Self::spec_of_char(c) is Some <==> r is Ok,
            r is Ok ==> Self::spec_of_char(c) == Some(r->Ok_0),
            r is Err ==> r->Err_0 == WarpError::InvalidNucleotide,
    {
        match c {
            'a' | 'A' => Ok(Nucleotide::A),
            'c' | 'C' => Ok(Nucleotide::C),
            'g' | 'G' => Ok(Nucleotide::G),
            't' | 'T' => Ok(Nucleotide::T),
            _ => Err(WarpError::InvalidNucleotide),
        }
    }
}

/// An ordered, immutable run of nucleotides.
#[derive(Clone, Debug, PartialEq, Eq)]
pub struct Sequence(pub Vec<Nucleotide>);

impl View for Sequence {
    type V = Seq<Nucleotide>;

    open spec fn view(&self) -> Seq<Nucleotide> {
        self.0@
    }
}

/// Whether every character of `s` names a symbol of the alphabet.
pub open spec fn all_symbols(s: Seq<char>) -> bool {
    forall|k: int| 0 <= k < s.len() ==> Nucleotide::spec_of_char(s[k]) is Some
}

impl Sequence {
    /// Parse a text over the case-insensitive alphabet `{A,C,G,T}`;
    /// any other character is a hard parse error.
    pub fn parse(text: &str) -> (r: Result<Sequence, WarpError>)
        ensures
            all_symbols(text@) <==> r is Ok,
            r is Ok ==> {
                &&& r->Ok_0@.len() == text@.len()
                &&& forall|k: int|
                    0 <= k < text@.len() ==> Nucleotide::spec_of_char(text@[k]) == Some(
                        #[trigger] r->Ok_0@[k],
                    )
            },
            r is Err ==> r->Err_0 == WarpError::InvalidNucleotide,
    {
        let n = text.unicode_len();
        let mut out: Vec<Nucleotide> = Vec::new();
        let mut k: usize = 0;
        while k < n
            invariant
                n == text@.len(),
                0 <= k <= n,
                out@.len() == k,
                forall|q: int|
                    0 <= q < k ==> Nucleotide::spec_of_char(text@[q]) == Some(#[trigger] out@[q]),
            decreases n - k,
        {
            let c = text.get_char(k);
            match Nucleotide::from_symbol(c) {
                Ok(nuc) => out.push(nuc),
                Err(e) => {
                    proof {
                        assert(Nucleotide::spec_of_char(text@[k as int]) is None);
                    }
                    return Err(e);
                },
            }
            k += 1;
        }
        proof {
            assert forall|q: int| 0 <= q < text@.len() implies Nucleotide::spec_of_char(
                text@[q],
            ) is Some by {
                assert(Nucleotide::spec_of_char(text@[q]) == Some(out@[q]));
            }
        }
        Ok(Sequence(out))
    }

    /// The number of symbols.
    pub fn len(&self) -> (n: usize)
        ensures
            n == self@.len(),
    {
        self.0.len()
    }

    /// The device integer codes of all symbols, in order.
    pub fn to_codes(&self) -> (codes: Vec<u32>)
        ensures
            codes@.len() == self@.len(),
            forall|k: int| 0 <= k < self@.len() ==> codes@[k] == (#[trigger] self@[k]).spec_code(),
    {
        let mut codes: Vec<u32> = Vec::new();
        let mut k: usize = 0;
        let n = self.0.len();
        while k < n
            invariant
                n == self@.len(),
                0 <= k <= n,
                codes@.len() == k,
                forall|q: int| 0 <= q < k ==> codes@[q] == (#[trigger] self@[q]).spec_code(),
            decreases n - k,
        {
            codes.push(self.0[k].code());
            k += 1;
        }
        codes
    }
}

} // verus!
