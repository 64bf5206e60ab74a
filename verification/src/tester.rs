use vstd::prelude::*;

verus! {

use crate::wavefront::NWInfo;

/// The shading-language type a testable host value crosses the boundary
/// as: either a scalar name or a struct body.
#[derive(Debug, PartialEq, Eq)]
pub enum WType {
    Primitive(&'static str),
    Struct(&'static str),
}

impl WType {
    /// The type text this tag carries.
    pub open spec fn spec_inner(self) -> &'static str {
        match self {
            WType::Primitive(s) => s,
            WType::Struct(s) => s,
        }
    }

    /// Extract the type text.
    pub fn inner(&self) -> (s: &'static str)
        ensures
            s == self.spec_inner(),
    {
        match self {
            WType::Primitive(s) => s,
            WType::Struct(s) => s,
        }
    }
}

/// A host type whose values can be driven through the identity compute
/// pass of the conformance tester.
pub trait WTestable: Sized {
    /// The shading-language type the byte image is read as.
    fn wgsl_type() -> WType;

    /// Value equality, decided executably and agreeing with equality of
    /// the values themselves.
    fn weq(&self, other: &Self) -> (b: bool)
        ensures
            b == (*self == *other),
    ;
}

impl WTestable for bool {
    fn wgsl_type() -> WType {
        WType::Primitive("bool")
    }

    fn weq(&self, other: &Self) -> bool {
        *self == *other
    }
}

impl WTestable for u32 {
    fn wgsl_type() -> WType {
        WType::Primitive("u32")
    }

    fn weq(&self, other: &Self) -> bool {
        *self == *other
    }
}

impl WTestable for i32 {
    fn wgsl_type() -> WType {
        WType::Primitive("i32")
    }

    fn weq(&self, other: &Self) -> bool {
        *self == *other
    }
}

impl WTestable for NWInfo {
    fn wgsl_type() -> WType {
        WType::Struct(
            "seq1_len: u32, seq2_len: u32, gap_penalty: i32, mismatch_penalty: i32, match_score: i32",
        )
    }

    fn weq(&self, other: &Self) -> bool {
        *self == *other
    }
}

/// A conformance failure: the first mismatching index plus the full
/// expected and readback vectors, for diagnosis.
#[derive(Debug)]
pub struct WTestFail<T> {
    pub failed_at_value: usize,
    pub total_values: usize,
    pub expected: Vec<T>,
    pub got: Vec<T>,
}

/// The outcome of one conformance run.
#[derive(Debug)]
pub enum WTestResult<T> {
    /// Every value came back bit-exact.
    Success,
    /// The device run itself could not be executed.
    TestError(String),
    /// Some value came back changed.
    TestFail(WTestFail<T>),
}

/// The comparison core of the round-trip conformance tester: succeeds
/// exactly when the readback equals the uploaded values element-wise, and
/// otherwise reports the first mismatching index with both vectors.
/// The device plumbing around it uploads `expected`, runs the identity
/// kernel, reads `got` back, and hands both here.
pub fn compare_outputs<T: WTestable>(expected: Vec<T>, got: Vec<T>) -> (r: WTestResult<T>)
    requires
        expected@.len() == got@.len(),
    ensures
        r is Success <==> expected@ == got@,
        !(r is TestError),
        r is TestFail ==> {
            &&& r->TestFail_0.expected@ == expected@
            &&& r->TestFail_0.got@ == got@
            &&& r->TestFail_0.total_values == expected@.len()
            &&& r->TestFail_0.failed_at_value < expected@.len()
            &&& expected@[r->TestFail_0.failed_at_value as int] != got@[r->TestFail_0.failed_at_value as int]
            &&& forall|q: int|
                0 <= q < r->TestFail_0.failed_at_value ==> expected@[q] == got@[q]
        },
{
    let n = expected.len();
    let mut k: usize = 0;
    while k < n
        invariant
            k <= n,
            n == expected@.len(),
            n == got@.len(),
            forall|q: int| 0 <= q < k ==> expected@[q] == got@[q],
        decreases n - k,
    {
        let same = expected[k].weq(&got[k]);
        if !same {
            return WTestResult::TestFail(
                WTestFail { failed_at_value: k, total_values: n, expected, got },
            );
        }
        k += 1;
    }
    proof {
        assert(expected@ =~= got@);
    }
    WTestResult::Success
}

} // verus!
