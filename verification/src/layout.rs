use vstd::prelude::*;

verus! {

use vstd::arithmetic::div_mod::{lemma_div_denominator, lemma_div_multiples_vanish_fancy,
    lemma_fundamental_div_mod, lemma_mod_multiples_vanish, lemma_multiply_divide_lt,
    lemma_small_mod};

use crate::error::WarpError;

// ----------------------------------------------------------------------
// 32-bit words and their little-endian byte images.
//
// Every scalar kind the device understands occupies one 32-bit word; a
// record is its packed words followed by inert zero padding.  The codec
// below is the single place where words meet bytes.
// ----------------------------------------------------------------------

/// The four little-endian bytes of a 32-bit word.
pub open spec fn word_bytes(w: u32) -> Seq<u8> {
    seq![
        (w as int % 256) as u8,
        ((w as int / 256) % 256) as u8,
        ((w as int / 65536) % 256) as u8,
        ((w as int / 16777216) % 256) as u8,
    ]
}

/// The 32-bit word four little-endian bytes denote.
pub open spec fn word_of_bytes(b0: u8, b1: u8, b2: u8, b3: u8) -> u32 {
    (b0 + b1 * 256 + b2 * 65536 + b3 * 16777216) as u32
}

/// Reassembling the four bytes of a word gives the word back.
pub proof fn lemma_word_codec(w: u32)
    ensures
        word_of_bytes(word_bytes(w)[0], word_bytes(w)[1], word_bytes(w)[2], word_bytes(w)[3]) == w,
{
    let x = w as int;
    lemma_fundamental_div_mod(x, 256);
    lemma_fundamental_div_mod(x / 256, 256);
    lemma_fundamental_div_mod(x / 65536, 256);
    lemma_div_denominator(x, 256, 256);
    lemma_div_denominator(x, 65536, 256);
    assert(x / 16777216 < 256) by {
        lemma_multiply_divide_lt(x, 16777216, 256);
    }
    lemma_small_mod((x / 16777216) as nat, 256);
}

/// Splitting a word assembled from four bytes gives the bytes back.
pub proof fn lemma_bytes_codec(b0: u8, b1: u8, b2: u8, b3: u8)
    ensures
        word_bytes(word_of_bytes(b0, b1, b2, b3)) =~= seq![b0, b1, b2, b3],
{
    let w = word_of_bytes(b0, b1, b2, b3) as int;
    let a1 = b1 + 256 * b2 + 65536 * b3;
    let a2 = b2 + 256 * b3;
    lemma_mod_multiples_vanish(a1, b0 as int, 256);
    lemma_small_mod(b0 as nat, 256);
    lemma_div_multiples_vanish_fancy(a1, b0 as int, 256);
    assert(w == 256 * a1 + b0);
    assert(w / 256 == a1);
    lemma_mod_multiples_vanish(a2, b1 as int, 256);
    lemma_small_mod(b1 as nat, 256);
    lemma_div_multiples_vanish_fancy(a2, b1 as int, 256);
    assert(a1 == 256 * a2 + b1);
    lemma_div_denominator(w, 256, 256);
    assert(w / 65536 == a2);
    lemma_mod_multiples_vanish(b3 as int, b2 as int, 256);
    lemma_small_mod(b2 as nat, 256);
    lemma_div_multiples_vanish_fancy(b3 as int, b2 as int, 256);
    assert(a2 == 256 * b3 + b2);
    lemma_div_denominator(w, 65536, 256);
    assert(w / 16777216 == b3);
    lemma_small_mod(b3 as nat, 256);
}

/// Append the four little-endian bytes of `w`.
pub fn push_word_le(out: &mut Vec<u8>, w: u32)
    ensures
        final(out)@ == old(out)@ + word_bytes(w),
{
    out.push((w % 256) as u8);
    out.push(((w / 256) % 256) as u8);
    out.push(((w / 65536) % 256) as u8);
    out.push((w / 16777216) as u8);
    proof {
        assert(w as int / 16777216 < 256) by {
            lemma_multiply_divide_lt(w as int, 16777216, 256);
        }
        lemma_small_mod((w as int / 16777216) as nat, 256);
        assert(out@ =~= old(out)@ + word_bytes(w));
    }
}

/// Read the word whose little-endian bytes start at `off`.
pub fn read_word_le(bytes: &Vec<u8>, off: usize) -> (w: u32)
    requires
        off + 4 <= bytes@.len(),
    ensures
        w == word_of_bytes(
            bytes@[off as int],
            bytes@[off as int + 1],
            bytes@[off as int + 2],
            bytes@[off as int + 3],
        ),
{
    let _n = bytes.len();
    bytes[off] as u32 + (bytes[off + 1] as u32) * 256 + (bytes[off + 2] as u32) * 65536 + (bytes[off
        + 3] as u32) * 16777216
}

// ----------------------------------------------------------------------
// Scalar kinds.
// ----------------------------------------------------------------------

/// A scalar kind the device understands: a value that occupies exactly one
/// 32-bit word, with a lossless word encoding.
pub trait WScalars: Sized + Copy {
    /// The word this scalar is stored as.
    spec fn as_word(self) -> u32;

    /// The scalar a stored word decodes to.
    spec fn of_word(w: u32) -> Self;

    /// Decoding an encoded scalar gives the scalar back.
    proof fn lemma_codec(self)
        ensures
            Self::of_word(self.as_word()) == self,
    ;

    /// Encode this scalar as its device word.
    fn to_word(self) -> (w: u32)
        ensures
            w == self.as_word(),
    ;

    /// Decode a device word.
    fn from_word(w: u32) -> (r: Self)
        ensures
            r == Self::of_word(w),
    ;

    /// Value equality, decided executably.
    fn eq_scalar(&self, other: &Self) -> (b: bool)
        ensures
            b == (*self == *other),
    ;
}

impl WScalars for u32 {
    open spec fn as_word(self) -> u32 {
        self
    }

    open spec fn of_word(w: u32) -> u32 {
        w
    }

    proof fn lemma_codec(self) {
    }

    fn to_word(self) -> u32 {
        self
    }

    fn from_word(w: u32) -> u32 {
        w
    }

    fn eq_scalar(&self, other: &Self) -> bool {
        *self == *other
    }
}

impl WScalars for i32 {
    /// Two's complement: non-negative values map to themselves, negative
    /// values to `self + 2^32`.
    open spec fn as_word(self) -> u32 {
        if self >= 0 {
            self as u32
        } else {
            (self + 0x1_0000_0000) as u32
        }
    }

    open spec fn of_word(w: u32) -> i32 {
        if w < 0x8000_0000 {
            w as i32
        } else {
            (w - 0x1_0000_0000) as i32
        }
    }

    proof fn lemma_codec(self) {
    }

    fn to_word(self) -> u32 {
        if self >= 0 {
            self as u32
        } else {
            ((self - i32::MIN) as u32) + 0x8000_0000
        }
    }

    fn from_word(w: u32) -> i32 {
        if w < 0x8000_0000 {
            w as i32
        } else {
            ((w - 0x8000_0000) as i32) + i32::MIN
        }
    }

    fn eq_scalar(&self, other: &Self) -> bool {
        *self == *other
    }
}

impl WScalars for bool {
    open spec fn as_word(self) -> u32 {
        if self {
            1
        } else {
            0
        }
    }

    /// Any non-zero word reads back as true, so decoding stays total.
    open spec fn of_word(w: u32) -> bool {
        w != 0
    }

    proof fn lemma_codec(self) {
    }

    fn to_word(self) -> u32 {
        if self {
            1
        } else {
            0
        }
    }

    fn from_word(w: u32) -> bool {
        w != 0
    }

    fn eq_scalar(&self, other: &Self) -> bool {
        *self == *other
    }
}

// ----------------------------------------------------------------------
// Packed scalar runs.
// ----------------------------------------------------------------------

/// The packed byte image of a run of scalars: four bytes per scalar, no
/// padding.
pub open spec fn packed_bytes<T: WScalars>(fs: Seq<T>) -> Seq<u8> {
    Seq::new(4 * fs.len(), |p: int| word_bytes(fs[p / 4].as_word())[p % 4])
}

/// The scalars a byte image decodes to, one per four bytes.
pub open spec fn decoded_scalars<T: WScalars>(bytes: Seq<u8>, count: int) -> Seq<T> {
    Seq::new(
        count as nat,
        |k: int|
            T::of_word(
                word_of_bytes(bytes[4 * k], bytes[4 * k + 1], bytes[4 * k + 2], bytes[4 * k + 3]),
            ),
    )
}

/// The four bytes of field `k` inside a packed image are that field's word
/// image.
proof fn lemma_packed_bytes_field<T: WScalars>(fs: Seq<T>, k: int, r: int)
    requires
        0 <= k < fs.len(),
        0 <= r < 4,
    ensures
        packed_bytes(fs)[4 * k + r] == word_bytes(fs[k].as_word())[r],
{
    lemma_div_multiples_vanish_fancy(k, r, 4);
    lemma_mod_multiples_vanish(k, r, 4);
    lemma_small_mod(r as nat, 4);
    assert(4 * k + r == k * 4 + r);
}

/// Encode a run of scalars into its packed byte image.
pub fn scalars_to_bytes<T: WScalars>(vals: &Vec<T>) -> (b: Vec<u8>)
    ensures
        b@ == packed_bytes(vals@),
{
    let mut b: Vec<u8> = Vec::new();
    let mut k: usize = 0;
    let n = vals.len();
    while k < n
        invariant
            k <= n,
            n == vals@.len(),
            b@.len() == 4 * k,
            forall|p: int| 0 <= p < 4 * k ==> b@[p] == packed_bytes(vals@)[p],
        decreases n - k,
    {
        let ghost prev = b@;
        push_word_le(&mut b, vals[k].to_word());
        proof {
            assert forall|p: int| 4 * k <= p < 4 * k + 4 implies b@[p] == packed_bytes(vals@)[p] by {
                lemma_packed_bytes_field(vals@, k as int, p - 4 * k);
            }
        }
        k += 1;
    }
    proof {
        assert(b@ =~= packed_bytes(vals@));
    }
    b
}

/// Decode `count` scalars from a packed byte image.
pub fn scalars_from_bytes<T: WScalars>(bytes: &Vec<u8>, count: usize) -> (r: Vec<T>)
    requires
        4 * count <= bytes@.len(),
    ensures
        r@ == decoded_scalars::<T>(bytes@, count as int),
{
    let mut r: Vec<T> = Vec::new();
    let mut k: usize = 0;
    let n = bytes.len();
    while k < count
        invariant
            k <= count,
            n == bytes@.len(),
            4 * count <= n,
            r@.len() == k,
            forall|q: int| 0 <= q < k ==> r@[q] == decoded_scalars::<T>(bytes@, count as int)[q],
        decreases count - k,
    {
        let w = read_word_le(bytes, 4 * k);
        r.push(T::from_word(w));
        k += 1;
    }
    proof {
        assert(r@ =~= decoded_scalars::<T>(bytes@, count as int));
    }
    r
}

// ----------------------------------------------------------------------
// Host / device byte traits.
// ----------------------------------------------------------------------

/// A value with a fixed byte image the device can consume.
pub trait WHostToDev {
    /// Whether the value is in a state whose byte image is defined.
    spec fn encodable(&self) -> bool;

    /// The byte image of the value.
    spec fn spec_bytes(&self) -> Seq<u8>;

    /// Produce the byte image.
    fn bytes(&self) -> (b: Vec<u8>)
        requires
            self.encodable(),
        ensures
            b@ == self.spec_bytes(),
    ;
}

/// A value that can be rebuilt from a device byte image.
pub trait WDevToHost: Sized {
    /// Whether a fresh value can be read from this image.
    spec fn decodable(bytes: Seq<u8>) -> bool;

    /// What it means for a value to be the decoding of an image.
    spec fn is_decoding_of(&self, bytes: Seq<u8>) -> bool;

    /// Whether this value's shape matches the image, for in-place reads.
    spec fn shape_matches(&self, bytes: Seq<u8>) -> bool;

    /// What it means for a value to be `from` re-read from a matching image.
    spec fn is_reread_of(&self, from: Self, bytes: Seq<u8>) -> bool;

    /// Build a fresh value from a byte image.
    fn from_bytes_new(bytes: &Vec<u8>) -> (r: Self)
        requires
            Self::decodable(bytes@),
        ensures
            r.is_decoding_of(bytes@),
    ;

    /// Re-read this value from a byte image of its own shape.
    fn from_bytes(&mut self, bytes: &Vec<u8>)
        requires
            old(self).shape_matches(bytes@),
        ensures
            final(self).is_reread_of(*old(self), bytes@),
    ;
}

/// Decoding a packed image recovers every scalar.
pub proof fn lemma_packed_round_trip<T: WScalars>(fs: Seq<T>)
    ensures
        packed_bytes(fs).len() == 4 * fs.len(),
        decoded_scalars::<T>(packed_bytes(fs), fs.len() as int) =~= fs,
{
    assert forall|k: int| 0 <= k < fs.len() implies decoded_scalars::<T>(
        packed_bytes(fs),
        fs.len() as int,
    )[k] == fs[k] by {
        lemma_packed_bytes_field(fs, k, 0);
        lemma_packed_bytes_field(fs, k, 1);
        lemma_packed_bytes_field(fs, k, 2);
        lemma_packed_bytes_field(fs, k, 3);
        lemma_word_codec(fs[k].as_word());
        fs[k].lemma_codec();
    }
}

// ----------------------------------------------------------------------
// The padded record type.
// ----------------------------------------------------------------------

/// The byte image of a padded record: the packed scalars at the front,
/// inert zero bytes up to exactly `size`.
pub open spec fn record_bytes<T: WScalars>(fs: Seq<T>, size: int) -> Seq<u8> {
    Seq::new(
        size as nat,
        |p: int|
            if p < 4 * fs.len() {
                packed_bytes(fs)[p]
            } else {
                0u8
            },
    )
}

/// A fixed-size device record over one scalar kind: `fields` occupy the
/// natural packed size at the front of the byte image, the remainder up to
/// the requested byte size is inert zero padding.  Construction rejects any
/// size smaller than the natural packed size, so `encode` is total.
pub struct WVec<T: WScalars> {
    fields: Vec<T>,
    size: usize,
}

impl<T: WScalars> WVec<T> {
    /// The logical fields.
    pub closed spec fn spec_fields(self) -> Seq<T> {
        self.fields@
    }

    /// The requested total byte size.
    pub closed spec fn spec_size(self) -> int {
        self.size as int
    }

    /// The record's invariant: the fields fit in the requested size.
    pub open spec fn wf(self) -> bool {
        4 * self.spec_fields().len() <= self.spec_size()
    }

    /// Build a record; a size below the natural packed size is rejected
    /// here, at construction, never at use.
    pub fn new(fields: Vec<T>, size: usize) -> (r: Result<WVec<T>, WarpError>)
        ensures
            (4 * fields@.len() <= size) <==> r is Ok,
            r is Ok ==> r->Ok_0.spec_fields() == fields@ && r->Ok_0.spec_size() == size
                && r->Ok_0.wf(),
            r is Err ==> r->Err_0 == WarpError::ParameterOutOfRange,
    {
        if fields.len() > size / 4 {
            proof {
                lemma_fundamental_div_mod(size as int, 4);
            }
            return Err(WarpError::ParameterOutOfRange);
        }
        proof {
            lemma_fundamental_div_mod(size as int, 4);
        }
        Ok(WVec { fields, size })
    }

    /// The number of logical fields.
    pub fn field_count(&self) -> (n: usize)
        ensures
            n == self.spec_fields().len(),
    {
        self.fields.len()
    }

    /// The total byte size of the record's image.
    pub fn byte_size(&self) -> (s: usize)
        ensures
            s == self.spec_size(),
    {
        self.size
    }

    /// Read field `k`.
    pub fn get(&self, k: usize) -> (v: T)
        requires
            k < self.spec_fields().len(),
        ensures
            v == self.spec_fields()[k as int],
    {
        self.fields[k]
    }

    /// Overwrite field `k`.
    pub fn set(&mut self, k: usize, v: T)
        requires
            k < old(self).spec_fields().len(),
        ensures
            final(self).spec_fields() == old(self).spec_fields().update(k as int, v),
            final(self).spec_size() == old(self).spec_size(),
    {
        self.fields.set(k, v);
    }

    /// Decode a record of `count` fields from an image; the whole image
    /// length becomes the record's size, so the round trip preserves it.
    pub fn decode(bytes: &Vec<u8>, count: usize) -> (r: Result<WVec<T>, WarpError>)
        ensures
            (4 * count <= bytes@.len()) <==> r is Ok,
            r is Ok ==> r->Ok_0.spec_fields() == decoded_scalars::<T>(bytes@, count as int)
                && r->Ok_0.spec_size() == bytes@.len() && r->Ok_0.wf(),
            r is Err ==> r->Err_0 == WarpError::ParameterOutOfRange,
    {
        let n = bytes.len();
        if count > n / 4 {
            proof {
                lemma_fundamental_div_mod(n as int, 4);
            }
            return Err(WarpError::ParameterOutOfRange);
        }
        proof {
            lemma_fundamental_div_mod(n as int, 4);
        }
        let fields = scalars_from_bytes::<T>(bytes, count);
        Ok(WVec { fields, size: n })
    }
}

impl<T: WScalars> WHostToDev for WVec<T> {
    open spec fn encodable(&self) -> bool {
        self.wf()
    }

    open spec fn spec_bytes(&self) -> Seq<u8> {
        record_bytes(self.spec_fields(), self.spec_size())
    }

    /// Encode the record: packed fields, then zero padding to the size.
    fn bytes(&self) -> (b: Vec<u8>)
        ensures
            b@ == self.spec_bytes(),
    {
        let mut b = scalars_to_bytes(&self.fields);
        while b.len() < self.size
            invariant
                4 * self.spec_fields().len() <= b@.len() <= self.spec_size(),
                forall|p: int|
                    0 <= p < b@.len() ==> b@[p] == record_bytes(
                        self.spec_fields(),
                        self.spec_size(),
                    )[p],
            decreases self.spec_size() - b@.len(),
        {
            b.push(0);
        }
        proof {
            assert(b@ =~= self.spec_bytes());
        }
        b
    }
}

impl<T: WScalars> WDevToHost for WVec<T> {
    /// A fresh record is read fully packed: every four bytes one field.
    open spec fn decodable(bytes: Seq<u8>) -> bool {
        bytes.len() % 4 == 0
    }

    open spec fn is_decoding_of(&self, bytes: Seq<u8>) -> bool {
        &&& self.spec_fields() == decoded_scalars::<T>(bytes, bytes.len() as int / 4)
        &&& self.spec_size() == bytes.len()
    }

    /// An in-place read keeps this record's own field count and size.
    open spec fn shape_matches(&self, bytes: Seq<u8>) -> bool {
        4 * self.spec_fields().len() <= bytes.len()
    }

    open spec fn is_reread_of(&self, from: Self, bytes: Seq<u8>) -> bool {
        &&& self.spec_fields() == decoded_scalars::<T>(bytes, from.spec_fields().len() as int)
        &&& self.spec_size() == from.spec_size()
    }

    fn from_bytes_new(bytes: &Vec<u8>) -> (r: Self) {
        let n = bytes.len();
        proof {
            lemma_fundamental_div_mod(n as int, 4);
        }
        let fields = scalars_from_bytes::<T>(bytes, n / 4);
        WVec { fields, size: n }
    }

    fn from_bytes(&mut self, bytes: &Vec<u8>) {
        let count = self.fields.len();
        self.fields = scalars_from_bytes::<T>(bytes, count);
    }
}

/// Round trip: the byte image of any well-formed record is exactly its
/// requested size, and decoding it recovers every field.  This holds for
/// every scalar kind, every field count and every supported size; it is
/// the invariant every device-resident buffer rests on.
#[verifier::rlimit(60)]
pub proof fn lemma_record_round_trip<T: WScalars>(fields: Seq<T>, size: int)
    requires
        4 * fields.len() <= size,
    ensures
        record_bytes(fields, size).len() == size,
        decoded_scalars::<T>(record_bytes(fields, size), fields.len() as int) =~= fields,
{
    let enc = record_bytes(fields, size);
    let dec = decoded_scalars::<T>(enc, fields.len() as int);
    assert forall|k: int| 0 <= k < fields.len() implies dec[k] == fields[k] by {
        let w = fields[k].as_word();
        lemma_packed_bytes_field(fields, k, 0);
        lemma_packed_bytes_field(fields, k, 1);
        lemma_packed_bytes_field(fields, k, 2);
        lemma_packed_bytes_field(fields, k, 3);
        assert(enc[4 * k] == word_bytes(w)[0]);
        assert(enc[4 * k + 1] == word_bytes(w)[1]);
        assert(enc[4 * k + 2] == word_bytes(w)[2]);
        assert(enc[4 * k + 3] == word_bytes(w)[3]);
        lemma_word_codec(w);
        fields[k].lemma_codec();
    }
}

} // verus!
