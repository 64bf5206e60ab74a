use rustwarp::error::WarpError;
use rustwarp::image::Pix;
use rustwarp::layout::{scalars_from_bytes, scalars_to_bytes, WDevToHost, WHostToDev, WScalars,
    WVec};
use rustwarp::wavefront::NWInfo;

/// A small deterministic generator so the sample set is reproducible.
struct Lcg(u64);

impl Lcg {
    fn next_u32(&mut self) -> u32 {
        self.0 = self.0.wrapping_mul(6364136223846793005).wrapping_add(1442695040888963407);
        (self.0 >> 32) as u32
    }
}

#[test]
fn test_two_field_record_is_sixteen_bytes() {
    let v = WVec::<u32>::new(vec![0xdeadbeef, 0x01020304], 16).unwrap();
    let b = v.bytes();
    assert_eq!(b.len(), 16);
    assert_eq!(&b[0..4], &[0xef, 0xbe, 0xad, 0xde]);
    assert_eq!(&b[4..8], &[0x04, 0x03, 0x02, 0x01]);
    assert_eq!(&b[8..16], &[0u8; 8]);
}

#[test]
fn test_two_field_record_round_trips_256_samples() {
    let mut rng = Lcg(42);
    for _ in 0..256 {
        let x = rng.next_u32();
        let y = rng.next_u32();
        let v = WVec::<u32>::new(vec![x, y], 16).unwrap();
        let b = v.bytes();
        assert_eq!(b.len(), 16);
        let d = WVec::<u32>::decode(&b, 2).unwrap();
        assert_eq!(d.field_count(), 2);
        assert_eq!(d.byte_size(), 16);
        assert_eq!(d.get(0), x);
        assert_eq!(d.get(1), y);
    }
}

#[test]
fn test_round_trip_across_all_supported_paddings() {
    // Two 4-byte fields padded to every size from the natural 8 bytes up
    // to 8 + 14: each is an independent conformance point.
    let fields: [i32; 2] = [-123456789, 987654321];
    for size in 8..=22usize {
        let v = WVec::<i32>::new(vec![fields[0], fields[1]], size).unwrap();
        let b = v.bytes();
        assert_eq!(b.len(), size);
        let d = WVec::<i32>::decode(&b, 2).unwrap();
        assert_eq!(d.get(0), fields[0]);
        assert_eq!(d.get(1), fields[1]);
    }
}

#[test]
fn test_alignment_below_natural_size_is_rejected() {
    assert!(matches!(
        WVec::<u32>::new(vec![1, 2], 7),
        Err(WarpError::ParameterOutOfRange)
    ));
    assert!(matches!(WVec::<u32>::new(vec![], 0), Ok(_)));
}

#[test]
fn test_scalar_word_round_trips() {
    for v in [i32::MIN, -1, 0, 1, i32::MAX, -123456789] {
        assert_eq!(i32::from_word(v.to_word()), v);
    }
    assert_eq!((-1i32).to_word(), 0xffff_ffff);
    assert_eq!(bool::from_word(true.to_word()), true);
    assert_eq!(bool::from_word(false.to_word()), false);
    let p = Pix::new(1, 2, 3, 4);
    assert_eq!(p.to_word(), 0x04030201);
    assert_eq!(Pix::from_word(p.to_word()), p);
}

#[test]
fn test_nw_info_byte_image() {
    let info = NWInfo {
        seq1_len: 3,
        seq2_len: 258,
        gap_penalty: -1,
        mismatch_penalty: -2,
        match_score: 1,
    };
    let b = info.bytes();
    assert_eq!(b.len(), 20);
    assert_eq!(&b[0..4], &[3, 0, 0, 0]);
    assert_eq!(&b[4..8], &[2, 1, 0, 0]);
    assert_eq!(&b[8..12], &[0xff, 0xff, 0xff, 0xff]);
    assert_eq!(&b[12..16], &[0xfe, 0xff, 0xff, 0xff]);
    assert_eq!(&b[16..20], &[1, 0, 0, 0]);
}

#[test]
fn test_nw_info_decodes_back() {
    let info = NWInfo {
        seq1_len: 7,
        seq2_len: 9,
        gap_penalty: -1,
        mismatch_penalty: -1,
        match_score: 1,
    };
    let b = info.bytes();
    assert_eq!(NWInfo::from_bytes_new(&b), info);
    let mut other = NWInfo {
        seq1_len: 0,
        seq2_len: 0,
        gap_penalty: 0,
        mismatch_penalty: 0,
        match_score: 0,
    };
    other.from_bytes(&b);
    assert_eq!(other, info);
}

#[test]
fn test_score_buffer_round_trip() {
    let scores: Vec<i32> = vec![0, -1, -2, 5, i32::MIN, i32::MAX];
    let b = scalars_to_bytes(&scores);
    assert_eq!(b.len(), 4 * scores.len());
    let back: Vec<i32> = scalars_from_bytes(&b, scores.len());
    assert_eq!(back, scores);
}
