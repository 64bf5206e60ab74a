use rustwarp::align::needleman_wunsch_cpu;
use rustwarp::error::WarpError;
use rustwarp::sequence::{Nucleotide, Sequence};
use rustwarp::wavefront::needleman_wunsch_wavefront;

fn seq(text: &str) -> Sequence {
    Sequence::parse(text).unwrap()
}

#[test]
fn test_needleman_wunsch_cpu() {
    let tests: &[(&str, &str, i32, i32, i32, i32)] = &[
        ("GCATGCG", "GATTACA", 1, -1, -1, 0),
        ("ACTGATTCA", "ACGCATCA", 2, -2, -2, 8),
    ];

    for &(s1, s2, match_score, mismatch_penalty, gap_penalty, result) in tests {
        let seq1 = seq(s1);
        let seq2 = seq(s2);
        let score =
            needleman_wunsch_cpu(&seq1, &seq2, gap_penalty, mismatch_penalty, match_score);
        assert_eq!(score, result);
    }
}

#[test]
fn test_alignment_is_symmetric() {
    let pairs: &[(&str, &str, i32, i32, i32)] = &[
        ("GCATGCG", "GATTACA", -1, -1, 1),
        ("ACTGATTCA", "ACGCATCA", -2, -2, 2),
        ("A", "ACGTACGT", -3, -1, 2),
        ("", "ACGT", -3, -1, 2),
    ];
    for &(s1, s2, gap, mismatch, match_score) in pairs {
        let a = seq(s1);
        let b = seq(s2);
        assert_eq!(
            needleman_wunsch_cpu(&a, &b, gap, mismatch, match_score),
            needleman_wunsch_cpu(&b, &a, gap, mismatch, match_score),
        );
    }
}

#[test]
fn test_wavefront_matches_cpu_oracle() {
    let pairs: &[(&str, &str, i32, i32, i32)] = &[
        ("GCATGCG", "GATTACA", -1, -1, 1),
        ("ACTGATTCA", "ACGCATCA", -2, -2, 2),
        ("AC", "AC", -2, -2, 2),
        ("", "ACGT", -3, -1, 2),
        ("", "", -3, -1, 2),
        ("T", "A", -1, -5, 3),
        ("ACGTACGTACGT", "TGCA", -2, -1, 3),
    ];
    for &(s1, s2, gap, mismatch, match_score) in pairs {
        let a = seq(s1);
        let b = seq(s2);
        assert_eq!(
            needleman_wunsch_wavefront(&a, &b, gap, mismatch, match_score),
            needleman_wunsch_cpu(&a, &b, gap, mismatch, match_score),
        );
    }
}

#[test]
fn test_empty_sequence_boundary() {
    let empty = seq("");
    let other = seq("ACGT");
    assert_eq!(needleman_wunsch_cpu(&empty, &other, -3, -1, 1), -12);
    assert_eq!(needleman_wunsch_cpu(&other, &empty, -3, -1, 1), -12);
    assert_eq!(needleman_wunsch_wavefront(&empty, &other, -3, -1, 1), -12);
    assert_eq!(needleman_wunsch_cpu(&empty, &empty, -3, -1, 1), 0);
}

#[test]
fn test_identical_short_sequences() {
    let a = seq("AC");
    let b = seq("AC");
    assert_eq!(needleman_wunsch_cpu(&a, &b, -2, -2, 2), 4);
    assert_eq!(needleman_wunsch_wavefront(&a, &b, -2, -2, 2), 4);
}

#[test]
fn test_parse_is_case_insensitive() {
    let upper = seq("GCATGCG");
    let lower = seq("gcatgcg");
    assert_eq!(upper, lower);
    assert_eq!(upper.len(), 7);
}

#[test]
fn test_parse_rejects_invalid_character() {
    assert_eq!(Sequence::parse("ACGX"), Err(WarpError::InvalidNucleotide));
    assert_eq!(Sequence::parse("AC GT"), Err(WarpError::InvalidNucleotide));
    assert_eq!(WarpError::InvalidNucleotide.describe(), "invalid nucleotide");
}

#[test]
fn test_nucleotide_codes() {
    let symbols = [Nucleotide::A, Nucleotide::C, Nucleotide::G, Nucleotide::T];
    for (expect, n) in symbols.iter().enumerate() {
        assert_eq!(n.code(), expect as u32);
        assert_eq!(Nucleotide::from_code(expect as u32).unwrap(), *n);
    }
    assert_eq!(Nucleotide::from_code(4), Err(WarpError::InvalidNucleotide));
    let codes = seq("GATTACA").to_codes();
    assert_eq!(codes, vec![2, 0, 3, 3, 0, 1, 0]);
}
