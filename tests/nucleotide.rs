use fasta_rs::homopolymer::{find_homopolymers_in_record, homopolymer_compression, u8_to_char, valid_homopolymer};
use fasta_rs::nucleotide::{iupac_table, nucleotide_counts, reverse_complement, usize_sub};
use fasta_rs::options::ascending_or_descending;
use std::cmp::Ordering;

#[test]
fn test_reverse_complement() {
    let cases: Vec<(&[u8], &[u8])> = vec![
        (b"", b""),
        (b"A", b"T"),
        (b"C", b"G"),
        (b"G", b"C"),
        (b"T", b"A"),
        (b"AAAAA", b"TTTTT"),
        (b"ATCG", b"CGAT"),
    ];
    for (seq, expected) in cases {
        assert_eq!(reverse_complement(seq).as_slice(), expected);
    }
}

#[test]
fn reverse_complement_twice_is_identity() {
    let s = b"GATTACACCGT";
    assert_eq!(reverse_complement(&reverse_complement(s)), s.to_vec());
}

#[test]
fn test_usize_sub() {
    for (a, b, expected) in [(0, 0, 0), (5, 2, 3), (5, 10, 0)] {
        assert_eq!(usize_sub(a, b), expected);
    }
}

#[test]
fn test_nucleotide_counts() {
    let cases: Vec<(&[u8], usize, usize)> =
        vec![(b"", 0, 0), (b"A", 0, 0), (b"AAaaTTtt", 4, 0), (b"NNaattccggATCG", 8, 2)];
    for (seq, softmasked, ambiguous) in cases {
        let counts = nucleotide_counts(seq);
        assert_eq!(counts.softmasked, softmasked);
        assert_eq!(counts.ambiguous, ambiguous);
    }
    let counts = nucleotide_counts(b"AACGGGTN");
    assert_eq!((counts.a, counts.c, counts.g, counts.t), (2, 1, 3, 1));
}

#[test]
fn test_compression() {
    let cases: Vec<(&[u8], usize, &[u8])> = vec![
        (b"", 1, b""),
        (b"ATCG", 1, b"ATCG"),
        (b"ATCG", 2, b"ATCG"),
        (b"AAAAA", 3, b"AAA"),
        (b"AAATTTCCCGGG", 2, b"AATTCCGG"),
        (b"AAATTTCCCGGG", 3, b"AAATTTCCCGGG"),
        (b"AAATTTCCCGGG", 10, b"AAATTTCCCGGG"),
    ];
    for (seq, max_hp_len, expected) in cases {
        assert_eq!(&homopolymer_compression(seq, max_hp_len)[..], expected);
    }
}

#[test]
fn test_valid_homopolymer() {
    assert!(valid_homopolymer(0, 5, &b'A', 5, false));
    assert!(!valid_homopolymer(0, 1, &b'A', 5, false));
    assert!(!valid_homopolymer(0, 10, &b'N', 5, true));
    assert_eq!(u8_to_char(&b'g'), Some('g'));
    assert_eq!(u8_to_char(&b'N'), None);
}

#[test]
fn homopolymer_runs() {
    assert_eq!(find_homopolymers_in_record(b"AAAACGGGGGTNNNN", 4, false), vec![(0, 4), (5, 10), (11, 15)]);
    assert_eq!(find_homopolymers_in_record(b"AAAACGGGGGTNNNN", 4, true), vec![(0, 4), (5, 10)]);
    assert_eq!(find_homopolymers_in_record(b"", 2, false), Vec::<(usize, usize)>::new());
}

#[test]
fn ambiguity_table_has_eleven_codes() {
    let t = iupac_table();
    assert_eq!(t.len(), 11);
    assert_eq!(t[0], (b'N', b"ACGT".to_vec()));
    assert_eq!(t[10], (b'V', b"ACG".to_vec()));
}

#[test]
fn ordering_reversal() {
    assert_eq!(ascending_or_descending(Ordering::Less, false), Ordering::Less);
    assert_eq!(ascending_or_descending(Ordering::Less, true), Ordering::Greater);
    assert_eq!(ascending_or_descending(Ordering::Equal, true), Ordering::Equal);
}
