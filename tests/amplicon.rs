use fasta_rs::amplicon::{
    amplicon_exact_search, amplicon_fuzzy_search, amplicon_search, pair_fuzzy_hits, pair_hits,
    AmpliconResult, SearchType,
};
use fasta_rs::matching::{dedup_positions, find_occurrences};
use fasta_rs::primer::PrimerPair;
use fasta_rs::report::{amplicon_tsv_rows, record_amplicon_rows};

fn pair(forward: &[u8], reverse: &[u8], min_len: usize, max_len: usize, mm: Option<usize>) -> PrimerPair {
    PrimerPair {
        primer_name: "some_primer".to_string(),
        forward_primer: forward.to_vec(),
        reverse_primer: reverse.to_vec(),
        min_len,
        max_len,
        num_mismatch: mm,
    }
}

#[test]
fn test_amplicon_exact_match() {
    let cases: Vec<(&[u8], PrimerPair, Vec<AmpliconResult>)> = vec![
        (
            b"",
            PrimerPair {
                forward_primer: b"A".to_vec(),
                reverse_primer: b"A".to_vec(),
                primer_name: "some_primer".to_string(),
                min_len: 0,
                max_len: 10,
                num_mismatch: Some(0),
            },
            vec![],
        ),
        (
            b"ATCGTTTTTATCG",
            PrimerPair {
                forward_primer: b"ATCG".to_vec(),
                reverse_primer: b"CGAT".to_vec(),
                primer_name: "some_primer".to_string(),
                min_len: 5,
                max_len: 5,
                num_mismatch: Some(0),
            },
            vec![AmpliconResult { amplicon: b"TTTTT", start: 4, end: 4 + 5, insert_length: 5, total_length: 4 + 5 + 4 }],
        ),
        (
            b"ATCGTTTTTATCGTTTTTATCG",
            PrimerPair {
                forward_primer: b"ATCG".to_vec(),
                reverse_primer: b"CGAT".to_vec(),
                primer_name: "some_primer".to_string(),
                min_len: 5,
                max_len: 5,
                num_mismatch: Some(0),
            },
            vec![
                AmpliconResult { amplicon: b"TTTTT", start: 4, end: 4 + 5, insert_length: 5, total_length: 4 + 5 + 4 },
                AmpliconResult { amplicon: b"TTTTT", start: 13, end: 13 + 5, insert_length: 5, total_length: 4 + 5 + 4 },
            ],
        ),
    ];
    for (seq, primer_pair, expected) in cases {
        assert_eq!(amplicon_exact_search(seq, &primer_pair), expected);
    }
}

#[test]
fn adjacent_primers_give_empty_insert() {
    let seq = b"ATCG";
    let p = pair(b"A", b"A", 0, 10, Some(0));
    let r = amplicon_exact_search(seq, &p);
    assert_eq!(
        r,
        vec![AmpliconResult { amplicon: b"", start: 1, end: 1, insert_length: 0, total_length: 2 }]
    );
    let p = pair(b"A", b"A", 1, 10, Some(0));
    assert!(amplicon_exact_search(seq, &p).is_empty());
}

#[test]
fn one_amplicon_between_primers() {
    let p = pair(b"ATCG", b"CGAT", 5, 5, Some(0));
    let r = amplicon_exact_search(b"ATCGTTTTTATCG", &p);
    assert_eq!(r.len(), 1);
    assert_eq!((r[0].start, r[0].end, r[0].insert_length, r[0].total_length), (4, 9, 5, 13));
    assert_eq!(r[0].amplicon, b"TTTTT");
}

#[test]
fn two_amplicons_between_three_sites() {
    let p = pair(b"ATCG", b"CGAT", 5, 5, Some(0));
    let r = amplicon_exact_search(b"ATCGTTTTTATCGTTTTTATCG", &p);
    let bounds: Vec<(usize, usize)> = r.iter().map(|a| (a.start, a.end)).collect();
    assert_eq!(bounds, vec![(4, 9), (13, 18)]);
    assert!(r.iter().all(|a| a.amplicon == b"TTTTT"));
}

#[test]
fn empty_reference_has_no_amplicons() {
    let p = pair(b"ATCG", b"CGAT", 0, 100, None);
    assert!(amplicon_exact_search(b"", &p).is_empty());
    assert!(amplicon_fuzzy_search(b"", &p).is_empty());
    assert!(record_amplicon_rows(b"chr1", b"", &vec![p], &SearchType::Exact).is_empty());
}

#[test]
fn reference_shorter_than_forward_primer() {
    let p = pair(b"ATCGATCG", b"A", 0, 100, Some(0));
    assert!(amplicon_exact_search(b"ATCGAT", &p).is_empty());
}

#[test]
fn single_length_window_admits_only_that_length() {
    let seq = b"ATTTTTTT";
    let p = pair(b"A", b"A", 3, 3, Some(0));
    let r = amplicon_exact_search(seq, &p);
    assert_eq!(r.len(), 1);
    assert_eq!((r[0].start, r[0].end, r[0].insert_length), (1, 4, 3));
    let p = pair(b"A", b"A", 2, 4, Some(0));
    let lens: Vec<usize> = amplicon_exact_search(seq, &p).iter().map(|a| a.insert_length).collect();
    assert_eq!(lens, vec![2, 3, 4]);
}

#[test]
fn overlapping_occurrences_are_all_found() {
    assert_eq!(find_occurrences(b"AAAA", b"AA"), vec![0, 1, 2]);
    assert_eq!(find_occurrences(b"ACGT", b"GA"), Vec::<usize>::new());
    assert_eq!(find_occurrences(b"", b"A"), Vec::<usize>::new());
}

#[test]
fn fuzzy_search_tolerates_one_substitution() {
    let p = pair(b"ATCG", b"ATCG", 5, 5, Some(1));
    let r = amplicon_fuzzy_search(b"AACGTTTTTCGAT", &p);
    assert_eq!(r.len(), 1);
    assert_eq!((r[0].start, r[0].end), (4, 9));
    assert_eq!(r[0].amplicon, b"TTTTT");
    assert_eq!(r[0].total_length, 13);
}

#[test]
fn fuzzy_search_expands_ambiguity_codes() {
    let p = pair(b"ANCG", b"CGAT", 5, 5, Some(0));
    let r = amplicon_fuzzy_search(b"ATCGTTTTTATCG", &p);
    assert_eq!(r.len(), 1);
    assert_eq!((r[0].start, r[0].end), (4, 9));
    let exact = amplicon_exact_search(b"ATCGTTTTTATCG", &p);
    assert!(exact.is_empty());
}

#[test]
fn fuzzy_starts_are_distinct() {
    let p = pair(b"ATCG", b"CGAT", 5, 5, None);
    let r = amplicon_fuzzy_search(b"AATCGTTTTTATCGATT", &p);
    let mut starts: Vec<usize> = r.iter().map(|a| a.start).collect();
    let n = starts.len();
    starts.dedup();
    assert_eq!(starts.len(), n);
}

#[test]
fn pairing_keeps_order_and_window() {
    let seq = b"ACGTACGTACGT";
    let p = pair(b"A", b"T", 1, 4, Some(0));
    let r = pair_hits(seq, &vec![1, 5], &vec![2, 4, 8], &p);
    let bounds: Vec<(usize, usize)> = r.iter().map(|a| (a.start, a.end)).collect();
    assert_eq!(bounds, vec![(1, 2), (1, 4), (5, 8)]);
    assert_eq!(r[2].amplicon, b"CGT");
    assert_eq!(r[2].total_length, 1 + 3 + 1);
}

#[test]
fn fuzzy_pairing_drops_repeated_hits() {
    let seq = b"ACGTACGTACGT";
    let p = pair(b"A", b"T", 0, 10, Some(1));
    let r = pair_fuzzy_hits(seq, &vec![2, 2, 3], &vec![6, 6, 1], &p);
    let bounds: Vec<(usize, usize)> = r.iter().map(|a| (a.start, a.end)).collect();
    assert_eq!(bounds, vec![(2, 6), (3, 6)]);
    assert_eq!(dedup_positions(&vec![3, 1, 3, 2, 1]), vec![3, 1, 2]);
}

#[test]
fn search_type_selects_the_matcher() {
    let p = pair(b"ANCG", b"CGAT", 5, 5, Some(0));
    assert!(amplicon_search(b"ATCGTTTTTATCG", &p, &SearchType::Exact).is_empty());
    assert_eq!(amplicon_search(b"ATCGTTTTTATCG", &p, &SearchType::Fuzzy).len(), 1);
}

#[test]
fn rows_are_tab_separated() {
    let p = pair(b"ATCG", b"CGAT", 5, 5, Some(0));
    let r = amplicon_exact_search(b"ATCGTTTTTATCG", &p);
    let rows = amplicon_tsv_rows(b"chr1", b"some_primer", &r);
    assert_eq!(rows, b"chr1\tsome_primer\t4\t9\t5\t13\tTTTTT\n".to_vec());
    let all = record_amplicon_rows(b"chr1", b"ATCGTTTTTATCG", &vec![p], &SearchType::Exact);
    assert_eq!(all, rows);
}

#[test]
fn rows_cover_every_primer_pair() {
    let first = pair(b"ATCG", b"CGAT", 5, 5, Some(0));
    let mut second = pair(b"TTTTT", b"CGAT", 0, 0, Some(0));
    second.primer_name = "second".to_string();
    let rows = record_amplicon_rows(b"s", b"ATCGTTTTTATCG", &vec![first, second], &SearchType::Exact);
    assert_eq!(
        String::from_utf8(rows).unwrap(),
        "s\tsome_primer\t4\t9\t5\t13\tTTTTT\ns\tsecond\t9\t9\t0\t9\t\n"
    );
}
