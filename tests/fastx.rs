use fasta_rs::errors::AppError;
use fasta_rs::fastx::{
    fasta_extract, fasta_grep, fasta_head, fasta_reverse, length_stats, select_records, validate_fastx, FastxRecord,
    LengthStats,
};

fn fasta(id: &str, seq: &str) -> FastxRecord {
    FastxRecord { id: id.as_bytes().to_vec(), seq: seq.as_bytes().to_vec(), qual: None }
}

#[test]
fn extract_clips_to_sequence() {
    let records = vec![fasta("a", "ACGTACGT"), fasta("b", "AC"), fasta("c", "ACGTA")];
    let out = fasta_extract(&records, 2, 6).unwrap();
    assert_eq!(String::from_utf8(out).unwrap(), ">a|2-6\nGTAC\n>c|2-5\nGTA\n");
}

#[test]
fn extract_rejects_empty_range() {
    let records = vec![fasta("a", "ACGT")];
    assert_eq!(fasta_extract(&records, 3, 3), Err(AppError::InvalidRangeError));
    assert_eq!(fasta_extract(&records, 4, 1), Err(AppError::InvalidRangeError));
}

#[test]
fn extract_rejects_invalid_identifier() {
    let records = vec![FastxRecord { id: vec![0xff, 0xfe], seq: b"ACGT".to_vec(), qual: None }];
    assert_eq!(fasta_extract(&records, 0, 2), Err(AppError::InvalidUtf8Error));
    assert_eq!(fasta_extract(&records, 10, 12), Ok(Vec::new()));
}

#[test]
fn reverse_uses_iupac_complements() {
    let records = vec![fasta("x", "AACC"), fasta("y", "acgRYN")];
    let out = fasta_reverse(&records);
    assert_eq!(String::from_utf8(out).unwrap(), ">x\nGGTT\n>y\nNRYcgt\n");
}

#[test]
fn head_writes_records_in_their_format() {
    let records = vec![
        fasta("a", "ACGT"),
        FastxRecord { id: b"q".to_vec(), seq: b"AC".to_vec(), qual: Some(b"II".to_vec()) },
        fasta("c", "GG"),
    ];
    assert_eq!(String::from_utf8(fasta_head(&records, 2)).unwrap(), ">a\nACGT\n@q\nAC\n+\nII\n");
    assert_eq!(String::from_utf8(fasta_head(&records, 0)).unwrap(), ">a\nACGT\n");
    assert_eq!(fasta_head(&records, 10).len(), 8 + 11 + 6);
    assert!(fasta_head(&Vec::new(), 3).is_empty());
}

#[test]
fn fastx_paths() {
    assert_eq!(validate_fastx("reads.fq.gz", true), Ok(()));
    assert_eq!(validate_fastx("genome.fasta", true), Ok(()));
    assert_eq!(validate_fastx("genome.fna", true), Ok(()));
    assert_eq!(validate_fastx("genome.txt", true), Err(AppError::InvalidExtensionError));
    assert_eq!(validate_fastx("genome.gz", true), Err(AppError::InvalidExtensionError));
    assert_eq!(validate_fastx("genome.fasta", false), Err(AppError::FileDoesNotExistError));
}

#[test]
fn grep_selects_matching_identifiers() {
    let records = vec![fasta("chr1", "AC"), fasta("scaffold_7", "GG"), fasta("chr2", "T")];
    let out = fasta_grep(&records, "^chr").unwrap();
    assert_eq!(String::from_utf8(out).unwrap(), ">chr1\nAC\n>chr2\nT\n");
    assert_eq!(fasta_grep(&records, "_[0-9]+$").unwrap(), b">scaffold_7\nGG\n".to_vec());
    assert_eq!(fasta_grep(&records, "(").err(), Some(AppError::InvalidRegexPattern));
}

#[test]
fn grep_rejects_invalid_identifier() {
    let records = vec![FastxRecord { id: vec![0xc3], seq: b"A".to_vec(), qual: None }];
    assert_eq!(fasta_grep(&records, "x").err(), Some(AppError::InvalidUtf8Error));
}

#[test]
fn selection_follows_flags() {
    let records = vec![fasta("a", "A"), fasta("b", "C")];
    assert_eq!(select_records(&records, &vec![false, true]), b">b\nC\n".to_vec());
}

#[test]
fn length_statistics() {
    assert_eq!(
        length_stats(&vec![4, 10, 2]),
        Some(LengthStats { num_seqs: 3, num_bases: 16, min_len: 2, max_len: 10 })
    );
    assert_eq!(
        length_stats(&Vec::new()),
        Some(LengthStats { num_seqs: 0, num_bases: 0, min_len: usize::MAX, max_len: 0 })
    );
    assert_eq!(length_stats(&vec![usize::MAX, 1]), None);
}
