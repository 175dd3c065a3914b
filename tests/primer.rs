use fasta_rs::errors::AppError;
use fasta_rs::primer::{extract_primer_info, parse_primer_file, PrimerPair};

#[test]
fn primer_line_with_five_fields() {
    let p = extract_primer_info(&" amp_a\tATCG\tCGAT\t5\t10 \n".to_string()).unwrap();
    assert_eq!(p.primer_name, "amp_a");
    assert_eq!(p.forward_primer, b"ATCG".to_vec());
    assert_eq!(p.reverse_primer, b"CGAT".to_vec());
    assert_eq!((p.min_len, p.max_len, p.num_mismatch), (5, 10, None));
}

#[test]
fn primer_line_with_mismatches() {
    let p = extract_primer_info(&"amp_a\tATCG\tCGAT\t5\t10\t+2".to_string()).unwrap();
    assert_eq!(p.num_mismatch, Some(2));
    assert_eq!(p.max_edit_distance(), 2);
    let p = extract_primer_info(&"amp_a\tATCG\tCGAT\t5\t10".to_string()).unwrap();
    assert_eq!(p.max_edit_distance(), 1);
}

#[test]
fn primer_line_errors() {
    assert_eq!(extract_primer_info(&"amp_a\tATCG\tCGAT".to_string()).err(), Some(AppError::PrimerLineFormatError));
    assert_eq!(extract_primer_info(&"".to_string()).err(), Some(AppError::PrimerLineFormatError));
    assert_eq!(extract_primer_info(&"amp_a\tATCG\tCGAT\tfive\t10".to_string()).err(), Some(AppError::PrimerLenParsingError));
    assert_eq!(extract_primer_info(&"amp_a\tATCG\tCGAT\t5\t-1".to_string()).err(), Some(AppError::PrimerLenParsingError));
    assert_eq!(extract_primer_info(&"amp_a\tATCG\tCGAT\t5\t10\tx".to_string()).err(), Some(AppError::PrimerLenParsingError));
    assert_eq!(
        extract_primer_info(&"amp_a\tATCG\tCGAT\t5\t99999999999999999999999".to_string()).err(),
        Some(AppError::PrimerLenParsingError)
    );
    assert_eq!(extract_primer_info(&"amp_a\tATCG\tCGNT\t5\t10".to_string()).err(), Some(AppError::InvalidPrimerError));
    assert_eq!(extract_primer_info(&"amp_a\tATCG\tCGAT\t10\t5".to_string()).err(), Some(AppError::InvalidPrimerError));
    assert_eq!(extract_primer_info(&"\tATCG\tCGAT\t5\t10".to_string()).err(), Some(AppError::PrimerLineFormatError));
}

#[test]
fn primer_length_limit() {
    let longest = "A".repeat(64);
    let too_long = "A".repeat(65);
    let ok = extract_primer_info(&format!("p\t{}\tCGAT\t0\t10", longest)).unwrap();
    assert_eq!(ok.forward_primer.len(), 64);
    assert!(ok.validate().is_ok());
    assert_eq!(
        extract_primer_info(&format!("p\t{}\tCGAT\t0\t10", too_long)).err(),
        Some(AppError::InvalidPrimerError)
    );
    let long = PrimerPair {
        primer_name: "p".to_string(),
        forward_primer: too_long.into_bytes(),
        reverse_primer: b"A".to_vec(),
        min_len: 0,
        max_len: 1,
        num_mismatch: None,
    };
    assert_eq!(long.validate(), Err(AppError::InvalidPrimerError));
}

#[test]
fn primer_table_skips_bad_lines() {
    let lines: Vec<String> = vec![
        "amp_a\tATCG\tCGAT\t5\t10".to_string(),
        "bad\tATCG\tCGAT".to_string(),
        "amp_b\tAAAA\tTTTT\tx\t10".to_string(),
        "amp_c\tGGGG\tCCCC\t0\t100\t2".to_string(),
        "amp_d\tATCG\tCGAT\t1\t1".to_string(),
    ];
    let (pairs, skipped) = parse_primer_file(&lines).unwrap();
    let names: Vec<&str> = pairs.iter().map(|p| p.primer_name.as_str()).collect();
    assert_eq!(names, vec!["amp_a", "amp_c", "amp_d"]);
    assert_eq!(skipped, vec![(1, AppError::PrimerLineFormatError), (2, AppError::PrimerLenParsingError)]);
}

#[test]
fn primer_table_without_primers() {
    let lines: Vec<String> = vec!["# comment".to_string(), "".to_string()];
    assert_eq!(parse_primer_file(&lines).err(), Some(AppError::NoPrimersFoundError));
    assert_eq!(parse_primer_file(&Vec::new()).err(), Some(AppError::NoPrimersFoundError));
}

#[test]
fn mismatch_budget_is_capped() {
    let p = extract_primer_info(&"amp_a\tATCG\tCGAT\t5\t10\t300".to_string()).unwrap();
    assert_eq!(p.num_mismatch, Some(300));
    assert_eq!(p.max_edit_distance(), 255);
    let p = extract_primer_info(&"amp_a\tATCG\tCGAT\t5\t10\t0".to_string()).unwrap();
    assert_eq!(p.max_edit_distance(), 0);
}

#[test]
fn fields_are_trimmed_of_unicode_space() {
    let p = extract_primer_info(&"\u{3000}name one \t ATCG\u{a0}\tCGAT\t 5\t10\r".to_string()).unwrap();
    assert_eq!(p.primer_name, "name one");
    assert_eq!(p.forward_primer, b"ATCG".to_vec());
    assert_eq!(p.min_len, 5);
}

#[test]
fn non_ascii_primer_is_invalid() {
    assert_eq!(
        extract_primer_info(&"amp_a\tATC\u{e9}\tCGAT\t5\t10".to_string()).err(),
        Some(AppError::InvalidPrimerError)
    );
}
