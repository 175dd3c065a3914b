//! A toolkit for FASTA/FASTQ records whose core is an in-silico PCR amplicon
//! search: primer pairs are located on a reference sequence, exactly or
//! within an edit-distance budget, and the stretches between them are
//! reported when their length falls inside a window.
pub mod amplicon;
pub mod errors;
pub mod fastx;
pub mod homopolymer;
pub mod matching;
pub mod nucleotide;
pub mod options;
pub mod primer;
pub mod report;
pub mod text;
