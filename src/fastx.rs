//! FASTA/FASTQ records and the per-record subcommands that turn them into
//! output bytes: extracting a range, reverse-complementing, taking the
//! first records.
use crate::errors::AppError;
use crate::report::{decimal, push_bytes, push_decimal, NEWLINE};
use crate::text::chars_of;
use vstd::prelude::*;
use vstd::utf8::valid_utf8;

verus! {

/// ASCII `>`, which opens a FASTA header.
pub const FASTA_MARK: u8 = 62;

/// ASCII `@`, which opens a FASTQ header.
pub const FASTQ_MARK: u8 = 64;

/// ASCII `+`, the FASTQ separator line.
pub const FASTQ_SEPARATOR: u8 = 43;

/// ASCII `|`, between an identifier and a range.
pub const RANGE_MARK: u8 = 124;

/// ASCII `-`, between the bounds of a range.
pub const RANGE_DASH: u8 = 45;

/// One FASTA or FASTQ record: identifier, bases and, for FASTQ, qualities.
pub struct FastxRecord {
    pub id: Vec<u8>,
    pub seq: Vec<u8>,
    pub qual: Option<Vec<u8>>,
}

/// The FASTA text of a record: header line and one sequence line.
pub open spec fn fasta_text(id: Seq<u8>, seq: Seq<u8>) -> Seq<u8> {
    seq![FASTA_MARK] + id + seq![NEWLINE] + seq + seq![NEWLINE]
}

/// The FASTQ text of a record: header, sequence, separator and qualities.
pub open spec fn fastq_text(id: Seq<u8>, seq: Seq<u8>, qual: Seq<u8>) -> Seq<u8> {
    seq![FASTQ_MARK] + id + seq![NEWLINE] + seq + seq![NEWLINE] + seq![FASTQ_SEPARATOR] + seq![
        NEWLINE,
    ] + qual + seq![NEWLINE]
}

/// Relies on `needletail::parser::write_fasta` with Unix line endings,
/// writing into a vector: `>`, the identifier, a line feed, the sequence and
/// a line feed.
#[verifier::external_body]
fn fasta_entry(id: &[u8], seq: &[u8]) -> (r: Vec<u8>)
    ensures
        r@ == fasta_text(id@, seq@),
{
    let mut out: Vec<u8> = Vec::new();
    let _ = needletail::parser::write_fasta(id, seq, &mut out, needletail::parser::LineEnding::Unix);
    out
}

/// Relies on `needletail::parser::write_fastq` with Unix line endings and
/// qualities given, writing into a vector: the four FASTQ lines.
#[verifier::external_body]
fn fastq_entry(id: &[u8], seq: &[u8], qual: &[u8]) -> (r: Vec<u8>)
    ensures
        r@ == fastq_text(id@, seq@, qual@),
{
    let mut out: Vec<u8> = Vec::new();
    let _ = needletail::parser::write_fastq(
        id,
        seq,
        Some(qual),
        &mut out,
        needletail::parser::LineEnding::Unix,
    );
    out
}

/// The text of a record in its own format.
pub open spec fn record_text(r: FastxRecord) -> Seq<u8> {
    match r.qual {
        Some(q) => fastq_text(r.id@, r.seq@, q@),
        None => fasta_text(r.id@, r.seq@),
    }
}

/// Appends the text of `record` to `out`.
pub fn push_record(out: &mut Vec<u8>, record: &FastxRecord)
    ensures
        final(out)@ == old(out)@ + record_text(*record),
{
    let text = match &record.qual {
        Some(q) => fastq_entry(record.id.as_slice(), record.seq.as_slice(), q.as_slice()),
        None => fasta_entry(record.id.as_slice(), record.seq.as_slice()),
    };
    push_bytes(out, text.as_slice());
}

/// How many records `fasta_head` writes: `num_seqs` of them, but at least
/// one, as the count is checked after a record is written.
pub open spec fn head_count(n_records: int, num_seqs: int) -> int {
    let wanted = if num_seqs < 1 {
        1
    } else {
        num_seqs
    };
    if wanted < n_records {
        wanted
    } else {
        n_records
    }
}

/// The text of the first `k` records.
pub open spec fn records_text(records: Seq<FastxRecord>, k: int) -> Seq<u8>
    decreases k,
{
    if k <= 0 {
        Seq::empty()
    } else {
        records_text(records, k - 1) + record_text(records[k - 1])
    }
}

/// The first `num_seqs` records (at least one) in their own format.
pub fn fasta_head(records: &Vec<FastxRecord>, num_seqs: usize) -> (r: Vec<u8>)
    ensures
        r@ == records_text(records@, head_count(records@.len() as int, num_seqs as int)),
{
    let wanted: usize = if num_seqs < 1 {
        1
    } else {
        num_seqs
    };
    let count: usize = if wanted < records.len() {
        wanted
    } else {
        records.len()
    };
    let mut r: Vec<u8> = Vec::new();
    let mut i: usize = 0;
    while i < count
        invariant
            i <= count <= records@.len(),
            r@ == records_text(records@, i as int),
        decreases count - i,
    {
        push_record(&mut r, &records[i]);
        i = i + 1;
    }
    r
}

/// The complement that needletail gives to an upper-case IUPAC letter:
/// `A`/`T`, `C`/`G`, `R`/`Y`, `K`/`M`, `B`/`V`, `D`/`H` swapped; any other
/// byte kept.
pub open spec fn upper_complement(b: u8) -> u8 {
    if b == 65 {
        84
    } else if b == 84 {
        65
    } else if b == 67 {
        71
    } else if b == 71 {
        67
    } else if b == 82 {
        89
    } else if b == 89 {
        82
    } else if b == 75 {
        77
    } else if b == 77 {
        75
    } else if b == 66 {
        86
    } else if b == 86 {
        66
    } else if b == 68 {
        72
    } else if b == 72 {
        68
    } else {
        b
    }
}

/// The IUPAC complement of a byte; lower-case letters map as their
/// upper-case forms do and stay lower case.
pub open spec fn iupac_complement(b: u8) -> u8 {
    if 97 <= b <= 122 {
        (upper_complement((b - 32) as u8) + 32) as u8
    } else {
        upper_complement(b)
    }
}

/// The IUPAC reverse complement of `s`.
pub open spec fn iupac_reverse_complement(s: Seq<u8>) -> Seq<u8> {
    Seq::new(s.len(), |i: int| iupac_complement(s[s.len() - 1 - i]))
}

/// Relies on `needletail::Sequence::reverse_complement` for byte slices:
/// the bytes in reverse order, each replaced by `needletail::sequence::complement`.
#[verifier::external_body]
fn needletail_reverse_complement(seq: &[u8]) -> (r: Vec<u8>)
    ensures
        r@ == iupac_reverse_complement(seq@),
{
    needletail::Sequence::reverse_complement(&seq)
}

/// The FASTA text of the reverse complements of `records`, the first `k`.
pub open spec fn reverse_text(records: Seq<FastxRecord>, k: int) -> Seq<u8>
    decreases k,
{
    if k <= 0 {
        Seq::empty()
    } else {
        reverse_text(records, k - 1) + fasta_text(
            records[k - 1].id@,
            iupac_reverse_complement(records[k - 1].seq@),
        )
    }
}

/// Every record as FASTA with its sequence reverse-complemented.
pub fn fasta_reverse(records: &Vec<FastxRecord>) -> (r: Vec<u8>)
    ensures
        r@ == reverse_text(records@, records@.len() as int),
{
    let mut r: Vec<u8> = Vec::new();
    let mut i: usize = 0;
    while i < records.len()
        invariant
            i <= records@.len(),
            r@ == reverse_text(records@, i as int),
        decreases records.len() - i,
    {
        let rc = needletail_reverse_complement(records[i].seq.as_slice());
        let ghost before = r@;
        r.push(FASTA_MARK);
        push_bytes(&mut r, records[i].id.as_slice());
        r.push(NEWLINE);
        push_bytes(&mut r, rc.as_slice());
        r.push(NEWLINE);
        assert(r@ =~= before + fasta_text(records@[i as int].id@, rc@));
        i = i + 1;
    }
    r
}

/// Relies on `std::str::from_utf8`: it succeeds exactly on valid UTF-8.
#[verifier::external_body]
fn is_utf8(bytes: &[u8]) -> (r: bool)
    ensures
        r == valid_utf8(bytes@),
{
    std::str::from_utf8(bytes).is_ok()
}

/// The end of the extracted range of a sequence of length `len`.
pub open spec fn clipped_end(end: int, len: int) -> int {
    if end < len {
        end
    } else {
        len
    }
}

/// The FASTA text that `fasta_extract` gives for one record: none where the
/// range starts past the sequence; else the header `id|start-end` and the
/// bases of the range, its end clipped to the sequence.
pub open spec fn extract_text(r: FastxRecord, start: usize, end: usize) -> Seq<u8> {
    let len = r.seq@.len() as int;
    if start >= len {
        Seq::empty()
    } else {
        let stop = clipped_end(end as int, len);
        seq![FASTA_MARK] + r.id@ + seq![RANGE_MARK] + decimal(start as nat) + seq![RANGE_DASH]
            + decimal(stop as nat) + seq![NEWLINE] + r.seq@.subrange(start as int, stop)
            + seq![NEWLINE]
    }
}

/// The extracted text of the first `k` records.
pub open spec fn extracts_text(records: Seq<FastxRecord>, start: usize, end: usize, k: int) -> Seq<
    u8,
>
    decreases k,
{
    if k <= 0 {
        Seq::empty()
    } else {
        extracts_text(records, start, end, k - 1) + extract_text(records[k - 1], start, end)
    }
}

/// The identifiers of the records among the first `k` that the range
/// reaches are valid UTF-8.
pub open spec fn extract_ids_utf8(records: Seq<FastxRecord>, start: usize, k: int) -> bool {
    forall|i: int|
        0 <= i < k && start < (#[trigger] records[i]).seq@.len() ==> valid_utf8(records[i].id@)
}

/// Appends what `fasta_extract` gives for one record to `out`.
fn push_extract(out: &mut Vec<u8>, record: &FastxRecord, start: usize, end: usize)
    requires
        start < end,
    ensures
        final(out)@ == old(out)@ + extract_text(*record, start, end),
{
    let len = record.seq.len();
    let ghost before = out@;
    if start < len {
        let stop: usize = if end < len {
            end
        } else {
            len
        };
        out.push(FASTA_MARK);
        push_bytes(out, record.id.as_slice());
        out.push(RANGE_MARK);
        push_decimal(out, start);
        out.push(RANGE_DASH);
        push_decimal(out, stop);
        out.push(NEWLINE);
        push_bytes(out, vstd::slice::slice_subrange(record.seq.as_slice(), start, stop));
        out.push(NEWLINE);
    }
    assert(out@ =~= before + extract_text(*record, start, end));
}

/// Extracts the bases from `start` to `end` of every record that reaches
/// `start`, as FASTA with the range in the header.
pub fn fasta_extract(records: &Vec<FastxRecord>, start: usize, end: usize) -> (r: Result<
    Vec<u8>,
    AppError,
>)
    ensures
        start >= end ==> r == Err::<Vec<u8>, AppError>(AppError::InvalidRangeError),
        start < end && !extract_ids_utf8(records@, start, records@.len() as int) ==> r == Err::<
            Vec<u8>,
            AppError,
        >(AppError::InvalidUtf8Error),
        start < end && extract_ids_utf8(records@, start, records@.len() as int) ==> (r is Ok
            && r->Ok_0@ == extracts_text(records@, start, end, records@.len() as int)),
{
    if start >= end {
        return Err(AppError::InvalidRangeError);
    }
    let mut r: Vec<u8> = Vec::new();
    let mut i: usize = 0;
    while i < records.len()
        invariant
            start < end,
            i <= records@.len(),
            extract_ids_utf8(records@, start, i as int),
            r@ == extracts_text(records@, start, end, i as int),
        decreases records.len() - i,
    {
        let record = &records[i];
        if start < record.seq.len() && !is_utf8(record.id.as_slice()) {
            return Err(AppError::InvalidUtf8Error);
        }
        push_extract(&mut r, record, start, end);
        i = i + 1;
    }
    Ok(r)
}

/// The extensions of FASTA and FASTQ files, each also accepted with `.gz`
/// after it.
pub open spec fn fastx_extensions() -> Seq<Seq<char>> {
    seq![
        seq!['.', 'f', 'a', 's', 't', 'a'],
        seq!['.', 'f', 'a'],
        seq!['.', 'f', 'n', 'a'],
        seq!['.', 'f', 's', 'a'],
        seq!['.', 'f', 'a', 's', 't', 'q'],
        seq!['.', 'f', 'q'],
    ]
}

/// The suffix of gzip-compressed files.
pub open spec fn gz_suffix() -> Seq<char> {
    seq!['.', 'g', 'z']
}

/// `s` ends with `suffix`.
pub open spec fn ends_with(s: Seq<char>, suffix: Seq<char>) -> bool {
    suffix.len() <= s.len() && s.subrange(s.len() - suffix.len(), s.len() as int) == suffix
}

/// `path` ends with a FASTA or FASTQ extension, possibly followed by `.gz`.
pub open spec fn has_fastx_extension(path: Seq<char>) -> bool {
    exists|k: int|
        0 <= k < fastx_extensions().len() && (ends_with(path, #[trigger] fastx_extensions()[k])
            || ends_with(path, fastx_extensions()[k] + gz_suffix()))
}

fn extension_list() -> (t: Vec<Vec<char>>)
    ensures
        t.deep_view() == fastx_extensions(),
{
    let mut t: Vec<Vec<char>> = Vec::new();
    let e: Vec<char> = vec!['.', 'f', 'a', 's', 't', 'a'];
    assert(e.deep_view() =~= seq!['.', 'f', 'a', 's', 't', 'a']);
    t.push(e);
    let e: Vec<char> = vec!['.', 'f', 'a'];
    assert(e.deep_view() =~= seq!['.', 'f', 'a']);
    t.push(e);
    let e: Vec<char> = vec!['.', 'f', 'n', 'a'];
    assert(e.deep_view() =~= seq!['.', 'f', 'n', 'a']);
    t.push(e);
    let e: Vec<char> = vec!['.', 'f', 's', 'a'];
    assert(e.deep_view() =~= seq!['.', 'f', 's', 'a']);
    t.push(e);
    let e: Vec<char> = vec!['.', 'f', 'a', 's', 't', 'q'];
    assert(e.deep_view() =~= seq!['.', 'f', 'a', 's', 't', 'q']);
    t.push(e);
    let e: Vec<char> = vec!['.', 'f', 'q'];
    assert(e.deep_view() =~= seq!['.', 'f', 'q']);
    t.push(e);
    assert(t.deep_view() =~= fastx_extensions());
    t
}

fn chars_end_with(c: &Vec<char>, suffix: &Vec<char>) -> (r: bool)
    ensures
        r == ends_with(c@, suffix@),
{
    if suffix.len() > c.len() {
        return false;
    }
    let offset = c.len() - suffix.len();
    let mut i: usize = 0;
    while i < suffix.len()
        invariant
            offset + suffix@.len() == c@.len(),
            c@.len() == c.len(),
            suffix@.len() == suffix.len(),
            i <= suffix@.len(),
            forall|k: int| 0 <= k < i ==> c@[offset + k] == #[trigger] suffix@[k],
        decreases suffix.len() - i,
    {
        if c[offset + i] != suffix[i] {
            assert(c@.subrange(offset as int, c@.len() as int)[i as int] != suffix@[i as int]);
            return false;
        }
        i = i + 1;
    }
    assert(c@.subrange(offset as int, c@.len() as int) =~= suffix@);
    true
}

/// Checks an input path before it is opened: it must exist and carry a
/// FASTA or FASTQ extension.
pub fn validate_fastx(fastx: &str, exists: bool) -> (r: Result<(), AppError>)
    ensures
        !exists ==> r == Err::<(), AppError>(AppError::FileDoesNotExistError),
        exists && !has_fastx_extension(fastx@) ==> r == Err::<(), AppError>(
            AppError::InvalidExtensionError,
        ),
        exists && has_fastx_extension(fastx@) ==> r is Ok,
{
    if !exists {
        return Err(AppError::FileDoesNotExistError);
    }
    let c = chars_of(fastx);
    let extensions = extension_list();
    let gz: Vec<char> = vec!['.', 'g', 'z'];
    assert(gz@ =~= gz_suffix());
    let mut k: usize = 0;
    while k < extensions.len()
        invariant
            exists,
            k <= extensions@.len(),
            extensions.deep_view() == fastx_extensions(),
            c@ == fastx@,
            gz@ == gz_suffix(),
            forall|m: int|
                0 <= m < k ==> !ends_with(c@, #[trigger] fastx_extensions()[m]) && !ends_with(
                    c@,
                    fastx_extensions()[m] + gz_suffix(),
                ),
        decreases extensions.len() - k,
    {
        let ext = &extensions[k];
        assert(ext@ == fastx_extensions()[k as int]) by {
            assert(extensions.deep_view()[k as int] == ext.deep_view());
            assert(ext.deep_view() =~= ext@);
        }
        if chars_end_with(&c, ext) {
            assert(has_fastx_extension(fastx@));
            return Ok(());
        }
        let mut compressed: Vec<char> = ext.clone();
        let mut g = gz.clone();
        compressed.append(&mut g);
        if chars_end_with(&c, &compressed) {
            assert(compressed@ =~= fastx_extensions()[k as int] + gz_suffix());
            assert(has_fastx_extension(fastx@));
            return Ok(());
        }
        k = k + 1;
    }
    Err(AppError::InvalidExtensionError)
}

#[verifier::external_type_specification]
#[verifier::external_body]
pub struct ExBytesRegex(regex::bytes::Regex);

#[verifier::external_type_specification]
#[verifier::external_body]
pub struct ExRegexError(regex::Error);

/// Relies on `regex::bytes::Regex::new`: the compiled pattern, or the
/// reason it is not a valid regular expression.
#[verifier::external_body]
fn compile_pattern(pattern: &str) -> (r: Result<regex::bytes::Regex, regex::Error>) {
    regex::bytes::Regex::new(pattern)
}

/// Relies on `regex::bytes::Regex::is_match`: whether the pattern matches
/// somewhere in `text`.
#[verifier::external_body]
fn pattern_matches(re: &regex::bytes::Regex, text: &[u8]) -> (r: bool) {
    re.is_match(text)
}

/// The text of the records among the first `k` whose flag in `keep` is set.
pub open spec fn selected_text(records: Seq<FastxRecord>, keep: Seq<bool>, k: int) -> Seq<u8>
    decreases k,
{
    if k <= 0 {
        Seq::empty()
    } else {
        selected_text(records, keep, k - 1) + if keep[k - 1] {
            record_text(records[k - 1])
        } else {
            Seq::empty()
        }
    }
}

/// The records whose flag in `keep` is set, in their own format.
pub fn select_records(records: &Vec<FastxRecord>, keep: &Vec<bool>) -> (r: Vec<u8>)
    requires
        keep@.len() == records@.len(),
    ensures
        r@ == selected_text(records@, keep@, records@.len() as int),
{
    let mut r: Vec<u8> = Vec::new();
    let mut i: usize = 0;
    while i < records.len()
        invariant
            i <= records@.len() == keep@.len(),
            r@ == selected_text(records@, keep@, i as int),
        decreases records.len() - i,
    {
        if keep[i] {
            push_record(&mut r, &records[i]);
        } else {
            assert(r@ =~= selected_text(records@, keep@, i as int + 1));
        }
        i = i + 1;
    }
    r
}

/// The records whose identifier the regular expression `pattern` matches,
/// in their own format. Each identifier must be UTF-8.
pub fn fasta_grep(records: &Vec<FastxRecord>, pattern: &str) -> (r: Result<Vec<u8>, AppError>)
    ensures
        r == Err::<Vec<u8>, AppError>(AppError::InvalidUtf8Error) ==> exists|i: int|
            0 <= i < records@.len() && !valid_utf8(#[trigger] records@[i].id@),
        r is Err ==> r == Err::<Vec<u8>, AppError>(AppError::InvalidUtf8Error) || r == Err::<
            Vec<u8>,
            AppError,
        >(AppError::InvalidRegexPattern),
        r is Ok ==> exists|keep: Seq<bool>|
            keep.len() == records@.len() && r->Ok_0@ == selected_text(
                records@,
                keep,
                records@.len() as int,
            ),
{
    let re = match compile_pattern(pattern) {
        Ok(re) => re,
        Err(_) => return Err(AppError::InvalidRegexPattern),
    };
    let mut keep: Vec<bool> = Vec::with_capacity(records.len());
    let mut i: usize = 0;
    while i < records.len()
        invariant
            i <= records@.len(),
            keep@.len() == i,
        decreases records.len() - i,
    {
        let id = records[i].id.as_slice();
        if !is_utf8(id) {
            return Err(AppError::InvalidUtf8Error);
        }
        keep.push(pattern_matches(&re, id));
        i = i + 1;
    }
    Ok(select_records(records, &keep))
}

/// Counts over the lengths of a set of records.
#[derive(Clone, Copy, Debug, PartialEq, Eq, Structural)]
pub struct LengthStats {
    pub num_seqs: usize,
    pub num_bases: usize,
    pub min_len: usize,
    pub max_len: usize,
}

/// The sum of the first `k` lengths.
pub open spec fn total_length(lengths: Seq<usize>, k: int) -> int
    decreases k,
{
    if k <= 0 {
        0
    } else {
        total_length(lengths, k - 1) + lengths[k - 1]
    }
}

/// The least of the first `k` lengths; `usize::MAX` for none.
pub open spec fn least_length(lengths: Seq<usize>, k: int) -> usize
    decreases k,
{
    if k <= 0 {
        usize::MAX
    } else {
        let m = least_length(lengths, k - 1);
        if lengths[k - 1] < m {
            lengths[k - 1]
        } else {
            m
        }
    }
}

/// The greatest of the first `k` lengths; zero for none.
pub open spec fn greatest_length(lengths: Seq<usize>, k: int) -> usize
    decreases k,
{
    if k <= 0 {
        0
    } else {
        let m = greatest_length(lengths, k - 1);
        if lengths[k - 1] > m {
            lengths[k - 1]
        } else {
            m
        }
    }
}

proof fn lemma_total_length_grows(lengths: Seq<usize>, k: int, n: int)
    requires
        0 <= k <= n <= lengths.len(),
    ensures
        total_length(lengths, k) <= total_length(lengths, n),
    decreases n - k,
{
    if k < n {
        lemma_total_length_grows(lengths, k, n - 1);
    }
}

/// The number of records, their total length, and the shortest and longest
/// length, from the records' lengths; `None` where the total does not fit in
/// a `usize`.
pub fn length_stats(lengths: &Vec<usize>) -> (r: Option<LengthStats>)
    ensures
        match r {
            Some(st) => {
                &&& total_length(lengths@, lengths@.len() as int) <= usize::MAX
                &&& st.num_seqs == lengths@.len()
                &&& st.num_bases == total_length(lengths@, lengths@.len() as int)
                &&& st.min_len == least_length(lengths@, lengths@.len() as int)
                &&& st.max_len == greatest_length(lengths@, lengths@.len() as int)
            },
            None => total_length(lengths@, lengths@.len() as int) > usize::MAX,
        },
{
    let mut st = LengthStats { num_seqs: 0, num_bases: 0, min_len: usize::MAX, max_len: 0 };
    let mut i: usize = 0;
    while i < lengths.len()
        invariant
            i <= lengths@.len(),
            st.num_seqs == i,
            st.num_bases == total_length(lengths@, i as int),
            st.min_len == least_length(lengths@, i as int),
            st.max_len == greatest_length(lengths@, i as int),
        decreases lengths.len() - i,
    {
        let len = lengths[i];
        if st.num_bases > usize::MAX - len {
            proof {
                lemma_total_length_grows(lengths@, i as int + 1, lengths@.len() as int);
            }
            return None;
        }
        st.num_bases = st.num_bases + len;
        st.num_seqs = st.num_seqs + 1;
        if len < st.min_len {
            st.min_len = len;
        }
        if len > st.max_len {
            st.max_len = len;
        }
        i = i + 1;
    }
    Some(st)
}

} // verus!
