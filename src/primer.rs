//! Primer pairs and the primer table.
use crate::errors::AppError;
use crate::nucleotide::{is_canonical_base, is_canonical_seq, BASE_A, BASE_C, BASE_G, BASE_T};
use crate::text::{
    chars_of, parse_usize, parse_usize_span, split_tab_spans, split_tabs, trim, trim_bounds,
};
use vstd::prelude::*;

verus! {

/// A named pair of primers and the insert lengths that an amplicon between
/// them may have.
///
/// `reverse_primer` is written 5' to 3' as supplied; its reverse complement
/// is what appears on the searched strand.
pub struct PrimerPair {
    pub primer_name: String,
    pub forward_primer: Vec<u8>,
    pub reverse_primer: Vec<u8>,
    pub min_len: usize,
    pub max_len: usize,
    pub num_mismatch: Option<usize>,
}

/// The longest primer that the bit-parallel matcher takes: one machine word.
pub const MAX_PRIMER_LEN: usize = 64;

/// A primer pair as values: name, forward primer, reverse primer, shortest
/// and longest insert, and the optional mismatch budget.
pub type PrimerFields = (Seq<char>, Seq<u8>, Seq<u8>, usize, usize, Option<usize>);

impl View for PrimerPair {
    type V = PrimerFields;

    open spec fn view(&self) -> PrimerFields {
        (
            self.primer_name@,
            self.forward_primer@,
            self.reverse_primer@,
            self.min_len,
            self.max_len,
            self.num_mismatch,
        )
    }
}

/// The invariant of a primer pair: a non-empty name; primers of 1 to 64
/// bytes; a reverse primer over `A`, `C`, `G`, `T`, so that its reverse
/// complement exists; and a window with `min_len <= max_len`.
pub open spec fn valid_primer(p: PrimerFields) -> bool {
    &&& p.0.len() > 0
    &&& 1 <= p.1.len() <= MAX_PRIMER_LEN
    &&& 1 <= p.2.len() <= MAX_PRIMER_LEN
    &&& is_canonical_seq(p.2)
    &&& p.3 <= p.4
}

impl PrimerPair {
    /// The primer pair invariant, see `valid_primer`.
    pub open spec fn is_valid(&self) -> bool {
        valid_primer(self@)
    }

    /// Checks the primer pair invariant.
    pub fn validate(&self) -> (r: Result<(), AppError>)
        ensures
            r is Ok <==> self.is_valid(),
            r is Err ==> r == Err::<(), AppError>(AppError::InvalidPrimerError),
    {
        let fl = self.forward_primer.len();
        let rl = self.reverse_primer.len();
        if self.primer_name.as_str().is_empty() || fl < 1 || fl > MAX_PRIMER_LEN || rl < 1 || rl
            > MAX_PRIMER_LEN || self.min_len > self.max_len {
            return Err(AppError::InvalidPrimerError);
        }
        let mut i: usize = 0;
        while i < rl
            invariant
                rl == self.reverse_primer@.len(),
                i <= rl,
                forall|k: int| 0 <= k < i ==> is_canonical_base(#[trigger] self.reverse_primer@[k]),
            decreases rl - i,
        {
            let b = self.reverse_primer[i];
            if !(b == BASE_A || b == BASE_C || b == BASE_G || b == BASE_T) {
                assert(!is_canonical_base(self.reverse_primer@[i as int]));
                return Err(AppError::InvalidPrimerError);
            }
            i = i + 1;
        }
        Ok(())
    }

    /// The edit distance allowed in fuzzy mode: `num_mismatch`, one where it
    /// is absent, and at most 255.
    pub open spec fn mismatch_budget(&self) -> u8 {
        match self.num_mismatch {
            Some(k) => if k > 255 {
                255
            } else {
                k as u8
            },
            None => 1,
        }
    }

    /// The edit distance allowed in fuzzy mode.
    pub fn max_edit_distance(&self) -> (r: u8)
        ensures
            r == self.mismatch_budget(),
    {
        match self.num_mismatch {
            Some(k) => if k > 255 {
                255
            } else {
                k as u8
            },
            None => 1,
        }
    }
}

/// The fields of a primer line: the trimmed line split on tabs, each field
/// trimmed.
pub open spec fn primer_line_fields(line: Seq<char>) -> Seq<Seq<char>> {
    split_tabs(trim(line)).map_values(|f: Seq<char>| trim(f))
}

/// Every character of `s` is ASCII.
pub open spec fn is_ascii_chars(s: Seq<char>) -> bool {
    forall|i: int| 0 <= i < s.len() ==> (#[trigger] s[i] as u32) < 128
}

/// The bytes of the ASCII characters `s`.
pub open spec fn ascii_bytes(s: Seq<char>) -> Seq<u8> {
    s.map_values(|c: char| (c as u32) as u8)
}

/// What a primer line describes: five fields (name, forward primer, reverse
/// primer, shortest and longest insert) or six (and the mismatch budget).
/// Another count of fields is a format error; a numeric field that is not
/// an unsigned integer is a parsing error; primers that are not ASCII, or a
/// pair that breaks the primer invariant, are an invalid primer.
pub open spec fn parse_primer_line(line: Seq<char>) -> Result<PrimerFields, AppError> {
    let f = primer_line_fields(line);
    if f.len() != 5 && f.len() != 6 {
        Err(AppError::PrimerLineFormatError)
    } else if parse_usize(f[3]) is None || parse_usize(f[4]) is None || (f.len() == 6
        && parse_usize(f[5]) is None) {
        Err(AppError::PrimerLenParsingError)
    } else {
        let p = (
            f[0],
            ascii_bytes(f[1]),
            ascii_bytes(f[2]),
            parse_usize(f[3])->Some_0,
            parse_usize(f[4])->Some_0,
            if f.len() == 6 {
                parse_usize(f[5])
            } else {
                None
            },
        );
        if is_ascii_chars(f[1]) && is_ascii_chars(f[2]) && valid_primer(p) {
            Ok(p)
        } else {
            Err(AppError::InvalidPrimerError)
        }
    }
}

fn ascii_span(c: &Vec<char>, lo: usize, hi: usize) -> (r: Option<Vec<u8>>)
    requires
        lo <= hi <= c@.len(),
    ensures
        match r {
            Some(b) => is_ascii_chars(c@.subrange(lo as int, hi as int)) && b@ == ascii_bytes(
                c@.subrange(lo as int, hi as int),
            ),
            None => !is_ascii_chars(c@.subrange(lo as int, hi as int)),
        },
{
    let ghost s = c@.subrange(lo as int, hi as int);
    let mut b: Vec<u8> = Vec::with_capacity(hi - lo);
    let mut i = lo;
    while i < hi
        invariant
            lo <= i <= hi <= c@.len(),
            s == c@.subrange(lo as int, hi as int),
            forall|k: int| 0 <= k < i - lo ==> (#[trigger] s[k] as u32) < 128,
            b@ =~= ascii_bytes(s.subrange(0, i - lo)),
        decreases hi - i,
    {
        let code = c[i] as u32;
        if code >= 128 {
            assert(s[i - lo] == c@[i as int]);
            return None;
        }
        assert(s[i - lo] == c@[i as int]);
        b.push(code as u8);
        i = i + 1;
    }
    assert(s.subrange(0, hi - lo) =~= s);
    Some(b)
}

/// Reads one line of the primer table.
pub fn extract_primer_info(primer_line: &String) -> (r: Result<PrimerPair, AppError>)
    ensures
        match r {
            Ok(p) => parse_primer_line(primer_line@) == Ok::<PrimerFields, AppError>(p@),
            Err(e) => parse_primer_line(primer_line@) == Err::<PrimerFields, AppError>(e),
        },
{
    let line = primer_line.as_str();
    let c = chars_of(line);
    let (lo, hi) = trim_bounds(&c, 0, c.len());
    assert(c@.subrange(0, c@.len() as int) =~= c@);
    let spans = split_tab_spans(&c, lo, hi);
    let ghost f = primer_line_fields(primer_line@);
    assert(f.len() == spans@.len());
    if spans.len() != 5 && spans.len() != 6 {
        return Err(AppError::PrimerLineFormatError);
    }
    let mut bounds: Vec<(usize, usize)> = Vec::with_capacity(spans.len());
    let mut k: usize = 0;
    while k < spans.len()
        invariant
            k <= spans@.len(),
            f.len() == spans@.len(),
            f == primer_line_fields(primer_line@),
            forall|m: int| 0 <= m < spans@.len() ==> lo <= #[trigger] spans@[m].0 <= spans@[m].1 <= hi,
            hi <= c@.len(),
            c@ == primer_line@,
            crate::text::spans_text(c@, spans@) == split_tabs(c@.subrange(lo as int, hi as int)),
            c@.subrange(lo as int, hi as int) == trim(c@),
            bounds@.len() == k,
            forall|m: int|
                0 <= m < k ==> #[trigger] bounds@[m].0 <= bounds@[m].1 <= c@.len() && c@.subrange(
                    bounds@[m].0 as int,
                    bounds@[m].1 as int,
                ) == f[m],
        decreases spans.len() - k,
    {
        let (a, b) = trim_bounds(&c, spans[k].0, spans[k].1);
        assert(split_tabs(trim(c@))[k as int] == c@.subrange(
            spans@[k as int].0 as int,
            spans@[k as int].1 as int,
        ));
        bounds.push((a, b));
        k = k + 1;
    }
    let min_len = parse_usize_span(&c, bounds[3].0, bounds[3].1);
    let max_len = parse_usize_span(&c, bounds[4].0, bounds[4].1);
    let num_mismatch = if bounds.len() == 6 {
        parse_usize_span(&c, bounds[5].0, bounds[5].1)
    } else {
        None
    };
    if min_len.is_none() || max_len.is_none() || (bounds.len() == 6 && num_mismatch.is_none()) {
        return Err(AppError::PrimerLenParsingError);
    }
    let forward = ascii_span(&c, bounds[1].0, bounds[1].1);
    let reverse = ascii_span(&c, bounds[2].0, bounds[2].1);
    let name = String::from_str(line.substring_char(bounds[0].0, bounds[0].1));
    match (forward, reverse) {
        (Some(forward_primer), Some(reverse_primer)) => {
            let pair = PrimerPair {
                primer_name: name,
                forward_primer,
                reverse_primer,
                min_len: min_len.unwrap(),
                max_len: max_len.unwrap(),
                num_mismatch,
            };
            match pair.validate() {
                Ok(()) => Ok(pair),
                Err(e) => Err(e),
            }
        },
        _ => Err(AppError::InvalidPrimerError),
    }
}

/// The primer pairs that the lines of a primer table describe, in order;
/// lines that describe none are left out.
pub open spec fn parsed_primers(lines: Seq<String>) -> Seq<PrimerFields>
    decreases lines.len(),
{
    if lines.len() == 0 {
        Seq::empty()
    } else {
        let rest = parsed_primers(lines.drop_last());
        match parse_primer_line(lines.last()@) {
            Ok(p) => rest.push(p),
            Err(_) => rest,
        }
    }
}

/// The lines of a primer table that describe no primer pair: each line's
/// index and the reason.
pub open spec fn skipped_primer_lines(lines: Seq<String>) -> Seq<(usize, AppError)>
    decreases lines.len(),
{
    if lines.len() == 0 {
        Seq::empty()
    } else {
        let rest = skipped_primer_lines(lines.drop_last());
        match parse_primer_line(lines.last()@) {
            Ok(_) => rest,
            Err(e) => rest.push(((lines.len() - 1) as usize, e)),
        }
    }
}

/// Reads a primer table from the lines of its file: the primer pairs of its
/// valid lines and, for the lines that are skipped, their index and error.
/// A table without any valid line is an error.
pub fn parse_primer_file(lines: &Vec<String>) -> (r: Result<
    (Vec<PrimerPair>, Vec<(usize, AppError)>),
    AppError,
>)
    ensures
        match r {
            Ok((pairs, skipped)) => {
                &&& pairs@.map_values(|p: PrimerPair| p@) == parsed_primers(lines@)
                &&& skipped@ == skipped_primer_lines(lines@)
                &&& pairs@.len() > 0
                &&& forall|k: int| 0 <= k < pairs@.len() ==> #[trigger] pairs@[k].is_valid()
            },
            Err(e) => e == AppError::NoPrimersFoundError && parsed_primers(lines@).len() == 0,
        },
{
    let mut pairs: Vec<PrimerPair> = Vec::new();
    let mut skipped: Vec<(usize, AppError)> = Vec::new();
    let mut i: usize = 0;
    while i < lines.len()
        invariant
            i <= lines@.len(),
            pairs@.map_values(|p: PrimerPair| p@) == parsed_primers(lines@.subrange(0, i as int)),
            skipped@ == skipped_primer_lines(lines@.subrange(0, i as int)),
            forall|k: int| 0 <= k < pairs@.len() ==> #[trigger] pairs@[k].is_valid(),
        decreases lines.len() - i,
    {
        assert(lines@.subrange(0, i as int + 1).drop_last() =~= lines@.subrange(0, i as int));
        match extract_primer_info(&lines[i]) {
            Ok(pair) => {
                pairs.push(pair);
                assert(pairs@.map_values(|p: PrimerPair| p@) =~= parsed_primers(
                    lines@.subrange(0, i as int + 1),
                ));
            },
            Err(e) => {
                skipped.push((i, e));
            },
        }
        i = i + 1;
    }
    assert(lines@.subrange(0, lines@.len() as int) =~= lines@);
    if pairs.len() == 0 {
        Err(AppError::NoPrimersFoundError)
    } else {
        Ok((pairs, skipped))
    }
}

} // verus!
