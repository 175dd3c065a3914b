//! Tab-separated rows for the amplicons found on a record.
use crate::amplicon::{
    amplicon_search, amplicon_within, describes_all, search_pairs, AmpliconResult, SearchType,
};
use crate::primer::PrimerPair;
use vstd::prelude::*;
use vstd::utf8::encode_utf8;

verus! {

/// ASCII tab.
pub const TAB: u8 = 9;

/// ASCII line feed.
pub const NEWLINE: u8 = 10;

/// ASCII `0`.
pub const DIGIT_ZERO: u8 = 48;

/// The decimal digits of `n`, most significant first, without leading zeros.
pub open spec fn decimal(n: nat) -> Seq<u8>
    decreases n,
{
    if n < 10 {
        seq![(DIGIT_ZERO + n) as u8]
    } else {
        decimal(n / 10).push((DIGIT_ZERO + n % 10) as u8)
    }
}

/// Appends the decimal digits of `n` to `out`.
pub fn push_decimal(out: &mut Vec<u8>, n: usize)
    ensures
        final(out)@ == old(out)@ + decimal(n as nat),
    decreases n,
{
    if n >= 10 {
        push_decimal(out, n / 10);
    }
    let digit: u8 = (n % 10) as u8;
    out.push(DIGIT_ZERO + digit);
    proof {
        assert(decimal(n as nat) =~= if n < 10 {
            seq![(DIGIT_ZERO + n) as u8]
        } else {
            decimal((n / 10) as nat).push((DIGIT_ZERO + n % 10) as u8)
        });
    }
}

/// Appends all of `bytes` to `out`.
pub fn push_bytes(out: &mut Vec<u8>, bytes: &[u8])
    ensures
        final(out)@ == old(out)@ + bytes@,
{
    let ghost start = out@;
    let mut i: usize = 0;
    while i < bytes.len()
        invariant
            i <= bytes@.len(),
            out@ == start + bytes@.subrange(0, i as int),
        decreases bytes.len() - i,
    {
        out.push(bytes[i]);
        i = i + 1;
        assert(out@ =~= start + bytes@.subrange(0, i as int));
    }
    assert(bytes@.subrange(0, bytes@.len() as int) =~= bytes@);
}

/// The row of one amplicon: sequence id, primer name, start, end, insert
/// length, total length and the insert's bases, separated by tabs and ended
/// by a line feed.
pub open spec fn tsv_row(sequence_id: Seq<u8>, primer_name: Seq<u8>, a: AmpliconResult) -> Seq<u8> {
    sequence_id + seq![TAB] + primer_name + seq![TAB] + decimal(a.start as nat) + seq![TAB]
        + decimal(a.end as nat) + seq![TAB] + decimal(a.insert_length as nat) + seq![TAB]
        + decimal(a.total_length as nat) + seq![TAB] + a.amplicon@ + seq![NEWLINE]
}

/// The rows of `amplicons`, in order.
pub open spec fn tsv_rows(
    sequence_id: Seq<u8>,
    primer_name: Seq<u8>,
    amplicons: Seq<AmpliconResult>,
) -> Seq<u8>
    decreases amplicons.len(),
{
    if amplicons.len() == 0 {
        Seq::empty()
    } else {
        tsv_rows(sequence_id, primer_name, amplicons.drop_last()) + tsv_row(
            sequence_id,
            primer_name,
            amplicons.last(),
        )
    }
}

/// Appends the row of `a` to `out`.
pub fn push_tsv_row(out: &mut Vec<u8>, sequence_id: &[u8], primer_name: &[u8], a: &AmpliconResult)
    ensures
        final(out)@ == old(out)@ + tsv_row(sequence_id@, primer_name@, *a),
{
    let ghost start = out@;
    push_bytes(out, sequence_id);
    out.push(TAB);
    push_bytes(out, primer_name);
    out.push(TAB);
    push_decimal(out, a.start);
    out.push(TAB);
    push_decimal(out, a.end);
    out.push(TAB);
    push_decimal(out, a.insert_length);
    out.push(TAB);
    push_decimal(out, a.total_length);
    out.push(TAB);
    push_bytes(out, a.amplicon);
    out.push(NEWLINE);
    assert(out@ =~= start + tsv_row(sequence_id@, primer_name@, *a));
}

/// The rows of `amplicons` for the record `sequence_id` and the primer pair
/// named `primer_name`.
pub fn amplicon_tsv_rows(sequence_id: &[u8], primer_name: &[u8], amplicons: &Vec<AmpliconResult>) -> (r:
    Vec<u8>)
    ensures
        r@ == tsv_rows(sequence_id@, primer_name@, amplicons@),
{
    let mut r: Vec<u8> = Vec::new();
    let mut i: usize = 0;
    while i < amplicons.len()
        invariant
            i <= amplicons@.len(),
            r@ == tsv_rows(sequence_id@, primer_name@, amplicons@.subrange(0, i as int)),
        decreases amplicons.len() - i,
    {
        push_tsv_row(&mut r, sequence_id, primer_name, &amplicons[i]);
        proof {
            assert(amplicons@.subrange(0, i as int + 1).drop_last() =~= amplicons@.subrange(
                0,
                i as int,
            ));
        }
        i = i + 1;
    }
    assert(amplicons@.subrange(0, amplicons@.len() as int) =~= amplicons@);
    r
}

/// The row of the amplicon from `p.0` to `p.1` of `seq`, for primers of
/// lengths `fwd_len` and `rev_len`.
pub open spec fn pair_row(
    sequence_id: Seq<u8>,
    primer_name: Seq<u8>,
    seq: Seq<u8>,
    fwd_len: int,
    rev_len: int,
    p: (int, int),
) -> Seq<u8> {
    sequence_id + seq![TAB] + primer_name + seq![TAB] + decimal(p.0 as nat) + seq![TAB]
        + decimal(p.1 as nat) + seq![TAB] + decimal((p.1 - p.0) as nat) + seq![TAB] + decimal(
        (fwd_len + (p.1 - p.0) + rev_len) as nat,
    ) + seq![TAB] + seq.subrange(p.0, p.1) + seq![NEWLINE]
}

/// The rows of the amplicons of `seq` for `pairs`, in order.
pub open spec fn pair_rows(
    sequence_id: Seq<u8>,
    primer_name: Seq<u8>,
    seq: Seq<u8>,
    fwd_len: int,
    rev_len: int,
    pairs: Seq<(int, int)>,
) -> Seq<u8>
    decreases pairs.len(),
{
    if pairs.len() == 0 {
        Seq::empty()
    } else {
        pair_rows(sequence_id, primer_name, seq, fwd_len, rev_len, pairs.drop_last()) + pair_row(
            sequence_id,
            primer_name,
            seq,
            fwd_len,
            rev_len,
            pairs.last(),
        )
    }
}

proof fn lemma_rows_of_described(
    sequence_id: Seq<u8>,
    primer_name: Seq<u8>,
    r: Seq<AmpliconResult>,
    seq: Seq<u8>,
    fwd_len: int,
    rev_len: int,
    pairs: Seq<(int, int)>,
)
    requires
        describes_all(r, seq, fwd_len, rev_len, pairs),
    ensures
        tsv_rows(sequence_id, primer_name, r) == pair_rows(
            sequence_id,
            primer_name,
            seq,
            fwd_len,
            rev_len,
            pairs,
        ),
    decreases r.len(),
{
    if r.len() > 0 {
        let n = r.len() - 1;
        assert(describes_all(r.drop_last(), seq, fwd_len, rev_len, pairs.drop_last())) by {
            assert forall|i: int| 0 <= i < n implies #[trigger] r.drop_last()[i] == r[i]
                && pairs.drop_last()[i] == pairs[i] by {}
            assert forall|i: int| 0 <= i < n implies crate::amplicon::describes(
                #[trigger] r.drop_last()[i],
                seq,
                fwd_len,
                rev_len,
                pairs.drop_last()[i],
            ) by {
                assert(r.drop_last()[i] == r[i] && pairs.drop_last()[i] == pairs[i]);
            }
        }
        lemma_rows_of_described(
            sequence_id,
            primer_name,
            r.drop_last(),
            seq,
            fwd_len,
            rev_len,
            pairs.drop_last(),
        );
        assert(crate::amplicon::describes(r[n], seq, fwd_len, rev_len, pairs[n]));
        assert(tsv_row(sequence_id, primer_name, r.last()) == pair_row(
            sequence_id,
            primer_name,
            seq,
            fwd_len,
            rev_len,
            pairs.last(),
        ));
    }
}

/// The rows of every amplicon that `search_type` finds on `seq` for each of
/// `primer_pairs`, primer pair by primer pair.
pub open spec fn record_rows(
    sequence_id: Seq<u8>,
    seq: Seq<u8>,
    primer_pairs: Seq<PrimerPair>,
    search_type: SearchType,
) -> Seq<u8>
    decreases primer_pairs.len(),
{
    if primer_pairs.len() == 0 {
        Seq::empty()
    } else {
        let pair = primer_pairs.last();
        record_rows(sequence_id, seq, primer_pairs.drop_last(), search_type) + pair_rows(
            sequence_id,
            encode_utf8(pair.primer_name@),
            seq,
            pair.forward_primer@.len() as int,
            pair.reverse_primer@.len() as int,
            search_pairs(seq, &pair, search_type),
        )
    }
}

/// The amplicon rows of one record for every primer pair of the table.
pub fn record_amplicon_rows(
    sequence_id: &[u8],
    seq: &[u8],
    primer_pairs: &Vec<PrimerPair>,
    search_type: &SearchType,
) -> (r: Vec<u8>)
    requires
        forall|i: int| 0 <= i < primer_pairs@.len() ==> #[trigger] primer_pairs@[i].is_valid(),
        seq@.len() + 128 <= usize::MAX,
    ensures
        r@ == record_rows(sequence_id@, seq@, primer_pairs@, *search_type),
{
    let mut r: Vec<u8> = Vec::new();
    let mut i: usize = 0;
    while i < primer_pairs.len()
        invariant
            i <= primer_pairs@.len(),
            forall|k: int| 0 <= k < primer_pairs@.len() ==> #[trigger] primer_pairs@[k].is_valid(),
            seq@.len() + 128 <= usize::MAX,
            r@ == record_rows(
                sequence_id@,
                seq@,
                primer_pairs@.subrange(0, i as int),
                *search_type,
            ),
        decreases primer_pairs.len() - i,
    {
        let pair = &primer_pairs[i];
        assert(pair.is_valid());
        let amplicons = amplicon_search(seq, pair, search_type);
        let rows = amplicon_tsv_rows(sequence_id, pair.primer_name.as_str().as_bytes(), &amplicons);
        proof {
            lemma_rows_of_described(
                sequence_id@,
                encode_utf8(pair.primer_name@),
                amplicons@,
                seq@,
                pair.forward_primer@.len() as int,
                pair.reverse_primer@.len() as int,
                search_pairs(seq@, pair, *search_type),
            );
            assert(primer_pairs@.subrange(0, i as int + 1).drop_last() =~= primer_pairs@.subrange(
                0,
                i as int,
            ));
        }
        push_bytes(&mut r, rows.as_slice());
        i = i + 1;
    }
    assert(primer_pairs@.subrange(0, primer_pairs@.len() as int) =~= primer_pairs@);
    r
}

} // verus!
