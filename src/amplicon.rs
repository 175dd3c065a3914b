//! The amplicon search: primer hits on a reference are paired into
//! amplicons whose insert length lies in the primer pair's window.
use crate::matching::{
    alignment_ends, alignment_ends_of, alignment_starts, alignment_starts_of, all_at_most, dedup,
    dedup_positions, find_occurrences, fuzzy_alignments, holds_position, lemma_dedup_at_most,
    lemma_occurrences_bounded, myers_alignments, no_duplicates, occurrences, occurs_at,
};
use crate::nucleotide::{iupac_ambiguities, iupac_table, reverse_complement, reverse_complement_of};
use crate::primer::PrimerPair;
use vstd::prelude::*;
use vstd::slice::slice_subrange;

verus! {

/// One amplicon found on a reference: the insert between the end of a
/// forward-primer match and the start of a reverse-primer match.
#[derive(PartialEq, Debug)]
pub struct AmpliconResult<'a> {
    pub amplicon: &'a [u8],
    pub start: usize,
    pub end: usize,
    pub insert_length: usize,
    pub total_length: usize,
}

/// An insert from `s` to `b` is well ordered and its length lies in
/// `[min, max]`.
pub open spec fn window_admits(s: int, b: int, min: int, max: int) -> bool {
    s <= b && min <= b - s && b - s <= max
}

/// The pairs `(s, b)` that the insert start `s` forms with the reverse
/// starts, in the order of `reverse`.
pub open spec fn pairs_from(s: int, reverse: Seq<usize>, min: int, max: int) -> Seq<(int, int)>
    decreases reverse.len(),
{
    if reverse.len() == 0 {
        Seq::empty()
    } else {
        let rest = pairs_from(s, reverse.drop_last(), min, max);
        let b = reverse.last() as int;
        if window_admits(s, b, min, max) {
            rest.push((s, b))
        } else {
            rest
        }
    }
}

/// All admitted pairs of an insert start and a reverse start: ascending
/// position in `starts`, then in `reverse`.
pub open spec fn amplicon_pairs(starts: Seq<usize>, reverse: Seq<usize>, min: int, max: int) -> Seq<
    (int, int),
>
    decreases starts.len(),
{
    if starts.len() == 0 {
        Seq::empty()
    } else {
        amplicon_pairs(starts.drop_last(), reverse, min, max) + pairs_from(
            starts.last() as int,
            reverse,
            min,
            max,
        )
    }
}

/// `a` is the amplicon of `seq` from `p.0` to `p.1` for primers of lengths
/// `fwd_len` and `rev_len`.
pub open spec fn describes(
    a: AmpliconResult,
    seq: Seq<u8>,
    fwd_len: int,
    rev_len: int,
    p: (int, int),
) -> bool {
    &&& a.start == p.0
    &&& a.end == p.1
    &&& a.insert_length == p.1 - p.0
    &&& a.total_length == fwd_len + (p.1 - p.0) + rev_len
    &&& a.amplicon@ == seq.subrange(p.0, p.1)
}

/// `r` lists, in order, the amplicons of `seq` for `pairs`.
pub open spec fn describes_all(
    r: Seq<AmpliconResult>,
    seq: Seq<u8>,
    fwd_len: int,
    rev_len: int,
    pairs: Seq<(int, int)>,
) -> bool {
    &&& r.len() == pairs.len()
    &&& forall|i: int|
        0 <= i < r.len() ==> describes(#[trigger] r[i], seq, fwd_len, rev_len, pairs[i])
}

proof fn lemma_pairs_from_prefix(s: int, reverse: Seq<usize>, j: int, min: int, max: int)
    requires
        0 <= j < reverse.len(),
    ensures
        pairs_from(s, reverse.subrange(0, j + 1), min, max) == if window_admits(
            s,
            reverse[j] as int,
            min,
            max,
        ) {
            pairs_from(s, reverse.subrange(0, j), min, max).push((s, reverse[j] as int))
        } else {
            pairs_from(s, reverse.subrange(0, j), min, max)
        },
{
    assert(reverse.subrange(0, j + 1).drop_last() =~= reverse.subrange(0, j));
}

proof fn lemma_amplicon_pairs_prefix(
    starts: Seq<usize>,
    reverse: Seq<usize>,
    i: int,
    min: int,
    max: int,
)
    requires
        0 <= i < starts.len(),
    ensures
        amplicon_pairs(starts.subrange(0, i + 1), reverse, min, max) == amplicon_pairs(
            starts.subrange(0, i),
            reverse,
            min,
            max,
        ) + pairs_from(starts[i] as int, reverse, min, max),
{
    assert(starts.subrange(0, i + 1).drop_last() =~= starts.subrange(0, i));
}

/// Pairs every insert start with every reverse-primer start and keeps the
/// amplicons whose insert length lies in the primer pair's window, in the
/// order of `starts`, then of `reverse`.
pub fn pair_hits<'a>(
    seq: &'a [u8],
    starts: &Vec<usize>,
    reverse: &Vec<usize>,
    primer_pair: &PrimerPair,
) -> (r: Vec<AmpliconResult<'a>>)
    requires
        all_at_most(starts@, seq@.len() as int),
        all_at_most(reverse@, seq@.len() as int),
        seq@.len() + primer_pair.forward_primer@.len() + primer_pair.reverse_primer@.len()
            <= usize::MAX,
    ensures
        describes_all(
            r@,
            seq@,
            primer_pair.forward_primer@.len() as int,
            primer_pair.reverse_primer@.len() as int,
            amplicon_pairs(
                starts@,
                reverse@,
                primer_pair.min_len as int,
                primer_pair.max_len as int,
            ),
        ),
{
    let fwd_len = primer_pair.forward_primer.len();
    let rev_len = primer_pair.reverse_primer.len();
    let min = primer_pair.min_len;
    let max = primer_pair.max_len;
    let ghost fl = fwd_len as int;
    let ghost rl = rev_len as int;
    let mut r: Vec<AmpliconResult<'a>> = Vec::new();
    let mut i: usize = 0;
    while i < starts.len()
        invariant
            i <= starts@.len(),
            all_at_most(starts@, seq@.len() as int),
            all_at_most(reverse@, seq@.len() as int),
            seq@.len() + fl + rl <= usize::MAX,
            fl == primer_pair.forward_primer@.len(),
            rl == primer_pair.reverse_primer@.len(),
            fl == fwd_len,
            rl == rev_len,
            min == primer_pair.min_len,
            max == primer_pair.max_len,
            describes_all(
                r@,
                seq@,
                fl,
                rl,
                amplicon_pairs(starts@.subrange(0, i as int), reverse@, min as int, max as int),
            ),
        decreases starts.len() - i,
    {
        let start = starts[i];
        let ghost before = amplicon_pairs(
            starts@.subrange(0, i as int),
            reverse@,
            min as int,
            max as int,
        );
        let mut j: usize = 0;
        while j < reverse.len()
            invariant
                i < starts@.len(),
                j <= reverse@.len(),
                start == starts@[i as int],
                start <= seq@.len(),
                all_at_most(reverse@, seq@.len() as int),
                seq@.len() + fl + rl <= usize::MAX,
                fl == fwd_len,
                rl == rev_len,
                describes_all(
                    r@,
                    seq@,
                    fl,
                    rl,
                    before + pairs_from(
                        start as int,
                        reverse@.subrange(0, j as int),
                        min as int,
                        max as int,
                    ),
                ),
            decreases reverse.len() - j,
        {
            let end = reverse[j];
            proof {
                lemma_pairs_from_prefix(start as int, reverse@, j as int, min as int, max as int);
            }
            if start <= end && end - start >= min && end - start <= max {
                let insert_length = end - start;
                let amplicon = AmpliconResult {
                    amplicon: slice_subrange(seq, start, end),
                    start,
                    end,
                    insert_length,
                    total_length: fwd_len + insert_length + rev_len,
                };
                r.push(amplicon);
                proof {
                    let pairs = before + pairs_from(
                        start as int,
                        reverse@.subrange(0, j as int + 1),
                        min as int,
                        max as int,
                    );
                    assert(pairs =~= (before + pairs_from(
                        start as int,
                        reverse@.subrange(0, j as int),
                        min as int,
                        max as int,
                    )).push((start as int, end as int)));
                }
            }
            j = j + 1;
        }
        proof {
            assert(reverse@.subrange(0, reverse@.len() as int) =~= reverse@);
            lemma_amplicon_pairs_prefix(starts@, reverse@, i as int, min as int, max as int);
        }
        i = i + 1;
    }
    assert(starts@.subrange(0, starts@.len() as int) =~= starts@);
    r
}

proof fn lemma_pairs_from_members(s: int, reverse: Seq<usize>, min: int, max: int, p: (int, int))
    ensures
        pairs_from(s, reverse, min, max).contains(p) <==> (p.0 == s && holds_position(reverse, p.1)
            && window_admits(p.0, p.1, min, max)),
    decreases reverse.len(),
{
    if reverse.len() > 0 {
        let init = reverse.drop_last();
        lemma_pairs_from_members(s, init, min, max, p);
        let rest = pairs_from(s, init, min, max);
        let b = reverse.last() as int;
        if window_admits(s, b, min, max) {
            assert(rest.push((s, b)).contains(p) <==> (rest.contains(p) || p == (s, b))) by {
                if rest.push((s, b)).contains(p) {
                    let k = choose|k: int|
                        0 <= k < rest.push((s, b)).len() && rest.push((s, b))[k] == p;
                    if k < rest.len() {
                        assert(rest[k] == p);
                    }
                }
                if rest.contains(p) {
                    let k = choose|k: int| 0 <= k < rest.len() && rest[k] == p;
                    assert(rest.push((s, b))[k] == p);
                }
                if p == (s, b) {
                    assert(rest.push((s, b))[rest.len() as int] == p);
                }
            }
        }
        if holds_position(reverse, p.1) {
            let j = choose|j: int| 0 <= j < reverse.len() && reverse[j] as int == p.1;
            if j < init.len() {
                assert(init[j] == reverse[j]);
            }
        }
        if holds_position(init, p.1) {
            let j = choose|j: int| 0 <= j < init.len() && init[j] as int == p.1;
            assert(reverse[j] == init[j]);
        }
    }
}

/// A pair belongs to `amplicon_pairs` exactly when its insert start is one
/// of `starts`, its end one of `reverse`, and the window admits it.
pub proof fn lemma_amplicon_pairs_members(
    starts: Seq<usize>,
    reverse: Seq<usize>,
    min: int,
    max: int,
    p: (int, int),
)
    ensures
        amplicon_pairs(starts, reverse, min, max).contains(p) <==> (holds_position(starts, p.0)
            && holds_position(reverse, p.1) && window_admits(p.0, p.1, min, max)),
    decreases starts.len(),
{
    if starts.len() > 0 {
        let init = starts.drop_last();
        let s = starts.last() as int;
        lemma_amplicon_pairs_members(init, reverse, min, max, p);
        lemma_pairs_from_members(s, reverse, min, max, p);
        let a = amplicon_pairs(init, reverse, min, max);
        let b = pairs_from(s, reverse, min, max);
        assert((a + b).contains(p) <==> (a.contains(p) || b.contains(p))) by {
            if (a + b).contains(p) {
                let k = choose|k: int| 0 <= k < (a + b).len() && (a + b)[k] == p;
                if k < a.len() {
                    assert(a[k] == p);
                } else {
                    assert(b[k - a.len()] == p);
                }
            }
            if a.contains(p) {
                let k = choose|k: int| 0 <= k < a.len() && a[k] == p;
                assert((a + b)[k] == p);
            }
            if b.contains(p) {
                let k = choose|k: int| 0 <= k < b.len() && b[k] == p;
                assert((a + b)[a.len() + k] == p);
            }
        }
        if holds_position(starts, p.0) {
            let j = choose|j: int| 0 <= j < starts.len() && starts[j] as int == p.0;
            if j < init.len() {
                assert(init[j] == starts[j]);
            }
        }
        if holds_position(init, p.0) {
            let j = choose|j: int| 0 <= j < init.len() && init[j] as int == p.0;
            assert(starts[j] == init[j]);
        }
    }
}

/// What every amplicon found on `seq` for `pair` satisfies: it lies within
/// the reference, holds the bytes between its bounds, has an insert length
/// inside the window, and a total length of primers plus insert.
pub open spec fn amplicon_within(a: AmpliconResult, seq: Seq<u8>, pair: &PrimerPair) -> bool {
    &&& 0 <= a.start <= a.end <= seq.len()
    &&& a.amplicon@ == seq.subrange(a.start as int, a.end as int)
    &&& a.insert_length == a.end - a.start
    &&& pair.min_len <= a.insert_length <= pair.max_len
    &&& a.total_length == pair.forward_primer@.len() + a.insert_length + pair.reverse_primer@.len()
}

proof fn lemma_described_within(
    r: Seq<AmpliconResult>,
    seq: Seq<u8>,
    pair: &PrimerPair,
    starts: Seq<usize>,
    reverse: Seq<usize>,
)
    requires
        all_at_most(reverse, seq.len() as int),
        describes_all(
            r,
            seq,
            pair.forward_primer@.len() as int,
            pair.reverse_primer@.len() as int,
            amplicon_pairs(starts, reverse, pair.min_len as int, pair.max_len as int),
        ),
    ensures
        forall|i: int| 0 <= i < r.len() ==> amplicon_within(#[trigger] r[i], seq, pair),
{
    let pairs = amplicon_pairs(starts, reverse, pair.min_len as int, pair.max_len as int);
    assert forall|i: int| 0 <= i < r.len() implies amplicon_within(#[trigger] r[i], seq, pair) by {
        assert(pairs.contains(pairs[i]));
        lemma_amplicon_pairs_members(
            starts,
            reverse,
            pair.min_len as int,
            pair.max_len as int,
            pairs[i],
        );
        let j = choose|j: int| 0 <= j < reverse.len() && reverse[j] as int == pairs[i].1;
        assert(reverse[j] <= seq.len());
    }
}

/// Each position of `v` moved `k` places on.
pub open spec fn shifted(v: Seq<usize>, k: int) -> Seq<usize> {
    v.map_values(|o: usize| (o + k) as usize)
}

/// The amplicon pairs of exact mode: forward-primer occurrences, moved past
/// the primer, paired with the occurrences of the reverse primer's reverse
/// complement.
pub open spec fn exact_pairs(seq: Seq<u8>, pair: &PrimerPair) -> Seq<(int, int)> {
    amplicon_pairs(
        shifted(occurrences(pair.forward_primer@, seq), pair.forward_primer@.len() as int),
        occurrences(reverse_complement_of(pair.reverse_primer@), seq),
        pair.min_len as int,
        pair.max_len as int,
    )
}

/// Finds the amplicons of `seq` for `primer_pair` by literal matching of the
/// forward primer and of the reverse primer's reverse complement.
pub fn amplicon_exact_search<'a>(seq: &'a [u8], primer_pair: &PrimerPair) -> (r: Vec<
    AmpliconResult<'a>,
>)
    requires
        primer_pair.is_valid(),
        seq@.len() + primer_pair.forward_primer@.len() + primer_pair.reverse_primer@.len()
            <= usize::MAX,
    ensures
        describes_all(
            r@,
            seq@,
            primer_pair.forward_primer@.len() as int,
            primer_pair.reverse_primer@.len() as int,
            exact_pairs(seq@, primer_pair),
        ),
        forall|i: int| 0 <= i < r@.len() ==> amplicon_within(#[trigger] r@[i], seq@, primer_pair),
        seq@.len() == 0 ==> r@.len() == 0,
        seq@.len() < primer_pair.forward_primer@.len() ==> r@.len() == 0,
{
    let fwd_len = primer_pair.forward_primer.len();
    let rc = reverse_complement(primer_pair.reverse_primer.as_slice());
    let forward_hits = find_occurrences(seq, primer_pair.forward_primer.as_slice());
    let reverse_hits = find_occurrences(seq, rc.as_slice());
    proof {
        lemma_occurrences_bounded(primer_pair.forward_primer@, seq@, seq@.len() + 1 as int);
        lemma_occurrences_bounded(rc@, seq@, seq@.len() + 1 as int);
    }
    let mut starts: Vec<usize> = Vec::with_capacity(forward_hits.len());
    let mut k: usize = 0;
    while k < forward_hits.len()
        invariant
            k <= forward_hits@.len(),
            fwd_len == primer_pair.forward_primer@.len(),
            seq@.len() + fwd_len <= usize::MAX,
            forward_hits@ == occurrences(primer_pair.forward_primer@, seq@),
            forall|m: int|
                0 <= m < forward_hits@.len() ==> occurs_at(
                    primer_pair.forward_primer@,
                    seq@,
                    #[trigger] forward_hits@[m] as int,
                ),
            starts@ =~= shifted(forward_hits@.subrange(0, k as int), fwd_len as int),
            all_at_most(starts@, seq@.len() as int),
        decreases forward_hits.len() - k,
    {
        assert(occurs_at(primer_pair.forward_primer@, seq@, forward_hits@[k as int] as int));
        starts.push(forward_hits[k] + fwd_len);
        k = k + 1;
    }
    assert(forward_hits@.subrange(0, forward_hits@.len() as int) =~= forward_hits@);
    assert forall|m: int| 0 <= m < reverse_hits@.len() implies #[trigger] reverse_hits@[m]
        <= seq@.len() by {
        assert(occurs_at(rc@, seq@, reverse_hits@[m] as int));
    }
    let r = pair_hits(seq, &starts, &reverse_hits, primer_pair);
    proof {
        lemma_described_within(r@, seq@, primer_pair, starts@, reverse_hits@);
        if seq@.len() < fwd_len {
            if r@.len() > 0 {
                let p = exact_pairs(seq@, primer_pair)[0];
                assert(exact_pairs(seq@, primer_pair).contains(p));
                lemma_amplicon_pairs_members(
                    starts@,
                    reverse_hits@,
                    primer_pair.min_len as int,
                    primer_pair.max_len as int,
                    p,
                );
                let j = choose|j: int| 0 <= j < starts@.len() && starts@[j] as int == p.0;
                assert(occurs_at(primer_pair.forward_primer@, seq@, forward_hits@[j] as int));
            }
        }
    }
    r
}

/// The amplicon pairs of fuzzy mode: the distinct ends of the forward
/// primer's alignments paired with the distinct starts of the alignments of
/// the reverse primer's reverse complement.
pub open spec fn fuzzy_pairs(seq: Seq<u8>, pair: &PrimerPair) -> Seq<(int, int)> {
    amplicon_pairs(
        dedup(
            alignment_ends(
                myers_alignments(
                    pair.forward_primer@,
                    iupac_ambiguities(),
                    seq,
                    pair.mismatch_budget(),
                ),
            ),
        ),
        dedup(
            alignment_starts(
                myers_alignments(
                    reverse_complement_of(pair.reverse_primer@),
                    iupac_ambiguities(),
                    seq,
                    pair.mismatch_budget(),
                ),
            ),
        ),
        pair.min_len as int,
        pair.max_len as int,
    )
}

/// No two amplicons of `r` have the same start and end; where the window is
/// a single length, no two have the same start.
pub open spec fn distinct_amplicons(r: Seq<AmpliconResult>, pair: &PrimerPair) -> bool {
    &&& forall|i: int, j: int|
        0 <= i < j < r.len() ==> (r[i].start != r[j].start || r[i].end != r[j].end)
    &&& pair.min_len == pair.max_len ==> forall|i: int, j: int|
        0 <= i < j < r.len() ==> r[i].start != r[j].start
}

proof fn lemma_pairs_from_distinct(s: int, reverse: Seq<usize>, min: int, max: int)
    requires
        no_duplicates(reverse),
    ensures
        forall|i: int, j: int|
            0 <= i < j < pairs_from(s, reverse, min, max).len() ==> pairs_from(
                s,
                reverse,
                min,
                max,
            )[i].1 != pairs_from(s, reverse, min, max)[j].1,
    decreases reverse.len(),
{
    if reverse.len() > 0 {
        let init = reverse.drop_last();
        let b = reverse.last() as int;
        let rest = pairs_from(s, init, min, max);
        lemma_pairs_from_distinct(s, init, min, max);
        if window_admits(s, b, min, max) {
            let all = rest.push((s, b));
            assert forall|i: int, j: int| 0 <= i < j < all.len() implies all[i].1 != all[j].1 by {
                if j == rest.len() {
                    assert(rest.contains(rest[i]));
                    lemma_pairs_from_members(s, init, min, max, rest[i]);
                    let k = choose|k: int| 0 <= k < init.len() && init[k] as int == rest[i].1;
                    assert(reverse[k] != reverse[reverse.len() - 1]);
                } else {
                    assert(all[i] == rest[i] && all[j] == rest[j]);
                }
            }
        }
    }
}

/// Where neither list holds a position twice, `amplicon_pairs` holds no pair
/// twice.
pub proof fn lemma_amplicon_pairs_distinct(
    starts: Seq<usize>,
    reverse: Seq<usize>,
    min: int,
    max: int,
)
    requires
        no_duplicates(starts),
        no_duplicates(reverse),
    ensures
        forall|i: int, j: int|
            0 <= i < j < amplicon_pairs(starts, reverse, min, max).len() ==> amplicon_pairs(
                starts,
                reverse,
                min,
                max,
            )[i] != amplicon_pairs(starts, reverse, min, max)[j],
    decreases starts.len(),
{
    if starts.len() > 0 {
        let init = starts.drop_last();
        let s = starts.last() as int;
        let a = amplicon_pairs(init, reverse, min, max);
        let b = pairs_from(s, reverse, min, max);
        lemma_amplicon_pairs_distinct(init, reverse, min, max);
        lemma_pairs_from_distinct(s, reverse, min, max);
        let all = a + b;
        assert forall|i: int, j: int| 0 <= i < j < all.len() implies all[i] != all[j] by {
            if j < a.len() {
                assert(all[i] == a[i] && all[j] == a[j]);
            } else if i >= a.len() {
                assert(all[i] == b[i - a.len()] && all[j] == b[j - a.len()]);
            } else {
                assert(a.contains(a[i]));
                lemma_amplicon_pairs_members(init, reverse, min, max, a[i]);
                assert(b.contains(b[j - a.len()]));
                lemma_pairs_from_members(s, reverse, min, max, b[j - a.len()]);
                let k = choose|k: int| 0 <= k < init.len() && init[k] as int == a[i].0;
                assert(starts[k] != starts[starts.len() - 1]);
            }
        }
    }
}

proof fn lemma_described_distinct(
    r: Seq<AmpliconResult>,
    seq: Seq<u8>,
    pair: &PrimerPair,
    starts: Seq<usize>,
    reverse: Seq<usize>,
)
    requires
        no_duplicates(starts),
        no_duplicates(reverse),
        describes_all(
            r,
            seq,
            pair.forward_primer@.len() as int,
            pair.reverse_primer@.len() as int,
            amplicon_pairs(starts, reverse, pair.min_len as int, pair.max_len as int),
        ),
    ensures
        distinct_amplicons(r, pair),
{
    let min = pair.min_len as int;
    let max = pair.max_len as int;
    let pairs = amplicon_pairs(starts, reverse, min, max);
    lemma_amplicon_pairs_distinct(starts, reverse, min, max);
    assert forall|i: int, j: int| 0 <= i < j < r.len() implies (r[i].start != r[j].start
        || r[i].end != r[j].end) by {
        assert(describes(r[i], seq, pair.forward_primer@.len() as int, pair.reverse_primer@.len() as int, pairs[i]));
        assert(describes(r[j], seq, pair.forward_primer@.len() as int, pair.reverse_primer@.len() as int, pairs[j]));
    }
    if min == max {
        assert forall|i: int, j: int| 0 <= i < j < r.len() implies r[i].start != r[j].start by {
            assert(describes(r[i], seq, pair.forward_primer@.len() as int, pair.reverse_primer@.len() as int, pairs[i]));
            assert(describes(r[j], seq, pair.forward_primer@.len() as int, pair.reverse_primer@.len() as int, pairs[j]));
            assert(pairs.contains(pairs[i]));
            assert(pairs.contains(pairs[j]));
            lemma_amplicon_pairs_members(starts, reverse, min, max, pairs[i]);
            lemma_amplicon_pairs_members(starts, reverse, min, max, pairs[j]);
        }
    }
}

/// Pairs the ends of forward-primer alignments with the starts of
/// reverse-primer alignments, each list taken without repeats, and keeps
/// the amplicons whose insert length lies in the primer pair's window.
pub fn pair_fuzzy_hits<'a>(
    seq: &'a [u8],
    forward_ends: &Vec<usize>,
    reverse_starts: &Vec<usize>,
    primer_pair: &PrimerPair,
) -> (r: Vec<AmpliconResult<'a>>)
    requires
        all_at_most(forward_ends@, seq@.len() as int),
        all_at_most(reverse_starts@, seq@.len() as int),
        seq@.len() + primer_pair.forward_primer@.len() + primer_pair.reverse_primer@.len()
            <= usize::MAX,
    ensures
        describes_all(
            r@,
            seq@,
            primer_pair.forward_primer@.len() as int,
            primer_pair.reverse_primer@.len() as int,
            amplicon_pairs(
                dedup(forward_ends@),
                dedup(reverse_starts@),
                primer_pair.min_len as int,
                primer_pair.max_len as int,
            ),
        ),
        forall|i: int| 0 <= i < r@.len() ==> amplicon_within(#[trigger] r@[i], seq@, primer_pair),
        distinct_amplicons(r@, primer_pair),
{
    let starts = dedup_positions(forward_ends);
    let reverse = dedup_positions(reverse_starts);
    proof {
        lemma_dedup_at_most(forward_ends@, seq@.len() as int);
        lemma_dedup_at_most(reverse_starts@, seq@.len() as int);
    }
    let r = pair_hits(seq, &starts, &reverse, primer_pair);
    proof {
        lemma_described_within(r@, seq@, primer_pair, starts@, reverse@);
        lemma_described_distinct(r@, seq@, primer_pair, starts@, reverse@);
    }
    r
}

/// Finds the amplicons of `seq` for `primer_pair` by approximate matching
/// within the pair's edit-distance budget, with IUPAC codes in the primers
/// standing for the bases they name.
pub fn amplicon_fuzzy_search<'a>(seq: &'a [u8], primer_pair: &PrimerPair) -> (r: Vec<
    AmpliconResult<'a>,
>)
    requires
        primer_pair.is_valid(),
        seq@.len() + primer_pair.forward_primer@.len() + primer_pair.reverse_primer@.len()
            <= usize::MAX,
    ensures
        describes_all(
            r@,
            seq@,
            primer_pair.forward_primer@.len() as int,
            primer_pair.reverse_primer@.len() as int,
            fuzzy_pairs(seq@, primer_pair),
        ),
        forall|i: int| 0 <= i < r@.len() ==> amplicon_within(#[trigger] r@[i], seq@, primer_pair),
        distinct_amplicons(r@, primer_pair),
        seq@.len() == 0 ==> r@.len() == 0,
{
    let max_dist = primer_pair.max_edit_distance();
    let table = iupac_table();
    let rc = reverse_complement(primer_pair.reverse_primer.as_slice());
    let forward = fuzzy_alignments(primer_pair.forward_primer.as_slice(), &table, seq, max_dist);
    let reverse = fuzzy_alignments(rc.as_slice(), &table, seq, max_dist);
    let forward_ends = alignment_ends_of(&forward);
    let reverse_starts = alignment_starts_of(&reverse);
    assert forall|k: int| 0 <= k < forward_ends@.len() implies #[trigger] forward_ends@[k]
        <= seq@.len() by {
        assert(forward_ends@[k] == forward@[k].1);
    }
    assert forall|k: int| 0 <= k < reverse_starts@.len() implies #[trigger] reverse_starts@[k]
        <= seq@.len() by {
        assert(reverse_starts@[k] == reverse@[k].0);
    }
    let r = pair_fuzzy_hits(seq, &forward_ends, &reverse_starts, primer_pair);
    proof {
        if seq@.len() == 0 {
            if forward@.len() > 0 {
                assert(forward@[0].0 <= forward@[0].1 <= 0);
            }
            assert(dedup(forward_ends@) =~= Seq::<usize>::empty());
        }
    }
    r
}

/// With a window of the single length `m`, a pair is admitted exactly when
/// its insert has length `m`.
pub proof fn lemma_single_length_window(
    starts: Seq<usize>,
    reverse: Seq<usize>,
    m: int,
    p: (int, int),
)
    requires
        0 <= m,
    ensures
        amplicon_pairs(starts, reverse, m, m).contains(p) <==> (holds_position(starts, p.0)
            && holds_position(reverse, p.1) && p.1 - p.0 == m),
{
    lemma_amplicon_pairs_members(starts, reverse, m, m, p);
}

/// With a window that starts at zero, a reverse match that begins right
/// where a forward match ends gives an amplicon with an empty insert.
pub proof fn lemma_adjacent_primers(starts: Seq<usize>, reverse: Seq<usize>, max: int, s: int)
    requires
        0 <= max,
        holds_position(starts, s),
        holds_position(reverse, s),
    ensures
        amplicon_pairs(starts, reverse, 0, max).contains((s, s)),
{
    lemma_amplicon_pairs_members(starts, reverse, 0, max, (s, s));
}

/// How primers are matched on the reference.
#[derive(Clone, Copy, Debug, PartialEq, Eq, Structural)]
pub enum SearchType {
    /// Literal byte equality.
    Exact,
    /// Edit distance within the primer pair's budget, IUPAC codes allowed.
    Fuzzy,
}

/// The amplicon pairs that `search_type` finds on `seq` for `pair`.
pub open spec fn search_pairs(seq: Seq<u8>, pair: &PrimerPair, search_type: SearchType) -> Seq<
    (int, int),
> {
    match search_type {
        SearchType::Exact => exact_pairs(seq, pair),
        SearchType::Fuzzy => fuzzy_pairs(seq, pair),
    }
}

/// Finds the amplicons of `seq` for `primer_pair` in the mode `search_type`.
pub fn amplicon_search<'a>(
    seq: &'a [u8],
    primer_pair: &PrimerPair,
    search_type: &SearchType,
) -> (r: Vec<AmpliconResult<'a>>)
    requires
        primer_pair.is_valid(),
        seq@.len() + primer_pair.forward_primer@.len() + primer_pair.reverse_primer@.len()
            <= usize::MAX,
    ensures
        describes_all(
            r@,
            seq@,
            primer_pair.forward_primer@.len() as int,
            primer_pair.reverse_primer@.len() as int,
            search_pairs(seq@, primer_pair, *search_type),
        ),
        forall|i: int| 0 <= i < r@.len() ==> amplicon_within(#[trigger] r@[i], seq@, primer_pair),
        seq@.len() == 0 ==> r@.len() == 0,
{
    match search_type {
        SearchType::Exact => amplicon_exact_search(seq, primer_pair),
        SearchType::Fuzzy => amplicon_fuzzy_search(seq, primer_pair),
    }
}

} // verus!
