//! Finding primers on a reference: literal occurrences, approximate
//! alignments with IUPAC codes, and lists of hit positions without repeats.
use vstd::prelude::*;
use vstd::slice::slice_subrange;

verus! {

/// `pat` occurs in `text` starting at `i`.
pub open spec fn occurs_at(pat: Seq<u8>, text: Seq<u8>, i: int) -> bool {
    0 <= i && i + pat.len() <= text.len() && text.subrange(i, i + pat.len()) == pat
}

/// The positions below `n` where `pat` occurs in `text`, ascending.
pub open spec fn occurrences_below(pat: Seq<u8>, text: Seq<u8>, n: int) -> Seq<usize>
    decreases n,
{
    if n <= 0 {
        Seq::empty()
    } else {
        let rest = occurrences_below(pat, text, n - 1);
        if occurs_at(pat, text, n - 1) {
            rest.push((n - 1) as usize)
        } else {
            rest
        }
    }
}

/// Every position where `pat` occurs in `text`, overlapping ones included,
/// ascending.
pub open spec fn occurrences(pat: Seq<u8>, text: Seq<u8>) -> Seq<usize> {
    occurrences_below(pat, text, text.len() + 1 as int)
}

/// Relies on `memchr::memmem::find`: the index of the first occurrence of
/// `needle` in `haystack`, or `None` where it does not occur.
#[verifier::external_body]
fn first_occurrence(haystack: &[u8], needle: &[u8]) -> (r: Option<usize>)
    ensures
        match r {
            Some(i) => occurs_at(needle@, haystack@, i as int) && forall|j: int|
                0 <= j < i ==> !occurs_at(needle@, haystack@, j),
            None => forall|j: int| !occurs_at(needle@, haystack@, j),
        },
{
    memchr::memmem::find(haystack, needle)
}

proof fn lemma_occurs_in_suffix(pat: Seq<u8>, text: Seq<u8>, pos: int, j: int)
    requires
        0 <= pos <= text.len(),
        0 <= j,
    ensures
        occurs_at(pat, text.subrange(pos, text.len() as int), j) == occurs_at(pat, text, pos + j),
{
    let suffix = text.subrange(pos, text.len() as int);
    if j + pat.len() <= suffix.len() {
        assert(suffix.subrange(j, j + pat.len()) =~= text.subrange(pos + j, pos + j + pat.len()));
    }
}

proof fn lemma_no_occurrences_between(pat: Seq<u8>, text: Seq<u8>, a: int, b: int)
    requires
        0 <= a <= b,
        forall|j: int| a <= j < b ==> !occurs_at(pat, text, j),
    ensures
        occurrences_below(pat, text, b) == occurrences_below(pat, text, a),
    decreases b - a,
{
    if a < b {
        lemma_no_occurrences_between(pat, text, a, b - 1);
    }
}

pub(crate) proof fn lemma_occurrences_bounded(pat: Seq<u8>, text: Seq<u8>, n: int)
    requires
        text.len() <= usize::MAX,
    ensures
        forall|k: int|
            0 <= k < occurrences_below(pat, text, n).len() ==> occurs_at(
                pat,
                text,
                #[trigger] occurrences_below(pat, text, n)[k] as int,
            ) && occurrences_below(pat, text, n)[k] < n,
    decreases n,
{
    if n > 0 {
        lemma_occurrences_bounded(pat, text, n - 1);
        let rest = occurrences_below(pat, text, n - 1);
        let all = occurrences_below(pat, text, n);
        assert forall|k: int| 0 <= k < all.len() implies occurs_at(pat, text, all[k] as int)
            && all[k] < n by {
            if k < rest.len() {
                assert(all[k] == rest[k]);
            }
        }
    }
}

/// Every start offset of `pattern` in `seq`, overlapping matches included,
/// in ascending order.
pub fn find_occurrences(seq: &[u8], pattern: &[u8]) -> (r: Vec<usize>)
    ensures
        r@ == occurrences(pattern@, seq@),
{
    let n = seq.len();
    let mut r: Vec<usize> = Vec::new();
    let mut pos: usize = 0;
    let mut done = false;
    while !done
        invariant
            n == seq@.len(),
            pos <= n,
            !done ==> r@ == occurrences_below(pattern@, seq@, pos as int),
            done ==> r@ == occurrences(pattern@, seq@),
        decreases
            if done { 0 } else { n - pos + 1 },
    {
        let rest = slice_subrange(seq, pos, n);
        match first_occurrence(rest, pattern) {
            Some(i) => {
                proof {
                    lemma_occurs_in_suffix(pattern@, seq@, pos as int, i as int);
                    assert forall|j: int| pos <= j < pos + i implies !occurs_at(
                        pattern@,
                        seq@,
                        j,
                    ) by {
                        lemma_occurs_in_suffix(pattern@, seq@, pos as int, j - pos);
                    }
                    lemma_no_occurrences_between(pattern@, seq@, pos as int, pos + i);
                }
                r.push(pos + i);
                if pos + i == n {
                    done = true;
                } else {
                    pos = pos + i + 1;
                }
            },
            None => {
                proof {
                    assert forall|j: int| pos <= j < n + 1 implies !occurs_at(
                        pattern@,
                        seq@,
                        j,
                    ) by {
                        lemma_occurs_in_suffix(pattern@, seq@, pos as int, j - pos);
                    }
                    lemma_no_occurrences_between(pattern@, seq@, pos as int, n + 1);
                }
                done = true;
            },
        }
    }
    r
}

/// Each position of `v` is at most `n`.
pub open spec fn all_at_most(v: Seq<usize>, n: int) -> bool {
    forall|i: int| 0 <= i < v.len() ==> #[trigger] v[i] <= n
}

/// `x` is one of the positions in `v`.
pub open spec fn holds_position(v: Seq<usize>, x: int) -> bool {
    exists|j: int| 0 <= j < v.len() && v[j] as int == x
}

/// `v` holds no position twice.
pub open spec fn no_duplicates(v: Seq<usize>) -> bool {
    forall|i: int, j: int| 0 <= i < j < v.len() ==> v[i] != v[j]
}

/// `v` with every repeated position dropped after its first occurrence.
pub open spec fn dedup(v: Seq<usize>) -> Seq<usize>
    decreases v.len(),
{
    if v.len() == 0 {
        v
    } else {
        let d = dedup(v.drop_last());
        if d.contains(v.last()) {
            d
        } else {
            d.push(v.last())
        }
    }
}

proof fn lemma_dedup_prefix(v: Seq<usize>, i: int)
    requires
        0 <= i < v.len(),
    ensures
        dedup(v.subrange(0, i + 1)) == if dedup(v.subrange(0, i)).contains(v[i]) {
            dedup(v.subrange(0, i))
        } else {
            dedup(v.subrange(0, i)).push(v[i])
        },
{
    assert(v.subrange(0, i + 1).drop_last() =~= v.subrange(0, i));
}

/// `dedup` keeps exactly the positions of `v`, each once.
pub proof fn lemma_dedup(v: Seq<usize>)
    ensures
        no_duplicates(dedup(v)),
        forall|x: int| holds_position(dedup(v), x) <==> holds_position(v, x),
    decreases v.len(),
{
    if v.len() > 0 {
        let init = v.drop_last();
        lemma_dedup(init);
        let d = dedup(init);
        assert forall|x: int| holds_position(dedup(v), x) <==> holds_position(v, x) by {
            if holds_position(v, x) {
                let j = choose|j: int| 0 <= j < v.len() && v[j] as int == x;
                if j < init.len() {
                    assert(init[j] == v[j]);
                    assert(holds_position(init, x));
                    assert(holds_position(d, x));
                    let k = choose|k: int| 0 <= k < d.len() && d[k] as int == x;
                    if !d.contains(v.last()) {
                        assert(d.push(v.last())[k] == d[k]);
                    }
                } else if d.contains(v.last()) {
                    let k = choose|k: int| 0 <= k < d.len() && d[k] == v.last();
                    assert(d[k] as int == x);
                } else {
                    assert(d.push(v.last())[d.len() as int] as int == x);
                }
            }
            if holds_position(dedup(v), x) {
                let k = choose|k: int| 0 <= k < dedup(v).len() && dedup(v)[k] as int == x;
                if k < d.len() {
                    assert(dedup(v)[k] == d[k]);
                    assert(holds_position(d, x));
                    assert(holds_position(init, x));
                    let j = choose|j: int| 0 <= j < init.len() && init[j] as int == x;
                    assert(v[j] == init[j]);
                } else {
                    assert(v[v.len() - 1] as int == x);
                }
            }
        }
    }
}

/// The `(start, end)` ranges of the alignments that bio's bit-parallel
/// Myers matcher reports for `pattern` in `text` within `max_dist` edits,
/// with the ambiguity codes of `ambiguities` installed. It depends on its
/// arguments alone.
pub uninterp spec fn myers_alignments(
    pattern: Seq<u8>,
    ambiguities: Seq<(u8, Seq<u8>)>,
    text: Seq<u8>,
    max_dist: u8,
) -> Seq<(usize, usize)>;

/// Relies on bio's `MyersBuilder` (`new`, `ambig`, `build_64`) and
/// `Myers::find_all`: the `(start, end)` ranges, `end` excluded, of the
/// alignments of `pattern` in `text` within `max_dist` edits, one for each
/// end position that has one, where each ambiguity code of the pattern
/// matches the bytes that it stands for. Each range lies within `text` and
/// ends past at least one text byte. `build_64` panics on a pattern that is
/// empty or longer than 64 bytes.
#[verifier::external_body]
pub(crate) fn fuzzy_alignments(
    pattern: &[u8],
    ambiguities: &Vec<(u8, Vec<u8>)>,
    text: &[u8],
    max_dist: u8,
) -> (r: Vec<(usize, usize)>)
    requires
        1 <= pattern@.len() <= 64,
    ensures
        r@ == myers_alignments(pattern@, ambiguities.deep_view(), text@, max_dist),
        forall|i: int|
            0 <= i < r@.len() ==> r@[i].0 <= r@[i].1 <= text@.len() && 1 <= r@[i].1,
{
    let mut builder = bio::pattern_matching::myers::MyersBuilder::new();
    for (symbol, equivalents) in ambiguities.iter() {
        builder.ambig(*symbol, equivalents);
    }
    let mut myers = builder.build_64(pattern);
    myers.find_all(text, max_dist).map(|(start, end, _)| (start, end)).collect()
}

/// The start positions of `alignments`.
pub open spec fn alignment_starts(alignments: Seq<(usize, usize)>) -> Seq<usize> {
    alignments.map_values(|a: (usize, usize)| a.0)
}

/// The end positions of `alignments`, each excluded from its alignment.
pub open spec fn alignment_ends(alignments: Seq<(usize, usize)>) -> Seq<usize> {
    alignments.map_values(|a: (usize, usize)| a.1)
}

/// `v` with repeated positions dropped, first occurrences kept in order.
pub fn dedup_positions(v: &Vec<usize>) -> (r: Vec<usize>)
    ensures
        r@ == dedup(v@),
{
    let mut r: Vec<usize> = Vec::new();
    let mut i: usize = 0;
    while i < v.len()
        invariant
            i <= v@.len(),
            r@ == dedup(v@.subrange(0, i as int)),
        decreases v.len() - i,
    {
        let x = v[i];
        let mut seen = false;
        let mut k: usize = 0;
        while k < r.len()
            invariant
                k <= r@.len(),
                seen <==> exists|m: int| 0 <= m < k && r@[m] == x,
            decreases r.len() - k,
        {
            if r[k] == x {
                seen = true;
            }
            k = k + 1;
        }
        proof {
            lemma_dedup_prefix(v@, i as int);
        }
        if !seen {
            r.push(x);
        }
        i = i + 1;
    }
    assert(v@.subrange(0, v@.len() as int) =~= v@);
    r
}

pub(crate) proof fn lemma_dedup_at_most(v: Seq<usize>, n: int)
    requires
        all_at_most(v, n),
    ensures
        all_at_most(dedup(v), n),
        no_duplicates(dedup(v)),
{
    lemma_dedup(v);
    assert forall|k: int| 0 <= k < dedup(v).len() implies #[trigger] dedup(v)[k] <= n by {
        assert(holds_position(dedup(v), dedup(v)[k] as int));
        assert(holds_position(v, dedup(v)[k] as int));
        let j = choose|j: int| 0 <= j < v.len() && v[j] as int == dedup(v)[k] as int;
        assert(v[j] <= n);
    }
}

pub(crate) fn alignment_ends_of(alignments: &Vec<(usize, usize)>) -> (r: Vec<usize>)
    ensures
        r@ == alignment_ends(alignments@),
{
    let mut r: Vec<usize> = Vec::with_capacity(alignments.len());
    let mut i: usize = 0;
    while i < alignments.len()
        invariant
            i <= alignments@.len(),
            r@ =~= alignment_ends(alignments@.subrange(0, i as int)),
        decreases alignments.len() - i,
    {
        r.push(alignments[i].1);
        i = i + 1;
    }
    assert(alignments@.subrange(0, alignments@.len() as int) =~= alignments@);
    r
}

pub(crate) fn alignment_starts_of(alignments: &Vec<(usize, usize)>) -> (r: Vec<usize>)
    ensures
        r@ == alignment_starts(alignments@),
{
    let mut r: Vec<usize> = Vec::with_capacity(alignments.len());
    let mut i: usize = 0;
    while i < alignments.len()
        invariant
            i <= alignments@.len(),
            r@ =~= alignment_starts(alignments@.subrange(0, i as int)),
        decreases alignments.len() - i,
    {
        r.push(alignments[i].0);
        i = i + 1;
    }
    assert(alignments@.subrange(0, alignments@.len() as int) =~= alignments@);
    r
}

} // verus!
