//! Nucleotide bytes: the canonical alphabet, complements and the IUPAC
//! ambiguity table.
use vstd::prelude::*;

verus! {

/// ASCII `A`.
pub const BASE_A: u8 = 65;

/// ASCII `C`.
pub const BASE_C: u8 = 67;

/// ASCII `G`.
pub const BASE_G: u8 = 71;

/// ASCII `T`.
pub const BASE_T: u8 = 84;

/// A byte of the canonical alphabet `A`, `C`, `G`, `T`.
pub open spec fn is_canonical_base(b: u8) -> bool {
    b == BASE_A || b == BASE_C || b == BASE_G || b == BASE_T
}

/// Every byte of `s` is canonical.
pub open spec fn is_canonical_seq(s: Seq<u8>) -> bool {
    forall|i: int| 0 <= i < s.len() ==> is_canonical_base(#[trigger] s[i])
}

/// Watson-Crick complement on the canonical alphabet.
pub open spec fn complement_base(b: u8) -> u8 {
    if b == BASE_A {
        BASE_T
    } else if b == BASE_C {
        BASE_G
    } else if b == BASE_G {
        BASE_C
    } else if b == BASE_T {
        BASE_A
    } else {
        b
    }
}

/// The reverse complement of `s`: position `i` holds the complement of the
/// byte at the mirrored position.
pub open spec fn reverse_complement_of(s: Seq<u8>) -> Seq<u8> {
    Seq::new(s.len(), |i: int| complement_base(s[s.len() - 1 - i]))
}

/// The reverse complement of a canonical sequence.
pub fn reverse_complement(seq: &[u8]) -> (r: Vec<u8>)
    requires
        is_canonical_seq(seq@),
    ensures
        r@ == reverse_complement_of(seq@),
{
    let n = seq.len();
    let mut r: Vec<u8> = Vec::with_capacity(n);
    let mut k: usize = 0;
    while k < n
        invariant
            k <= n,
            n == seq@.len(),
            is_canonical_seq(seq@),
            r@.len() == k,
            forall|i: int| 0 <= i < k ==> r@[i] == complement_base(seq@[n - 1 - i]),
        decreases n - k,
    {
        let nt = seq[n - 1 - k];
        let c: u8 = if nt == BASE_A {
            BASE_T
        } else if nt == BASE_C {
            BASE_G
        } else if nt == BASE_G {
            BASE_C
        } else {
            BASE_A
        };
        r.push(c);
        k = k + 1;
    }
    assert(r@ =~= reverse_complement_of(seq@));
    r
}

/// Taking the reverse complement twice gives back the canonical sequence.
pub proof fn lemma_reverse_complement_involutive(s: Seq<u8>)
    requires
        is_canonical_seq(s),
    ensures
        reverse_complement_of(reverse_complement_of(s)) == s,
{
    let r = reverse_complement_of(s);
    assert(reverse_complement_of(r) =~= s) by {
        assert forall|i: int| 0 <= i < s.len() implies reverse_complement_of(r)[i] == s[i] by {
            assert(is_canonical_base(s[i]));
        }
    }
}

/// `a - b`, or zero where `b` exceeds `a`.
pub fn usize_sub(a: usize, b: usize) -> (r: usize)
    ensures
        r == if a > b { a - b } else { 0 },
{
    if a > b {
        a - b
    } else {
        0
    }
}

/// ASCII `N`.
pub const CODE_N: u8 = 78;

/// ASCII `R`.
pub const CODE_R: u8 = 82;

/// ASCII `Y`.
pub const CODE_Y: u8 = 89;

/// ASCII `S`.
pub const CODE_S: u8 = 83;

/// ASCII `W`.
pub const CODE_W: u8 = 87;

/// ASCII `K`.
pub const CODE_K: u8 = 75;

/// ASCII `M`.
pub const CODE_M: u8 = 77;

/// ASCII `B`.
pub const CODE_B: u8 = 66;

/// ASCII `D`.
pub const CODE_D: u8 = 68;

/// ASCII `H`.
pub const CODE_H: u8 = 72;

/// ASCII `V`.
pub const CODE_V: u8 = 86;

/// The IUPAC ambiguity codes and the canonical bases that each stands for.
pub open spec fn iupac_ambiguities() -> Seq<(u8, Seq<u8>)> {
    seq![
        (CODE_N, seq![BASE_A, BASE_C, BASE_G, BASE_T]),
        (CODE_R, seq![BASE_A, BASE_G]),
        (CODE_Y, seq![BASE_C, BASE_T]),
        (CODE_S, seq![BASE_G, BASE_C]),
        (CODE_W, seq![BASE_A, BASE_T]),
        (CODE_K, seq![BASE_G, BASE_T]),
        (CODE_M, seq![BASE_A, BASE_C]),
        (CODE_B, seq![BASE_C, BASE_G, BASE_T]),
        (CODE_D, seq![BASE_A, BASE_G, BASE_T]),
        (CODE_H, seq![BASE_A, BASE_C, BASE_T]),
        (CODE_V, seq![BASE_A, BASE_C, BASE_G]),
    ]
}

/// The IUPAC ambiguity table as a vector of codes and their expansions.
pub fn iupac_table() -> (t: Vec<(u8, Vec<u8>)>)
    ensures
        t.deep_view() == iupac_ambiguities(),
{
    let mut t: Vec<(u8, Vec<u8>)> = Vec::new();
    let e: Vec<u8> = vec![BASE_A, BASE_C, BASE_G, BASE_T];
    assert(e.deep_view() =~= seq![BASE_A, BASE_C, BASE_G, BASE_T]);
    t.push((CODE_N, e));
    let e: Vec<u8> = vec![BASE_A, BASE_G];
    assert(e.deep_view() =~= seq![BASE_A, BASE_G]);
    t.push((CODE_R, e));
    let e: Vec<u8> = vec![BASE_C, BASE_T];
    assert(e.deep_view() =~= seq![BASE_C, BASE_T]);
    t.push((CODE_Y, e));
    let e: Vec<u8> = vec![BASE_G, BASE_C];
    assert(e.deep_view() =~= seq![BASE_G, BASE_C]);
    t.push((CODE_S, e));
    let e: Vec<u8> = vec![BASE_A, BASE_T];
    assert(e.deep_view() =~= seq![BASE_A, BASE_T]);
    t.push((CODE_W, e));
    let e: Vec<u8> = vec![BASE_G, BASE_T];
    assert(e.deep_view() =~= seq![BASE_G, BASE_T]);
    t.push((CODE_K, e));
    let e: Vec<u8> = vec![BASE_A, BASE_C];
    assert(e.deep_view() =~= seq![BASE_A, BASE_C]);
    t.push((CODE_M, e));
    let e: Vec<u8> = vec![BASE_C, BASE_G, BASE_T];
    assert(e.deep_view() =~= seq![BASE_C, BASE_G, BASE_T]);
    t.push((CODE_B, e));
    let e: Vec<u8> = vec![BASE_A, BASE_G, BASE_T];
    assert(e.deep_view() =~= seq![BASE_A, BASE_G, BASE_T]);
    t.push((CODE_D, e));
    let e: Vec<u8> = vec![BASE_A, BASE_C, BASE_T];
    assert(e.deep_view() =~= seq![BASE_A, BASE_C, BASE_T]);
    t.push((CODE_H, e));
    let e: Vec<u8> = vec![BASE_A, BASE_C, BASE_G];
    assert(e.deep_view() =~= seq![BASE_A, BASE_C, BASE_G]);
    t.push((CODE_V, e));
    assert(t.deep_view() =~= iupac_ambiguities());
    t
}

/// A soft-masked base: `a`, `c`, `g` or `t`.
pub open spec fn is_softmasked_base(b: u8) -> bool {
    b == 97 || b == 99 || b == 103 || b == 116
}

/// How many of the first `k` bytes of `s` satisfy `p`.
pub open spec fn count_where(s: Seq<u8>, p: spec_fn(u8) -> bool, k: int) -> nat
    decreases k,
{
    if k <= 0 {
        0
    } else {
        count_where(s, p, k - 1) + if p(s[k - 1]) {
            1nat
        } else {
            0nat
        }
    }
}

/// The tally of a sequence's bytes: each canonical base, soft-masked bases,
/// and everything else (ambiguity codes and unknown bytes).
pub struct NucleotideCounts {
    pub a: usize,
    pub c: usize,
    pub g: usize,
    pub t: usize,
    pub softmasked: usize,
    pub ambiguous: usize,
}

/// Counts the bases of `seq` by kind.
pub fn nucleotide_counts(seq: &[u8]) -> (r: NucleotideCounts)
    ensures
        r.a == count_where(seq@, |b: u8| b == BASE_A, seq@.len() as int),
        r.c == count_where(seq@, |b: u8| b == BASE_C, seq@.len() as int),
        r.g == count_where(seq@, |b: u8| b == BASE_G, seq@.len() as int),
        r.t == count_where(seq@, |b: u8| b == BASE_T, seq@.len() as int),
        r.softmasked == count_where(seq@, |b: u8| is_softmasked_base(b), seq@.len() as int),
        r.ambiguous == count_where(
            seq@,
            |b: u8| !is_canonical_base(b) && !is_softmasked_base(b),
            seq@.len() as int,
        ),
{
    let mut r = NucleotideCounts { a: 0, c: 0, g: 0, t: 0, softmasked: 0, ambiguous: 0 };
    let mut i: usize = 0;
    while i < seq.len()
        invariant
            i <= seq@.len(),
            r.a == count_where(seq@, |b: u8| b == BASE_A, i as int),
            r.c == count_where(seq@, |b: u8| b == BASE_C, i as int),
            r.g == count_where(seq@, |b: u8| b == BASE_G, i as int),
            r.t == count_where(seq@, |b: u8| b == BASE_T, i as int),
            r.softmasked == count_where(seq@, |b: u8| is_softmasked_base(b), i as int),
            r.ambiguous == count_where(
                seq@,
                |b: u8| !is_canonical_base(b) && !is_softmasked_base(b),
                i as int,
            ),
            r.a + r.c + r.g + r.t + r.softmasked + r.ambiguous == i,
        decreases seq.len() - i,
    {
        let nt = seq[i];
        if nt == BASE_A {
            r.a = r.a + 1;
        } else if nt == BASE_C {
            r.c = r.c + 1;
        } else if nt == BASE_G {
            r.g = r.g + 1;
        } else if nt == BASE_T {
            r.t = r.t + 1;
        } else if nt == 97 || nt == 99 || nt == 103 || nt == 116 {
            r.softmasked = r.softmasked + 1;
        } else {
            r.ambiguous = r.ambiguous + 1;
        }
        i = i + 1;
    }
    r
}

} // verus!
