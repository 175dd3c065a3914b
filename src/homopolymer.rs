//! Homopolymers: runs of one repeated byte.
use vstd::prelude::*;

verus! {

/// A byte that `u8_to_char` recognises: `A`, `C`, `G`, `T` in either case.
pub open spec fn is_plain_base(b: u8) -> bool {
    b == 65 || b == 67 || b == 71 || b == 84 || b == 97 || b == 99 || b == 103 || b == 116
}

/// The character of a canonical or soft-masked base, `None` for any other
/// byte.
pub fn u8_to_char(nt: &u8) -> (r: Option<char>)
    ensures
        r is Some <==> is_plain_base(*nt),
        r is Some ==> r->Some_0 as u32 == *nt as u32,
{
    match *nt {
        65 => Some('A'),
        84 => Some('T'),
        67 => Some('C'),
        71 => Some('G'),
        97 => Some('a'),
        116 => Some('t'),
        99 => Some('c'),
        103 => Some('g'),
        _ => None,
    }
}

/// Whether the run from `i` to `j` of the byte `nt` is reported: it is at
/// least `min_hp_len` long and, in strict mode, its byte is a plain base.
pub fn valid_homopolymer(i: usize, j: usize, nt: &u8, min_hp_len: usize, strict: bool) -> (r: bool)
    requires
        i <= j,
    ensures
        r == (j - i >= min_hp_len && (!strict || is_plain_base(*nt))),
{
    let valid_len = j - i >= min_hp_len;
    match (strict, u8_to_char(nt)) {
        (false, _) => valid_len,
        (true, Some(_)) => valid_len,
        (true, None) => false,
    }
}

/// How many bytes before `i` continue the run that holds `i`.
pub open spec fn run_index(s: Seq<u8>, i: int) -> nat
    decreases i,
{
    if i <= 0 || i >= s.len() || s[i] != s[i - 1] {
        0
    } else {
        run_index(s, i - 1) + 1
    }
}

proof fn lemma_run_index_bounded(s: Seq<u8>, i: int)
    ensures
        run_index(s, i) <= if i < 0 {
            0
        } else {
            i
        },
    decreases i,
{
    if i > 0 {
        lemma_run_index_bounded(s, i - 1);
    }
}

/// `s[..k]` with every run cut to at most `max_hp_len` bytes.
pub open spec fn compressed_prefix(s: Seq<u8>, max_hp_len: nat, k: int) -> Seq<u8>
    decreases k,
{
    if k <= 0 {
        Seq::empty()
    } else {
        let rest = compressed_prefix(s, max_hp_len, k - 1);
        if run_index(s, k - 1) < max_hp_len {
            rest.push(s[k - 1])
        } else {
            rest
        }
    }
}

/// `seq` with every run of one byte cut to at most `max_hp_len` bytes.
pub fn homopolymer_compression(seq: &[u8], max_hp_len: usize) -> (r: Vec<u8>)
    ensures
        r@ == compressed_prefix(seq@, max_hp_len as nat, seq@.len() as int),
{
    let mut r: Vec<u8> = Vec::with_capacity(seq.len());
    let mut run: usize = 0;
    let mut i: usize = 0;
    while i < seq.len()
        invariant
            i <= seq@.len(),
            i > 0 ==> run == run_index(seq@, i - 1),
            i > 0 ==> run < i,
            r@ == compressed_prefix(seq@, max_hp_len as nat, i as int),
        decreases seq.len() - i,
    {
        proof {
            lemma_run_index_bounded(seq@, i as int);
        }
        if i > 0 && seq[i] == seq[i - 1] {
            run = run + 1;
        } else {
            run = 0;
        }
        if run < max_hp_len {
            r.push(seq[i]);
        }
        i = i + 1;
    }
    r
}

/// The homopolymers reported among the runs that end before `k`: each run
/// `[start, end)` that is maximal, at least `min_hp_len` long and, in
/// strict mode, of a plain base.
pub open spec fn homopolymers_prefix(s: Seq<u8>, min_hp_len: nat, strict: bool, k: int) -> Seq<
    (usize, usize),
>
    decreases k,
{
    if k <= 0 || k > s.len() {
        Seq::empty()
    } else {
        let rest = homopolymers_prefix(s, min_hp_len, strict, k - 1);
        let len = run_index(s, k - 1) + 1;
        if (k == s.len() || s[k] != s[k - 1]) && len >= min_hp_len && (!strict || is_plain_base(
            s[k - 1],
        )) {
            rest.push(((k - len) as usize, k as usize))
        } else {
            rest
        }
    }
}

/// The homopolymers of `seq`, as `(start, end)` with `end` excluded, in
/// ascending order.
pub fn find_homopolymers_in_record(seq: &[u8], min_hp_len: usize, strict: bool) -> (r: Vec<(usize, usize)>)
    ensures
        r@ == homopolymers_prefix(seq@, min_hp_len as nat, strict, seq@.len() as int),
{
    let n = seq.len();
    let mut r: Vec<(usize, usize)> = Vec::new();
    let mut run: usize = 0;
    let mut i: usize = 0;
    while i < n
        invariant
            n == seq@.len(),
            i <= n,
            i > 0 ==> run == run_index(seq@, i - 1),
            i > 0 ==> run < i,
            r@ == homopolymers_prefix(seq@, min_hp_len as nat, strict, i as int),
        decreases n - i,
    {
        proof {
            lemma_run_index_bounded(seq@, i as int);
        }
        if i > 0 && seq[i] == seq[i - 1] {
            run = run + 1;
        } else {
            run = 0;
        }
        let ends_here = i + 1 == n || seq[i + 1] != seq[i];
        if ends_here && valid_homopolymer(i - run, i + 1, &seq[i], min_hp_len, strict) {
            r.push((i - run, i + 1));
        }
        i = i + 1;
    }
    r
}

} // verus!
