//! Character-level helpers for tab-separated text: whitespace trimming,
//! splitting on tabs and reading unsigned decimal numbers.
use vstd::prelude::*;

verus! {

/// The characters that `char::is_whitespace` accepts: Unicode White_Space.
pub open spec fn is_whitespace(c: char) -> bool {
    ||| '\t' <= c <= '\r'
    ||| c == ' '
    ||| c == '\u{85}'
    ||| c == '\u{a0}'
    ||| c == '\u{1680}'
    ||| '\u{2000}' <= c <= '\u{200a}'
    ||| c == '\u{2028}'
    ||| c == '\u{2029}'
    ||| c == '\u{202f}'
    ||| c == '\u{205f}'
    ||| c == '\u{3000}'
}

/// Whether `c` is white space.
pub fn char_is_whitespace(c: char) -> (r: bool)
    ensures
        r == is_whitespace(c),
{
    ('\t' <= c && c <= '\r') || c == ' ' || c == '\u{85}' || c == '\u{a0}' || c == '\u{1680}'
        || ('\u{2000}' <= c && c <= '\u{200a}') || c == '\u{2028}' || c == '\u{2029}' || c
        == '\u{202f}' || c == '\u{205f}' || c == '\u{3000}'
}

/// `s` without its leading white space.
pub open spec fn trim_start(s: Seq<char>) -> Seq<char>
    decreases s.len(),
{
    if s.len() > 0 && is_whitespace(s[0]) {
        trim_start(s.drop_first())
    } else {
        s
    }
}

/// `s` without its trailing white space.
pub open spec fn trim_end(s: Seq<char>) -> Seq<char>
    decreases s.len(),
{
    if s.len() > 0 && is_whitespace(s.last()) {
        trim_end(s.drop_last())
    } else {
        s
    }
}

/// `s` without leading and trailing white space.
pub open spec fn trim(s: Seq<char>) -> Seq<char> {
    trim_end(trim_start(s))
}

/// The fields of `s` between tabs: one more field than there are tabs.
pub open spec fn split_tabs(s: Seq<char>) -> Seq<Seq<char>>
    decreases s.len(),
{
    if s.len() == 0 {
        seq![Seq::empty()]
    } else {
        let f = split_tabs(s.drop_last());
        if s.last() == '\t' {
            f.push(Seq::empty())
        } else {
            f.update(f.len() - 1, f.last().push(s.last()))
        }
    }
}

/// An ASCII decimal digit.
pub open spec fn is_digit(c: char) -> bool {
    '0' <= c <= '9'
}

/// The number that the digits of `s` spell.
pub open spec fn digits_value(s: Seq<char>) -> nat
    decreases s.len(),
{
    if s.len() == 0 {
        0
    } else {
        digits_value(s.drop_last()) * 10 + ((s.last() as nat) - ('0' as nat)) as nat
    }
}

/// `s` without one leading `+`.
pub open spec fn unsigned_digits(s: Seq<char>) -> Seq<char> {
    if s.len() > 0 && s[0] == '+' {
        s.drop_first()
    } else {
        s
    }
}

/// What `usize::from_str` gives for `s`: an optional `+`, then one or more
/// decimal digits whose value fits in a `usize`.
pub open spec fn parse_usize(s: Seq<char>) -> Option<usize> {
    let d = unsigned_digits(s);
    if d.len() > 0 && (forall|i: int| 0 <= i < d.len() ==> is_digit(#[trigger] d[i]))
        && digits_value(d) <= usize::MAX {
        Some(digits_value(d) as usize)
    } else {
        None
    }
}

/// The characters of `s`.
pub fn chars_of(s: &str) -> (r: Vec<char>)
    ensures
        r@ == s@,
{
    let n = s.unicode_len();
    let mut r: Vec<char> = Vec::with_capacity(n);
    let mut i: usize = 0;
    while i < n
        invariant
            n == s@.len(),
            i <= n,
            r@ == s@.subrange(0, i as int),
        decreases n - i,
    {
        r.push(s.get_char(i));
        i = i + 1;
        assert(r@ =~= s@.subrange(0, i as int));
    }
    assert(s@.subrange(0, n as int) =~= s@);
    r
}

/// The bounds of `c[lo..hi]` with its leading and trailing white space
/// removed.
pub fn trim_bounds(c: &Vec<char>, lo: usize, hi: usize) -> (r: (usize, usize))
    requires
        lo <= hi <= c@.len(),
    ensures
        lo <= r.0 <= r.1 <= hi,
        c@.subrange(r.0 as int, r.1 as int) == trim(c@.subrange(lo as int, hi as int)),
{
    let mut a = lo;
    while a < hi && char_is_whitespace(c[a])
        invariant
            lo <= a <= hi <= c@.len(),
            trim_start(c@.subrange(lo as int, hi as int)) == trim_start(
                c@.subrange(a as int, hi as int),
            ),
        decreases hi - a,
    {
        assert(c@.subrange(a as int, hi as int).drop_first() =~= c@.subrange(
            a as int + 1,
            hi as int,
        ));
        a = a + 1;
    }
    let mut b = hi;
    while b > a && char_is_whitespace(c[b - 1])
        invariant
            lo <= a <= b <= hi <= c@.len(),
            trim_end(c@.subrange(a as int, hi as int)) == trim_end(c@.subrange(a as int, b as int)),
        decreases b - a,
    {
        assert(c@.subrange(a as int, b as int).drop_last() =~= c@.subrange(
            a as int,
            b as int - 1,
        ));
        b = b - 1;
    }
    (a, b)
}

/// The spans of the fields of `c[lo..hi]` between tabs, as bounds into `c`.
pub open spec fn spans_text(c: Seq<char>, spans: Seq<(usize, usize)>) -> Seq<Seq<char>> {
    spans.map_values(|sp: (usize, usize)| c.subrange(sp.0 as int, sp.1 as int))
}

/// The bounds in `c` of the tab-separated fields of `c[lo..hi]`.
pub fn split_tab_spans(c: &Vec<char>, lo: usize, hi: usize) -> (r: Vec<(usize, usize)>)
    requires
        lo <= hi <= c@.len(),
    ensures
        spans_text(c@, r@) == split_tabs(c@.subrange(lo as int, hi as int)),
        forall|k: int| 0 <= k < r@.len() ==> lo <= #[trigger] r@[k].0 <= r@[k].1 <= hi,
{
    let mut spans: Vec<(usize, usize)> = Vec::new();
    let mut field_start = lo;
    let mut i = lo;
    assert(spans_text(c@, spans@).push(c@.subrange(lo as int, lo as int)) =~~= split_tabs(
        c@.subrange(lo as int, lo as int),
    ));
    while i < hi
        invariant
            lo <= field_start <= i <= hi <= c@.len(),
            spans_text(c@, spans@).push(c@.subrange(field_start as int, i as int)) == split_tabs(
                c@.subrange(lo as int, i as int),
            ),
            forall|k: int| 0 <= k < spans@.len() ==> lo <= #[trigger] spans@[k].0 <= spans@[k].1 <= hi,
        decreases hi - i,
    {
        let ghost before = spans_text(c@, spans@).push(c@.subrange(field_start as int, i as int));
        assert(c@.subrange(lo as int, i as int + 1).drop_last() =~= c@.subrange(lo as int, i as int));
        assert(c@.subrange(lo as int, i as int + 1).last() == c@[i as int]);
        if c[i] == '\t' {
            spans.push((field_start, i));
            field_start = i + 1;
            assert(spans_text(c@, spans@).push(c@.subrange(field_start as int, i as int + 1))
                =~~= before.push(Seq::empty()));
        } else {
            assert(spans_text(c@, spans@).push(c@.subrange(field_start as int, i as int + 1))
                =~~= before.update(before.len() - 1, before.last().push(c@[i as int])));
        }
        i = i + 1;
    }
    spans.push((field_start, hi));
    assert(spans_text(c@, spans@) =~~= split_tabs(c@.subrange(lo as int, hi as int)));
    spans
}

proof fn lemma_digits_value_grows(s: Seq<char>, i: int)
    requires
        0 <= i <= s.len(),
    ensures
        digits_value(s.subrange(0, i)) <= digits_value(s),
    decreases s.len() - i,
{
    if i < s.len() {
        lemma_digits_value_grows(s.drop_last(), i);
        assert(s.drop_last().subrange(0, i) =~= s.subrange(0, i));
    } else {
        assert(s.subrange(0, i) =~= s);
    }
}

/// Reads `c[lo..hi]` as `usize::from_str` would.
pub fn parse_usize_span(c: &Vec<char>, lo: usize, hi: usize) -> (r: Option<usize>)
    requires
        lo <= hi <= c@.len(),
    ensures
        r == parse_usize(c@.subrange(lo as int, hi as int)),
{
    let ghost s = c@.subrange(lo as int, hi as int);
    let mut a = lo;
    if a < hi && c[a] == '+' {
        a = a + 1;
    }
    let ghost d = c@.subrange(a as int, hi as int);
    assert(d =~= unsigned_digits(s));
    if a == hi {
        return None;
    }
    let mut value: usize = 0;
    let mut i = a;
    while i < hi
        invariant
            lo <= a <= i <= hi <= c@.len(),
            d == c@.subrange(a as int, hi as int),
            d == unsigned_digits(c@.subrange(lo as int, hi as int)),
            forall|k: int| 0 <= k < i - a ==> is_digit(#[trigger] d[k]),
            value == digits_value(d.subrange(0, i - a)),
        decreases hi - i,
    {
        let ch = c[i];
        assert(d[i - a] == ch);
        if !('0' <= ch && ch <= '9') {
            assert(!is_digit(d[i - a]));
            return None;
        }
        let digit: usize = (ch as u32 - '0' as u32) as usize;
        assert(d.subrange(0, i - a + 1).drop_last() =~= d.subrange(0, i - a));
        proof {
            lemma_digits_value_grows(d, i - a + 1);
        }
        assert(digits_value(d.subrange(0, i - a + 1)) == value * 10 + digit);
        if value > (usize::MAX - digit) / 10 {
            assert(value * 10 + digit > usize::MAX) by (nonlinear_arith)
                requires
                    value > (usize::MAX - digit) / 10,
                    digit <= 9,
            ;
            assert(digits_value(d) > usize::MAX);
            return None;
        }
        assert(value * 10 + digit <= usize::MAX) by (nonlinear_arith)
            requires
                value <= (usize::MAX - digit) / 10,
                digit <= 9,
        ;
        value = value * 10 + digit;
        i = i + 1;
    }
    assert(d.subrange(0, i - a) =~= d);
    Some(value)
}

} // verus!
