//! Character-level text handling: whitespace, trimming, splitting at a
//! separator, and the number syntaxes that data files use.

use vstd::prelude::*;

verus! {

/// Unicode `White_Space`, the set that `char::is_whitespace` and
/// `str::trim` use.
pub open spec fn is_ws(c: char) -> bool {
    ||| '\u{9}' <= c <= '\u{d}'
    ||| c == ' '
    ||| c == '\u{85}'
    ||| c == '\u{a0}'
    ||| c == '\u{1680}'
    ||| '\u{2000}' <= c <= '\u{200a}'
    ||| c == '\u{2028}'
    ||| c == '\u{2029}'
    ||| c == '\u{202f}'
    ||| c == '\u{205f}'
    ||| c == '\u{3000}'
}

/// Whether `c` is Unicode white space.
pub fn is_whitespace(c: char) -> (b: bool)
    ensures
        b == is_ws(c),
{
    ('\u{9}' <= c && c <= '\u{d}') || c == ' ' || c == '\u{85}' || c == '\u{a0}' || c == '\u{1680}'
        || ('\u{2000}' <= c && c <= '\u{200a}') || c == '\u{2028}' || c == '\u{2029}' || c
        == '\u{202f}' || c == '\u{205f}' || c == '\u{3000}'
}

/// `s` without its leading white space.
pub open spec fn trim_start(s: Seq<char>) -> Seq<char>
    decreases s.len(),
{
    if s.len() > 0 && is_ws(s[0]) {
        trim_start(s.drop_first())
    } else {
        s
    }
}

/// `s` without its trailing white space.
pub open spec fn trim_end(s: Seq<char>) -> Seq<char>
    decreases s.len(),
{
    if s.len() > 0 && is_ws(s.last()) {
        trim_end(s.drop_last())
    } else {
        s
    }
}

/// `s` without leading and trailing white space, as `str::trim` gives it.
pub open spec fn trim(s: Seq<char>) -> Seq<char> {
    trim_end(trim_start(s))
}

/// The characters of `s`.
pub fn chars_of(s: &str) -> (v: Vec<char>)
    ensures
        v@ == s@,
{
    let mut v: Vec<char> = Vec::new();
    for c in it: s.chars()
        invariant
            it.seq() == s@,
            v@ == s@.take(it.index() as int),
    {
        proof {
            assert(s@.take(it.index() + 1) =~= s@.take(it.index() as int).push(c));
        }
        v.push(c);
    }
    proof {
        assert(s@.take(s@.len() as int) =~= s@);
    }
    v
}


/// The part of `s` between `lo` and `hi` with white space taken off both
/// ends, as a pair of positions.
pub fn trim_range(s: &Vec<char>, lo: usize, hi: usize) -> (r: (usize, usize))
    requires
        lo <= hi <= s@.len(),
    ensures
        lo <= r.0 <= r.1 <= hi,
        s@.subrange(r.0 as int, r.1 as int) == trim(s@.subrange(lo as int, hi as int)),
{
    let mut a = lo;
    while a < hi && is_whitespace(s[a])
        invariant
            lo <= a <= hi <= s@.len(),
            trim_start(s@.subrange(lo as int, hi as int)) == trim_start(s@.subrange(a as int, hi as int)),
        decreases hi - a,
    {
        proof {
            assert(s@.subrange(a as int, hi as int).drop_first() =~= s@.subrange(a + 1, hi as int));
        }
        a = a + 1;
    }
    let mut b = hi;
    while b > a && is_whitespace(s[b - 1])
        invariant
            lo <= a <= b <= hi <= s@.len(),
            trim_start(s@.subrange(lo as int, hi as int)) == s@.subrange(a as int, hi as int),
            trim(s@.subrange(lo as int, hi as int)) == trim_end(s@.subrange(a as int, b as int)),
        decreases b - a,
    {
        proof {
            assert(s@.subrange(a as int, b as int).drop_last() =~= s@.subrange(a as int, b - 1));
        }
        b = b - 1;
    }
    (a, b)
}

/// The pieces of `s` between occurrences of `sep`, as `str::split` gives
/// them: `k` separators give `k + 1` pieces, some of which may be empty.
pub open spec fn split(s: Seq<char>, sep: char) -> Seq<Seq<char>>
    decreases s.len(),
{
    if s.len() == 0 {
        seq![Seq::<char>::empty()]
    } else if s.last() == sep {
        split(s.drop_last(), sep).push(Seq::<char>::empty())
    } else {
        let p = split(s.drop_last(), sep);
        p.update(p.len() - 1, p.last().push(s.last()))
    }
}

/// `split` always yields at least one piece.
pub proof fn lemma_split_nonempty(s: Seq<char>, sep: char)
    ensures
        split(s, sep).len() >= 1,
    decreases s.len(),
{
    if s.len() > 0 {
        lemma_split_nonempty(s.drop_last(), sep);
    }
}

/// The pieces that a list of position pairs denotes in `s`.
pub open spec fn pieces(s: Seq<char>, r: Seq<(usize, usize)>) -> Seq<Seq<char>> {
    r.map_values(|p: (usize, usize)| s.subrange(p.0 as int, p.1 as int))
}

/// The pieces of `s[lo..hi]` between occurrences of `sep`, as position pairs.
pub fn split_range(s: &Vec<char>, lo: usize, hi: usize, sep: char) -> (r: Vec<(usize, usize)>)
    requires
        lo <= hi <= s@.len(),
    ensures
        forall|k: int| 0 <= k < r@.len() ==> lo <= (#[trigger] r@[k]).0 <= r@[k].1 <= hi,
        pieces(s@, r@) == split(s@.subrange(lo as int, hi as int), sep),
{
    let mut done: Vec<(usize, usize)> = Vec::new();
    let mut start = lo;
    let mut i = lo;
    proof {
        assert(pieces(s@, done@) =~= Seq::<Seq<char>>::empty());
        assert(s@.subrange(start as int, i as int) =~= Seq::<char>::empty());
        assert(pieces(s@, done@).push(s@.subrange(start as int, i as int)) =~= seq![Seq::<char>::empty()]);
        assert(s@.subrange(lo as int, i as int) =~= Seq::<char>::empty());
    }
    while i < hi
        invariant
            lo <= start <= i <= hi <= s@.len(),
            forall|k: int| 0 <= k < done@.len() ==> lo <= (#[trigger] done@[k]).0 <= done@[k].1 <= hi,
            pieces(s@, done@).push(s@.subrange(start as int, i as int)) == split(
                s@.subrange(lo as int, i as int),
                sep,
            ),
        decreases hi - i,
    {
        let ghost before = done@;
        proof {
            assert(s@.subrange(lo as int, i + 1).drop_last() =~= s@.subrange(lo as int, i as int));
            assert(s@.subrange(lo as int, i + 1).last() == s@[i as int]);
        }
        if s[i] == sep {
            done.push((start, i));
            start = i + 1;
            proof {
                assert(pieces(s@, done@) =~= pieces(s@, before).push(s@.subrange(done@.last().0 as int, i as int)));
                assert(s@.subrange(start as int, i + 1) =~= Seq::<char>::empty());
            }
        } else {
            proof {
                assert(s@.subrange(start as int, i + 1) =~= s@.subrange(start as int, i as int).push(s@[i as int]));
                let p = split(s@.subrange(lo as int, i as int), sep);
                assert(pieces(s@, done@).push(s@.subrange(start as int, i + 1)) =~= p.update(p.len() - 1, p.last().push(s@[i as int])));
            }
        }
        i = i + 1;
    }
    let ghost before = done@;
    done.push((start, hi));
    proof {
        assert(pieces(s@, done@) =~= pieces(s@, before).push(s@.subrange(start as int, hi as int)));
    }
    done
}


/// Why a text is not an unsigned integer, as `core::num::IntErrorKind`
/// tells it.
#[derive(Clone, Copy, Debug, PartialEq, Eq, Structural)]
pub enum IntErrorKind {
    /// The text is empty.
    Empty,
    /// The text holds a character that is not a digit where one is due.
    InvalidDigit,
    /// The value is above `u32::MAX`.
    PosOverflow,
}

/// Why a text is not a floating-point literal, as `ParseFloatError` tells it.
#[derive(Clone, Copy, Debug, PartialEq, Eq, Structural)]
pub enum FloatErrorKind {
    /// The text is empty.
    Empty,
    /// The text is not in the literal syntax.
    Invalid,
}

pub open spec fn is_digit(c: char) -> bool {
    '0' <= c <= '9'
}

pub open spec fn all_digits(s: Seq<char>) -> bool {
    forall|i: int| 0 <= i < s.len() ==> is_digit(#[trigger] s[i])
}

pub open spec fn is_sign(c: char) -> bool {
    c == '+' || c == '-'
}

pub open spec fn digit_value(c: char) -> int {
    c as int - '0' as int
}

/// Reading the digits of `d` from the left, as `u32::from_str` does: the
/// first character that is not a digit, or the first digit that takes the
/// value above `u32::MAX`, ends the reading with an error.
pub open spec fn scan_decimal(d: Seq<char>) -> Result<nat, IntErrorKind>
    decreases d.len(),
{
    if d.len() == 0 {
        Ok(0)
    } else {
        match scan_decimal(d.drop_last()) {
            Err(e) => Err(e),
            Ok(v) => if !is_digit(d.last()) {
                Err(IntErrorKind::InvalidDigit)
            } else if v * 10 + digit_value(d.last()) > u32::MAX {
                Err(IntErrorKind::PosOverflow)
            } else {
                Ok((v * 10 + digit_value(d.last())) as nat)
            },
        }
    }
}

/// What `str::parse::<u32>` gives for `s`: an optional `+` and then
/// decimal digits.
pub open spec fn parse_u32_spec(s: Seq<char>) -> Result<u32, IntErrorKind> {
    if s.len() == 0 {
        Err(IntErrorKind::Empty)
    } else if s.len() == 1 && is_sign(s[0]) {
        Err(IntErrorKind::InvalidDigit)
    } else {
        let d = if s[0] == '+' { s.drop_first() } else { s };
        match scan_decimal(d) {
            Ok(v) => Ok(v as u32),
            Err(e) => Err(e),
        }
    }
}

/// The unsigned integer that `s[lo..hi]` spells.
pub fn parse_u32_range(s: &Vec<char>, lo: usize, hi: usize) -> (r: Result<u32, IntErrorKind>)
    requires
        lo <= hi <= s@.len(),
    ensures
        r == parse_u32_spec(s@.subrange(lo as int, hi as int)),
{
    let ghost t = s@.subrange(lo as int, hi as int);
    if lo == hi {
        return Err(IntErrorKind::Empty);
    }
    if hi - lo == 1 && (s[lo] == '+' || s[lo] == '-') {
        return Err(IntErrorKind::InvalidDigit);
    }
    let start = if s[lo] == '+' { lo + 1 } else { lo };
    proof {
        if s[lo as int] == '+' {
            assert(t.drop_first() =~= s@.subrange(start as int, hi as int));
        } else {
            assert(t =~= s@.subrange(start as int, hi as int));
        }
    }
    let mut value: u32 = 0;
    let mut i = start;
    proof {
        assert(s@.subrange(start as int, i as int) =~= Seq::<char>::empty());
    }
    while i < hi
        invariant
            start <= i <= hi <= s@.len(),
            scan_decimal(s@.subrange(start as int, i as int)) == Ok::<nat, IntErrorKind>(value as nat),
            parse_u32_spec(s@.subrange(lo as int, hi as int)) == (match scan_decimal(s@.subrange(start as int, hi as int)) {
                Ok(v) => Ok(v as u32),
                Err(e) => Err(e),
            }),
        decreases hi - i,
    {
        let c = s[i];
        proof {
            assert(s@.subrange(start as int, i + 1).drop_last() =~= s@.subrange(start as int, i as int));
        }
        if !('0' <= c && c <= '9') {
            proof {
                assert(s@.subrange(start as int, hi as int).take(i - start + 1) =~= s@.subrange(start as int, i + 1));
                assert(scan_decimal(s@.subrange(start as int, i + 1)) == Err::<nat, IntErrorKind>(IntErrorKind::InvalidDigit));
                lemma_scan_error_persists(s@.subrange(start as int, hi as int), (i - start) as nat + 1);
            }
            return Err(IntErrorKind::InvalidDigit);
        }
        let d = (c as u32) - ('0' as u32);
        if value > 429496729 || (value == 429496729 && d > 5) {
            proof {
                assert(s@.subrange(start as int, hi as int).take(i - start + 1) =~= s@.subrange(start as int, i + 1));
                assert(scan_decimal(s@.subrange(start as int, i + 1)) == Err::<nat, IntErrorKind>(IntErrorKind::PosOverflow));
                lemma_scan_error_persists(s@.subrange(start as int, hi as int), (i - start) as nat + 1);
            }
            return Err(IntErrorKind::PosOverflow);
        }
        value = value * 10 + d;
        i = i + 1;
    }
    proof {
        assert(s@.subrange(start as int, i as int) =~= s@.subrange(start as int, hi as int));
    }
    Ok(value)
}

/// Once the reading of a prefix has failed, the reading of the whole fails
/// the same way.
pub proof fn lemma_scan_error_persists(d: Seq<char>, n: nat)
    requires
        n <= d.len(),
        scan_decimal(d.take(n as int)) is Err,
    ensures
        scan_decimal(d) == scan_decimal(d.take(n as int)),
    decreases d.len() - n,
{
    if n < d.len() {
        assert(d.take((n + 1) as int).drop_last() =~= d.take(n as int));
        lemma_scan_error_persists(d, (n + 1) as nat);
    } else {
        assert(d.take(n as int) =~= d);
    }
}


/// `c` is `w` or, when `w` is a lower-case ASCII letter, its upper case.
pub open spec fn same_letter(c: char, w: char) -> bool {
    c == w || ('A' <= c <= 'Z' && c as u32 + 32 == w as u32)
}

/// `s` spells the lower-case word `w`, ignoring ASCII case.
pub open spec fn same_word(s: Seq<char>, w: Seq<char>) -> bool {
    s.len() == w.len() && forall|i: int| 0 <= i < s.len() ==> same_letter(#[trigger] s[i], w[i])
}

pub open spec fn word_inf() -> Seq<char> {
    seq!['i', 'n', 'f']
}

pub open spec fn word_infinity() -> Seq<char> {
    seq!['i', 'n', 'f', 'i', 'n', 'i', 't', 'y']
}

pub open spec fn word_nan() -> Seq<char> {
    seq!['n', 'a', 'n']
}

/// `Digit+ | Digit+ '.' Digit* | Digit* '.' Digit+`
pub open spec fn is_mantissa(m: Seq<char>) -> bool {
    ||| m.len() > 0 && all_digits(m)
    ||| exists|p: int|
        0 <= p < m.len() && m[p] == '.' && all_digits(m.take(p)) && all_digits(
            #[trigger] m.skip(p + 1),
        ) && m.len() >= 2
}

/// `'e' Sign? Digit+`, with `'E'` for `'e'`.
pub open spec fn is_exponent(x: Seq<char>) -> bool {
    &&& x.len() >= 2
    &&& x[0] == 'e' || x[0] == 'E'
    &&& {
        let r = x.skip(1);
        ||| all_digits(r)
        ||| is_sign(r[0]) && r.len() >= 2 && all_digits(r.skip(1))
    }
}

/// `Number ::= Mantissa Exp?`
pub open spec fn is_number(b: Seq<char>) -> bool {
    ||| is_mantissa(b)
    ||| exists|e: int| 0 <= e < b.len() && is_mantissa(#[trigger] b.take(e)) && is_exponent(b.skip(e))
}

/// The syntax that `f32::from_str` documents:
/// `Sign? ('inf' | 'infinity' | 'nan' | Number)`, case-insensitive.
pub open spec fn is_float_literal(s: Seq<char>) -> bool {
    let b = if s.len() > 0 && is_sign(s[0]) { s.drop_first() } else { s };
    ||| same_word(b, word_inf())
    ||| same_word(b, word_infinity())
    ||| same_word(b, word_nan())
    ||| is_number(b)
}

/// Whether `str::parse::<f32>` accepts `s`, and why not if it does not.
pub open spec fn check_float_spec(s: Seq<char>) -> Result<(), FloatErrorKind> {
    if s.len() == 0 {
        Err(FloatErrorKind::Empty)
    } else if is_float_literal(s) {
        Ok(())
    } else {
        Err(FloatErrorKind::Invalid)
    }
}

/// Whether all of `s[lo..hi]` are decimal digits.
fn all_digits_range(s: &Vec<char>, lo: usize, hi: usize) -> (b: bool)
    requires
        lo <= hi <= s@.len(),
    ensures
        b == all_digits(s@.subrange(lo as int, hi as int)),
{
    let mut i = lo;
    while i < hi
        invariant
            lo <= i <= hi <= s@.len(),
            forall|k: int| lo <= k < i ==> is_digit(#[trigger] s@[k]),
        decreases hi - i,
    {
        if !('0' <= s[i] && s[i] <= '9') {
            proof {
                assert(s@.subrange(lo as int, hi as int)[i - lo] == s@[i as int]);
            }
            return false;
        }
        i = i + 1;
    }
    proof {
        assert forall|k: int| 0 <= k < hi - lo implies is_digit(#[trigger] s@.subrange(lo as int, hi as int)[k]) by {
            assert(s@.subrange(lo as int, hi as int)[k] == s@[lo + k]);
        }
    }
    true
}

/// Whether `s[lo..hi]` spells the lower-case word `w`, ignoring ASCII case.
fn matches_word(s: &Vec<char>, lo: usize, hi: usize, w: &[char]) -> (b: bool)
    requires
        lo <= hi <= s@.len(),
    ensures
        b == same_word(s@.subrange(lo as int, hi as int), w@),
{
    if hi - lo != w.len() {
        return false;
    }
    let mut i: usize = 0;
    while i < w.len()
        invariant
            hi - lo == w@.len(),
            lo <= hi <= s@.len(),
            i <= w@.len(),
            forall|k: int| 0 <= k < i ==> same_letter(#[trigger] s@[lo + k], w@[k]),
        decreases w@.len() - i,
    {
        let c = s[lo + i];
        let x = w[i];
        if !(c == x || ('A' <= c && c <= 'Z' && (c as u32) + 32 == (x as u32))) {
            proof {
                assert(s@.subrange(lo as int, hi as int)[i as int] == s@[lo + i]);
            }
            return false;
        }
        i = i + 1;
    }
    proof {
        assert forall|k: int| 0 <= k < hi - lo implies same_letter(#[trigger] s@.subrange(lo as int, hi as int)[k], w@[k]) by {
            assert(s@.subrange(lo as int, hi as int)[k] == s@[lo + k]);
        }
    }
    true
}

/// Position of the first `c` in `s[lo..hi]`, or `hi`.
fn find_char(s: &Vec<char>, lo: usize, hi: usize, c: char) -> (r: usize)
    requires
        lo <= hi <= s@.len(),
    ensures
        lo <= r <= hi,
        forall|k: int| lo <= k < r ==> #[trigger] s@[k] != c,
        r < hi ==> s@[r as int] == c,
{
    let mut i = lo;
    while i < hi && s[i] != c
        invariant
            lo <= i <= hi <= s@.len(),
            forall|k: int| lo <= k < i ==> #[trigger] s@[k] != c,
        decreases hi - i,
    {
        i = i + 1;
    }
    i
}

/// Position of the first `e` or `E` in `s[lo..hi]`, or `hi`.
fn find_exponent_mark(s: &Vec<char>, lo: usize, hi: usize) -> (r: usize)
    requires
        lo <= hi <= s@.len(),
    ensures
        lo <= r <= hi,
        forall|k: int| lo <= k < r ==> #[trigger] s@[k] != 'e' && s@[k] != 'E',
        r < hi ==> (s@[r as int] == 'e' || s@[r as int] == 'E'),
{
    let mut i = lo;
    while i < hi && s[i] != 'e' && s[i] != 'E'
        invariant
            lo <= i <= hi <= s@.len(),
            forall|k: int| lo <= k < i ==> #[trigger] s@[k] != 'e' && s@[k] != 'E',
        decreases hi - i,
    {
        i = i + 1;
    }
    i
}

/// Whether `s[lo..hi]` is a mantissa.
fn mantissa_ok(s: &Vec<char>, lo: usize, hi: usize) -> (b: bool)
    requires
        lo <= hi <= s@.len(),
    ensures
        b == is_mantissa(s@.subrange(lo as int, hi as int)),
{
    let ghost m = s@.subrange(lo as int, hi as int);
    let p = find_char(s, lo, hi, '.');
    if p == hi {
        proof {
            assert forall|q: int| 0 <= q < m.len() implies m[q] != '.' by {
                assert(m[q] == s@[lo + q]);
            }
        }
        hi > lo && all_digits_range(s, lo, hi)
    } else {
        let ghost pp = p - lo;
        proof {
            assert(m[pp] == '.');
            assert(m.take(pp) =~= s@.subrange(lo as int, p as int));
            assert(m.skip(pp + 1) =~= s@.subrange(p + 1, hi as int));
            assert(!all_digits(m));
            assert forall|q: int| 0 <= q < m.len() && q != pp && m[q] == '.' implies !all_digits(m.take(q)) by {
                assert(m[q] == s@[lo + q]);
                if q < pp {
                    assert(s@[lo + q] != '.');
                } else {
                    assert(m.take(q)[pp] == '.');
                }
            }
        }
        let a = all_digits_range(s, lo, p);
        let c = all_digits_range(s, p + 1, hi);
        a && c && hi - lo >= 2
    }
}

/// Whether `s[lo..hi]` is an exponent part.
fn exponent_ok(s: &Vec<char>, lo: usize, hi: usize) -> (b: bool)
    requires
        lo <= hi <= s@.len(),
    ensures
        b == is_exponent(s@.subrange(lo as int, hi as int)),
{
    let ghost x = s@.subrange(lo as int, hi as int);
    if hi - lo < 2 || !(s[lo] == 'e' || s[lo] == 'E') {
        return false;
    }
    proof {
        assert(x.skip(1) =~= s@.subrange(lo + 1, hi as int));
        assert(x.skip(1).skip(1) =~= s@.subrange(lo + 2, hi as int));
    }
    if all_digits_range(s, lo + 1, hi) {
        return true;
    }
    (s[lo + 1] == '+' || s[lo + 1] == '-') && hi - lo >= 3 && all_digits_range(s, lo + 2, hi)
}

/// A mantissa holds no exponent mark.
proof fn lemma_mantissa_has_no_mark(m: Seq<char>, k: int)
    requires
        is_mantissa(m),
        0 <= k < m.len(),
    ensures
        m[k] != 'e' && m[k] != 'E',
{
    if !all_digits(m) {
        let p = choose|p: int|
            0 <= p < m.len() && m[p] == '.' && all_digits(m.take(p)) && all_digits(
                #[trigger] m.skip(p + 1),
            ) && m.len() >= 2;
        if k < p {
            assert(m.take(p)[k] == m[k]);
        } else if k > p {
            assert(m.skip(p + 1)[k - p - 1] == m[k]);
        }
    }
}

/// Whether `str::parse::<f32>` accepts `s[lo..hi]`, and why not if it does
/// not.
pub fn check_float_range(s: &Vec<char>, lo: usize, hi: usize) -> (r: Result<(), FloatErrorKind>)
    requires
        lo <= hi <= s@.len(),
    ensures
        r == check_float_spec(s@.subrange(lo as int, hi as int)),
{
    let ghost t = s@.subrange(lo as int, hi as int);
    if lo == hi {
        return Err(FloatErrorKind::Empty);
    }
    let b = if s[lo] == '+' || s[lo] == '-' { lo + 1 } else { lo };
    let ghost bb = s@.subrange(b as int, hi as int);
    proof {
        if b == lo + 1 {
            assert(t.drop_first() =~= bb);
        } else {
            assert(t =~= bb);
        }
    }
    let special = matches_word(s, b, hi, &['i', 'n', 'f']) || matches_word(
        s,
        b,
        hi,
        &['i', 'n', 'f', 'i', 'n', 'i', 't', 'y'],
    ) || matches_word(s, b, hi, &['n', 'a', 'n']);
    if special {
        return Ok(());
    }
    let e = find_exponent_mark(s, b, hi);
    let ghost ee = e - b;
    proof {
        assert(bb.take(ee) =~= s@.subrange(b as int, e as int));
        assert(bb.skip(ee) =~= s@.subrange(e as int, hi as int));
        if is_mantissa(bb) {
            if e < hi {
                lemma_mantissa_has_no_mark(bb, ee);
            }
        }
        if exists|e2: int| 0 <= e2 < bb.len() && is_mantissa(#[trigger] bb.take(e2)) && is_exponent(bb.skip(e2)) {
            let e2 = choose|e2: int| 0 <= e2 < bb.len() && is_mantissa(#[trigger] bb.take(e2)) && is_exponent(bb.skip(e2));
            assert(bb.skip(e2)[0] == bb[e2]);
            if e2 < ee {
                assert(bb[e2] == s@[b + e2]);
            } else if e2 > ee {
                assert(bb.take(e2)[ee] == bb[ee]);
                assert(bb[ee] == s@[e as int]);
                lemma_mantissa_has_no_mark(bb.take(e2), ee);
            }
        }
        if e == hi {
            assert(bb.take(ee) =~= bb);
        }
    }
    if !mantissa_ok(s, b, e) {
        return Err(FloatErrorKind::Invalid);
    }
    if e == hi {
        return Ok(());
    }
    if exponent_ok(s, e, hi) {
        Ok(())
    } else {
        Err(FloatErrorKind::Invalid)
    }
}


/// The lines of `s`, as `str::lines` gives them once each line is trimmed:
/// the pieces between `'\n'` characters, without a final empty piece. (A
/// `'\r'` before a `'\n'` is white space and goes with the trimming.)
pub open spec fn lines(s: Seq<char>) -> Seq<Seq<char>> {
    let p = split(s, '\n');
    if p.last().len() == 0 {
        p.drop_last()
    } else {
        p
    }
}

/// Splitting around a separator splits each side: the pieces of
/// `a + [sep] + b` are those of `a` followed by those of `b`.
pub proof fn lemma_split_concat(a: Seq<char>, b: Seq<char>, sep: char)
    ensures
        split(a + seq![sep] + b, sep) == split(a, sep) + split(b, sep),
    decreases b.len(),
{
    let c = a + seq![sep] + b;
    if b.len() == 0 {
        assert(c.drop_last() =~= a);
        assert(split(a, sep).push(Seq::<char>::empty()) =~= split(a, sep) + seq![Seq::<char>::empty()]);
    } else {
        let b0 = b.drop_last();
        lemma_split_concat(a, b0, sep);
        assert(c.drop_last() =~= a + seq![sep] + b0);
        assert(c.last() == b.last());
        lemma_split_nonempty(b0, sep);
        let p = split(a, sep);
        let q = split(b0, sep);
        if b.last() == sep {
            assert((p + q).push(Seq::<char>::empty()) =~= p + q.push(Seq::<char>::empty()));
        } else {
            let pq = p + q;
            assert(pq.update(pq.len() - 1, pq.last().push(b.last())) =~= p + q.update(
                q.len() - 1,
                q.last().push(b.last()),
            ));
        }
    }
}

/// A text without the separator is a single piece.
pub proof fn lemma_split_single(w: Seq<char>, sep: char)
    requires
        !w.contains(sep),
    ensures
        split(w, sep) == seq![w],
    decreases w.len(),
{
    if w.len() == 0 {
        assert(w =~= Seq::<char>::empty());
    } else {
        let w0 = w.drop_last();
        assert(!w0.contains(sep)) by {
            if w0.contains(sep) {
                let k = choose|k: int| 0 <= k < w0.len() && w0[k] == sep;
                assert(w[k] == sep);
            }
        }
        lemma_split_single(w0, sep);
        assert(w[w.len() - 1] == w.last());
        assert(w.last() != sep);
        assert(w0.push(w.last()) =~= w);
        let p = split(w0, sep);
        assert(p.len() == 1 && p.last() == w0);
        assert(p.update(0, w0.push(w.last())) =~= seq![w]);
    }
}

/// Inserting the line `w` after the text `x` and its line break inserts one
/// line into the lines of the text, at the position after those of `x`.
pub proof fn lemma_lines_insert(x: Seq<char>, w: Seq<char>, y: Seq<char>)
    requires
        !w.contains('\n'),
    ensures
        split(x, '\n').len() <= lines(x + seq!['\n'] + y).len(),
        lines(x + seq!['\n'] + w + seq!['\n'] + y) == lines(x + seq!['\n'] + y).insert(split(x, '\n').len() as int, w),
{
    let p = split(x, '\n');
    let q = split(y, '\n');
    lemma_split_nonempty(y, '\n');
    lemma_split_concat(x, y, '\n');
    lemma_split_concat(w, y, '\n');
    lemma_split_single(w, '\n');
    lemma_split_concat(x, w + seq!['\n'] + y, '\n');
    assert(x + seq!['\n'] + (w + seq!['\n'] + y) =~= x + seq!['\n'] + w + seq!['\n'] + y);
    let long = p + (seq![w] + q);
    let short = p + q;
    assert(long.last() == q.last());
    assert(short.last() == q.last());
    if q.last().len() == 0 {
        assert(long.drop_last() =~= short.drop_last().insert(p.len() as int, w));
    } else {
        assert(long =~= short.insert(p.len() as int, w));
    }
}

/// A text of spaces, tabs and carriage returns trims to nothing.
pub proof fn lemma_trim_blank(w: Seq<char>)
    requires
        forall|j: int| 0 <= j < w.len() ==> w[j] == ' ' || w[j] == '\t' || w[j] == '\r',
    ensures
        trim(w).len() == 0,
    decreases w.len(),
{
    if w.len() > 0 {
        let w1 = w.drop_first();
        assert forall|j: int| 0 <= j < w1.len() implies w1[j] == ' ' || w1[j] == '\t' || w1[j] == '\r' by {
            assert(w1[j] == w[j + 1]);
        }
        lemma_trim_blank(w1);
        assert(trim_start(w) == trim_start(w1));
    }
}

/// The lines of `s`, as position pairs.
pub fn line_ranges(s: &Vec<char>) -> (r: Vec<(usize, usize)>)
    ensures
        forall|k: int| 0 <= k < r@.len() ==> (#[trigger] r@[k]).0 <= r@[k].1 <= s@.len(),
        pieces(s@, r@) == lines(s@),
{
    let mut r = split_range(s, 0, s.len(), '\n');
    proof {
        assert(s@.subrange(0, s@.len() as int) =~= s@);
        lemma_split_nonempty(s@, '\n');
    }
    let last = r[r.len() - 1];
    if last.0 == last.1 {
        let ghost before = r@;
        r.pop();
        proof {
            assert(pieces(s@, r@) =~= pieces(s@, before).drop_last());
        }
    }
    r
}

/// The character of the decimal digit `d`.
pub open spec fn digit_char(d: nat) -> char {
    seq!['0', '1', '2', '3', '4', '5', '6', '7', '8', '9'][d as int]
}

/// The decimal digits of `n`, without leading zeros (`0` is `"0"`).
pub open spec fn decimal(n: nat) -> Seq<char>
    decreases n,
{
    if n < 10 {
        seq![digit_char(n)]
    } else {
        decimal(n / 10).push(digit_char(n % 10))
    }
}

/// The text of the digit `d`.
fn digit_text(d: usize) -> (r: &'static str)
    requires
        d < 10,
    ensures
        r@ == seq![digit_char(d as nat)],
{
    proof {
        reveal_strlit("0");
        reveal_strlit("1");
        reveal_strlit("2");
        reveal_strlit("3");
        reveal_strlit("4");
        reveal_strlit("5");
        reveal_strlit("6");
        reveal_strlit("7");
        reveal_strlit("8");
        reveal_strlit("9");
    }
    match d {
        0 => "0",
        1 => "1",
        2 => "2",
        3 => "3",
        4 => "4",
        5 => "5",
        6 => "6",
        7 => "7",
        8 => "8",
        _ => "9",
    }
}

/// Appends the decimal digits of `n` to `out`.
pub fn push_decimal(out: &mut String, n: usize)
    ensures
        final(out)@ == old(out)@ + decimal(n as nat),
    decreases n,
{
    if n >= 10 {
        push_decimal(out, n / 10);
    }
    out.append(digit_text(n % 10));
    proof {
        if n >= 10 {
            assert(old(out)@ + decimal((n / 10) as nat) + seq![digit_char((n % 10) as nat)] =~= old(out)@ + decimal(
                n as nat,
            ));
        } else {
            assert(old(out)@ + seq![digit_char(n as nat)] =~= old(out)@ + decimal(n as nat));
        }
    }
}

/// The names `names` with `sep` between each two.
pub open spec fn joined(names: Seq<Seq<char>>, sep: char) -> Seq<char>
    decreases names.len(),
{
    if names.len() == 0 {
        Seq::empty()
    } else if names.len() == 1 {
        names[0]
    } else {
        joined(names.drop_last(), sep).push(sep) + names.last()
    }
}

/// Appends the names `names` to `out`, with a comma between each two.
pub fn push_joined(out: &mut String, names: &[&str])
    ensures
        final(out)@ == old(out)@ + joined(names@.map_values(|c: &str| c@), ','),
{
    let ghost all = names@.map_values(|c: &str| c@);
    let comma = ",";
    proof {
        reveal_strlit(",");
    }
    let mut i: usize = 0;
    while i < names.len()
        invariant
            i <= names@.len(),
            all == names@.map_values(|c: &str| c@),
            comma@ == seq![','],
            out@ == old(out)@ + joined(all.take(i as int), ','),
        decreases names@.len() - i,
    {
        let ghost before = out@;
        if i > 0 {
            out.append(comma);
        }
        out.append(names[i]);
        proof {
            let t = all.take(i + 1);
            assert(t.drop_last() =~= all.take(i as int));
            assert(t.last() == names@[i as int]@);
            if i > 0 {
                assert(out@ =~= old(out)@ + joined(t, ','));
            } else {
                assert(joined(all.take(0), ',') =~= Seq::<char>::empty());
                assert(out@ =~= old(out)@ + joined(t, ','));
            }
        }
        i = i + 1;
    }
    proof {
        assert(all.take(names@.len() as int) =~= all);
    }
}

/// The characters `text[lo..hi]` (counted in characters) as a `String`.
pub fn substring(text: &str, lo: usize, hi: usize) -> (r: String)
    requires
        lo <= hi <= text@.len(),
    ensures
        r@ == text@.subrange(lo as int, hi as int),
{
    text.substring_char(lo, hi).to_owned()
}

/// The text of a floating-point number as a data file holds it, checked to
/// be in the syntax that `f32::from_str` accepts. The value is read from
/// the text by whoever does arithmetic with it.
pub struct FloatLiteral {
    text: String,
}

impl View for FloatLiteral {
    type V = Seq<char>;

    closed spec fn view(&self) -> Seq<char> {
        self.text@
    }
}

impl FloatLiteral {
    #[verifier::type_invariant]
    spec fn in_syntax(self) -> bool {
        self.text@.len() > 0 && is_float_literal(self.text@)
    }

    /// Builds the literal from the characters `text[lo..hi]`, which the
    /// caller has checked.
    pub fn from_range(text: &str, lo: usize, hi: usize) -> (f: Self)
        requires
            lo <= hi <= text@.len(),
            check_float_spec(text@.subrange(lo as int, hi as int)) is Ok,
        ensures
            f@ == text@.subrange(lo as int, hi as int),
    {
        FloatLiteral { text: substring(text, lo, hi) }
    }

    /// Checks `text` and keeps it if `f32::from_str` would accept it.
    pub fn parse(text: &str) -> (r: Result<Self, FloatErrorKind>)
        ensures
            match r {
                Ok(f) => f@ == text@ && check_float_spec(text@) is Ok,
                Err(k) => check_float_spec(text@) == Err::<(), FloatErrorKind>(k),
            },
    {
        let v = chars_of(text);
        proof {
            assert(v@.subrange(0, v@.len() as int) =~= v@);
        }
        match check_float_range(&v, 0, v.len()) {
            Ok(()) => Ok(FloatLiteral::from_range(text, 0, v.len())),
            Err(k) => Err(k),
        }
    }

    /// The literal's text.
    pub fn as_str(&self) -> (r: &str)
        ensures
            r@ == self@,
            r@.len() > 0,
            is_float_literal(r@),
    {
        proof {
            use_type_invariant(self);
        }
        self.text.as_str()
    }
}

} // verus!
