//! Text helpers: decimal writing of integers (as `{}` and `{:02}` write them), byte
//! search, decimal parsing (as `i64::from_str` reads it) and whitespace trimming.

use vstd::prelude::*;
use vstd::string::StringExecFns;

verus! {

/// The character of a decimal digit.
pub open spec fn digit_char(d: int) -> char {
    if d == 0 { '0' }
    else if d == 1 { '1' }
    else if d == 2 { '2' }
    else if d == 3 { '3' }
    else if d == 4 { '4' }
    else if d == 5 { '5' }
    else if d == 6 { '6' }
    else if d == 7 { '7' }
    else if d == 8 { '8' }
    else { '9' }
}

/// The decimal digits of a natural number, most significant first, without leading zeros.
pub open spec fn decimal_digits(n: nat) -> Seq<char>
    decreases n,
{
    if n < 10 {
        seq![digit_char(n as int)]
    } else {
        decimal_digits(n / 10).push(digit_char((n % 10) as int))
    }
}

/// An integer written in decimal, with a leading `-` when negative.
pub open spec fn decimal(x: int) -> Seq<char> {
    if x < 0 {
        seq!['-'] + decimal_digits((-x) as nat)
    } else {
        decimal_digits(x as nat)
    }
}

/// An integer written in decimal and padded with zeros to two characters (`{:02}`).
pub open spec fn decimal_width2(x: int) -> Seq<char> {
    if 0 <= x < 10 {
        seq!['0'] + decimal(x)
    } else {
        decimal(x)
    }
}

fn digit_str(d: u64) -> (r: &'static str)
    requires
        d < 10,
    ensures
        r@ == seq![digit_char(d as int)],
{
    proof {
        reveal_strlit("0");
        reveal_strlit("1");
        reveal_strlit("2");
        reveal_strlit("3");
        reveal_strlit("4");
        reveal_strlit("5");
        reveal_strlit("6");
        reveal_strlit("7");
        reveal_strlit("8");
        reveal_strlit("9");
    }
    match d {
        0 => "0",
        1 => "1",
        2 => "2",
        3 => "3",
        4 => "4",
        5 => "5",
        6 => "6",
        7 => "7",
        8 => "8",
        _ => "9",
    }
}

fn push_digits(s: &mut String, n: u64)
    ensures
        final(s)@ == old(s)@ + decimal_digits(n as nat),
    decreases n,
{
    if n >= 10 {
        push_digits(s, n / 10);
    }
    s.append(digit_str(n % 10));
    assert(final(s)@ =~= old(s)@ + decimal_digits(n as nat));
}

/// Appends `x` written in decimal (`{}`).
pub fn push_decimal(s: &mut String, x: i64)
    ensures
        final(s)@ == old(s)@ + decimal(x as int),
{
    if x < 0 {
        proof {
            reveal_strlit("-");
        }
        s.append("-");
        let m: u64 = (-(x as i128)) as u64;
        push_digits(s, m);
        assert(final(s)@ =~= old(s)@ + decimal(x as int));
    } else {
        push_digits(s, x as u64);
    }
}

/// Appends `x` written in decimal and padded with zeros to two characters (`{:02}`).
pub fn push_decimal_width2(s: &mut String, x: i64)
    ensures
        final(s)@ == old(s)@ + decimal_width2(x as int),
{
    if 0 <= x && x < 10 {
        proof {
            reveal_strlit("0");
        }
        s.append("0");
        push_decimal(s, x);
        assert(final(s)@ =~= old(s)@ + decimal_width2(x as int));
    } else {
        push_decimal(s, x);
    }
}


/// `pat` stands in `b` at byte index `i`.
pub open spec fn occurs_at(b: Seq<u8>, pat: Seq<u8>, i: int) -> bool {
    0 <= i && i + pat.len() <= b.len() && b.subrange(i, i + pat.len()) == pat
}

/// `i` is the first index at or after `lo` where `pat` stands in `b`.
pub open spec fn is_first_occurrence(b: Seq<u8>, pat: Seq<u8>, lo: int, i: int) -> bool {
    &&& lo <= i
    &&& occurs_at(b, pat, i)
    &&& forall|j: int| lo <= j < i ==> !#[trigger] occurs_at(b, pat, j)
}

/// The first index at or after `lo` where `pat` stands in `b` (what `find` on the rest gives,
/// shifted by `lo`).
pub open spec fn find_bytes(b: Seq<u8>, pat: Seq<u8>, lo: int) -> Option<int> {
    if exists|i: int| is_first_occurrence(b, pat, lo, i) {
        Some(choose|i: int| is_first_occurrence(b, pat, lo, i))
    } else {
        None
    }
}

pub proof fn lemma_first_occurrence_unique(b: Seq<u8>, pat: Seq<u8>, lo: int, i: int)
    requires
        is_first_occurrence(b, pat, lo, i),
    ensures
        find_bytes(b, pat, lo) == Some(i),
{
    let k = choose|k: int| is_first_occurrence(b, pat, lo, k);
    assert(is_first_occurrence(b, pat, lo, k));
    if k < i {
        assert(!occurs_at(b, pat, k));
    }
    if i < k {
        assert(!occurs_at(b, pat, i));
    }
}

pub(crate) fn occurs_at_exec(b: &[u8], pat: &[u8], i: usize) -> (r: bool)
    requires
        i + pat@.len() <= b@.len(),
    ensures
        r == occurs_at(b@, pat@, i as int),
{
    let n = b.len();
    let mut k: usize = 0;
    while k < pat.len()
        invariant
            0 <= k <= pat@.len(),
            n == b@.len(),
            i + pat@.len() <= b@.len(),
            forall|j: int| 0 <= j < k ==> b@[i + j] == pat@[j],
        decreases pat@.len() - k,
    {
        if b[i + k] != pat[k] {
            assert(b@.subrange(i as int, i + pat@.len())[k as int] != pat@[k as int]);
            return false;
        }
        k += 1;
    }
    assert(b@.subrange(i as int, i + pat@.len()) =~= pat@);
    true
}

/// The first index at or after `lo` where `pat` stands in `b`.
pub fn find_bytes_from(b: &[u8], pat: &[u8], lo: usize) -> (r: Option<usize>)
    ensures
        match r {
            Some(i) => find_bytes(b@, pat@, lo as int) == Some(i as int),
            None => find_bytes(b@, pat@, lo as int) is None,
        },
{
    if pat.len() > b.len() {
        assert forall|i: int| !is_first_occurrence(b@, pat@, lo as int, i) by {}
        return None;
    }
    if pat.len() == 0 {
        if lo <= b.len() {
            assert(b@.subrange(lo as int, lo as int) =~= pat@);
            proof {
                lemma_first_occurrence_unique(b@, pat@, lo as int, lo as int);
            }
            return Some(lo);
        } else {
            assert forall|i: int| !is_first_occurrence(b@, pat@, lo as int, i) by {}
            return None;
        }
    }
    let n = b.len();
    let last = n - pat.len();
    let mut i: usize = lo;
    while i <= last
        invariant
            n == b@.len(),
            pat@.len() >= 1,
            last == b@.len() - pat@.len(),
            lo <= i,
            forall|j: int| lo <= j < i ==> !#[trigger] occurs_at(b@, pat@, j),
        decreases last + 1 - i,
    {
        if occurs_at_exec(b, pat, i) {
            proof {
                lemma_first_occurrence_unique(b@, pat@, lo as int, i as int);
            }
            return Some(i);
        }
        i += 1;
    }
    assert forall|k: int| !is_first_occurrence(b@, pat@, lo as int, k) by {
        if lo <= k && k < i {
        }
    }
    None
}

/// An ASCII decimal digit.
pub open spec fn is_digit(c: u8) -> bool {
    48 <= c <= 57
}

/// The value of a string of decimal digits.
pub open spec fn digits_value(d: Seq<u8>) -> int
    decreases d.len(),
{
    if d.len() == 0 {
        0
    } else {
        digits_value(d.drop_last()) * 10 + (d.last() - 48)
    }
}

/// Every byte of `d` is a decimal digit.
pub open spec fn all_digits(d: Seq<u8>) -> bool {
    forall|i: int| 0 <= i < d.len() ==> is_digit(#[trigger] d[i])
}

/// `s` without a leading `+` or `-`.
pub open spec fn unsigned_part(s: Seq<u8>) -> Seq<u8> {
    if s.len() > 0 && (s[0] == 45 || s[0] == 43) {
        s.drop_first()
    } else {
        s
    }
}

/// What `i64::from_str` reads from `s`: an optional `+` or `-`, then at least one decimal
/// digit and nothing else, with a value in the range of `i64`.
pub open spec fn parse_i64(s: Seq<u8>) -> Option<i64> {
    let digits = unsigned_part(s);
    if s.len() == 0 || digits.len() == 0 || !all_digits(digits) {
        None
    } else {
        let v = if s[0] == 45 { -digits_value(digits) } else { digits_value(digits) };
        if i64::MIN <= v <= i64::MAX {
            Some(v as i64)
        } else {
            None
        }
    }
}


/// Reads an `i64` from the bytes `b[lo..hi]` as `i64::from_str` does.
pub fn parse_i64_in(b: &[u8], lo: usize, hi: usize) -> (r: Option<i64>)
    requires
        lo <= hi <= b@.len(),
    ensures
        r == parse_i64(b@.subrange(lo as int, hi as int)),
{
    let ghost s = b@.subrange(lo as int, hi as int);
    if lo == hi {
        return None;
    }
    let first = b[lo];
    let neg = first == 45;
    let start: usize = if first == 45 || first == 43 { lo + 1 } else { lo };
    let ghost digits = unsigned_part(s);
    assert(digits =~= b@.subrange(start as int, hi as int));
    if start == hi {
        return None;
    }
    let cap: u128 = 0x8000_0000_0000_0001;
    let mut acc: u128 = 0;
    let mut k: usize = start;
    while k < hi
        invariant
            lo <= start <= k <= hi <= b@.len(),
            digits == b@.subrange(start as int, hi as int),
            s == b@.subrange(lo as int, hi as int),
            s.len() > 0,
            digits == unsigned_part(s),
            cap == 0x8000_0000_0000_0001,
            forall|i: int| start <= i < k ==> is_digit(#[trigger] b@[i]),
            digits_value(b@.subrange(start as int, k as int)) >= 0,
            acc == (if digits_value(b@.subrange(start as int, k as int)) < cap {
                digits_value(b@.subrange(start as int, k as int))
            } else {
                cap as int
            }),
        decreases hi - k,
    {
        let c = b[k];
        if c < 48 || c > 57 {
            assert(digits[k - start] == c);
            assert(!is_digit(digits[k - start]));

            return None;
        }
        let ghost prev = b@.subrange(start as int, k as int);
        assert(b@.subrange(start as int, k + 1).drop_last() =~= prev);
        let d = (c - 48) as u128;
        acc = acc * 10 + d;
        if acc > cap {
            acc = cap;
        }
        k += 1;
    }
    assert(b@.subrange(start as int, hi as int) == digits);
    assert forall|i: int| 0 <= i < digits.len() implies is_digit(#[trigger] digits[i]) by {
        assert(digits[i] == b@[start + i]);
    }
    assert(all_digits(digits));
    if neg {
        if acc <= 0x8000_0000_0000_0000 {
            let v: i128 = -(acc as i128);
            Some(v as i64)
        } else {
            None
        }
    } else {
        if acc <= 0x7fff_ffff_ffff_ffff {
            Some(acc as i64)
        } else {
            None
        }
    }
}

/// The bytes of an ASCII text.
pub open spec fn ascii_bytes(s: Seq<char>) -> Seq<u8> {
    s.map_values(|c: char| c as u8)
}

proof fn lemma_digit_char_byte(d: int)
    requires
        0 <= d < 10,
    ensures
        digit_char(d) as u8 == 48 + d,
        '0' <= digit_char(d) <= '9',
{
}

proof fn lemma_decimal_digits_value(n: nat)
    ensures
        decimal_digits(n).len() > 0,
        all_digits(ascii_bytes(decimal_digits(n))),
        digits_value(ascii_bytes(decimal_digits(n))) == n,
        '0' <= decimal_digits(n)[0] <= '9',
        forall|i: int| 0 <= i < decimal_digits(n).len() ==> '0' <= #[trigger] decimal_digits(n)[i] <= '9',
    decreases n,
{
    if n < 10 {
        lemma_digit_char_byte(n as int);
        let b = ascii_bytes(decimal_digits(n));
        assert(b.drop_last() =~= Seq::<u8>::empty());
        assert(b.last() == digit_char(n as int) as u8);
        assert(digits_value(b) == digits_value(b.drop_last()) * 10 + (b.last() - 48));
    } else {
        lemma_decimal_digits_value(n / 10);
        lemma_digit_char_byte((n % 10) as int);
        let p = decimal_digits(n / 10);
        let c = digit_char((n % 10) as int);
        assert(decimal_digits(n) == p.push(c));
        assert(ascii_bytes(p.push(c)) =~= ascii_bytes(p).push(c as u8));
        assert(ascii_bytes(p.push(c)).drop_last() =~= ascii_bytes(p));
        assert(ascii_bytes(p.push(c)).last() == c as u8);
        assert(digits_value(ascii_bytes(p.push(c))) == digits_value(ascii_bytes(p)) * 10 + ((c as u8) - 48));
        assert(n == (n / 10) * 10 + n % 10);
        assert(p.push(c)[0] == p[0]);
        assert forall|i: int| 0 <= i < p.push(c).len() implies '0' <= #[trigger] p.push(c)[i] <= '9' by {
            if i < p.len() {
                assert(p.push(c)[i] == p[i]);
            }
        }
        assert forall|i: int| 0 <= i < ascii_bytes(p.push(c)).len() implies is_digit(#[trigger] ascii_bytes(p.push(c))[i]) by {
            if i < p.len() {
                assert(ascii_bytes(p.push(c))[i] == ascii_bytes(p)[i]);
            }
        }
    }
}

/// Every character of a decimal number is ASCII: a digit or a leading `-`.
pub proof fn lemma_decimal_is_ascii(x: int)
    ensures
        forall|i: int| 0 <= i < decimal(x).len() ==> #[trigger] decimal(x)[i] == '-' || '0' <= decimal(x)[i] <= '9',
        vstd::utf8::is_ascii_chars(decimal(x)),
{
    if x < 0 {
        lemma_decimal_digits_value((-x) as nat);
        let d = decimal_digits((-x) as nat);
        assert forall|i: int| 0 <= i < decimal(x).len() implies #[trigger] decimal(x)[i] == '-' || '0' <= decimal(x)[i] <= '9' by {
            if i > 0 {
                assert(decimal(x)[i] == d[i - 1]);
            }
        }
    } else {
        lemma_decimal_digits_value(x as nat);
    }
}

/// Where `pat` stands in `b` at or after `lo`, a search from `lo` finds it (there or
/// earlier).
pub proof fn lemma_occurrence_found(b: Seq<u8>, pat: Seq<u8>, lo: int, i: int)
    requires
        lo <= i,
        occurs_at(b, pat, i),
    ensures
        find_bytes(b, pat, lo) is Some,
    decreases i - lo,
{
    if forall|j: int| lo <= j < i ==> !#[trigger] occurs_at(b, pat, j) {
        assert(is_first_occurrence(b, pat, lo, i));
    } else {
        let j = choose|j: int| lo <= j < i && #[trigger] occurs_at(b, pat, j);
        lemma_occurrence_found(b, pat, lo, j);
    }
}

/// What `push_decimal` writes, `parse_i64_in` reads back.
pub proof fn lemma_parse_decimal_roundtrip(x: i64)
    ensures
        parse_i64(ascii_bytes(decimal(x as int))) == Some(x),
{
    let s = ascii_bytes(decimal(x as int));
    if x < 0 {
        let n = (-(x as int)) as nat;
        lemma_decimal_digits_value(n);
        let d = decimal_digits(n);
        assert(s =~= seq![45u8] + ascii_bytes(d));
        assert(unsigned_part(s) =~= ascii_bytes(d));
    } else {
        lemma_decimal_digits_value(x as nat);
        let d = decimal_digits(x as nat);
        assert(s[0] == d[0] as u8);
        assert(unsigned_part(s) == s);
    }
}

/// A character with the Unicode `White_Space` property, as `char::is_whitespace` tells it.
pub open spec fn is_whitespace_char(c: char) -> bool {
    ||| '\t' <= c <= '\r'
    ||| c == ' '
    ||| c == '\u{85}'
    ||| c == '\u{a0}'
    ||| c == '\u{1680}'
    ||| '\u{2000}' <= c <= '\u{200a}'
    ||| c == '\u{2028}'
    ||| c == '\u{2029}'
    ||| c == '\u{202f}'
    ||| c == '\u{205f}'
    ||| c == '\u{3000}'
}

/// `s` without its leading whitespace.
pub open spec fn trim_start_whitespace(s: Seq<char>) -> Seq<char>
    decreases s.len(),
{
    if s.len() > 0 && is_whitespace_char(s[0]) {
        trim_start_whitespace(s.drop_first())
    } else {
        s
    }
}

/// `s` without its trailing whitespace.
pub open spec fn trim_end_whitespace(s: Seq<char>) -> Seq<char>
    decreases s.len(),
{
    if s.len() > 0 && is_whitespace_char(s.last()) {
        trim_end_whitespace(s.drop_last())
    } else {
        s
    }
}

/// `s` without its leading and trailing whitespace.
pub open spec fn trim_whitespace(s: Seq<char>) -> Seq<char> {
    trim_end_whitespace(trim_start_whitespace(s))
}

/// `str::trim`. Claimed: the result is `s` with its leading and its trailing characters
/// of the Unicode `White_Space` property removed (std's documentation of `str::trim` and
/// of `char::is_whitespace`).
#[verifier::external_body]
pub(crate) fn trim_str(s: &str) -> (r: &str)
    ensures
        r@ == trim_whitespace(s@),
{
    s.trim()
}

} // verus!
