//! Decimal text for integers: rendering as `Display` does and reading as
//! `str::parse::<i64>` does.

use vstd::prelude::*;

verus! {

/// The character for a decimal digit.
pub open spec fn digit_char(d: int) -> char {
    (d + 48) as char
}

pub open spec fn is_digit(c: char) -> bool {
    48 <= c as int <= 57
}

pub open spec fn digit_value(c: char) -> int {
    c as int - 48
}

/// The digits of a natural number, most significant first, with no leading zero.
pub open spec fn digits_of(n: nat) -> Seq<char>
    decreases n,
{
    if n < 10 {
        seq![digit_char(n as int)]
    } else {
        digits_of(n / 10) + seq![digit_char((n % 10) as int)]
    }
}

/// How an integer is written in decimal: a minus sign for negatives, then its digits.
pub open spec fn decimal(i: int) -> Seq<char> {
    if i < 0 {
        seq!['-'] + digits_of((-i) as nat)
    } else {
        digits_of(i as nat)
    }
}

fn digit_text(d: u64) -> (s: &'static str)
    requires
        d < 10,
    ensures
        s@ == seq![digit_char(d as int)],
{
    if d == 0 {
        proof { reveal_strlit("0"); }
        "0"
    } else if d == 1 {
        proof { reveal_strlit("1"); }
        "1"
    } else if d == 2 {
        proof { reveal_strlit("2"); }
        "2"
    } else if d == 3 {
        proof { reveal_strlit("3"); }
        "3"
    } else if d == 4 {
        proof { reveal_strlit("4"); }
        "4"
    } else if d == 5 {
        proof { reveal_strlit("5"); }
        "5"
    } else if d == 6 {
        proof { reveal_strlit("6"); }
        "6"
    } else if d == 7 {
        proof { reveal_strlit("7"); }
        "7"
    } else if d == 8 {
        proof { reveal_strlit("8"); }
        "8"
    } else {
        proof { reveal_strlit("9"); }
        "9"
    }
}

fn append_digits(s: &mut String, n: u64)
    ensures
        final(s)@ == old(s)@ + digits_of(n as nat),
    decreases n,
{
    if n >= 10 {
        append_digits(s, n / 10);
    }
    s.append(digit_text(n % 10));
    assert(final(s)@ =~= old(s)@ + digits_of(n as nat));
}

/// Appends the digits of `n` to `s`.
pub fn append_natural(s: &mut String, n: u64)
    ensures
        final(s)@ == old(s)@ + digits_of(n as nat),
{
    append_digits(s, n);
}

/// Appends the decimal text of `i` to `s`.
pub fn append_decimal(s: &mut String, i: i64)
    ensures
        final(s)@ == old(s)@ + decimal(i as int),
{
    if i < 0 {
        proof { reveal_strlit("-"); }
        s.append("-");
        let magnitude: u64 = (0i128 - (i as i128)) as u64;
        append_digits(s, magnitude);
        assert(final(s)@ =~= old(s)@ + decimal(i as int));
    } else {
        append_digits(s, i as u64);
    }
}

/// The decimal text of `i`, as `i.to_string()` gives it.
pub fn to_decimal(i: i64) -> (s: String)
    ensures
        s@ == decimal(i as int),
{
    let mut s = String::new();
    append_decimal(&mut s, i);
    assert(s@ =~= decimal(i as int));
    s
}


/// Why text is not an `i64`, with the kinds that `str::parse::<i64>` reports.
#[derive(Debug, Clone, Copy, PartialEq, Eq)]
pub enum IntErrorKind {
    Empty,
    InvalidDigit,
    PosOverflow,
    NegOverflow,
}

/// Reads the digits `d` left to right into a value of the sign given, stopping at the
/// first character that is not a digit or that takes the value out of the `i64` range.
pub open spec fn scan_digits(negative: bool, d: Seq<char>) -> Result<int, IntErrorKind>
    decreases d.len(),
{
    if d.len() == 0 {
        Ok(0)
    } else {
        match scan_digits(negative, d.drop_last()) {
            Err(e) => Err(e),
            Ok(v) => if !is_digit(d.last()) {
                Err(IntErrorKind::InvalidDigit)
            } else if negative {
                if v * 10 - digit_value(d.last()) < i64::MIN {
                    Err(IntErrorKind::NegOverflow)
                } else {
                    Ok(v * 10 - digit_value(d.last()))
                }
            } else {
                if v * 10 + digit_value(d.last()) > i64::MAX {
                    Err(IntErrorKind::PosOverflow)
                } else {
                    Ok(v * 10 + digit_value(d.last()))
                }
            },
        }
    }
}

/// What `str::parse::<i64>` gives for the text `s`: an optional sign, then at least
/// one digit, and a value within the `i64` range.
pub open spec fn parse_int(s: Seq<char>) -> Result<int, IntErrorKind> {
    if s.len() == 0 {
        Err(IntErrorKind::Empty)
    } else if s.len() == 1 && (s[0] == '+' || s[0] == '-') {
        Err(IntErrorKind::InvalidDigit)
    } else if s[0] == '+' {
        scan_digits(false, s.drop_first())
    } else if s[0] == '-' {
        scan_digits(true, s.drop_first())
    } else {
        scan_digits(false, s)
    }
}

/// `parse_int` with its value held in an `i64`.
pub open spec fn parse_i64_spec(s: Seq<char>) -> Result<i64, IntErrorKind> {
    match parse_int(s) {
        Ok(v) => Ok(v as i64),
        Err(e) => Err(e),
    }
}

proof fn lemma_scan_in_range(negative: bool, d: Seq<char>)
    ensures
        scan_digits(negative, d) matches Ok(v) ==> i64::MIN <= v <= i64::MAX,
        scan_digits(negative, d) matches Ok(v) ==> (negative ==> v <= 0) && (!negative ==> v >= 0),
    decreases d.len(),
{
    if d.len() > 0 {
        lemma_scan_in_range(negative, d.drop_last());
    }
}

/// A value read by `parse_int` lies within the `i64` range.
pub proof fn lemma_parse_int_in_range(s: Seq<char>)
    ensures
        parse_int(s) matches Ok(v) ==> i64::MIN <= v <= i64::MAX,
{
    if s.len() > 0 {
        lemma_scan_in_range(false, s);
        lemma_scan_in_range(false, s.drop_first());
        lemma_scan_in_range(true, s.drop_first());
    }
}

proof fn lemma_scan_error_persists(negative: bool, d: Seq<char>, k: int)
    requires
        0 <= k <= d.len(),
        scan_digits(negative, d.take(k)) is Err,
    ensures
        scan_digits(negative, d) == scan_digits(negative, d.take(k)),
    decreases d.len() - k,
{
    if k < d.len() {
        assert(d.take(k + 1).drop_last() =~= d.take(k));
        lemma_scan_error_persists(negative, d, k + 1);
    } else {
        assert(d.take(k) =~= d);
    }
}

/// Reads `s[start..]` as digits of the given sign.
fn scan_digits_exec(s: &[char], start: usize, negative: bool) -> (r: Result<i64, IntErrorKind>)
    requires
        start <= s@.len(),
    ensures
        r == (match scan_digits(negative, s@.skip(start as int)) {
            Ok(v) => Ok(v as i64),
            Err(e) => Err(e),
        }),
{
    let ghost d = s@.skip(start as int);
    let mut acc: i64 = 0;
    let mut k: usize = start;
    assert(d.take(0) =~= Seq::<char>::empty());
    while k < s.len()
        invariant
            start <= k <= s@.len(),
            d == s@.skip(start as int),
            scan_digits(negative, d.take(k - start)) == Ok::<int, IntErrorKind>(acc as int),
        decreases s@.len() - k,
    {
        let c = s[k];
        proof {
            lemma_scan_in_range(negative, d.take(k - start));
            assert(d.take(k - start + 1).drop_last() =~= d.take(k - start));
            assert(d.take(k - start + 1).last() == c);
        }
        if !('0' <= c && c <= '9') {
            proof { lemma_scan_error_persists(negative, d, k - start + 1); }
            return Err(IntErrorKind::InvalidDigit);
        }
        let x: i128 = (c as u32 - 48) as i128;
        assert(x == digit_value(c));
        if negative {
            let nv: i128 = acc as i128 * 10 - x;
            if nv < i64::MIN as i128 {
                proof { lemma_scan_error_persists(negative, d, k - start + 1); }
                return Err(IntErrorKind::NegOverflow);
            }
            acc = nv as i64;
        } else {
            let nv: i128 = acc as i128 * 10 + x;
            if nv > i64::MAX as i128 {
                proof { lemma_scan_error_persists(negative, d, k - start + 1); }
                return Err(IntErrorKind::PosOverflow);
            }
            acc = nv as i64;
        }
        k = k + 1;
    }
    assert(d.take(k - start) =~= d);
    Ok(acc)
}

/// Reads `s` as `str::parse::<i64>` does.
pub fn parse_i64(s: &[char]) -> (r: Result<i64, IntErrorKind>)
    ensures
        r == parse_i64_spec(s@),
{
    if s.len() == 0 {
        return Err(IntErrorKind::Empty);
    }
    if s.len() == 1 && (s[0] == '+' || s[0] == '-') {
        return Err(IntErrorKind::InvalidDigit);
    }
    if s[0] == '+' {
        assert(s@.skip(1) =~= s@.drop_first());
        scan_digits_exec(s, 1, false)
    } else if s[0] == '-' {
        assert(s@.skip(1) =~= s@.drop_first());
        scan_digits_exec(s, 1, true)
    } else {
        assert(s@.skip(0) =~= s@);
        scan_digits_exec(s, 0, false)
    }
}


pub proof fn lemma_digit_char(d: int)
    requires
        0 <= d < 10,
    ensures
        is_digit(digit_char(d)),
        digit_value(digit_char(d)) == d,
        digit_char(d) != '+',
        digit_char(d) != '-',
        digit_char(d) != '.',
{
}

/// Every character of `digits_of(n)` is a digit, and there is at least one.
pub proof fn lemma_digits_of_shape(n: nat)
    ensures
        digits_of(n).len() >= 1,
        forall|k: int| 0 <= k < digits_of(n).len() ==> is_digit(#[trigger] digits_of(n)[k]),
    decreases n,
{
    if n < 10 {
        lemma_digit_char(n as int);
    } else {
        lemma_digits_of_shape(n / 10);
        lemma_digit_char((n % 10) as int);
    }
}

/// Reading the digits of `n` with a sign gives `n` with that sign.
pub proof fn lemma_scan_digits_of(negative: bool, n: nat)
    requires
        negative ==> n <= 0x8000_0000_0000_0000,
        !negative ==> n <= 0x7fff_ffff_ffff_ffff,
    ensures
        scan_digits(negative, digits_of(n)) == Ok::<int, IntErrorKind>(
            if negative { -n } else { n as int },
        ),
    decreases n,
{
    if n < 10 {
        lemma_digit_char(n as int);
        assert(digits_of(n).drop_last() =~= Seq::<char>::empty());
    } else {
        lemma_scan_digits_of(negative, n / 10);
        lemma_digit_char((n % 10) as int);
        assert(digits_of(n).drop_last() =~= digits_of(n / 10));
        assert(digits_of(n).last() == digit_char((n % 10) as int));
        assert((n / 10) * 10 + n % 10 == n);
        let v: int = if negative { -(n / 10) } else { (n / 10) as int };
        assert(scan_digits(negative, digits_of(n).drop_last()) == Ok::<int, IntErrorKind>(v));
    }
}

/// Reading back the decimal text of an `i64` gives that `i64`.
pub proof fn lemma_parse_decimal(i: i64)
    ensures
        parse_int(decimal(i as int)) == Ok::<int, IntErrorKind>(i as int),
{
    if i < 0 {
        let n = (-i) as nat;
        lemma_digits_of_shape(n);
        lemma_scan_digits_of(true, n);
        assert(decimal(i as int).drop_first() =~= digits_of(n));
    } else {
        let n = i as nat;
        lemma_digits_of_shape(n);
        lemma_scan_digits_of(false, n);
        assert(digits_of(n)[0] != '+' && digits_of(n)[0] != '-') by {
            lemma_digit_char(digits_of(n)[0] as int - 48);
        }
    }
}

} // verus!
