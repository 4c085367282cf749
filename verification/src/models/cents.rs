//! Amounts of money in cents, and their text form `dollars.cents`.

use vstd::prelude::*;
use vstd::std_specs::ops::AddSpecImpl;
use vstd::std_specs::ops::MulSpecImpl;

use crate::decimal::{
    append_natural, digits_of, lemma_digit_char, lemma_digits_of_shape, lemma_parse_int_in_range,
    lemma_scan_digits_of, parse_i64, parse_int, IntErrorKind,
};

verus! {

/// An amount of money, in cents.
#[derive(Debug, PartialEq, Eq, PartialOrd, Ord, Clone, Copy, Structural)]
pub struct Cents(pub i64);

/// Whether an amount of cents has its value in thousandths of a dollar within `i64`.
pub open spec fn fits_milli(c: Cents) -> bool {
    i64::MIN <= c.0 * 10 <= i64::MAX
}

impl Cents {
    /// The amount in thousandths of a dollar, the unit YNAB counts in.
    pub fn milli_dollars(&self) -> (r: i64)
        requires
            fits_milli(*self),
        ensures
            r == self.0 * 10,
    {
        self.0 * 10
    }
}

impl std::ops::Add for Cents {
    type Output = Cents;

    fn add(self, rhs: Self) -> (r: Cents) {
        Cents(self.0 + rhs.0)
    }
}

impl AddSpecImpl for Cents {
    open spec fn obeys_add_spec() -> bool {
        true
    }

    open spec fn add_req(self, rhs: Cents) -> bool {
        i64::MIN <= self.0 + rhs.0 <= i64::MAX
    }

    open spec fn add_spec(self, rhs: Cents) -> Cents {
        Cents((self.0 + rhs.0) as i64)
    }
}

impl std::ops::Mul for Cents {
    type Output = Cents;

    fn mul(self, rhs: Self) -> (r: Cents) {
        Cents(self.0 * rhs.0)
    }
}

impl MulSpecImpl for Cents {
    open spec fn obeys_mul_spec() -> bool {
        true
    }

    open spec fn mul_req(self, rhs: Cents) -> bool {
        i64::MIN <= self.0 * rhs.0 <= i64::MAX
    }

    open spec fn mul_spec(self, rhs: Cents) -> Cents {
        Cents((self.0 * rhs.0) as i64)
    }
}


/// The text before the first `.` of `s`, all of `s` when it holds none.
pub open spec fn dot_field(s: Seq<char>) -> Seq<char>
    decreases s.len(),
{
    if s.len() == 0 || s[0] == '.' {
        Seq::empty()
    } else {
        seq![s[0]] + dot_field(s.drop_first())
    }
}

/// The text between the first `.` of `s` and the next one (or the end).
pub open spec fn second_dot_field(s: Seq<char>) -> Seq<char> {
    dot_field(s.skip(dot_field(s).len() + 1int))
}

/// The sign that the dollars text is written with: negative when it begins with `-`.
pub open spec fn written_sign(dollars: Seq<char>) -> int {
    if dollars.len() > 0 && dollars[0] == '-' {
        -1
    } else {
        1
    }
}

/// Which side of the `.` failed to read as an integer.
#[derive(Debug, Clone, Copy, PartialEq, Eq)]
pub enum CentsPart {
    Dollars,
    Cents,
}

/// Why text is not an amount: the part that is not an integer, and why.
#[derive(Debug, Clone, Copy, PartialEq, Eq)]
pub struct CentsError {
    pub part: CentsPart,
    pub kind: IntErrorKind,
}

/// The amount that the text `s` stands for: the integers before and after the first
/// `.` combine as `dollars * 100 + sign * cents`, where the sign is the one the dollars
/// are written with (so `-0.50` is -50 cents).
pub open spec fn parse_cents_spec(s: Seq<char>) -> Result<int, CentsError> {
    match parse_int(dot_field(s)) {
        Err(kind) => Err(CentsError { part: CentsPart::Dollars, kind }),
        Ok(dollars) => match parse_int(second_dot_field(s)) {
            Err(kind) => Err(CentsError { part: CentsPart::Cents, kind }),
            Ok(cents) => Ok(dollars * 100 + written_sign(dot_field(s)) * cents),
        },
    }
}

/// The text holds a `.` (or its dollars are already not an integer), and the amount it
/// reads as fits in an `i64`.
pub open spec fn cents_text_readable(s: Seq<char>) -> bool {
    &&& (s.contains('.') || parse_int(dot_field(s)) is Err)
    &&& (parse_cents_spec(s) matches Ok(v) ==> i64::MIN <= v <= i64::MAX)
}

proof fn lemma_dot_field_position(s: Seq<char>, i: int)
    requires
        0 <= i < s.len(),
        s[i] == '.',
        forall|k: int| 0 <= k < i ==> s[k] != '.',
    ensures
        dot_field(s) == s.take(i),
    decreases i,
{
    if i > 0 {
        lemma_dot_field_position(s.drop_first(), i - 1);
        assert(s.take(i) =~= seq![s[0]] + s.drop_first().take(i - 1));
    } else {
        assert(s.take(0) =~= Seq::<char>::empty());
    }
}

proof fn lemma_dot_field_whole(s: Seq<char>)
    requires
        forall|k: int| 0 <= k < s.len() ==> s[k] != '.',
    ensures
        dot_field(s) == s,
    decreases s.len(),
{
    if s.len() > 0 {
        lemma_dot_field_whole(s.drop_first());
        assert(s =~= seq![s[0]] + s.drop_first());
    }
}

/// The characters of `value`, in order.
fn chars_of(value: &str) -> (v: Vec<char>)
    ensures
        v@ == value@,
{
    let n = value.unicode_len();
    let mut v: Vec<char> = Vec::new();
    let mut i: usize = 0;
    while i < n
        invariant
            n == value@.len(),
            i <= n,
            v@ == value@.take(i as int),
        decreases n - i,
    {
        v.push(value.get_char(i));
        i = i + 1;
        assert(v@ =~= value@.take(i as int));
    }
    assert(value@.take(n as int) =~= value@);
    v
}

/// The index of the first `.` at or after `start`, or the length when there is none.
fn find_dot(s: &[char], start: usize) -> (i: usize)
    requires
        start <= s@.len(),
    ensures
        start <= i <= s@.len(),
        i < s@.len() ==> s@[i as int] == '.',
        forall|k: int| start <= k < i ==> s@[k] != '.',
{
    let mut i = start;
    while i < s.len() && s[i] != '.'
        invariant
            start <= i <= s@.len(),
            forall|k: int| start <= k < i ==> s@[k] != '.',
        decreases s@.len() - i,
    {
        i = i + 1;
    }
    i
}

/// `dollars * 100 + sign * cents`, with the sign negative when `negative`, without
/// overflow.
fn combine_parts(dollars: i64, cents: i64, negative: bool) -> (total: i128)
    ensures
        total == dollars * 100 + (if negative { -1int } else { 1int }) * cents,
{
    let d = dollars as i128;
    let c = cents as i128;
    if negative {
        assert((-1int) * c == -c);
        d * 100 - c
    } else {
        assert(1int * c == c);
        d * 100 + c
    }
}

/// Reads an amount from its text, such as `22.11`: the integer before the first `.`
/// is the dollars and the integer after it (up to any next `.`) the cents, which take
/// the sign the dollars are written with. Text whose dollars are an integer but that
/// has no `.` is not accepted.
pub fn parse_cents(value: &str) -> (r: Result<Cents, CentsError>)
    requires
        cents_text_readable(value@),
    ensures
        r matches Ok(c) ==> parse_cents_spec(value@) == Ok::<int, CentsError>(c.0 as int),
        r matches Err(e) ==> parse_cents_spec(value@) == Err::<int, CentsError>(e),
{
    match parse_cents_checked(value) {
        Some(r) => r,
        // cannot happen: the text is readable
        None => Err(CentsError { part: CentsPart::Cents, kind: IntErrorKind::Empty }),
    }
}

/// `parse_cents` on every text: `None` for the texts it does not accept (an integer
/// with no `.` after it, or an amount beyond the `i64` range).
pub fn parse_cents_checked(value: &str) -> (r: Option<Result<Cents, CentsError>>)
    ensures
        r is Some <==> cents_text_readable(value@),
        r matches Some(Ok(c)) ==> parse_cents_spec(value@) == Ok::<int, CentsError>(c.0 as int),
        r matches Some(Err(e)) ==> parse_cents_spec(value@) == Err::<int, CentsError>(e),
{
    let chars = chars_of(value);
    let s = chars.as_slice();
    let first = find_dot(s, 0);
    proof {
        if first < s@.len() {
            lemma_dot_field_position(s@, first as int);
            assert(value@[first as int] == '.');
        } else {
            lemma_dot_field_whole(s@);
            assert(s@.take(first as int) =~= s@);
            assert(!value@.contains('.'));
        }
        assert(dot_field(value@) == s@.subrange(0, first as int));
        lemma_parse_int_in_range(dot_field(value@));
    }
    let dollars = match parse_i64(vstd::slice::slice_subrange(s, 0, first)) {
        Ok(d) => d,
        Err(kind) => {
            return Some(Err(CentsError { part: CentsPart::Dollars, kind }));
        },
    };
    if first == s.len() {
        return None;
    }
    let second = find_dot(s, first + 1);
    proof {
        let rest = s@.skip(first + 1);
        if second < s@.len() {
            lemma_dot_field_position(rest, second - first - 1);
            assert(rest.take(second - first - 1) =~= s@.subrange(first + 1, second as int));
        } else {
            lemma_dot_field_whole(rest);
            assert(rest =~= s@.subrange(first + 1, second as int));
        }
        assert(second_dot_field(value@) == s@.subrange(first + 1, second as int));
        lemma_parse_int_in_range(second_dot_field(value@));
    }
    let cents = match parse_i64(vstd::slice::slice_subrange(s, first + 1, second)) {
        Ok(c) => c,
        Err(kind) => {
            return Some(Err(CentsError { part: CentsPart::Cents, kind }));
        },
    };
    let total = combine_parts(dollars, cents, 0 < first && s[0] == '-');
    if total < i64::MIN as i128 || total > i64::MAX as i128 {
        return None;
    }
    Some(Ok(Cents(total as i64)))
}

pub open spec fn abs(i: int) -> int {
    if i < 0 {
        -i
    } else {
        i
    }
}

/// The text of an amount: a `-` for negative amounts, the whole dollars of its
/// magnitude, a `.`, and the remaining cents of its magnitude, in decimal without
/// padding (so 105 cents are `1.5`, 150 cents are `1.50` and -5 cents are `-0.5`).
pub open spec fn format_cents_spec(c: int) -> Seq<char> {
    (if c < 0 {
        seq!['-']
    } else {
        Seq::<char>::empty()
    }) + digits_of((abs(c) / 100) as nat) + seq!['.'] + digits_of(
        (abs(c) % 100) as nat,
    )
}

/// Writes an amount as its text (see `format_cents_spec`).
pub fn format_cents(c: Cents) -> (s: String)
    requires
        c.0 != i64::MIN,
    ensures
        s@ == format_cents_spec(c.0 as int),
{
    let v = c.0 as i128;
    let magnitude: i128 = if v < 0 { -v } else { v };
    let mut s = String::new();
    if v < 0 {
        proof { reveal_strlit("-"); }
        s.append("-");
    }
    append_natural(&mut s, (magnitude / 100) as u64);
    proof { reveal_strlit("."); }
    s.append(".");
    append_natural(&mut s, (magnitude % 100) as u64);
    assert(s@ =~= format_cents_spec(c.0 as int));
    s
}

/// Text of the form `D.C`, with `D` and `C` written in decimal, reads as `D` dollars and
/// `C` cents; with a leading `-` it reads as the negative of that.
pub proof fn lemma_read_dollars_dot_cents(dollars: nat, cents: nat, negative: bool)
    requires
        dollars * 100 + cents <= i64::MAX,
    ensures
        parse_cents_spec(
            (if negative {
                seq!['-']
            } else {
                Seq::<char>::empty()
            }) + digits_of(dollars) + seq!['.'] + digits_of(cents),
        ) == Ok::<int, CentsError>(
            if negative {
                -(dollars * 100 + cents)
            } else {
                (dollars * 100 + cents) as int
            },
        ),
{
    let sign = if negative {
        seq!['-']
    } else {
        Seq::<char>::empty()
    };
    let d = sign + digits_of(dollars);
    let c = digits_of(cents);
    let s = sign + digits_of(dollars) + seq!['.'] + digits_of(cents);
    assert(s =~= d + seq!['.'] + c);
    lemma_digits_of_shape(dollars);
    lemma_digits_of_shape(cents);
    assert forall|k: int| 0 <= k < d.len() implies d[k] != '.' by {
        if negative && k > 0 {
            assert(d[k] == digits_of(dollars)[k - 1]);
        } else if !negative {
            assert(d[k] == digits_of(dollars)[k]);
        }
    }
    let dl = d.len() as int;
    assert forall|k: int| 0 <= k < dl implies s[k] != '.' by {
        assert(s[k] == d[k]);
    }
    lemma_dot_field_position(s, dl);
    assert(s.take(dl) =~= d);
    assert(s.skip(dl + 1) =~= c);
    lemma_dot_field_whole(c);
    lemma_scan_digits_of(false, cents);
    assert(c[0] != '+' && c[0] != '-') by {
        lemma_digit_char(c[0] as int - 48);
    }
    if negative {
        lemma_scan_digits_of(true, dollars);
        assert(d.drop_first() =~= digits_of(dollars));
        assert(d[0] == '-');
    } else {
        lemma_scan_digits_of(false, dollars);
        assert(d =~= digits_of(dollars));
        assert(d[0] != '+' && d[0] != '-') by {
            lemma_digit_char(d[0] as int - 48);
        }
    }
}

/// Writing an amount and reading it back gives the amount.
pub proof fn lemma_cents_roundtrip(c: Cents)
    requires
        c.0 != i64::MIN,
    ensures
        cents_text_readable(format_cents_spec(c.0 as int)),
        parse_cents_spec(format_cents_spec(c.0 as int)) == Ok::<int, CentsError>(c.0 as int),
{
    let v = c.0 as int;
    let q: nat = (abs(v) / 100) as nat;
    let r: nat = (abs(v) % 100) as nat;
    let sign = if v < 0 {
        seq!['-']
    } else {
        Seq::<char>::empty()
    };
    let dollars = sign + digits_of(q);
    let cents = digits_of(r);
    let s = format_cents_spec(v);
    assert(s =~= dollars + seq!['.'] + cents);
    lemma_digits_of_shape(q);
    lemma_digits_of_shape(r);
    assert forall|k: int| 0 <= k < dollars.len() implies dollars[k] != '.' by {
        if v < 0 && k > 0 {
            assert(dollars[k] == digits_of(q)[k - 1]);
        } else if v >= 0 {
            assert(dollars[k] == digits_of(q)[k]);
        }
    }
    let dl = dollars.len() as int;
    assert(s[dl] == '.');
    assert forall|k: int| 0 <= k < dl implies s[k] != '.' by {
        assert(s[k] == dollars[k]);
    }
    lemma_dot_field_position(s, dl);
    assert(s.take(dl) =~= dollars);
    assert(s.skip(dl + 1) =~= cents);
    lemma_dot_field_whole(cents);
    lemma_scan_digits_of(false, r);
    assert(cents[0] != '+' && cents[0] != '-') by {
        lemma_digit_char(cents[0] as int - 48);
    }
    if v < 0 {
        lemma_scan_digits_of(true, q);
        assert(dollars.drop_first() =~= digits_of(q));
        assert(parse_int(dollars) == Ok::<int, IntErrorKind>(-q)) by {
            assert(dollars[0] == '-');
        }
        assert(written_sign(dollars) == -1);
    } else {
        lemma_scan_digits_of(false, q);
        assert(dollars =~= digits_of(q));
        assert(dollars[0] != '+' && dollars[0] != '-') by {
            lemma_digit_char(dollars[0] as int - 48);
        }
        assert(written_sign(dollars) == 1);
    }
    assert(s.contains('.'));
}

} // verus!
