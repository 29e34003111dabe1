//! Decimal text for `i32`: reading an integer out of a string the way
//! `str::parse::<i32>` does, and writing one the way `Display` does.
use vstd::prelude::*;
use crate::std_text::chars_of;

verus! {

/// Why a string could not be read as an `i32`.
#[derive(Debug, Clone, Copy, PartialEq, Eq, Structural)]
pub enum IntErrorKind {
    /// The string is empty.
    Empty,
    /// A character that is not a decimal digit, or a sign on its own.
    InvalidDigit,
    /// The number is above `i32::MAX`.
    PosOverflow,
    /// The number is below `i32::MIN`.
    NegOverflow,
}

/// The error returned by [`parse_i32`].
#[derive(Debug, Clone, Copy, PartialEq, Eq, Structural)]
pub struct ParseIntError {
    pub kind: IntErrorKind,
}

impl ParseIntError {
    /// Which kind of problem stopped the parse.
    pub fn kind(&self) -> (r: IntErrorKind)
        ensures
            r == self.kind,
    {
        self.kind
    }

    /// The message std prints for this error.
    pub fn message(&self) -> (r: &'static str)
        ensures
            r@ == error_message_spec(self.kind),
    {
        match self.kind {
            IntErrorKind::Empty => "cannot parse integer from empty string",
            IntErrorKind::InvalidDigit => "invalid digit found in string",
            IntErrorKind::PosOverflow => "number too large to fit in target type",
            IntErrorKind::NegOverflow => "number too small to fit in target type",
        }
    }
}

pub open spec fn is_digit(c: char) -> bool {
    '0' <= c <= '9'
}

pub open spec fn digit_value(c: char) -> int {
    c as int - '0' as int
}

/// The number written by a run of decimal digits (most significant first).
pub open spec fn digits_value(ds: Seq<char>) -> int
    decreases ds.len(),
{
    if ds.len() == 0 {
        0
    } else {
        digits_value(ds.drop_last()) * 10 + digit_value(ds.last())
    }
}

/// How many decimal digits `s` starts with.
pub open spec fn leading_digits(s: Seq<char>) -> nat
    decreases s.len(),
{
    if s.len() == 0 || !is_digit(s[0]) {
        0
    } else {
        1 + leading_digits(s.drop_first())
    }
}

pub open spec fn is_sign(c: char) -> bool {
    c == '+' || c == '-'
}

/// The largest magnitude a number of the given sign may have in an `i32`.
pub open spec fn magnitude_bound(negative: bool) -> int {
    if negative {
        0x8000_0000
    } else {
        0x7fff_ffff
    }
}

pub open spec fn parse_err(kind: IntErrorKind) -> Result<i32, ParseIntError> {
    Err(ParseIntError { kind })
}

/// What reading `s` as an `i32` gives: an optional sign, then digits only.
/// The digits are read from the left, and the first problem met decides the
/// error: a number that no longer fits, or a character that is not a digit.
pub open spec fn parse_i32_spec(s: Seq<char>) -> Result<i32, ParseIntError> {
    if s.len() == 0 {
        parse_err(IntErrorKind::Empty)
    } else if s.len() == 1 && is_sign(s[0]) {
        parse_err(IntErrorKind::InvalidDigit)
    } else {
        let negative = s[0] == '-';
        let ds = if is_sign(s[0]) { s.drop_first() } else { s };
        let k = leading_digits(ds);
        let v = digits_value(ds.take(k as int));
        if v > magnitude_bound(negative) {
            if negative {
                parse_err(IntErrorKind::NegOverflow)
            } else {
                parse_err(IntErrorKind::PosOverflow)
            }
        } else if k < ds.len() {
            parse_err(IntErrorKind::InvalidDigit)
        } else if negative {
            Ok((-v) as i32)
        } else {
            Ok(v as i32)
        }
    }
}

pub open spec fn digit_char(d: int) -> char {
    (d + '0' as int) as char
}

/// The decimal digits of a natural number, without leading zeros.
pub open spec fn nat_digits(m: nat) -> Seq<char>
    decreases m,
{
    if m < 10 {
        seq![digit_char(m as int)]
    } else {
        nat_digits(m / 10).push(digit_char((m % 10) as int))
    }
}

/// How `Display` writes an integer: a minus sign for negatives, then the
/// digits of the magnitude.
pub open spec fn decimal_text(n: int) -> Seq<char> {
    if n < 0 {
        seq!['-'] + nat_digits((-n) as nat)
    } else {
        nat_digits(n as nat)
    }
}

/// The std message for each kind of error.
pub open spec fn error_message_spec(kind: IntErrorKind) -> Seq<char> {
    match kind {
        IntErrorKind::Empty => "cannot parse integer from empty string"@,
        IntErrorKind::InvalidDigit => "invalid digit found in string"@,
        IntErrorKind::PosOverflow => "number too large to fit in target type"@,
        IntErrorKind::NegOverflow => "number too small to fit in target type"@,
    }
}

proof fn lemma_digits_value_take_step(ds: Seq<char>, i: int)
    requires
        0 <= i < ds.len(),
    ensures
        digits_value(ds.take(i + 1)) == digits_value(ds.take(i)) * 10 + digit_value(ds[i]),
{
    assert(ds.take(i + 1).drop_last() =~= ds.take(i));
}

proof fn lemma_digits_value_nonneg(ds: Seq<char>)
    requires
        forall|j: int| 0 <= j < ds.len() ==> is_digit(#[trigger] ds[j]),
    ensures
        digits_value(ds) >= 0,
    decreases ds.len(),
{
    if ds.len() > 0 {
        lemma_digits_value_nonneg(ds.drop_last());
    }
}

/// Along a run of digits, a longer prefix never writes a smaller number.
proof fn lemma_digits_value_monotone(ds: Seq<char>, i: int, k: int)
    requires
        0 <= i <= k <= ds.len(),
        forall|j: int| 0 <= j < k ==> is_digit(#[trigger] ds[j]),
    ensures
        digits_value(ds.take(i)) <= digits_value(ds.take(k)),
    decreases k - i,
{
    if i < k {
        lemma_digits_value_monotone(ds, i + 1, k);
        lemma_digits_value_take_step(ds, i);
        assert forall|j: int| 0 <= j < ds.take(i).len() implies is_digit(
            #[trigger] ds.take(i)[j],
        ) by {
            assert(ds.take(i)[j] == ds[j]);
        }
        lemma_digits_value_nonneg(ds.take(i));
    }
}

/// `leading_digits` is the index of the first non-digit (or the length).
proof fn lemma_leading_digits(s: Seq<char>, k: int)
    requires
        0 <= k <= s.len(),
        forall|j: int| 0 <= j < k ==> is_digit(#[trigger] s[j]),
        k == s.len() || !is_digit(s[k]),
    ensures
        leading_digits(s) == k,
    decreases k,
{
    if k > 0 {
        assert forall|j: int| 0 <= j < k - 1 implies is_digit(#[trigger] s.drop_first()[j]) by {
            assert(s.drop_first()[j] == s[j + 1]);
        }
        if k < s.len() {
            assert(s.drop_first()[k - 1] == s[k]);
        }
        lemma_leading_digits(s.drop_first(), k - 1);
    }
}

/// Reads `s` as an `i32`, as `s.parse::<i32>()` does.
pub fn parse_i32(s: &str) -> (r: Result<i32, ParseIntError>)
    ensures
        r == parse_i32_spec(s@),
{
    let chars = chars_of(s);
    let n = chars.len();
    if n == 0 {
        return Err(ParseIntError { kind: IntErrorKind::Empty });
    }
    let first = chars[0];
    if n == 1 && (first == '+' || first == '-') {
        return Err(ParseIntError { kind: IntErrorKind::InvalidDigit });
    }
    let negative = first == '-';
    let start: usize = if first == '+' || first == '-' { 1 } else { 0 };
    let bound: u64 = if negative { 0x8000_0000 } else { 0x7fff_ffff };
    let ghost ds = if is_sign(s@[0]) { s@.drop_first() } else { s@ };
    assert(ds =~= chars@.subrange(start as int, n as int));
    let mut v: u64 = 0;
    let mut i: usize = start;
    while i < n
        invariant
            start <= i <= n,
            n == chars@.len(),
            chars@ == s@,
            ds == chars@.subrange(start as int, n as int),
            bound == magnitude_bound(negative),
            negative == (s@[0] == '-'),
            n >= 1,
            !(n == 1 && is_sign(s@[0])),
            ds == (if is_sign(s@[0]) { s@.drop_first() } else { s@ }),
            forall|j: int| 0 <= j < i - start ==> is_digit(#[trigger] ds[j]),
            v == digits_value(ds.take(i - start)),
            v <= bound,
        decreases n - i,
    {
        let c = chars[i];
        let ghost p: int = i - start;
        assert(ds[p] == c);
        if !('0' <= c && c <= '9') {
            proof {
                lemma_parse_stops_at_non_digit(s@, ds, p);
            }
            return Err(ParseIntError { kind: IntErrorKind::InvalidDigit });
        }
        let d = (c as u32 - '0' as u32) as u64;
        proof {
            lemma_digits_value_take_step(ds, p);
        }
        let next = v * 10 + d;
        if next > bound {
            proof {
                lemma_parse_overflows(s@, ds, p + 1);
            }
            if negative {
                return Err(ParseIntError { kind: IntErrorKind::NegOverflow });
            } else {
                return Err(ParseIntError { kind: IntErrorKind::PosOverflow });
            }
        }
        v = next;
        i = i + 1;
    }
    proof {
        assert(ds.take(ds.len() as int) =~= ds);
        lemma_parse_all_digits(s@, ds);
    }
    if negative {
        Ok((0 - (v as i64)) as i32)
    } else {
        Ok(v as i32)
    }
}

proof fn lemma_parse_stops_at_non_digit(s: Seq<char>, ds: Seq<char>, p: int)
    requires
        s.len() >= 1,
        !(s.len() == 1 && is_sign(s[0])),
        ds == (if is_sign(s[0]) { s.drop_first() } else { s }),
        0 <= p < ds.len(),
        forall|j: int| 0 <= j < p ==> is_digit(#[trigger] ds[j]),
        !is_digit(ds[p]),
        digits_value(ds.take(p)) <= magnitude_bound(s[0] == '-'),
    ensures
        parse_i32_spec(s) == parse_err(IntErrorKind::InvalidDigit),
{
    lemma_leading_digits(ds, p);
}

proof fn lemma_parse_overflows(s: Seq<char>, ds: Seq<char>, p: int)
    requires
        s.len() >= 1,
        !(s.len() == 1 && is_sign(s[0])),
        ds == (if is_sign(s[0]) { s.drop_first() } else { s }),
        0 <= p <= ds.len(),
        forall|j: int| 0 <= j < p ==> is_digit(#[trigger] ds[j]),
        digits_value(ds.take(p)) > magnitude_bound(s[0] == '-'),
    ensures
        parse_i32_spec(s) == parse_err(
            if s[0] == '-' {
                IntErrorKind::NegOverflow
            } else {
                IntErrorKind::PosOverflow
            },
        ),
{
    lemma_run_at_least(ds, p);
    lemma_digits_value_monotone(ds, p, leading_digits(ds) as int);
}

proof fn lemma_parse_all_digits(s: Seq<char>, ds: Seq<char>)
    requires
        s.len() >= 1,
        !(s.len() == 1 && is_sign(s[0])),
        ds == (if is_sign(s[0]) { s.drop_first() } else { s }),
        forall|j: int| 0 <= j < ds.len() ==> is_digit(#[trigger] ds[j]),
        digits_value(ds) <= magnitude_bound(s[0] == '-'),
    ensures
        parse_i32_spec(s) == (if s[0] == '-' {
            Ok::<i32, ParseIntError>((-digits_value(ds)) as i32)
        } else {
            Ok(digits_value(ds) as i32)
        }),
{
    lemma_leading_digits(ds, ds.len() as int);
    assert(ds.take(ds.len() as int) =~= ds);
}

/// If `s` starts with `k` digits, its run of leading digits is at least `k`
/// long, and every character of the run is a digit.
proof fn lemma_run_at_least(s: Seq<char>, k: int)
    requires
        0 <= k <= s.len(),
        forall|j: int| 0 <= j < k ==> is_digit(#[trigger] s[j]),
    ensures
        k <= leading_digits(s) <= s.len(),
        forall|j: int| 0 <= j < leading_digits(s) ==> is_digit(#[trigger] s[j]),
        leading_digits(s) == s.len() || !is_digit(s[leading_digits(s) as int]),
    decreases s.len(),
{
    if s.len() > 0 && is_digit(s[0]) {
        let t = s.drop_first();
        assert forall|j: int| 0 <= j < k - 1 implies is_digit(#[trigger] t[j]) by {
            assert(t[j] == s[j + 1]);
        }
        if k > 0 {
            lemma_run_at_least(t, k - 1);
        } else {
            lemma_run_at_least(t, 0);
        }
        assert forall|j: int| 0 <= j < leading_digits(s) implies is_digit(#[trigger] s[j]) by {
            if j > 0 {
                assert(s[j] == t[j - 1]);
            }
        }
        if leading_digits(s) < s.len() {
            assert(s[leading_digits(s) as int] == t[leading_digits(t) as int]);
        }
    }
}

/// Appends the character of one decimal digit.
fn push_digit(out: &mut String, d: u32)
    requires
        d < 10,
    ensures
        final(out)@ == old(out)@.push(digit_char(d as int)),
{
    let c = ((d as u8) + 48u8) as char;
    assert(c == digit_char(d as int));
    out.push(c);
}

/// Appends the decimal digits of `m`.
fn push_nat_digits(out: &mut String, m: u32)
    ensures
        final(out)@ == old(out)@ + nat_digits(m as nat),
    decreases m,
{
    if m >= 10 {
        push_nat_digits(out, m / 10);
    }
    push_digit(out, m % 10);
    proof {
        if m < 10 {
            assert(nat_digits(m as nat) == seq![digit_char(m as int)]);
        }
    }
    assert(final(out)@ =~= old(out)@ + nat_digits(m as nat));
}

/// Writes `n` in decimal, as `n.to_string()` does.
pub fn format_i32(n: i32) -> (r: String)
    ensures
        r@ == decimal_text(n as int),
{
    let mut out = String::new();
    if n < 0 {
        out.push('-');
        let m: u32 = (0 - (n as i64)) as u32;
        push_nat_digits(&mut out, m);
    } else {
        push_nat_digits(&mut out, n as u32);
    }
    out
}

proof fn lemma_nat_digits(m: nat)
    ensures
        nat_digits(m).len() >= 1,
        forall|j: int| 0 <= j < nat_digits(m).len() ==> is_digit(#[trigger] nat_digits(m)[j]),
        digits_value(nat_digits(m)) == m,
    decreases m,
{
    let d = (m % 10) as int;
    assert(digit_value(digit_char(d)) == d);
    if m >= 10 {
        lemma_nat_digits(m / 10);
        let t = nat_digits(m / 10);
        assert(nat_digits(m).drop_last() =~= t);
        assert(nat_digits(m).last() == digit_char(d));
        assert(digits_value(nat_digits(m)) == digits_value(t) * 10 + d);
        assert((m / 10) * 10 + d == m);
    } else {
        assert(nat_digits(m).drop_last() =~= Seq::<char>::empty());
        assert(digits_value(Seq::<char>::empty()) == 0);
        assert(nat_digits(m).last() == digit_char(d));
    }
}

/// Reading back what [`format_i32`] wrote gives the same number.
pub proof fn lemma_parse_format_roundtrip(n: i32)
    ensures
        parse_i32_spec(decimal_text(n as int)) == Ok::<i32, ParseIntError>(n),
{
    let negative = n < 0;
    let m: nat = if negative { (-n) as nat } else { n as nat };
    let ds = nat_digits(m);
    lemma_nat_digits(m);
    let s = decimal_text(n as int);
    if negative {
        assert(s.drop_first() =~= ds);
    } else {
        assert(s == ds);
        assert(is_digit(ds[0]));
    }
    lemma_parse_all_digits(s, ds);
}

/// The decimal digits of a natural number are digits, say the number, and
/// start with a zero only when the number is zero (then `"0"` alone): the
/// same text for a number as `Display` writes, with no leading zero.
pub proof fn lemma_nat_digits_canonical(m: nat)
    ensures
        nat_digits(m).len() >= 1,
        forall|j: int| 0 <= j < nat_digits(m).len() ==> is_digit(#[trigger] nat_digits(m)[j]),
        digits_value(nat_digits(m)) == m,
        nat_digits(m)[0] == '0' ==> m == 0,
        m == 0 ==> nat_digits(m) == seq!['0'],
    decreases m,
{
    lemma_nat_digits(m);
    if m >= 10 {
        lemma_nat_digits_canonical(m / 10);
        assert(nat_digits(m)[0] == nat_digits(m / 10)[0]);
    } else {
        assert(digit_char(m as int) as int == m + 48);
        if m == 0 {
            assert(nat_digits(m) =~= seq!['0']);
        }
    }
}

/// How an integer is written: a minus sign exactly for negatives, then the
/// digits of its magnitude, never with a leading zero, which read back to
/// that magnitude.
pub proof fn lemma_decimal_text_canonical(n: i32)
    ensures
        ({
            let t = decimal_text(n as int);
            let digits = if n < 0 { t.drop_first() } else { t };
            &&& (n < 0 <==> t[0] == '-')
            &&& digits.len() >= 1
            &&& forall|j: int| 0 <= j < digits.len() ==> is_digit(#[trigger] digits[j])
            &&& digits_value(digits) == (if n < 0 { -n } else { n as int })
            &&& (digits[0] == '0' ==> n == 0 && digits.len() == 1)
        }),
{
    let m: nat = if n < 0 { (-n) as nat } else { n as nat };
    lemma_nat_digits_canonical(m);
    let t = decimal_text(n as int);
    if n < 0 {
        assert(t.drop_first() =~= nat_digits(m));
    } else {
        assert(is_digit(t[0]));
        if t[0] == '0' {
            assert(m == 0);
        }
    }
}

} // verus!
