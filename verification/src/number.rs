//! Natural numbers and their decimal numerals.
use vstd::prelude::*;

verus! {

/// Why a decimal numeral was refused, in the terms of `usize::from_str`.
#[derive(Debug, Clone, Copy, PartialEq, Eq, Structural)]
pub enum DecimalError {
    Empty,
    InvalidDigit,
    PosOverflow,
    NegOverflow,
}

pub open spec fn digit_of(c: char) -> nat {
    (c as nat - '0' as nat) as nat
}

/// Reads the digits of `s` after an accumulated value `acc`, from left to
/// right, stopping at the first non-digit or the first value above `limit`.
pub open spec fn scan_digits_to(s: Seq<char>, acc: nat, limit: nat) -> Result<nat, DecimalError>
    decreases s.len(),
{
    if s.len() == 0 {
        Ok(acc)
    } else if !crate::text::is_digit(s[0]) {
        Err(DecimalError::InvalidDigit)
    } else if acc * 10 + digit_of(s[0]) > limit {
        Err(DecimalError::PosOverflow)
    } else {
        scan_digits_to(s.drop_first(), acc * 10 + digit_of(s[0]), limit)
    }
}

/// Reads the digits of `s` after an accumulated value `acc`, up to `usize::MAX`.
pub open spec fn scan_digits(s: Seq<char>, acc: nat) -> Result<nat, DecimalError> {
    scan_digits_to(s, acc, usize::MAX as nat)
}

/// The value of a signed decimal numeral, as `str::parse::<isize>` reads it.
pub open spec fn parse_signed_decimal(s: Seq<char>) -> Result<int, DecimalError> {
    if s.len() == 0 {
        Err(DecimalError::Empty)
    } else if (s[0] == '+' || s[0] == '-') && s.len() == 1 {
        Err(DecimalError::InvalidDigit)
    } else if s[0] == '-' {
        match scan_digits_to(s.drop_first(), 0, (isize::MAX as nat) + 1) {
            Ok(v) => Ok(-v),
            Err(DecimalError::PosOverflow) => Err(DecimalError::NegOverflow),
            Err(e) => Err(e),
        }
    } else {
        match scan_digits_to(
            if s[0] == '+' {
                s.drop_first()
            } else {
                s
            },
            0,
            isize::MAX as nat,
        ) {
            Ok(v) => Ok(v as int),
            Err(e) => Err(e),
        }
    }
}

/// The value of a decimal numeral with an optional leading `+`, as
/// `str::parse::<usize>` reads it.
pub open spec fn parse_decimal(s: Seq<char>) -> Result<nat, DecimalError> {
    if s.len() == 0 {
        Err(DecimalError::Empty)
    } else if s[0] == '+' && s.len() == 1 {
        Err(DecimalError::InvalidDigit)
    } else if s[0] == '+' {
        scan_digits(s.drop_first(), 0)
    } else {
        scan_digits(s, 0)
    }
}

/// The message that `ParseIntError` shows for each kind of error.
pub open spec fn decimal_error_message(e: DecimalError) -> Seq<char> {
    match e {
        DecimalError::Empty => "cannot parse integer from empty string"@,
        DecimalError::InvalidDigit => "invalid digit found in string"@,
        DecimalError::PosOverflow => "number too large to fit in target type"@,
        DecimalError::NegOverflow => "number too small to fit in target type"@,
    }
}

pub fn decimal_error_text(e: DecimalError) -> (s: String)
    ensures
        s@ == decimal_error_message(e),
{
    match e {
        DecimalError::Empty => String::from_str("cannot parse integer from empty string"),
        DecimalError::InvalidDigit => String::from_str("invalid digit found in string"),
        DecimalError::PosOverflow => String::from_str("number too large to fit in target type"),
        DecimalError::NegOverflow => String::from_str("number too small to fit in target type"),
    }
}

/// Reads `s[from..]` as digits after the accumulated value `acc`, up to `limit`.
fn scan_digits_exec(s: &Vec<char>, from: usize, acc0: usize, limit: usize) -> (r: Result<
    usize,
    DecimalError,
>)
    requires
        from <= s.len(),
        acc0 <= limit,
    ensures
        r matches Ok(v) ==> v <= limit,
        match r {
            Ok(v) => scan_digits_to(s@.skip(from as int), acc0 as nat, limit as nat) == Ok::<
                nat,
                DecimalError,
            >(v as nat),
            Err(e) => scan_digits_to(s@.skip(from as int), acc0 as nat, limit as nat) == Err::<
                nat,
                DecimalError,
            >(e),
        },
{
    let mut i = from;
    let mut acc = acc0;
    while i < s.len()
        invariant
            from <= i <= s.len(),
            acc <= limit,
            scan_digits_to(s@.skip(from as int), acc0 as nat, limit as nat) == scan_digits_to(
                s@.skip(i as int),
                acc as nat,
                limit as nat,
            ),
        decreases s.len() - i,
    {
        let c = s[i];
        assert(s@.skip(i as int)[0] == c);
        assert(s@.skip(i as int).drop_first() =~= s@.skip(i + 1));
        if !crate::text::is_digit_char(c) {
            return Err(DecimalError::InvalidDigit);
        }
        let d = (c as u32 - '0' as u32) as usize;
        assert(d == digit_of(c));
        match acc.checked_mul(10) {
            None => {
                assert(acc * 10 + digit_of(c) > limit);
                return Err(DecimalError::PosOverflow);
            },
            Some(m) => match m.checked_add(d) {
                None => {
                    return Err(DecimalError::PosOverflow);
                },
                Some(a) => {
                    if a > limit {
                        return Err(DecimalError::PosOverflow);
                    }
                    acc = a;
                },
            },
        }
        i += 1;
    }
    assert(s@.skip(i as int).len() == 0);
    Ok(acc)
}

/// Reads a decimal numeral as `str::parse::<usize>` does.
pub fn parse_usize(s: &Vec<char>) -> (r: Result<usize, DecimalError>)
    ensures
        match r {
            Ok(v) => parse_decimal(s@) == Ok::<nat, DecimalError>(v as nat),
            Err(e) => parse_decimal(s@) == Err::<nat, DecimalError>(e),
        },
{
    if s.len() == 0 {
        return Err(DecimalError::Empty);
    }
    if s[0] == '+' {
        if s.len() == 1 {
            return Err(DecimalError::InvalidDigit);
        }
        assert(s@.skip(1) =~= s@.drop_first());
        scan_digits_exec(s, 1, 0, usize::MAX)
    } else {
        assert(s@.skip(0) =~= s@);
        scan_digits_exec(s, 0, 0, usize::MAX)
    }
}

/// Reads a signed decimal numeral as `str::parse::<isize>` does.
pub fn parse_isize(s: &Vec<char>) -> (r: Result<isize, DecimalError>)
    ensures
        match r {
            Ok(v) => parse_signed_decimal(s@) == Ok::<int, DecimalError>(v as int),
            Err(e) => parse_signed_decimal(s@) == Err::<int, DecimalError>(e),
        },
{
    if s.len() == 0 {
        return Err(DecimalError::Empty);
    }
    if (s[0] == '+' || s[0] == '-') && s.len() == 1 {
        return Err(DecimalError::InvalidDigit);
    }
    assert(s@.skip(1) =~= s@.drop_first());
    assert(s@.skip(0) =~= s@);
    if s[0] == '-' {
        let lim: usize = (isize::MAX as usize) + 1;
        match scan_digits_exec(s, 1, 0, lim) {
            Ok(v) => {
                if v == lim {
                    Ok(isize::MIN)
                } else {
                    Ok(-(v as isize))
                }
            },
            Err(DecimalError::PosOverflow) => Err(DecimalError::NegOverflow),
            Err(e) => Err(e),
        }
    } else {
        let from: usize = if s[0] == '+' {
            1
        } else {
            0
        };
        match scan_digits_exec(s, from, 0, isize::MAX as usize) {
            Ok(v) => Ok(v as isize),
            Err(e) => Err(e),
        }
    }
}

pub open spec fn digit_char(d: nat) -> char {
    ((48 + d) as u8) as char
}

/// The decimal numeral of `n`, without leading zeros.
pub open spec fn decimal(n: nat) -> Seq<char>
    decreases n,
{
    if n < 10 {
        seq![digit_char(n)]
    } else {
        decimal(n / 10).push(digit_char(n % 10))
    }
}

/// The decimal numeral of `n`.
pub fn decimal_chars(n: usize) -> (v: Vec<char>)
    ensures
        v@ == decimal(n as nat),
    decreases n,
{
    let d = ((n % 10) as u8 + 48u8) as char;
    if n < 10 {
        let mut v: Vec<char> = Vec::new();
        v.push(d);
        assert(v@ =~= seq![digit_char(n as nat)]);
        v
    } else {
        let mut v = decimal_chars(n / 10);
        v.push(d);
        v
    }
}

/// A natural number.
#[derive(Debug, Clone, Copy, PartialEq, Eq, Structural)]
pub struct Number(pub usize);

impl Number {
    pub open spec fn value(self) -> nat {
        self.0 as nat
    }

    pub fn zero() -> (r: Number)
        ensures
            r.value() == 0,
    {
        Number(0)
    }

    pub fn from_usize(n: usize) -> (r: Number)
        ensures
            r.value() == n,
    {
        Number(n)
    }

    pub fn as_usize(&self) -> (r: usize)
        ensures
            r == self.value(),
    {
        self.0
    }

    pub fn is_zero(&self) -> (b: bool)
        ensures
            b == (self.value() == 0),
    {
        self.0 == 0
    }

    /// `self + other`, or `None` where it passes `usize::MAX`.
    pub fn checked_plus(&self, other: &Number) -> (r: Option<Number>)
        ensures
            r matches Some(n) ==> n.value() == self.value() + other.value(),
            r is None <==> self.value() + other.value() > usize::MAX,
    {
        match self.0.checked_add(other.0) {
            Some(v) => Some(Number(v)),
            None => None,
        }
    }

    /// `self - other` on the naturals: zero where `other` is the larger.
    pub fn monus(&self, other: &Number) -> (r: Number)
        ensures
            r.value() == if self.value() >= other.value() {
                (self.value() - other.value()) as nat
            } else {
                0
            },
    {
        if self.0 >= other.0 {
            Number(self.0 - other.0)
        } else {
            Number(0)
        }
    }

    /// `self * other`, or `None` where it passes `usize::MAX`.
    pub fn checked_times(&self, other: &Number) -> (r: Option<Number>)
        ensures
            r matches Some(n) ==> n.value() == self.value() * other.value(),
            r is None <==> self.value() * other.value() > usize::MAX,
    {
        match self.0.checked_mul(other.0) {
            Some(v) => Some(Number(v)),
            None => None,
        }
    }

    pub fn less_than(&self, other: &Number) -> (b: bool)
        ensures
            b == (self.value() < other.value()),
    {
        self.0 < other.0
    }

    /// The decimal numeral of the number.
    pub fn to_decimal(&self) -> (v: Vec<char>)
        ensures
            v@ == decimal(self.value()),
    {
        decimal_chars(self.0)
    }

    /// Reads a decimal numeral.
    pub fn parse_chars(s: &Vec<char>) -> (r: Result<Number, DecimalError>)
        ensures
            match r {
                Ok(n) => parse_decimal(s@) == Ok::<nat, DecimalError>(n.value()),
                Err(e) => parse_decimal(s@) == Err::<nat, DecimalError>(e),
            },
    {
        match parse_usize(s) {
            Ok(v) => Ok(Number(v)),
            Err(e) => Err(e),
        }
    }
}


/// The numeral of a digit is a digit character with that value.
pub proof fn lemma_digit_char(d: nat)
    requires
        d < 10,
    ensures
        crate::text::is_digit(digit_char(d)),
        digit_of(digit_char(d)) == d,
        digit_char(d) != '+',
        digit_char(d) != '-',
{
    assert(((48 + d) as u8) as nat == 48 + d);
}

/// Scanning one more character continues from where the scan stopped.
proof fn lemma_scan_push(s: Seq<char>, c: char, acc: nat, limit: nat)
    ensures
        scan_digits_to(s.push(c), acc, limit) == match scan_digits_to(s, acc, limit) {
            Ok(v) => if !crate::text::is_digit(c) {
                Err(DecimalError::InvalidDigit)
            } else if v * 10 + digit_of(c) > limit {
                Err(DecimalError::PosOverflow)
            } else {
                Ok(v * 10 + digit_of(c))
            },
            Err(e) => Err(e),
        },
    decreases s.len(),
{
    if s.len() == 0 {
        assert(s.push(c).drop_first() =~= Seq::<char>::empty());
        assert(s.push(c)[0] == c);
        assert(scan_digits_to(Seq::<char>::empty(), acc * 10 + digit_of(c), limit) == Ok::<nat, DecimalError>(acc * 10 + digit_of(c)));
    } else {
        assert(s.push(c).drop_first() =~= s.drop_first().push(c));
        assert(s.push(c)[0] == s[0]);
        if crate::text::is_digit(s[0]) && acc * 10 + digit_of(s[0]) <= limit {
            lemma_scan_push(s.drop_first(), c, acc * 10 + digit_of(s[0]), limit);
        }
    }
}

/// The digits of `n`, read with a bound at least `n`, give `n`.
pub proof fn lemma_scan_decimal(n: nat, limit: nat)
    requires
        n <= limit,
    ensures
        scan_digits_to(decimal(n), 0, limit) == Ok::<nat, DecimalError>(n),
        decimal(n).len() > 0,
        crate::text::is_digit(decimal(n)[0]),
    decreases n,
{
    if n < 10 {
        lemma_digit_char(n);
        lemma_scan_push(Seq::<char>::empty(), digit_char(n), 0, limit);
        assert(seq![digit_char(n)] =~= Seq::<char>::empty().push(digit_char(n)));
    } else {
        lemma_scan_decimal(n / 10, limit);
        lemma_digit_char(n % 10);
        lemma_scan_push(decimal(n / 10), digit_char(n % 10), 0, limit);
        assert(decimal(n)[0] == decimal(n / 10)[0]);
    }
}

/// Reading the decimal numeral of a number gives the number back.
pub proof fn law_decimal_roundtrip(n: nat)
    requires
        n <= usize::MAX,
    ensures
        parse_decimal(decimal(n)) == Ok::<nat, DecimalError>(n),
{
    lemma_scan_decimal(n, usize::MAX as nat);
    lemma_digit_char(0);
    assert(decimal(n)[0] != '+');
}


/// The numeral of `n` starts and ends with a digit.
pub proof fn lemma_decimal_ends(n: nat)
    ensures
        decimal(n).len() > 0,
        crate::text::is_digit(decimal(n)[0]),
        crate::text::is_digit(decimal(n).last()),
        !crate::text::is_space(decimal(n)[0]),
        !crate::text::is_space(decimal(n).last()),
    decreases n,
{
    lemma_digit_char(n % 10);
    if n >= 10 {
        lemma_decimal_ends(n / 10);
        assert(decimal(n)[0] == decimal(n / 10)[0]);
    }
}


/// The numeral of a number is made of digits.
pub proof fn lemma_decimal_digits(n: nat)
    ensures
        decimal(n).len() > 0,
        forall|j: int| 0 <= j < decimal(n).len() ==> crate::text::is_digit(#[trigger] decimal(n)[j]),
    decreases n,
{
    lemma_digit_char(n % 10);
    if n >= 10 {
        lemma_decimal_digits(n / 10);
        let a = decimal(n / 10);
        assert forall|j: int| 0 <= j < decimal(n).len() implies crate::text::is_digit(#[trigger] decimal(n)[j]) by {
            if j < a.len() {
                assert(decimal(n)[j] == a[j]);
            }
        }
    }
}

} // verus!
