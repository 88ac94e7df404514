use vstd::prelude::*;

verus! {

/// The kind of a failure to read a decimal `u32`: the kinds that
/// `u32::from_str` can report.
#[derive(Clone, Copy, Debug, PartialEq, Eq, Structural)]
pub enum IntErrorKind {
    /// The text is empty.
    Empty,
    /// A character that is not a decimal digit, or a lone `+`.
    InvalidDigit,
    /// The number does not fit in a `u32`.
    PosOverflow,
}

/// The error of reading a decimal `u32`, as std's `ParseIntError`: a
/// value that holds its kind.
#[derive(Clone, Copy, Debug, PartialEq, Eq, Structural)]
pub struct ParseIntError {
    kind: IntErrorKind,
}

impl View for ParseIntError {
    type V = IntErrorKind;

    closed spec fn view(&self) -> IntErrorKind {
        self.kind
    }
}

/// The text that `ParseIntError`'s `Display` writes for each kind.
pub open spec fn parse_error_text(k: IntErrorKind) -> Seq<char> {
    match k {
        IntErrorKind::Empty => "cannot parse integer from empty string"@,
        IntErrorKind::InvalidDigit => "invalid digit found in string"@,
        IntErrorKind::PosOverflow => "number too large to fit in target type"@,
    }
}

impl ParseIntError {
    fn from_kind(kind: IntErrorKind) -> (r: Self)
        ensures
            r@ == kind,
    {
        ParseIntError { kind }
    }

    /// The kind of this error.
    pub fn kind(&self) -> (r: IntErrorKind)
        ensures
            r == self@,
    {
        self.kind
    }

    /// The message that describes this error.
    pub fn message(&self) -> (r: &'static str)
        ensures
            r@ == parse_error_text(self@),
    {
        match self.kind {
            IntErrorKind::Empty => "cannot parse integer from empty string",
            IntErrorKind::InvalidDigit => "invalid digit found in string",
            IntErrorKind::PosOverflow => "number too large to fit in target type",
        }
    }
}

pub open spec fn is_digit(c: char) -> bool {
    '0' <= c && c <= '9'
}

pub open spec fn digit_value(c: char) -> nat {
    (c as int - '0' as int) as nat
}

pub open spec fn digit_char(d: nat) -> char {
    (d + '0' as int) as char
}

/// Reads `ds` from left to right: its value as a decimal number, or the
/// first problem met on the way (a non-digit, or a prefix whose value
/// exceeds `u32::MAX`).
pub open spec fn scan_digits(ds: Seq<char>) -> Result<nat, IntErrorKind>
    decreases ds.len(),
{
    if ds.len() == 0 {
        Ok(0)
    } else {
        match scan_digits(ds.drop_last()) {
            Err(e) => Err(e),
            Ok(v) => if !is_digit(ds.last()) {
                Err(IntErrorKind::InvalidDigit)
            } else if v * 10 + digit_value(ds.last()) > u32::MAX {
                Err(IntErrorKind::PosOverflow)
            } else {
                Ok(v * 10 + digit_value(ds.last()))
            },
        }
    }
}

/// What `u32::from_str` gives for the text `s`: an optional `+` and then
/// one or more decimal digits whose value fits in a `u32`.
pub open spec fn parse_u32_spec(s: Seq<char>) -> Result<u32, IntErrorKind> {
    if s.len() == 0 {
        Err(IntErrorKind::Empty)
    } else {
        let ds = if s[0] == '+' { s.drop_first() } else { s };
        if ds.len() == 0 {
            Err(IntErrorKind::InvalidDigit)
        } else {
            match scan_digits(ds) {
                Ok(v) => Ok(v as u32),
                Err(e) => Err(e),
            }
        }
    }
}

/// The decimal digits of `n`, without leading zeros.
pub open spec fn decimal(n: nat) -> Seq<char>
    decreases n,
{
    if n < 10 {
        seq![digit_char(n)]
    } else {
        decimal(n / 10).push(digit_char(n % 10))
    }
}

proof fn lemma_digit_char(d: nat)
    requires
        d < 10,
    ensures
        is_digit(digit_char(d)),
        digit_value(digit_char(d)) == d,
{
}


/// Once a prefix of `ds` fails to scan, all of `ds` fails the same way.
proof fn lemma_scan_error_persists(ds: Seq<char>, k: int)
    requires
        0 <= k <= ds.len(),
        scan_digits(ds.take(k)) is Err,
    ensures
        scan_digits(ds) == scan_digits(ds.take(k)),
    decreases ds.len() - k,
{
    if k == ds.len() {
        assert(ds.take(k) =~= ds);
    } else {
        assert(ds.take(k + 1).drop_last() =~= ds.take(k));
        lemma_scan_error_persists(ds, k + 1);
    }
}

/// Reads a decimal `u32` from `s` as `u32::from_str` does.
pub fn parse_u32(s: &str) -> (r: Result<u32, ParseIntError>)
    ensures
        match r {
            Ok(v) => parse_u32_spec(s@) == Ok::<u32, IntErrorKind>(v),
            Err(e) => parse_u32_spec(s@) == Err::<u32, IntErrorKind>(e@),
        },
{
    let n = s.unicode_len();
    if n == 0 {
        return Err(ParseIntError::from_kind(IntErrorKind::Empty));
    }
    let start: usize = if s.get_char(0) == '+' { 1 } else { 0 };
    if start == n {
        return Err(ParseIntError::from_kind(IntErrorKind::InvalidDigit));
    }
    let ghost ds = if s@[0] == '+' { s@.drop_first() } else { s@ };
    assert(ds =~= s@.subrange(start as int, n as int));
    let mut acc: u64 = 0;
    let mut i: usize = start;
    assert(ds.take(0) =~= Seq::<char>::empty());
    while i < n
        invariant
            start <= i <= n,
            n == s@.len(),
            ds == s@.subrange(start as int, n as int),
            ds == (if s@[0] == '+' { s@.drop_first() } else { s@ }),
            ds.len() > 0,
            acc <= u32::MAX,
            scan_digits(ds.take(i - start)) == Ok::<nat, IntErrorKind>(acc as nat),
        decreases n - i,
    {
        let c = s.get_char(i);
        let ghost k = i - start;
        assert(ds.take(k + 1).drop_last() =~= ds.take(k));
        assert(ds.take(k + 1).last() == c);
        if !(c >= '0' && c <= '9') {
            proof {
                lemma_scan_error_persists(ds, k + 1);
            }
            return Err(ParseIntError::from_kind(IntErrorKind::InvalidDigit));
        }
        let d: u64 = (c as u32 - '0' as u32) as u64;
        let next: u64 = acc * 10 + d;
        if next > 4294967295u64 {
            proof {
                lemma_scan_error_persists(ds, k + 1);
            }
            return Err(ParseIntError::from_kind(IntErrorKind::PosOverflow));
        }
        acc = next;
        i = i + 1;
    }
    assert(ds.take(n - start) =~= ds);
    Ok(acc as u32)
}


/// The one-character text of the digit `d`.
fn digit_str(d: u32) -> (r: &'static str)
    requires
        d < 10,
    ensures
        r@ == seq![digit_char(d as nat)],
{
    proof {
        reveal_strlit("0");
        reveal_strlit("1");
        reveal_strlit("2");
        reveal_strlit("3");
        reveal_strlit("4");
        reveal_strlit("5");
        reveal_strlit("6");
        reveal_strlit("7");
        reveal_strlit("8");
        reveal_strlit("9");
    }
    let r = match d {
        0 => "0",
        1 => "1",
        2 => "2",
        3 => "3",
        4 => "4",
        5 => "5",
        6 => "6",
        7 => "7",
        8 => "8",
        _ => "9",
    };
    assert(r@ =~= seq![digit_char(d as nat)]);
    r
}

/// Appends the decimal digits of `n` to `out`, as `{}` formats a `u32`.
pub fn push_decimal(out: &mut String, n: u32)
    ensures
        final(out)@ == old(out)@ + decimal(n as nat),
    decreases n,
{
    if n >= 10 {
        push_decimal(out, n / 10);
    }
    out.append(digit_str(n % 10));
    assert(out@ =~= old(out)@ + decimal(n as nat));
}


/// Every character of `decimal(n)` is a digit, and there is at least one.
pub proof fn lemma_decimal_is_digits(n: nat)
    ensures
        decimal(n).len() > 0,
        forall|i: int| 0 <= i < decimal(n).len() ==> is_digit(#[trigger] decimal(n)[i]),
        n > 0 ==> decimal(n)[0] != '0',
    decreases n,
{
    if n >= 10 {
        lemma_decimal_is_digits(n / 10);
        lemma_digit_char(n % 10);
        assert(decimal(n)[0] == decimal(n / 10)[0]);
    } else {
        lemma_digit_char(n);
    }
}

proof fn lemma_scan_decimal(n: nat)
    requires
        n <= u32::MAX,
    ensures
        scan_digits(decimal(n)) == Ok::<nat, IntErrorKind>(n),
    decreases n,
{
    if n < 10 {
        lemma_digit_char(n);
        assert(decimal(n).drop_last() =~= Seq::<char>::empty());
        assert(scan_digits(Seq::<char>::empty()) == Ok::<nat, IntErrorKind>(0));
    } else {
        lemma_scan_decimal(n / 10);
        lemma_digit_char(n % 10);
        assert(decimal(n).drop_last() =~= decimal(n / 10));
        assert(decimal(n).last() == digit_char(n % 10));
        assert((n / 10) * 10 + n % 10 == n);
    }
}

/// Reading back the digits that `{}` writes for a `u32` gives the same
/// number.
pub proof fn lemma_parse_decimal(n: u32)
    ensures
        parse_u32_spec(decimal(n as nat)) == Ok::<u32, IntErrorKind>(n),
{
    lemma_decimal_is_digits(n as nat);
    lemma_scan_decimal(n as nat);
    assert(is_digit(decimal(n as nat)[0]));
}


/// `k` characters `'0'`.
pub open spec fn zeros(k: nat) -> Seq<char> {
    Seq::new(k, |i: int| '0')
}

/// The optional sign in front of the digits: `"+"` or nothing.
pub open spec fn sign(plus: bool) -> Seq<char> {
    if plus { seq!['+'] } else { Seq::empty() }
}

proof fn lemma_scan_zeros(k: nat)
    ensures
        scan_digits(zeros(k)) == Ok::<nat, IntErrorKind>(0),
    decreases k,
{
    if k > 0 {
        assert(zeros(k).drop_last() =~= zeros((k - 1) as nat));
        lemma_scan_zeros((k - 1) as nat);
        lemma_digit_char(0);
        assert(zeros(k).last() == digit_char(0));
    } else {
        assert(zeros(k) =~= Seq::<char>::empty());
    }
}

proof fn lemma_scan_leading_zeros(k: nat, t: Seq<char>)
    ensures
        scan_digits(zeros(k) + t) == scan_digits(t),
    decreases t.len(),
{
    if t.len() == 0 {
        assert(zeros(k) + t =~= zeros(k));
        lemma_scan_zeros(k);
    } else {
        assert((zeros(k) + t).drop_last() =~= zeros(k) + t.drop_last());
        assert((zeros(k) + t).last() == t.last());
        lemma_scan_leading_zeros(k, t.drop_last());
    }
}

proof fn lemma_scan_decimal_any(n: nat)
    ensures
        scan_digits(decimal(n)) == (if n <= u32::MAX {
            Ok::<nat, IntErrorKind>(n)
        } else {
            Err::<nat, IntErrorKind>(IntErrorKind::PosOverflow)
        }),
    decreases n,
{
    if n < 10 {
        lemma_scan_decimal(n);
    } else {
        lemma_scan_decimal_any(n / 10);
        lemma_digit_char(n % 10);
        assert(decimal(n).drop_last() =~= decimal(n / 10));
        assert(decimal(n).last() == digit_char(n % 10));
        assert((n / 10) * 10 + n % 10 == n);
    }
}

proof fn lemma_scan_ok_is_digits(ds: Seq<char>)
    requires
        scan_digits(ds) is Ok,
    ensures
        forall|i: int| 0 <= i < ds.len() ==> is_digit(#[trigger] ds[i]),
    decreases ds.len(),
{
    if ds.len() > 0 {
        lemma_scan_ok_is_digits(ds.drop_last());
        assert forall|i: int| 0 <= i < ds.len() implies is_digit(#[trigger] ds[i]) by {
            if i < ds.len() - 1 {
                assert(ds[i] == ds.drop_last()[i]);
            }
        }
    }
}

/// The empty text holds no number.
pub proof fn lemma_parse_u32_empty()
    ensures
        parse_u32_spec(Seq::empty()) == Err::<u32, IntErrorKind>(IntErrorKind::Empty),
{
}

/// An optional `+`, any number of leading zeros and then the decimal
/// digits of a `u32` read as that `u32`.
pub proof fn lemma_parse_u32_accepts(n: u32, k: nat, plus: bool)
    ensures
        parse_u32_spec(sign(plus) + zeros(k) + decimal(n as nat)) == Ok::<u32, IntErrorKind>(n),
{
    let s = sign(plus) + zeros(k) + decimal(n as nat);
    let ds = zeros(k) + decimal(n as nat);
    lemma_decimal_is_digits(n as nat);
    lemma_scan_decimal(n as nat);
    lemma_scan_leading_zeros(k, decimal(n as nat));
    if plus {
        assert(s[0] == '+');
        assert(s.drop_first() =~= ds);
    } else {
        assert(s =~= ds);
        if k > 0 {
            assert(s[0] == '0');
        } else {
            assert(s[0] == decimal(n as nat)[0]);
        }
    }
}

/// Digits whose value is above `u32::MAX` are an overflow, whatever the
/// sign and the leading zeros.
pub proof fn lemma_parse_u32_overflow(n: nat, k: nat, plus: bool)
    requires
        n > u32::MAX,
    ensures
        parse_u32_spec(sign(plus) + zeros(k) + decimal(n)) == Err::<u32, IntErrorKind>(
            IntErrorKind::PosOverflow,
        ),
{
    let s = sign(plus) + zeros(k) + decimal(n);
    let ds = zeros(k) + decimal(n);
    lemma_decimal_is_digits(n);
    lemma_scan_decimal_any(n);
    lemma_scan_leading_zeros(k, decimal(n));
    if plus {
        assert(s[0] == '+');
        assert(s.drop_first() =~= ds);
    } else {
        assert(s =~= ds);
        if k > 0 {
            assert(s[0] == '0');
        } else {
            assert(s[0] == decimal(n)[0]);
        }
    }
}

/// A character that is not a digit, after a number that fits, makes the
/// text invalid, whatever follows it.
pub proof fn lemma_parse_u32_rejects_after_digits(
    n: u32,
    k: nat,
    plus: bool,
    c: char,
    rest: Seq<char>,
)
    requires
        !is_digit(c),
    ensures
        parse_u32_spec(sign(plus) + zeros(k) + decimal(n as nat) + seq![c] + rest) == Err::<
            u32,
            IntErrorKind,
        >(IntErrorKind::InvalidDigit),
{
    let s = sign(plus) + zeros(k) + decimal(n as nat) + seq![c] + rest;
    let ds = zeros(k) + decimal(n as nat) + seq![c] + rest;
    let p = zeros(k) + decimal(n as nat) + seq![c];
    lemma_decimal_is_digits(n as nat);
    lemma_scan_decimal(n as nat);
    lemma_scan_leading_zeros(k, decimal(n as nat));
    assert(p.drop_last() =~= zeros(k) + decimal(n as nat));
    assert(p.last() == c);
    assert(ds.take(p.len() as int) =~= p);
    lemma_scan_error_persists(ds, p.len() as int);
    if plus {
        assert(s[0] == '+');
        assert(s.drop_first() =~= ds);
    } else {
        assert(s =~= ds);
        if k > 0 {
            assert(s[0] == '0');
        } else {
            assert(s[0] == decimal(n as nat)[0]);
        }
    }
}

/// A character that is neither a digit nor the sign, where the digits
/// should start, makes the text invalid, whatever follows it.
pub proof fn lemma_parse_u32_rejects_at_start(plus: bool, c: char, rest: Seq<char>)
    requires
        !is_digit(c),
        plus || c != '+',
    ensures
        parse_u32_spec(sign(plus) + seq![c] + rest) == Err::<u32, IntErrorKind>(
            IntErrorKind::InvalidDigit,
        ),
{
    let s = sign(plus) + seq![c] + rest;
    let ds = seq![c] + rest;
    assert(ds.take(1).drop_last() =~= Seq::<char>::empty());
    assert(ds.take(1).last() == c);
    assert(scan_digits(Seq::<char>::empty()) == Ok::<nat, IntErrorKind>(0));
    assert(scan_digits(ds.take(1)) == Err::<nat, IntErrorKind>(IntErrorKind::InvalidDigit));
    lemma_scan_error_persists(ds, 1);
    if plus {
        assert(s[0] == '+');
        assert(s.drop_first() =~= ds);
    } else {
        assert(s =~= ds);
        assert(s[0] == c);
    }
}

/// A `+` alone is invalid.
pub proof fn lemma_parse_u32_lone_plus()
    ensures
        parse_u32_spec(seq!['+']) == Err::<u32, IntErrorKind>(IntErrorKind::InvalidDigit),
{
    assert(seq!['+'].drop_first() =~= Seq::<char>::empty());
}

/// Only an optional `+` followed by one or more digits reads as a number.
pub proof fn lemma_parse_u32_only_digits(s: Seq<char>)
    requires
        parse_u32_spec(s) is Ok,
    ensures
        s.len() > 0,
        s[0] == '+' ==> s.len() > 1,
        forall|i: int| 0 < i < s.len() ==> is_digit(#[trigger] s[i]),
        s[0] != '+' ==> is_digit(s[0]),
{
    let ds = if s[0] == '+' { s.drop_first() } else { s };
    lemma_scan_ok_is_digits(ds);
    assert forall|i: int| 0 < i < s.len() implies is_digit(#[trigger] s[i]) by {
        if s[0] == '+' {
            assert(s[i] == ds[i - 1]);
        } else {
            assert(s[i] == ds[i]);
        }
    }
    if s[0] != '+' {
        assert(s[0] == ds[0]);
    }
}

} // verus!
