//! Decimal numbers as the protocol reads and writes them.
use vstd::prelude::*;

verus! {

/// Why a decimal number was refused; the kinds that Rust's unsigned
/// integer parsing reports.
#[derive(Debug, Clone, Copy, PartialEq, Eq, Structural)]
pub enum NumberError {
    /// The text is empty.
    Empty,
    /// A character is not a decimal digit (or a lone sign was given).
    InvalidDigit,
    /// The value does not fit the target type.
    Overflow,
}

pub open spec fn is_digit(c: char) -> bool {
    '0' <= c <= '9'
}

pub open spec fn digit_value(c: char) -> nat {
    (c as u32 - 48) as nat
}

/// Reads the digits `d` left to right after `acc`, failing at the first
/// character that is no digit, or at the first digit after which the value
/// exceeds `max`.
pub open spec fn scan_digits(d: Seq<char>, acc: nat, max: nat) -> Result<nat, NumberError>
    decreases d.len(),
{
    if d.len() == 0 {
        Ok(acc)
    } else if !is_digit(d[0]) {
        Err(NumberError::InvalidDigit)
    } else if acc * 10 + digit_value(d[0]) > max {
        Err(NumberError::Overflow)
    } else {
        scan_digits(d.drop_first(), acc * 10 + digit_value(d[0]), max)
    }
}

/// An unsigned decimal number no greater than `max`, as `str::parse` reads
/// one for an unsigned integer type: an optional `+`, then the digits.
pub open spec fn parse_unsigned(s: Seq<char>, max: nat) -> Result<nat, NumberError> {
    if s.len() == 0 {
        Err(NumberError::Empty)
    } else if s.len() == 1 && (s[0] == '+' || s[0] == '-') {
        Err(NumberError::InvalidDigit)
    } else if s[0] == '+' {
        scan_digits(s.drop_first(), 0, max)
    } else {
        scan_digits(s, 0, max)
    }
}

proof fn lemma_scan_bound(d: Seq<char>, acc: nat, max: nat)
    requires
        acc <= max,
    ensures
        scan_digits(d, acc, max) matches Ok(v) ==> v <= max,
    decreases d.len(),
{
    if d.len() > 0 && is_digit(d[0]) && acc * 10 + digit_value(d[0]) <= max {
        lemma_scan_bound(d.drop_first(), acc * 10 + digit_value(d[0]), max);
    }
}

/// The value of `s` read as an unsigned decimal number no greater than `max`.
pub fn parse_decimal(s: &[char], max: u64) -> (res: Result<u64, NumberError>)
    ensures
        match (res, parse_unsigned(s@, max as nat)) {
            (Ok(v), Ok(w)) => v == w,
            (Err(e), Err(f)) => e == f,
            _ => false,
        },
        res matches Ok(v) ==> v <= max,
{
    let n = s.len();
    if n == 0 {
        return Err(NumberError::Empty);
    }
    if n == 1 && (s[0] == '+' || s[0] == '-') {
        return Err(NumberError::InvalidDigit);
    }
    let mut i: usize = if s[0] == '+' { 1 } else { 0 };
    let mut acc: u64 = 0;
    assert(s@.skip(1) =~= s@.drop_first());
    assert(s@.skip(0) =~= s@);
    while i < n
        invariant
            n == s@.len(),
            i <= n,
            acc <= max,
            parse_unsigned(s@, max as nat) == scan_digits(s@.skip(i as int), acc as nat, max as nat),
        decreases n - i,
    {
        let c = s[i];
        assert(s@.skip(i as int)[0] == c);
        assert(s@.skip(i as int).drop_first() =~= s@.skip(i + 1));
        if !('0' <= c && c <= '9') {
            return Err(NumberError::InvalidDigit);
        }
        let dv: u64 = (c as u32 - 48) as u64;
        let v: u128 = acc as u128 * 10 + dv as u128;
        if v > max as u128 {
            return Err(NumberError::Overflow);
        }
        acc = v as u64;
        i = i + 1;
    }
    assert(s@.skip(n as int).len() == 0);
    Ok(acc)
}

/// The decimal digits of `n`, most significant first, as ASCII bytes.
pub open spec fn decimal(n: nat) -> Seq<u8>
    decreases n,
{
    if n < 10 {
        seq![(48 + n) as u8]
    } else {
        decimal(n / 10).push((48 + n % 10) as u8)
    }
}

/// Appends the decimal digits of `n` to `out`.
pub fn push_decimal(out: &mut Vec<u8>, n: u64)
    ensures
        final(out)@ == old(out)@ + decimal(n as nat),
{
    let mut digits: Vec<u8> = Vec::new();
    let mut m: u64 = n;
    // digits holds the low digits of n, least significant first
    while m >= 10
        invariant
            m <= n,
            decimal(n as nat) == decimal(m as nat) + digits@.reverse(),
        decreases m,
    {
        let d: u8 = (48 + m % 10) as u8;
        proof {
            assert(decimal(m as nat) == decimal((m / 10) as nat).push(d));
            assert(digits@.push(d).reverse() =~= seq![d] + digits@.reverse());
            assert(decimal((m / 10) as nat).push(d) + digits@.reverse() =~= decimal(
                (m / 10) as nat,
            ) + digits@.push(d).reverse());
        }
        digits.push(d);
        m = m / 10;
    }
    let first: u8 = (48 + m) as u8;
    let ghost before = out@;
    out.push(first);
    assert(decimal(m as nat) =~= seq![first]);
    let mut k: usize = digits.len();
    while k > 0
        invariant
            k <= digits.len(),
            out@ == before + decimal(m as nat) + digits@.subrange(k as int, digits.len() as int).reverse(),
            decimal(n as nat) == decimal(m as nat) + digits@.reverse(),
        decreases k,
    {
        k = k - 1;
        let ghost prev = out@;
        out.push(digits[k]);
        assert(digits@.subrange(k as int, digits.len() as int).reverse() =~= digits@.subrange(
            k + 1,
            digits.len() as int,
        ).reverse().push(digits@[k as int]));
    }
    assert(digits@.subrange(0, digits.len() as int) =~= digits@);
    assert(out@ =~= before + decimal(n as nat));
}

/// ASCII bytes as characters.
pub open spec fn ascii_chars(b: Seq<u8>) -> Seq<char> {
    b.map_values(|x: u8| x as char)
}

/// One step of `scan_digits`: the digit `c` after the value `v`.
pub open spec fn scan_step(v: nat, c: char, max: nat) -> Result<nat, NumberError> {
    if !is_digit(c) {
        Err(NumberError::InvalidDigit)
    } else if v * 10 + digit_value(c) > max {
        Err(NumberError::Overflow)
    } else {
        Ok(v * 10 + digit_value(c))
    }
}

proof fn lemma_scan_push(d: Seq<char>, c: char, acc: nat, max: nat)
    ensures
        scan_digits(d.push(c), acc, max) == match scan_digits(d, acc, max) {
            Ok(v) => scan_step(v, c, max),
            Err(e) => Err(e),
        },
    decreases d.len(),
{
    if d.len() == 0 {
        assert(d.push(c).drop_first() =~= Seq::<char>::empty());
        assert(d.push(c)[0] == c);
        if is_digit(c) && acc * 10 + digit_value(c) <= max {
            assert(scan_digits(Seq::<char>::empty(), acc * 10 + digit_value(c), max) == Ok::<
                nat,
                NumberError,
            >(acc * 10 + digit_value(c)));
        }
    } else {
        assert(d.push(c).drop_first() =~= d.drop_first().push(c));
        assert(d.push(c)[0] == d[0]);
        if is_digit(d[0]) && acc * 10 + digit_value(d[0]) <= max {
            lemma_scan_push(d.drop_first(), c, acc * 10 + digit_value(d[0]), max);
        }
    }
}

proof fn lemma_digit_char(k: nat)
    requires
        k < 10,
    ensures
        is_digit(((48 + k) as u8) as char),
        digit_value(((48 + k) as u8) as char) == k,
{
    let b = (48 + k) as u8;
    assert(b as nat == 48 + k);
    assert((b as char) as u32 == b as u32);
}

proof fn lemma_decimal_reads_back(n: nat, max: nat)
    requires
        n <= max,
    ensures
        scan_digits(ascii_chars(decimal(n)), 0, max) == Ok::<nat, NumberError>(n),
        ascii_chars(decimal(n)).len() > 0,
        is_digit(ascii_chars(decimal(n))[0]),
    decreases n,
{
    if n < 10 {
        lemma_digit_char(n);
        let s = ascii_chars(decimal(n));
        assert(s =~= seq![((48 + n) as u8) as char]);
        assert(s.drop_first() =~= Seq::<char>::empty());
        assert(scan_digits(s.drop_first(), n, max) == Ok::<nat, NumberError>(n));
        assert(scan_digits(s, 0, max) == scan_digits(s.drop_first(), 0 * 10 + n, max));
    } else {
        let q = n / 10;
        let r = n % 10;
        lemma_decimal_reads_back(q, max);
        lemma_digit_char(r);
        let c = ((48 + r) as u8) as char;
        assert(ascii_chars(decimal(n)) =~= ascii_chars(decimal(q)).push(c));
        lemma_scan_push(ascii_chars(decimal(q)), c, 0, max);
        assert(q * 10 + r == n);
        assert(scan_step(q, c, max) == Ok::<nat, NumberError>(n));
    }
}

/// A number written in decimal reads back as the same number.
pub proof fn law_decimal_reads_back(n: nat, max: nat)
    requires
        n <= max,
    ensures
        parse_unsigned(ascii_chars(decimal(n)), max) == Ok::<nat, NumberError>(n),
{
    lemma_decimal_reads_back(n, max);
}

} // verus!
