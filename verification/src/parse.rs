//! Decimal parsing of small unsigned integers, with the failure classes a
//! caller needs to tell apart and render.

use vstd::prelude::*;

verus! {

/// Why a string failed to parse as a `u8`.
#[derive(Clone, Copy, Debug, PartialEq, Eq, Structural)]
pub enum ParseError {
    /// The input was empty.
    Empty,
    /// A character that is not a decimal digit was found (a lone sign counts).
    InvalidDigit,
    /// The digits seen so far already exceed the greatest `u8` value.
    Overflow,
}

impl ParseError {
    /// The human-readable description of this failure.
    pub open spec fn message_spec(self) -> Seq<char> {
        match self {
            ParseError::Empty => "cannot parse integer from empty string"@,
            ParseError::InvalidDigit => "invalid digit found in string"@,
            ParseError::Overflow => "number too large to fit in target type"@,
        }
    }

    /// Render the failure as an owned message.
    pub fn message(&self) -> (r: String)
        ensures
            r@ == self.message_spec(),
    {
        match self {
            ParseError::Empty => "cannot parse integer from empty string".to_owned(),
            ParseError::InvalidDigit => "invalid digit found in string".to_owned(),
            ParseError::Overflow => "number too large to fit in target type".to_owned(),
        }
    }
}

/// Whether `c` is a decimal digit.
pub open spec fn is_dec_digit(c: char) -> bool {
    '0' as u32 <= c as u32 && c as u32 <= '9' as u32
}

/// The numeric value of the decimal digit `c`.
pub open spec fn digit_val(c: char) -> nat {
    (c as u32 - '0' as u32) as nat
}

/// Scan the digits of `s` left to right, extending the value accumulated so
/// far. The first offending character decides the failure: a non-digit gives
/// `InvalidDigit`; a digit that pushes the value past `u8::MAX` gives
/// `Overflow`, whatever follows it.
pub open spec fn scan_digits(s: Seq<char>, acc: nat) -> Result<u8, ParseError>
    decreases s.len(),
{
    if s.len() == 0 {
        Ok(acc as u8)
    } else if !is_dec_digit(s[0]) {
        Err(ParseError::InvalidDigit)
    } else if acc * 10 + digit_val(s[0]) > u8::MAX {
        Err(ParseError::Overflow)
    } else {
        scan_digits(s.subrange(1, s.len() as int), acc * 10 + digit_val(s[0]))
    }
}

/// What parsing a `u8` out of `s` yields: an optional leading `+`, then one
/// or more decimal digits whose value fits in a `u8`.
pub open spec fn parse_u8_spec(s: Seq<char>) -> Result<u8, ParseError> {
    if s.len() == 0 {
        Err(ParseError::Empty)
    } else if s[0] == '+' {
        if s.len() == 1 {
            Err(ParseError::InvalidDigit)
        } else {
            scan_digits(s.subrange(1, s.len() as int), 0)
        }
    } else {
        scan_digits(s, 0)
    }
}

/// Every character of `s` is a decimal digit.
pub open spec fn all_dec_digits(s: Seq<char>) -> bool {
    forall|i: int| 0 <= i < s.len() ==> is_dec_digit(#[trigger] s[i])
}

/// Ten to the `n`th power.
pub open spec fn pow10(n: nat) -> nat
    decreases n,
{
    if n == 0 {
        1
    } else {
        10 * pow10((n - 1) as nat)
    }
}

/// The positional value of the digit string `s`.
pub open spec fn dec_val(s: Seq<char>) -> nat
    decreases s.len(),
{
    if s.len() == 0 {
        0
    } else {
        digit_val(s[0]) * pow10((s.len() - 1) as nat) + dec_val(s.subrange(1, s.len() as int))
    }
}

/// The digit part of `s`: what follows an optional leading `+`.
pub open spec fn digits_of(s: Seq<char>) -> Seq<char> {
    if s.len() > 0 && s[0] == '+' {
        s.subrange(1, s.len() as int)
    } else {
        s
    }
}

proof fn lemma_pow10_pos(n: nat)
    ensures
        pow10(n) >= 1,
    decreases n,
{
    if n > 0 {
        lemma_pow10_pos((n - 1) as nat);
    }
}

/// The scan computes the positional value: starting from `acc`, it returns
/// `Ok(v)` exactly when every character is a digit and the value
/// `acc * pow10(d.len()) + dec_val(d)` fits in a `u8`, and `v` is that
/// value.
proof fn lemma_scan_digits_value(d: Seq<char>, acc: nat, v: u8)
    requires
        acc <= u8::MAX,
    ensures
        scan_digits(d, acc) == Ok::<u8, ParseError>(v) <==> (all_dec_digits(d) && acc * pow10(
            d.len(),
        ) + dec_val(d) <= u8::MAX && v as nat == acc * pow10(d.len()) + dec_val(d)),
    decreases d.len(),
{
    if d.len() == 0 {
        assert(acc * pow10(0) + dec_val(d) == acc);
    } else {
        let c = d[0];
        let rest = d.subrange(1, d.len() as int);
        lemma_pow10_pos(rest.len());
        assert(pow10(d.len()) == 10 * pow10(rest.len()));
        if !is_dec_digit(c) {
            assert(!all_dec_digits(d));
        } else {
            let dv = digit_val(c);
            assert(dv <= 9);
            assert(all_dec_digits(d) <==> all_dec_digits(rest)) by {
                if all_dec_digits(rest) {
                    assert forall|i: int| 0 <= i < d.len() implies is_dec_digit(#[trigger] d[i]) by {
                        if i > 0 {
                            assert(d[i] == rest[i - 1]);
                        }
                    }
                }
            }
            if acc * 10 + dv > u8::MAX {
                assert(acc * pow10(d.len()) + dec_val(d) >= acc * 10 + dv) by (nonlinear_arith)
                    requires
                        pow10(d.len()) == 10 * pow10(rest.len()),
                        pow10(rest.len()) >= 1,
                        dec_val(d) == dv * pow10(rest.len()) + dec_val(rest),
                        acc >= 0,
                        dv >= 0,
                ;
            } else {
                lemma_scan_digits_value(rest, acc * 10 + dv, v);
                assert((acc * 10 + dv) * pow10(rest.len()) + dec_val(rest) == acc * pow10(d.len())
                    + dec_val(d)) by (nonlinear_arith)
                    requires
                        pow10(d.len()) == 10 * pow10(rest.len()),
                        dec_val(d) == dv * pow10(rest.len()) + dec_val(rest),
                ;
            }
        }
    }
}

/// Parsing succeeds exactly on an optional leading `+` followed by one or
/// more decimal digits whose positional value fits in a `u8`, and the value
/// returned is that positional value.
pub proof fn lemma_parse_u8_spec_ok(s: Seq<char>, v: u8)
    ensures
        parse_u8_spec(s) == Ok::<u8, ParseError>(v) <==> (digits_of(s).len() > 0 && all_dec_digits(
            digits_of(s),
        ) && dec_val(digits_of(s)) <= u8::MAX && v as nat == dec_val(digits_of(s))),
{
    if s.len() == 0 {
    } else if s[0] == '+' {
        if s.len() > 1 {
            lemma_scan_digits_value(s.subrange(1, s.len() as int), 0, v);
        }
    } else {
        lemma_scan_digits_value(s, 0, v);
    }
}

/// Parse `s` as a decimal `u8`: an optional leading `+`, then decimal
/// digits. Exactly the grammar and failure classes of `parse_u8_spec`.
pub fn parse_u8(s: &str) -> (r: Result<u8, ParseError>)
    ensures
        r == parse_u8_spec(s@),
{
    let n = s.unicode_len();
    if n == 0 {
        return Err(ParseError::Empty);
    }
    let first = s.get_char(0);
    let start: usize = if first == '+' {
        1
    } else {
        0
    };
    if start == n {
        return Err(ParseError::InvalidDigit);
    }
    proof {
        assert(s@.subrange(0, n as int) =~= s@);
    }
    let mut acc: u16 = 0;
    let mut i: usize = start;
    while i < n
        invariant
            start <= i <= n,
            n == s@.len(),
            acc <= u8::MAX,
            parse_u8_spec(s@) == scan_digits(s@.subrange(i as int, n as int), acc as nat),
        decreases n - i,
    {
        let c = s.get_char(i);
        let cv: u32 = c as u32;
        let ghost rest = s@.subrange(i as int, n as int);
        proof {
            assert(rest[0] == s@[i as int]);
        }
        if cv < ('0' as u32) || cv > ('9' as u32) {
            return Err(ParseError::InvalidDigit);
        }
        let d: u16 = (cv - '0' as u32) as u16;
        if acc * 10 + d > u8::MAX as u16 {
            return Err(ParseError::Overflow);
        }
        acc = acc * 10 + d;
        i = i + 1;
        proof {
            assert(rest.subrange(1, rest.len() as int) =~= s@.subrange(i as int, n as int));
        }
    }
    proof {
        assert(s@.subrange(i as int, n as int) =~= Seq::<char>::empty());
    }
    Ok(acc as u8)
}

} // verus!
