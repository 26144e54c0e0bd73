//! Decimal formatting and parsing of `u64`, and lower-case hexadecimal
//! encoding of bytes, specified over `Seq<char>`.

use vstd::prelude::*;
use crate::text::{chars_of, owned, string_of};

verus! {

/// The character of a decimal digit value.
pub open spec fn digit_char(d: int) -> char {
    if d == 0 { '0' } else if d == 1 { '1' } else if d == 2 { '2' } else if d == 3 { '3' }
    else if d == 4 { '4' } else if d == 5 { '5' } else if d == 6 { '6' } else if d == 7 { '7' }
    else if d == 8 { '8' } else { '9' }
}

/// Whether `c` is an ASCII decimal digit.
pub open spec fn is_digit(c: char) -> bool {
    '0' <= c && c <= '9'
}

/// The value of an ASCII decimal digit.
pub open spec fn digit_value(c: char) -> int {
    (c as int) - ('0' as int)
}

/// The shortest decimal representation of `n`, without sign or leading zeros.
pub open spec fn decimal(n: nat) -> Seq<char>
    decreases n,
{
    if n < 10 {
        seq![digit_char(n as int)]
    } else {
        decimal(n / 10).push(digit_char((n % 10) as int))
    }
}

/// Why a text is not the decimal representation of a `u64`.
#[derive(Debug, Clone, Copy, PartialEq, Eq, Structural)]
pub enum IntParseIssue {
    /// The text is empty.
    Empty,
    /// The text holds a character that is not a decimal digit.
    InvalidDigit,
    /// The value does not fit in a `u64`.
    PosOverflow,
}

/// Reads the decimal digits of `s` from position `i` on, onto the value
/// `acc` of the digits before them, failing at the first character that is
/// not a digit or at the first digit that takes the value past `u64::MAX`.
pub open spec fn scan_digits(s: Seq<char>, i: int, acc: int) -> Result<u64, IntParseIssue>
    decreases s.len() - i,
{
    if i < 0 || i >= s.len() {
        Ok(acc as u64)
    } else if !is_digit(s[i]) {
        Err(IntParseIssue::InvalidDigit)
    } else if acc * 10 + digit_value(s[i]) > u64::MAX {
        Err(IntParseIssue::PosOverflow)
    } else {
        scan_digits(s, i + 1, acc * 10 + digit_value(s[i]))
    }
}

/// What parsing `s` as a `u64` gives, as `str::parse::<u64>` documents it:
/// an optional `+`, then at least one decimal digit, with a value that fits.
pub open spec fn parse_u64_spec(s: Seq<char>) -> Result<u64, IntParseIssue> {
    if s.len() == 0 {
        Err(IntParseIssue::Empty)
    } else if s[0] == '+' {
        if s.len() == 1 {
            Err(IntParseIssue::InvalidDigit)
        } else {
            scan_digits(s, 1, 0)
        }
    } else {
        scan_digits(s, 0, 0)
    }
}

/// The message that `ParseIntError` displays for each issue.
pub open spec fn int_parse_issue_message(e: IntParseIssue) -> Seq<char> {
    match e {
        IntParseIssue::Empty => "cannot parse integer from empty string"@,
        IntParseIssue::InvalidDigit => "invalid digit found in string"@,
        IntParseIssue::PosOverflow => "number too large to fit in target type"@,
    }
}

/// The message of a parse issue.
pub fn int_parse_issue_text(e: IntParseIssue) -> (r: String)
    ensures
        r@ == int_parse_issue_message(e),
{
    match e {
        IntParseIssue::Empty => owned("cannot parse integer from empty string"),
        IntParseIssue::InvalidDigit => owned("invalid digit found in string"),
        IntParseIssue::PosOverflow => owned("number too large to fit in target type"),
    }
}

fn digit_to_char(d: u64) -> (c: char)
    requires
        d < 10,
    ensures
        c == digit_char(d as int),
{
    if d == 0 { '0' } else if d == 1 { '1' } else if d == 2 { '2' } else if d == 3 { '3' }
    else if d == 4 { '4' } else if d == 5 { '5' } else if d == 6 { '6' } else if d == 7 { '7' }
    else if d == 8 { '8' } else { '9' }
}

/// The decimal representation of `n`, as `n.to_string()` writes it.
pub fn u64_to_decimal(n: u64) -> (s: String)
    ensures
        s@ == decimal(n as nat),
{
    let mut rest: u64 = n;
    let mut suffix: Vec<char> = Vec::new();
    while rest >= 10
        invariant
            decimal(n as nat) == decimal(rest as nat) + suffix@,
        decreases rest,
    {
        let d = rest % 10;
        let c = digit_to_char(d);
        assert(decimal(rest as nat) == decimal((rest / 10) as nat).push(c));
        assert(decimal((rest / 10) as nat) + seq![c] + suffix@ =~= decimal((rest / 10) as nat) + (
        seq![c] + suffix@));
        let ghost before = suffix@;
        suffix.insert(0, c);
        assert(suffix@ =~= seq![c] + before);
        rest = rest / 10;
    }
    let first = digit_to_char(rest);
    let ghost before = suffix@;
    suffix.insert(0, first);
    assert(suffix@ =~= seq![first] + before);
    string_of(suffix.as_slice())
}


/// Parses `s` as a `u64` in decimal, as `str::parse::<u64>` does.
pub fn parse_u64(s: &str) -> (r: Result<u64, IntParseIssue>)
    ensures
        r == parse_u64_spec(s@),
{
    let cs = chars_of(s);
    if cs.len() == 0 {
        return Err(IntParseIssue::Empty);
    }
    let mut i: usize = 0;
    if cs[0] == '+' {
        if cs.len() == 1 {
            return Err(IntParseIssue::InvalidDigit);
        }
        i = 1;
    }
    let mut acc: u64 = 0;
    while i < cs.len()
        invariant
            1 <= cs@.len(),
            i <= cs@.len(),
            i == 0 || i >= 1,
            parse_u64_spec(s@) == scan_digits(cs@, i as int, acc as int),
            cs@ == s@,
        decreases cs@.len() - i,
    {
        let c = cs[i];
        if !('0' <= c && c <= '9') {
            return Err(IntParseIssue::InvalidDigit);
        }
        let d = (c as u32 - '0' as u32) as u64;
        assert(d == digit_value(c));
        if acc > (u64::MAX - d) / 10 {
            assert(acc * 10 + d > u64::MAX) by (nonlinear_arith)
                requires
                    acc > (u64::MAX - d) / 10,
                    d <= 9,
            ;
            return Err(IntParseIssue::PosOverflow);
        }
        assert(acc * 10 + d <= u64::MAX) by (nonlinear_arith)
            requires
                acc <= (u64::MAX - d) / 10,
                d <= 9,
        ;
        acc = acc * 10 + d;
        i = i + 1;
    }
    Ok(acc)
}

/// The value of a sequence of decimal digits, most significant first.
pub open spec fn digits_value(s: Seq<char>) -> int
    decreases s.len(),
{
    if s.len() == 0 {
        0
    } else {
        digits_value(s.drop_last()) * 10 + digit_value(s.last())
    }
}

proof fn lemma_decimal_digits(n: nat)
    ensures
        decimal(n).len() >= 1,
        forall|k: int| 0 <= k < decimal(n).len() ==> is_digit(#[trigger] decimal(n)[k]),
        digits_value(decimal(n)) == n,
    decreases n,
{
    lemma_digit_char_value((n % 10) as int);
    if n >= 10 {
        lemma_decimal_digits(n / 10);
        let d = decimal(n);
        assert(d.drop_last() =~= decimal(n / 10));
        assert((n / 10) * 10 + n % 10 == n);
        assert(d.last() == digit_char((n % 10) as int));
        assert(digits_value(d) == digits_value(d.drop_last()) * 10 + digit_value(d.last()));
    } else {
        let d = decimal(n);
        assert(d.drop_last() =~= Seq::<char>::empty());
        assert(digits_value(d.drop_last()) == 0);
        assert(d.last() == digit_char(n as int));
        assert(n % 10 == n);
    }
}

proof fn lemma_digit_char_value(d: int)
    requires
        0 <= d < 10,
    ensures
        is_digit(digit_char(d)),
        digit_value(digit_char(d)) == d,
{
}

proof fn lemma_prefix_values_bounded(s: Seq<char>, i: int)
    requires
        0 <= i <= s.len(),
        forall|k: int| 0 <= k < s.len() ==> is_digit(#[trigger] s[k]),
    ensures
        0 <= digits_value(s.take(i)) <= digits_value(s),
    decreases s.len(),
{
    if s.len() > 0 {
        if i == s.len() {
            assert(s.take(i) =~= s);
            lemma_prefix_values_bounded(s.drop_last(), i - 1);
            assert(s.drop_last().take(i - 1) =~= s.drop_last().take(i - 1));
        } else {
            lemma_prefix_values_bounded(s.drop_last(), i);
            assert(s.drop_last().take(i) =~= s.take(i));
            assert(s.drop_last().take(s.len() - 1) =~= s.drop_last());
        }
        lemma_prefix_values_bounded(s.drop_last(), s.len() - 1);
        assert(s.drop_last().take(s.len() - 1) =~= s.drop_last());
    }
}

proof fn lemma_scan_all_digits(s: Seq<char>, i: int)
    requires
        0 <= i <= s.len(),
        forall|k: int| 0 <= k < s.len() ==> is_digit(#[trigger] s[k]),
        digits_value(s) <= u64::MAX,
    ensures
        scan_digits(s, i, digits_value(s.take(i))) == Ok::<u64, IntParseIssue>(
            digits_value(s) as u64,
        ),
    decreases s.len() - i,
{
    if i == s.len() {
        assert(s.take(i) =~= s);
    } else {
        assert(s.take(i + 1).drop_last() =~= s.take(i));
        lemma_prefix_values_bounded(s, i + 1);
        lemma_scan_all_digits(s, i + 1);
    }
}

/// Parsing the decimal representation of a number gives the number back.
pub proof fn lemma_parse_decimal_roundtrip(n: u64)
    ensures
        parse_u64_spec(decimal(n as nat)) == Ok::<u64, IntParseIssue>(n),
{
    lemma_decimal_digits(n as nat);
    let s = decimal(n as nat);
    assert(s.take(0) =~= Seq::<char>::empty());
    lemma_scan_all_digits(s, 0);
    assert(is_digit(s[0]));
}


/// The lower-case hexadecimal digit of a value below 16.
pub open spec fn hex_digit(d: int) -> char {
    if d < 10 {
        digit_char(d)
    } else if d == 10 { 'a' } else if d == 11 { 'b' } else if d == 12 { 'c' }
    else if d == 13 { 'd' } else if d == 14 { 'e' } else { 'f' }
}

/// Each byte as two lower-case hexadecimal digits (`{:02x}`), in order.
pub open spec fn hex_lower(b: Seq<u8>) -> Seq<char>
    decreases b.len(),
{
    if b.len() == 0 {
        Seq::empty()
    } else {
        hex_lower(b.drop_last()) + seq![hex_digit((b.last() / 16) as int), hex_digit((b.last() % 16) as int)]
    }
}

fn hex_digit_char(d: u8) -> (c: char)
    requires
        d < 16,
    ensures
        c == hex_digit(d as int),
{
    if d < 10 {
        digit_to_char(d as u64)
    } else if d == 10 { 'a' } else if d == 11 { 'b' } else if d == 12 { 'c' }
    else if d == 13 { 'd' } else if d == 14 { 'e' } else { 'f' }
}

/// Writes `bytes` as lower-case hexadecimal, two digits per byte.
pub fn hex_encode(bytes: &[u8]) -> (s: String)
    ensures
        s@ == hex_lower(bytes@),
{
    let mut out: Vec<char> = Vec::new();
    let mut i: usize = 0;
    while i < bytes.len()
        invariant
            i <= bytes@.len(),
            out@ == hex_lower(bytes@.take(i as int)),
        decreases bytes@.len() - i,
    {
        let b = bytes[i];
        out.push(hex_digit_char(b / 16));
        out.push(hex_digit_char(b % 16));
        assert(bytes@.take(i + 1).drop_last() =~= bytes@.take(i as int));
        i = i + 1;
        assert(out@ =~= hex_lower(bytes@.take(i as int)));
    }
    assert(bytes@.take(bytes@.len() as int) =~= bytes@);
    string_of(out.as_slice())
}

} // verus!
