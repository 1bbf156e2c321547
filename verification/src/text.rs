//! Character-level helpers shared by the rest of the crate.
use vstd::prelude::*;

verus! {

/// `str::eq` of the standard library: two string slices are equal exactly when
/// they hold the same characters.
#[verifier::external_body]
pub(crate) fn str_eq(a: &str, b: &str) -> (r: bool)
    ensures
        r == (a@ == b@),
{
    a == b
}

/// `str::chars` of the standard library, collected: the characters of the
/// slice, in order.
#[verifier::external_body]
pub(crate) fn str_chars(s: &str) -> (r: Vec<char>)
    ensures
        r@ == s@,
{
    s.chars().collect()
}

/// `String::push` of the standard library: appends one character.
#[verifier::external_body]
pub(crate) fn push_char(s: &mut String, c: char)
    ensures
        final(s)@ == old(s)@.push(c),
{
    s.push(c)
}

/// The decimal digits of `n`, most significant first; `0` is `"0"`.
pub open spec fn decimal(n: nat) -> Seq<char>
    decreases n,
{
    if n < 10 {
        seq![digit_char(n)]
    } else {
        decimal(n / 10).push(digit_char(n % 10))
    }
}

/// The character of one decimal digit.
pub open spec fn digit_char(d: nat) -> char {
    if d == 0 {
        '0'
    } else if d == 1 {
        '1'
    } else if d == 2 {
        '2'
    } else if d == 3 {
        '3'
    } else if d == 4 {
        '4'
    } else if d == 5 {
        '5'
    } else if d == 6 {
        '6'
    } else if d == 7 {
        '7'
    } else if d == 8 {
        '8'
    } else {
        '9'
    }
}

fn digit_of(d: u64) -> (c: char)
    requires
        d < 10,
    ensures
        c == digit_char(d as nat),
{
    if d == 0 {
        '0'
    } else if d == 1 {
        '1'
    } else if d == 2 {
        '2'
    } else if d == 3 {
        '3'
    } else if d == 4 {
        '4'
    } else if d == 5 {
        '5'
    } else if d == 6 {
        '6'
    } else if d == 7 {
        '7'
    } else if d == 8 {
        '8'
    } else {
        '9'
    }
}

/// Renders an unsigned integer in decimal.
pub fn u64_to_string(n: u64) -> (s: String)
    ensures
        s@ == decimal(n as nat),
{
    let mut digits: Vec<char> = Vec::new();
    let mut rest: u64 = n;
    // Least significant digit first.
    digits.push(digit_of(rest % 10));
    rest = rest / 10;
    while rest > 0
        invariant
            digits@.len() > 0,
            rest == 0 ==> digits@.reverse() == decimal(n as nat),
            rest > 0 ==> decimal(rest as nat) + digits@.reverse() == decimal(n as nat),
        decreases rest,
    {
        let ghost before = digits@;
        let ghost prev = rest;
        digits.push(digit_of(rest % 10));
        rest = rest / 10;
        proof {
            assert(digits@.reverse() =~= seq![digit_char((prev % 10) as nat)] + before.reverse());
            if rest == 0 {
                assert(decimal(prev as nat) == seq![digit_char(prev as nat)]);
                assert(decimal(prev as nat) + before.reverse() =~= digits@.reverse());
            } else {
                assert(decimal(prev as nat) == decimal(rest as nat).push(digit_char((prev % 10) as nat)));
                assert(decimal(rest as nat) + digits@.reverse() =~= decimal(prev as nat) + before.reverse());
            }
        }
    }
    let mut out = String::new();
    let mut i: usize = digits.len();
    while i > 0
        invariant
            i <= digits@.len(),
            out@ == digits@.reverse().subrange(0, digits@.len() - i),
        decreases i,
    {
        i -= 1;
        let ghost before = out@;
        push_char(&mut out, digits[i]);
        proof {
            assert(out@ =~= digits@.reverse().subrange(0, digits@.len() - i));
        }
    }
    proof {
        assert(out@ =~= digits@.reverse());
    }
    out
}

/// Renders a `usize` in decimal.
pub fn usize_to_string(n: usize) -> (s: String)
    ensures
        s@ == decimal(n as nat),
{
    u64_to_string(n as u64)
}

} // verus!
