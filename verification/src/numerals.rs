//! Decimal numerals for numbered backup names.
//!
//! A numbered backup of `name` is called `name.~N~` for a positive integer
//! `N` written in decimal.  This module defines what a digit string is
//! worth, how a number is rendered, and renders `u64` values.

use vstd::prelude::*;

verus! {

/// Is `c` a decimal digit?
pub open spec fn spec_is_digit(c: char) -> bool {
    c == '0' || c == '1' || c == '2' || c == '3' || c == '4' || c == '5' || c == '6' || c == '7'
        || c == '8' || c == '9'
}

/// The value of a digit character (10 for a non-digit).
pub open spec fn spec_digit_val(c: char) -> nat {
    if c == '0' {
        0
    } else if c == '1' {
        1
    } else if c == '2' {
        2
    } else if c == '3' {
        3
    } else if c == '4' {
        4
    } else if c == '5' {
        5
    } else if c == '6' {
        6
    } else if c == '7' {
        7
    } else if c == '8' {
        8
    } else if c == '9' {
        9
    } else {
        10
    }
}

/// The digit character for a value below ten ('9' otherwise).
pub open spec fn spec_digit_char(d: nat) -> char {
    if d == 0 {
        '0'
    } else if d == 1 {
        '1'
    } else if d == 2 {
        '2'
    } else if d == 3 {
        '3'
    } else if d == 4 {
        '4'
    } else if d == 5 {
        '5'
    } else if d == 6 {
        '6'
    } else if d == 7 {
        '7'
    } else if d == 8 {
        '8'
    } else {
        '9'
    }
}

/// Does `s` consist of decimal digits only?
pub open spec fn spec_all_digits(s: Seq<char>) -> bool {
    forall|i: int| 0 <= i < s.len() ==> spec_is_digit(#[trigger] s[i])
}

/// The number a digit string denotes, most significant digit first.
pub open spec fn spec_digits_val(s: Seq<char>) -> nat
    decreases s.len(),
{
    if s.len() == 0 {
        0
    } else {
        spec_digits_val(s.drop_last()) * 10 + spec_digit_val(s.last())
    }
}

/// The canonical decimal rendering of `n` (no leading zeros, `"0"` for 0).
pub open spec fn spec_dec_digits(n: nat) -> Seq<char>
    decreases n,
{
    if n < 10 {
        seq![spec_digit_char(n)]
    } else {
        spec_dec_digits(n / 10).push(spec_digit_char(n % 10))
    }
}

/// Appending digits never lowers a digit string's value.
pub proof fn lemma_digits_val_prefix(s: Seq<char>, k: int)
    requires
        0 <= k <= s.len(),
    ensures
        spec_digits_val(s.subrange(0, k)) <= spec_digits_val(s),
    decreases s.len() - k,
{
    if k == s.len() {
        assert(s.subrange(0, k) =~= s);
    } else {
        lemma_digits_val_prefix(s, k + 1);
        let t = s.subrange(0, k + 1);
        assert(t.drop_last() =~= s.subrange(0, k));
        assert(spec_digits_val(s.subrange(0, k)) * 10 + spec_digit_val(t.last()) >= spec_digits_val(
            s.subrange(0, k),
        )) by (nonlinear_arith);
    }
}

/// The canonical rendering denotes the number it was made from, is made
/// of digits, and is never empty.
pub proof fn lemma_dec_digits(n: nat)
    ensures
        spec_digits_val(spec_dec_digits(n)) == n,
        spec_all_digits(spec_dec_digits(n)),
        spec_dec_digits(n).len() >= 1,
    decreases n,
{
    if n < 10 {
        let s = spec_dec_digits(n);
        assert(s.drop_last() =~= Seq::<char>::empty());
        assert(spec_digit_val(spec_digit_char(n)) == n);
        assert(spec_digits_val(s) == spec_digits_val(s.drop_last()) * 10 + spec_digit_val(s.last()));
    } else {
        lemma_dec_digits(n / 10);
        let s = spec_dec_digits(n);
        assert(s.drop_last() =~= spec_dec_digits(n / 10));
        assert(spec_digits_val(s) == (n / 10) * 10 + n % 10);
        assert((n / 10) * 10 + n % 10 == n) by (nonlinear_arith);
        assert forall|i: int| 0 <= i < s.len() implies spec_is_digit(#[trigger] s[i]) by {
            if i < s.len() - 1 {
                assert(s[i] == spec_dec_digits(n / 10)[i]);
            }
        }
    }
}

/// Relies on `String::push` of std: it appends the character to the string.
#[verifier::external_body]
fn push_char(s: &mut String, c: char)
    ensures
        final(s)@ == old(s)@.push(c),
{
    s.push(c);
}

/// The digit character for `d` (callers pass a value below ten).
fn digit_char(d: u64) -> (c: char)
    requires
        d < 10,
    ensures
        c == spec_digit_char(d as nat),
{
    if d == 0 {
        '0'
    } else if d == 1 {
        '1'
    } else if d == 2 {
        '2'
    } else if d == 3 {
        '3'
    } else if d == 4 {
        '4'
    } else if d == 5 {
        '5'
    } else if d == 6 {
        '6'
    } else if d == 7 {
        '7'
    } else if d == 8 {
        '8'
    } else {
        '9'
    }
}

/// The value of a digit character, `None` for a non-digit.
pub fn digit_value(c: char) -> (r: Option<u64>)
    ensures
        match r {
            Some(d) => spec_is_digit(c) && d == spec_digit_val(c),
            None => !spec_is_digit(c),
        },
{
    if c == '0' {
        Some(0)
    } else if c == '1' {
        Some(1)
    } else if c == '2' {
        Some(2)
    } else if c == '3' {
        Some(3)
    } else if c == '4' {
        Some(4)
    } else if c == '5' {
        Some(5)
    } else if c == '6' {
        Some(6)
    } else if c == '7' {
        Some(7)
    } else if c == '8' {
        Some(8)
    } else if c == '9' {
        Some(9)
    } else {
        None
    }
}

/// `n` rendered in decimal.
pub fn u64_to_string(n: u64) -> (r: String)
    ensures
        r@ == spec_dec_digits(n as nat),
    decreases n,
{
    if n < 10 {
        let mut r = String::new();
        push_char(&mut r, digit_char(n));
        proof {
            assert(r@ =~= seq![spec_digit_char(n as nat)]);
        }
        r
    } else {
        let mut r = u64_to_string(n / 10);
        push_char(&mut r, digit_char(n % 10));
        r
    }
}

} // verus!
