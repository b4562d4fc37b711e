//! Digits in text, as the number parsers of this crate and of std read them.

use vstd::prelude::*;

verus! {

pub open spec fn is_decimal_digit(c: char) -> bool {
    '0' <= c && c <= '9'
}

pub open spec fn is_hex_digit(c: char) -> bool {
    ('0' <= c && c <= '9') || ('a' <= c && c <= 'f') || ('A' <= c && c <= 'F')
}

pub open spec fn hex_digit_value(c: char) -> nat {
    if '0' <= c && c <= '9' {
        (c as nat - '0' as nat) as nat
    } else if 'a' <= c && c <= 'f' {
        (c as nat - 'a' as nat + 10) as nat
    } else {
        (c as nat - 'A' as nat + 10) as nat
    }
}

/// The number written by the digits `t` in base `radix`.
pub open spec fn digits_value(t: Seq<char>, radix: nat) -> nat
    decreases t.len(),
{
    if t.len() == 0 {
        0
    } else {
        digits_value(t.drop_last(), radix) * radix + hex_digit_value(t.last())
    }
}

} // verus!
