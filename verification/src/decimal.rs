//! Decimal formatting of unsigned integers, for the time reply.

use vstd::prelude::*;

verus! {

/// The digit character for `d`.
pub open spec fn dec_digit(d: int) -> char {
    (48 + d) as char  // '0' is code point 48
}

/// The decimal numeral of `n`, most significant digit first, no leading
/// zeros (a single zero for zero).
pub open spec fn dec_of(n: nat) -> Seq<char>
    decreases n,
{
    if n < 10 {
        seq![dec_digit(n as int)]
    } else {
        dec_of(n / 10) + seq![dec_digit((n % 10) as int)]
    }
}

/// Whether `s` is the decimal numeral of some number.
pub open spec fn is_decimal(s: Seq<char>) -> bool {
    exists|n: nat| s == dec_of(n)
}

/// The digit character for `d`, matching [`dec_digit`].
fn dec_digit_char(d: u8) -> (r: char)
    requires
        d < 10,
    ensures
        r == dec_digit(d as int),
{
    (48 + d) as char
}

fn push_dec(out: &mut String, x: u64)
    ensures
        final(out)@ == old(out)@ + dec_of(x as nat),
    decreases x,
{
    if x >= 10 {
        push_dec(out, x / 10);
    }
    out.push(dec_digit_char((x % 10) as u8));
    proof {
        assert(final(out)@ =~= old(out)@ + dec_of(x as nat));
    }
}

/// The decimal numeral of `n` as text.
pub fn u64_to_dec_string(n: u64) -> (r: String)
    ensures
        r@ == dec_of(n as nat),
        is_decimal(r@),
{
    let mut out = String::new();
    push_dec(&mut out, n);
    proof {
        assert(out@ =~= dec_of(n as nat));
    }
    out
}

} // verus!
