//! Decimal rendering of integers, used by the evaluator's `print` statement
//! and by diagnostic messages, and the bridge from character sequences to
//! heap strings.

use vstd::prelude::*;

verus! {

/// The decimal digit character for `d` (`0 <= d <= 9`).
pub open spec fn digit_char(d: nat) -> char {
    ((d + 0x30) as u8) as char
}

/// The decimal digits of `n`, most significant first, with no sign and no
/// leading zeros (except for `n == 0`, rendered as a single `0`).
pub open spec fn dec_digits(n: nat) -> Seq<char>
    decreases n,
{
    if n < 10 {
        seq![digit_char(n)]
    } else {
        dec_digits(n / 10).push(digit_char(n % 10))
    }
}

/// The textual rendering of a signed 64-bit integer: a leading `-` for
/// negative values, then the decimal digits of the magnitude.
pub open spec fn int_text(n: int) -> Seq<char> {
    if n < 0 {
        seq!['-'] + dec_digits((-n) as nat)
    } else {
        dec_digits(n as nat)
    }
}

/// Appends the decimal digits of `m` to `out`.
fn push_digits(out: &mut Vec<char>, m: u64)
    ensures
        final(out)@ == old(out)@ + dec_digits(m as nat),
    decreases m,
{
    if m < 10 {
        out.push((0x30u8 + (m as u8)) as char);
        assert(final(out)@ =~= old(out)@ + dec_digits(m as nat));
    } else {
        push_digits(out, m / 10);
        out.push((0x30u8 + ((m % 10) as u8)) as char);
        assert(final(out)@ =~= old(out)@ + dec_digits(m as nat));
    }
}

/// Appends the rendering of `n` (sign, then magnitude digits) to `out`.
pub fn push_int_text(out: &mut Vec<char>, n: i64)
    ensures
        final(out)@ == old(out)@ + int_text(n as int),
{
    if n < 0 {
        out.push('-');
        let m: u64 = if n == i64::MIN {
            9223372036854775808u64
        } else {
            (-n) as u64
        };
        assert(m as nat == (-(n as int)) as nat);
        push_digits(out, m);
        assert(final(out)@ =~= old(out)@ + int_text(n as int));
    } else {
        push_digits(out, n as u64);
    }
}

/// Appends the decimal rendering of `n` to `out`.
pub fn push_usize_text(out: &mut Vec<char>, n: usize)
    ensures
        final(out)@ == old(out)@ + dec_digits(n as nat),
{
    push_digits(out, n as u64);
}

/// Relies on `String: FromIterator<char>`: collecting an iterator of
/// characters yields the string of exactly those characters in order.
#[verifier::external_body]
pub fn chars_to_string(cs: &Vec<char>) -> (s: String)
    ensures
        s@ == cs@,
{
    cs.iter().collect()
}

/// Appends every character of `s` to `out`.
pub fn push_str_chars(out: &mut Vec<char>, s: &str)
    ensures
        final(out)@ == old(out)@ + s@,
{
    let n = s.unicode_len();
    let mut i: usize = 0;
    while i < n
        invariant
            n == s@.len(),
            i <= n,
            out@ == old(out)@ + s@.subrange(0, i as int),
        decreases n - i,
    {
        out.push(s.get_char(i));
        i = i + 1;
        assert(out@ =~= old(out)@ + s@.subrange(0, i as int));
    }
    assert(out@ =~= old(out)@ + s@);
}

} // verus!
