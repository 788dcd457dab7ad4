//! Integers written in decimal, the way the numeric constructors and the
//! failure messages show them.

use vstd::prelude::*;

verus! {

/// The character that shows the digit `d`.
pub open spec fn digit(d: int) -> char {
    (d + 48) as char
}

/// The digits of `n`, most significant first, without leading zeros.
pub open spec fn decimal_nat(n: nat) -> Seq<char>
    decreases n,
{
    if n < 10 {
        seq![digit(n as int)]
    } else {
        decimal_nat(n / 10).push(digit((n % 10) as int))
    }
}

/// `n` in decimal: a minus sign in front of a negative number, no sign
/// otherwise.
pub open spec fn decimal(n: int) -> Seq<char> {
    if n < 0 {
        seq!['-'] + decimal_nat((-n) as nat)
    } else {
        decimal_nat(n as nat)
    }
}

/// The digit character of `d`.
fn digit_char(d: u64) -> (c: char)
    requires
        d < 10,
    ensures
        c == digit(d as int),
{
    ((d as u8) + 48) as char
}

/// Appends the digits of `n` to `out`.
pub(crate) fn write_unsigned(out: &mut String, n: u64)
    ensures
        final(out)@ == old(out)@ + decimal_nat(n as nat),
{
    let mut low: Vec<char> = Vec::new();
    let mut rest = n;
    while rest >= 10
        invariant
            decimal_nat(n as nat) == decimal_nat(rest as nat) + low@.reverse(),
        decreases rest,
    {
        let ghost before = low@;
        low.push(digit_char(rest % 10));
        rest = rest / 10;
        assert(low@.reverse() == seq![low@.last()] + before.reverse());
    }
    out.push(digit_char(rest));
    let ghost head = old(out)@ + decimal_nat(rest as nat);
    assert(out@ == head);
    let mut i = low.len();
    while i > 0
        invariant
            i <= low.len(),
            out@ == head + low@.reverse().take(low.len() - i),
        decreases i,
    {
        i -= 1;
        out.push(low[i]);
        assert(low@.reverse().take(low.len() - i) == low@.reverse().take(low.len() - i - 1).push(
            low@[i as int],
        ));
    }
    assert(low@.reverse().take(low.len() as int) == low@.reverse());
}

/// Appends `n` in decimal to `out`.
pub(crate) fn write_signed(out: &mut String, n: i64)
    ensures
        final(out)@ == old(out)@ + decimal(n as int),
{
    if n < 0 {
        out.push('-');
        let magnitude: u64 = ((-(n + 1)) as u64) + 1;
        write_unsigned(out, magnitude);
        assert(out@ == old(out)@ + (seq!['-'] + decimal_nat((-n) as nat)));
    } else {
        write_unsigned(out, n as u64);
    }
}

} // verus!
