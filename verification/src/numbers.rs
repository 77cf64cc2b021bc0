//! Decimal text of integers.

use vstd::prelude::*;
use crate::strings::push_char;

verus! {

/// The character of a decimal digit.
pub open spec fn digit_char(d: nat) -> char {
    if d == 0 { '0' }
    else if d == 1 { '1' }
    else if d == 2 { '2' }
    else if d == 3 { '3' }
    else if d == 4 { '4' }
    else if d == 5 { '5' }
    else if d == 6 { '6' }
    else if d == 7 { '7' }
    else if d == 8 { '8' }
    else { '9' }
}

/// The decimal digits of `n`, most significant first, without leading zeros.
pub open spec fn decimal(n: nat) -> Seq<char>
    decreases n,
{
    if n < 10 {
        seq![digit_char(n)]
    } else {
        decimal(n / 10).push(digit_char(n % 10))
    }
}

/// The decimal text of a signed integer, with a leading `'-'` when negative.
pub open spec fn signed_decimal(n: int) -> Seq<char> {
    if n < 0 {
        seq!['-'] + decimal((-n) as nat)
    } else {
        decimal(n as nat)
    }
}

fn digit(d: u64) -> (c: char)
    requires
        d < 10,
    ensures
        c == digit_char(d as nat),
{
    if d == 0 { '0' }
    else if d == 1 { '1' }
    else if d == 2 { '2' }
    else if d == 3 { '3' }
    else if d == 4 { '4' }
    else if d == 5 { '5' }
    else if d == 6 { '6' }
    else if d == 7 { '7' }
    else if d == 8 { '8' }
    else { '9' }
}

/// Appends the decimal text of `n` to `out`.
pub fn push_decimal(out: &mut String, n: u64)
    ensures
        final(out)@ == old(out)@ + decimal(n as nat),
{
    let mut m: u64 = n;
    let mut rev: Vec<char> = Vec::new();
    while m >= 10
        invariant
            decimal(n as nat) == decimal(m as nat) + rev@.reverse(),
        decreases m,
    {
        let c = digit(m % 10);
        let ghost before = rev@;
        rev.push(c);
        proof {
            assert(rev@.reverse() =~= seq![c] + before.reverse());
            assert(decimal(m as nat) == decimal((m / 10) as nat).push(c));
            assert(decimal((m / 10) as nat).push(c) + before.reverse()
                =~= decimal((m / 10) as nat) + (seq![c] + before.reverse()));
        }
        m = m / 10;
    }
    let first = digit(m);
    push_char(out, first);
    let ghost start = old(out)@;
    let mut k: usize = rev.len();
    assert(rev@.reverse().take(0) =~= Seq::<char>::empty());
    while k > 0
        invariant
            k <= rev.len(),
            decimal(n as nat) == seq![first] + rev@.reverse(),
            out@ == start.push(first) + rev@.reverse().take((rev.len() - k) as int),
        decreases k,
    {
        k = k - 1;
        let c = rev[k];
        let ghost prev = out@;
        push_char(out, c);
        proof {
            let r = rev@.reverse();
            let j: int = (rev.len() - k - 1) as int;
            assert(r[j] == c);
            assert(r.take(j + 1) =~= r.take(j).push(c));
            assert(out@ =~= start.push(first) + r.take(j + 1));
        }
    }
    proof {
        assert(rev@.reverse().take(rev.len() as int) =~= rev@.reverse());
        assert(start.push(first) + rev@.reverse() =~= start + (seq![first] + rev@.reverse()));
    }
}

/// Appends the decimal text of a signed integer to `out`.
pub fn push_signed_decimal(out: &mut String, n: i32)
    ensures
        final(out)@ == old(out)@ + signed_decimal(n as int),
{
    if n < 0 {
        push_char(out, '-');
        let magnitude: i64 = -(n as i64);
        let ghost mid = out@;
        push_decimal(out, magnitude as u64);
        assert(out@ =~= old(out)@ + (seq!['-'] + decimal((-(n as int)) as nat)));
    } else {
        push_decimal(out, n as u64);
    }
}

} // verus!
