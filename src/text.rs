use vstd::prelude::*;

verus! {

/// Relies on `String::push_str`: appends `t` to `s`.
#[verifier::external_body]
pub(crate) fn push_str(s: &mut String, t: &str)
    ensures
        final(s)@ == old(s)@ + t@,
{
    s.push_str(t);
}

/// Relies on `String::push`: appends `c` to `s`.
#[verifier::external_body]
pub(crate) fn push_char(s: &mut String, c: char)
    ensures
        final(s)@ == old(s)@.push(c),
{
    s.push(c);
}

pub open spec fn digit_char(d: nat) -> char {
    ((d % 10) + '0' as nat) as char
}

/// The decimal digits of `n`, without leading zeros.
pub open spec fn nat_text(n: nat) -> Seq<char>
    decreases n,
{
    if n < 10 {
        seq![digit_char(n)]
    } else {
        nat_text(n / 10).push(digit_char(n % 10))
    }
}

/// `n` in decimal, with a leading `-` when negative.
pub open spec fn int_text(n: int) -> Seq<char> {
    if n < 0 {
        seq!['-'] + nat_text((-n) as nat)
    } else {
        nat_text(n as nat)
    }
}

/// `acc`, then `sep` when `acc` is not empty, then `item`.
pub open spec fn sep_join(acc: Seq<char>, sep: Seq<char>, item: Seq<char>) -> Seq<char> {
    if acc.len() > 0 {
        acc + sep + item
    } else {
        item
    }
}

fn push_nat(s: &mut String, n: u64)
    ensures
        final(s)@ == old(s)@ + nat_text(n as nat),
    decreases n,
{
    if n >= 10 {
        push_nat(s, n / 10);
    }
    let d = (n % 10) as u32;
    let c = char_of_digit(d);
    push_char(s, c);
    proof {
        assert(nat_text(n as nat) =~= if n < 10 {
            seq![digit_char(n as nat)]
        } else {
            nat_text((n / 10) as nat).push(digit_char((n % 10) as nat))
        });
    }
}

fn char_of_digit(d: u32) -> (c: char)
    requires
        d < 10,
    ensures
        c == digit_char(d as nat),
{
    if d == 0 {
        '0'
    } else if d == 1 {
        '1'
    } else if d == 2 {
        '2'
    } else if d == 3 {
        '3'
    } else if d == 4 {
        '4'
    } else if d == 5 {
        '5'
    } else if d == 6 {
        '6'
    } else if d == 7 {
        '7'
    } else if d == 8 {
        '8'
    } else {
        '9'
    }
}

/// Appends `n` in decimal.
pub(crate) fn push_int(s: &mut String, n: i64)
    ensures
        final(s)@ == old(s)@ + int_text(n as int),
{
    if n < 0 {
        push_char(s, '-');
        let m = (0 - (n as i128)) as u64;
        push_nat(s, m);
        proof {
            assert(s@ =~= old(s)@ + int_text(n as int));
        }
    } else {
        push_nat(s, n as u64);
    }
}

} // verus!
