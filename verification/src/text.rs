//! Decimal text of natural numbers, as written in the balance file.

use vstd::prelude::*;

verus! {

/// The character of the decimal digit `d` (for `d < 10`).
pub open spec fn digit_char(d: nat) -> char {
    if d == 0 {
        '0'
    } else if d == 1 {
        '1'
    } else if d == 2 {
        '2'
    } else if d == 3 {
        '3'
    } else if d == 4 {
        '4'
    } else if d == 5 {
        '5'
    } else if d == 6 {
        '6'
    } else if d == 7 {
        '7'
    } else if d == 8 {
        '8'
    } else {
        '9'
    }
}

/// The decimal digits of `n`, most significant first, with no leading zero;
/// empty for zero.
pub open spec fn magnitude_digits(n: nat) -> Seq<char>
    decreases n,
{
    if n == 0 {
        Seq::empty()
    } else {
        magnitude_digits(n / 10).push(digit_char(n % 10))
    }
}

/// The decimal text of `n`: its digits, or `0` for zero.
pub open spec fn nat_text(n: nat) -> Seq<char> {
    if n == 0 {
        seq!['0']
    } else {
        magnitude_digits(n)
    }
}

/// A one-character string holding the digit `d`.
fn digit_str(d: u64) -> (s: &'static str)
    requires
        d < 10,
    ensures
        s@ == seq![digit_char(d as nat)],
{
    if d == 0 {
        proof { reveal_strlit("0"); }
        "0"
    } else if d == 1 {
        proof { reveal_strlit("1"); }
        "1"
    } else if d == 2 {
        proof { reveal_strlit("2"); }
        "2"
    } else if d == 3 {
        proof { reveal_strlit("3"); }
        "3"
    } else if d == 4 {
        proof { reveal_strlit("4"); }
        "4"
    } else if d == 5 {
        proof { reveal_strlit("5"); }
        "5"
    } else if d == 6 {
        proof { reveal_strlit("6"); }
        "6"
    } else if d == 7 {
        proof { reveal_strlit("7"); }
        "7"
    } else if d == 8 {
        proof { reveal_strlit("8"); }
        "8"
    } else {
        proof { reveal_strlit("9"); }
        "9"
    }
}

/// Appends the digits of `n` (nothing for zero).
fn push_magnitude(text: &mut String, n: u64)
    ensures
        final(text)@ == old(text)@ + magnitude_digits(n as nat),
    decreases n,
{
    if n != 0 {
        push_magnitude(text, n / 10);
        text.append(digit_str(n % 10));
        proof {
            assert(magnitude_digits(n as nat) == magnitude_digits((n / 10) as nat).push(
                digit_char((n % 10) as nat),
            ));
        }
    } else {
        assert(magnitude_digits(n as nat) =~= Seq::<char>::empty());
    }
}

/// Appends the decimal text of `n`, as `{}` formats an unsigned integer.
pub fn push_u64(text: &mut String, n: u64)
    ensures
        final(text)@ == old(text)@ + nat_text(n as nat),
{
    if n == 0 {
        proof { reveal_strlit("0"); }
        text.append("0");
    } else {
        push_magnitude(text, n);
    }
}

/// The decimal text of `n`.
pub fn u64_text(n: u64) -> (s: String)
    ensures
        s@ == nat_text(n as nat),
{
    let mut s = String::new();
    push_u64(&mut s, n);
    assert(s@ =~= nat_text(n as nat));
    s
}

} // verus!
