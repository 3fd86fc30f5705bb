//! Decimal rendering of threshold values.

use vstd::prelude::*;

verus! {

/// The character of one decimal digit.
pub open spec fn digit_char(d: int) -> char {
    if d == 0 {
        '0'
    } else if d == 1 {
        '1'
    } else if d == 2 {
        '2'
    } else if d == 3 {
        '3'
    } else if d == 4 {
        '4'
    } else if d == 5 {
        '5'
    } else if d == 6 {
        '6'
    } else if d == 7 {
        '7'
    } else if d == 8 {
        '8'
    } else {
        '9'
    }
}

/// The usual decimal writing of a number: most significant digit first,
/// no leading zeroes, a single `0` for zero.
pub open spec fn decimal_digits(n: nat) -> Seq<char>
    decreases n,
{
    if n < 10 {
        seq![digit_char(n as int)]
    } else {
        decimal_digits(n / 10).push(digit_char((n % 10) as int))
    }
}

/// One digit as a string slice.
fn digit_str(d: u32) -> (s: &'static str)
    requires
        d < 10,
    ensures
        s@ =~= seq![digit_char(d as int)],
{
    proof {
        reveal_strlit("0");
        reveal_strlit("1");
        reveal_strlit("2");
        reveal_strlit("3");
        reveal_strlit("4");
        reveal_strlit("5");
        reveal_strlit("6");
        reveal_strlit("7");
        reveal_strlit("8");
        reveal_strlit("9");
    }
    if d == 0 {
        "0"
    } else if d == 1 {
        "1"
    } else if d == 2 {
        "2"
    } else if d == 3 {
        "3"
    } else if d == 4 {
        "4"
    } else if d == 5 {
        "5"
    } else if d == 6 {
        "6"
    } else if d == 7 {
        "7"
    } else if d == 8 {
        "8"
    } else {
        "9"
    }
}

/// The reversed digit stack as characters: the last collected digit is
/// the most significant and comes first.
spec fn rev_chars(ds: Seq<u32>) -> Seq<char>
    decreases ds.len(),
{
    if ds.len() == 0 {
        Seq::empty()
    } else {
        seq![digit_char(ds.last() as int)] + rev_chars(ds.drop_last())
    }
}

/// Writes a number in decimal.
pub fn u32_string(n: u32) -> (s: String)
    ensures
        s@ == decimal_digits(n as nat),
{
    let mut cur = n;
    let mut digits: Vec<u32> = Vec::new();
    loop
        invariant_except_break
            decimal_digits(n as nat) =~= decimal_digits(cur as nat) + rev_chars(digits@),
            forall|i: int| 0 <= i < digits@.len() ==> #[trigger] digits@[i] < 10,
        ensures
            rev_chars(digits@) =~= decimal_digits(n as nat),
            forall|i: int| 0 <= i < digits@.len() ==> #[trigger] digits@[i] < 10,
        decreases cur,
    {
        let d = cur % 10;
        let ghost old_digits = digits@;
        digits.push(d);
        proof {
            assert(digits@.drop_last() =~= old_digits);
            assert(rev_chars(digits@) =~= seq![digit_char(d as int)] + rev_chars(old_digits));
        }
        if cur < 10 {
            proof {
                assert(rev_chars(digits@) =~= decimal_digits(cur as nat) + rev_chars(old_digits));
            }
            break ;
        }
        cur = cur / 10;
        proof {
            assert(decimal_digits(n as nat) =~= decimal_digits(cur as nat) + rev_chars(digits@));
        }
    }
    let mut s = String::new();
    while digits.len() > 0
        invariant
            s@ + rev_chars(digits@) =~= decimal_digits(n as nat),
            forall|i: int| 0 <= i < digits@.len() ==> #[trigger] digits@[i] < 10,
        decreases digits@.len(),
    {
        let ghost old_digits = digits@;
        let d = digits.pop().unwrap();
        s.append(digit_str(d));
        proof {
            assert(rev_chars(old_digits) =~= seq![digit_char(d as int)] + rev_chars(digits@));
        }
    }
    proof {
        assert(rev_chars(digits@) =~= Seq::empty());
        assert(s@ =~= decimal_digits(n as nat));
    }
    s
}

} // verus!
