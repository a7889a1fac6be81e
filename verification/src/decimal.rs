//! Decimal rendering of integers, used wherever a structure prints its
//! values: the digit characters of a number, most significant first, with
//! a leading minus sign for negative values.

use vstd::prelude::*;

verus! {

/// The character for a single decimal digit.
pub open spec fn digit_char(d: nat) -> char {
    if d == 0 {
        '0'
    } else if d == 1 {
        '1'
    } else if d == 2 {
        '2'
    } else if d == 3 {
        '3'
    } else if d == 4 {
        '4'
    } else if d == 5 {
        '5'
    } else if d == 6 {
        '6'
    } else if d == 7 {
        '7'
    } else if d == 8 {
        '8'
    } else {
        '9'
    }
}

/// The decimal digits of a natural number, most significant first.
pub open spec fn dec_digits(n: nat) -> Seq<char>
    decreases n,
{
    if n < 10 {
        seq![digit_char(n)]
    } else {
        dec_digits(n / 10) + seq![digit_char(n % 10)]
    }
}

/// The decimal rendering of an integer: its digits, with a minus sign in
/// front when it is negative.
pub open spec fn dec_str(v: int) -> Seq<char> {
    if v < 0 {
        seq!['-'] + dec_digits((-v) as nat)
    } else {
        dec_digits(v as nat)
    }
}

/// The digit characters of a sequence of digits read back to front.
spec fn rev_digit_chars(ds: Seq<u64>) -> Seq<char> {
    Seq::new(ds.len(), |i: int| digit_char(ds[ds.len() - 1 - i] as nat))
}

/// Appends the character of one decimal digit.
fn append_digit(s: &mut String, d: u64)
    requires
        d < 10,
    ensures
        final(s)@ == old(s)@ + seq![digit_char(d as nat)],
{
    proof {
        reveal_strlit("0");
        reveal_strlit("1");
        reveal_strlit("2");
        reveal_strlit("3");
        reveal_strlit("4");
        reveal_strlit("5");
        reveal_strlit("6");
        reveal_strlit("7");
        reveal_strlit("8");
        reveal_strlit("9");
    }
    let lit: &str = if d == 0 {
        "0"
    } else if d == 1 {
        "1"
    } else if d == 2 {
        "2"
    } else if d == 3 {
        "3"
    } else if d == 4 {
        "4"
    } else if d == 5 {
        "5"
    } else if d == 6 {
        "6"
    } else if d == 7 {
        "7"
    } else if d == 8 {
        "8"
    } else {
        "9"
    };
    s.append(lit);
}

/// Appends the decimal digits of `n`, most significant first.
fn append_u64_digits(s: &mut String, n: u64)
    ensures
        final(s)@ == old(s)@ + dec_digits(n as nat),
{
    let mut digits: Vec<u64> = Vec::new();
    let mut m: u64 = n;

    loop
        invariant_except_break
            m == 0 ==> digits@.len() == 0 && n == 0,
        invariant
            m > 0 ==> dec_digits(n as nat) =~= dec_digits(m as nat) + rev_digit_chars(digits@),
            m == 0 && digits@.len() > 0 ==> dec_digits(n as nat) =~= rev_digit_chars(digits@),
            forall|k: int| 0 <= k < digits@.len() ==> digits@[k] < 10,
        ensures
            m == 0,
            digits@.len() > 0,
            dec_digits(n as nat) =~= rev_digit_chars(digits@),
            forall|k: int| 0 <= k < digits@.len() ==> digits@[k] < 10,
        decreases m,
    {
        let ghost digits_before = digits@;
        let d = m % 10;
        digits.push(d);
        let next = m / 10;
        proof {
            assert(rev_digit_chars(digits@) =~= seq![digit_char(d as nat)] + rev_digit_chars(
                digits_before,
            ));
            if m >= 10 {
                assert(dec_digits(m as nat) == dec_digits((m / 10) as nat) + seq![
                    digit_char((m % 10) as nat)]);
            } else {
                assert(dec_digits(m as nat) == seq![digit_char(m as nat)]);
            }
            if m > 0 {
                assert(dec_digits(n as nat) == dec_digits(m as nat) + rev_digit_chars(
                    digits_before,
                ));
            } else {
                assert(n == 0 && digits_before.len() == 0);
            }
            if next > 0 {
                assert(dec_digits(n as nat) =~= (dec_digits(next as nat) + seq![
                    digit_char(d as nat)]) + rev_digit_chars(digits_before));
                assert(dec_digits(n as nat) =~= dec_digits(next as nat) + rev_digit_chars(
                    digits@,
                ));
            } else {
                assert(dec_digits(n as nat) =~= rev_digit_chars(digits@));
            }
        }
        m = next;
        if m == 0 {
            break;
        }
    }

    let count = digits.len();
    let ghost start: Seq<char> = s@;
    for i in 0..count
        invariant
            count == digits@.len(),
            forall|k: int| 0 <= k < digits@.len() ==> digits@[k] < 10,
            s@ =~= start + rev_digit_chars(digits@).take(i as int),
    {
        let d = digits[count - 1 - i];
        append_digit(s, d);
        proof {
            assert(rev_digit_chars(digits@).take(i + 1) =~= rev_digit_chars(digits@).take(i as int)
                + seq![digit_char(digits@[count - 1 - i] as nat)]);
        }
    }
    proof {
        assert(rev_digit_chars(digits@).take(count as int) =~= rev_digit_chars(digits@));
    }
}

/// The decimal rendering of `v`: digits preceded by a minus sign when it
/// is negative.
pub fn i32_to_string(v: i32) -> (s: String)
    ensures
        s@ == dec_str(v as int),
{
    let mut s = String::new();
    if v < 0 {
        proof {
            reveal_strlit("-");
        }
        s.append("-");
        let mag: u64 = (-(v as i64)) as u64;
        append_u64_digits(&mut s, mag);
    } else {
        let mag: u64 = v as u64;
        append_u64_digits(&mut s, mag);
    }
    s
}

} // verus!
