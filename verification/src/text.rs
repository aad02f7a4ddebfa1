//! Numbers as decimal text.
use vstd::prelude::*;
use vstd::string::StringExecFns;

verus! {

/// The character of a decimal digit.
pub open spec fn digit_char(d: int) -> char {
    if d == 0 {
        '0'
    } else if d == 1 {
        '1'
    } else if d == 2 {
        '2'
    } else if d == 3 {
        '3'
    } else if d == 4 {
        '4'
    } else if d == 5 {
        '5'
    } else if d == 6 {
        '6'
    } else if d == 7 {
        '7'
    } else if d == 8 {
        '8'
    } else {
        '9'
    }
}

/// A natural number in decimal, without leading zeros.
pub open spec fn decimal_digits(n: nat) -> Seq<char>
    decreases n,
{
    if n < 10 {
        seq![digit_char(n as int)]
    } else {
        decimal_digits(n / 10).push(digit_char((n % 10) as int))
    }
}

/// An integer in decimal, with a minus sign before a negative one.
pub open spec fn decimal(v: int) -> Seq<char> {
    if v < 0 {
        seq!['-'] + decimal_digits((-v) as nat)
    } else {
        decimal_digits(v as nat)
    }
}

/// One decimal digit as text.
fn digit_str(d: u64) -> (text: &'static str)
    requires
        d < 10,
    ensures
        text@ == seq![digit_char(d as int)],
{
    proof {
        reveal_strlit("0");
        reveal_strlit("1");
        reveal_strlit("2");
        reveal_strlit("3");
        reveal_strlit("4");
        reveal_strlit("5");
        reveal_strlit("6");
        reveal_strlit("7");
        reveal_strlit("8");
        reveal_strlit("9");
    }
    let text = if d == 0 {
        "0"
    } else if d == 1 {
        "1"
    } else if d == 2 {
        "2"
    } else if d == 3 {
        "3"
    } else if d == 4 {
        "4"
    } else if d == 5 {
        "5"
    } else if d == 6 {
        "6"
    } else if d == 7 {
        "7"
    } else if d == 8 {
        "8"
    } else {
        "9"
    };
    assert(text@ =~= seq![digit_char(d as int)]);
    text
}

/// Appends a number in decimal.
pub fn push_unsigned(out: &mut String, v: u64)
    ensures
        final(out)@ == old(out)@ + decimal_digits(v as nat),
{
    let mut digits: Vec<u64> = Vec::new();
    let mut rest: u64 = v;
    while rest >= 10
        invariant
            forall|k: int| 0 <= k < digits@.len() ==> #[trigger] digits@[k] < 10,
            decimal_digits(v as nat) == decimal_digits(rest as nat) + Seq::new(
                digits@.len(),
                |k: int| digit_char(digits@[digits@.len() - 1 - k] as int),
            ),
        decreases rest,
    {
        let ghost tail = Seq::new(
            digits@.len(),
            |k: int| digit_char(digits@[digits@.len() - 1 - k] as int),
        );
        let d = rest % 10;
        digits.push(d);
        proof {
            let tail_next = Seq::new(
                digits@.len(),
                |k: int| digit_char(digits@[digits@.len() - 1 - k] as int),
            );
            assert(tail_next =~= seq![digit_char(d as int)] + tail);
            assert(decimal_digits(rest as nat) == decimal_digits((rest / 10) as nat).push(
                digit_char(d as int),
            ));
            assert(decimal_digits(rest as nat) + tail =~= decimal_digits((rest / 10) as nat)
                + tail_next);
        }
        rest = rest / 10;
    }
    let ghost start = out@;
    out.append(digit_str(rest));
    let mut i: usize = digits.len();
    while i > 0
        invariant
            0 <= i <= digits@.len(),
            rest < 10,
            forall|k: int| 0 <= k < digits@.len() ==> #[trigger] digits@[k] < 10,
            start == old(out)@,
            out@ == start + decimal_digits(rest as nat) + Seq::new(
                (digits@.len() - i) as nat,
                |k: int| digit_char(digits@[digits@.len() - 1 - k] as int),
            ),
        decreases i,
    {
        i -= 1;
        let ghost done = Seq::new(
            (digits@.len() - i - 1) as nat,
            |k: int| digit_char(digits@[digits@.len() - 1 - k] as int),
        );
        let ghost before = out@;
        out.append(digit_str(digits[i]));
        proof {
            let done_next = Seq::new(
                (digits@.len() - i) as nat,
                |k: int| digit_char(digits@[digits@.len() - 1 - k] as int),
            );
            assert(done_next =~= done.push(digit_char(digits@[i as int] as int)));
            assert(out@ =~= start + decimal_digits(rest as nat) + done_next);
        }
    }
    assert(out@ =~= old(out)@ + decimal_digits(v as nat));
}

/// Appends an integer in decimal.
pub fn push_decimal(out: &mut String, v: i64)
    ensures
        final(out)@ == old(out)@ + decimal(v as int),
{
    if v < 0 {
        proof {
            reveal_strlit("-");
        }
        out.append("-");
        let magnitude: u64 = if v == -9223372036854775808 {
            9223372036854775808
        } else {
            (-v) as u64
        };
        push_unsigned(out, magnitude);
        assert(out@ =~= old(out)@ + decimal(v as int));
    } else {
        push_unsigned(out, v as u64);
    }
}

} // verus!
