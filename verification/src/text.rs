//! Numbers as text.

use vstd::prelude::*;
use vstd::string::StringExecFns;

verus! {

/// The character of a decimal digit.
pub open spec fn digit_char(d: nat) -> char {
    if d == 0 {
        '0'
    } else if d == 1 {
        '1'
    } else if d == 2 {
        '2'
    } else if d == 3 {
        '3'
    } else if d == 4 {
        '4'
    } else if d == 5 {
        '5'
    } else if d == 6 {
        '6'
    } else if d == 7 {
        '7'
    } else if d == 8 {
        '8'
    } else {
        '9'
    }
}

/// The decimal digits of `n`, most significant first, without leading zeros.
pub open spec fn decimal_digits(n: nat) -> Seq<char>
    decreases n,
{
    if n < 10 {
        seq![digit_char(n)]
    } else {
        decimal_digits(n / 10).push(digit_char(n % 10))
    }
}

/// The characters of the digits in `low`, which holds the least significant digit first.
pub open spec fn high_first(low: Seq<u8>) -> Seq<char> {
    Seq::new(low.len(), |i: int| digit_char(low[low.len() - 1 - i] as nat))
}

/// The text of one decimal digit.
fn digit_text(d: u8) -> (text: &'static str)
    requires
        d < 10,
    ensures
        text@ == seq![digit_char(d as nat)],
{
    proof {
        reveal_strlit("0");
        reveal_strlit("1");
        reveal_strlit("2");
        reveal_strlit("3");
        reveal_strlit("4");
        reveal_strlit("5");
        reveal_strlit("6");
        reveal_strlit("7");
        reveal_strlit("8");
        reveal_strlit("9");
    }
    let text = if d == 0 {
        "0"
    } else if d == 1 {
        "1"
    } else if d == 2 {
        "2"
    } else if d == 3 {
        "3"
    } else if d == 4 {
        "4"
    } else if d == 5 {
        "5"
    } else if d == 6 {
        "6"
    } else if d == 7 {
        "7"
    } else if d == 8 {
        "8"
    } else {
        "9"
    };
    assert(text@ =~= seq![digit_char(d as nat)]);
    text
}

/// `n` in decimal.
pub fn decimal(n: u64) -> (text: String)
    ensures
        text@ == decimal_digits(n as nat),
{
    let mut low: Vec<u8> = Vec::new();
    let mut rest: u64 = n;
    assert(decimal_digits(n as nat) =~= decimal_digits(rest as nat) + high_first(low@));
    while rest >= 10
        invariant
            forall|i: int| 0 <= i < low@.len() ==> low@[i] < 10,
            decimal_digits(n as nat) == decimal_digits(rest as nat) + high_first(low@),
        decreases rest,
    {
        let digit: u8 = (rest % 10) as u8;
        let ghost before = low@;
        low.push(digit);
        proof {
            let lead = decimal_digits((rest / 10) as nat);
            assert(high_first(low@) =~= seq![digit_char(digit as nat)] + high_first(before));
            assert(lead.push(digit_char(digit as nat)) + high_first(before) =~= lead + high_first(
                low@,
            ));
        }
        rest = rest / 10;
    }
    let mut text = String::from_str(digit_text(rest as u8));
    let mut k: usize = low.len();
    assert(high_first(low@).take(0) =~= Seq::<char>::empty());
    while k > 0
        invariant
            k <= low@.len(),
            forall|i: int| 0 <= i < low@.len() ==> low@[i] < 10,
            text@ == decimal_digits(rest as nat) + high_first(low@).take(low@.len() - k),
        decreases k,
    {
        k -= 1;
        text.append(digit_text(low[k]));
        proof {
            let all = high_first(low@);
            let done = low@.len() - k - 1;
            assert(all.take(done + 1) =~= all.take(done).push(digit_char(low@[k as int] as nat)));
        }
    }
    assert(high_first(low@).take(low@.len() as int) =~= high_first(low@));
    text
}

/// The decimal digits of a number that may be negative: a minus sign, then the digits.
pub open spec fn signed_digits(n: int) -> Seq<char> {
    if n < 0 {
        seq!['-'] + decimal_digits((-n) as nat)
    } else {
        decimal_digits(n as nat)
    }
}

/// `n` in decimal.
pub fn signed_decimal(n: i64) -> (text: String)
    ensures
        text@ == signed_digits(n as int),
{
    if n < 0 {
        let size: u64 = if n == i64::MIN {
            9_223_372_036_854_775_808
        } else {
            (-n) as u64
        };
        proof {
            reveal_strlit("-");
            assert("-"@ =~= seq!['-']);
        }
        let mut text = String::from_str("-");
        let digits = decimal(size);
        text.append(digits.as_str());
        text
    } else {
        decimal(n as u64)
    }
}

} // verus!
