//! Numbers written in decimal, as the directory's keys and the
//! configuration hold them.

use vstd::prelude::*;
use vstd::string::StringExecFns;

verus! {

/// The character of a digit.
pub open spec fn digit_char(d: nat) -> char
    recommends
        d < 10,
{
    if d == 0 {
        '0'
    } else if d == 1 {
        '1'
    } else if d == 2 {
        '2'
    } else if d == 3 {
        '3'
    } else if d == 4 {
        '4'
    } else if d == 5 {
        '5'
    } else if d == 6 {
        '6'
    } else if d == 7 {
        '7'
    } else if d == 8 {
        '8'
    } else {
        '9'
    }
}

/// `n` in decimal, without leading zeros.
pub open spec fn decimal(n: nat) -> Seq<char>
    decreases n,
{
    if n < 10 {
        seq![digit_char(n)]
    } else {
        decimal(n / 10).push(digit_char(n % 10))
    }
}

/// The digit that a character stands for, if it is one.
pub open spec fn digit_value(c: char) -> Option<nat> {
    if c == '0' {
        Some(0)
    } else if c == '1' {
        Some(1)
    } else if c == '2' {
        Some(2)
    } else if c == '3' {
        Some(3)
    } else if c == '4' {
        Some(4)
    } else if c == '5' {
        Some(5)
    } else if c == '6' {
        Some(6)
    } else if c == '7' {
        Some(7)
    } else if c == '8' {
        Some(8)
    } else if c == '9' {
        Some(9)
    } else {
        None
    }
}

/// Every character of `text` is a digit.
pub open spec fn all_digits(text: Seq<char>) -> bool {
    forall|i: int| 0 <= i < text.len() ==> digit_value(#[trigger] text[i]) is Some
}

/// The number that the digits `text` spell; nothing spells 0.
pub open spec fn digits_value(text: Seq<char>) -> nat
    decreases text.len(),
{
    if text.len() == 0 {
        0
    } else {
        digits_value(text.drop_last()) * 10 + digit_value(text.last()).unwrap_or(0)
    }
}

/// The digits of a number in text: all of it, or all behind a leading `+`.
pub open spec fn number_digits(text: Seq<char>) -> Seq<char> {
    if text.len() > 0 && text[0] == '+' {
        text.drop_first()
    } else {
        text
    }
}

/// The number that `text` spells, where it spells one that is at most
/// `limit`: one digit or more, with or without a `+` in front.
pub open spec fn parsed(text: Seq<char>, limit: nat) -> Option<nat> {
    let digits = number_digits(text);
    if digits.len() > 0 && all_digits(digits) && digits_value(digits) <= limit {
        Some(digits_value(digits))
    } else {
        None
    }
}

/// The digit `d` as text.
fn digit_text(d: u64) -> (text: &'static str)
    requires
        d < 10,
    ensures
        text@ == seq![digit_char(d as nat)],
{
    proof {
        reveal_strlit("0");
        reveal_strlit("1");
        reveal_strlit("2");
        reveal_strlit("3");
        reveal_strlit("4");
        reveal_strlit("5");
        reveal_strlit("6");
        reveal_strlit("7");
        reveal_strlit("8");
        reveal_strlit("9");
    }
    let text = if d == 0 {
        "0"
    } else if d == 1 {
        "1"
    } else if d == 2 {
        "2"
    } else if d == 3 {
        "3"
    } else if d == 4 {
        "4"
    } else if d == 5 {
        "5"
    } else if d == 6 {
        "6"
    } else if d == 7 {
        "7"
    } else if d == 8 {
        "8"
    } else {
        "9"
    };
    text
}

/// Writes `n` in decimal behind what `out` holds.
pub fn push_decimal(out: &mut String, n: u64)
    ensures
        final(out)@ == old(out)@ + decimal(n as nat),
    decreases n,
{
    if n >= 10 {
        push_decimal(out, n / 10);
    }
    out.append(digit_text(n % 10));
}

/// `prefix` with `n` in decimal behind it.
pub fn numbered(prefix: &str, n: u64) -> (name: String)
    ensures
        name@ == prefix@ + decimal(n as nat),
{
    let mut name = String::from_str(prefix);
    push_decimal(&mut name, n);
    name
}

/// The digit that `c` stands for.
fn digit_of(c: char) -> (d: Option<u64>)
    ensures
        match d {
            Some(v) => digit_value(c) == Some(v as nat) && v < 10,
            None => digit_value(c) is None,
        },
{
    if c == '0' {
        Some(0)
    } else if c == '1' {
        Some(1)
    } else if c == '2' {
        Some(2)
    } else if c == '3' {
        Some(3)
    } else if c == '4' {
        Some(4)
    } else if c == '5' {
        Some(5)
    } else if c == '6' {
        Some(6)
    } else if c == '7' {
        Some(7)
    } else if c == '8' {
        Some(8)
    } else if c == '9' {
        Some(9)
    } else {
        None
    }
}

/// The digits spell a number that grows with each further digit.
pub proof fn lemma_digits_value_grows(text: Seq<char>, k: int)
    requires
        0 <= k <= text.len(),
    ensures
        digits_value(text.take(k)) <= digits_value(text),
    decreases text.len() - k,
{
    if k < text.len() {
        lemma_digits_value_grows(text, k + 1);
        assert(text.take(k + 1).drop_last() =~= text.take(k));
    } else {
        assert(text.take(k) =~= text);
    }
}

/// Reads a number in decimal: one digit or more, with or without a `+` in
/// front, and at most `u64::MAX`.
pub fn parse_u64(text: &str) -> (n: Option<u64>)
    ensures
        match n {
            Some(v) => parsed(text@, u64::MAX as nat) == Some(v as nat),
            None => parsed(text@, u64::MAX as nat) is None,
        },
{
    let ghost digits = number_digits(text@);
    let mut value: u64 = 0;
    let ghost mut seen: int = 0;
    let mut any = false;
    let mut first = true;
    for c in it: text.chars()
        invariant
            it.seq() == text@,
            digits == number_digits(text@),
            first == (it.index() == 0),
            !first ==> seen == it.index() - (text@.len() - digits.len()),
            first ==> seen == 0,
            0 <= seen <= digits.len(),
            any == (seen > 0),
            !first ==> digits.take(seen as int) =~= text@.subrange(
                text@.len() - digits.len(),
                it.index() as int,
            ),
            all_digits(digits.take(seen as int)),
            value == digits_value(digits.take(seen as int)),
    {
        let sign = first && c == '+';
        first = false;
        if !sign {
            proof {
                assert(digits.take(seen + 1).drop_last() =~= digits.take(seen as int));
                lemma_digits_value_grows(digits, seen + 1);
            }
            let d = match digit_of(c) {
                Some(d) => d,
                None => {
                    return None;
                },
            };
            if value > (u64::MAX - d) / 10 {
                return None;
            }
            value = value * 10 + d;
            any = true;
            proof {
                seen = seen + 1;
            }
        }
    }
    proof {
        assert(digits.take(seen as int) =~= digits);
    }
    if !any {
        return None;
    }
    Some(value)
}

} // verus!
