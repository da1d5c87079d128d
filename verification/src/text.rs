use vstd::prelude::*;

verus! {

/// The character of a decimal digit.
pub open spec fn digit_char(d: nat) -> char {
    (48 + d) as char
}

/// The decimal representation of `n`, without leading zeros.
pub open spec fn decimal(n: nat) -> Seq<char>
    decreases n,
{
    if n < 10 {
        seq![digit_char(n)]
    } else {
        decimal(n / 10).push(digit_char(n % 10))
    }
}

/// The value of a decimal digit character, if it is one.
pub open spec fn digit_value(c: char) -> Option<int> {
    let x = c as int;
    if 48 <= x <= 57 {
        Some(x - 48)
    } else {
        None
    }
}

/// The number that a text of decimal digits spells, read most significant digit first; `None`
/// where the text is empty or holds anything but digits.
pub open spec fn numeral_value(s: Seq<char>) -> Option<int>
    decreases s.len(),
{
    if s.len() == 0 {
        None
    } else {
        let last = digit_value(s.last());
        if s.len() == 1 {
            last
        } else {
            match (numeral_value(s.drop_last()), last) {
                (Some(high), Some(low)) => Some(high * 10 + low),
                _ => None,
            }
        }
    }
}

/// The integer that a text spells: an optional minus sign followed by decimal digits.
pub open spec fn signed_numeral_value(s: Seq<char>) -> Option<int> {
    if s.len() > 0 && s[0] == '-' {
        match numeral_value(s.drop_first()) {
            Some(v) => Some(-v),
            None => None,
        }
    } else {
        numeral_value(s)
    }
}

/// `decimal(n)` is the base-10 numeral of `n`: read back digit by digit it spells `n`, and it
/// has no leading zero (so no digit is missing or added).
pub proof fn law_decimal_spells_its_number(n: nat)
    ensures
        numeral_value(decimal(n)) == Some(n as int),
        decimal(n).len() >= 1,
        decimal(n)[0] == '0' ==> n == 0,
        decimal(n)[0] != '-',
    decreases n,
{
    if n >= 10 {
        law_decimal_spells_its_number(n / 10);
        let high = decimal(n / 10);
        let s = decimal(n);
        assert(s.drop_last() =~= high);
        assert(digit_value(digit_char(n % 10)) == Some((n % 10) as int));
        assert(s[0] == high[0]);
    } else {
        assert(digit_value(digit_char(n)) == Some(n as int));
    }
}

/// `signed_decimal(n)` spells `n`: a minus sign exactly where `n` is negative, followed by the
/// numeral of its magnitude.
pub proof fn law_signed_decimal_spells_its_number(n: int)
    ensures
        signed_numeral_value(signed_decimal(n)) == Some(n),
        (signed_decimal(n)[0] == '-') == (n < 0),
        n >= 0 ==> signed_decimal(n) == decimal(n as nat),
{
    if n < 0 {
        law_decimal_spells_its_number((-n) as nat);
        assert(signed_decimal(n).drop_first() =~= decimal((-n) as nat));
    } else {
        law_decimal_spells_its_number(n as nat);
    }
}

fn digit_str(d: u32) -> (s: &'static str)
    requires
        d < 10,
    ensures
        s@ == seq![digit_char(d as nat)],
{
    proof {
        reveal_strlit("0");
        reveal_strlit("1");
        reveal_strlit("2");
        reveal_strlit("3");
        reveal_strlit("4");
        reveal_strlit("5");
        reveal_strlit("6");
        reveal_strlit("7");
        reveal_strlit("8");
        reveal_strlit("9");
    }
    let s = if d == 0 {
        "0"
    } else if d == 1 {
        "1"
    } else if d == 2 {
        "2"
    } else if d == 3 {
        "3"
    } else if d == 4 {
        "4"
    } else if d == 5 {
        "5"
    } else if d == 6 {
        "6"
    } else if d == 7 {
        "7"
    } else if d == 8 {
        "8"
    } else {
        "9"
    };
    assert(s@ =~= seq![digit_char(d as nat)]);
    s
}

pub(crate) fn append_decimal(s: &mut String, n: u32)
    ensures
        final(s)@ == old(s)@ + decimal(n as nat),
    decreases n,
{
    if n >= 10 {
        append_decimal(s, n / 10);
    }
    s.append(digit_str(n % 10));
    assert(old(s)@ + decimal(n as nat) =~= final(s)@) by {
        if n >= 10 {
            assert(decimal(n as nat) == decimal((n / 10) as nat).push(digit_char((n % 10) as nat)));
        }
    }
}

/// The decimal representation of `n`, with a minus sign where it is negative.
pub open spec fn signed_decimal(n: int) -> Seq<char> {
    if n < 0 {
        seq!['-'] + decimal((-n) as nat)
    } else {
        decimal(n as nat)
    }
}

pub(crate) fn append_signed_decimal(s: &mut String, n: i32)
    ensures
        final(s)@ == old(s)@ + signed_decimal(n as int),
{
    proof {
        reveal_strlit("-");
    }
    if n < 0 {
        s.append("-");
        let magnitude: u32 = (-(n as i64)) as u32;
        append_decimal(s, magnitude);
        assert(final(s)@ =~= old(s)@ + signed_decimal(n as int));
    } else {
        append_decimal(s, n as u32);
    }
}

} // verus!
