use vstd::prelude::*;
use vstd::string::StringExecFns;

verus! {

/// The character of one decimal digit.
pub open spec fn digit_char(d: nat) -> char {
    if d == 0 { '0' }
    else if d == 1 { '1' }
    else if d == 2 { '2' }
    else if d == 3 { '3' }
    else if d == 4 { '4' }
    else if d == 5 { '5' }
    else if d == 6 { '6' }
    else if d == 7 { '7' }
    else if d == 8 { '8' }
    else { '9' }
}

/// Decimal notation of a natural number, without leading zeros.
pub open spec fn decimal(n: nat) -> Seq<char>
    decreases n,
{
    if n < 10 {
        seq![digit_char(n)]
    } else {
        decimal(n / 10).push(digit_char(n % 10))
    }
}

/// `num / den` rounded to the nearest tenth (ties to even), in tenths.
pub open spec fn tenths_rounded(num: nat, den: nat) -> nat
    recommends
        den > 0,
{
    let q = (num * 10) / den;
    let rem = (num * 10) % den;
    if 2 * rem > den || (2 * rem == den && q % 2 == 1) {
        q + 1
    } else {
        q
    }
}

/// Fixed-point notation with one decimal of a number given in tenths.
pub open spec fn one_decimal(tenths: nat) -> Seq<char> {
    decimal(tenths / 10).push('.').push(digit_char(tenths % 10))
}

fn digit_str(d: u8) -> (s: &'static str)
    requires
        d < 10,
    ensures
        s@ == seq![digit_char(d as nat)],
{
    proof {
        reveal_strlit("0");
        reveal_strlit("1");
        reveal_strlit("2");
        reveal_strlit("3");
        reveal_strlit("4");
        reveal_strlit("5");
        reveal_strlit("6");
        reveal_strlit("7");
        reveal_strlit("8");
        reveal_strlit("9");
    }
    match d {
        0 => "0",
        1 => "1",
        2 => "2",
        3 => "3",
        4 => "4",
        5 => "5",
        6 => "6",
        7 => "7",
        8 => "8",
        _ => "9",
    }
}

/// Decimal notation of `n`.
pub fn decimal_string(n: u128) -> (s: String)
    ensures
        s@ == decimal(n as nat),
    decreases n,
{
    if n < 10 {
        digit_str(n as u8).to_owned()
    } else {
        let prefix = decimal_string(n / 10);
        prefix.concat(digit_str((n % 10) as u8))
    }
}

/// `num / den` with one decimal, rounded to the nearest tenth.
pub fn one_decimal_string(num: u64, den: u64) -> (s: String)
    requires
        den > 0,
    ensures
        s@ == one_decimal(tenths_rounded(num as nat, den as nat)),
{
    let scaled: u128 = num as u128 * 10;
    let q: u128 = scaled / den as u128;
    let rem: u128 = scaled % den as u128;
    let tenths: u128 = if 2 * rem > den as u128 || (2 * rem == den as u128 && q % 2 == 1) {
        q + 1
    } else {
        q
    };
    proof {
        reveal_strlit(".");
    }
    let whole = decimal_string(tenths / 10);
    let with_point = whole.concat(".");
    with_point.concat(digit_str((tenths % 10) as u8))
}

} // verus!
