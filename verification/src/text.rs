//! Numbers and dates written out as text, as the provider's address needs
//! them.

use crate::dates::Date;
use vstd::prelude::*;
use vstd::string::*;

verus! {

/// The character of a decimal digit.
pub open spec fn digit(d: int) -> char {
    if d == 0 {
        '0'
    } else if d == 1 {
        '1'
    } else if d == 2 {
        '2'
    } else if d == 3 {
        '3'
    } else if d == 4 {
        '4'
    } else if d == 5 {
        '5'
    } else if d == 6 {
        '6'
    } else if d == 7 {
        '7'
    } else if d == 8 {
        '8'
    } else {
        '9'
    }
}

/// A natural number in decimal, without leading zeros.
pub open spec fn decimal(n: nat) -> Seq<char>
    decreases n,
{
    if n < 10 {
        seq![digit(n as int)]
    } else {
        decimal(n / 10).push(digit((n % 10) as int))
    }
}

/// An integer in decimal, with a minus sign where it is negative.
pub open spec fn signed_decimal(n: int) -> Seq<char> {
    if n < 0 {
        seq!['-'] + decimal((-n) as nat)
    } else {
        decimal(n as nat)
    }
}

/// A natural number in decimal, with leading zeros up to two digits.
pub open spec fn two_digits(n: nat) -> Seq<char> {
    if n < 10 {
        seq!['0'] + decimal(n)
    } else {
        decimal(n)
    }
}

/// A natural number in decimal, with leading zeros up to four digits.
pub open spec fn four_digits(n: nat) -> Seq<char> {
    if n < 10 {
        seq!['0', '0', '0'] + decimal(n)
    } else if n < 100 {
        seq!['0', '0'] + decimal(n)
    } else if n < 1000 {
        seq!['0'] + decimal(n)
    } else {
        decimal(n)
    }
}

/// A year as ISO 8601 writes it: four digits, and a sign in front of a year
/// outside 0..=9999.
pub open spec fn iso_year(year: int) -> Seq<char> {
    if 0 <= year <= 9999 {
        four_digits(year as nat)
    } else if year < 0 {
        seq!['-'] + four_digits((-year) as nat)
    } else {
        seq!['+'] + four_digits(year as nat)
    }
}

/// A date as year-month-day.
pub open spec fn iso_date(date: Date) -> Seq<char> {
    iso_year(date.year as int) + seq!['-'] + two_digits(date.month as nat) + seq!['-']
        + two_digits(date.day as nat)
}

/// The first `n` texts, with `separator` between them.
pub open spec fn joined(items: Seq<Seq<char>>, separator: Seq<char>, n: int) -> Seq<char>
    decreases n,
{
    if n <= 0 {
        Seq::empty()
    } else if n == 1 {
        items[0]
    } else {
        joined(items, separator, n - 1) + separator + items[n - 1]
    }
}

/// The texts of a list of strings.
pub open spec fn texts(items: Seq<String>) -> Seq<Seq<char>> {
    items.map_values(|s: String| s@)
}

/// The text of one decimal digit.
pub fn digit_text(d: u64) -> (r: &'static str)
    requires
        d < 10,
    ensures
        r@ == seq![digit(d as int)],
{
    proof {
        reveal_strlit("0");
        reveal_strlit("1");
        reveal_strlit("2");
        reveal_strlit("3");
        reveal_strlit("4");
        reveal_strlit("5");
        reveal_strlit("6");
        reveal_strlit("7");
        reveal_strlit("8");
        reveal_strlit("9");
    }
    let r = if d == 0 {
        "0"
    } else if d == 1 {
        "1"
    } else if d == 2 {
        "2"
    } else if d == 3 {
        "3"
    } else if d == 4 {
        "4"
    } else if d == 5 {
        "5"
    } else if d == 6 {
        "6"
    } else if d == 7 {
        "7"
    } else if d == 8 {
        "8"
    } else {
        "9"
    };
    assert(r@ =~= seq![digit(d as int)]);
    r
}

/// Writes a natural number in decimal.
pub fn decimal_text(n: u64) -> (r: String)
    ensures
        r@ == decimal(n as nat),
{
    let mut rest: u64 = n / 10;
    let mut text = String::from_str(digit_text(n % 10));
    while rest > 0
        invariant
            rest > 0 ==> decimal(n as nat) == decimal(rest as nat) + text@,
            rest == 0 ==> decimal(n as nat) == text@,
        decreases rest,
    {
        let d: u64 = rest % 10;
        let next: u64 = rest / 10;
        let ghost old_text = text@;
        text = String::from_str(digit_text(d)).concat(text.as_str());
        proof {
            assert(text@ == seq![digit(d as int)] + old_text);
            if rest < 10 {
                assert(decimal(rest as nat) == seq![digit(d as int)]);
            } else {
                assert(decimal(rest as nat) == decimal(next as nat).push(digit(d as int)));
                assert(decimal(next as nat).push(digit(d as int)) + old_text =~= decimal(
                    next as nat,
                ) + (seq![digit(d as int)] + old_text));
            }
        }
        rest = next;
    }
    text
}

/// Writes an integer in decimal, with a minus sign where it is negative.
pub fn signed_decimal_text(n: i64) -> (r: String)
    ensures
        r@ == signed_decimal(n as int),
{
    if n < 0 {
        let magnitude: u64 = if n == i64::MIN {
            9223372036854775808u64
        } else {
            (0 - n) as u64
        };
        proof {
            reveal_strlit("-");
        }
        let r = String::from_str("-").concat(decimal_text(magnitude).as_str());
        assert(r@ =~= seq!['-'] + decimal((-n) as nat));
        r
    } else {
        decimal_text(n as u64)
    }
}

/// Writes a natural number in decimal, with leading zeros up to two digits.
pub fn two_digits_text(n: u32) -> (r: String)
    ensures
        r@ == two_digits(n as nat),
{
    if n < 10 {
        proof {
            reveal_strlit("0");
        }
        let r = String::from_str("0").concat(decimal_text(n as u64).as_str());
        assert(r@ =~= seq!['0'] + decimal(n as nat));
        r
    } else {
        decimal_text(n as u64)
    }
}

/// Writes a natural number in decimal, with leading zeros up to four digits.
pub fn four_digits_text(n: u64) -> (r: String)
    ensures
        r@ == four_digits(n as nat),
{
    proof {
        reveal_strlit("000");
        reveal_strlit("00");
        reveal_strlit("0");
    }
    if n < 10 {
        let r = String::from_str("000").concat(decimal_text(n).as_str());
        assert(r@ =~= seq!['0', '0', '0'] + decimal(n as nat));
        r
    } else if n < 100 {
        let r = String::from_str("00").concat(decimal_text(n).as_str());
        assert(r@ =~= seq!['0', '0'] + decimal(n as nat));
        r
    } else if n < 1000 {
        let r = String::from_str("0").concat(decimal_text(n).as_str());
        assert(r@ =~= seq!['0'] + decimal(n as nat));
        r
    } else {
        decimal_text(n)
    }
}

/// Writes a year as ISO 8601 does.
pub fn iso_year_text(year: i32) -> (r: String)
    ensures
        r@ == iso_year(year as int),
{
    proof {
        reveal_strlit("-");
        reveal_strlit("+");
    }
    if 0 <= year && year <= 9999 {
        four_digits_text(year as u64)
    } else if year < 0 {
        let magnitude: u64 = (0 - (year as i64)) as u64;
        let r = String::from_str("-").concat(four_digits_text(magnitude).as_str());
        assert(r@ =~= seq!['-'] + four_digits((-year) as nat));
        r
    } else {
        let r = String::from_str("+").concat(four_digits_text(year as u64).as_str());
        assert(r@ =~= seq!['+'] + four_digits(year as nat));
        r
    }
}

/// Writes a date as year-month-day.
pub fn iso_date_text(date: Date) -> (r: String)
    ensures
        r@ == iso_date(date),
{
    proof {
        reveal_strlit("-");
    }
    let mut r = iso_year_text(date.year);
    r.append("-");
    r.append(two_digits_text(date.month).as_str());
    r.append("-");
    r.append(two_digits_text(date.day).as_str());
    assert(r@ =~= iso_date(date));
    r
}

/// Joins the texts with `separator` between them.
pub fn join(items: &Vec<String>, separator: &str) -> (r: String)
    ensures
        r@ == joined(texts(items@), separator@, items.len() as int),
{
    let mut r = String::new();
    let mut i: usize = 0;
    while i < items.len()
        invariant
            0 <= i <= items.len(),
            r@ == joined(texts(items@), separator@, i as int),
        decreases items.len() - i,
    {
        if i > 0 {
            r.append(separator);
        }
        r.append(items[i].as_str());
        proof {
            assert(texts(items@)[i as int] == items[i as int]@);
            if i == 0 {
                assert(r@ =~= items[0]@);
            }
        }
        i = i + 1;
    }
    r
}

} // verus!
