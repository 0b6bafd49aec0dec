//! Numbers from zero to one as text with six decimals.

use vstd::prelude::*;
use crate::single::{millionths_of, Single};
use crate::text::digit_char;

verus! {

/// The digit of `n` that stands before this power of ten.
pub open spec fn digit_at(n: nat, power: nat) -> char {
    crate::text::digit(n / power % 10)
}

/// A number from zero to one with six decimals, with its sign where that is a minus.
pub open spec fn six_decimals(v: Single) -> Seq<char> {
    let n = crate::single::millionths(v);
    let digits = seq![
        digit_at(n, 1_000_000),
        '.',
        digit_at(n, 100_000),
        digit_at(n, 10_000),
        digit_at(n, 1000),
        digit_at(n, 100),
        digit_at(n, 10),
        digit_at(n, 1),
    ];
    if v.negative() {
        seq!['-'] + digits
    } else {
        digits
    }
}

/// Writes a number from zero to one with six decimals.
pub fn write_six_decimals(v: Single) -> (r: Vec<char>)
    requires
        crate::single::is_part(v),
    ensures
        r@ == six_decimals(v),
{
    let n: u32 = millionths_of(v);
    let mut out: Vec<char> = Vec::new();
    if v.is_negative() {
        out.push('-');
    }
    out.push(digit_char(n / 1_000_000 % 10));
    out.push('.');
    out.push(digit_char(n / 100_000 % 10));
    out.push(digit_char(n / 10_000 % 10));
    out.push(digit_char(n / 1000 % 10));
    out.push(digit_char(n / 100 % 10));
    out.push(digit_char(n / 10 % 10));
    out.push(digit_char(n / 1 % 10));
    assert(out@ =~= six_decimals(v));
    out
}

/// A text without the minus before it.
pub open spec fn after_minus(t: Seq<char>) -> Seq<char> {
    if t.len() > 0 && t[0] == '-' {
        t.drop_first()
    } else {
        t
    }
}

/// One digit, a point and six digits.
pub open spec fn has_six_decimals(d: Seq<char>) -> bool {
    &&& d.len() == 8
    &&& d[1] == '.'
    &&& crate::text::is_digit(d[0])
    &&& crate::text::is_digit(d[2])
    &&& crate::text::is_digit(d[3])
    &&& crate::text::is_digit(d[4])
    &&& crate::text::is_digit(d[5])
    &&& crate::text::is_digit(d[6])
    &&& crate::text::is_digit(d[7])
}

/// The value of a digit.
pub open spec fn face(c: char) -> int {
    c as int - '0' as int
}

/// The millionths that a digit, a point and six digits count.
pub open spec fn counted(d: Seq<char>) -> int {
    face(d[0]) * 1_000_000 + face(d[2]) * 100_000 + face(d[3]) * 10_000 + face(d[4]) * 1000 + face(
        d[5],
    ) * 100 + face(d[6]) * 10 + face(d[7])
}

/// The number that a text with six decimals and one digit before them reads as, with a minus or
/// without; none for any other text.
pub open spec fn six_decimals_read(t: Seq<char>) -> Option<Single> {
    let d = after_minus(t);
    if has_six_decimals(d) {
        Some(crate::single::of_millionths(d.len() < t.len(), counted(d) as u32))
    } else {
        None
    }
}

fn digit_value(c: char) -> (r: Option<u32>)
    ensures
        crate::text::is_digit(c) ==> r == Some(face(c) as u32),
        !crate::text::is_digit(c) ==> r is None,
        r matches Some(n) ==> n < 10,
{
    if '0' <= c && c <= '9' {
        Some(c as u32 - '0' as u32)
    } else {
        None
    }
}

/// Reads a number with six decimals and one digit before them.
pub fn read_six_decimals(t: &Vec<char>) -> (r: Option<Single>)
    ensures
        r == six_decimals_read(t@),
{
    let minus: bool = t.len() > 0 && t[0] == '-';
    let at: usize = if minus {
        1
    } else {
        0
    };
    let ghost d = after_minus(t@);
    assert(forall|i: int| 0 <= i < d.len() ==> d[i] == t@[i + at]);
    if t.len() - at != 8 || t[at + 1] != '.' {
        return None;
    }
    let parts: (
        Option<u32>,
        Option<u32>,
        Option<u32>,
        Option<u32>,
        Option<u32>,
        Option<u32>,
        Option<u32>,
    ) = (
        digit_value(t[at]),
        digit_value(t[at + 2]),
        digit_value(t[at + 3]),
        digit_value(t[at + 4]),
        digit_value(t[at + 5]),
        digit_value(t[at + 6]),
        digit_value(t[at + 7]),
    );
    match parts {
        (Some(a), Some(b), Some(c), Some(e), Some(f), Some(g), Some(h)) => {
            let n: u32 = a * 1_000_000 + b * 100_000 + c * 10_000 + e * 1000 + f * 100 + g * 10 + h;
            assert(n == counted(d));
            let v: Single = Single::ratio(n, 1_000_000);
            Some(
                if minus {
                    v.neg()
                } else {
                    v
                },
            )
        },
        _ => None,
    }
}

/// The characters of a number written out: digits, a point, a sign.
pub open spec fn is_numeral(t: Seq<char>) -> bool {
    &&& t.len() > 0
    &&& forall|i: int|
        0 <= i < t.len() ==> #[trigger] crate::text::is_digit(t[i]) || t[i] == '.' || t[i] == '-'
}

proof fn lemma_digit(n: nat, power: nat)
    requires
        power > 0,
    ensures
        crate::text::is_digit(digit_at(n, power)),
        face(digit_at(n, power)) == n / power % 10,
{
}

/// A number is the sum of its digits, each times its power of ten.
proof fn lemma_sum_of_digits(n: nat)
    requires
        n < 10_000_000,
    ensures
        n == (n / 1_000_000 % 10) * 1_000_000 + (n / 100_000 % 10) * 100_000 + (n / 10_000 % 10)
            * 10_000 + (n / 1000 % 10) * 1000 + (n / 100 % 10) * 100 + (n / 10 % 10) * 10 + n % 10,
{
    let a = n / 10;
    let b = n / 100;
    let c = n / 1000;
    let d = n / 10_000;
    let e = n / 100_000;
    let f = n / 1_000_000;
    assert(b == a / 10 && c == b / 10 && d == c / 10 && e == d / 10 && f == e / 10);
}

/// What is written of a number from zero to one is a numeral, and reads as a number from zero to
/// one that is at most a millionth off.
pub proof fn six_decimals_read_back(v: Single)
    requires
        crate::single::is_part(v),
    ensures
        is_numeral(six_decimals(v)),
        six_decimals_read(six_decimals(v)) matches Some(u) && crate::single::is_part(u)
            && crate::single::is_near(v, u),
{
    crate::single::millionths_stay_near(v);
    let n = crate::single::millionths(v);
    let t = six_decimals(v);
    let d = after_minus(t);
    let digits = seq![
        digit_at(n, 1_000_000),
        '.',
        digit_at(n, 100_000),
        digit_at(n, 10_000),
        digit_at(n, 1000),
        digit_at(n, 100),
        digit_at(n, 10),
        digit_at(n, 1),
    ];
    assert(d =~= digits);
    lemma_digit(n, 1_000_000);
    lemma_digit(n, 100_000);
    lemma_digit(n, 10_000);
    lemma_digit(n, 1000);
    lemma_digit(n, 100);
    lemma_digit(n, 10);
    lemma_digit(n, 1);
    lemma_sum_of_digits(n);
    assert(n / 1 == n);
    assert(counted(d) == n);
    assert forall|i: int| 0 <= i < t.len() implies #[trigger] crate::text::is_digit(t[i]) || t[i]
        == '.' || t[i] == '-' by {
        let k = if v.negative() {
            i - 1
        } else {
            i
        };
        assert(k >= 0 ==> t[i] == digits[k]);
        assert(k == -1 || k == 0 || k == 1 || k == 2 || k == 3 || k == 4 || k == 5 || k == 6 || k
            == 7);
    }
}

} // verus!
