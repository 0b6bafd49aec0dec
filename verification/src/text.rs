//! Small pieces for reading and writing text.

use vstd::prelude::*;

verus! {

/// The first `max` characters of `text`, or all of them where it is shorter.
pub fn first_chars(text: &str, max: usize) -> (r: Vec<char>)
    ensures
        r@ == text@.take(if max <= text@.len() { max as int } else { text@.len() as int }),
{
    let mut out: Vec<char> = Vec::new();
    for c in it: text.chars()
        invariant
            it.seq() == text@,
            out@ == text@.take(if max <= it.index() { max as int } else { it.index() as int }),
    {
        if out.len() < max {
            out.push(c);
        }
    }
    out
}

/// The characters of `text`.
pub fn chars_of(text: &str) -> (r: Vec<char>)
    ensures
        r@ == text@,
{
    let mut out: Vec<char> = Vec::new();
    for c in it: text.chars()
        invariant
            it.seq() == text@,
            out@ == text@.take(it.index() as int),
    {
        proof {
            assert(text@.take(it.index() + 1) =~= text@.take(it.index() as int).push(c));
        }
        out.push(c);
    }
    assert(text@.take(text@.len() as int) =~= text@);
    out
}

/// White space, as Unicode counts it.
pub open spec fn is_space(c: char) -> bool {
    ||| '\u{9}' <= c <= '\u{d}'
    ||| c == ' '
    ||| c == '\u{85}'
    ||| c == '\u{a0}'
    ||| c == '\u{1680}'
    ||| '\u{2000}' <= c <= '\u{200a}'
    ||| c == '\u{2028}'
    ||| c == '\u{2029}'
    ||| c == '\u{202f}'
    ||| c == '\u{205f}'
    ||| c == '\u{3000}'
}

fn space(c: char) -> (r: bool)
    ensures
        r == is_space(c),
{
    ('\u{9}' <= c && c <= '\u{d}') || c == ' ' || c == '\u{85}' || c == '\u{a0}' || c == '\u{1680}'
        || ('\u{2000}' <= c && c <= '\u{200a}') || c == '\u{2028}' || c == '\u{2029}' || c
        == '\u{202f}' || c == '\u{205f}' || c == '\u{3000}'
}

/// The text from its first character that is not white space.
pub open spec fn trimmed_start(s: Seq<char>) -> Seq<char>
    decreases s.len(),
{
    if s.len() > 0 && is_space(s[0]) {
        trimmed_start(s.drop_first())
    } else {
        s
    }
}

/// The text up to its last character that is not white space.
pub open spec fn trimmed_end(s: Seq<char>) -> Seq<char>
    decreases s.len(),
{
    if s.len() > 0 && is_space(s.last()) {
        trimmed_end(s.drop_last())
    } else {
        s
    }
}

/// The text without white space at its ends.
pub open spec fn trimmed(s: Seq<char>) -> Seq<char> {
    trimmed_end(trimmed_start(s))
}

/// Bounds of the part of `s` between `from` and `to` without white space at its ends.
pub fn trim_bounds(s: &Vec<char>, from: usize, to: usize) -> (r: (usize, usize))
    requires
        from <= to <= s.len(),
    ensures
        from <= r.0 <= r.1 <= to,
        s@.subrange(r.0 as int, r.1 as int) == trimmed(s@.subrange(from as int, to as int)),
{
    let ghost whole = s@.subrange(from as int, to as int);
    let mut a: usize = from;
    while a < to && space(s[a])
        invariant
            from <= a <= to <= s.len(),
            trimmed_start(whole) == trimmed_start(s@.subrange(a as int, to as int)),
        decreases to - a,
    {
        proof {
            let part = s@.subrange(a as int, to as int);
            assert(part[0] == s@[a as int]);
            assert(part.drop_first() =~= s@.subrange(a + 1, to as int));
        }
        a = a + 1;
    }
    let ghost start = s@.subrange(a as int, to as int);
    proof {
        if a < to {
            assert(start[0] == s@[a as int]);
        }
        assert(trimmed_start(whole) == start);
    }
    let mut b: usize = to;
    while b > a && space(s[b - 1])
        invariant
            a <= b <= to <= s.len(),
            trimmed_end(start) == trimmed_end(s@.subrange(a as int, b as int)),
        decreases b - a,
    {
        proof {
            let part = s@.subrange(a as int, b as int);
            assert(part.last() == s@[b - 1]);
            assert(part.drop_last() =~= s@.subrange(a as int, b - 1));
        }
        b = b - 1;
    }
    proof {
        let part = s@.subrange(a as int, b as int);
        if b > a {
            assert(part.last() == s@[b - 1]);
        }
        assert(trimmed_end(start) == part);
    }
    (a, b)
}

/// Place of the first `c`, or the length of the text.
pub open spec fn find(s: Seq<char>, c: char) -> nat
    decreases s.len(),
{
    if s.len() == 0 || s[0] == c {
        0
    } else {
        1 + find(s.drop_first(), c)
    }
}

/// The parts of the text between the places where `c` stands.
pub open spec fn split(s: Seq<char>, c: char) -> Seq<Seq<char>>
    decreases s.len(),
    via split_shrinks
{
    let i = find(s, c);
    if i >= s.len() {
        seq![s]
    } else {
        seq![s.take(i as int)] + split(s.skip(i as int + 1), c)
    }
}

#[via_fn]
proof fn split_shrinks(s: Seq<char>, c: char) {
}

/// `find` gives a place with `c`, the first one, or the end.
pub proof fn lemma_find(s: Seq<char>, c: char)
    ensures
        find(s, c) <= s.len(),
        find(s, c) < s.len() ==> s[find(s, c) as int] == c,
        forall|i: int| 0 <= i < find(s, c) ==> s[i] != c,
    decreases s.len(),
{
    if s.len() > 0 && s[0] != c {
        let rest = s.drop_first();
        lemma_find(rest, c);
        assert forall|i: int| 0 <= i < find(s, c) implies s[i] != c by {
            if i > 0 {
                assert(rest[i - 1] == s[i]);
            }
        }
    }
}

/// A place with `c` before which none stands is the one that `find` gives.
pub proof fn lemma_find_is(s: Seq<char>, c: char, k: int)
    requires
        0 <= k <= s.len(),
        k < s.len() ==> s[k] == c,
        forall|i: int| 0 <= i < k ==> s[i] != c,
    ensures
        find(s, c) == k,
{
    lemma_find(s, c);
    let f = find(s, c) as int;
    if f < k {
        assert(s[f] != c);
    } else if k < f {
        assert(s[k] != c);
    }
}

/// Place of the first `c` in `s` between `from` and `to`, or `to`.
pub fn find_in(s: &Vec<char>, from: usize, to: usize, c: char) -> (r: usize)
    requires
        from <= to <= s.len(),
    ensures
        from <= r <= to,
        r - from == find(s@.subrange(from as int, to as int), c),
{
    let ghost part = s@.subrange(from as int, to as int);
    let mut i: usize = from;
    while i < to && s[i] != c
        invariant
            from <= i <= to <= s.len(),
            part == s@.subrange(from as int, to as int),
            forall|k: int| 0 <= k < i - from ==> part[k] != c,
        decreases to - i,
    {
        assert(part[i - from] == s@[i as int]);
        i = i + 1;
    }
    proof {
        if i < to {
            assert(part[i - from] == s@[i as int]);
        }
        lemma_find_is(part, c, i - from);
    }
    i
}

/// The parts of `s` between `from` and `to` where `c` stands, each without white space at its
/// ends, as bounds.
pub fn split_trimmed(s: &Vec<char>, from: usize, to: usize, c: char) -> (r: Vec<(usize, usize)>)
    requires
        from <= to <= s.len(),
    ensures
        parts(s@, r@) == trimmed_parts(s@.subrange(from as int, to as int), c),
        forall|k: int| 0 <= k < r.len() ==> (#[trigger] r@[k]).0 <= r@[k].1 <= s.len(),
{
    let ghost whole = s@.subrange(from as int, to as int);
    let mut out: Vec<(usize, usize)> = Vec::new();
    let mut at: usize = from;
    loop
        invariant
            from <= at <= to <= s.len(),
            whole == s@.subrange(from as int, to as int),
            trimmed_parts(whole, c) == parts(s@, out@) + trimmed_parts(
                s@.subrange(at as int, to as int),
                c,
            ),
            forall|k: int| 0 <= k < out.len() ==> (#[trigger] out@[k]).0 <= out@[k].1 <= s.len(),
        decreases to - at,
    {
        let i: usize = find_in(s, at, to, c);
        let ghost part = s@.subrange(at as int, to as int);
        let ghost before = out@;
        let piece: (usize, usize) = trim_bounds(s, at, i);
        out.push(piece);
        proof {
            lemma_find(part, c);
            assert(part.take(i - at) =~= s@.subrange(at as int, i as int));
            assert(parts(s@, out@) =~= parts(s@, before).push(
                s@.subrange(piece.0 as int, piece.1 as int),
            ));
        }
        if i == to {
            proof {
                assert(part =~= s@.subrange(at as int, i as int));
                assert(split(part, c) =~= seq![part]);
                assert(trimmed_parts(part, c) =~= seq![trimmed(part)]);
                assert(parts(s@, out@) =~= trimmed_parts(whole, c));
            }
            return out;
        }
        proof {
            let rest = part.skip(i - at + 1);
            assert(rest =~= s@.subrange(i + 1, to as int));
            assert(split(part, c) == seq![part.take(i - at)] + split(rest, c));
            assert(trimmed_parts(part, c) =~= seq![trimmed(part.take(i - at))] + trimmed_parts(
                rest,
                c,
            ));
            assert(parts(s@, out@) + trimmed_parts(rest, c) =~= parts(s@, before)
                + trimmed_parts(part, c));
        }
        at = i + 1;
    }
}

/// What lies between these bounds.
pub open spec fn parts(s: Seq<char>, bounds: Seq<(usize, usize)>) -> Seq<Seq<char>> {
    bounds.map_values(|b: (usize, usize)| s.subrange(b.0 as int, b.1 as int))
}

/// The parts of the text, each without white space at its ends.
pub open spec fn trimmed_parts(s: Seq<char>, c: char) -> Seq<Seq<char>> {
    split(s, c).map_values(|p: Seq<char>| trimmed(p))
}

/// The text begins with `prefix`.
pub open spec fn begins(s: Seq<char>, prefix: Seq<char>) -> bool {
    prefix.len() <= s.len() && s.take(prefix.len() as int) == prefix
}

/// Whether the part of `s` between `from` and `to` begins with `prefix`.
pub fn begins_with(s: &Vec<char>, from: usize, to: usize, prefix: &Vec<char>) -> (r: bool)
    requires
        from <= to <= s.len(),
    ensures
        r == begins(s@.subrange(from as int, to as int), prefix@),
{
    let ghost part = s@.subrange(from as int, to as int);
    if prefix.len() > to - from {
        return false;
    }
    let mut i: usize = 0;
    while i < prefix.len()
        invariant
            i <= prefix.len() <= to - from,
            from <= to <= s.len(),
            part == s@.subrange(from as int, to as int),
            forall|k: int| 0 <= k < i ==> part[k] == prefix@[k],
        decreases prefix.len() - i,
    {
        if s[from + i] != prefix[i] {
            proof {
                assert(part[i as int] == s@[from + i]);
                assert(part.take(prefix.len() as int)[i as int] != prefix@[i as int]);
            }
            return false;
        }
        assert(part[i as int] == s@[from + i]);
        i = i + 1;
    }
    assert(part.take(prefix.len() as int) =~= prefix@);
    true
}

/// Whether the part of `s` between `from` and `to` is `other`.
pub fn part_is(s: &Vec<char>, from: usize, to: usize, other: &Vec<char>) -> (r: bool)
    requires
        from <= to <= s.len(),
    ensures
        r == (s@.subrange(from as int, to as int) == other@),
{
    let ghost part = s@.subrange(from as int, to as int);
    if other.len() != to - from {
        return false;
    }
    let same: bool = begins_with(s, from, to, other);
    assert(part.take(other.len() as int) =~= part);
    same
}

/// The part of `s` between `from` and `to`.
pub fn part_of(s: &Vec<char>, from: usize, to: usize) -> (r: Vec<char>)
    requires
        from <= to <= s.len(),
    ensures
        r@ == s@.subrange(from as int, to as int),
{
    let mut out: Vec<char> = Vec::new();
    let mut i: usize = from;
    while i < to
        invariant
            from <= i <= to <= s.len(),
            out@ == s@.subrange(from as int, i as int),
        decreases to - i,
    {
        out.push(s[i]);
        assert(s@.subrange(from as int, i + 1) =~= s@.subrange(from as int, i as int).push(
            s@[i as int],
        ));
        i = i + 1;
    }
    out
}

pub open spec fn is_digit(c: char) -> bool {
    '0' <= c <= '9'
}

/// The value of decimal digits, whatever stands among them.
pub open spec fn digits_value(s: Seq<char>) -> nat
    decreases s.len(),
{
    if s.len() == 0 {
        0
    } else {
        10 * digits_value(s.drop_last()) + (s.last() as nat - '0' as nat) as nat
    }
}

/// The text is digits, and at least one.
pub open spec fn all_digits(d: Seq<char>) -> bool {
    d.len() > 0 && forall|i: int| 0 <= i < d.len() ==> is_digit(#[trigger] d[i])
}

/// The text after a plus sign.
pub open spec fn after_plus(s: Seq<char>) -> Seq<char> {
    if s.len() > 0 && s[0] == '+' {
        s.drop_first()
    } else {
        s
    }
}

/// The 32-bit number that the text is, digits with a plus sign before them or none.
pub open spec fn read_u32(s: Seq<char>) -> Option<u32> {
    let d = after_plus(s);
    if all_digits(d) && digits_value(d) <= u32::MAX {
        Some(digits_value(d) as u32)
    } else {
        None
    }
}

proof fn lemma_digits_grow(s: Seq<char>, k: int)
    requires
        0 <= k <= s.len(),
    ensures
        digits_value(s.take(k)) <= digits_value(s),
    decreases s.len() - k,
{
    if k < s.len() {
        lemma_digits_grow(s, k + 1);
        assert(s.take(k + 1).drop_last() =~= s.take(k));
    } else {
        assert(s.take(k) =~= s);
    }
}

/// Reads a 32-bit number from the part of `s` between `from` and `to`.
pub fn parse_u32(s: &Vec<char>, from: usize, to: usize) -> (r: Option<u32>)
    requires
        from <= to <= s.len(),
    ensures
        r == read_u32(s@.subrange(from as int, to as int)),
{
    let ghost whole = s@.subrange(from as int, to as int);
    let start: usize = if from < to && s[from] == '+' {
        from + 1
    } else {
        from
    };
    let ghost d = s@.subrange(start as int, to as int);
    proof {
        if from < to {
            assert(whole[0] == s@[from as int]);
            if s@[from as int] == '+' {
                assert(whole.drop_first() =~= d);
            }
        }
    }
    assert(d =~= after_plus(whole));
    if start == to {
        return None;
    }
    let mut v: u64 = 0;
    let mut i: usize = start;
    while i < to
        invariant
            start <= i <= to <= s.len(),
            d == s@.subrange(start as int, to as int),
            d.len() > 0,
            from <= to,
            whole == s@.subrange(from as int, to as int),
            d == after_plus(whole),
            v == digits_value(d.take(i - start)),
            v <= u32::MAX,
            forall|k: int| 0 <= k < i - start ==> is_digit(#[trigger] d[k]),
        decreases to - i,
    {
        let c: char = s[i];
        let ghost k = i - start;
        assert(d[k] == c);
        if c < '0' || c > '9' {
            assert(!is_digit(d[k]));
            assert(!all_digits(d));
            return None;
        }
        proof {
            assert(d.take(k + 1).drop_last() =~= d.take(k));
            assert(d.take(k + 1).last() == c);
            lemma_digits_grow(d, k + 1);
        }
        v = 10 * v + (c as u32 - '0' as u32) as u64;
        if v > u32::MAX as u64 {
            return None;
        }
        i = i + 1;
    }
    assert(d.take(to - start) =~= d);
    Some(v as u32)
}

/// The decimal digits of a number.
pub open spec fn decimal(n: nat) -> Seq<char>
    decreases n,
{
    if n < 10 {
        seq![digit(n)]
    } else {
        decimal(n / 10).push(digit(n % 10))
    }
}

/// The digit for a value below ten.
pub open spec fn digit(n: nat) -> char {
    (n + '0' as nat) as char
}

pub(crate) fn digit_char(n: u32) -> (r: char)
    requires
        n < 10,
    ensures
        r == digit(n as nat),
{
    match n {
        0 => '0',
        1 => '1',
        2 => '2',
        3 => '3',
        4 => '4',
        5 => '5',
        6 => '6',
        7 => '7',
        8 => '8',
        _ => '9',
    }
}

/// Writes a number in decimal digits.
pub fn push_decimal(out: &mut Vec<char>, n: u32)
    ensures
        final(out)@ == old(out)@ + decimal(n as nat),
    decreases n,
{
    let ghost start = out@;
    if n >= 10 {
        push_decimal(out, n / 10);
        out.push(digit_char(n % 10));
    } else {
        out.push(digit_char(n));
    }
    assert(out@ =~= start + decimal(n as nat));
}

fn digit_text(n: u64) -> (r: &'static str)
    requires
        n < 10,
    ensures
        r@ == seq![digit(n as nat)],
{
    proof {
        reveal_strlit("0");
        reveal_strlit("1");
        reveal_strlit("2");
        reveal_strlit("3");
        reveal_strlit("4");
        reveal_strlit("5");
        reveal_strlit("6");
        reveal_strlit("7");
        reveal_strlit("8");
        reveal_strlit("9");
    }
    match n {
        0 => "0",
        1 => "1",
        2 => "2",
        3 => "3",
        4 => "4",
        5 => "5",
        6 => "6",
        7 => "7",
        8 => "8",
        _ => "9",
    }
}

/// Appends a number in decimal digits.
pub fn append_decimal(out: &mut String, n: u64)
    ensures
        final(out)@ == old(out)@ + decimal(n as nat),
    decreases n,
{
    let ghost start = out@;
    if n >= 10 {
        append_decimal(out, n / 10);
        out.append(digit_text(n % 10));
    } else {
        out.append(digit_text(n));
    }
    assert(out@ =~= start + decimal(n as nat));
}

/// The digits of a number read as that number, and are nothing but digits.
pub proof fn decimal_reads_back(n: nat)
    ensures
        decimal(n).len() > 0,
        forall|i: int| 0 <= i < decimal(n).len() ==> is_digit(#[trigger] decimal(n)[i]),
        digits_value(decimal(n)) == n,
        n <= u32::MAX ==> read_u32(decimal(n)) == Some(n as u32),
    decreases n,
{
    if n < 10 {
        let d = seq![digit(n)];
        assert(d.drop_last() =~= Seq::<char>::empty());
        assert(digits_value(Seq::<char>::empty()) == 0);
        assert(d.last() == digit(n));
    } else {
        decimal_reads_back(n / 10);
        let d = decimal(n);
        assert(d.drop_last() =~= decimal(n / 10));
        assert(d.last() == digit(n % 10));
        assert forall|i: int| 0 <= i < d.len() implies is_digit(#[trigger] d[i]) by {
            if i < d.len() - 1 {
                assert(d[i] == decimal(n / 10)[i]);
            }
        }
    }
    assert(is_digit(decimal(n)[0]));
    assert(after_plus(decimal(n)) == decimal(n));
}

/// Appends `text`.
pub fn push_text(out: &mut Vec<char>, text: &str)
    ensures
        final(out)@ == old(out)@ + text@,
{
    let ghost start = out@;
    for c in it: text.chars()
        invariant
            it.seq() == text@,
            out@ == start + text@.take(it.index() as int),
    {
        proof {
            assert(text@.take(it.index() + 1) =~= text@.take(it.index() as int).push(c));
        }
        out.push(c);
    }
    assert(text@.take(text@.len() as int) =~= text@);
}

/// A number as it is typed, without white space at its ends and with points for commas.
pub open spec fn with_points(s: Seq<char>) -> Seq<char> {
    trimmed(s).map_values(
        |c: char|
            if c == ',' {
                '.'
            } else {
                c
            },
    )
}

/// A number as it was typed, made ready to be read: a comma may stand for the point.
pub fn decimal_point(input: &str) -> (r: Vec<char>)
    ensures
        r@ == with_points(input@),
{
    let chars: Vec<char> = chars_of(input);
    let (from, to) = trim_bounds(&chars, 0, chars.len());
    let ghost part = chars@.subrange(from as int, to as int);
    assert(chars@.subrange(0, chars@.len() as int) =~= chars@);
    let mut out: Vec<char> = Vec::new();
    let mut i: usize = from;
    while i < to
        invariant
            from <= i <= to <= chars.len(),
            part == chars@.subrange(from as int, to as int),
            out@.len() == i - from,
            forall|k: int|
                0 <= k < out@.len() ==> #[trigger] out@[k] == if part[k] == ',' {
                    '.'
                } else {
                    part[k]
                },
        decreases to - i,
    {
        let c: char = chars[i];
        out.push(
            if c == ',' {
                '.'
            } else {
                c
            },
        );
        i = i + 1;
    }
    assert(out@ =~= with_points(input@));
    out
}

/// A typed number may read as this one: what is read is the text without white space at its ends
/// and with points for commas.
pub open spec fn typed<D, R: Fn(&Vec<char>) -> Option<D>>(
    input: Seq<char>,
    read: R,
    r: Option<D>,
) -> bool {
    exists|c: Vec<char>| c@ == with_points(input) && #[trigger] read.ensures((&c,), r)
}

/// Reads a number as it was typed, where a comma may stand for the point. `read` reads a number
/// of plain characters.
pub fn parse_decimal_f64<D, R: Fn(&Vec<char>) -> Option<D>>(input: &str, read: &R) -> (r: Option<D>)
    requires
        forall|c: Vec<char>| #[trigger] read.requires((&c,)),
    ensures
        typed(input@, *read, r),
{
    let plain: Vec<char> = decimal_point(input);
    read(&plain)
}

/// A comma reads as a point does, and white space at the ends as none.
pub proof fn commas_read_as_points<D, R: Fn(&Vec<char>) -> Option<D>>(
    input: Seq<char>,
    read: R,
    r: Option<D>,
)
    ensures
        typed(with_points(input), read, r) == typed(input, read, r),
{
    lemma_points_stay(input);
}

proof fn lemma_points_stay(s: Seq<char>)
    ensures
        with_points(with_points(s)) == with_points(s),
{
    let t = trimmed(s);
    let p = with_points(s);
    lemma_trimmed_ends(s);
    assert(trimmed(p) == p);
    assert(with_points(p) =~= p);
}

/// What is trimmed neither begins nor ends with white space.
proof fn lemma_trimmed_ends(s: Seq<char>)
    ensures
        trimmed(s).len() > 0 ==> !is_space(trimmed(s)[0]) && !is_space(trimmed(s).last()),
{
    lemma_trimmed_start(s);
    lemma_trimmed_end(trimmed_start(s));
}

proof fn lemma_trimmed_start(s: Seq<char>)
    ensures
        trimmed_start(s).len() > 0 ==> !is_space(trimmed_start(s)[0]),
    decreases s.len(),
{
    if s.len() > 0 && is_space(s[0]) {
        lemma_trimmed_start(s.drop_first());
    }
}

proof fn lemma_trimmed_end(s: Seq<char>)
    ensures
        trimmed_end(s).len() > 0 ==> !is_space(trimmed_end(s).last()) && trimmed_end(s)[0] == s[0],
    decreases s.len(),
{
    if s.len() > 0 && is_space(s.last()) {
        lemma_trimmed_end(s.drop_last());
    }
}

} // verus!
