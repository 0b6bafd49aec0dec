//! Film base samples as text, for the clipboard.
//!
//! A sample reads `dmin:fixed:r,g,b` or `dmin:rect:x,y,w,h`, and may end in
//! `;neutral_only=0` or `;neutral_only=1`. Three numbers alone are taken for a fixed sample.

use vstd::prelude::*;
use crate::numerals::{read_six_decimals, write_six_decimals};
use crate::options::{PipelineOptions, Rect};
use crate::single::Single;
use crate::text::{
    begins_with, chars_of, find_in, parse_u32, part_is, part_of, push_decimal, push_text,
    split_trimmed, trim_bounds,
};

verus! {

/// What a text says of the film base. The numbers of a fixed sample are still text.
#[derive(Debug)]
pub enum DminValues {
    Fixed(Vec<char>, Vec<char>, Vec<char>),
    Sample(Rect),
}

/// What a text says of the film base, and whether the sample is to be neutral only.
#[derive(Debug)]
pub struct DminText {
    pub values: DminValues,
    pub neutral_only: Option<bool>,
}

/// [`DminValues`] with its texts as sequences.
pub enum DminValuesView {
    Fixed(Seq<char>, Seq<char>, Seq<char>),
    Sample(Rect),
}

impl View for DminText {
    type V = (DminValuesView, Option<bool>);

    open spec fn view(&self) -> (DminValuesView, Option<bool>) {
        (
            match self.values {
                DminValues::Fixed(r, g, b) => DminValuesView::Fixed(r@, g@, b@),
                DminValues::Sample(rect) => DminValuesView::Sample(rect),
            },
            self.neutral_only,
        )
    }
}

/// What a suffix says of `neutral_only`.
pub open spec fn neutral_flag(suffix: Seq<char>) -> Option<bool> {
    let key = "neutral_only="@;
    if crate::text::begins(suffix, key) {
        let v = crate::text::trimmed(suffix.skip(key.len() as int));
        if v == "1"@ || v == "true"@ || v == "True"@ || v == "TRUE"@ {
            Some(true)
        } else if v == "0"@ || v == "false"@ || v == "False"@ || v == "FALSE"@ {
            Some(false)
        } else {
            None
        }
    } else {
        None
    }
}

/// Three parts are a fixed sample.
pub open spec fn three_numbers(p: Seq<Seq<char>>) -> Option<DminValuesView> {
    if p.len() == 3 {
        Some(DminValuesView::Fixed(p[0], p[1], p[2]))
    } else {
        None
    }
}

/// Four numbers are a rectangle, if it has an area.
pub open spec fn four_numbers(p: Seq<Seq<char>>) -> Option<DminValuesView> {
    if p.len() == 4 {
        match (
            crate::text::read_u32(p[0]),
            crate::text::read_u32(p[1]),
            crate::text::read_u32(p[2]),
            crate::text::read_u32(p[3]),
        ) {
            (Some(x), Some(y), Some(width), Some(height)) => if width > 0 && height > 0 {
                Some(DminValuesView::Sample(Rect { x, y, width, height }))
            } else {
                None
            },
            _ => None,
        }
    } else {
        None
    }
}

/// The part of a text before its first semicolon.
pub open spec fn main_part(t: Seq<char>) -> Seq<char> {
    crate::text::trimmed(t.take(crate::text::find(t, ';') as int))
}

/// What the suffix of a text says.
pub open spec fn suffix_flag(t: Seq<char>) -> Option<bool> {
    let i = crate::text::find(t, ';') as int;
    if i < t.len() {
        neutral_flag(crate::text::trimmed(t.skip(i + 1)))
    } else {
        None
    }
}

/// The sample that a text without white space at its ends gives.
pub open spec fn values_of(t: Seq<char>) -> Option<DminValuesView> {
    let main = main_part(t);
    let fixed = "dmin:fixed:"@;
    let rect = "dmin:rect:"@;
    if crate::text::begins(main, fixed) {
        three_numbers(crate::text::trimmed_parts(main.skip(fixed.len() as int), ','))
    } else if crate::text::begins(main, rect) {
        four_numbers(crate::text::trimmed_parts(main.skip(rect.len() as int), ','))
    } else {
        three_numbers(crate::text::trimmed_parts(t, ','))
    }
}

/// What a text says of the film base; none where it does not read as a sample.
pub open spec fn dmin_text(text: Seq<char>) -> Option<(DminValuesView, Option<bool>)> {
    let t = crate::text::trimmed(text);
    match values_of(t) {
        Some(v) if t.len() > 0 => Some((v, suffix_flag(t))),
        _ => None,
    }
}

fn is_one_of(s: &Vec<char>, from: usize, to: usize, a: &str, b: &str, c: &str, d: &str) -> (r: bool)
    requires
        from <= to <= s.len(),
    ensures
        ({
            let v = s@.subrange(from as int, to as int);
            r == (v == a@ || v == b@ || v == c@ || v == d@)
        }),
{
    part_is(s, from, to, &chars_of(a)) || part_is(s, from, to, &chars_of(b)) || part_is(
        s,
        from,
        to,
        &chars_of(c),
    ) || part_is(s, from, to, &chars_of(d))
}

fn read_flag(s: &Vec<char>, from: usize, to: usize) -> (r: Option<bool>)
    requires
        from <= to <= s.len(),
    ensures
        r == neutral_flag(s@.subrange(from as int, to as int)),
{
    let key: Vec<char> = chars_of("neutral_only=");
    if !begins_with(s, from, to, &key) {
        return None;
    }
    let ghost suffix = s@.subrange(from as int, to as int);
    let at: usize = from + key.len();
    assert(suffix.skip(key.len() as int) =~= s@.subrange(at as int, to as int));
    let (a, b) = trim_bounds(s, at, to);
    if is_one_of(s, a, b, "1", "true", "True", "TRUE") {
        Some(true)
    } else if is_one_of(s, a, b, "0", "false", "False", "FALSE") {
        Some(false)
    } else {
        None
    }
}

fn read_three(s: &Vec<char>, from: usize, to: usize) -> (r: Option<DminValues>)
    requires
        from <= to <= s.len(),
    ensures
        match (
            r,
            three_numbers(crate::text::trimmed_parts(s@.subrange(from as int, to as int), ',')),
        ) {
            (Some(DminValues::Fixed(x, y, z)), Some(v)) => v == DminValuesView::Fixed(x@, y@, z@),
            (None, None) => true,
            _ => false,
        },
{
    let p: Vec<(usize, usize)> = split_trimmed(s, from, to, ',');
    let ghost parts = crate::text::parts(s@, p@);
    if p.len() != 3 {
        return None;
    }
    let (a0, a1) = p[0];
    let (b0, b1) = p[1];
    let (c0, c1) = p[2];
    proof {
        assert(parts[0] == s@.subrange(a0 as int, a1 as int));
        assert(parts[1] == s@.subrange(b0 as int, b1 as int));
        assert(parts[2] == s@.subrange(c0 as int, c1 as int));
        assert(p@[0] == (a0, a1));
        assert(p@[1] == (b0, b1));
        assert(p@[2] == (c0, c1));
    }
    Some(DminValues::Fixed(part_of(s, a0, a1), part_of(s, b0, b1), part_of(s, c0, c1)))
}

fn read_four(s: &Vec<char>, from: usize, to: usize) -> (r: Option<DminValues>)
    requires
        from <= to <= s.len(),
    ensures
        match (
            r,
            four_numbers(crate::text::trimmed_parts(s@.subrange(from as int, to as int), ',')),
        ) {
            (Some(DminValues::Sample(rect)), Some(v)) => v == DminValuesView::Sample(rect),
            (None, None) => true,
            _ => false,
        },
{
    let p: Vec<(usize, usize)> = split_trimmed(s, from, to, ',');
    let ghost parts = crate::text::parts(s@, p@);
    if p.len() != 4 {
        return None;
    }
    let (a0, a1) = p[0];
    let (b0, b1) = p[1];
    let (c0, c1) = p[2];
    let (d0, d1) = p[3];
    proof {
        assert(parts[0] == s@.subrange(a0 as int, a1 as int));
        assert(parts[1] == s@.subrange(b0 as int, b1 as int));
        assert(parts[2] == s@.subrange(c0 as int, c1 as int));
        assert(parts[3] == s@.subrange(d0 as int, d1 as int));
        assert(p@[0] == (a0, a1));
        assert(p@[1] == (b0, b1));
        assert(p@[2] == (c0, c1));
        assert(p@[3] == (d0, d1));
    }
    match (
        parse_u32(s, a0, a1),
        parse_u32(s, b0, b1),
        parse_u32(s, c0, c1),
        parse_u32(s, d0, d1),
    ) {
        (Some(x), Some(y), Some(width), Some(height)) => if width > 0 && height > 0 {
            Some(DminValues::Sample(Rect { x, y, width, height }))
        } else {
            None
        },
        _ => None,
    }
}

/// Reads what a text says of the film base.
pub fn parse_dmin_clipboard_text(text: &str) -> (r: Option<DminText>)
    ensures
        match r {
            Some(d) => dmin_text(text@) == Some(d@),
            None => dmin_text(text@) is None,
        },
{
    let s: Vec<char> = chars_of(text);
    let n: usize = s.len();
    assert(s@.subrange(0, n as int) =~= text@);
    let (a, b) = trim_bounds(&s, 0, n);
    let ghost t = s@.subrange(a as int, b as int);
    if a == b {
        return None;
    }
    let i: usize = find_in(&s, a, b, ';');
    proof {
        assert(t.take(i - a) =~= s@.subrange(a as int, i as int));
    }
    let neutral_only: Option<bool> = if i < b {
        proof {
            assert(t.skip(i - a + 1) =~= s@.subrange(i + 1, b as int));
        }
        let (x, y) = trim_bounds(&s, i + 1, b);
        read_flag(&s, x, y)
    } else {
        None
    };
    let (m0, m1) = trim_bounds(&s, a, i);
    let ghost main = s@.subrange(m0 as int, m1 as int);
    assert(main == main_part(t));
    let fixed: Vec<char> = chars_of("dmin:fixed:");
    let rect: Vec<char> = chars_of("dmin:rect:");
    let values: Option<DminValues> = if begins_with(&s, m0, m1, &fixed) {
        proof {
            assert(main.skip(fixed.len() as int) =~= s@.subrange(m0 + fixed.len(), m1 as int));
        }
        read_three(&s, m0 + fixed.len(), m1)
    } else if begins_with(&s, m0, m1, &rect) {
        proof {
            assert(main.skip(rect.len() as int) =~= s@.subrange(m0 + rect.len(), m1 as int));
        }
        read_four(&s, m0 + rect.len(), m1)
    } else {
        read_three(&s, a, b)
    };
    match values {
        Some(values) => Some(DminText { values, neutral_only }),
        None => None,
    }
}

/// A fixed sample from the numbers that its texts read as: each must be one, from zero to one.
pub open spec fn sample_of(r: Option<Single>, g: Option<Single>, b: Option<Single>) -> Option<
    (Single, Single, Single),
> {
    match (r, g, b) {
        (Some(r), Some(g), Some(b)) => if crate::single::is_part(r) && crate::single::is_part(g) && crate::single::is_part(b) {
            Some((r, g, b))
        } else {
            None
        },
        _ => None,
    }
}

/// Makes a fixed sample of the numbers that its texts read as.
pub fn fixed_sample(r: Option<Single>, g: Option<Single>, b: Option<Single>) -> (s: Option<
    (Single, Single, Single),
>)
    ensures
        s == sample_of(r, g, b),
{
    let zero: Single = Single::whole(0);
    let one: Single = Single::whole(1);
    match (r, g, b) {
        (Some(r), Some(g), Some(b)) => {
            if zero.at_most(r) && r.at_most(one) && zero.at_most(g) && g.at_most(one)
                && zero.at_most(b) && b.at_most(one) {
                Some((r, g, b))
            } else {
                None
            }
        },
        _ => None,
    }
}

/// These characters may read as this number: by their six decimals where they are written so,
/// else as `read` takes them.
pub open spec fn reads<G: Fn(&Vec<char>) -> Option<Single>>(
    read: G,
    text: Seq<char>,
    v: Option<Single>,
) -> bool {
    match crate::numerals::six_decimals_read(text) {
        Some(u) => v == Some(u),
        None => exists|c: Vec<char>| c@ == text && #[trigger] read.ensures((&c,), v),
    }
}

fn read_number<G: Fn(&Vec<char>) -> Option<Single>>(text: &Vec<char>, read: &G) -> (v: Option<
    Single,
>)
    requires
        forall|c: Vec<char>| #[trigger] read.requires((&c,)),
    ensures
        reads(*read, text@, v),
{
    match read_six_decimals(text) {
        Some(u) => Some(u),
        None => read(text),
    }
}

/// Three numbers in characters may give this fixed sample.
pub open spec fn sampled<G: Fn(&Vec<char>) -> Option<Single>>(
    read: G,
    a: Seq<char>,
    b: Seq<char>,
    c: Seq<char>,
    s: Option<(Single, Single, Single)>,
) -> bool {
    exists|x: Option<Single>, y: Option<Single>, z: Option<Single>|
        {
            &&& #[trigger] reads(read, a, x)
            &&& #[trigger] reads(read, b, y)
            &&& #[trigger] reads(read, c, z)
            &&& s == sample_of(x, y, z)
        }
}

/// What a pasted text gives: a fixed sample or a rectangle, and what it says of neutral samples.
/// `read` turns the characters of a number into the number, unless they are one with six
/// decimals.
pub open spec fn pasted<G: Fn(&Vec<char>) -> Option<Single>>(
    text: Seq<char>,
    read: G,
    r: Option<(Option<(Single, Single, Single)>, Option<Rect>, Option<bool>)>,
) -> bool {
    match dmin_text(text) {
        Some((DminValuesView::Fixed(a, b, c), flag)) => exists|s: Option<(Single, Single, Single)>|
            #[trigger] sampled(read, a, b, c, s) && r == match s {
                Some(s) => Some((Some(s), None::<Rect>, flag)),
                None => None,
            },
        Some((DminValuesView::Sample(rect), flag)) => r == Some(
            (None::<(Single, Single, Single)>, Some(rect), flag),
        ),
        None => r is None,
    }
}

/// Reads a pasted text down to its numbers; `read` reads one that is not written with six
/// decimals.
pub fn pasted_dmin<G: Fn(&Vec<char>) -> Option<Single>>(text: &str, read: &G) -> (r: Option<
    (Option<(Single, Single, Single)>, Option<Rect>, Option<bool>),
>)
    requires
        forall|c: Vec<char>| #[trigger] read.requires((&c,)),
    ensures
        pasted(text@, *read, r),
{
    let d: DminText = match parse_dmin_clipboard_text(text) {
        Some(d) => d,
        None => {
            return None;
        },
    };
    match &d.values {
        DminValues::Fixed(a, b, c) => {
            let x: Option<Single> = read_number(a, read);
            let y: Option<Single> = read_number(b, read);
            let z: Option<Single> = read_number(c, read);
            let s: Option<(Single, Single, Single)> = fixed_sample(x, y, z);
            proof {
                let said = dmin_text(text@)->0;
                assert(said == (DminValuesView::Fixed(a@, b@, c@), d.neutral_only));
                assert(reads(*read, a@, x) && reads(*read, b@, y) && reads(*read, c@, z));
                assert(sampled(*read, said.0->Fixed_0, said.0->Fixed_1, said.0->Fixed_2, s));
            }
            match s {
                Some(s) => Some((Some(s), None, d.neutral_only)),
                None => None,
            }
        },
        DminValues::Sample(rect) => Some((None, Some(*rect), d.neutral_only)),
    }
}

/// The ending of a copied sample.
pub open spec fn flag_text(neutral_only: bool) -> Seq<char> {
    if neutral_only {
        ";neutral_only=1"@
    } else {
        ";neutral_only=0"@
    }
}

/// The numbers of a rectangle, with commas between them.
pub open spec fn rect_numbers(rect: Rect) -> Seq<char> {
    crate::text::decimal(rect.x as nat) + seq![','] + (crate::text::decimal(rect.y as nat) + seq![
        ',',
    ] + (crate::text::decimal(rect.width as nat) + seq![','] + crate::text::decimal(
        rect.height as nat,
    )))
}

/// A rectangle as text.
pub open spec fn rect_text(rect: Rect, neutral_only: bool) -> Seq<char> {
    "dmin:rect:"@ + rect_numbers(rect) + flag_text(neutral_only)
}

/// Writes a rectangle as text.
pub fn dmin_rect_text(rect: Rect, neutral_only: bool) -> (r: Vec<char>)
    ensures
        r@ == rect_text(rect, neutral_only),
{
    let mut out: Vec<char> = Vec::new();
    push_text(&mut out, "dmin:rect:");
    push_decimal(&mut out, rect.x);
    out.push(',');
    push_decimal(&mut out, rect.y);
    out.push(',');
    push_decimal(&mut out, rect.width);
    out.push(',');
    push_decimal(&mut out, rect.height);
    assert(out@ =~= "dmin:rect:"@ + rect_numbers(rect));
    push_text(
        &mut out,
        if neutral_only {
            ";neutral_only=1"
        } else {
            ";neutral_only=0"
        },
    );
    out
}

fn push_chars(out: &mut Vec<char>, more: &Vec<char>)
    ensures
        final(out)@ == old(out)@ + more@,
{
    let ghost start = out@;
    let mut i: usize = 0;
    while i < more.len()
        invariant
            i <= more.len(),
            out@ == start + more@.take(i as int),
        decreases more.len() - i,
    {
        out.push(more[i]);
        assert(more@.take(i + 1) =~= more@.take(i as int).push(more@[i as int]));
        i = i + 1;
    }
    assert(more@.take(i as int) =~= more@);
}

/// Writes a fixed sample as text, from its three numbers written with six decimals.
pub fn dmin_fixed_text(
    r: &Vec<char>,
    g: &Vec<char>,
    b: &Vec<char>,
    neutral_only: bool,
) -> (t: Vec<char>)
    ensures
        t@ == fixed_text(r@, g@, b@, neutral_only),
{
    let mut out: Vec<char> = Vec::new();
    push_text(&mut out, "dmin:fixed:");
    push_chars(&mut out, r);
    out.push(',');
    push_chars(&mut out, g);
    out.push(',');
    push_chars(&mut out, b);
    push_text(
        &mut out,
        if neutral_only {
            ";neutral_only=1"
        } else {
            ";neutral_only=0"
        },
    );
    assert(out@ =~= fixed_text(r@, g@, b@, neutral_only));
    out
}

/// A fixed sample as text, where these are its numbers written out.
pub open spec fn fixed_text(r: Seq<char>, g: Seq<char>, b: Seq<char>, neutral_only: bool) -> Seq<
    char,
> {
    "dmin:fixed:"@ + r + seq![','] + g + seq![','] + b + flag_text(neutral_only)
}

/// This is how a number is written with six decimals. One outside zero to one is written as
/// `six` writes it.
pub open spec fn writes<F: Fn(Single) -> String>(six: F, v: Single, t: Seq<char>) -> bool {
    if crate::single::is_part(v) {
        t == crate::numerals::six_decimals(v)
    } else {
        exists|s: String| s@ == t && #[trigger] six.ensures((v,), s)
    }
}

fn write_number<F: Fn(Single) -> String>(v: Single, six: &F) -> (t: Vec<char>)
    requires
        forall|v: Single| #[trigger] six.requires((v,)),
    ensures
        writes(*six, v, t@),
{
    if Single::whole(0).at_most(v) && v.at_most(Single::whole(1)) {
        write_six_decimals(v)
    } else {
        let s: String = six(v);
        chars_of(s.as_str())
    }
}

/// What is copied of the film base: a fixed sample, else the rectangle, else nothing.
pub open spec fn copied<F: Fn(Single) -> String>(
    opts: PipelineOptions,
    six: F,
    t: Option<Seq<char>>,
) -> bool {
    match (opts.dmin_fixed, opts.dmin_rect) {
        (Some((r, g, b)), _) => exists|x: Seq<char>, y: Seq<char>, z: Seq<char>|
            {
                &&& #[trigger] writes(six, r, x)
                &&& #[trigger] writes(six, g, y)
                &&& #[trigger] writes(six, b, z)
                &&& t == Some(fixed_text(x, y, z, opts.dmin_neutral_only))
            },
        (None, Some(rect)) => t == Some(rect_text(rect, opts.dmin_neutral_only)),
        (None, None) => t is None,
    }
}

/// Writes the film base as text. `six` writes a number outside zero to one with six decimals.
pub fn dmin_values_to_clipboard_text<F: Fn(Single) -> String>(opts: &PipelineOptions, six: &F) -> (t:
    Option<Vec<char>>)
    requires
        forall|v: Single| #[trigger] six.requires((v,)),
    ensures
        copied(
            *opts,
            *six,
            match t {
                Some(t) => Some(t@),
                None => None,
            },
        ),
{
    match opts.dmin_fixed {
        Some((r, g, b)) => {
            let x: Vec<char> = write_number(r, six);
            let y: Vec<char> = write_number(g, six);
            let z: Vec<char> = write_number(b, six);
            let t: Vec<char> = dmin_fixed_text(&x, &y, &z, opts.dmin_neutral_only);
            assert(writes(*six, r, x@) && writes(*six, g, y@) && writes(*six, b, z@));
            Some(t)
        },
        None => match opts.dmin_rect {
            Some(rect) => Some(dmin_rect_text(rect, opts.dmin_neutral_only)),
            None => None,
        },
    }
}

proof fn lemma_trim_kept(s: Seq<char>)
    requires
        s.len() > 0,
        !crate::text::is_space(s[0]),
        !crate::text::is_space(s.last()),
    ensures
        crate::text::trimmed(s) == s,
{
}

/// A number's digits are kept whole by all that takes a text apart.
proof fn lemma_decimal_plain(n: u32)
    ensures
        ({
            let d = crate::text::decimal(n as nat);
            &&& d.len() > 0
            &&& crate::text::trimmed(d) == d
            &&& crate::text::read_u32(d) == Some(n)
            &&& forall|i: int| 0 <= i < d.len() ==> #[trigger] d[i] != ',' && d[i] != ';'
            &&& !crate::text::is_space(d.last())
        }),
{
    let d = crate::text::decimal(n as nat);
    crate::text::decimal_reads_back(n as nat);
    assert(crate::text::is_digit(d[0]));
    assert(crate::text::is_digit(d[d.len() - 1]));
    lemma_trim_kept(d);
    assert forall|i: int| 0 <= i < d.len() implies #[trigger] d[i] != ',' && d[i] != ';' by {
        assert(crate::text::is_digit(d[i]));
    }
}

proof fn lemma_split_first(a: Seq<char>, rest: Seq<char>)
    requires
        forall|i: int| 0 <= i < a.len() ==> a[i] != ',',
    ensures
        crate::text::split(a + seq![','] + rest, ',') == seq![a] + crate::text::split(rest, ','),
{
    let s = a + seq![','] + rest;
    assert(s[a.len() as int] == ',');
    assert forall|i: int| 0 <= i < a.len() implies s[i] != ',' by {
        assert(s[i] == a[i]);
    }
    crate::text::lemma_find_is(s, ',', a.len() as int);
    assert(s.take(a.len() as int) =~= a);
    assert(s.skip(a.len() as int + 1) =~= rest);
}

proof fn lemma_split_last(a: Seq<char>)
    requires
        forall|i: int| 0 <= i < a.len() ==> a[i] != ',',
    ensures
        crate::text::split(a, ',') == seq![a],
{
    crate::text::lemma_find_is(a, ',', a.len() as int);
}

proof fn lemma_rect_parts(rect: Rect)
    ensures
        crate::text::trimmed_parts(rect_numbers(rect), ',') == seq![
            crate::text::decimal(rect.x as nat),
            crate::text::decimal(rect.y as nat),
            crate::text::decimal(rect.width as nat),
            crate::text::decimal(rect.height as nat),
        ],
{
    let x = crate::text::decimal(rect.x as nat);
    let y = crate::text::decimal(rect.y as nat);
    let w = crate::text::decimal(rect.width as nat);
    let h = crate::text::decimal(rect.height as nat);
    lemma_decimal_plain(rect.x);
    lemma_decimal_plain(rect.y);
    lemma_decimal_plain(rect.width);
    lemma_decimal_plain(rect.height);
    let wh = w + seq![','] + h;
    let ywh = y + seq![','] + wh;
    lemma_split_last(h);
    lemma_split_first(w, h);
    lemma_split_first(y, wh);
    lemma_split_first(x, ywh);
    assert(crate::text::split(rect_numbers(rect), ',') =~= seq![x, y, w, h]);
    assert(crate::text::trimmed_parts(rect_numbers(rect), ',') =~= seq![x, y, w, h]);
}

proof fn lemma_flag(neutral_only: bool)
    ensures
        ({
            let f = flag_text(neutral_only);
            let rest = f.drop_first();
            &&& f.len() == 15
            &&& f[0] == ';'
            &&& !crate::text::is_space(f.last())
            &&& crate::text::trimmed(rest) == rest
            &&& neutral_flag(rest) == Some(neutral_only)
        }),
{
    reveal_strlit(";neutral_only=1");
    reveal_strlit(";neutral_only=0");
    reveal_strlit("neutral_only=");
    reveal_strlit("0");
    reveal_strlit("1");
    reveal_strlit("true");
    reveal_strlit("True");
    reveal_strlit("TRUE");
    let f = flag_text(neutral_only);
    let rest = f.drop_first();
    let key = "neutral_only="@;
    lemma_trim_kept(rest);
    assert(rest.take(key.len() as int) =~= key);
    let v = rest.skip(key.len() as int);
    assert(v.len() == 1);
    lemma_trim_kept(v);
    if neutral_only {
        assert(v =~= "1"@);
    } else {
        assert(v =~= "0"@);
        assert("1"@[0] == '1');
        assert(v != "1"@);
        assert("true"@.len() == 4 && "True"@.len() == 4 && "TRUE"@.len() == 4);
    }
}

proof fn lemma_numbers_plain(rect: Rect)
    ensures
        ({
            let n = rect_numbers(rect);
            &&& n.len() > 0
            &&& !crate::text::is_space(n.last())
            &&& forall|i: int| 0 <= i < n.len() ==> #[trigger] n[i] != ';'
        }),
{
    lemma_decimal_plain(rect.x);
    lemma_decimal_plain(rect.y);
    lemma_decimal_plain(rect.width);
    lemma_decimal_plain(rect.height);
    let x = crate::text::decimal(rect.x as nat);
    let y = crate::text::decimal(rect.y as nat);
    let w = crate::text::decimal(rect.width as nat);
    let h = crate::text::decimal(rect.height as nat);
    let wh = w + seq![','] + h;
    let ywh = y + seq![','] + wh;
    let n = rect_numbers(rect);
    assert(n =~= x + seq![','] + ywh);
    assert(n.last() == h.last());
    assert forall|i: int| 0 <= i < n.len() implies #[trigger] n[i] != ';' by {
        if i < x.len() {
            assert(n[i] == x[i]);
        } else if i > x.len() {
            let j = i - x.len() - 1;
            assert(n[i] == ywh[j]);
            if j < y.len() {
                assert(ywh[j] == y[j]);
            } else if j > y.len() {
                let k = j - y.len() - 1;
                assert(ywh[j] == wh[k]);
                if k < w.len() {
                    assert(wh[k] == w[k]);
                } else if k > w.len() {
                    assert(wh[k] == h[k - w.len() - 1]);
                }
            }
        }
    }
}

proof fn lemma_numeral(t: Seq<char>)
    requires
        crate::numerals::is_numeral(t),
    ensures
        crate::text::trimmed(t) == t,
        !crate::text::is_space(t.last()),
        forall|i: int| 0 <= i < t.len() ==> #[trigger] t[i] != ',' && t[i] != ';',
{
    assert(crate::text::is_digit(t[0]) || t[0] == '.' || t[0] == '-');
    let n = t.len() - 1;
    assert(crate::text::is_digit(t[n]) || t[n] == '.' || t[n] == '-');
    lemma_trim_kept(t);
    assert forall|i: int| 0 <= i < t.len() implies #[trigger] t[i] != ',' && t[i] != ';' by {
        assert(crate::text::is_digit(t[i]) || t[i] == '.' || t[i] == '-');
    }
}

proof fn lemma_fixed_parts(r: Seq<char>, g: Seq<char>, b: Seq<char>)
    requires
        crate::numerals::is_numeral(r),
        crate::numerals::is_numeral(g),
        crate::numerals::is_numeral(b),
    ensures
        ({
            let n = r + seq![','] + (g + seq![','] + b);
            &&& crate::text::trimmed_parts(n, ',') == seq![r, g, b]
            &&& n.len() > 0
            &&& !crate::text::is_space(n.last())
            &&& forall|i: int| 0 <= i < n.len() ==> #[trigger] n[i] != ';'
        }),
{
    lemma_numeral(r);
    lemma_numeral(g);
    lemma_numeral(b);
    let gb = g + seq![','] + b;
    let n = r + seq![','] + gb;
    lemma_split_last(b);
    lemma_split_first(g, b);
    lemma_split_first(r, gb);
    assert(crate::text::split(n, ',') =~= seq![r, g, b]);
    assert(crate::text::trimmed_parts(n, ',') =~= seq![r, g, b]);
    assert(n.last() == b.last());
    assert forall|i: int| 0 <= i < n.len() implies #[trigger] n[i] != ';' by {
        if i < r.len() {
            assert(n[i] == r[i]);
        } else if i > r.len() {
            let j = i - r.len() - 1;
            assert(n[i] == gb[j]);
            if j < g.len() {
                assert(gb[j] == g[j]);
            } else if j > g.len() {
                assert(gb[j] == b[j - g.len() - 1]);
            }
        }
    }
}

/// Three numerals that were copied as a fixed sample read back as they were, with the flag.
pub proof fn copied_numerals_read_back(
    r: Seq<char>,
    g: Seq<char>,
    b: Seq<char>,
    neutral_only: bool,
)
    requires
        crate::numerals::is_numeral(r),
        crate::numerals::is_numeral(g),
        crate::numerals::is_numeral(b),
    ensures
        dmin_text(fixed_text(r, g, b, neutral_only)) == Some(
            (DminValuesView::Fixed(r, g, b), Some(neutral_only)),
        ),
{
    reveal_strlit("dmin:fixed:");
    let tag = "dmin:fixed:"@;
    let n = r + seq![','] + (g + seq![','] + b);
    let f = flag_text(neutral_only);
    let main = tag + n;
    let t = fixed_text(r, g, b, neutral_only);
    lemma_fixed_parts(r, g, b);
    lemma_flag(neutral_only);
    assert(t =~= main + f);
    assert(t[0] == 'd');
    assert(t.last() == f.last());
    lemma_trim_kept(t);
    assert forall|i: int| 0 <= i < main.len() implies t[i] != ';' by {
        if i < tag.len() {
            assert(t[i] == tag[i]);
        } else {
            assert(t[i] == n[i - tag.len()]);
        }
    }
    assert(t[main.len() as int] == f[0]);
    crate::text::lemma_find_is(t, ';', main.len() as int);
    assert(t.take(main.len() as int) =~= main);
    assert(main[0] == 'd');
    assert(main.last() == n.last());
    lemma_trim_kept(main);
    assert(t.skip(main.len() as int + 1) =~= f.drop_first());
    assert(main.take(tag.len() as int) =~= tag);
    assert(main.skip(tag.len() as int) =~= n);
}

/// A fixed base with numbers from zero to one that was copied and pasted is the base again, to a
/// millionth, with its flag.
pub proof fn copied_base_reads_back<F: Fn(Single) -> String, G: Fn(&Vec<char>) -> Option<Single>>(
    opts: PipelineOptions,
    six: F,
    read: G,
    text: Seq<char>,
    r: Option<(Option<(Single, Single, Single)>, Option<Rect>, Option<bool>)>,
)
    requires
        opts.dmin_fixed matches Some((x, y, z)) && crate::single::is_part(x)
            && crate::single::is_part(y) && crate::single::is_part(z),
        copied(opts, six, Some(text)),
        pasted(text, read, r),
    ensures
        r matches Some((Some(u), rect, flag)) && {
            let v = opts.dmin_fixed->0;
            &&& crate::single::is_near(v.0, u.0) && crate::single::is_near(v.1, u.1)
                && crate::single::is_near(v.2, u.2)
            &&& rect is None
            &&& flag == Some(opts.dmin_neutral_only)
        },
{
    let v = opts.dmin_fixed->0;
    let x = crate::numerals::six_decimals(v.0);
    let y = crate::numerals::six_decimals(v.1);
    let z = crate::numerals::six_decimals(v.2);
    assert(text == fixed_text(x, y, z, opts.dmin_neutral_only));
    crate::numerals::six_decimals_read_back(v.0);
    crate::numerals::six_decimals_read_back(v.1);
    crate::numerals::six_decimals_read_back(v.2);
    copied_numerals_read_back(x, y, z, opts.dmin_neutral_only);
}

/// A rectangle with an area that was copied as text reads back as it was, with its flag.
pub proof fn copied_rect_reads_back(rect: Rect, neutral_only: bool)
    requires
        rect.width > 0,
        rect.height > 0,
    ensures
        dmin_text(rect_text(rect, neutral_only)) == Some(
            (DminValuesView::Sample(rect), Some(neutral_only)),
        ),
{
    reveal_strlit("dmin:rect:");
    reveal_strlit("dmin:fixed:");
    let tag = "dmin:rect:"@;
    let n = rect_numbers(rect);
    let f = flag_text(neutral_only);
    let main = tag + n;
    let t = rect_text(rect, neutral_only);
    lemma_numbers_plain(rect);
    lemma_flag(neutral_only);
    assert(t =~= main + f);
    assert(t[0] == 'd');
    assert(t.last() == f.last());
    lemma_trim_kept(t);
    assert forall|i: int| 0 <= i < main.len() implies t[i] != ';' by {
        if i < tag.len() {
            assert(t[i] == tag[i]);
        } else {
            assert(t[i] == n[i - tag.len()]);
        }
    }
    assert(t[main.len() as int] == f[0]);
    crate::text::lemma_find_is(t, ';', main.len() as int);
    assert(t.take(main.len() as int) =~= main);
    assert(main[0] == 'd');
    assert(main.last() == n.last());
    lemma_trim_kept(main);
    assert(t.skip(main.len() as int + 1) =~= f.drop_first());
    assert(main.take(tag.len() as int) =~= tag);
    assert(main.skip(tag.len() as int) =~= n);
    assert(!crate::text::begins(main, "dmin:fixed:"@)) by {
        let fixed = "dmin:fixed:"@;
        if crate::text::begins(main, fixed) {
            assert(main.take(fixed.len() as int)[5] == fixed[5]);
            assert(main[5] == tag[5]);
        }
    }
    lemma_rect_parts(rect);
    lemma_decimal_plain(rect.x);
    lemma_decimal_plain(rect.y);
    lemma_decimal_plain(rect.width);
    lemma_decimal_plain(rect.height);
}

} // verus!
