//! Rendering of numeric field values under Latin conventions: `.` groups
//! thousands and `,` separates the fraction.
use vstd::prelude::*;
use crate::decimal::{
    decimal_parse, decimal_text, decimal_to_string, parse_decimal, rescale_decimal, rescaled,
    MAX_MANTISSA, MAX_SCALE,
};
use crate::text::{
    chars_of, contains_char, extend_range, has_char, lowercase_of, same_chars, string_of,
    to_lowercase, trim_range, trimmed,
};

verus! {

/// What a field holds, and so how its raw text is turned into a value.
#[derive(Clone, Copy, Debug, PartialEq, Eq, Structural)]
pub enum FieldKind {
    /// Text, kept as it is.
    Plain,
    /// A code, annotated from a lookup table.
    Table,
    /// Digits whose last places are the fraction ("zamount").
    ImplicitAmount,
    /// A Latin-formatted amount ("amount"); two places unless given.
    ExplicitAmount,
    /// A Latin-formatted number ("numeric").
    Numeric,
}

/// The kind that a field's type name stands for.
pub open spec fn kind_of_name(s: Seq<char>) -> FieldKind {
    if s == seq!['t', 'a', 'b', 'l', 'e'] {
        FieldKind::Table
    } else if s == seq!['z', 'a', 'm', 'o', 'u', 'n', 't'] {
        FieldKind::ImplicitAmount
    } else if s == seq!['a', 'm', 'o', 'u', 'n', 't'] {
        FieldKind::ExplicitAmount
    } else if s == seq!['n', 'u', 'm', 'e', 'r', 'i', 'c'] {
        FieldKind::Numeric
    } else {
        FieldKind::Plain
    }
}

impl FieldKind {
    /// The kind named by a field's type name (compared exactly).
    pub fn from_name(name: &str) -> (r: FieldKind)
        ensures
            r == kind_of_name(name@),
    {
        let cs = chars_of(name);
        if same_chars(&cs, &vec!['t', 'a', 'b', 'l', 'e']) {
            FieldKind::Table
        } else if same_chars(&cs, &vec!['z', 'a', 'm', 'o', 'u', 'n', 't']) {
            FieldKind::ImplicitAmount
        } else if same_chars(&cs, &vec!['a', 'm', 'o', 'u', 'n', 't']) {
            FieldKind::ExplicitAmount
        } else if same_chars(&cs, &vec!['n', 'u', 'm', 'e', 'r', 'i', 'c']) {
            FieldKind::Numeric
        } else {
            FieldKind::Plain
        }
    }
}

pub open spec fn zeros(n: nat) -> Seq<char> {
    Seq::new(n, |_i: int| '0')
}

pub open spec fn trim_leading_zeros(s: Seq<char>) -> Seq<char>
    decreases s.len(),
{
    if s.len() > 0 && s[0] == '0' {
        trim_leading_zeros(s.drop_first())
    } else {
        s
    }
}

/// The point-separated text of an implicit-decimal numeral `t` whose last
/// `places` digits are the fraction: left-padded with zeros to keep one
/// whole digit, the whole part stripped of leading zeros ("0" if none is left).
pub open spec fn implicit_decimal_text(t: Seq<char>, places: nat) -> Seq<char> {
    let padded = if t.len() < places {
        zeros((places - t.len() + 1) as nat) + t
    } else {
        t
    };
    let cut = padded.len() - places;
    let whole = trim_leading_zeros(padded.subrange(0, cut));
    (if whole.len() == 0 {
        seq!['0']
    } else {
        whole
    }) + seq!['.'] + padded.subrange(cut, padded.len() as int)
}

/// `t` with every `.` removed and every `,` turned into `.`.
pub open spec fn latin_to_standard(t: Seq<char>) -> Seq<char>
    decreases t.len(),
{
    if t.len() == 0 {
        Seq::empty()
    } else {
        let c = t.last();
        latin_to_standard(t.drop_last()) + (if c == '.' {
            Seq::empty()
        } else if c == ',' {
            seq!['.']
        } else {
            seq![c]
        })
    }
}

/// The point-separated text of a Latin-formatted number `t`, with `places`
/// zero fraction digits added where it has no fraction.
pub open spec fn explicit_decimal_text(t: Seq<char>, places: nat) -> Seq<char> {
    let s = latin_to_standard(t);
    if !contains_char(s, '.') && places > 0 {
        s + seq!['.'] + zeros(places)
    } else {
        s
    }
}

/// The digits `d` in runs of three from the right, joined by `.`.
pub open spec fn group_thousands(d: Seq<char>) -> Seq<char>
    decreases d.len(),
{
    if d.len() <= 3 {
        d
    } else {
        group_thousands(d.subrange(0, d.len() - 3)) + seq!['.'] + d.subrange(
            d.len() - 3,
            d.len() as int,
        )
    }
}

/// The index of the first `c` in `s`, or its length where there is none.
pub open spec fn position_of(s: Seq<char>, c: char) -> int
    decreases s.len(),
{
    if s.len() == 0 || s[0] == c {
        0
    } else {
        1 + position_of(s.drop_first(), c)
    }
}

/// `s` without any `c`.
pub open spec fn without_char(s: Seq<char>, c: char) -> Seq<char>
    decreases s.len(),
{
    if s.len() == 0 {
        Seq::empty()
    } else {
        without_char(s.drop_last(), c) + (if s.last() == c {
            Seq::empty()
        } else {
            seq![s.last()]
        })
    }
}

/// `s` with every `.` turned into `,`.
pub open spec fn dots_to_commas(s: Seq<char>) -> Seq<char>
    decreases s.len(),
{
    if s.len() == 0 {
        Seq::empty()
    } else {
        dots_to_commas(s.drop_last()) + seq![
            if s.last() == '.' {
                ','
            } else {
                s.last()
            },
        ]
    }
}

/// A point-separated number `txt` in Latin form with grouped thousands: the
/// sign in front, the digits before the first `.` grouped by three, `,`,
/// then what follows that `.` ("00" where there is none).
pub open spec fn grouped_latin(txt: Seq<char>) -> Seq<char> {
    let p = position_of(txt, '.');
    let whole = txt.subrange(0, p);
    let fraction = if p < txt.len() {
        txt.subrange(p + 1, txt.len() as int)
    } else {
        seq!['0', '0']
    };
    (if contains_char(whole, '-') {
        seq!['-']
    } else {
        Seq::empty()
    }) + group_thousands(without_char(whole, '-')) + seq![','] + fraction
}

/// The scale that a decimal is brought to for `places` fraction digits.
pub open spec fn target_scale(places: nat) -> nat {
    if places < MAX_SCALE {
        places
    } else {
        MAX_SCALE as nat
    }
}

/// The decimal `m / 10^e` brought to `places` fraction digits and written
/// in Latin form, with grouped thousands where `grouped` is set.
pub open spec fn latin_rendering(m: int, e: nat, places: nat, grouped: bool) -> Seq<char> {
    let r = rescaled(m, e, target_scale(places));
    let txt = decimal_text(r.0, r.1);
    if grouped {
        grouped_latin(txt)
    } else {
        dots_to_commas(txt)
    }
}

/// The decimal read from `number`, brought to `places` fraction digits and
/// written in Latin form; `raw` itself where `number` is no decimal.
pub open spec fn render_decimal(raw: Seq<char>, number: Seq<char>, places: nat, grouped: bool) -> Seq<
    char,
> {
    match decimal_parse(number) {
        None => raw,
        Some(p) => latin_rendering(p.0 as int, p.1 as nat, places, grouped),
    }
}

/// Writes the decimal with mantissa `mantissa` and scale `scale` in Latin
/// form with `places` fraction digits (rounded half away from zero where it
/// has more; capped at the 28 places a decimal holds), grouping thousands
/// with `.` where `grouped` is set.
pub fn render_parsed_decimal(mantissa: i128, scale: u32, places: usize, grouped: bool) -> (r:
    String)
    requires
        scale <= MAX_SCALE,
        -MAX_MANTISSA <= mantissa <= MAX_MANTISSA,
    ensures
        r@ == latin_rendering(mantissa as int, scale as nat, places as nat, grouped),
{
    let out = latin_chars(mantissa, scale, places, grouped);
    string_of(out.as_slice())
}

fn latin_chars(mantissa: i128, scale: u32, places: usize, grouped: bool) -> (r: Vec<char>)
    requires
        scale <= MAX_SCALE,
        -MAX_MANTISSA <= mantissa <= MAX_MANTISSA,
    ensures
        r@ == latin_rendering(mantissa as int, scale as nat, places as nat, grouped),
{
    let target: u32 = if places < MAX_SCALE as usize {
        places as u32
    } else {
        MAX_SCALE
    };
    let (m2, e2) = rescale_decimal(mantissa, scale, target);
    let printed = decimal_to_string(m2, e2);
    let cs = chars_of(printed.as_str());
    if grouped {
        grouped_latin_chars(&cs)
    } else {
        commas_for_dots(&cs)
    }
}

/// The rendered value of the raw field text `raw` of kind `kind`.
pub open spec fn formatted_value(raw: Seq<char>, kind: FieldKind, grouped: bool, places: nat) -> Seq<
    char,
> {
    let t = trimmed(raw);
    if t.len() == 0 {
        if places > 0 {
            seq!['0', ',', '0', '0']
        } else {
            seq!['0']
        }
    } else {
        match kind {
            FieldKind::ImplicitAmount => render_decimal(
                raw,
                implicit_decimal_text(t, places),
                places,
                grouped,
            ),
            FieldKind::ExplicitAmount => render_decimal(
                raw,
                explicit_decimal_text(t, places),
                if places == 0 {
                    2
                } else {
                    places
                },
                grouped,
            ),
            FieldKind::Numeric => render_decimal(
                raw,
                explicit_decimal_text(t, places),
                places,
                grouped,
            ),
            _ => t,
        }
    }
}

fn push_zeros(out: &mut Vec<char>, n: usize)
    ensures
        final(out)@ == old(out)@ + zeros(n as nat),
{
    let ghost start = out@;
    let mut k: usize = 0;
    while k < n
        invariant
            k <= n,
            out@ == start + zeros(k as nat),
        decreases n - k,
    {
        out.push('0');
        k = k + 1;
        assert(out@ =~= start + zeros(k as nat));
    }
}

fn implicit_decimal_chars(t: &Vec<char>, places: usize) -> (r: Vec<char>)
    requires
        t@.len() > 0,
    ensures
        r@ == implicit_decimal_text(t@, places as nat),
{
    let mut padded: Vec<char> = Vec::new();
    if t.len() < places {
        push_zeros(&mut padded, places - t.len() + 1);
    }
    extend_range(&mut padded, t, 0, t.len());
    assert(t@.subrange(0, t@.len() as int) =~= t@);
    assert(padded@ =~= (if t@.len() < places {
        zeros((places - t@.len() + 1) as nat) + t@
    } else {
        t@
    }));
    let cut = padded.len() - places;
    let mut lo: usize = 0;
    while lo < cut && padded[lo] == '0'
        invariant
            lo <= cut <= padded@.len(),
            trim_leading_zeros(padded@.subrange(0, cut as int)) == trim_leading_zeros(
                padded@.subrange(lo as int, cut as int),
            ),
        decreases cut - lo,
    {
        assert(padded@.subrange(lo as int, cut as int).drop_first() =~= padded@.subrange(
            lo + 1,
            cut as int,
        ));
        lo = lo + 1;
    }
    assert(trim_leading_zeros(padded@.subrange(lo as int, cut as int)) == padded@.subrange(
        lo as int,
        cut as int,
    ));
    let mut r: Vec<char> = Vec::new();
    if lo == cut {
        r.push('0');
    } else {
        extend_range(&mut r, &padded, lo, cut);
    }
    r.push('.');
    extend_range(&mut r, &padded, cut, padded.len());
    r
}

fn standard_chars(t: &Vec<char>) -> (r: Vec<char>)
    ensures
        r@ == latin_to_standard(t@),
{
    let mut r: Vec<char> = Vec::new();
    let mut i: usize = 0;
    while i < t.len()
        invariant
            i <= t@.len(),
            r@ == latin_to_standard(t@.subrange(0, i as int)),
        decreases t@.len() - i,
    {
        assert(t@.subrange(0, i + 1).drop_last() =~= t@.subrange(0, i as int));
        let c = t[i];
        if c == ',' {
            r.push('.');
        } else if c != '.' {
            r.push(c);
        }
        i = i + 1;
        assert(r@ =~= latin_to_standard(t@.subrange(0, i as int)));
    }
    assert(t@.subrange(0, t@.len() as int) =~= t@);
    r
}

fn explicit_decimal_chars(t: &Vec<char>, places: usize) -> (r: Vec<char>)
    ensures
        r@ == explicit_decimal_text(t@, places as nat),
{
    let mut s = standard_chars(t);
    if !has_char(&s, '.') && places > 0 {
        s.push('.');
        push_zeros(&mut s, places);
    }
    s
}

fn group_digits(d: &Vec<char>) -> (r: Vec<char>)
    ensures
        r@ == group_thousands(d@),
{
    let n = d.len();
    let mut first: usize = n % 3;
    if first == 0 && n > 0 {
        first = 3;
    }
    let mut r: Vec<char> = Vec::new();
    extend_range(&mut r, d, 0, first);
    assert(r@ =~= d@.subrange(0, first as int));
    let mut i: usize = first;
    while i < n
        invariant
            first <= i <= n == d@.len(),
            (n - i) % 3 == 0,
            n > 0 ==> i >= 1,
            r@ == group_thousands(d@.subrange(0, i as int)),
        decreases n - i,
    {
        r.push('.');
        extend_range(&mut r, d, i, i + 3);
        proof {
            let p = d@.subrange(0, i + 3);
            assert(p.subrange(0, p.len() - 3) =~= d@.subrange(0, i as int));
            assert(p.subrange(p.len() - 3, p.len() as int) =~= d@.subrange(i as int, i + 3));
        }
        i = i + 3;
    }
    assert(d@.subrange(0, n as int) =~= d@);
    r
}

fn grouped_latin_chars(txt: &Vec<char>) -> (r: Vec<char>)
    ensures
        r@ == grouped_latin(txt@),
{
    let n = txt.len();
    let mut p: usize = 0;
    assert(txt@.subrange(0, n as int) =~= txt@);
    while p < n && txt[p] != '.'
        invariant
            p <= n == txt@.len(),
            position_of(txt@, '.') == p + position_of(txt@.subrange(p as int, n as int), '.'),
        decreases n - p,
    {
        assert(txt@.subrange(p as int, n as int).drop_first() =~= txt@.subrange(p + 1, n as int));
        p = p + 1;
    }
    let mut negative = false;
    let mut digits: Vec<char> = Vec::new();
    let mut i: usize = 0;
    while i < p
        invariant
            i <= p <= n == txt@.len(),
            negative == contains_char(txt@.subrange(0, i as int), '-'),
            digits@ == without_char(txt@.subrange(0, i as int), '-'),
        decreases p - i,
    {
        assert(txt@.subrange(0, i + 1).drop_last() =~= txt@.subrange(0, i as int));
        let c = txt[i];
        if c == '-' {
            negative = true;
        } else {
            digits.push(c);
        }
        i = i + 1;
        assert(digits@ =~= without_char(txt@.subrange(0, i as int), '-'));
    }
    let mut r: Vec<char> = Vec::new();
    if negative {
        r.push('-');
    }
    let g = group_digits(&digits);
    extend_range(&mut r, &g, 0, g.len());
    r.push(',');
    if p < n {
        extend_range(&mut r, txt, p + 1, n);
    } else {
        r.push('0');
        r.push('0');
    }
    assert(g@.subrange(0, g@.len() as int) =~= g@);
    assert(r@ =~= grouped_latin(txt@));
    r
}

fn commas_for_dots(s: &Vec<char>) -> (r: Vec<char>)
    ensures
        r@ == dots_to_commas(s@),
{
    let mut r: Vec<char> = Vec::new();
    let mut i: usize = 0;
    while i < s.len()
        invariant
            i <= s@.len(),
            r@ == dots_to_commas(s@.subrange(0, i as int)),
        decreases s@.len() - i,
    {
        assert(s@.subrange(0, i + 1).drop_last() =~= s@.subrange(0, i as int));
        let c = s[i];
        if c == '.' {
            r.push(',');
        } else {
            r.push(c);
        }
        i = i + 1;
        assert(r@ =~= dots_to_commas(s@.subrange(0, i as int)));
    }
    assert(s@.subrange(0, s@.len() as int) =~= s@);
    r
}

fn render_decimal_chars(raw: &Vec<char>, number: &Vec<char>, places: usize, grouped: bool) -> (r:
    Vec<char>)
    ensures
        r@ == render_decimal(raw@, number@, places as nat, grouped),
{
    let text = string_of(number.as_slice());
    match parse_decimal(text.as_str()) {
        None => {
            let mut r: Vec<char> = Vec::new();
            extend_range(&mut r, raw, 0, raw.len());
            assert(r@ =~= raw@);
            r
        },
        Some((m, e)) => latin_chars(m, e, places, grouped),
    }
}

/// The rendered value of the raw field characters `raw` of kind `kind`.
pub fn format_chars(raw: &Vec<char>, kind: FieldKind, grouped: bool, places: usize) -> (r: Vec<
    char,
>)
    ensures
        r@ == formatted_value(raw@, kind, grouped, places as nat),
{
    let t = trim_range(raw, 0, raw.len());
    assert(raw@.subrange(0, raw@.len() as int) =~= raw@);
    if t.len() == 0 {
        let mut r: Vec<char> = Vec::new();
        r.push('0');
        if places > 0 {
            r.push(',');
            r.push('0');
            r.push('0');
        }
        assert(r@ =~= formatted_value(raw@, kind, grouped, places as nat));
        return r;
    }
    match kind {
        FieldKind::ImplicitAmount => {
            let number = implicit_decimal_chars(&t, places);
            render_decimal_chars(raw, &number, places, grouped)
        },
        FieldKind::ExplicitAmount => {
            let number = explicit_decimal_chars(&t, places);
            render_decimal_chars(
                raw,
                &number,
                if places == 0 {
                    2
                } else {
                    places
                },
                grouped,
            )
        },
        FieldKind::Numeric => {
            let number = explicit_decimal_chars(&t, places);
            render_decimal_chars(raw, &number, places, grouped)
        },
        _ => t,
    }
}

/// Renders the raw text of a field of kind `kind` with `decimal_places`
/// fraction digits, grouping thousands with `.` where `format_numeric` is set.
///
/// Blank text gives "0,00" (or "0" where there are no places). Text that is
/// no number is handed back unchanged; text of a non-numeric kind comes back
/// trimmed. Scales beyond the 28 places that a decimal holds are capped there.
pub fn format_value(raw: &str, kind: FieldKind, format_numeric: bool, decimal_places: usize) -> (r:
    String)
    ensures
        r@ == formatted_value(raw@, kind, format_numeric, decimal_places as nat),
{
    let cs = chars_of(raw);
    let out = format_chars(&cs, kind, format_numeric, decimal_places);
    string_of(out.as_slice())
}

/// Renders the raw text of a field whose type is named `field_type`, in any
/// letter case ("zamount", "amount", "numeric"); see [`format_value`].
pub fn format_field_value(
    raw_value: &str,
    field_type: &str,
    format_numeric: bool,
    decimal_places: usize,
) -> (r: String)
    ensures
        r@ == formatted_value(
            raw_value@,
            kind_of_name(lowercase_of(field_type@)),
            format_numeric,
            decimal_places as nat,
        ),
{
    let lowered = to_lowercase(field_type);
    let kind = FieldKind::from_name(lowered.as_str());
    format_value(raw_value, kind, format_numeric, decimal_places)
}

} // verus!
